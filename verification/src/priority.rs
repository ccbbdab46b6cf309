//! Priority scoring and the transmission queue.

use crate::double::Double;
use crate::double::ZERO_BITS;
use crate::heap::MaxHeap;
use crate::sorting::Keyed;
use crate::timestamp;
use crate::timestamp::Timestamp;
use std::cmp::Ordering;
use vstd::multiset::Multiset;
use vstd::prelude::*;

verus! {

/// The bits of 1.0, the default weight of criticality and the value of routine telemetry.
pub const ONE_BITS: u64 = 0x3FF0_0000_0000_0000;

/// The bits of 1000.0, the value of an anomaly.
pub const THOUSAND_BITS: u64 = 0x408F_4000_0000_0000;

/// The bits of 0.01, the default weight of the wait.
pub const DEFAULT_W_AGE_BITS: u64 = 0x3F84_7AE1_47AE_147B;

/// The bits of 0.5, the default weight of the size.
pub const DEFAULT_W_SIZE_BITS: u64 = 0x3FE0_0000_0000_0000;

/// Priority weight configuration.
#[derive(Clone, Copy, Debug)]
pub struct PScoreWeights {
    /// Weight of criticality (Wc). Default: 1.0.
    pub w_criticality: Double,
    /// Weight of the wait (Wa). Default: 0.01.
    pub w_age: Double,
    /// Weight of the size penalty (Ws). Default: 0.5.
    pub w_size: Double,
}

/// The number that is set, or the default where none is.
pub open spec fn number_or(value: Option<Double>, default_bits: u64) -> Double {
    match value {
        Some(number) => number,
        None => Double { bits: default_bits },
    }
}

/// The number that is set, or the default where none is.
pub fn set_number_or(value: Option<Double>, default_bits: u64) -> (number: Double)
    ensures
        number == number_or(value, default_bits),
{
    match value {
        Some(number) => number,
        None => Double::from_bits(default_bits),
    }
}

impl Default for PScoreWeights {
    fn default() -> (weights: PScoreWeights)
        ensures
            weights.w_criticality.bits == ONE_BITS,
            weights.w_age.bits == DEFAULT_W_AGE_BITS,
            weights.w_size.bits == DEFAULT_W_SIZE_BITS,
    {
        PScoreWeights {
            w_criticality: Double::from_bits(ONE_BITS),
            w_age: Double::from_bits(DEFAULT_W_AGE_BITS),
            w_size: Double::from_bits(DEFAULT_W_SIZE_BITS),
        }
    }
}

impl PScoreWeights {
    /// Makes the weights of the numbers that the environment variables hold, where they hold
    /// one.
    pub fn from_env(
        w_criticality: Option<Double>,
        w_age: Option<Double>,
        w_size: Option<Double>,
    ) -> (weights: PScoreWeights)
        ensures
            weights.w_criticality == number_or(w_criticality, ONE_BITS),
            weights.w_age == number_or(w_age, DEFAULT_W_AGE_BITS),
            weights.w_size == number_or(w_size, DEFAULT_W_SIZE_BITS),
    {
        PScoreWeights {
            w_criticality: set_number_or(w_criticality, ONE_BITS),
            w_age: set_number_or(w_age, DEFAULT_W_AGE_BITS),
            w_size: set_number_or(w_size, DEFAULT_W_SIZE_BITS),
        }
    }
}

/// Criticality levels.
#[derive(Clone, Copy, Debug, PartialEq, Eq, Structural)]
pub enum Criticality {
    /// Anomaly detection: highest priority (C = 1000).
    Anomaly,
    /// Routine telemetry (C = 1).
    Routine,
}

impl Criticality {
    /// The numeric value of a criticality level.
    pub open spec fn value_spec(self) -> Double {
        match self {
            Criticality::Anomaly => Double { bits: THOUSAND_BITS },
            Criticality::Routine => Double { bits: ONE_BITS },
        }
    }

    /// The numeric value of this criticality level.
    pub fn value(self) -> (v: Double)
        ensures
            v == self.value_spec(),
    {
        match self {
            Criticality::Anomaly => Double::from_bits(THOUSAND_BITS),
            Criticality::Routine => Double::from_bits(ONE_BITS),
        }
    }
}

/// What the score of an entry is computed of, besides the weights:
/// P = (Wc * C) + (Wa * T_wait) - (Ws * S_mb).
#[derive(Clone, Copy, Debug)]
pub struct ScoreTerms {
    /// The criticality (C).
    pub criticality: Double,
    /// The wait in whole seconds, never negative (T_wait).
    pub wait_secs: i64,
    /// The payload size in megabytes (S_mb).
    pub size_mb: Double,
}

/// A single entry in the priority transmission queue.
#[derive(Clone, Debug)]
pub struct PScoreEntry {
    /// Unique identifier of this data object.
    pub id: String,
    /// File path on the vault (the .sealed file).
    pub sealed_path: String,
    /// Criticality level.
    pub criticality: Criticality,
    /// When the data was ingested.
    pub ingested_at: Timestamp,
    /// Payload size in megabytes.
    pub size_mb: Double,
    /// Whether this entry has been transmitted.
    pub transmitted: bool,
    /// The score as last computed.
    pub cached_score: Double,
}

/// Whether two entries agree in everything but the score.
pub open spec fn same_data(a: PScoreEntry, b: PScoreEntry) -> bool {
    &&& a.id == b.id
    &&& a.sealed_path == b.sealed_path
    &&& a.criticality == b.criticality
    &&& a.ingested_at == b.ingested_at
    &&& a.size_mb == b.size_mb
    &&& a.transmitted == b.transmitted
}

/// Whether `new_entry` is `old_entry` with the score that the formula gives at a time.
pub open spec fn rescored_at<F: Fn(&PScoreWeights, ScoreTerms) -> Double>(
    old_entry: PScoreEntry,
    new_entry: PScoreEntry,
    now: Timestamp,
    weights: PScoreWeights,
    formula: F,
) -> bool {
    &&& same_data(old_entry, new_entry)
    &&& call_ensures(formula, (&weights, old_entry.terms_at(now)), new_entry.cached_score)
}

/// Whether the score of an entry is the one that the formula gives at a time.
pub open spec fn scored_at<F: Fn(&PScoreWeights, ScoreTerms) -> Double>(
    entry: PScoreEntry,
    now: Timestamp,
    weights: PScoreWeights,
    formula: F,
) -> bool {
    call_ensures(formula, (&weights, entry.terms_at(now)), entry.cached_score)
}

impl PScoreEntry {
    /// What the score is computed of at a time.
    pub open spec fn terms_at(&self, now: Timestamp) -> ScoreTerms {
        let wait = now.seconds_since_spec(self.ingested_at);
        ScoreTerms {
            criticality: self.criticality.value_spec(),
            wait_secs: (if wait < 0 { 0 } else { wait }) as i64,
            size_mb: self.size_mb,
        }
    }

    /// Creates a new entry with its score for the current time.
    pub fn new<F: Fn(&PScoreWeights, ScoreTerms) -> Double>(
        id: String,
        sealed_path: String,
        criticality: Criticality,
        ingested_at: Timestamp,
        size_mb: Double,
        weights: &PScoreWeights,
        formula: &F,
    ) -> (entry: PScoreEntry)
        requires
            ingested_at.wf(),
            forall|t: ScoreTerms| call_requires(*formula, (weights, t)),
        ensures
            entry.id == id,
            entry.sealed_path == sealed_path,
            entry.criticality == criticality,
            entry.ingested_at == ingested_at,
            entry.size_mb == size_mb,
            !entry.transmitted,
            exists|now: Timestamp|
                timestamp::is_reading(now) && #[trigger] scored_at(entry, now, *weights, *formula),
    {
        let now = timestamp::read_clock();
        PScoreEntry::new_at(
            id,
            sealed_path,
            criticality,
            ingested_at,
            size_mb,
            now,
            weights,
            formula,
        )
    }

    /// Creates a new entry with its score for a given time.
    pub fn new_at<F: Fn(&PScoreWeights, ScoreTerms) -> Double>(
        id: String,
        sealed_path: String,
        criticality: Criticality,
        ingested_at: Timestamp,
        size_mb: Double,
        now: Timestamp,
        weights: &PScoreWeights,
        formula: &F,
    ) -> (entry: PScoreEntry)
        requires
            ingested_at.wf(),
            now.wf(),
            forall|t: ScoreTerms| call_requires(*formula, (weights, t)),
        ensures
            entry.id == id,
            entry.sealed_path == sealed_path,
            entry.criticality == criticality,
            entry.ingested_at == ingested_at,
            entry.size_mb == size_mb,
            !entry.transmitted,
            scored_at(entry, now, *weights, *formula),
    {
        let mut entry = PScoreEntry {
            id,
            sealed_path,
            criticality,
            ingested_at,
            size_mb,
            transmitted: false,
            cached_score: Double::from_bits(ZERO_BITS),
        };
        let ghost blank = entry;
        entry.recompute_score_at(now, weights, formula);
        assert(entry.terms_at(now) == blank.terms_at(now));
        entry
    }

    /// Recomputes the score for the current time.
    pub fn recompute_score<F: Fn(&PScoreWeights, ScoreTerms) -> Double>(
        &mut self,
        weights: &PScoreWeights,
        formula: &F,
    )
        requires
            old(self).ingested_at.wf(),
            forall|t: ScoreTerms| call_requires(*formula, (weights, t)),
        ensures
            exists|now: Timestamp|
                timestamp::is_reading(now) && #[trigger] rescored_at(
                    *old(self),
                    *final(self),
                    now,
                    *weights,
                    *formula,
                ),
    {
        let now = timestamp::read_clock();
        self.recompute_score_at(now, weights, formula);
    }

    /// Recomputes the score for a given time.
    pub fn recompute_score_at<F: Fn(&PScoreWeights, ScoreTerms) -> Double>(
        &mut self,
        now: Timestamp,
        weights: &PScoreWeights,
        formula: &F,
    )
        requires
            now.wf(),
            old(self).ingested_at.wf(),
            forall|t: ScoreTerms| call_requires(*formula, (weights, t)),
        ensures
            rescored_at(*old(self), *final(self), now, *weights, *formula),
    {
        let wait: i64 = now.seconds_since(&self.ingested_at);
        let terms = ScoreTerms {
            criticality: self.criticality.value(),
            wait_secs: if wait < 0 { 0 } else { wait },
            size_mb: self.size_mb,
        };
        self.cached_score = formula(weights, terms);
    }

    /// The cached score.
    pub fn score(&self) -> (s: Double)
        ensures
            s == self.cached_score,
    {
        self.cached_score
    }
}

/// Entries are the same when their identifiers are.
impl PartialEq for PScoreEntry {
    fn eq(&self, other: &Self) -> (r: bool) {
        self.id == other.id
    }
}

impl vstd::std_specs::cmp::PartialEqSpecImpl for PScoreEntry {
    open spec fn obeys_eq_spec() -> bool {
        true
    }

    open spec fn eq_spec(&self, other: &Self) -> bool {
        self.id@ == other.id@
    }
}

impl Eq for PScoreEntry {

}

impl PScoreEntry {
    /// How two entries are ordered: the higher score is the higher priority. Where a score is
    /// not a number, neither side wins.
    pub open spec fn order_to(&self, other: &PScoreEntry) -> Ordering {
        if self.cached_score.lt_spec(other.cached_score) {
            Ordering::Less
        } else if other.cached_score.lt_spec(self.cached_score) {
            Ordering::Greater
        } else {
            Ordering::Equal
        }
    }

    /// Orders two entries by their scores.
    pub fn cmp(&self, other: &PScoreEntry) -> (order: Ordering)
        ensures
            order == self.order_to(other),
    {
        if self.cached_score.lt(&other.cached_score) {
            Ordering::Less
        } else if other.cached_score.lt(&self.cached_score) {
            Ordering::Greater
        } else {
            Ordering::Equal
        }
    }
}

impl PartialOrd for PScoreEntry {
    fn partial_cmp(&self, other: &Self) -> (r: Option<Ordering>) {
        Some(self.cmp(other))
    }
}

impl vstd::std_specs::cmp::PartialOrdSpecImpl for PScoreEntry {
    open spec fn obeys_partial_cmp_spec() -> bool {
        true
    }

    open spec fn partial_cmp_spec(&self, other: &Self) -> Option<Ordering> {
        Some(self.order_to(other))
    }
}

impl Keyed for PScoreEntry {
    open spec fn key(&self) -> int {
        self.cached_score.standing()
    }

    fn sort_key(&self) -> (k: i128) {
        self.cached_score.standing_key() as i128
    }
}

/// Whether no entry of a queue has a higher priority than the given one.
pub open spec fn is_top(entries: Multiset<PScoreEntry>, top: PScoreEntry) -> bool {
    &&& entries.count(top) > 0
    &&& forall|e: PScoreEntry|
        #[trigger] entries.count(e) > 0 ==> e.cached_score.standing()
            <= top.cached_score.standing()
}

/// Whether the entries of a queue are those of before, each with the score that the formula
/// gives at one time.
pub open spec fn all_rescored_at<F: Fn(&PScoreWeights, ScoreTerms) -> Double>(
    old_entries: Multiset<PScoreEntry>,
    new_entries: Multiset<PScoreEntry>,
    now: Timestamp,
    weights: PScoreWeights,
    formula: F,
) -> bool {
    exists|was: Seq<PScoreEntry>, is: Seq<PScoreEntry>|
        {
            &&& #[trigger] was.to_multiset() == old_entries
            &&& #[trigger] is.to_multiset() == new_entries
            &&& was.len() == is.len()
            &&& forall|i: int|
                0 <= i < was.len() ==> rescored_at(#[trigger] was[i], is[i], now, weights, formula)
        }
}

/// Whether a queue shows this as the entry that comes out first.
pub open spec fn peeked(queue: PriorityQueue, top: Option<PScoreEntry>) -> bool {
    match top {
        Some(entry) => is_top(queue.entries(), entry) && entry == queue.top(),
        None => queue.entries().len() == 0,
    }
}

/// Whether taking the first entry out of a queue gives this and leaves the queue so.
pub open spec fn popped(
    before: PriorityQueue,
    after: PriorityQueue,
    top: Option<PScoreEntry>,
) -> bool {
    &&& peeked(before, top)
    &&& after.weights_spec() == before.weights_spec()
    &&& match top {
        Some(entry) => after.entries() == before.entries().remove(entry),
        None => after.entries() == before.entries(),
    }
}

/// The priority transmission queue, backed by a binary max-heap. The entry with the highest
/// score comes first; entries whose score is not a number come last.
pub struct PriorityQueue {
    heap: MaxHeap<PScoreEntry>,
    weights: PScoreWeights,
}

impl PriorityQueue {
    /// The entries that wait.
    pub closed spec fn entries(&self) -> Multiset<PScoreEntry> {
        self.heap@
    }

    /// The entry that comes out first, where there is one.
    pub closed spec fn top(&self) -> PScoreEntry {
        self.heap.top()
    }

    /// The weights of the scores.
    pub closed spec fn weights_spec(&self) -> PScoreWeights {
        self.weights
    }

    #[verifier::type_invariant]
    spec fn inv(self) -> bool {
        forall|e: PScoreEntry| #[trigger] self.heap@.count(e) > 0 ==> e.ingested_at.wf()
    }

    /// Creates a new empty priority queue with the given weights.
    pub fn new(weights: PScoreWeights) -> (queue: PriorityQueue)
        ensures
            queue.entries() == Multiset::<PScoreEntry>::empty(),
            queue.weights_spec() == weights,
    {
        PriorityQueue { heap: MaxHeap::new(), weights }
    }

    /// Inserts a new entry into the priority queue.
    pub fn push(&mut self, entry: PScoreEntry)
        requires
            entry.ingested_at.wf(),
        ensures
            final(self).entries() == old(self).entries().insert(entry),
            final(self).weights_spec() == old(self).weights_spec(),
    {
        proof {
            use_type_invariant(&*self);
        }
        let mut heap: MaxHeap<PScoreEntry> = MaxHeap::new();
        std::mem::swap(&mut heap, &mut self.heap);
        heap.push(entry);
        self.heap = heap;
    }

    /// Pops the highest-priority entry for transmission.
    pub fn pop(&mut self) -> (top: Option<PScoreEntry>)
        ensures
            popped(*old(self), *final(self), top),
            top matches Some(entry) ==> entry.ingested_at.wf(),
    {
        proof {
            use_type_invariant(&*self);
        }
        let mut heap: MaxHeap<PScoreEntry> = MaxHeap::new();
        std::mem::swap(&mut heap, &mut self.heap);
        let top = heap.pop();
        self.heap = heap;
        top
    }

    /// Peeks at the highest-priority entry without removing it.
    pub fn peek(&self) -> (top: Option<&PScoreEntry>)
        ensures
            match top {
                Some(entry) => peeked(*self, Some(*entry)),
                None => peeked(*self, None),
            },
    {
        self.heap.peek()
    }

    /// The number of entries in the queue.
    pub fn len(&self) -> (n: usize)
        ensures
            n == self.entries().len(),
    {
        self.heap.len()
    }

    /// Whether the queue is empty.
    pub fn is_empty(&self) -> (r: bool)
        ensures
            r == (self.entries().len() == 0),
    {
        self.heap.len() == 0
    }

    /// Recomputes all scores for the current time, to account for aging.
    pub fn refresh_scores<F: Fn(&PScoreWeights, ScoreTerms) -> Double>(&mut self, formula: &F)
        requires
            forall|w: &PScoreWeights, t: ScoreTerms| call_requires(*formula, (w, t)),
        ensures
            exists|now: Timestamp|
                timestamp::is_reading(now) && #[trigger] all_rescored_at(
                    old(self).entries(),
                    final(self).entries(),
                    now,
                    old(self).weights_spec(),
                    *formula,
                ),
            final(self).weights_spec() == old(self).weights_spec(),
    {
        let now = timestamp::read_clock();
        self.refresh_scores_at(now, formula);
    }

    /// Recomputes all scores for a given time.
    pub fn refresh_scores_at<F: Fn(&PScoreWeights, ScoreTerms) -> Double>(
        &mut self,
        now: Timestamp,
        formula: &F,
    )
        requires
            now.wf(),
            forall|w: &PScoreWeights, t: ScoreTerms| call_requires(*formula, (w, t)),
        ensures
            all_rescored_at(
                old(self).entries(),
                final(self).entries(),
                now,
                old(self).weights_spec(),
                *formula,
            ),
            final(self).weights_spec() == old(self).weights_spec(),
    {
        broadcast use vstd::seq_lib::group_to_multiset_ensures;

        proof {
            use_type_invariant(&*self);
        }
        let weights = self.weights;
        let mut heap: MaxHeap<PScoreEntry> = MaxHeap::new();
        std::mem::swap(&mut heap, &mut self.heap);
        let mut entries = heap.drain();
        let ghost listed = entries@;
        let ghost mut was: Seq<PScoreEntry> = Seq::empty();
        let ghost mut is: Seq<PScoreEntry> = Seq::empty();
        proof {
            assert forall|i: int| 0 <= i < listed.len() implies (
            #[trigger] listed[i]).ingested_at.wf() by {
                assert(listed.contains(listed[i]));
                assert(listed.to_multiset().count(listed[i]) > 0);
            }
            assert(heap@ =~= is.to_multiset());
            assert(listed.reverse().take(0) =~= was);
        }
        loop
            invariant
                now.wf(),
                weights == old(self).weights_spec(),
                self.weights == old(self).weights_spec(),
                forall|w: &PScoreWeights, t: ScoreTerms| call_requires(*formula, (w, t)),
                forall|i: int| 0 <= i < listed.len() ==> (#[trigger] listed[i]).ingested_at.wf(),
                entries@ == listed.take(entries@.len() as int),
                entries@.len() <= listed.len(),
                was == listed.reverse().take(listed.len() - entries@.len()),
                was.len() == is.len(),
                heap@ == is.to_multiset(),
                forall|i: int|
                    0 <= i < was.len() ==> rescored_at(
                        #[trigger] was[i],
                        is[i],
                        now,
                        weights,
                        *formula,
                    ),
                forall|i: int| 0 <= i < is.len() ==> (#[trigger] is[i]).ingested_at.wf(),
            ensures
                entries@.len() == 0,
            decreases entries@.len(),
        {
            let ghost n = entries@.len();
            match entries.pop() {
                Some(entry) => {
                    let mut entry = entry;
                    let ghost before = entry;
                    entry.recompute_score_at(now, &weights, formula);
                    proof {
                        assert(before == listed[n - 1]);
                        vstd::seq_lib::to_multiset_build(is, entry);
                        was = was.push(before);
                        is = is.push(entry);
                        assert(entries@ =~= listed.take(n - 1));
                        assert(was =~= listed.reverse().take(listed.len() - n + 1));
                    }
                    heap.push(entry);
                },
                None => {
                    break;
                },
            }
        }
        proof {
            assert(was =~= listed.reverse());
            listed.lemma_reverse_to_multiset();
            assert forall|e: PScoreEntry| #[trigger] heap@.count(e) > 0 implies e.ingested_at.wf() by {
                assert(is.contains(e));
            }
        }
        self.heap = heap;
    }

    /// The weights of the scores.
    pub fn weights(&self) -> (weights: &PScoreWeights)
        ensures
            *weights == self.weights_spec(),
    {
        &self.weights
    }
}

/// Whether entries come out of a queue one after the other, until it is empty.
pub open spec fn popped_in_turn(entries: Multiset<PScoreEntry>, out: Seq<PScoreEntry>) -> bool
    decreases out.len(),
{
    if out.len() == 0 {
        entries.len() == 0
    } else {
        is_top(entries, out[0]) && popped_in_turn(entries.remove(out[0]), out.skip(1))
    }
}

/// A queue gives out exactly its entries, the higher scores before the lower ones.
pub proof fn law_queue_drains_by_priority(entries: Multiset<PScoreEntry>, out: Seq<PScoreEntry>)
    requires
        popped_in_turn(entries, out),
    ensures
        out.to_multiset() == entries,
        forall|i: int, j: int|
            0 <= i <= j < out.len() ==> (#[trigger] out[j]).cached_score.standing() <= (
            #[trigger] out[i]).cached_score.standing(),
    decreases out.len(),
{
    broadcast use vstd::seq_lib::group_to_multiset_ensures;

    if out.len() == 0 {
        assert(out.to_multiset().len() == 0);
        assert(out.to_multiset() =~= entries);
    } else {
        let rest = out.skip(1);
        let left = entries.remove(out[0]);
        law_queue_drains_by_priority(left, rest);
        assert(out.remove(0) =~= rest);
        assert(out.contains(out[0]));
        assert(out.to_multiset() =~= left.insert(out[0]));
        assert(entries =~= left.insert(out[0]));
        assert forall|i: int, j: int| 0 <= i <= j < out.len() implies (
        #[trigger] out[j]).cached_score.standing() <= (
        #[trigger] out[i]).cached_score.standing() by {
            if i > 0 {
                assert(rest[i - 1] == out[i] && rest[j - 1] == out[j]);
            } else {
                assert(out.contains(out[j]));
                assert(out.to_multiset().count(out[j]) > 0);
            }
        }
    }
}

/// Taking the first entry out gives the entry that was shown before and leaves one entry fewer.
/// Nothing comes out exactly of an empty queue, which then stays as it is.
pub proof fn law_pop_gives_what_peek_showed(
    before: PriorityQueue,
    after: PriorityQueue,
    shown: Option<PScoreEntry>,
    top: Option<PScoreEntry>,
)
    requires
        peeked(before, shown),
        popped(before, after, top),
    ensures
        top == shown,
        top is None <==> before.entries().len() == 0,
        top is None ==> after.entries() == before.entries(),
        top is Some ==> after.entries().len() == before.entries().len() - 1,
{
    if before.entries().len() == 0 {
        assert(before.entries() =~= Multiset::empty());
    }
}

/// Whether a queue goes through these states as entries are taken out of it until it is empty.
pub open spec fn emptied(queues: Seq<PriorityQueue>, out: Seq<PScoreEntry>) -> bool {
    &&& queues.len() == out.len() + 1
    &&& forall|i: int|
        0 <= i < out.len() ==> popped(#[trigger] queues[i], queues[i + 1], Some(out[i]))
    &&& popped(queues.last(), queues.last(), None)
}

/// Taking entries out of a queue until it is empty gives exactly its entries, the higher scores
/// before the lower ones.
pub proof fn law_emptying_a_queue_gives_its_entries(
    queues: Seq<PriorityQueue>,
    out: Seq<PScoreEntry>,
)
    requires
        emptied(queues, out),
    ensures
        popped_in_turn(queues[0].entries(), out),
        out.to_multiset() == queues[0].entries(),
        forall|i: int, j: int|
            0 <= i <= j < out.len() ==> (#[trigger] out[j]).cached_score.standing() <= (
            #[trigger] out[i]).cached_score.standing(),
    decreases out.len(),
{
    if out.len() > 0 {
        let rest = queues.skip(1);
        assert(popped(queues[0], queues[1], Some(out[0])));
        assert forall|i: int| 0 <= i < out.skip(1).len() implies popped(
            #[trigger] rest[i],
            rest[i + 1],
            Some(out.skip(1)[i]),
        ) by {
            assert(popped(queues[i + 1], queues[i + 2], Some(out[i + 1])));
        }
        law_emptying_a_queue_gives_its_entries(rest, out.skip(1));
    }
    law_queue_drains_by_priority(queues[0].entries(), out);
}

/// Refreshing loses no entry and adds none: every entry is there with its new score, and every
/// score is a new one.
pub proof fn law_refresh_rescores_every_entry<F: Fn(&PScoreWeights, ScoreTerms) -> Double>(
    old_entries: Multiset<PScoreEntry>,
    new_entries: Multiset<PScoreEntry>,
    now: Timestamp,
    weights: PScoreWeights,
    formula: F,
    entry: PScoreEntry,
)
    requires
        all_rescored_at(old_entries, new_entries, now, weights, formula),
    ensures
        new_entries.len() == old_entries.len(),
        old_entries.count(entry) > 0 ==> exists|e: PScoreEntry| #[trigger]
            new_entries.count(e) > 0 && rescored_at(entry, e, now, weights, formula),
        new_entries.count(entry) > 0 ==> scored_at(entry, now, weights, formula) && exists|
            e: PScoreEntry,
        | #[trigger]
            old_entries.count(e) > 0 && rescored_at(e, entry, now, weights, formula),
{
    broadcast use vstd::seq_lib::group_to_multiset_ensures;

    let (was, is) = choose|was: Seq<PScoreEntry>, is: Seq<PScoreEntry>|
        {
            &&& #[trigger] was.to_multiset() == old_entries
            &&& #[trigger] is.to_multiset() == new_entries
            &&& was.len() == is.len()
            &&& forall|i: int|
                0 <= i < was.len() ==> rescored_at(#[trigger] was[i], is[i], now, weights, formula)
        };
    if old_entries.count(entry) > 0 {
        assert(was.contains(entry));
        let i = choose|i: int| 0 <= i < was.len() && was[i] == entry;
        assert(is.contains(is[i]));
        assert(new_entries.count(is[i]) > 0);
    }
    if new_entries.count(entry) > 0 {
        assert(is.contains(entry));
        let i = choose|i: int| 0 <= i < is.len() && is[i] == entry;
        assert(was.contains(was[i]));
        assert(old_entries.count(was[i]) > 0);
        assert(was[i].terms_at(now) == entry.terms_at(now));
    }
}

/// Whether a formula gives one score for the same weights and terms.
pub open spec fn is_function<F: Fn(&PScoreWeights, ScoreTerms) -> Double>(formula: F) -> bool {
    forall|w: &PScoreWeights, t: ScoreTerms, a: Double, b: Double|
        #![trigger call_ensures(formula, (w, t), a), call_ensures(formula, (w, t), b)]
        call_ensures(formula, (w, t), a) && call_ensures(formula, (w, t), b) ==> a == b
}

/// Refreshing again at the same time changes nothing.
pub proof fn law_refreshing_again_changes_nothing<F: Fn(&PScoreWeights, ScoreTerms) -> Double>(
    first: Multiset<PScoreEntry>,
    second: Multiset<PScoreEntry>,
    third: Multiset<PScoreEntry>,
    now: Timestamp,
    weights: PScoreWeights,
    formula: F,
)
    requires
        is_function(formula),
        all_rescored_at(first, second, now, weights, formula),
        all_rescored_at(second, third, now, weights, formula),
    ensures
        third == second,
{
    broadcast use vstd::seq_lib::group_to_multiset_ensures;

    let (was, is) = choose|was: Seq<PScoreEntry>, is: Seq<PScoreEntry>|
        {
            &&& #[trigger] was.to_multiset() == second
            &&& #[trigger] is.to_multiset() == third
            &&& was.len() == is.len()
            &&& forall|i: int|
                0 <= i < was.len() ==> rescored_at(#[trigger] was[i], is[i], now, weights, formula)
        };
    assert forall|i: int| 0 <= i < was.len() implies was[i] == is[i] by {
        assert(was.contains(was[i]));
        assert(second.count(was[i]) > 0);
        law_refresh_rescores_every_entry(first, second, now, weights, formula, was[i]);
        assert(rescored_at(was[i], is[i], now, weights, formula));
    }
    assert(was =~= is);
}

/// An anomaly that outscores the routine data is ahead of it: what comes out first is then an
/// anomaly.
pub proof fn law_outscoring_anomaly_goes_first(
    entries: Multiset<PScoreEntry>,
    top: PScoreEntry,
    anomaly: PScoreEntry,
)
    requires
        is_top(entries, top),
        entries.count(anomaly) > 0,
        anomaly.criticality == Criticality::Anomaly,
        forall|e: PScoreEntry| #[trigger]
            entries.count(e) > 0 && e.criticality == Criticality::Routine
                ==> e.cached_score.lt_spec(anomaly.cached_score),
    ensures
        top.criticality == Criticality::Anomaly,
{
    assert(anomaly.cached_score.standing() <= top.cached_score.standing());
}

/// The score of an anomaly is computed of a larger criticality than that of routine data.
pub proof fn law_anomaly_counts_more(anomaly: PScoreEntry, routine: PScoreEntry, now: Timestamp)
    requires
        anomaly.criticality == Criticality::Anomaly,
        routine.criticality == Criticality::Routine,
    ensures
        routine.terms_at(now).criticality.lt_spec(anomaly.terms_at(now).criticality),
{
}

/// Waiting never lowers the wait that a score is computed of, and leaves the other terms as
/// they are. Instants inside leap seconds are left out.
pub proof fn law_waiting_raises_the_wait(entry: PScoreEntry, now: Timestamp, later: Timestamp)
    requires
        entry.ingested_at.wf() && !entry.ingested_at.in_leap_second(),
        now.wf() && !now.in_leap_second(),
        later.wf() && !later.in_leap_second(),
        now.secs < later.secs || (now.secs == later.secs && now.nanos <= later.nanos),
    ensures
        entry.terms_at(now).wait_secs <= entry.terms_at(later).wait_secs,
        entry.terms_at(now).criticality == entry.terms_at(later).criticality,
        entry.terms_at(now).size_mb == entry.terms_at(later).size_mb,
{
}

/// The wait is the whole time since ingest, in seconds, cut off: a look that is not before the
/// ingest finds the wait at most the time between them, and less than a second short of it, for
/// any distance. A look before the ingest finds no wait. Outside leap seconds that time is the
/// plain difference of the two instants. The other terms are the value of the criticality and the
/// size, as the entry has them.
pub proof fn law_wait_is_the_time_since_ingest(entry: PScoreEntry, now: Timestamp)
    requires
        entry.ingested_at.wf(),
        now.wf(),
    ensures
        ({
            let wait = entry.terms_at(now).wait_secs;
            let since = now.nanos_since(entry.ingested_at);
            &&& since >= 0 ==> wait * 1_000_000_000 <= since < (wait + 1) * 1_000_000_000
            &&& since < 0 ==> wait == 0
            &&& !now.in_leap_second() && !entry.ingested_at.in_leap_second() ==> since == (now.secs
                - entry.ingested_at.secs) * 1_000_000_000 + now.nanos - entry.ingested_at.nanos
        }),
        entry.terms_at(now).size_mb == entry.size_mb,
        entry.criticality == Criticality::Anomaly ==> entry.terms_at(now).criticality.bits
            == 0x408F_4000_0000_0000,
        entry.criticality == Criticality::Routine ==> entry.terms_at(now).criticality.bits
            == 0x3FF0_0000_0000_0000,
{
    let since = now.nanos_since(entry.ingested_at);
    let wait = now.seconds_since_spec(entry.ingested_at);
    assert(-20_000_000_000_000 <= wait <= 20_000_000_000_000);
}

/// A later look by some whole seconds raises the wait by at least as many, once the entry is in;
/// so waiting never stops to count.
pub proof fn law_each_second_raises_the_wait(
    entry: PScoreEntry,
    now: Timestamp,
    later: Timestamp,
    secs: int,
)
    requires
        entry.ingested_at.wf() && !entry.ingested_at.in_leap_second(),
        now.wf() && !now.in_leap_second(),
        later.wf() && !later.in_leap_second(),
        0 <= secs,
        now.nanos_since(entry.ingested_at) >= 0,
        later.nanos_since(now) >= secs * 1_000_000_000,
    ensures
        entry.terms_at(later).wait_secs >= entry.terms_at(now).wait_secs + secs,
{
    law_wait_is_the_time_since_ingest(entry, now);
    law_wait_is_the_time_since_ingest(entry, later);
}

/// Rescoring keeps everything of an entry but its score, and the score is what the formula gives
/// for the value of its criticality, its size, and the whole time that it has waited.
pub proof fn law_rescoring_applies_the_formula<F: Fn(&PScoreWeights, ScoreTerms) -> Double>(
    old_entry: PScoreEntry,
    new_entry: PScoreEntry,
    now: Timestamp,
    weights: PScoreWeights,
    formula: F,
)
    requires
        old_entry.ingested_at.wf(),
        now.wf(),
        rescored_at(old_entry, new_entry, now, weights, formula),
    ensures
        new_entry.id == old_entry.id,
        new_entry.sealed_path == old_entry.sealed_path,
        new_entry.criticality == old_entry.criticality,
        new_entry.ingested_at == old_entry.ingested_at,
        new_entry.size_mb == old_entry.size_mb,
        new_entry.transmitted == old_entry.transmitted,
        exists|terms: ScoreTerms|
            {
                let since = now.nanos_since(old_entry.ingested_at);
                &&& #[trigger] call_ensures(formula, (&weights, terms), new_entry.cached_score)
                &&& terms.size_mb == old_entry.size_mb
                &&& old_entry.criticality == Criticality::Anomaly ==> terms.criticality.bits
                    == 0x408F_4000_0000_0000
                &&& old_entry.criticality == Criticality::Routine ==> terms.criticality.bits
                    == 0x3FF0_0000_0000_0000
                &&& since >= 0 ==> terms.wait_secs * 1_000_000_000 <= since < (terms.wait_secs + 1)
                    * 1_000_000_000
                &&& since < 0 ==> terms.wait_secs == 0
            },
        is_score_of(new_entry, new_entry.cached_score, now, weights, formula),
{
    law_wait_is_the_time_since_ingest(old_entry, now);
    assert(call_ensures(formula, (&weights, old_entry.terms_at(now)), new_entry.cached_score));
}

/// Whether a score is what the formula gives for an entry at a time: for the value of its
/// criticality, its size, and the seconds since its ingest.
pub open spec fn is_score_of<F: Fn(&PScoreWeights, ScoreTerms) -> Double>(
    entry: PScoreEntry,
    score: Double,
    now: Timestamp,
    weights: PScoreWeights,
    formula: F,
) -> bool {
    exists|terms: ScoreTerms|
        {
            let since = now.nanos_since(entry.ingested_at);
            &&& #[trigger] call_ensures(formula, (&weights, terms), score)
            &&& terms.size_mb == entry.size_mb
            &&& terms.criticality.bits == match entry.criticality {
                Criticality::Anomaly => 0x408F_4000_0000_0000u64,
                Criticality::Routine => 0x3FF0_0000_0000_0000u64,
            }
            &&& since >= 0 ==> terms.wait_secs * 1_000_000_000 <= since < (terms.wait_secs + 1)
                * 1_000_000_000
            &&& since < 0 ==> terms.wait_secs == 0
        }
}

/// A new entry holds what it was made of, has not been transmitted, and has the score that the
/// formula gives for it.
pub proof fn law_new_entry_is_scored<F: Fn(&PScoreWeights, ScoreTerms) -> Double>(
    id: String,
    sealed_path: String,
    criticality: Criticality,
    ingested_at: Timestamp,
    size_mb: Double,
    now: Timestamp,
    weights: &PScoreWeights,
    formula: &F,
    entry: PScoreEntry,
)
    requires
        ingested_at.wf(),
        now.wf(),
        call_ensures(
            PScoreEntry::new_at::<F>,
            (id, sealed_path, criticality, ingested_at, size_mb, now, weights, formula),
            entry,
        ),
    ensures
        entry.id == id,
        entry.sealed_path == sealed_path,
        entry.criticality == criticality,
        entry.ingested_at == ingested_at,
        entry.size_mb == size_mb,
        !entry.transmitted,
        is_score_of(entry, entry.cached_score, now, *weights, *formula),
{
    law_wait_is_the_time_since_ingest(entry, now);
    assert(call_ensures(*formula, (weights, entry.terms_at(now)), entry.cached_score));
}

/// Refreshing loses no entry, makes none up, and gives every entry the score that the formula
/// has for it now.
pub proof fn law_refreshed_entries_have_their_scores<F: Fn(&PScoreWeights, ScoreTerms) -> Double>(
    old_entries: Multiset<PScoreEntry>,
    new_entries: Multiset<PScoreEntry>,
    now: Timestamp,
    weights: PScoreWeights,
    formula: F,
    entry: PScoreEntry,
)
    requires
        now.wf(),
        entry.ingested_at.wf(),
        all_rescored_at(old_entries, new_entries, now, weights, formula),
    ensures
        new_entries.len() == old_entries.len(),
        new_entries.count(entry) > 0 ==> is_score_of(
            entry,
            entry.cached_score,
            now,
            weights,
            formula,
        ),
        old_entries.count(entry) > 0 ==> exists|e: PScoreEntry| #[trigger]
            new_entries.count(e) > 0 && e.id == entry.id && e.sealed_path == entry.sealed_path
                && e.criticality == entry.criticality && e.ingested_at == entry.ingested_at
                && e.size_mb == entry.size_mb && e.transmitted == entry.transmitted,
        new_entries.count(entry) > 0 ==> exists|e: PScoreEntry| #[trigger]
            old_entries.count(e) > 0 && e.id == entry.id && e.sealed_path == entry.sealed_path
                && e.criticality == entry.criticality && e.ingested_at == entry.ingested_at
                && e.size_mb == entry.size_mb && e.transmitted == entry.transmitted,
{
    law_refresh_rescores_every_entry(old_entries, new_entries, now, weights, formula, entry);
    law_wait_is_the_time_since_ingest(entry, now);
    if new_entries.count(entry) > 0 {
        assert(call_ensures(formula, (&weights, entry.terms_at(now)), entry.cached_score));
        let e = choose|e: PScoreEntry| #[trigger]
            old_entries.count(e) > 0 && rescored_at(e, entry, now, weights, formula);
        assert(old_entries.count(e) > 0);
    }
    if old_entries.count(entry) > 0 {
        let e = choose|e: PScoreEntry| #[trigger]
            new_entries.count(e) > 0 && rescored_at(entry, e, now, weights, formula);
        assert(new_entries.count(e) > 0);
    }
}

/// Numbers that are set are taken as they are, zero and below too; the weights that are not set
/// are 1, 0.01 and 0.5.
pub proof fn law_weights_take_what_is_set(
    w_criticality: Option<Double>,
    w_age: Option<Double>,
    w_size: Option<Double>,
    weights: PScoreWeights,
)
    requires
        call_ensures(PScoreWeights::from_env, (w_criticality, w_age, w_size), weights),
    ensures
        w_criticality matches Some(w) ==> weights.w_criticality == w,
        w_age matches Some(w) ==> weights.w_age == w,
        w_size matches Some(w) ==> weights.w_size == w,
        w_criticality is None ==> weights.w_criticality.bits == 0x3FF0_0000_0000_0000,
        w_age is None ==> weights.w_age.bits == 0x3F84_7AE1_47AE_147B,
        w_size is None ==> weights.w_size.bits == 0x3FE0_0000_0000_0000,
{
}

/// What a queue gives out is one of its entries, and no entry of the queue scores above it. An
/// entry whose score is no number comes out only where no entry has a number for its score.
pub proof fn law_top_is_never_outscored(
    entries: Multiset<PScoreEntry>,
    top: PScoreEntry,
    other: PScoreEntry,
)
    requires
        is_top(entries, top),
        entries.count(other) > 0,
    ensures
        entries.count(top) > 0,
        !top.cached_score.lt_spec(other.cached_score),
        top.cached_score.is_nan_spec() ==> other.cached_score.is_nan_spec(),
{
}

/// Entries compare by their scores alone: one is less exactly if its score is below, greater
/// exactly if it is above, and comparing the other way round turns the answer round.
pub proof fn law_entries_compare_by_score(
    a: &PScoreEntry,
    b: &PScoreEntry,
    order: Ordering,
    back: Ordering,
)
    requires
        call_ensures(PScoreEntry::cmp, (a, b), order),
        call_ensures(PScoreEntry::cmp, (b, a), back),
    ensures
        order == Ordering::Less <==> a.cached_score.lt_spec(b.cached_score),
        order == Ordering::Greater <==> b.cached_score.lt_spec(a.cached_score),
        order == Ordering::Less <==> back == Ordering::Greater,
        order == Ordering::Equal <==> back == Ordering::Equal,
{
}

/// Recomputing the score of an entry changes its score alone, to what the formula gives for the
/// whole time since its ingest, its criticality and its size.
pub proof fn law_recomputing_scores_the_whole_wait<F: Fn(&PScoreWeights, ScoreTerms) -> Double>(
    entry: &mut PScoreEntry,
    now: Timestamp,
    weights: &PScoreWeights,
    formula: &F,
)
    requires
        now.wf(),
        old(entry).ingested_at.wf(),
        call_ensures(
            PScoreEntry::recompute_score_at::<F>,
            (entry, now, weights, formula),
            (),
        ),
    ensures
        final(entry).id == old(entry).id,
        final(entry).sealed_path == old(entry).sealed_path,
        final(entry).criticality == old(entry).criticality,
        final(entry).ingested_at == old(entry).ingested_at,
        final(entry).size_mb == old(entry).size_mb,
        final(entry).transmitted == old(entry).transmitted,
        exists|terms: ScoreTerms|
            {
                let since = now.nanos_since(old(entry).ingested_at);
                &&& #[trigger] call_ensures(*formula, (weights, terms), final(entry).cached_score)
                &&& terms.size_mb == old(entry).size_mb
                &&& old(entry).criticality == Criticality::Anomaly ==> terms.criticality.bits
                    == 0x408F_4000_0000_0000
                &&& old(entry).criticality == Criticality::Routine ==> terms.criticality.bits
                    == 0x3FF0_0000_0000_0000
                &&& since >= 0 ==> terms.wait_secs * 1_000_000_000 <= since < (terms.wait_secs + 1)
                    * 1_000_000_000
                &&& since < 0 ==> terms.wait_secs == 0
            },
{
    law_rescoring_applies_the_formula(*old(entry), *final(entry), now, *weights, *formula);
}

/// Pushing adds the entry and leaves the others and the weights as they are.
pub proof fn law_push_adds_one_entry(
    queue: &mut PriorityQueue,
    entry: PScoreEntry,
    other: PScoreEntry,
)
    requires
        entry.ingested_at.wf(),
        call_ensures(PriorityQueue::push, (queue, entry), ()),
    ensures
        final(queue).entries().len() == old(queue).entries().len() + 1,
        final(queue).entries().count(entry) == old(queue).entries().count(entry) + 1,
        other != entry ==> final(queue).entries().count(other) == old(queue).entries().count(
            other,
        ),
        final(queue).weights_spec() == old(queue).weights_spec(),
{
    broadcast use vstd::multiset::group_multiset_axioms;

}

/// Popping takes out one entry that no other outscores, and leaves the others and the weights as
/// they are. It gives nothing exactly where there is nothing.
pub proof fn law_pop_takes_one_entry(
    queue: &mut PriorityQueue,
    top: Option<PScoreEntry>,
    other: PScoreEntry,
)
    requires
        call_ensures(PriorityQueue::pop, (queue,), top),
    ensures
        top is None <==> old(queue).entries().len() == 0,
        top is None ==> final(queue).entries() == old(queue).entries(),
        top matches Some(entry) ==> {
            &&& old(queue).entries().count(entry) > 0
            &&& final(queue).entries().count(entry) == old(queue).entries().count(entry) - 1
            &&& other != entry ==> final(queue).entries().count(other) == old(
                queue,
            ).entries().count(other)
            &&& old(queue).entries().count(other) > 0 ==> !entry.cached_score.lt_spec(
                other.cached_score,
            )
        },
        final(queue).weights_spec() == old(queue).weights_spec(),
{
    broadcast use vstd::multiset::group_multiset_axioms;

}

} // verus!
