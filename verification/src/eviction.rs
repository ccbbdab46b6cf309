//! Storage eviction: what to delete when a vault runs full.

use crate::double::Double;
use crate::double::ZERO_BITS;
use crate::paths;
use crate::priority;
use crate::priority::Criticality;
use crate::priority::PScoreEntry;
use crate::priority::PriorityQueue;
use crate::sorting;
use crate::sorting::Keyed;
use crate::text;
use crate::timestamp;
use crate::timestamp::Timestamp;
use vstd::multiset::Multiset;
use vstd::prelude::*;
use vstd::string::StringExecFns;

verus! {

/// The bits of 85.0, the default utilization above which eviction starts.
pub const DEFAULT_TRIGGER_BITS: u64 = 0x4055_4000_0000_0000;

/// The bits of 70.0, the default utilization below which eviction ends.
pub const DEFAULT_TARGET_BITS: u64 = 0x4051_8000_0000_0000;

/// Eviction threshold configuration.
#[derive(Clone, Debug)]
pub struct EvictionConfig {
    /// Trigger eviction when disk usage exceeds this percentage.
    pub trigger_percent: Double,
    /// Evict until disk usage drops below this percentage.
    pub target_percent: Double,
    /// Paths to monitor for disk usage (USB vault paths).
    pub vault_paths: Vec<String>,
}

impl EvictionConfig {
    /// Makes the configuration of the numbers that the environment variables hold, where they
    /// hold one.
    pub fn from_env(
        trigger_percent: Option<Double>,
        target_percent: Option<Double>,
    ) -> (config: EvictionConfig)
        ensures
            config.trigger_percent == priority::number_or(trigger_percent, DEFAULT_TRIGGER_BITS),
            config.target_percent == priority::number_or(target_percent, DEFAULT_TARGET_BITS),
            config.vault_paths@ == Seq::<String>::empty(),
    {
        EvictionConfig {
            trigger_percent: priority::set_number_or(trigger_percent, DEFAULT_TRIGGER_BITS),
            target_percent: priority::set_number_or(target_percent, DEFAULT_TARGET_BITS),
            vault_paths: Vec::new(),
        }
    }
}

/// Audit log entry for evicted data.
#[derive(Debug)]
pub struct EvictionAuditEntry {
    pub evicted_id: String,
    pub score: Double,
    pub size_mb: Double,
    pub criticality: Criticality,
    pub reason: String,
    pub timestamp: Timestamp,
}

/// Why an entry was evicted, with the two percentages as texts.
pub open spec fn reason_text(util: Seq<char>, trigger: Seq<char>) -> Seq<char> {
    "Storage at "@ + util + "% > "@ + trigger + "% trigger"@
}

impl EvictionAuditEntry {
    /// Whether this tells of an entry.
    pub open spec fn tells_of(self, entry: PScoreEntry) -> bool {
        &&& self.evicted_id@ == entry.id@
        &&& self.score == entry.cached_score
        &&& self.size_mb == entry.size_mb
        &&& self.criticality == entry.criticality
    }

    /// Whether this records the eviction of an entry at a time.
    pub open spec fn records(self, entry: PScoreEntry, now: Timestamp) -> bool {
        self.tells_of(entry) && self.timestamp == now
    }
}

/// Where an eviction cycle stands.
#[verifier::ext_equal]
pub struct EvictionState {
    /// The utilization above which eviction starts.
    pub trigger: Double,
    /// The utilization below which eviction ends.
    pub target: Double,
    /// The utilization as far as it is known.
    pub util: Double,
    /// The transmitted entries that are still there, the next one to evict first.
    pub candidates: Seq<PScoreEntry>,
    /// The entries that stay.
    pub keep: Seq<PScoreEntry>,
    /// The entries that were evicted, in their order.
    pub evicted: Seq<PScoreEntry>,
    /// The audit log.
    pub audit: Seq<EvictionAuditEntry>,
}

impl EvictionState {
    /// Whether another entry is to be evicted.
    pub open spec fn wants_more(self) -> bool {
        self.candidates.len() > 0 && !self.util.lt_spec(self.target)
    }

    /// The state after the next candidate was deleted.
    pub open spec fn after_deletion(
        self,
        util: Double,
        record: EvictionAuditEntry,
    ) -> EvictionState {
        EvictionState {
            util,
            candidates: self.candidates.skip(1),
            evicted: self.evicted.push(self.candidates[0]),
            audit: self.audit.push(record),
            ..self
        }
    }

    /// The state after the next candidate could not be deleted.
    pub open spec fn after_failure(self) -> EvictionState {
        EvictionState {
            candidates: self.candidates.skip(1),
            keep: self.keep.push(self.candidates[0]),
            ..self
        }
    }

    /// The entries that are still queued.
    pub open spec fn queued(self) -> Multiset<PScoreEntry> {
        self.keep.to_multiset().add(self.candidates.to_multiset())
    }
}

/// Whether a cycle starts with the entries of a queue: the transmitted ones are candidates,
/// lowest scores first, and the others stay.
pub open spec fn begun(entries: Multiset<PScoreEntry>, state: EvictionState) -> bool {
    &&& sorting::ascending(state.candidates)
    &&& forall|i: int|
        0 <= i < state.candidates.len() ==> (#[trigger] state.candidates[i]).transmitted
    &&& forall|i: int| 0 <= i < state.keep.len() ==> !(#[trigger] state.keep[i]).transmitted
    &&& state.queued() == entries
    &&& state.evicted == Seq::<PScoreEntry>::empty()
    &&& state.audit == Seq::<EvictionAuditEntry>::empty()
}

/// The audit log of a cycle, with the entries that it tells of.
struct AuditTrail {
    records: Vec<EvictionAuditEntry>,
    evicted: Ghost<Seq<PScoreEntry>>,
}

/// An eviction cycle on one vault path.
pub struct EvictionCycle {
    trigger: Double,
    target: Double,
    util: Double,
    /// The candidates, the next one last.
    pending: Vec<PScoreEntry>,
    keep: Vec<PScoreEntry>,
    trail: AuditTrail,
}

impl View for EvictionCycle {
    type V = EvictionState;

    closed spec fn view(&self) -> EvictionState {
        EvictionState {
            trigger: self.trigger,
            target: self.target,
            util: self.util,
            candidates: self.pending@.reverse(),
            keep: self.keep@,
            evicted: self.trail.evicted@,
            audit: self.trail.records@,
        }
    }
}

/// Whether the ingest times of entries are instants.
pub open spec fn all_dated(entries: Seq<PScoreEntry>) -> bool {
    forall|i: int| 0 <= i < entries.len() ==> (#[trigger] entries[i]).ingested_at.wf()
}

impl EvictionCycle {
    #[verifier::type_invariant]
    spec fn inv(self) -> bool {
        &&& all_dated(self.pending@)
        &&& all_dated(self.keep@)
        &&& tells_of_all(self.trail.records@, self.trail.evicted@)
    }

    /// The entry to evict next: whose sealed files to delete.
    pub fn next(&self) -> (entry: Option<&PScoreEntry>)
        ensures
            entry is Some <==> self@.wants_more(),
            entry matches Some(e) ==> *e == self@.candidates[0],
    {
        let n = self.pending.len();
        if n == 0 || self.util.lt(&self.target) {
            None
        } else {
            Some(&self.pending[n - 1])
        }
    }

    /// Records that the sealed files of the next entry were deleted. `reduced` estimates the
    /// utilization without the entry from the utilization and the entry's size, and
    /// `percent_text` writes a percentage.
    pub fn deleted<R: Fn(Double, Double) -> Double, P: Fn(Double) -> String>(
        &mut self,
        reduced: &R,
        percent_text: &P,
    )
        requires
            old(self)@.wants_more(),
            forall|u: Double, s: Double| call_requires(*reduced, (u, s)),
            forall|u: Double| call_requires(*percent_text, (u,)),
        ensures
            final(self)@ == old(self)@.after_deletion(final(self)@.util, final(self)@.audit.last()),
            call_ensures(
                *reduced,
                (old(self)@.util, old(self)@.candidates[0].size_mb),
                final(self)@.util,
            ),
            exists|now: Timestamp|
                timestamp::is_reading(now) && #[trigger] final(self)@.audit.last().records(
                    old(self)@.candidates[0],
                    now,
                ),
            exists|u: String, t: String|
                #![trigger u@, t@]
                call_ensures(*percent_text, (old(self)@.util,), u) && call_ensures(
                    *percent_text,
                    (old(self)@.trigger,),
                    t,
                ) && final(self)@.audit.last().reason@ == reason_text(u@, t@),
    {
        let now = timestamp::read_clock();
        self.deleted_at(now, reduced, percent_text);
    }

    /// Records that the sealed files of the next entry were deleted at a given time.
    pub fn deleted_at<R: Fn(Double, Double) -> Double, P: Fn(Double) -> String>(
        &mut self,
        now: Timestamp,
        reduced: &R,
        percent_text: &P,
    )
        requires
            old(self)@.wants_more(),
            forall|u: Double, s: Double| call_requires(*reduced, (u, s)),
            forall|u: Double| call_requires(*percent_text, (u,)),
        ensures
            final(self)@ == old(self)@.after_deletion(final(self)@.util, final(self)@.audit.last()),
            call_ensures(
                *reduced,
                (old(self)@.util, old(self)@.candidates[0].size_mb),
                final(self)@.util,
            ),
            final(self)@.audit.last().records(old(self)@.candidates[0], now),
            exists|u: String, t: String|
                #![trigger u@, t@]
                call_ensures(*percent_text, (old(self)@.util,), u) && call_ensures(
                    *percent_text,
                    (old(self)@.trigger,),
                    t,
                ) && final(self)@.audit.last().reason@ == reason_text(u@, t@),
    {
        proof {
            use_type_invariant(&*self);
        }
        let ghost listed = self.pending@;
        let mut pending: Vec<PScoreEntry> = Vec::new();
        let mut trail = AuditTrail { records: Vec::new(), evicted: Ghost(Seq::empty()) };
        std::mem::swap(&mut pending, &mut self.pending);
        std::mem::swap(&mut trail, &mut self.trail);
        if let Some(entry) = pending.pop() {
            let util_text = percent_text(self.util);
            let trigger_text = percent_text(self.trigger);
            let mut reason = "Storage at ".to_owned();
            reason.append(util_text.as_str());
            reason.append("% > ");
            reason.append(trigger_text.as_str());
            reason.append("% trigger");
            assert(reason@ == reason_text(util_text@, trigger_text@));
            let util = reduced(self.util, entry.size_mb);
            trail.records.push(
                EvictionAuditEntry {
                    evicted_id: entry.id.clone(),
                    score: entry.cached_score,
                    size_mb: entry.size_mb,
                    criticality: entry.criticality,
                    reason,
                    timestamp: now,
                },
            );
            self.util = util;
            trail.evicted = Ghost(trail.evicted@.push(entry));
        }
        self.pending = pending;
        self.trail = trail;
        proof {
            assert(self.pending@.reverse() =~= listed.reverse().skip(1));
            assert(self@ =~= old(self)@.after_deletion(self@.util, self@.audit.last()));
        }
    }

    /// Records that the sealed files of the next entry could not be deleted. The entry stays.
    pub fn kept(&mut self)
        requires
            old(self)@.wants_more(),
        ensures
            final(self)@ == old(self)@.after_failure(),
    {
        proof {
            use_type_invariant(&*self);
        }
        let ghost listed = self.pending@;
        let mut pending: Vec<PScoreEntry> = Vec::new();
        let mut keep: Vec<PScoreEntry> = Vec::new();
        std::mem::swap(&mut pending, &mut self.pending);
        std::mem::swap(&mut keep, &mut self.keep);
        if let Some(entry) = pending.pop() {
            keep.push(entry);
        }
        self.pending = pending;
        self.keep = keep;
        proof {
            assert(self.pending@.reverse() =~= listed.reverse().skip(1));
            assert(self@ =~= old(self)@.after_failure());
        }
    }

    /// Ends the cycle: puts what was not evicted back into the queue and gives out the audit
    /// log.
    pub fn finish(self, queue: &mut PriorityQueue) -> (log: Vec<EvictionAuditEntry>)
        ensures
            log@ == self@.audit,
            tells_of_all(log@, self@.evicted),
            final(queue).entries() == old(queue).entries().add(self@.queued()),
            final(queue).weights_spec() == old(queue).weights_spec(),
    {
        proof {
            use_type_invariant(&self);
        }
        let EvictionCycle { trigger: _, target: _, util: _, pending, keep, trail } = self;
        let ghost (rest, stay) = (pending@, keep@);
        requeue(keep, queue);
        requeue(sorting::flipped(pending), queue);
        proof {
            assert(queue.entries() =~= old(queue).entries().add(
                stay.to_multiset().add(rest.reverse().to_multiset()),
            ));
        }
        trail.records
    }
}

/// Puts entries into a queue.
fn requeue(entries: Vec<PScoreEntry>, queue: &mut PriorityQueue)
    requires
        all_dated(entries@),
    ensures
        final(queue).entries() == old(queue).entries().add(entries@.to_multiset()),
        final(queue).weights_spec() == old(queue).weights_spec(),
{
    let ghost all = entries@;
    proof {
        broadcast use vstd::seq_lib::group_to_multiset_ensures;

        assert(all.take(0).to_multiset().len() == 0);
        assert(queue.entries() =~= old(queue).entries().add(all.take(0).to_multiset()));
    }
    for entry in iter: entries
        invariant
            iter.seq() == all,
            all_dated(all),
            queue.entries() == old(queue).entries().add(
                all.take(iter.index() as int).to_multiset(),
            ),
            queue.weights_spec() == old(queue).weights_spec(),
    {
        proof {
            let k = iter.index() as int;
            assert(entry == all[k]);
            assert(all.take(k + 1) =~= all.take(k).push(entry));
            vstd::seq_lib::to_multiset_build(all.take(k), entry);
        }
        queue.push(entry);
        assert(queue.entries() =~= old(queue).entries().add(
            all.take(iter.index() + 1).to_multiset(),
        ));
    }
    assert(all.take(all.len() as int) =~= all);
}

/// The files that are present, in their order.
pub open spec fn present(files: Seq<Option<String>>) -> Seq<String>
    decreases files.len(),
{
    if files.len() == 0 {
        Seq::empty()
    } else {
        match files.last() {
            Some(file) => present(files.drop_last()).push(file),
            None => present(files.drop_last()),
        }
    }
}

/// Whether this is the file of a name on a vault path, or nothing where that is the given file
/// itself.
pub open spec fn is_twin(
    vault_path: String,
    name: String,
    path: String,
    twin: Option<String>,
) -> bool {
    exists|joined: String, same: bool|
        {
            &&& #[trigger] paths::joined_may_be(vault_path, name, joined)
            &&& #[trigger] paths::sameness_may_be(joined, path, same)
            &&& twin == if same {
                None
            } else {
                Some(joined)
            }
        }
}

/// Whether these are the files of a name on the vault paths, one by one. Without a name there
/// are none.
pub open spec fn are_twins(
    vault_paths: Seq<String>,
    name: Option<String>,
    path: String,
    twins: Seq<Option<String>>,
) -> bool {
    match name {
        Some(name) => {
            &&& twins.len() == vault_paths.len()
            &&& forall|i: int|
                0 <= i < twins.len() ==> is_twin(vault_paths[i], name, path, #[trigger] twins[i])
        },
        None => twins.len() == 0,
    }
}

/// What became of the removal of one file.
#[derive(Clone, Copy, Debug, PartialEq, Eq, Structural)]
pub enum Removal {
    /// The file was removed.
    Removed,
    /// The file was already gone.
    AlreadyGone,
    /// The file could not be removed.
    Refused,
}

/// Whether an entry was evicted, by what became of its files: it was unless one of them could
/// not be removed. Files that were already gone do not count against it.
pub fn is_deleted(removals: &Vec<Removal>) -> (deleted: bool)
    ensures
        deleted <==> !removals@.contains(Removal::Refused),
{
    let mut i: usize = 0;
    while i < removals.len()
        invariant
            i <= removals@.len(),
            forall|j: int| 0 <= j < i ==> removals@[j] != Removal::Refused,
        decreases removals@.len() - i,
    {
        if removals[i] == Removal::Refused {
            assert(removals@[i as int] == Removal::Refused);
            return false;
        }
        i += 1;
    }
    true
}

/// Storage eviction engine.
///
/// Watches disk capacity and evicts the lowest-priority transmitted data when utilization
/// exceeds the trigger threshold.
pub struct EvictionEngine {
    config: EvictionConfig,
}

impl EvictionEngine {
    /// The thresholds and paths.
    pub closed spec fn config_spec(&self) -> EvictionConfig {
        self.config
    }

    /// Creates a new eviction engine with the given configuration.
    pub fn new(config: EvictionConfig) -> (engine: EvictionEngine)
        ensures
            engine.config_spec() == config,
    {
        EvictionEngine { config }
    }

    /// The thresholds and paths.
    pub fn config(&self) -> (config: &EvictionConfig)
        ensures
            *config == self.config_spec(),
    {
        &self.config
    }

    /// The utilization of a file system that has so many blocks, and available blocks, of a
    /// fragment size. `percent` computes what percentage the used bytes are of all bytes.
    pub fn check_utilization<P: Fn(u64, u64) -> Double>(
        &self,
        blocks: u64,
        blocks_available: u64,
        fragment_size: u64,
        percent: &P,
    ) -> (utilization: Double)
        requires
            blocks * fragment_size <= u64::MAX,
            blocks_available * fragment_size <= u64::MAX,
            blocks * fragment_size > 0 ==> blocks_available <= blocks,
            forall|used: u64, total: u64| call_requires(*percent, (used, total)),
        ensures
            blocks * fragment_size == 0 ==> utilization.bits == ZERO_BITS,
            blocks * fragment_size > 0 ==> call_ensures(
                *percent,
                (
                    (blocks * fragment_size - blocks_available * fragment_size) as u64,
                    (blocks * fragment_size) as u64,
                ),
                utilization,
            ),
    {
        let total: u64 = blocks * fragment_size;
        let avail: u64 = blocks_available * fragment_size;
        if total == 0 {
            return Double::from_bits(ZERO_BITS);
        }
        assert(avail <= total) by (nonlinear_arith)
            requires
                blocks_available <= blocks,
                total == blocks * fragment_size,
                avail == blocks_available * fragment_size,
        ;
        let used: u64 = total - avail;
        percent(used, total)
    }

    /// Starts an eviction cycle on a vault path with the given utilization, if that exceeds
    /// the trigger. The cycle then holds the entries of the queue until it is finished.
    pub fn run_eviction_cycle(
        &self,
        queue: &mut PriorityQueue,
        utilization: Double,
    ) -> (cycle: Option<EvictionCycle>)
        ensures
            cycle is Some <==> self.config_spec().trigger_percent.lt_spec(utilization),
            cycle is None ==> final(queue).entries() == old(queue).entries(),
            cycle matches Some(c) ==> {
                &&& begun(old(queue).entries(), c@)
                &&& c@.trigger == self.config_spec().trigger_percent
                &&& c@.target == self.config_spec().target_percent
                &&& c@.util == utilization
                &&& final(queue).entries() == Multiset::<PScoreEntry>::empty()
            },
            final(queue).weights_spec() == old(queue).weights_spec(),
    {
        if !self.config.trigger_percent.lt(&utilization) {
            return None;
        }
        let mut candidates: Vec<PScoreEntry> = Vec::new();
        let mut keep: Vec<PScoreEntry> = Vec::new();
        proof {
            broadcast use vstd::seq_lib::group_to_multiset_ensures;

            assert(candidates@.to_multiset().len() == 0);
            assert(keep@.to_multiset().len() == 0);
            assert(queue.entries().add(keep@.to_multiset().add(candidates@.to_multiset()))
                =~= old(queue).entries());
        }
        loop
            invariant
                queue.weights_spec() == old(queue).weights_spec(),
                queue.entries().add(keep@.to_multiset().add(candidates@.to_multiset())) == old(
                    queue,
                ).entries(),
                forall|i: int|
                    0 <= i < candidates@.len() ==> (#[trigger] candidates@[i]).transmitted,
                forall|i: int| 0 <= i < keep@.len() ==> !(#[trigger] keep@[i]).transmitted,
                all_dated(candidates@),
                all_dated(keep@),
            ensures
                queue.entries().len() == 0,
            decreases queue.entries().len(),
        {
            let ghost left = queue.entries();
            match queue.pop() {
                Some(entry) => {
                    proof {
                        vstd::seq_lib::to_multiset_build(candidates@, entry);
                        vstd::seq_lib::to_multiset_build(keep@, entry);
                        assert(left =~= queue.entries().insert(entry));
                    }
                    let ghost (c, k) = (candidates@, keep@);
                    if entry.transmitted {
                        candidates.push(entry);
                    } else {
                        keep.push(entry);
                    }
                    assert(queue.entries().add(keep@.to_multiset().add(candidates@.to_multiset()))
                        =~= left.add(k.to_multiset().add(c.to_multiset())));
                },
                None => {
                    break;
                },
            }
        }
        let ghost found = candidates@;
        let sorted = sorting::stable_sort(candidates);
        let ghost order = sorted@;
        let pending = sorting::flipped(sorted);
        proof {
            broadcast use vstd::seq_lib::group_to_multiset_ensures;

            assert forall|i: int| 0 <= i < order.len() implies {
                &&& (#[trigger] order[i]).transmitted
                &&& order[i].ingested_at.wf()
            } by {
                assert(order.contains(order[i]));
                assert(order.to_multiset().count(order[i]) > 0);
                assert(found.contains(order[i]));
            }
            assert(order.reverse().reverse() =~= order);
            assert(queue.entries() =~= Multiset::<PScoreEntry>::empty());
            assert(keep@.to_multiset().add(order.to_multiset()) =~= old(queue).entries());
        }
        Some(
            EvictionCycle {
                trigger: self.config.trigger_percent,
                target: self.config.target_percent,
                util: utilization,
                pending,
                keep,
                trail: AuditTrail { records: Vec::new(), evicted: Ghost(Seq::empty()) },
            },
        )
    }

    /// The files to delete for a sealed file, in their order: the file itself, then the file of
    /// the same name on each vault path, where it is another one.
    pub fn delete_sealed(&self, path: &String) -> (files: Vec<String>)
        ensures
            files@.len() > 0,
            files@[0]@ == path@,
            exists|name: Option<String>, twins: Seq<Option<String>>|
                {
                    &&& #[trigger] paths::file_name_may_be(*path, name)
                    &&& files@.skip(1) == #[trigger] present(twins)
                    &&& are_twins(self.config_spec().vault_paths@, name, *path, twins)
                },
    {
        let mut files: Vec<String> = Vec::new();
        files.push(path.clone());
        let ghost mut twins: Seq<Option<String>> = Seq::empty();
        assert(files@.skip(1) =~= present(twins));
        let name = match paths::file_name(path) {
            Some(name) => name,
            None => {
                assert(are_twins(self.config_spec().vault_paths@, None, *path, twins));
                return files;
            },
        };
        let mut i: usize = 0;
        while i < self.config.vault_paths.len()
            invariant
                i <= self.config.vault_paths@.len(),
                files@.len() > 0,
                files@[0]@ == path@,
                files@.skip(1) == present(twins),
                twins.len() == i,
                forall|j: int|
                    0 <= j < twins.len() ==> is_twin(
                        self.config_spec().vault_paths@[j],
                        name,
                        *path,
                        #[trigger] twins[j],
                    ),
            decreases self.config.vault_paths@.len() - i,
        {
            let joined = paths::join(&self.config.vault_paths[i], &name);
            let same = paths::is_same(&joined, path);
            let ghost (before, seen) = (files@, twins);
            proof {
                let twin = if same { None } else { Some(joined) };
                assert(paths::joined_may_be(self.config_spec().vault_paths@[i as int], name, joined));
                assert(paths::sameness_may_be(joined, *path, same));
                assert(is_twin(self.config_spec().vault_paths@[i as int], name, *path, twin));
                twins = twins.push(twin);
                assert(twins.drop_last() =~= seen);
            }
            if !same {
                files.push(joined);
                assert(files@.skip(1) =~= before.skip(1).push(joined));
            }
            i += 1;
        }
        assert(are_twins(self.config_spec().vault_paths@, Some(name), *path, twins));
        files
    }
}

/// What became of the next candidate of a cycle.
pub enum EvictionOutcome {
    /// Its files were deleted, which was recorded so, and the utilization is now estimated as
    /// this.
    Deleted { util: Double, record: EvictionAuditEntry },
    /// Its files could not be deleted.
    Failed,
}

/// The state of a cycle after the outcomes of its candidates, as long as it wants more.
pub open spec fn settled(state: EvictionState, outcomes: Seq<EvictionOutcome>) -> EvictionState
    decreases outcomes.len(),
{
    if outcomes.len() == 0 || !state.wants_more() {
        state
    } else {
        settled(
            match outcomes[0] {
                EvictionOutcome::Deleted { util, record } => state.after_deletion(util, record),
                EvictionOutcome::Failed => state.after_failure(),
            },
            outcomes.skip(1),
        )
    }
}

/// Whether a cycle accounts for the entries of a queue: each is queued still or was evicted,
/// and those that were evicted or may be had been transmitted.
pub open spec fn accounts_for(entries: Multiset<PScoreEntry>, state: EvictionState) -> bool {
    &&& state.queued().add(state.evicted.to_multiset()) == entries
    &&& forall|i: int|
        0 <= i < state.candidates.len() ==> (#[trigger] state.candidates[i]).transmitted
    &&& forall|i: int| 0 <= i < state.evicted.len() ==> (#[trigger] state.evicted[i]).transmitted
}

/// Whether a cycle goes from lower scores to higher ones.
pub open spec fn lowest_first(state: EvictionState) -> bool {
    sorting::ascending(state.evicted + state.candidates)
}

proof fn lemma_front_counts(s: Seq<PScoreEntry>)
    requires
        s.len() > 0,
    ensures
        s.to_multiset() == s.skip(1).to_multiset().insert(s[0]),
{
    broadcast use vstd::seq_lib::group_to_multiset_ensures;

    assert(s.remove(0) =~= s.skip(1));
    assert(s.contains(s[0]));
    assert(s.to_multiset() =~= s.skip(1).to_multiset().insert(s[0]));
}

proof fn lemma_settled_accounts(
    entries: Multiset<PScoreEntry>,
    state: EvictionState,
    outcomes: Seq<EvictionOutcome>,
)
    requires
        accounts_for(entries, state),
    ensures
        accounts_for(entries, settled(state, outcomes)),
    decreases outcomes.len(),
{
    if outcomes.len() > 0 && state.wants_more() {
        let first = state.candidates[0];
        lemma_front_counts(state.candidates);
        match outcomes[0] {
            EvictionOutcome::Deleted { util, record } => {
                let next = state.after_deletion(util, record);
                vstd::seq_lib::to_multiset_build(state.evicted, first);
                assert(next.queued().add(next.evicted.to_multiset()) =~= state.queued().add(
                    state.evicted.to_multiset(),
                ));
                lemma_settled_accounts(entries, next, outcomes.skip(1));
            },
            EvictionOutcome::Failed => {
                let next = state.after_failure();
                vstd::seq_lib::to_multiset_build(state.keep, first);
                assert(next.queued().add(next.evicted.to_multiset()) =~= state.queued().add(
                    state.evicted.to_multiset(),
                ));
                lemma_settled_accounts(entries, next, outcomes.skip(1));
            },
        }
    }
}

/// Eviction deletes transmitted entries only, and loses nothing else: whatever became of the
/// candidates, every entry is queued still or is among those that were evicted, and an entry
/// that was not transmitted is queued as often as before.
pub proof fn law_eviction_spares_the_untransmitted(
    entries: Multiset<PScoreEntry>,
    state: EvictionState,
    outcomes: Seq<EvictionOutcome>,
    entry: PScoreEntry,
)
    requires
        begun(entries, state),
    ensures
        settled(state, outcomes).queued().add(settled(state, outcomes).evicted.to_multiset())
            == entries,
        forall|i: int|
            0 <= i < settled(state, outcomes).evicted.len() ==> (#[trigger] settled(
                state,
                outcomes,
            ).evicted[i]).transmitted,
        !entry.transmitted ==> settled(state, outcomes).queued().count(entry) == entries.count(
            entry,
        ),
{
    broadcast use vstd::seq_lib::group_to_multiset_ensures;

    assert(state.evicted.to_multiset().len() == 0);
    assert(state.queued().add(state.evicted.to_multiset()) =~= entries);
    lemma_settled_accounts(entries, state, outcomes);
    let end = settled(state, outcomes);
    if !entry.transmitted && end.evicted.contains(entry) {
        let i = choose|i: int| 0 <= i < end.evicted.len() && end.evicted[i] == entry;
        assert(end.evicted[i].transmitted);
    }
}

proof fn lemma_settled_ascends(state: EvictionState, outcomes: Seq<EvictionOutcome>)
    requires
        lowest_first(state),
    ensures
        lowest_first(settled(state, outcomes)),
    decreases outcomes.len(),
{
    if outcomes.len() > 0 && state.wants_more() {
        let line = state.evicted + state.candidates;
        match outcomes[0] {
            EvictionOutcome::Deleted { util, record } => {
                let next = state.after_deletion(util, record);
                assert(next.evicted + next.candidates =~= line);
                lemma_settled_ascends(next, outcomes.skip(1));
            },
            EvictionOutcome::Failed => {
                let next = state.after_failure();
                let shorter = next.evicted + next.candidates;
                assert forall|i: int, j: int| 0 <= i <= j < shorter.len() implies (
                #[trigger] shorter[i]).key() <= (#[trigger] shorter[j]).key() by {
                    let n = state.evicted.len();
                    let a = if i < n { i } else { i + 1 };
                    let b = if j < n { j } else { j + 1 };
                    assert(shorter[i] == line[a] && shorter[j] == line[b]);
                }
                lemma_settled_ascends(next, outcomes.skip(1));
            },
        }
    }
}

/// Eviction takes the lowest scores first: the evicted entries come in ascending order, and no
/// candidate that is left scores lower than one that was evicted.
pub proof fn law_eviction_takes_the_lowest_first(
    entries: Multiset<PScoreEntry>,
    state: EvictionState,
    outcomes: Seq<EvictionOutcome>,
)
    requires
        begun(entries, state),
    ensures
        sorting::ascending(settled(state, outcomes).evicted),
        forall|i: int, j: int|
            0 <= i < settled(state, outcomes).evicted.len() && 0 <= j < settled(
                state,
                outcomes,
            ).candidates.len() ==> (#[trigger] settled(state, outcomes).evicted[i]).key() <= (
            #[trigger] settled(state, outcomes).candidates[j]).key(),
{
    assert(state.evicted + state.candidates =~= state.candidates);
    lemma_settled_ascends(state, outcomes);
    let end = settled(state, outcomes);
    let line = end.evicted + end.candidates;
    assert forall|i: int, j: int| 0 <= i <= j < end.evicted.len() implies (
    #[trigger] end.evicted[i]).key() <= (#[trigger] end.evicted[j]).key() by {
        assert(line[i] == end.evicted[i] && line[j] == end.evicted[j]);
    }
    assert forall|i: int, j: int|
        0 <= i < end.evicted.len() && 0 <= j < end.candidates.len() implies (
    #[trigger] end.evicted[i]).key() <= (#[trigger] end.candidates[j]).key() by {
        assert(line[i] == end.evicted[i] && line[end.evicted.len() + j] == end.candidates[j]);
    }
}

/// Whether every deletion is recorded as that of its entry.
pub open spec fn truthful(state: EvictionState, outcomes: Seq<EvictionOutcome>) -> bool
    decreases outcomes.len(),
{
    if outcomes.len() == 0 || !state.wants_more() {
        true
    } else {
        match outcomes[0] {
            EvictionOutcome::Deleted { util, record } => {
                &&& record.tells_of(state.candidates[0])
                &&& truthful(state.after_deletion(util, record), outcomes.skip(1))
            },
            EvictionOutcome::Failed => truthful(state.after_failure(), outcomes.skip(1)),
        }
    }
}

/// Whether an audit log tells of evicted entries, one by one.
pub open spec fn tells_of_all(
    audit: Seq<EvictionAuditEntry>,
    evicted: Seq<PScoreEntry>,
) -> bool {
    &&& audit.len() == evicted.len()
    &&& forall|i: int| 0 <= i < audit.len() ==> (#[trigger] audit[i]).tells_of(evicted[i])
}

proof fn lemma_settled_tells(state: EvictionState, outcomes: Seq<EvictionOutcome>)
    requires
        tells_of_all(state.audit, state.evicted),
        truthful(state, outcomes),
    ensures
        tells_of_all(settled(state, outcomes).audit, settled(state, outcomes).evicted),
    decreases outcomes.len(),
{
    if outcomes.len() > 0 && state.wants_more() {
        match outcomes[0] {
            EvictionOutcome::Deleted { util, record } => {
                lemma_settled_tells(state.after_deletion(util, record), outcomes.skip(1));
            },
            EvictionOutcome::Failed => {
                lemma_settled_tells(state.after_failure(), outcomes.skip(1));
            },
        }
    }
}

/// The audit log tells of exactly the entries that were evicted, in the order in which they
/// were.
pub proof fn law_audit_log_tells_of_the_evicted(
    entries: Multiset<PScoreEntry>,
    state: EvictionState,
    outcomes: Seq<EvictionOutcome>,
)
    requires
        begun(entries, state),
        truthful(state, outcomes),
    ensures
        tells_of_all(settled(state, outcomes).audit, settled(state, outcomes).evicted),
{
    lemma_settled_tells(state, outcomes);
}

/// A cycle that has an outcome for every candidate ends with the utilization below the target
/// or with no candidate left.
pub proof fn law_eviction_reaches_the_target(
    state: EvictionState,
    outcomes: Seq<EvictionOutcome>,
)
    requires
        outcomes.len() >= state.candidates.len(),
    ensures
        settled(state, outcomes).util.lt_spec(state.target) || settled(
            state,
            outcomes,
        ).candidates.len() == 0,
    decreases outcomes.len(),
{
    if outcomes.len() > 0 && state.wants_more() {
        match outcomes[0] {
            EvictionOutcome::Deleted { util, record } => {
                law_eviction_reaches_the_target(state.after_deletion(util, record), outcomes.skip(1));
            },
            EvictionOutcome::Failed => {
                law_eviction_reaches_the_target(state.after_failure(), outcomes.skip(1));
            },
        }
    }
}

/// Eviction stops at the target: once the utilization is below it, nothing more is evicted,
/// whatever candidates are left and whatever their deletion would give.
pub proof fn law_eviction_stops_at_the_target(
    state: EvictionState,
    outcomes: Seq<EvictionOutcome>,
)
    requires
        state.util.lt_spec(state.target),
    ensures
        settled(state, outcomes) == state,
{
}

/// A cycle that settles in two parts.
proof fn lemma_settled_in_parts(
    state: EvictionState,
    outcomes: Seq<EvictionOutcome>,
    k: int,
)
    requires
        0 <= k <= outcomes.len(),
    ensures
        settled(state, outcomes) == settled(settled(state, outcomes.take(k)), outcomes.skip(k)),
    decreases outcomes.len(),
{
    if k == 0 {
        assert(outcomes.take(0) =~= Seq::<EvictionOutcome>::empty());
        assert(outcomes.skip(0) =~= outcomes);
    } else if state.wants_more() {
        let next = match outcomes[0] {
            EvictionOutcome::Deleted { util, record } => state.after_deletion(util, record),
            EvictionOutcome::Failed => state.after_failure(),
        };
        lemma_settled_in_parts(next, outcomes.skip(1), k - 1);
        assert(outcomes.take(k).skip(1) =~= outcomes.skip(1).take(k - 1));
        assert(outcomes.skip(1).skip(k - 1) =~= outcomes.skip(k));
        assert(outcomes.take(k)[0] == outcomes[0]);
    }
}

/// Every entry that was evicted was taken at a utilization that was not below the target: once a
/// part of the outcomes has brought the utilization below it, the rest evicts nothing.
pub proof fn law_nothing_is_evicted_below_the_target(
    state: EvictionState,
    outcomes: Seq<EvictionOutcome>,
    k: int,
)
    requires
        0 <= k <= outcomes.len(),
        settled(state, outcomes.take(k)).util.lt_spec(settled(state, outcomes.take(k)).target),
    ensures
        settled(state, outcomes) == settled(state, outcomes.take(k)),
        settled(state, outcomes).evicted == settled(state, outcomes.take(k)).evicted,
{
    lemma_settled_in_parts(state, outcomes, k);
}

/// A cycle offers an entry exactly while there is a candidate and the utilization is not below
/// the target, and then it offers the first candidate.
pub proof fn law_cycle_offers_only_above_the_target(
    cycle: &EvictionCycle,
    offered: Option<&PScoreEntry>,
)
    requires
        call_ensures(EvictionCycle::next, (cycle,), offered),
    ensures
        offered is Some ==> !cycle@.util.lt_spec(cycle@.target),
        offered is None ==> cycle@.util.lt_spec(cycle@.target) || cycle@.candidates.len() == 0,
        offered is Some ==> cycle@.candidates.len() > 0 && *offered->0 == cycle@.candidates[0],
{
}

/// Every transmitted entry of the queue is a candidate, and nothing else is; every other entry is
/// kept. The candidates come lowest score first.
pub proof fn law_candidates_are_the_transmitted(
    entries: Multiset<PScoreEntry>,
    state: EvictionState,
    entry: PScoreEntry,
)
    requires
        begun(entries, state),
    ensures
        state.candidates.to_multiset().count(entry) == (if entry.transmitted {
            entries.count(entry)
        } else {
            0
        }),
        state.keep.to_multiset().count(entry) == (if entry.transmitted {
            0
        } else {
            entries.count(entry)
        }),
        forall|i: int, j: int|
            0 <= i <= j < state.candidates.len() ==> !(
            #[trigger] state.candidates[j]).cached_score.lt_spec(
                (#[trigger] state.candidates[i]).cached_score,
            ),
        state.evicted.len() == 0,
        state.audit.len() == 0,
{
    broadcast use vstd::seq_lib::group_to_multiset_ensures;

    if state.candidates.to_multiset().count(entry) > 0 {
        assert(state.candidates.contains(entry));
    }
    if state.keep.to_multiset().count(entry) > 0 {
        assert(state.keep.contains(entry));
    }
    assert(state.queued().count(entry) == state.keep.to_multiset().count(entry)
        + state.candidates.to_multiset().count(entry));
    assert forall|i: int, j: int| 0 <= i <= j < state.candidates.len() implies !(
    #[trigger] state.candidates[j]).cached_score.lt_spec(
        (#[trigger] state.candidates[i]).cached_score,
    ) by {
        assert(state.candidates[i].key() <= state.candidates[j].key());
    }
}

/// A failed deletion loses nothing and frees nothing: the entry stays in the queue, the
/// utilization stays, and the log gets no record. A deletion takes out the one entry it was
/// about, and adds one record.
pub proof fn law_outcomes_touch_one_entry(
    state: EvictionState,
    util: Double,
    record: EvictionAuditEntry,
)
    requires
        state.candidates.len() > 0,
    ensures
        state.after_failure().queued() == state.queued(),
        state.after_failure().util == state.util,
        state.after_failure().evicted == state.evicted,
        state.after_failure().audit == state.audit,
        state.after_failure().candidates.len() == state.candidates.len() - 1,
        state.after_deletion(util, record).queued() == state.queued().remove(state.candidates[0]),
        state.after_deletion(util, record).util == util,
        state.after_deletion(util, record).evicted == state.evicted.push(state.candidates[0]),
        state.after_deletion(util, record).audit == state.audit.push(record),
        state.after_deletion(util, record).keep == state.keep,
        state.after_deletion(util, record).target == state.target,
        state.after_deletion(util, record).trigger == state.trigger,
        state.after_failure().target == state.target,
        state.after_failure().trigger == state.trigger,
{
    lemma_front_counts(state.candidates);
    vstd::seq_lib::to_multiset_build(state.keep, state.candidates[0]);
    assert(state.after_failure().queued() =~= state.queued());
    assert(state.after_deletion(util, record).queued() =~= state.queued().remove(
        state.candidates[0],
    ));
}

/// A record of the log tells the id, the score, the size and the criticality of the entry that
/// was evicted, and when.
pub proof fn law_record_tells_of_its_entry(
    record: EvictionAuditEntry,
    entry: PScoreEntry,
    now: Timestamp,
)
    requires
        record.records(entry, now),
    ensures
        record.evicted_id@ == entry.id@,
        record.score == entry.cached_score,
        record.size_mb == entry.size_mb,
        record.criticality == entry.criticality,
        record.timestamp == now,
{
}

/// The log that a cycle leaves has one record for each evicted entry, in the order of their
/// eviction, with its id, score, size and criticality.
pub proof fn law_log_matches_the_evicted(
    audit: Seq<EvictionAuditEntry>,
    evicted: Seq<PScoreEntry>,
)
    requires
        tells_of_all(audit, evicted),
    ensures
        audit.len() == evicted.len(),
        forall|i: int|
            0 <= i < audit.len() ==> (#[trigger] audit[i]).evicted_id@ == evicted[i].id@
                && audit[i].score == evicted[i].cached_score && audit[i].size_mb
                == evicted[i].size_mb && audit[i].criticality == evicted[i].criticality,
{
}

/// The reason in the log shows the utilization and the trigger that it was held against: they
/// stand between `Storage at `, `% > ` and `% trigger`, and nothing else stands there.
pub proof fn law_reason_shows_both_numbers(util: Seq<char>, trigger: Seq<char>)
    ensures
        text::has_prefix(reason_text(util, trigger), "Storage at "@ + util),
        text::has_suffix(reason_text(util, trigger), trigger + "% trigger"@),
        reason_text(util, trigger).subrange(
            "Storage at "@.len() as int + util.len(),
            reason_text(util, trigger).len() - trigger.len() - "% trigger"@.len(),
        ) == "% > "@,
{
    let reason = reason_text(util, trigger);
    let head = "Storage at "@ + util;
    let tail = trigger + "% trigger"@;
    assert(reason =~= head + "% > "@ + tail);
    assert(reason.take(head.len() as int) =~= head);
    assert(reason.skip(reason.len() - tail.len()) =~= tail);
    assert(reason.subrange(head.len() as int, reason.len() - tail.len()) =~= "% > "@);
}

/// The limits that are set are taken as they are; the others are 85 and 70.
pub proof fn law_eviction_configuration_takes_what_is_set(
    trigger_percent: Option<Double>,
    target_percent: Option<Double>,
    config: EvictionConfig,
)
    requires
        call_ensures(EvictionConfig::from_env, (trigger_percent, target_percent), config),
    ensures
        trigger_percent matches Some(p) ==> config.trigger_percent == p,
        target_percent matches Some(p) ==> config.target_percent == p,
        trigger_percent is None ==> config.trigger_percent.bits == 0x4055_4000_0000_0000,
        target_percent is None ==> config.target_percent.bits == 0x4051_8000_0000_0000,
        config.vault_paths@.len() == 0,
{
}

/// The files that are there are those of the list.
proof fn lemma_present_files(files: Seq<Option<String>>, file: String)
    ensures
        present(files).contains(file) <==> files.contains(Some(file)),
    decreases files.len(),
{
    if files.len() > 0 {
        let rest = files.drop_last();
        lemma_present_files(rest, file);
        assert(files =~= rest.push(files.last()));
        if rest.contains(Some(file)) {
            let i = choose|i: int| 0 <= i < rest.len() && rest[i] == Some(file);
            assert(files[i] == Some(file));
        }
        if files.contains(Some(file)) && files.last() != Some(file) {
            let i = choose|i: int| 0 <= i < files.len() && files[i] == Some(file);
            assert(rest[i] == Some(file));
        }
        match files.last() {
            Some(last) => {
                let shorter = present(rest);
                assert(shorter.push(last)[shorter.len() as int] == last);
                if shorter.contains(file) {
                    let i = choose|i: int| 0 <= i < shorter.len() && shorter[i] == file;
                    assert(shorter.push(last)[i] == file);
                }
                if last == file {
                    assert(files[files.len() - 1] == Some(file));
                }
            },
            None => {},
        }
    }
}

/// Deleting a sealed file deletes every copy: the file itself first, and then, for every vault
/// that is watched, the file of the same name there, unless that is the file itself. Nothing else
/// is deleted.
pub proof fn law_deletion_reaches_every_vault(
    engine: &EvictionEngine,
    path: &String,
    files: Vec<String>,
)
    requires
        call_ensures(EvictionEngine::delete_sealed, (engine, path), files),
    ensures
        files@.len() > 0,
        files@[0]@ == path@,
        exists|name: Option<String>|
            {
                &&& #[trigger] paths::file_name_may_be(*path, name)
                &&& name is None ==> files@.len() == 1
                &&& name is Some ==> forall|i: int|
                    0 <= i < engine.config_spec().vault_paths@.len() ==> reached(
                        #[trigger] engine.config_spec().vault_paths@[i],
                        name->0,
                        *path,
                        files@.skip(1),
                    )
                &&& forall|file: String| #[trigger]
                    files@.skip(1).contains(file) ==> is_copy_of(
                        engine.config_spec().vault_paths@,
                        name->0,
                        file,
                    )
            },
{
    let (name, twins) = choose|name: Option<String>, twins: Seq<Option<String>>|
        {
            &&& #[trigger] paths::file_name_may_be(*path, name)
            &&& files@.skip(1) == #[trigger] present(twins)
            &&& are_twins(engine.config_spec().vault_paths@, name, *path, twins)
        };
    let vaults = engine.config_spec().vault_paths@;
    match name {
        None => {
            assert(present(twins).len() == 0);
        },
        Some(name) => {
            assert forall|i: int| 0 <= i < vaults.len() implies reached(
                #[trigger] vaults[i],
                name,
                *path,
                files@.skip(1),
            ) by {
                assert(is_twin(vaults[i], name, *path, twins[i]));
                if twins[i] is Some {
                    lemma_present_files(twins, twins[i]->0);
                    assert(twins.contains(twins[i]));
                }
            }
        },
    }
    assert forall|file: String| #[trigger] files@.skip(1).contains(file) implies is_copy_of(
        vaults,
        name->0,
        file,
    ) by {
        lemma_present_files(twins, file);
        let i = choose|i: int| 0 <= i < twins.len() && twins[i] == Some(file);
        assert(is_twin(vaults[i], name->0, *path, twins[i]));
        assert(paths::joined_may_be(vaults[i], name->0, file));
    }
}

/// Whether the file of a name in a vault is among those to delete, or is the one that the name
/// was taken from.
pub open spec fn reached(
    vault_path: String,
    name: String,
    path: String,
    files: Seq<String>,
) -> bool {
    exists|joined: String, same: bool|
        {
            &&& #[trigger] paths::joined_may_be(vault_path, name, joined)
            &&& #[trigger] paths::sameness_may_be(joined, path, same)
            &&& same || files.contains(joined)
        }
}

/// Whether a file is that of a name in one of the vaults.
pub open spec fn is_copy_of(vault_paths: Seq<String>, name: String, file: String) -> bool {
    exists|i: int|
        0 <= i < vault_paths.len() && paths::joined_may_be(#[trigger] vault_paths[i], name, file)
}

/// A cycle begins exactly where the utilization exceeds the trigger. Then every transmitted entry
/// of the queue is a candidate and every other one is kept, and the limits and the utilization
/// are those that were given. Otherwise the queue stays as it is.
pub proof fn law_cycle_begins_above_the_trigger(
    engine: &EvictionEngine,
    queue: &mut PriorityQueue,
    utilization: Double,
    cycle: Option<EvictionCycle>,
    entry: PScoreEntry,
)
    requires
        call_ensures(
            EvictionEngine::run_eviction_cycle,
            (engine, queue, utilization),
            cycle,
        ),
    ensures
        cycle is Some <==> engine.config_spec().trigger_percent.lt_spec(utilization),
        cycle is None ==> final(queue).entries() == old(queue).entries(),
        cycle matches Some(c) ==> {
            &&& c@.util == utilization
            &&& c@.trigger == engine.config_spec().trigger_percent
            &&& c@.target == engine.config_spec().target_percent
            &&& c@.candidates.to_multiset().count(entry) == (if entry.transmitted {
                old(queue).entries().count(entry)
            } else {
                0
            })
            &&& c@.keep.to_multiset().count(entry) == (if entry.transmitted {
                0
            } else {
                old(queue).entries().count(entry)
            })
        },
        final(queue).weights_spec() == old(queue).weights_spec(),
{
    if cycle is Some {
        law_candidates_are_the_transmitted(old(queue).entries(), cycle->0@, entry);
    }
}

/// A deletion that succeeded takes out the first candidate, brings the utilization to what its
/// size leaves of it, and logs its id, score, size and criticality at that time.
pub proof fn law_deletion_is_logged<
    R: Fn(Double, Double) -> Double,
    P: Fn(Double) -> String,
>(cycle: &mut EvictionCycle, now: Timestamp, reduced: &R, percent_text: &P)
    requires
        old(cycle)@.candidates.len() > 0,
        call_ensures(
            EvictionCycle::deleted_at::<R, P>,
            (cycle, now, reduced, percent_text),
            (),
        ),
    ensures
        ({
            let gone = old(cycle)@.candidates[0];
            let record = final(cycle)@.audit.last();
            &&& call_ensures(*reduced, (old(cycle)@.util, gone.size_mb), final(cycle)@.util)
            &&& final(cycle)@.candidates == old(cycle)@.candidates.skip(1)
            &&& final(cycle)@.keep == old(cycle)@.keep
            &&& final(cycle)@.evicted == old(cycle)@.evicted.push(gone)
            &&& final(cycle)@.audit.len() == old(cycle)@.audit.len() + 1
            &&& final(cycle)@.audit.drop_last() == old(cycle)@.audit
            &&& record.evicted_id@ == gone.id@
            &&& record.score == gone.cached_score
            &&& record.size_mb == gone.size_mb
            &&& record.criticality == gone.criticality
            &&& record.timestamp == now
            &&& final(cycle)@.target == old(cycle)@.target
            &&& final(cycle)@.trigger == old(cycle)@.trigger
        }),
{
    assert(old(cycle)@.audit.push(final(cycle)@.audit.last()).drop_last() =~= old(cycle)@.audit);
}

/// A deletion that failed keeps the entry for the queue and goes on to the next candidate; nothing
/// is logged and the utilization stays.
pub proof fn law_failed_deletion_keeps_the_entry(cycle: &mut EvictionCycle)
    requires
        old(cycle)@.candidates.len() > 0,
        call_ensures(EvictionCycle::kept, (cycle,), ()),
    ensures
        final(cycle)@.candidates == old(cycle)@.candidates.skip(1),
        final(cycle)@.keep == old(cycle)@.keep.push(old(cycle)@.candidates[0]),
        final(cycle)@.evicted == old(cycle)@.evicted,
        final(cycle)@.audit == old(cycle)@.audit,
        final(cycle)@.util == old(cycle)@.util,
        final(cycle)@.target == old(cycle)@.target,
        final(cycle)@.trigger == old(cycle)@.trigger,
{
}

/// A cycle that ends puts back into the queue what it kept and the candidates that it did not
/// get to, and hands over the log.
pub proof fn law_finish_returns_what_was_not_evicted(
    cycle: EvictionCycle,
    queue: &mut PriorityQueue,
    log: Vec<EvictionAuditEntry>,
    entry: PScoreEntry,
)
    requires
        call_ensures(EvictionCycle::finish, (cycle, queue), log),
    ensures
        log@ == cycle@.audit,
        final(queue).entries().count(entry) == old(queue).entries().count(entry)
            + cycle@.keep.to_multiset().count(entry) + cycle@.candidates.to_multiset().count(entry),
        final(queue).weights_spec() == old(queue).weights_spec(),
{
    broadcast use vstd::multiset::group_multiset_axioms;

}

} // verus!
