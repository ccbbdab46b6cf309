//! Crash recovery: finishing the commits of pending files that a crash left behind.

use crate::ingest;
use crate::ingest::Outcome;
use crate::storage;
use crate::storage::Drive;
use crate::storage::StoreOp;
use crate::storage::StoreOpView;
use crate::storage::World;
use crate::text;
use crate::vault::ProcessedPayload;
use crate::vault::VaultError;
use vstd::prelude::*;

verus! {

/// Whether a name is that of a pending file.
pub open spec fn is_pending(name: Seq<char>) -> bool {
    text::has_suffix(name, ".pending"@)
}

/// The name under which a pending file is committed.
pub open spec fn recovered_name_of(name: Seq<char>) -> Seq<char> {
    storage::sealed_name_of(text::without_suffix(name, ".pending"@))
}

/// The name under which a pending file is committed.
pub fn recovered_name(name: &str) -> (sealed: String)
    ensures
        sealed@ == recovered_name_of(name@),
{
    let stem = text::strip_suffix(name, ".pending");
    storage::sealed_name(stem.as_str())
}

/// The pending files of two directories: those of the first, then those that only the second
/// has.
pub open spec fn orphans(primary: Seq<Seq<char>>, mirror: Seq<Seq<char>>) -> Seq<Seq<char>> {
    primary.filter(|name: Seq<char>| is_pending(name)) + mirror.filter(
        |name: Seq<char>| is_pending(name) && !primary.contains(name),
    )
}

/// Whether a name is among others.
fn lists(names: &Vec<String>, name: &String) -> (r: bool)
    ensures
        r == text::names_view(names@).contains(name@),
{
    let mut i: usize = 0;
    while i < names.len()
        invariant
            i <= names@.len(),
            forall|j: int| 0 <= j < i ==> names@[j]@ != name@,
        decreases names@.len() - i,
    {
        if names[i] == *name {
            assert(text::names_view(names@)[i as int] == name@);
            return true;
        }
        i += 1;
    }
    assert forall|j: int| 0 <= j < names@.len() implies text::names_view(names@)[j] != name@ by {
        assert(names@[j]@ != name@);
    }
    false
}

/// Finds the pending files of two directory listings.
pub fn orphaned_pending(primary: &Vec<String>, mirror: &Vec<String>) -> (found: Vec<String>)
    ensures
        text::names_view(found@) == orphans(text::names_view(primary@), text::names_view(mirror@)),
{
    let ghost first = text::names_view(primary@);
    let ghost second = text::names_view(mirror@);
    let ghost on_first = |name: Seq<char>| is_pending(name);
    let ghost only_second = |name: Seq<char>| is_pending(name) && !first.contains(name);
    let mut found: Vec<String> = Vec::new();
    let mut i: usize = 0;
    proof {
        reveal(Seq::filter);
        assert(text::names_view(found@) =~= first.take(0).filter(on_first));
    }
    while i < primary.len()
        invariant
            i <= primary@.len(),
            first == text::names_view(primary@),
            on_first == (|name: Seq<char>| is_pending(name)),
            text::names_view(found@) == first.take(i as int).filter(on_first),
        decreases primary@.len() - i,
    {
        let ghost before = found@;
        if text::ends_with(primary[i].as_str(), ".pending") {
            found.push(primary[i].clone());
            assert(text::names_view(found@) =~= text::names_view(before).push(primary@[i as int]@));
        }
        proof {
            reveal(Seq::filter);
            assert(first.take(i + 1).drop_last() =~= first.take(i as int));
            assert(first.take(i + 1).last() == primary@[i as int]@);
        }
        i += 1;
    }
    let ghost kept = text::names_view(found@);
    let mut j: usize = 0;
    proof {
        reveal(Seq::filter);
        assert(first.take(first.len() as int) =~= first);
        assert(text::names_view(found@) =~= kept + second.take(0).filter(only_second));
    }
    while j < mirror.len()
        invariant
            j <= mirror@.len(),
            first == text::names_view(primary@),
            second == text::names_view(mirror@),
            only_second == (|name: Seq<char>| is_pending(name) && !first.contains(name)),
            text::names_view(found@) == kept + second.take(j as int).filter(only_second),
        decreases mirror@.len() - j,
    {
        let ghost before = found@;
        if text::ends_with(mirror[j].as_str(), ".pending") && !lists(primary, &mirror[j]) {
            found.push(mirror[j].clone());
            assert(text::names_view(found@) =~= text::names_view(before).push(mirror@[j as int]@));
        }
        proof {
            reveal(Seq::filter);
            assert(second.take(j + 1).drop_last() =~= second.take(j as int));
            assert(second.take(j + 1).last() == mirror@[j as int]@);
            assert(text::names_view(found@) =~= kept + second.take(j + 1).filter(only_second));
        }
        j += 1;
    }
    assert(second.take(second.len() as int) =~= second);
    found
}

/// What is to be done about a pending file.
#[derive(Clone, Copy, Debug, PartialEq, Eq, Structural)]
pub enum Verdict {
    /// Both vaults have it with the same contents: commit it.
    Commit,
    /// Only the primary vault has it: copy it to the mirror, then commit it.
    CopyToMirror,
    /// Only the mirror vault has it: copy it to the primary, then commit it.
    CopyToPrimary,
    /// The contents differ: leave it for manual intervention.
    Conflict,
    /// Neither vault has it any more: it cannot be read, which ends the recovery.
    Gone,
}

/// What is to be done about a pending file with these contents on the two vaults.
pub open spec fn verdict_on(primary: Option<Seq<u8>>, mirror: Option<Seq<u8>>) -> Verdict {
    match (primary, mirror) {
        (Some(a), Some(b)) => if a == b { Verdict::Commit } else { Verdict::Conflict },
        (Some(_), None) => Verdict::CopyToMirror,
        (None, Some(_)) => Verdict::CopyToPrimary,
        (None, None) => Verdict::Gone,
    }
}

/// The view of optional contents.
pub open spec fn contents_view(contents: Option<Vec<u8>>) -> Option<Seq<u8>> {
    match contents {
        Some(bytes) => Some(bytes@),
        None => None,
    }
}

/// Whether two byte strings are equal.
fn same_bytes(a: &Vec<u8>, b: &Vec<u8>) -> (r: bool)
    ensures
        r == (a@ == b@),
{
    if a.len() != b.len() {
        return false;
    }
    let mut i: usize = 0;
    while i < a.len()
        invariant
            i <= a@.len(),
            a@.len() == b@.len(),
            forall|j: int| 0 <= j < i ==> a@[j] == b@[j],
        decreases a@.len() - i,
    {
        if a[i] != b[i] {
            return false;
        }
        i += 1;
    }
    assert(a@ =~= b@);
    true
}

/// The commit of a pending file: rename it on both vaults, then flush both directories.
pub open spec fn commit_plan(name: Seq<char>) -> Seq<StoreOpView> {
    seq![
        StoreOpView::Rename { drive: Drive::Primary, from: name, to: recovered_name_of(name) },
        StoreOpView::Rename { drive: Drive::Mirror, from: name, to: recovered_name_of(name) },
        StoreOpView::SyncDir { drive: Drive::Primary },
        StoreOpView::SyncDir { drive: Drive::Mirror },
    ]
}

/// The copy of a pending file to a vault: write it, then flush it.
pub open spec fn copy_plan(drive: Drive, name: Seq<char>, data: Seq<u8>) -> Seq<StoreOpView> {
    seq![StoreOpView::Write { drive, name, data }, StoreOpView::Fsync { drive, name }]
}

/// The operations that repair a pending file.
pub open spec fn repair_plan(verdict: Verdict, name: Seq<char>, data: Seq<u8>) -> Seq<StoreOpView> {
    match verdict {
        Verdict::Commit => commit_plan(name),
        Verdict::CopyToMirror => copy_plan(Drive::Mirror, name, data) + commit_plan(name),
        Verdict::CopyToPrimary => copy_plan(Drive::Primary, name, data) + commit_plan(name),
        Verdict::Conflict | Verdict::Gone => Seq::empty(),
    }
}

/// A repair with its texts and bytes taken by their views.
#[verifier::ext_equal]
pub struct RepairView {
    pub name: Seq<char>,
    pub verdict: Verdict,
    pub data: Seq<u8>,
    /// The operations that have succeeded.
    pub done: nat,
    /// Whether an operation failed.
    pub failed: bool,
}

impl RepairView {
    /// All operations of the repair.
    pub open spec fn plan(self) -> Seq<StoreOpView> {
        repair_plan(self.verdict, self.name, self.data)
    }

    /// The operation that comes next.
    pub open spec fn op(self) -> Option<StoreOpView> {
        if !self.failed && self.done < self.plan().len() {
            Some(self.plan()[self.done as int])
        } else {
            None
        }
    }

    /// After the current operation succeeded or failed.
    pub open spec fn after(self, ok: bool) -> RepairView {
        if self.op() is None {
            self
        } else if ok {
            RepairView { done: self.done + 1, ..self }
        } else {
            RepairView { failed: true, ..self }
        }
    }

    /// Whether the commit was completed.
    pub open spec fn recovered(self) -> bool {
        self.verdict != Verdict::Conflict && self.verdict != Verdict::Gone && !self.failed
            && self.done >= self.plan().len()
    }
}

/// One pending file on its way to being committed.
pub struct Repair {
    name: String,
    verdict: Verdict,
    data: Vec<u8>,
    done: usize,
    failed: bool,
}

impl View for Repair {
    type V = RepairView;

    closed spec fn view(&self) -> RepairView {
        RepairView {
            name: self.name@,
            verdict: self.verdict,
            data: self.data@,
            done: self.done as nat,
            failed: self.failed,
        }
    }
}

/// The bytes that are copied where a copy is missing.
pub open spec fn copied_bytes(primary: Option<Seq<u8>>, mirror: Option<Seq<u8>>) -> Seq<u8> {
    match (primary, mirror) {
        (Some(a), _) => a,
        (None, Some(b)) => b,
        (None, None) => Seq::empty(),
    }
}

/// The repair of a pending file, before its first operation.
pub open spec fn fresh_repair(
    name: Seq<char>,
    primary: Option<Seq<u8>>,
    mirror: Option<Seq<u8>>,
) -> RepairView {
    RepairView {
        name,
        verdict: verdict_on(primary, mirror),
        data: copied_bytes(primary, mirror),
        done: 0,
        failed: verdict_on(primary, mirror) == Verdict::Gone,
    }
}

impl Repair {
    /// Judges a pending file by its contents on the two vaults.
    pub fn begin(name: &str, primary: Option<Vec<u8>>, mirror: Option<Vec<u8>>) -> (repair: Repair)
        ensures
            repair@ == fresh_repair(name@, contents_view(primary), contents_view(mirror)),
    {
        let ghost (a, b) = (contents_view(primary), contents_view(mirror));
        let (verdict, data) = match (primary, mirror) {
            (Some(a), Some(b)) => if same_bytes(&a, &b) { (Verdict::Commit, a) } else {
                (Verdict::Conflict, a)
            },
            (Some(a), None) => (Verdict::CopyToMirror, a),
            (None, Some(b)) => (Verdict::CopyToPrimary, b),
            (None, None) => (Verdict::Gone, Vec::new()),
        };
        let failed = verdict == Verdict::Gone;
        let repair = Repair { name: name.to_owned(), verdict, data, done: 0, failed };
        assert(repair@ =~= fresh_repair(name@, a, b));
        repair
    }

    /// What is to be done about the file.
    pub fn verdict(&self) -> (verdict: Verdict)
        ensures
            verdict == self@.verdict,
    {
        self.verdict
    }

    /// The operation of the commit at an index.
    fn commit_op(&self, index: usize) -> (op: Option<StoreOp<'_>>)
        ensures
            match op {
                Some(op) => index < 4 && op@ == commit_plan(self@.name)[index as int],
                None => index >= 4,
            },
    {
        match index {
            0 => Some(
                StoreOp::Rename {
                    drive: Drive::Primary,
                    from: self.name.clone(),
                    to: recovered_name(self.name.as_str()),
                },
            ),
            1 => Some(
                StoreOp::Rename {
                    drive: Drive::Mirror,
                    from: self.name.clone(),
                    to: recovered_name(self.name.as_str()),
                },
            ),
            2 => Some(StoreOp::SyncDir { drive: Drive::Primary }),
            3 => Some(StoreOp::SyncDir { drive: Drive::Mirror }),
            _ => None,
        }
    }

    /// The operation at an index of a repair that begins with a copy.
    fn copy_op(&self, drive: Drive, index: usize) -> (op: Option<StoreOp<'_>>)
        ensures
            ({
                let plan = copy_plan(drive, self@.name, self@.data) + commit_plan(self@.name);
                match op {
                    Some(op) => index < plan.len() && op@ == plan[index as int],
                    None => index >= plan.len(),
                }
            }),
    {
        match index {
            0 => Some(
                StoreOp::Write { drive, name: self.name.clone(), data: self.data.as_slice() },
            ),
            1 => Some(StoreOp::Fsync { drive, name: self.name.clone() }),
            _ => self.commit_op(index - 2),
        }
    }

    /// The operation to perform next.
    pub fn next_op(&self) -> (op: Option<StoreOp<'_>>)
        ensures
            match op {
                Some(op) => self@.op() == Some(op@),
                None => self@.op() is None,
            },
    {
        if self.failed {
            return None;
        }
        match self.verdict {
            Verdict::Commit => self.commit_op(self.done),
            Verdict::CopyToMirror => self.copy_op(Drive::Mirror, self.done),
            Verdict::CopyToPrimary => self.copy_op(Drive::Primary, self.done),
            Verdict::Conflict | Verdict::Gone => None,
        }
    }

    /// Takes the outcome of the current operation.
    pub fn advance(&mut self, ok: bool)
        ensures
            final(self)@ == old(self)@.after(ok),
    {
        let pending = match self.next_op() {
            Some(_) => true,
            None => false,
        };
        if pending {
            if ok {
                self.done = self.done + 1;
            } else {
                self.failed = true;
            }
        }
        assert(self@ =~= old(self)@.after(ok));
    }

    /// Whether the commit was completed.
    pub fn recovered(&self) -> (r: bool)
        ensures
            r == self@.recovered(),
    {
        let finished = match self.next_op() {
            Some(_) => false,
            None => true,
        };
        match self.verdict {
            Verdict::Conflict | Verdict::Gone => false,
            _ => finished && !self.failed,
        }
    }

    /// Whether an operation failed, which ends the whole recovery.
    pub fn failed(&self) -> (r: bool)
        ensures
            r == self@.failed,
    {
        self.failed
    }
}

/// A recovery with its names taken by their views.
#[verifier::ext_equal]
pub struct RecoveryView {
    /// The pending files that were found.
    pub names: Seq<Seq<char>>,
    /// How many of them have been dealt with.
    pub handled: nat,
    /// How many commits were completed.
    pub recovered: nat,
}

/// A walk through the pending files that a crash left behind.
pub struct Recovery {
    names: Vec<String>,
    handled: usize,
    recovered: usize,
}

impl View for Recovery {
    type V = RecoveryView;

    closed spec fn view(&self) -> RecoveryView {
        RecoveryView {
            names: text::names_view(self.names@),
            handled: self.handled as nat,
            recovered: self.recovered as nat,
        }
    }
}

/// Starts recovery from the directory listings of the two vaults.
pub fn recover_orphaned_pending(primary: &Vec<String>, mirror: &Vec<String>) -> (r: Recovery)
    ensures
        r@.names == orphans(text::names_view(primary@), text::names_view(mirror@)),
        r@.handled == 0,
        r@.recovered == 0,
{
    Recovery { names: orphaned_pending(primary, mirror), handled: 0, recovered: 0 }
}

impl Recovery {
    #[verifier::type_invariant]
    spec fn counts_agree(self) -> bool {
        self.recovered <= self.handled <= self.names@.len()
    }

    /// The pending file to deal with next.
    pub fn current(&self) -> (name: Option<&String>)
        ensures
            match name {
                Some(name) => self@.handled < self@.names.len() && name@
                    == self@.names[self@.handled as int],
                None => self@.handled >= self@.names.len(),
            },
    {
        if self.handled < self.names.len() {
            Some(&self.names[self.handled])
        } else {
            None
        }
    }

    /// Notes how the repair of the current file ended.
    pub fn conclude(&mut self, repair: &Repair)
        requires
            old(self)@.handled < old(self)@.names.len(),
        ensures
            final(self)@.names == old(self)@.names,
            final(self)@.handled == old(self)@.handled + 1,
            final(self)@.recovered == old(self)@.recovered + (if repair@.recovered() {
                1int
            } else {
                0int
            }),
    {
        proof {
            use_type_invariant(&*self);
            assert(self.names@.len() == self.names.len());
        }
        let handled = self.handled + 1;
        let recovered = if repair.recovered() { self.recovered + 1 } else { self.recovered };
        self.handled = handled;
        self.recovered = recovered;
    }

    /// How many commits were completed.
    pub fn recovered(&self) -> (n: usize)
        ensures
            n == self@.recovered,
    {
        self.recovered
    }
}

/// The drives after a run of operations.
pub open spec fn apply_all(world: World, ops: Seq<StoreOpView>) -> World
    decreases ops.len(),
{
    if ops.len() == 0 {
        world
    } else {
        apply_all(world, ops.drop_last()).apply(ops.last())
    }
}

/// The contents of a file, where it is there.
pub open spec fn contents_of(files: Map<Seq<char>, Seq<u8>>, name: Seq<char>) -> Option<Seq<u8>> {
    if files.contains_key(name) {
        Some(files[name])
    } else {
        None
    }
}

/// The drives after the repair of a pending file.
pub open spec fn repaired(world: World, name: Seq<char>) -> World {
    let repair = fresh_repair(
        name,
        contents_of(world.primary.files, name),
        contents_of(world.mirror.files, name),
    );
    apply_all(world, repair.plan())
}

/// A pending file is recovered under the name that its ingest would have sealed it under.
pub proof fn law_recovery_seals_under_the_same_name(file_id: Seq<char>)
    ensures
        is_pending(storage::pending_name_of(file_id)),
        recovered_name_of(storage::pending_name_of(file_id)) == storage::sealed_name_of(file_id),
{
    let suffix = ".pending"@;
    let name = storage::pending_name_of(file_id);
    reveal_strlit(".pending");
    assert(name.skip(name.len() - suffix.len()) =~= suffix);
    assert(name.take(name.len() - suffix.len()) =~= file_id);
}

/// The operations of a plan, one after another.
pub(crate) proof fn lemma_commit_applied(world: World, name: Seq<char>)
    ensures
        apply_all(world, commit_plan(name)) == world.apply(commit_plan(name)[0]).apply(
            commit_plan(name)[1],
        ).apply(commit_plan(name)[2]).apply(commit_plan(name)[3]),
{
    let ops = commit_plan(name);
    reveal_with_fuel(apply_all, 5);
    assert(ops.drop_last() =~= ops.take(3));
    assert(ops.take(3).drop_last() =~= ops.take(2));
    assert(ops.take(2).drop_last() =~= ops.take(1));
    assert(ops.take(1).drop_last() =~= ops.take(0));
}

pub(crate) proof fn lemma_apply_all_concat(world: World, a: Seq<StoreOpView>, b: Seq<StoreOpView>)
    ensures
        apply_all(world, a + b) == apply_all(apply_all(world, a), b),
    decreases b.len(),
{
    if b.len() == 0 {
        assert(a + b =~= a);
    } else {
        lemma_apply_all_concat(world, a, b.drop_last());
        assert((a + b).drop_last() =~= a + b.drop_last());
    }
}

pub(crate) proof fn lemma_copy_applied(world: World, drive: Drive, name: Seq<char>, data: Seq<u8>)
    ensures
        apply_all(world, copy_plan(drive, name, data)) == world.apply(
            copy_plan(drive, name, data)[0],
        ).apply(copy_plan(drive, name, data)[1]),
{
    let ops = copy_plan(drive, name, data);
    reveal_with_fuel(apply_all, 3);
    assert(ops.drop_last() =~= ops.take(1));
    assert(ops.take(1).drop_last() =~= ops.take(0));
}

/// Where the pending files that are there are complete and flushed, and there is at least one,
/// recovery commits the file on both vaults.
pub proof fn law_recovery_completes_the_commit(file_id: Seq<char>, file: Seq<u8>, world: World)
    requires
        ({
            let pending = storage::pending_name_of(file_id);
            let (p, m) = (world.primary, world.mirror);
            &&& p.files.contains_key(pending) || m.files.contains_key(pending)
            &&& p.files.contains_key(pending) ==> p.holds(pending, file)
            &&& m.files.contains_key(pending) ==> m.holds(pending, file)
        }),
    ensures
        ingest::committed(
            repaired(world, storage::pending_name_of(file_id)),
            file_id,
            file,
        ),
{
    let pending = storage::pending_name_of(file_id);
    law_recovery_seals_under_the_same_name(file_id);
    storage::lemma_pending_is_not_sealed(file_id, file_id);
    let p = contents_of(world.primary.files, pending);
    let m = contents_of(world.mirror.files, pending);
    let verdict = verdict_on(p, m);
    if verdict == Verdict::Commit {
        lemma_commit_applied(world, pending);
    } else {
        let drive = if verdict == Verdict::CopyToMirror { Drive::Mirror } else { Drive::Primary };
        lemma_apply_all_concat(world, copy_plan(drive, pending, file), commit_plan(pending));
        lemma_copy_applied(world, drive, pending, file);
        lemma_commit_applied(
            apply_all(world, copy_plan(drive, pending, file)),
            pending,
        );
    }
}

/// A pending file whose contents differ between the vaults is left as it is.
pub proof fn law_conflict_changes_nothing(name: Seq<char>, world: World)
    requires
        world.primary.files.contains_key(name),
        world.mirror.files.contains_key(name),
        world.primary.files[name] != world.mirror.files[name],
    ensures
        repaired(world, name) == world,
{
}

/// Where each vault has the file complete and flushed, under its pending name, or under its
/// sealed name with no pending file left, recovery leaves the sealed file on both vaults,
/// complete, and no pending file.
pub proof fn law_recovery_keeps_a_safe_file(file_id: Seq<char>, file: Seq<u8>, world: World)
    requires
        ingest::safe_on(world.primary, file_id, file),
        ingest::safe_on(world.mirror, file_id, file),
    ensures
        sealed_on_both(repaired(world, storage::pending_name_of(file_id)), file_id, file),
{
    let pending = storage::pending_name_of(file_id);
    if world.primary.files.contains_key(pending) || world.mirror.files.contains_key(pending) {
        law_recovery_completes_the_commit(file_id, file, world);
    }
}

/// Whether both vaults have the sealed file, complete and flushed, and no pending file.
pub open spec fn sealed_on_both(world: World, file_id: Seq<char>, file: Seq<u8>) -> bool {
    let pending = storage::pending_name_of(file_id);
    let sealed = storage::sealed_name_of(file_id);
    &&& world.primary.holds(sealed, file) && world.mirror.holds(sealed, file)
    &&& !world.primary.files.contains_key(pending) && !world.mirror.files.contains_key(pending)
}

/// A payload survives a loss of power at any moment after its pending files are flushed:
/// whatever the vaults held at first, and whether or not the loss takes the commit back,
/// recovery then leaves its sealed file on both vaults, complete.
pub proof fn law_flushed_payload_survives_a_crash(
    file_id: Seq<char>,
    raw: Seq<u8>,
    world: World,
    processed: Result<ProcessedPayload, VaultError>,
    outcomes: Seq<Outcome>,
    up: World,
)
    requires
        ({
            let (crashed, left) = ingest::run(
                (ingest::fresh_ingest(file_id, raw), world),
                processed,
                outcomes,
            );
            &&& ingest::past_flush(crashed.step)
            &&& storage::may_come_up(left.primary, up.primary)
            &&& storage::may_come_up(left.mirror, up.mirror)
        }),
    ensures
        ({
            let crashed = ingest::run(
                (ingest::fresh_ingest(file_id, raw), world),
                processed,
                outcomes,
            ).0;
            sealed_on_both(
                repaired(up, storage::pending_name_of(file_id)),
                file_id,
                crashed.file,
            )
        }),
{
    ingest::law_power_loss_leaves_the_file_safe(file_id, raw, world, processed, outcomes, up);
    let crashed = ingest::run((ingest::fresh_ingest(file_id, raw), world), processed, outcomes).0;
    law_recovery_keeps_a_safe_file(file_id, crashed.file, up);
}

/// A file is pending exactly if its name ends in `.pending`, and it is recovered under the rest
/// of its name with `.sealed`.
pub proof fn law_pending_files_end_in_pending(name: Seq<char>)
    ensures
        is_pending(name) <==> text::has_suffix(name, ".pending"@),
        is_pending(name) ==> recovered_name_of(name) == name.take(
            name.len() - ".pending"@.len(),
        ) + ".sealed"@,
{
}

/// What is done with a pending file follows from what the vaults hold: two equal copies are
/// committed, one copy is carried to the other vault, whole, two different copies are left alone.
pub proof fn law_verdict_follows_from_the_copies(
    name: &str,
    primary: Option<Vec<u8>>,
    mirror: Option<Vec<u8>>,
    repair: Repair,
)
    requires
        call_ensures(Repair::begin, (name, primary, mirror), repair),
    ensures
        repair@.name == name@,
        primary is Some && mirror is Some ==> (repair@.verdict == Verdict::Commit <==> primary->0@
            == mirror->0@),
        primary is Some && mirror is Some ==> (repair@.verdict == Verdict::Conflict
            <==> primary->0@ != mirror->0@),
        primary is Some && mirror is None ==> repair@.verdict == Verdict::CopyToMirror
            && repair@.data == primary->0@,
        primary is None && mirror is Some ==> repair@.verdict == Verdict::CopyToPrimary
            && repair@.data == mirror->0@,
        primary is None && mirror is None ==> repair@.verdict == Verdict::Gone,
        repair@.done == 0,
        !repair@.recovered(),
{
}

/// A repair counts as recovered only when every operation of it has succeeded. One that fails
/// ends it: nothing more is done, and it is not recovered.
pub proof fn law_failed_repair_is_not_recovered(repair: RepairView, ok: bool)
    ensures
        repair.op() is Some && !ok ==> repair.after(ok).failed && !repair.after(ok).recovered()
            && repair.after(ok).op() is None,
        repair.op() is Some && ok ==> repair.after(ok).done == repair.done + 1
            && repair.after(ok).failed == repair.failed,
        repair.op() is None ==> repair.after(ok) == repair,
        repair.recovered() ==> repair.op() is None && !repair.failed && repair.done
            >= repair.plan().len(),
        repair.verdict == Verdict::Conflict || repair.verdict == Verdict::Gone
            ==> !repair.recovered() && repair.op() is None,
{
}

/// Each pending file is concluded once, in turn, and counts as recovered only if its repair
/// finished.
pub proof fn law_recovery_counts_finished_repairs(recovery: &mut Recovery, repair: &Repair)
    requires
        old(recovery)@.handled < old(recovery)@.names.len(),
        call_ensures(Recovery::conclude, (recovery, repair), ()),
    ensures
        final(recovery)@.names == old(recovery)@.names,
        final(recovery)@.handled == old(recovery)@.handled + 1,
        repair@.op() is Some || repair@.failed ==> final(recovery)@.recovered == old(
            recovery,
        )@.recovered,
        !repair@.failed && repair@.op() is None && (repair@.verdict == Verdict::Commit
            || repair@.verdict == Verdict::CopyToMirror || repair@.verdict
            == Verdict::CopyToPrimary) ==> final(recovery)@.recovered == old(recovery)@.recovered
            + 1,
{
}

} // verus!
