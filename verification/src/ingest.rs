//! The ingest pipeline: stage, process, write pending, flush, commit, flush directories.

use crate::hexcode;
use crate::sealing;
use crate::storage;
use crate::storage::Drive;
use crate::storage::DriveState;
use crate::storage::Listing;
use crate::storage::StoreOp;
use crate::storage::StoreOpView;
use crate::storage::World;
use crate::vault;
use crate::vault::ProcessedPayload;
use crate::vault::Vault;
use crate::vault::VaultError;
use vstd::prelude::*;
use vstd::slice::slice_to_vec;
use vstd::utf8;

verus! {

/// Where an ingest stands: the operation that comes next, or how it ended.
#[derive(Clone, Copy, Debug, PartialEq, Eq, Structural)]
pub enum IngestStep {
    /// Write the raw payload to the RAM shield.
    Stage,
    /// Compress, encrypt and hash the payload.
    Process,
    /// Remove the staged file.
    Unstage,
    /// Write the pending file to the primary vault.
    PendingPrimary,
    /// Write the pending file to the mirror vault.
    PendingMirror,
    /// Flush the pending file on the primary vault.
    FsyncPrimary,
    /// Flush the pending file on the mirror vault.
    FsyncMirror,
    /// Rename pending to sealed on the primary vault.
    CommitPrimary,
    /// Rename pending to sealed on the mirror vault.
    CommitMirror,
    /// Flush the directory of the primary vault.
    SyncPrimary,
    /// Flush the directory of the mirror vault.
    SyncMirror,
    /// The payload is sealed on both vaults.
    Sealed,
    /// The operation of a step failed.
    Failed(FailedStep),
}

/// The step that ended an ingest.
#[derive(Clone, Copy, Debug, PartialEq, Eq, Structural)]
pub enum FailedStep {
    Stage,
    Process(VaultError),
    PendingPrimary,
    PendingMirror,
    FsyncPrimary,
    FsyncMirror,
    CommitPrimary,
    CommitMirror,
    SyncPrimary,
    SyncMirror,
}

/// The step that follows when the operation of a step succeeded or failed. A staged file that
/// cannot be removed stops nothing.
pub open spec fn step_after(step: IngestStep, ok: bool) -> IngestStep {
    match step {
        IngestStep::Stage => if ok { IngestStep::Process } else {
            IngestStep::Failed(FailedStep::Stage)
        },
        IngestStep::Unstage => IngestStep::PendingPrimary,
        IngestStep::PendingPrimary => if ok { IngestStep::PendingMirror } else {
            IngestStep::Failed(FailedStep::PendingPrimary)
        },
        IngestStep::PendingMirror => if ok { IngestStep::FsyncPrimary } else {
            IngestStep::Failed(FailedStep::PendingMirror)
        },
        IngestStep::FsyncPrimary => if ok { IngestStep::FsyncMirror } else {
            IngestStep::Failed(FailedStep::FsyncPrimary)
        },
        IngestStep::FsyncMirror => if ok { IngestStep::CommitPrimary } else {
            IngestStep::Failed(FailedStep::FsyncMirror)
        },
        IngestStep::CommitPrimary => if ok { IngestStep::CommitMirror } else {
            IngestStep::Failed(FailedStep::CommitPrimary)
        },
        IngestStep::CommitMirror => if ok { IngestStep::SyncPrimary } else {
            IngestStep::Failed(FailedStep::CommitMirror)
        },
        IngestStep::SyncPrimary => if ok { IngestStep::SyncMirror } else {
            IngestStep::Failed(FailedStep::SyncPrimary)
        },
        IngestStep::SyncMirror => if ok { IngestStep::Sealed } else {
            IngestStep::Failed(FailedStep::SyncMirror)
        },
        IngestStep::Process | IngestStep::Sealed | IngestStep::Failed(_) => step,
    }
}

/// An ingest with its texts and bytes taken by their views.
#[verifier::ext_equal]
pub struct IngestView {
    pub file_id: Seq<char>,
    pub raw: Seq<u8>,
    pub file: Seq<u8>,
    pub step: IngestStep,
}

impl IngestView {
    /// The operation that comes next. There is none while the payload is processed and at the
    /// end.
    pub open spec fn op(self) -> Option<StoreOpView> {
        let staged = storage::staged_name_of(self.file_id);
        let pending = storage::pending_name_of(self.file_id);
        let sealed = storage::sealed_name_of(self.file_id);
        match self.step {
            IngestStep::Stage => Some(
                StoreOpView::Write { drive: Drive::RamShield, name: staged, data: self.raw },
            ),
            IngestStep::Unstage => Some(
                StoreOpView::Remove { drive: Drive::RamShield, name: staged },
            ),
            IngestStep::PendingPrimary => Some(
                StoreOpView::Write { drive: Drive::Primary, name: pending, data: self.file },
            ),
            IngestStep::PendingMirror => Some(
                StoreOpView::Write { drive: Drive::Mirror, name: pending, data: self.file },
            ),
            IngestStep::FsyncPrimary => Some(
                StoreOpView::Fsync { drive: Drive::Primary, name: pending },
            ),
            IngestStep::FsyncMirror => Some(
                StoreOpView::Fsync { drive: Drive::Mirror, name: pending },
            ),
            IngestStep::CommitPrimary => Some(
                StoreOpView::Rename { drive: Drive::Primary, from: pending, to: sealed },
            ),
            IngestStep::CommitMirror => Some(
                StoreOpView::Rename { drive: Drive::Mirror, from: pending, to: sealed },
            ),
            IngestStep::SyncPrimary => Some(StoreOpView::SyncDir { drive: Drive::Primary }),
            IngestStep::SyncMirror => Some(StoreOpView::SyncDir { drive: Drive::Mirror }),
            IngestStep::Process | IngestStep::Sealed | IngestStep::Failed(_) => None,
        }
    }

    /// After the payload was processed.
    pub open spec fn accepted(self, processed: Result<ProcessedPayload, VaultError>) -> IngestView {
        match processed {
            Ok(payload) => IngestView {
                file: vault::sealed_bytes(payload),
                step: IngestStep::Unstage,
                ..self
            },
            Err(e) => IngestView { step: IngestStep::Failed(FailedStep::Process(e)), ..self },
        }
    }

    /// After the operation of the current step succeeded or failed.
    pub open spec fn after(self, ok: bool) -> IngestView {
        IngestView { step: step_after(self.step, ok), ..self }
    }
}

/// One payload on its way into the vault.
pub struct Ingest {
    file_id: String,
    raw: Vec<u8>,
    file: Vec<u8>,
    step: IngestStep,
}

impl View for Ingest {
    type V = IngestView;

    closed spec fn view(&self) -> IngestView {
        IngestView {
            file_id: self.file_id@,
            raw: self.raw@,
            file: self.file@,
            step: self.step,
        }
    }
}

/// An ingest before its first step.
pub open spec fn fresh_ingest(file_id: Seq<char>, raw: Seq<u8>) -> IngestView {
    IngestView { file_id, raw, file: Seq::empty(), step: IngestStep::Stage }
}

impl Ingest {
    /// Starts the ingest of a raw payload under a file id.
    fn begin(file_id: &str, raw_data: &[u8]) -> (ingest: Ingest)
        ensures
            ingest@ == fresh_ingest(file_id@, raw_data@),
    {
        let ingest = Ingest {
            file_id: file_id.to_owned(),
            raw: slice_to_vec(raw_data),
            file: Vec::new(),
            step: IngestStep::Stage,
        };
        assert(ingest@ =~= fresh_ingest(file_id@, raw_data@));
        ingest
    }

    /// Where the ingest stands.
    pub fn step(&self) -> (step: IngestStep)
        ensures
            step == self@.step,
    {
        self.step
    }

    /// The operation to perform next.
    pub fn next_op(&self) -> (op: Option<StoreOp<'_>>)
        ensures
            match op {
                Some(op) => self@.op() == Some(op@),
                None => self@.op() is None,
            },
    {
        let id = self.file_id.as_str();
        match self.step {
            IngestStep::Stage => Some(
                StoreOp::Write {
                    drive: Drive::RamShield,
                    name: storage::staged_name(id),
                    data: self.raw.as_slice(),
                },
            ),
            IngestStep::Unstage => Some(
                StoreOp::Remove { drive: Drive::RamShield, name: storage::staged_name(id) },
            ),
            IngestStep::PendingPrimary => Some(
                StoreOp::Write {
                    drive: Drive::Primary,
                    name: storage::pending_name(id),
                    data: self.file.as_slice(),
                },
            ),
            IngestStep::PendingMirror => Some(
                StoreOp::Write {
                    drive: Drive::Mirror,
                    name: storage::pending_name(id),
                    data: self.file.as_slice(),
                },
            ),
            IngestStep::FsyncPrimary => Some(
                StoreOp::Fsync { drive: Drive::Primary, name: storage::pending_name(id) },
            ),
            IngestStep::FsyncMirror => Some(
                StoreOp::Fsync { drive: Drive::Mirror, name: storage::pending_name(id) },
            ),
            IngestStep::CommitPrimary => Some(
                StoreOp::Rename {
                    drive: Drive::Primary,
                    from: storage::pending_name(id),
                    to: storage::sealed_name(id),
                },
            ),
            IngestStep::CommitMirror => Some(
                StoreOp::Rename {
                    drive: Drive::Mirror,
                    from: storage::pending_name(id),
                    to: storage::sealed_name(id),
                },
            ),
            IngestStep::SyncPrimary => Some(StoreOp::SyncDir { drive: Drive::Primary }),
            IngestStep::SyncMirror => Some(StoreOp::SyncDir { drive: Drive::Mirror }),
            IngestStep::Process | IngestStep::Sealed | IngestStep::Failed(_) => None,
        }
    }

    /// Takes the outcome of the operation of the current step.
    pub fn advance(&mut self, ok: bool)
        ensures
            final(self)@ == old(self)@.after(ok),
    {
        self.step = match self.step {
            IngestStep::Stage => if ok { IngestStep::Process } else {
                IngestStep::Failed(FailedStep::Stage)
            },
            IngestStep::Unstage => IngestStep::PendingPrimary,
            IngestStep::PendingPrimary => if ok { IngestStep::PendingMirror } else {
                IngestStep::Failed(FailedStep::PendingPrimary)
            },
            IngestStep::PendingMirror => if ok { IngestStep::FsyncPrimary } else {
                IngestStep::Failed(FailedStep::PendingMirror)
            },
            IngestStep::FsyncPrimary => if ok { IngestStep::FsyncMirror } else {
                IngestStep::Failed(FailedStep::FsyncPrimary)
            },
            IngestStep::FsyncMirror => if ok { IngestStep::CommitPrimary } else {
                IngestStep::Failed(FailedStep::FsyncMirror)
            },
            IngestStep::CommitPrimary => if ok { IngestStep::CommitMirror } else {
                IngestStep::Failed(FailedStep::CommitPrimary)
            },
            IngestStep::CommitMirror => if ok { IngestStep::SyncPrimary } else {
                IngestStep::Failed(FailedStep::CommitMirror)
            },
            IngestStep::SyncPrimary => if ok { IngestStep::SyncMirror } else {
                IngestStep::Failed(FailedStep::SyncPrimary)
            },
            IngestStep::SyncMirror => if ok { IngestStep::Sealed } else {
                IngestStep::Failed(FailedStep::SyncMirror)
            },
            IngestStep::Process => IngestStep::Process,
            IngestStep::Sealed => IngestStep::Sealed,
            IngestStep::Failed(failed) => IngestStep::Failed(failed),
        };
    }

    /// Takes the processed payload, and lays out the vault file.
    pub fn accept(&mut self, processed: Result<ProcessedPayload, VaultError>)
        requires
            old(self)@.step == IngestStep::Process,
        ensures
            final(self)@ == old(self)@.accepted(processed),
    {
        match processed {
            Ok(payload) => {
                self.file = vault::write_pending(&payload);
                self.step = IngestStep::Unstage;
            },
            Err(e) => {
                self.step = IngestStep::Failed(FailedStep::Process(e));
            },
        }
        assert(self@ =~= old(self)@.accepted(processed));
    }

    /// Compresses, encrypts and hashes the staged payload, and lays out the vault file.
    pub fn process(&mut self, vault: &Vault)
        requires
            old(self)@.step == IngestStep::Process,
        ensures
            exists|processed: Result<ProcessedPayload, VaultError>|
                {
                    &&& vault.seals_as(old(self)@.raw, processed)
                    &&& final(self)@ == #[trigger] old(self)@.accepted(processed)
                },
    {
        let processed = vault.process(self.raw.as_slice());
        self.accept(processed);
    }

    /// The name of the sealed file, once the payload is sealed.
    pub fn sealed(&self) -> (name: Option<String>)
        ensures
            match name {
                Some(name) => self@.step == IngestStep::Sealed && name@ == storage::sealed_name_of(
                    self@.file_id,
                ),
                None => self@.step != IngestStep::Sealed,
            },
    {
        match self.step {
            IngestStep::Sealed => Some(storage::sealed_name(self.file_id.as_str())),
            _ => None,
        }
    }
}

impl Vault {
    /// Starts the ingest of a raw payload under a file id: stage, process, write pending, flush,
    /// commit, flush directories.
    pub fn ingest(&self, file_id: &str, raw_data: &[u8]) -> (ingest: Ingest)
        ensures
            ingest@ == fresh_ingest(file_id@, raw_data@),
    {
        Ingest::begin(file_id, raw_data)
    }
}

/// How one step of an ingest went: the processed payload where that is the step, and otherwise
/// whether the operation succeeded, with the bytes that a failed write leaves behind.
pub struct Outcome {
    pub ok: bool,
    pub torn: Seq<u8>,
}

/// An ingest and the drives after one more step.
pub open spec fn step_with(
    state: (IngestView, World),
    processed: Result<ProcessedPayload, VaultError>,
    outcome: Outcome,
) -> (IngestView, World) {
    let (ingest, world) = state;
    match ingest.op() {
        Some(op) => (
            ingest.after(outcome.ok),
            if outcome.ok {
                world.apply(op)
            } else {
                world.apply_failed(op, outcome.torn)
            },
        ),
        None => if ingest.step == IngestStep::Process {
            (ingest.accepted(processed), world)
        } else {
            state
        },
    }
}

/// An ingest and the drives after a run of steps.
pub open spec fn run(
    start: (IngestView, World),
    processed: Result<ProcessedPayload, VaultError>,
    outcomes: Seq<Outcome>,
) -> (IngestView, World)
    decreases outcomes.len(),
{
    if outcomes.len() == 0 {
        start
    } else {
        step_with(
            run(start, processed, outcomes.drop_last()),
            processed,
            outcomes.last(),
        )
    }
}

/// Whether a file is on a drive as it was before: there or not, with the same contents, and
/// flushed or not.
pub open spec fn as_before(now: DriveState, before: DriveState, name: Seq<char>) -> bool {
    &&& now.files.contains_key(name) == before.files.contains_key(name)
    &&& now.files.contains_key(name) ==> now.files[name] == before.files[name]
    &&& now.flushed.contains(name) == before.flushed.contains(name)
}

/// Whether a drive has the complete file, flushed: under its pending name, or under its sealed
/// name with no pending file left.
pub open spec fn safe_on(drive: DriveState, file_id: Seq<char>, file: Seq<u8>) -> bool {
    let pending = storage::pending_name_of(file_id);
    let sealed = storage::sealed_name_of(file_id);
    ||| drive.holds(pending, file)
    ||| drive.holds(sealed, file) && !drive.files.contains_key(pending)
}

/// Whether the sealed name on a drive stands for what it stood for before, or for the complete
/// file, flushed.
pub open spec fn old_or_new(
    now: DriveState,
    before: DriveState,
    file_id: Seq<char>,
    file: Seq<u8>,
) -> bool {
    let sealed = storage::sealed_name_of(file_id);
    as_before(now, before, sealed) || now.holds(sealed, file)
}

/// Whether both vaults have the sealed file, complete, with no pending file left, and their
/// directories flushed.
pub open spec fn committed(world: World, file_id: Seq<char>, file: Seq<u8>) -> bool {
    let pending = storage::pending_name_of(file_id);
    let sealed = storage::sealed_name_of(file_id);
    &&& world.primary.holds(sealed, file) && world.mirror.holds(sealed, file)
    &&& !world.primary.files.contains_key(pending) && !world.mirror.files.contains_key(pending)
    &&& world.primary.settled && world.mirror.settled
}

/// Whether a file is in one listing as it is in another.
pub open spec fn same_in(a: Listing, b: Listing, name: Seq<char>) -> bool {
    &&& a.files.contains_key(name) == b.files.contains_key(name)
    &&& a.files.contains_key(name) ==> a.files[name] == b.files[name]
    &&& a.flushed.contains(name) == b.flushed.contains(name)
}

/// Whether a file is in a listing as in one that a drive might come up with.
pub open spec fn is_possible(listing: Listing, drive: DriveState, name: Seq<char>) -> bool {
    exists|i: int|
        0 <= i < drive.possible().len() && same_in(listing, #[trigger] drive.possible()[i], name)
}

/// Whether a loss of power leaves a file as one at an earlier moment might have left it.
spec fn still_possible(now: DriveState, before: DriveState, name: Seq<char>) -> bool {
    forall|i: int|
        0 <= i < now.possible().len() ==> is_possible(#[trigger] now.possible()[i], before, name)
}

/// The same, or the file complete and flushed.
spec fn possible_or_new(
    now: DriveState,
    before: DriveState,
    name: Seq<char>,
    file: Seq<u8>,
) -> bool {
    forall|i: int|
        0 <= i < now.possible().len() ==> is_possible(#[trigger] now.possible()[i], before, name)
            || now.possible()[i].holds(name, file)
}

/// Whether a listing has the complete file, flushed, under its pending name, or under its sealed
/// name with no pending file left.
pub open spec fn safe_in(listing: Listing, file_id: Seq<char>, file: Seq<u8>) -> bool {
    let pending = storage::pending_name_of(file_id);
    let sealed = storage::sealed_name_of(file_id);
    ||| listing.holds(pending, file)
    ||| listing.holds(sealed, file) && !listing.files.contains_key(pending)
}

/// Whether a loss of power leaves the file safe.
spec fn stays_safe(drive: DriveState, file_id: Seq<char>, file: Seq<u8>) -> bool {
    forall|i: int|
        0 <= i < drive.possible().len() ==> safe_in(#[trigger] drive.possible()[i], file_id, file)
}

proof fn lemma_possible_at_first(drive: DriveState, name: Seq<char>)
    ensures
        still_possible(drive, drive, name),
{
    assert forall|i: int| 0 <= i < drive.possible().len() implies is_possible(
        #[trigger] drive.possible()[i],
        drive,
        name,
    ) by {
        assert(same_in(drive.possible()[i], drive.possible()[i], name));
    }
}

proof fn lemma_write_leaves_others(
    now: DriveState,
    before: DriveState,
    written: Seq<char>,
    data: Seq<u8>,
    name: Seq<char>,
)
    requires
        still_possible(now, before, name),
        name != written,
    ensures
        still_possible(now.write(written, data), before, name),
{
    let next = now.write(written, data);
    assert forall|i: int| 0 <= i < next.possible().len() implies is_possible(
        #[trigger] next.possible()[i],
        before,
        name,
    ) by {
        let j = if i < now.possible().len() { i } else { now.possible().len() - 1 };
        assert(is_possible(now.possible()[j], before, name));
        let k = choose|k: int|
            0 <= k < before.possible().len() && same_in(
                now.possible()[j],
                #[trigger] before.possible()[k],
                name,
            );
        assert(same_in(next.possible()[i], before.possible()[k], name));
    }
}

proof fn lemma_flush_leaves_others(
    now: DriveState,
    before: DriveState,
    flushed: Seq<char>,
    name: Seq<char>,
)
    requires
        still_possible(now, before, name),
        name != flushed,
    ensures
        still_possible(now.fsync(flushed), before, name),
{
    let next = now.fsync(flushed);
    let last = now.possible().len() - 1;
    assert(is_possible(now.possible()[last], before, name));
    let k = choose|k: int|
        0 <= k < before.possible().len() && same_in(
            now.possible()[last],
            #[trigger] before.possible()[k],
            name,
        );
    assert(same_in(next.possible()[0], before.possible()[k], name));
    assert(next.possible().len() == 1);
}

/// The place of a step in the pipeline.
spec fn ordinal(step: IngestStep) -> int {
    match step {
        IngestStep::Stage => 0,
        IngestStep::Process => 1,
        IngestStep::Unstage => 2,
        IngestStep::PendingPrimary => 3,
        IngestStep::PendingMirror => 4,
        IngestStep::FsyncPrimary => 5,
        IngestStep::FsyncMirror => 6,
        IngestStep::CommitPrimary => 7,
        IngestStep::CommitMirror => 8,
        IngestStep::SyncPrimary => 9,
        IngestStep::SyncMirror => 10,
        IngestStep::Sealed => 11,
        IngestStep::Failed(FailedStep::CommitPrimary) => 7,
        IngestStep::Failed(FailedStep::CommitMirror) => 8,
        IngestStep::Failed(FailedStep::SyncPrimary) => 9,
        IngestStep::Failed(FailedStep::SyncMirror) => 10,
        IngestStep::Failed(_) => 12,
    }
}

/// Whether the pending files have been flushed on both vaults, so that the commit began.
pub open spec fn past_flush(step: IngestStep) -> bool {
    match step {
        IngestStep::CommitPrimary
        | IngestStep::CommitMirror
        | IngestStep::SyncPrimary
        | IngestStep::SyncMirror
        | IngestStep::Sealed => true,
        IngestStep::Failed(failed) => match failed {
            FailedStep::CommitPrimary
            | FailedStep::CommitMirror
            | FailedStep::SyncPrimary
            | FailedStep::SyncMirror => true,
            _ => false,
        },
        _ => false,
    }
}

/// What holds of the drives at each step, of those that the ingest began with.
spec fn on_track(start: World, ingest: IngestView, world: World) -> bool {
    let k = ordinal(ingest.step);
    let pending = storage::pending_name_of(ingest.file_id);
    let sealed = storage::sealed_name_of(ingest.file_id);
    let file = ingest.file;
    &&& k <= 7 || k == 12 ==> as_before(world.primary, start.primary, sealed)
    &&& k <= 8 || k == 12 ==> as_before(world.mirror, start.mirror, sealed)
    &&& 4 <= k <= 7 ==> world.primary.files.contains_key(pending) && world.primary.files[pending]
        == file
    &&& 5 <= k <= 8 ==> world.mirror.files.contains_key(pending) && world.mirror.files[pending]
        == file
    &&& 6 <= k <= 7 ==> world.primary.flushed.contains(pending)
    &&& 7 <= k <= 8 ==> world.mirror.flushed.contains(pending)
    &&& 8 <= k <= 11 ==> world.primary.holds(sealed, file) && !world.primary.files.contains_key(
        pending,
    )
    &&& 9 <= k <= 11 ==> world.mirror.holds(sealed, file) && !world.mirror.files.contains_key(
        pending,
    )
    &&& 10 <= k <= 11 ==> world.primary.settled
    &&& k == 11 ==> world.mirror.settled
    &&& forall|name: Seq<char>|
        name != pending && name != sealed ==> #[trigger] as_before(
            world.primary,
            start.primary,
            name,
        )
    &&& forall|name: Seq<char>|
        name != pending && name != sealed ==> #[trigger] as_before(world.mirror, start.mirror, name)
}

/// Every step keeps the drives on track, whether it succeeds or fails.
proof fn lemma_step_keeps_track(
    start: World,
    state: (IngestView, World),
    processed: Result<ProcessedPayload, VaultError>,
    outcome: Outcome,
)
    requires
        on_track(start, state.0, state.1),
    ensures
        ({
            let (ingest, world) = step_with(state, processed, outcome);
            on_track(start, ingest, world) && ingest.file_id == state.0.file_id
        }),
{
    storage::lemma_pending_is_not_sealed(state.0.file_id, state.0.file_id);
    let world = step_with(state, processed, outcome).1;
    let pending = storage::pending_name_of(state.0.file_id);
    let sealed = storage::sealed_name_of(state.0.file_id);
    assert forall|name: Seq<char>| name != pending && name != sealed implies #[trigger] as_before(
        world.primary,
        start.primary,
        name,
    ) by {
        assert(as_before(state.1.primary, start.primary, name));
    }
    assert forall|name: Seq<char>| name != pending && name != sealed implies #[trigger] as_before(
        world.mirror,
        start.mirror,
        name,
    ) by {
        assert(as_before(state.1.mirror, start.mirror, name));
    }
}

/// What a loss of power may leave of the file at each step.
spec fn losses_on_track(start: World, ingest: IngestView, world: World) -> bool {
    let k = ordinal(ingest.step);
    let sealed = storage::sealed_name_of(ingest.file_id);
    let file = ingest.file;
    &&& k <= 7 || k == 12 ==> still_possible(world.primary, start.primary, sealed)
    &&& k <= 8 || k == 12 ==> still_possible(world.mirror, start.mirror, sealed)
    &&& 8 <= k <= 11 ==> possible_or_new(world.primary, start.primary, sealed, file)
    &&& 9 <= k <= 11 ==> possible_or_new(world.mirror, start.mirror, sealed, file)
    &&& 6 <= k <= 11 ==> stays_safe(world.primary, ingest.file_id, file)
    &&& 7 <= k <= 11 ==> stays_safe(world.mirror, ingest.file_id, file)
}

/// A commit, or the flush of a directory, keeps what a loss of power may leave on track.
proof fn lemma_commit_keeps_losses(
    now: DriveState,
    before: DriveState,
    file_id: Seq<char>,
    file: Seq<u8>,
)
    requires
        possible_or_new(now, before, storage::sealed_name_of(file_id), file),
        stays_safe(now, file_id, file),
    ensures
        now.holds(storage::pending_name_of(file_id), file) ==> {
            let next = now.rename(
                storage::pending_name_of(file_id),
                storage::sealed_name_of(file_id),
            );
            &&& possible_or_new(next, before, storage::sealed_name_of(file_id), file)
            &&& stays_safe(next, file_id, file)
        },
        possible_or_new(now.sync_dir(), before, storage::sealed_name_of(file_id), file),
        stays_safe(now.sync_dir(), file_id, file),
{
    let pending = storage::pending_name_of(file_id);
    let sealed = storage::sealed_name_of(file_id);
    storage::lemma_pending_is_not_sealed(file_id, file_id);
    let last = now.possible().len() - 1;
    assert(now.possible()[last] == now.listing());
    let synced = now.sync_dir();
    assert(synced.possible().len() == 1);
    assert(synced.possible()[0] == now.possible()[last]);
    if now.holds(pending, file) {
        let next = now.rename(pending, sealed);
        assert forall|i: int| 0 <= i < next.possible().len() implies (is_possible(
            #[trigger] next.possible()[i],
            before,
            sealed,
        ) || next.possible()[i].holds(sealed, file)) && safe_in(
            next.possible()[i],
            file_id,
            file,
        ) by {
            if i <= last {
                assert(next.possible()[i] == now.possible()[i]);
            } else {
                assert(next.possible()[i] == next.listing());
            }
        }
    }
}

/// Every step keeps what a loss of power may leave on track.
proof fn lemma_step_keeps_losses(
    start: World,
    state: (IngestView, World),
    processed: Result<ProcessedPayload, VaultError>,
    outcome: Outcome,
)
    requires
        on_track(start, state.0, state.1),
        losses_on_track(start, state.0, state.1),
    ensures
        ({
            let (ingest, world) = step_with(state, processed, outcome);
            losses_on_track(start, ingest, world)
        }),
{
    let (ingest, world) = state;
    let id = ingest.file_id;
    let pending = storage::pending_name_of(id);
    let sealed = storage::sealed_name_of(id);
    storage::lemma_pending_is_not_sealed(id, id);
    let (p, m) = (world.primary, world.mirror);
    let data = if outcome.ok { ingest.file } else { outcome.torn };
    match ingest.step {
        IngestStep::PendingPrimary => {
            lemma_write_leaves_others(p, start.primary, pending, data, sealed);
        },
        IngestStep::PendingMirror => {
            lemma_write_leaves_others(m, start.mirror, pending, data, sealed);
        },
        IngestStep::FsyncPrimary => {
            lemma_flush_leaves_others(p, start.primary, pending, sealed);
            assert(p.fsync(pending).possible().len() == 1);
        },
        IngestStep::FsyncMirror => {
            lemma_flush_leaves_others(m, start.mirror, pending, sealed);
            assert(m.fsync(pending).possible().len() == 1);
        },
        IngestStep::CommitPrimary | IngestStep::SyncPrimary => {
            lemma_commit_keeps_losses(p, start.primary, id, ingest.file);
        },
        IngestStep::CommitMirror | IngestStep::SyncMirror => {
            lemma_commit_keeps_losses(m, start.mirror, id, ingest.file);
        },
        _ => {},
    }
}

proof fn lemma_run_keeps_losses(
    start: (IngestView, World),
    processed: Result<ProcessedPayload, VaultError>,
    outcomes: Seq<Outcome>,
)
    requires
        start.0.step == IngestStep::Stage,
    ensures
        ({
            let (ingest, world) = run(start, processed, outcomes);
            losses_on_track(start.1, ingest, world)
        }),
    decreases outcomes.len(),
{
    if outcomes.len() > 0 {
        lemma_run_keeps_losses(start, processed, outcomes.drop_last());
        lemma_run_keeps_track(start, processed, outcomes.drop_last());
        lemma_step_keeps_losses(
            start.1,
            run(start, processed, outcomes.drop_last()),
            processed,
            outcomes.last(),
        );
    } else {
        let sealed = storage::sealed_name_of(start.0.file_id);
        lemma_possible_at_first(start.1.primary, sealed);
        lemma_possible_at_first(start.1.mirror, sealed);
    }
}

proof fn lemma_run_keeps_track(
    start: (IngestView, World),
    processed: Result<ProcessedPayload, VaultError>,
    outcomes: Seq<Outcome>,
)
    requires
        start.0.step == IngestStep::Stage,
    ensures
        ({
            let (ingest, world) = run(start, processed, outcomes);
            on_track(start.1, ingest, world) && ingest.file_id == start.0.file_id
        }),
    decreases outcomes.len(),
{
    if outcomes.len() > 0 {
        lemma_run_keeps_track(start, processed, outcomes.drop_last());
        lemma_step_keeps_track(
            start.1,
            run(start, processed, outcomes.drop_last()),
            processed,
            outcomes.last(),
        );
    }
}

/// Whatever the drives hold at first, whatever fails, and wherever power is lost: until the
/// pending files are flushed, the sealed name on each vault stands for what it stood for
/// before, and afterwards for that or for the complete file, flushed. An ingest that ends
/// sealed has committed the file on both vaults. No other file of the vaults changes.
pub proof fn law_ingest_is_crash_consistent(
    file_id: Seq<char>,
    raw: Seq<u8>,
    world: World,
    processed: Result<ProcessedPayload, VaultError>,
    outcomes: Seq<Outcome>,
)
    ensures
        ({
            let (ingest, after) = run((fresh_ingest(file_id, raw), world), processed, outcomes);
            let pending = storage::pending_name_of(file_id);
            let sealed = storage::sealed_name_of(file_id);
            &&& !past_flush(ingest.step) ==> {
                &&& as_before(after.primary, world.primary, sealed)
                &&& as_before(after.mirror, world.mirror, sealed)
            }
            &&& old_or_new(after.primary, world.primary, file_id, ingest.file)
            &&& old_or_new(after.mirror, world.mirror, file_id, ingest.file)
            &&& ingest.step == IngestStep::Sealed ==> committed(after, file_id, ingest.file)
            &&& forall|name: Seq<char>|
                name != pending && name != sealed ==> #[trigger] as_before(
                    after.primary,
                    world.primary,
                    name,
                )
            &&& forall|name: Seq<char>|
                name != pending && name != sealed ==> #[trigger] as_before(
                    after.mirror,
                    world.mirror,
                    name,
                )
        }),
{
    lemma_run_keeps_track((fresh_ingest(file_id, raw), world), processed, outcomes);
}

/// Once the pending files are flushed, each vault has the file complete and flushed: under its
/// pending name, or under its sealed name with no pending file left.
pub proof fn law_committing_file_is_safe_on_both(
    file_id: Seq<char>,
    raw: Seq<u8>,
    world: World,
    processed: Result<ProcessedPayload, VaultError>,
    outcomes: Seq<Outcome>,
)
    requires
        past_flush(run((fresh_ingest(file_id, raw), world), processed, outcomes).0.step),
    ensures
        ({
            let (ingest, after) = run((fresh_ingest(file_id, raw), world), processed, outcomes);
            &&& safe_on(after.primary, file_id, ingest.file)
            &&& safe_on(after.mirror, file_id, ingest.file)
        }),
{
    lemma_run_keeps_track((fresh_ingest(file_id, raw), world), processed, outcomes);
}

/// A drive that comes up from a safe listing is safe.
proof fn lemma_comes_up_safe(
    before: DriveState,
    after: DriveState,
    file_id: Seq<char>,
    file: Seq<u8>,
)
    requires
        stays_safe(before, file_id, file),
        storage::may_come_up(before, after),
    ensures
        safe_on(after, file_id, file),
{
    let i = choose|i: int|
        0 <= i < before.possible().len() && after.shows(#[trigger] before.possible()[i]);
    let l = before.possible()[i];
    assert(safe_in(l, file_id, file));
    let pending = storage::pending_name_of(file_id);
    let sealed = storage::sealed_name_of(file_id);
    assert(after.files.contains_key(pending) == l.files.contains_key(pending)) by {
        assert(after.files.dom().contains(pending) == l.files.dom().contains(pending));
    }
    assert(after.files.contains_key(sealed) == l.files.contains_key(sealed)) by {
        assert(after.files.dom().contains(sealed) == l.files.dom().contains(sealed));
    }
}

/// Once the pending files are flushed, a loss of power leaves each vault with the file complete
/// and flushed, whether or not it takes the commit back: under its pending name, or under its
/// sealed name with no pending file left.
pub proof fn law_power_loss_leaves_the_file_safe(
    file_id: Seq<char>,
    raw: Seq<u8>,
    world: World,
    processed: Result<ProcessedPayload, VaultError>,
    outcomes: Seq<Outcome>,
    up: World,
)
    requires
        ({
            let (ingest, left) = run((fresh_ingest(file_id, raw), world), processed, outcomes);
            &&& past_flush(ingest.step)
            &&& storage::may_come_up(left.primary, up.primary)
            &&& storage::may_come_up(left.mirror, up.mirror)
        }),
    ensures
        ({
            let file = run((fresh_ingest(file_id, raw), world), processed, outcomes).0.file;
            safe_on(up.primary, file_id, file) && safe_on(up.mirror, file_id, file)
        }),
{
    let start = (fresh_ingest(file_id, raw), world);
    lemma_run_keeps_track(start, processed, outcomes);
    lemma_run_keeps_losses(start, processed, outcomes);
    let (ingest, left) = run(start, processed, outcomes);
    lemma_comes_up_safe(left.primary, up.primary, file_id, ingest.file);
    lemma_comes_up_safe(left.mirror, up.mirror, file_id, ingest.file);
}

/// Whether a file is on a drive as a loss of power at the beginning might have left it, but for
/// contents that had not reached the hardware.
pub open spec fn left_as_possible(up: DriveState, start: DriveState, name: Seq<char>) -> bool {
    exists|i: int|
        {
            let l = #[trigger] start.possible()[i];
            &&& 0 <= i < start.possible().len()
            &&& up.files.contains_key(name) == l.files.contains_key(name)
            &&& up.flushed.contains(name) == l.flushed.contains(name)
            &&& l.flushed.contains(name) && l.files.contains_key(name) ==> up.files[name]
                == l.files[name]
        }
}

proof fn lemma_comes_up_old_or_new(
    before: DriveState,
    after: DriveState,
    start: DriveState,
    name: Seq<char>,
    file: Seq<u8>,
)
    requires
        possible_or_new(before, start, name, file),
        storage::may_come_up(before, after),
    ensures
        left_as_possible(after, start, name) || after.holds(name, file),
        still_possible(before, start, name) ==> left_as_possible(after, start, name),
{
    let i = choose|i: int|
        0 <= i < before.possible().len() && after.shows(#[trigger] before.possible()[i]);
    let l = before.possible()[i];
    assert(after.files.contains_key(name) == l.files.contains_key(name)) by {
        assert(after.files.dom().contains(name) == l.files.dom().contains(name));
    }
    if is_possible(l, start, name) {
        let k = choose|k: int|
            0 <= k < start.possible().len() && same_in(l, #[trigger] start.possible()[k], name);
        assert(same_in(l, start.possible()[k], name));
    }
}

/// A loss of power at any moment leaves the sealed name on each vault as a loss of power at the
/// beginning might have left it, or standing for the complete file, flushed. Until the pending
/// files are flushed, only the former.
pub proof fn law_power_loss_leaves_old_or_new(
    file_id: Seq<char>,
    raw: Seq<u8>,
    world: World,
    processed: Result<ProcessedPayload, VaultError>,
    outcomes: Seq<Outcome>,
    up: World,
)
    requires
        ({
            let left = run((fresh_ingest(file_id, raw), world), processed, outcomes).1;
            &&& storage::may_come_up(left.primary, up.primary)
            &&& storage::may_come_up(left.mirror, up.mirror)
        }),
    ensures
        ({
            let ingest = run((fresh_ingest(file_id, raw), world), processed, outcomes).0;
            let sealed = storage::sealed_name_of(file_id);
            let old_primary = left_as_possible(up.primary, world.primary, sealed);
            let old_mirror = left_as_possible(up.mirror, world.mirror, sealed);
            &&& old_primary || up.primary.holds(sealed, ingest.file)
            &&& old_mirror || up.mirror.holds(sealed, ingest.file)
            &&& !past_flush(ingest.step) ==> old_primary && old_mirror
        }),
{
    let start = (fresh_ingest(file_id, raw), world);
    lemma_run_keeps_track(start, processed, outcomes);
    lemma_run_keeps_losses(start, processed, outcomes);
    let (ingest, left) = run(start, processed, outcomes);
    let sealed = storage::sealed_name_of(file_id);
    lemma_comes_up_old_or_new(left.primary, up.primary, world.primary, sealed, ingest.file);
    lemma_comes_up_old_or_new(left.mirror, up.mirror, world.mirror, sealed, ingest.file);
}

/// A payload that was processed, and whose operations all succeed, is sealed after one run
/// through the pipeline: both vaults have committed its file, and the staged copy is gone.
pub proof fn law_ingest_seals(
    file_id: Seq<char>,
    raw: Seq<u8>,
    world: World,
    payload: ProcessedPayload,
    outcomes: Seq<Outcome>,
)
    requires
        outcomes.len() == 11,
        forall|i: int| 0 <= i < outcomes.len() ==> (#[trigger] outcomes[i]).ok,
    ensures
        ({
            let (ingest, after) = run(
                (fresh_ingest(file_id, raw), world),
                Ok(payload),
                outcomes,
            );
            &&& ingest.step == IngestStep::Sealed
            &&& ingest.file == vault::sealed_bytes(payload)
            &&& committed(after, file_id, vault::sealed_bytes(payload))
            &&& !after.ram.files.contains_key(storage::staged_name_of(file_id))
        }),
{
    let start = (fresh_ingest(file_id, raw), world);
    lemma_run_keeps_track(start, Ok(payload), outcomes);
    reveal_with_fuel(run, 12);
    assert forall|k: int| 0 <= k < 11 implies (#[trigger] outcomes.take(k + 1)).drop_last()
        == outcomes.take(k) && outcomes.take(k + 1).last() == outcomes[k] by {
        assert(outcomes.take(k + 1).drop_last() =~= outcomes.take(k));
    }
    assert(outcomes.take(11) =~= outcomes);
    assert(run(start, Ok(payload), outcomes.take(0)) == start);
    assert(run(start, Ok(payload), outcomes.take(1)).0.step == IngestStep::Process);
    let unstage = run(start, Ok(payload), outcomes.take(2));
    assert(unstage.0.step == IngestStep::Unstage);
    let pending = run(start, Ok(payload), outcomes.take(3));
    assert(pending.0.step == IngestStep::PendingPrimary);
    assert(run(start, Ok(payload), outcomes.take(4)).0.step == IngestStep::PendingMirror);
    assert(run(start, Ok(payload), outcomes.take(5)).0.step == IngestStep::FsyncPrimary);
    assert(run(start, Ok(payload), outcomes.take(6)).0.step == IngestStep::FsyncMirror);
    assert(run(start, Ok(payload), outcomes.take(7)).0.step == IngestStep::CommitPrimary);
    assert(run(start, Ok(payload), outcomes.take(8)).0.step == IngestStep::CommitMirror);
    assert(run(start, Ok(payload), outcomes.take(9)).0.step == IngestStep::SyncPrimary);
    assert(run(start, Ok(payload), outcomes.take(10)).0.step == IngestStep::SyncMirror);
}

/// Once a payload was processed, the ingest carries the file of what processing gave.
proof fn lemma_run_carries_the_file(
    start: (IngestView, World),
    processed: Result<ProcessedPayload, VaultError>,
    outcomes: Seq<Outcome>,
)
    requires
        start.0.step == IngestStep::Stage,
    ensures
        ({
            let ingest = run(start, processed, outcomes).0;
            &&& ingest.raw == start.0.raw
            &&& ingest.file_id == start.0.file_id
            &&& 2 <= ordinal(ingest.step) <= 11 ==> processed is Ok && ingest.file
                == vault::sealed_bytes(processed->Ok_0)
        }),
    decreases outcomes.len(),
{
    if outcomes.len() > 0 {
        lemma_run_carries_the_file(start, processed, outcomes.drop_last());
    }
}

/// A sealed file holds the payload that was handed in. Whatever the drives held at first: when
/// the ingest of a payload ends sealed, both vaults hold one and the same file under the id with
/// `.sealed`, flushed, and no pending file. That file carries the hash of the payload, and its
/// ciphertext, opened under the vault's key and the nonce in the file, is the payload.
pub proof fn law_sealed_file_holds_the_payload(
    vault: &Vault,
    file_id: &str,
    raw: &[u8],
    ingest: Ingest,
    processed: Result<ProcessedPayload, VaultError>,
    world: World,
    outcomes: Seq<Outcome>,
)
    requires
        call_ensures(Vault::ingest, (vault, file_id, raw), ingest),
        vault.seals_as(ingest@.raw, processed),
        run((ingest@, world), processed, outcomes).0.step == IngestStep::Sealed,
    ensures
        ({
            let after = run((ingest@, world), processed, outcomes).1;
            let sealed = file_id@ + ".sealed"@;
            let pending = file_id@ + ".pending"@;
            let file = after.primary.files[sealed];
            &&& after.primary.files.contains_key(sealed) && after.primary.flushed.contains(sealed)
            &&& after.mirror.files.contains_key(sealed) && after.mirror.flushed.contains(sealed)
            &&& after.mirror.files[sealed] == file
            &&& !after.primary.files.contains_key(pending)
            &&& !after.mirror.files.contains_key(pending)
            &&& file.len() >= 96
            &&& file.subrange(4, 68) == utf8::encode_utf8(
                hexcode::hex_text(sealing::sha256(raw@)),
            )
            &&& sealing::unzstd(
                sealing::aes256_gcm_open(
                    vault.config_spec().aes_key@,
                    file.subrange(68, 80),
                    file.skip(80),
                ),
            ) == raw@
        }),
{
    let start = (ingest@, world);
    lemma_run_keeps_track(start, processed, outcomes);
    lemma_run_carries_the_file(start, processed, outcomes);
    vault::lemma_sealed_file_opens(*vault, raw@, processed->Ok_0);
}

/// The raw payload is on the RAM shield before anything else happens: the first operation writes
/// it there, whole, under the id with `.staged`, and changes nothing on the vaults.
pub proof fn law_raw_payload_is_staged_first(
    vault: &Vault,
    file_id: &str,
    raw: &[u8],
    ingest: Ingest,
    processed: Result<ProcessedPayload, VaultError>,
    world: World,
    outcome: Outcome,
)
    requires
        call_ensures(Vault::ingest, (vault, file_id, raw), ingest),
        outcome.ok,
    ensures
        ({
            let after = run((ingest@, world), processed, seq![outcome]).1;
            let staged = file_id@ + ".staged"@;
            &&& after.ram.files.contains_key(staged)
            &&& after.ram.files[staged] == raw@
            &&& after.primary == world.primary
            &&& after.mirror == world.mirror
        }),
{
    reveal_with_fuel(run, 2);
    assert(seq![outcome].drop_last() =~= Seq::<Outcome>::empty());
    assert(seq![outcome].last() == outcome);
}

/// A failed ingest stays failed.
proof fn lemma_failed_stays_failed(
    start: (IngestView, World),
    processed: Result<ProcessedPayload, VaultError>,
    outcomes: Seq<Outcome>,
    k: int,
)
    requires
        0 <= k <= outcomes.len(),
        run(start, processed, outcomes.take(k)).0.step is Failed,
    ensures
        run(start, processed, outcomes) == run(start, processed, outcomes.take(k)),
    decreases outcomes.len() - k,
{
    if k == outcomes.len() {
        assert(outcomes.take(k) =~= outcomes);
    } else {
        assert(outcomes.take(k + 1).drop_last() =~= outcomes.take(k));
        assert(run(start, processed, outcomes.take(k + 1)) == run(
            start,
            processed,
            outcomes.take(k),
        ));
        lemma_failed_stays_failed(start, processed, outcomes, k + 1);
    }
}

/// A failure is never passed over. When an operation fails, other than the removal of the staged
/// copy, the ingest fails, names that operation, performs nothing more, and is never sealed.
pub proof fn law_failed_operation_ends_the_ingest(
    start: (IngestView, World),
    processed: Result<ProcessedPayload, VaultError>,
    outcomes: Seq<Outcome>,
    k: int,
)
    requires
        0 <= k < outcomes.len(),
        run(start, processed, outcomes.take(k)).0.op() is Some,
        !(run(start, processed, outcomes.take(k)).0.op()->0 is Remove),
        !outcomes[k].ok,
    ensures
        run(start, processed, outcomes).0.step is Failed,
        run(start, processed, outcomes).0.op() is None,
        run(start, processed, outcomes) == run(start, processed, outcomes.take(k + 1)),
        run(start, processed, outcomes).0.step == IngestStep::Failed(
            match run(start, processed, outcomes.take(k)).0.op()->0 {
                StoreOpView::Write { drive: Drive::RamShield, .. } => FailedStep::Stage,
                StoreOpView::Write { drive: Drive::Primary, .. } => FailedStep::PendingPrimary,
                StoreOpView::Write { .. } => FailedStep::PendingMirror,
                StoreOpView::Fsync { drive: Drive::Primary, .. } => FailedStep::FsyncPrimary,
                StoreOpView::Fsync { .. } => FailedStep::FsyncMirror,
                StoreOpView::Rename { drive: Drive::Primary, .. } => FailedStep::CommitPrimary,
                StoreOpView::Rename { .. } => FailedStep::CommitMirror,
                StoreOpView::SyncDir { drive: Drive::Primary } => FailedStep::SyncPrimary,
                _ => FailedStep::SyncMirror,
            },
        ),
{
    assert(outcomes.take(k + 1).drop_last() =~= outcomes.take(k));
    assert(outcomes.take(k + 1).last() == outcomes[k]);
    lemma_failed_stays_failed(start, processed, outcomes, k + 1);
}

/// A payload that cannot be sealed ends the ingest with the reason, and nothing is written to
/// the vaults for it.
pub proof fn law_unsealed_payload_is_not_written(
    ingest: IngestView,
    world: World,
    e: VaultError,
    outcomes: Seq<Outcome>,
)
    requires
        ingest.step == IngestStep::Process,
        outcomes.len() > 0,
    ensures
        run((ingest, world), Err(e), outcomes).0.step == IngestStep::Failed(FailedStep::Process(e)),
        run((ingest, world), Err(e), outcomes).1 == world,
    decreases outcomes.len(),
{
    if outcomes.len() == 1 {
        assert(outcomes.drop_last() =~= Seq::<Outcome>::empty());
        reveal_with_fuel(run, 2);
    } else {
        law_unsealed_payload_is_not_written(ingest, world, e, outcomes.drop_last());
    }
}

/// Processing either lays out a file that opens to the whole staged payload and carries its hash,
/// and goes on, or fails with the vault's reason; the payload and the id stay.
pub proof fn law_processing_lays_out_the_payload(ingest: &mut Ingest, vault: &Vault)
    requires
        old(ingest)@.step == IngestStep::Process,
        call_ensures(Ingest::process, (ingest, vault), ()),
    ensures
        final(ingest)@.raw == old(ingest)@.raw,
        final(ingest)@.file_id == old(ingest)@.file_id,
        final(ingest)@.step == IngestStep::Unstage || final(ingest)@.step is Failed,
        final(ingest)@.step == IngestStep::Unstage ==> {
            let file = final(ingest)@.file;
            &&& file.len() >= 96
            &&& file.subrange(4, 68) == utf8::encode_utf8(
                hexcode::hex_text(sealing::sha256(old(ingest)@.raw)),
            )
            &&& sealing::unzstd(
                sealing::aes256_gcm_open(
                    vault.config_spec().aes_key@,
                    file.subrange(68, 80),
                    file.skip(80),
                ),
            ) == old(ingest)@.raw
        },
{
    let processed = choose|processed: Result<ProcessedPayload, VaultError>|
        {
            &&& vault.seals_as(old(ingest)@.raw, processed)
            &&& final(ingest)@ == #[trigger] old(ingest)@.accepted(processed)
        };
    if processed is Ok {
        vault::lemma_sealed_file_opens(*vault, old(ingest)@.raw, processed->Ok_0);
    }
}

} // verus!
