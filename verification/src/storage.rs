//! File operations of the vault, and a model of what they do to the drives.

use crate::text;
use vstd::prelude::*;
use vstd::string::StringExecFns;

verus! {

/// The places that the vault writes to.
#[derive(Clone, Copy, Debug, PartialEq, Eq, Structural)]
pub enum Drive {
    /// The tmpfs that raw payloads are staged in.
    RamShield,
    /// The primary USB vault.
    Primary,
    /// The mirror USB vault.
    Mirror,
}

/// One operation on one drive.
#[derive(Debug)]
pub enum StoreOp<'a> {
    /// Write a whole file.
    Write { drive: Drive, name: String, data: &'a [u8] },
    /// Flush a file's contents to the hardware.
    Fsync { drive: Drive, name: String },
    /// Rename a file, replacing what bears the new name.
    Rename { drive: Drive, from: String, to: String },
    /// Flush the directory of the drive to the hardware.
    SyncDir { drive: Drive },
    /// Remove a file.
    Remove { drive: Drive, name: String },
}

/// An operation with its texts and bytes taken by their views.
pub enum StoreOpView {
    Write { drive: Drive, name: Seq<char>, data: Seq<u8> },
    Fsync { drive: Drive, name: Seq<char> },
    Rename { drive: Drive, from: Seq<char>, to: Seq<char> },
    SyncDir { drive: Drive },
    Remove { drive: Drive, name: Seq<char> },
}

impl<'a> View for StoreOp<'a> {
    type V = StoreOpView;

    open spec fn view(&self) -> StoreOpView {
        match self {
            StoreOp::Write { drive, name, data } => {
                StoreOpView::Write { drive: *drive, name: name@, data: data@ }
            },
            StoreOp::Fsync { drive, name } => StoreOpView::Fsync { drive: *drive, name: name@ },
            StoreOp::Rename { drive, from, to } => {
                StoreOpView::Rename { drive: *drive, from: from@, to: to@ }
            },
            StoreOp::SyncDir { drive } => StoreOpView::SyncDir { drive: *drive },
            StoreOp::Remove { drive, name } => StoreOpView::Remove { drive: *drive, name: name@ },
        }
    }
}

/// The files of a drive.
#[verifier::ext_equal]
pub struct Listing {
    /// The files by name.
    pub files: Map<Seq<char>, Seq<u8>>,
    /// The files whose contents have reached the hardware.
    pub flushed: Set<Seq<char>>,
}

impl Listing {
    /// Whether a file is there with these contents, and they have reached the hardware.
    pub open spec fn holds(self, name: Seq<char>, data: Seq<u8>) -> bool {
        &&& self.files.contains_key(name)
        &&& self.files[name] == data
        &&& self.flushed.contains(name)
    }
}

/// What a drive holds.
///
/// A change of the directory lasts once the directory or, as with a journal, any file is
/// flushed after it. Until then a loss of power may take it back.
#[verifier::ext_equal]
pub struct DriveState {
    /// The files by name.
    pub files: Map<Seq<char>, Seq<u8>>,
    /// The files whose contents have reached the hardware.
    pub flushed: Set<Seq<char>>,
    /// Whether the directory has reached the hardware since it last changed.
    pub settled: bool,
    /// What a loss of power may bring back: the files before each change that does not last
    /// yet.
    pub earlier: Seq<Listing>,
}

impl DriveState {
    /// The files as they are.
    pub open spec fn listing(self) -> Listing {
        Listing { files: self.files, flushed: self.flushed }
    }

    /// All that a loss of power may leave of the files.
    pub open spec fn possible(self) -> Seq<Listing> {
        self.earlier.push(self.listing())
    }

    /// After a file was written. Its former contents are gone, also where its name comes back.
    pub open spec fn write(self, name: Seq<char>, data: Seq<u8>) -> DriveState {
        DriveState {
            files: self.files.insert(name, data),
            flushed: self.flushed.remove(name),
            settled: false,
            earlier: self.possible().map_values(
                |l: Listing| Listing { flushed: l.flushed.remove(name), ..l },
            ),
        }
    }

    /// After a file was flushed.
    pub open spec fn fsync(self, name: Seq<char>) -> DriveState {
        DriveState { flushed: self.flushed.insert(name), earlier: Seq::empty(), ..self }
    }

    /// After a file was renamed.
    pub open spec fn rename(self, from: Seq<char>, to: Seq<char>) -> DriveState {
        DriveState {
            files: self.files.remove(from).insert(to, self.files[from]),
            flushed: if self.flushed.contains(from) {
                self.flushed.remove(from).insert(to)
            } else {
                self.flushed.remove(from).remove(to)
            },
            settled: false,
            earlier: self.possible(),
        }
    }

    /// After the directory was flushed.
    pub open spec fn sync_dir(self) -> DriveState {
        DriveState { settled: true, earlier: Seq::empty(), ..self }
    }

    /// After a file was removed.
    pub open spec fn remove(self, name: Seq<char>) -> DriveState {
        DriveState {
            files: self.files.remove(name),
            flushed: self.flushed.remove(name),
            settled: false,
            earlier: self.possible(),
        }
    }

    /// Whether a file is there with these contents, and they have reached the hardware.
    pub open spec fn holds(self, name: Seq<char>, data: Seq<u8>) -> bool {
        &&& self.files.contains_key(name)
        &&& self.files[name] == data
        &&& self.flushed.contains(name)
    }

    /// Whether this is what the drive may come up with as one of the possible listings: files
    /// whose contents had not reached the hardware may hold anything.
    pub open spec fn shows(self, listing: Listing) -> bool {
        &&& self.files.dom() == listing.files.dom()
        &&& self.flushed == listing.flushed
        &&& forall|name: Seq<char>| #[trigger]
            listing.flushed.contains(name) && listing.files.contains_key(name)
                ==> self.files[name] == listing.files[name]
    }
}

/// Whether a drive may come up like this after a loss of power.
pub open spec fn may_come_up(before: DriveState, after: DriveState) -> bool {
    exists|i: int| 0 <= i < before.possible().len() && after.shows(#[trigger] before.possible()[i])
}

/// What the drives hold.
#[verifier::ext_equal]
pub struct World {
    pub ram: DriveState,
    pub primary: DriveState,
    pub mirror: DriveState,
}

impl World {
    /// The state of one drive.
    pub open spec fn drive(self, drive: Drive) -> DriveState {
        match drive {
            Drive::RamShield => self.ram,
            Drive::Primary => self.primary,
            Drive::Mirror => self.mirror,
        }
    }

    /// The world with the state of one drive replaced.
    pub open spec fn with(self, drive: Drive, state: DriveState) -> World {
        match drive {
            Drive::RamShield => World { ram: state, ..self },
            Drive::Primary => World { primary: state, ..self },
            Drive::Mirror => World { mirror: state, ..self },
        }
    }

    /// After an operation succeeded.
    pub open spec fn apply(self, op: StoreOpView) -> World {
        match op {
            StoreOpView::Write { drive, name, data } => {
                self.with(drive, self.drive(drive).write(name, data))
            },
            StoreOpView::Fsync { drive, name } => {
                self.with(drive, self.drive(drive).fsync(name))
            },
            StoreOpView::Rename { drive, from, to } => {
                self.with(drive, self.drive(drive).rename(from, to))
            },
            StoreOpView::SyncDir { drive } => self.with(drive, self.drive(drive).sync_dir()),
            StoreOpView::Remove { drive, name } => {
                self.with(drive, self.drive(drive).remove(name))
            },
        }
    }

    /// After an operation failed, or power was lost in the middle of it. A write may leave any
    /// bytes behind. The other operations are atomic.
    pub open spec fn apply_failed(self, op: StoreOpView, torn: Seq<u8>) -> World {
        match op {
            StoreOpView::Write { drive, name, .. } => {
                self.with(drive, self.drive(drive).write(name, torn))
            },
            _ => self,
        }
    }
}

/// The name of a staged file.
pub open spec fn staged_name_of(file_id: Seq<char>) -> Seq<char> {
    file_id + ".staged"@
}

/// The name of a file that is not committed yet.
pub open spec fn pending_name_of(file_id: Seq<char>) -> Seq<char> {
    file_id + ".pending"@
}

/// The name of a committed file.
pub open spec fn sealed_name_of(file_id: Seq<char>) -> Seq<char> {
    file_id + ".sealed"@
}

/// A pending file and a sealed file never share a name.
pub proof fn lemma_pending_is_not_sealed(a: Seq<char>, b: Seq<char>)
    ensures
        pending_name_of(a) != sealed_name_of(b),
{
    reveal_strlit(".pending");
    reveal_strlit(".sealed");
    assert(pending_name_of(a).last() == 'g');
    assert(sealed_name_of(b).last() == 'd');
}

/// The name of a staged file.
pub fn staged_name(file_id: &str) -> (name: String)
    ensures
        name@ == staged_name_of(file_id@),
{
    file_id.to_owned().concat(".staged")
}

/// The name of a file that is not committed yet.
pub fn pending_name(file_id: &str) -> (name: String)
    ensures
        name@ == pending_name_of(file_id@),
{
    file_id.to_owned().concat(".pending")
}

/// The name of a committed file.
pub fn sealed_name(file_id: &str) -> (name: String)
    ensures
        name@ == sealed_name_of(file_id@),
{
    file_id.to_owned().concat(".sealed")
}

/// How many sealed files a vault has, out of all files that its directory holds.
pub fn sealed_count(names: &Vec<String>) -> (count: u64)
    ensures
        count == text::count_with_suffix(text::names_view(names@), ".sealed"@),
{
    text::count_suffix(names, ".sealed")
}

/// The names of a payload on the drives are its id and the state it is in. No state's name is
/// that of another state, and each tells the id.
pub proof fn law_names_tell_id_and_state(a: Seq<char>, b: Seq<char>)
    ensures
        staged_name_of(a) == a + ".staged"@,
        pending_name_of(a) == a + ".pending"@,
        sealed_name_of(a) == a + ".sealed"@,
        sealed_name_of(a) == sealed_name_of(b) ==> a == b,
        pending_name_of(a) == pending_name_of(b) ==> a == b,
        staged_name_of(a) == staged_name_of(b) ==> a == b,
        pending_name_of(a) != sealed_name_of(b),
{
    lemma_pending_is_not_sealed(a, b);
    assert(sealed_name_of(a).take(a.len() as int) =~= a);
    assert(sealed_name_of(b).take(b.len() as int) =~= b);
    assert(pending_name_of(a).take(a.len() as int) =~= a);
    assert(pending_name_of(b).take(b.len() as int) =~= b);
    assert(staged_name_of(a).take(a.len() as int) =~= a);
    assert(staged_name_of(b).take(b.len() as int) =~= b);
}

/// The sealed count goes up by one with a name that ends in `.sealed` and stays with any other.
pub proof fn law_sealed_count_counts_sealed_names(
    names: &Vec<String>,
    more: &Vec<String>,
    count: u64,
    count_more: u64,
)
    requires
        more@.len() == names@.len() + 1,
        more@.take(names@.len() as int) == names@,
        call_ensures(sealed_count, (names,), count),
        call_ensures(sealed_count, (more,), count_more),
    ensures
        text::has_suffix(more@.last()@, ".sealed"@) ==> count_more == count + 1,
        !text::has_suffix(more@.last()@, ".sealed"@) ==> count_more == count,
        names@.len() == 0 ==> count == 0,
{
    text::lemma_count_grows(names@, more@, ".sealed"@);
}

} // verus!
