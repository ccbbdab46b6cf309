//! What recovery does to all pending files together.

use crate::recovery;
use crate::recovery::RepairView;
use crate::recovery::Verdict;
use crate::storage;
use crate::storage::DriveState;
use crate::storage::World;
use vstd::prelude::*;

verus! {

/// Whether names are those of all files of a drive, each once.
pub open spec fn lists_all(names: Seq<Seq<char>>, drive: DriveState) -> bool {
    &&& names.no_duplicates()
    &&& forall|name: Seq<char>|
        #![trigger names.contains(name)]
        #![trigger drive.files.contains_key(name)]
        names.contains(name) <==> drive.files.contains_key(name)
}

/// The id of a pending file.
pub open spec fn id_of(name: Seq<char>) -> Seq<char> {
    name.take(name.len() - ".pending"@.len())
}

/// The judgement on a file of the vaults.
pub open spec fn judged(world: World, name: Seq<char>) -> RepairView {
    recovery::fresh_repair(
        name,
        recovery::contents_of(world.primary.files, name),
        recovery::contents_of(world.mirror.files, name),
    )
}

/// Whether the contents of a pending file differ between the vaults.
pub open spec fn in_conflict(world: World, name: Seq<char>) -> bool {
    judged(world, name).verdict == Verdict::Conflict
}

/// Whether one of the vaults has a file.
pub open spec fn on_either(world: World, name: Seq<char>) -> bool {
    world.primary.files.contains_key(name) || world.mirror.files.contains_key(name)
}

/// A repair whose operations have all succeeded.
pub open spec fn carried_out(repair: RepairView) -> RepairView {
    RepairView { done: repair.plan().len(), ..repair }
}

/// The drives after the repair of files one after another, where every operation succeeds, and
/// how many commits were completed.
pub open spec fn recovered_all(world: World, names: Seq<Seq<char>>) -> (World, nat)
    decreases names.len(),
{
    if names.len() == 0 {
        (world, 0)
    } else {
        let (before, count) = recovered_all(world, names.drop_last());
        let repair = judged(before, names.last());
        (
            recovery::apply_all(before, repair.plan()),
            if carried_out(repair).recovered() {
                count + 1
            } else {
                count
            },
        )
    }
}

/// The files that are not in conflict.
pub open spec fn agreed(world: World, names: Seq<Seq<char>>) -> Seq<Seq<char>> {
    names.filter(|name: Seq<char>| !in_conflict(world, name))
}

/// Whether a file is one of those that are committed, under its pending or its sealed name.
pub open spec fn is_involved(world: World, names: Seq<Seq<char>>, file: Seq<char>) -> bool {
    exists|name: Seq<char>| #[trigger]
        names.contains(name) && !in_conflict(world, name) && (file == name || file
            == recovery::recovered_name_of(name))
}

/// What holds of one vault after files were recovered, of what it was before.
pub open spec fn settled_on(
    world: World,
    names: Seq<Seq<char>>,
    before: DriveState,
    after: DriveState,
) -> bool {
    &&& forall|name: Seq<char>| #[trigger]
        names.contains(name) && !in_conflict(world, name) ==> {
            &&& !after.files.contains_key(name)
            &&& recovery::contents_of(after.files, recovery::recovered_name_of(name)) == Some(
                judged(world, name).data,
            )
        }
    &&& forall|file: Seq<char>|
        !is_involved(world, names, file) ==> #[trigger] recovery::contents_of(after.files, file)
            == recovery::contents_of(before.files, file)
}

/// A pending name and the name that it is recovered under.
proof fn lemma_pending_name(name: Seq<char>)
    requires
        recovery::is_pending(name),
    ensures
        name == storage::pending_name_of(id_of(name)),
        recovery::recovered_name_of(name) == storage::sealed_name_of(id_of(name)),
        !recovery::is_pending(recovery::recovered_name_of(name)),
{
    reveal_strlit(".pending");
    reveal_strlit(".sealed");
    let stem = name.len() - ".pending"@.len();
    assert(name =~= name.take(stem) + name.skip(stem));
    recovery::law_recovery_seals_under_the_same_name(id_of(name));
    let sealed = recovery::recovered_name_of(name);
    if recovery::is_pending(sealed) {
        let tail = sealed.skip(sealed.len() - ".pending"@.len());
        assert(tail.last() == sealed.last());
    }
}

/// Two pending names are recovered under different names.
proof fn lemma_recovered_names_differ(a: Seq<char>, b: Seq<char>)
    requires
        recovery::is_pending(a),
        recovery::is_pending(b),
        recovery::recovered_name_of(a) == recovery::recovered_name_of(b),
    ensures
        a == b,
{
    lemma_pending_name(a);
    lemma_pending_name(b);
    let (x, y) = (id_of(a), id_of(b));
    assert(storage::sealed_name_of(x).take(x.len() as int) =~= x);
    assert(storage::sealed_name_of(y).take(y.len() as int) =~= y);
    assert(x.len() == y.len());
}

/// What one repair does to the files of the vaults.
proof fn lemma_one_repair(world: World, name: Seq<char>)
    requires
        recovery::is_pending(name),
        on_either(world, name),
    ensures
        ({
            let repair = judged(world, name);
            let after = recovery::apply_all(world, repair.plan());
            let sealed = recovery::recovered_name_of(name);
            &&& after.ram == world.ram
            &&& repair.verdict == Verdict::Conflict ==> {
                &&& after == world
                &&& !carried_out(repair).recovered()
            }
            &&& repair.verdict != Verdict::Conflict ==> {
                &&& carried_out(repair).recovered()
                &&& after.primary.files == world.primary.files.remove(name).insert(
                    sealed,
                    repair.data,
                )
                &&& after.mirror.files == world.mirror.files.remove(name).insert(
                    sealed,
                    repair.data,
                )
            }
        }),
{
    let repair = judged(world, name);
    let sealed = recovery::recovered_name_of(name);
    lemma_pending_name(name);
    let after = recovery::apply_all(world, repair.plan());
    match repair.verdict {
        Verdict::Commit => {
            recovery::lemma_commit_applied(world, name);
        },
        Verdict::CopyToMirror | Verdict::CopyToPrimary => {
            let drive = if repair.verdict == Verdict::CopyToMirror {
                storage::Drive::Mirror
            } else {
                storage::Drive::Primary
            };
            let copy = recovery::copy_plan(drive, name, repair.data);
            recovery::lemma_apply_all_concat(world, copy, recovery::commit_plan(name));
            recovery::lemma_copy_applied(world, drive, name, repair.data);
            recovery::lemma_commit_applied(recovery::apply_all(world, copy), name);
        },
        Verdict::Conflict | Verdict::Gone => {},
    }
    if repair.verdict != Verdict::Conflict {
        assert(after.primary.files =~= world.primary.files.remove(name).insert(
            sealed,
            repair.data,
        ));
        assert(after.mirror.files =~= world.mirror.files.remove(name).insert(sealed, repair.data));
    }
}

/// One more repair keeps a vault settled.
proof fn lemma_settled_on_grows(
    world: World,
    names: Seq<Seq<char>>,
    name: Seq<char>,
    first: DriveState,
    before: DriveState,
    after: DriveState,
)
    requires
        settled_on(world, names, first, before),
        forall|n: Seq<char>| #[trigger] names.contains(n) ==> recovery::is_pending(n),
        recovery::is_pending(name),
        !names.contains(name),
        in_conflict(world, name) ==> after.files == before.files,
        !in_conflict(world, name) ==> after.files == before.files.remove(name).insert(
            recovery::recovered_name_of(name),
            judged(world, name).data,
        ),
    ensures
        settled_on(world, names.push(name), first, after),
{
    let more = names.push(name);
    lemma_pending_name(name);
    assert(more.contains(name)) by {
        assert(more[names.len() as int] == name);
    }
    assert forall|n: Seq<char>| #[trigger] names.contains(n) implies more.contains(n) by {
        let i = choose|i: int| 0 <= i < names.len() && names[i] == n;
        assert(more[i] == n);
    }
    assert forall|n: Seq<char>| #[trigger] more.contains(n) && !in_conflict(world, n) implies {
        &&& !after.files.contains_key(n)
        &&& recovery::contents_of(after.files, recovery::recovered_name_of(n)) == Some(
            judged(world, n).data,
        )
    } by {
        if n != name {
            let i = choose|i: int| 0 <= i < more.len() && more[i] == n;
            assert(names[i] == n);
            assert(names.contains(n));
            lemma_pending_name(n);
            if recovery::recovered_name_of(n) == recovery::recovered_name_of(name) {
                lemma_recovered_names_differ(n, name);
            }
        }
    }
    assert forall|file: Seq<char>| !is_involved(world, more, file) implies
        #[trigger] recovery::contents_of(after.files, file) == recovery::contents_of(
        first.files,
        file,
    ) by {
        if is_involved(world, names, file) {
            let n = choose|n: Seq<char>| #[trigger]
                names.contains(n) && !in_conflict(world, n) && (file == n || file
                    == recovery::recovered_name_of(n));
            assert(more.contains(n));
        }
        assert(recovery::contents_of(before.files, file) == recovery::contents_of(
            first.files,
            file,
        ));
    }
}

/// Recovery settles the files that it goes through.
proof fn lemma_recovered_all_settles(world: World, names: Seq<Seq<char>>)
    requires
        names.no_duplicates(),
        forall|n: Seq<char>| #[trigger] names.contains(n) ==> recovery::is_pending(n) && on_either(world, n),
    ensures
        ({
            let (after, count) = recovered_all(world, names);
            &&& settled_on(world, names, world.primary, after.primary)
            &&& settled_on(world, names, world.mirror, after.mirror)
            &&& after.ram == world.ram
            &&& count == agreed(world, names).len()
        }),
    decreases names.len(),
{
    reveal(Seq::filter);
    if names.len() > 0 {
        let rest = names.drop_last();
        let name = names.last();
        assert(names[names.len() - 1] == name && names.contains(name));
        assert forall|n: Seq<char>| #[trigger] rest.contains(n) implies recovery::is_pending(n) && on_either(
            world,
            n,
        ) by {
            let i = choose|i: int| 0 <= i < rest.len() && rest[i] == n;
            assert(names[i] == n);
            assert(names.contains(n));
        }
        assert(!rest.contains(name)) by {
            if rest.contains(name) {
                let i = choose|i: int| 0 <= i < rest.len() && rest[i] == name;
                assert(names[i] == names[names.len() - 1]);
            }
        }
        lemma_recovered_all_settles(world, rest);
        let (before, count) = recovered_all(world, rest);
        lemma_pending_name(name);
        assert(!is_involved(world, rest, name)) by {
            if is_involved(world, rest, name) {
                let n = choose|n: Seq<char>| #[trigger]
                    rest.contains(n) && !in_conflict(world, n) && (name == n || name
                        == recovery::recovered_name_of(n));
                lemma_pending_name(n);
            }
        }
        assert(recovery::contents_of(before.primary.files, name) == recovery::contents_of(
            world.primary.files,
            name,
        ));
        assert(recovery::contents_of(before.mirror.files, name) == recovery::contents_of(
            world.mirror.files,
            name,
        ));
        assert(judged(before, name) == judged(world, name));
        lemma_one_repair(before, name);
        let after = recovered_all(world, names).0;
        lemma_settled_on_grows(world, rest, name, world.primary, before.primary, after.primary);
        lemma_settled_on_grows(world, rest, name, world.mirror, before.mirror, after.mirror);
        assert(rest.push(name) =~= names);
    }
}

/// A part of names that occur once each occurs once each.
proof fn lemma_filtered_names(names: Seq<Seq<char>>, wanted: spec_fn(Seq<char>) -> bool)
    ensures
        forall|n: Seq<char>| #[trigger]
            names.filter(wanted).contains(n) <==> names.contains(n) && wanted(n),
        names.no_duplicates() ==> names.filter(wanted).no_duplicates(),
    decreases names.len(),
{
    reveal(Seq::filter);
    let kept = names.filter(wanted);
    if names.len() > 0 {
        let rest = names.drop_last();
        let last = names.last();
        lemma_filtered_names(rest, wanted);
        let some = rest.filter(wanted);
        assert forall|n: Seq<char>| #[trigger] kept.contains(n) <==> names.contains(n) && wanted(
            n,
        ) by {
            if kept.contains(n) {
                let i = choose|i: int| 0 <= i < kept.len() && kept[i] == n;
                if i < some.len() {
                    assert(some[i] == n);
                    assert(some.contains(n));
                    let j = choose|j: int| 0 <= j < rest.len() && rest[j] == n;
                    assert(names[j] == n);
                } else {
                    assert(names[names.len() - 1] == n);
                }
            }
            if names.contains(n) && wanted(n) {
                let i = choose|i: int| 0 <= i < names.len() && names[i] == n;
                if i < rest.len() {
                    assert(rest[i] == n);
                    assert(some.contains(n));
                    let j = choose|j: int| 0 <= j < some.len() && some[j] == n;
                    assert(kept[j] == n);
                } else {
                    assert(kept[kept.len() - 1] == n);
                }
            }
        }
        if names.no_duplicates() {
            assert(rest.no_duplicates());
            assert forall|i: int, j: int| 0 <= i < j < kept.len() implies kept[i] != kept[j] by {
                if j >= some.len() {
                    assert(some.contains(some[i]));
                    let k = choose|k: int| 0 <= k < rest.len() && rest[k] == some[i];
                    assert(names[k] != names[names.len() - 1]);
                }
            }
        }
    }
}

/// The orphans are the pending files of either vault, each once.
proof fn lemma_orphans(world: World, primary: Seq<Seq<char>>, mirror: Seq<Seq<char>>)
    requires
        lists_all(primary, world.primary),
        lists_all(mirror, world.mirror),
    ensures
        recovery::orphans(primary, mirror).no_duplicates(),
        forall|n: Seq<char>| #[trigger]
            recovery::orphans(primary, mirror).contains(n) <==> recovery::is_pending(n)
                && on_either(world, n),
{
    let first = |name: Seq<char>| recovery::is_pending(name);
    let second = |name: Seq<char>| recovery::is_pending(name) && !primary.contains(name);
    lemma_filtered_names(primary, first);
    lemma_filtered_names(mirror, second);
    let (a, b) = (primary.filter(first), mirror.filter(second));
    let names = recovery::orphans(primary, mirror);
    assert(names == a + b);
    assert forall|i: int, j: int| 0 <= i < j < names.len() implies names[i] != names[j] by {
        if i < a.len() && j >= a.len() {
            assert(a.contains(a[i]));
            assert(b.contains(b[j - a.len()]));
        }
    }
    assert forall|n: Seq<char>| #[trigger] names.contains(n) <==> recovery::is_pending(n)
        && on_either(world, n) by {
        if names.contains(n) {
            let i = choose|i: int| 0 <= i < names.len() && names[i] == n;
            if i < a.len() {
                assert(a[i] == n);
                assert(a.contains(n));
            } else {
                assert(b[i - a.len()] == n);
                assert(b.contains(n));
            }
        }
        if recovery::is_pending(n) && on_either(world, n) {
            if primary.contains(n) {
                assert(a.contains(n));
                let i = choose|i: int| 0 <= i < a.len() && a[i] == n;
                assert(names[i] == n);
            } else {
                assert(mirror.contains(n));
                assert(b.contains(n));
                let i = choose|i: int| 0 <= i < b.len() && b[i] == n;
                assert(names[a.len() + i] == n);
            }
        }
    }
}

/// Files in conflict are passed over.
proof fn lemma_conflicts_are_passed_over(world: World, names: Seq<Seq<char>>)
    requires
        forall|n: Seq<char>| #[trigger] names.contains(n) ==> in_conflict(world, n),
    ensures
        recovered_all(world, names) == (world, 0nat),
    decreases names.len(),
{
    if names.len() > 0 {
        let rest = names.drop_last();
        assert forall|n: Seq<char>| #[trigger] rest.contains(n) implies in_conflict(world, n) by {
            let i = choose|i: int| 0 <= i < rest.len() && rest[i] == n;
            assert(names[i] == n);
            assert(names.contains(n));
        }
        lemma_conflicts_are_passed_over(world, rest);
        assert(names[names.len() - 1] == names.last());
        assert(names.contains(names.last()));
    }
}

/// Recovery commits every pending file whose contents do not differ between the vaults: both
/// vaults then have it under its sealed name, with the contents that it had, and no longer under
/// its pending name. It counts those files. All other files stay as they are, those in conflict
/// among them.
pub proof fn law_recovery_settles_every_file(
    world: World,
    primary: Seq<Seq<char>>,
    mirror: Seq<Seq<char>>,
)
    requires
        lists_all(primary, world.primary),
        lists_all(mirror, world.mirror),
    ensures
        ({
            let names = recovery::orphans(primary, mirror);
            let (after, count) = recovered_all(world, names);
            &&& settled_on(world, names, world.primary, after.primary)
            &&& settled_on(world, names, world.mirror, after.mirror)
            &&& after.ram == world.ram
            &&& count == agreed(world, names).len()
            &&& forall|name: Seq<char>| #[trigger]
                names.contains(name) <==> recovery::is_pending(name) && on_either(world, name)
            &&& forall|name: Seq<char>|
                recovery::is_pending(name) && #[trigger] on_either(after, name) ==> in_conflict(
                    world,
                    name,
                )
        }),
{
    let names = recovery::orphans(primary, mirror);
    lemma_orphans(world, primary, mirror);
    assert forall|n: Seq<char>| #[trigger] names.contains(n) implies recovery::is_pending(n) && on_either(
        world,
        n,
    ) by {
        assert(on_either(world, n));
    }
    lemma_recovered_all_settles(world, names);
    let after = recovered_all(world, names).0;
    assert forall|name: Seq<char>|
        recovery::is_pending(name) && #[trigger] on_either(after, name) implies in_conflict(
        world,
        name,
    ) by {
        if is_involved(world, names, name) {
            let n = choose|n: Seq<char>| #[trigger]
                names.contains(n) && !in_conflict(world, n) && (name == n || name
                    == recovery::recovered_name_of(n));
            lemma_pending_name(n);
        } else {
            assert(recovery::contents_of(after.primary.files, name) == recovery::contents_of(
                world.primary.files,
                name,
            ));
            assert(recovery::contents_of(after.mirror.files, name) == recovery::contents_of(
                world.mirror.files,
                name,
            ));
            assert(on_either(world, name));
            assert(names.contains(name));
        }
    }
}

/// Where no pending file is in conflict, recovery commits all of them, and none is left.
pub proof fn law_recovery_leaves_no_pending_file(
    world: World,
    primary: Seq<Seq<char>>,
    mirror: Seq<Seq<char>>,
)
    requires
        lists_all(primary, world.primary),
        lists_all(mirror, world.mirror),
        forall|name: Seq<char>|
            recovery::is_pending(name) && #[trigger] on_either(world, name) ==> !in_conflict(
                world,
                name,
            ),
    ensures
        ({
            let names = recovery::orphans(primary, mirror);
            let (after, count) = recovered_all(world, names);
            &&& count == names.len()
            &&& forall|name: Seq<char>|
                recovery::is_pending(name) ==> !#[trigger] on_either(after, name)
        }),
{
    let names = recovery::orphans(primary, mirror);
    law_recovery_settles_every_file(world, primary, mirror);
    assert forall|i: int| 0 <= i < names.len() implies !in_conflict(world, #[trigger] names[i]) by {
        assert(names.contains(names[i]));
        assert(on_either(world, names[i]));
    }
    lemma_all_agree(world, names);
    let after = recovered_all(world, names).0;
    assert forall|name: Seq<char>| recovery::is_pending(name) implies !#[trigger] on_either(
        after,
        name,
    ) by {
        if on_either(after, name) {
            assert(in_conflict(world, name));
            assert(on_either(world, name));
        }
    }
}

proof fn lemma_all_agree(world: World, names: Seq<Seq<char>>)
    requires
        forall|i: int| 0 <= i < names.len() ==> !in_conflict(world, #[trigger] names[i]),
    ensures
        agreed(world, names).len() == names.len(),
    decreases names.len(),
{
    reveal(Seq::filter);
    if names.len() > 0 {
        assert(names[names.len() - 1] == names.last());
        assert forall|i: int| 0 <= i < names.drop_last().len() implies !in_conflict(
            world,
            #[trigger] names.drop_last()[i],
        ) by {
            assert(names.drop_last()[i] == names[i]);
        }
        lemma_all_agree(world, names.drop_last());
    }
}

/// A second recovery right after the first finds nothing to commit, and changes nothing.
pub proof fn law_second_recovery_changes_nothing(
    world: World,
    primary: Seq<Seq<char>>,
    mirror: Seq<Seq<char>>,
    primary_after: Seq<Seq<char>>,
    mirror_after: Seq<Seq<char>>,
)
    requires
        lists_all(primary, world.primary),
        lists_all(mirror, world.mirror),
        ({
            let after = recovered_all(world, recovery::orphans(primary, mirror)).0;
            &&& lists_all(primary_after, after.primary)
            &&& lists_all(mirror_after, after.mirror)
        }),
    ensures
        ({
            let after = recovered_all(world, recovery::orphans(primary, mirror)).0;
            recovered_all(after, recovery::orphans(primary_after, mirror_after)) == (after, 0nat)
        }),
{
    let names = recovery::orphans(primary, mirror);
    let after = recovered_all(world, names).0;
    let again = recovery::orphans(primary_after, mirror_after);
    law_recovery_settles_every_file(world, primary, mirror);
    lemma_orphans(after, primary_after, mirror_after);
    assert forall|n: Seq<char>| #[trigger] again.contains(n) implies in_conflict(after, n) by {
        assert(on_either(after, n));
        assert(in_conflict(world, n));
        if is_involved(world, names, n) {
            let m = choose|m: Seq<char>| #[trigger]
                names.contains(m) && !in_conflict(world, m) && (n == m || n
                    == recovery::recovered_name_of(m));
            assert(on_either(world, m));
            lemma_pending_name(m);
        }
        assert(recovery::contents_of(after.primary.files, n) == recovery::contents_of(
            world.primary.files,
            n,
        ));
        assert(recovery::contents_of(after.mirror.files, n) == recovery::contents_of(
            world.mirror.files,
            n,
        ));
    }
    lemma_conflicts_are_passed_over(after, again);
}

} // verus!
