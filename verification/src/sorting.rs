//! A stable sort by integer keys.

use vstd::prelude::*;

verus! {

/// Things that are sorted by an integer.
pub trait Keyed: Sized {
    /// The integer to sort by.
    spec fn key(&self) -> int;

    /// The integer to sort by.
    fn sort_key(&self) -> (k: i128)
        ensures
            k == self.key(),
    ;
}

/// Whether the keys never fall.
pub open spec fn ascending<T: Keyed>(s: Seq<T>) -> bool {
    forall|i: int, j: int| 0 <= i <= j < s.len() ==> (#[trigger] s[i]).key() <= (#[trigger] s[j]).key()
}

/// The items with one key, in their order.
pub open spec fn group<T: Keyed>(s: Seq<T>, k: int) -> Seq<T> {
    s.filter(|x: T| x.key() == k)
}

/// Whether `sorted` has the items of `s` by ascending keys, with items of equal keys in the
/// order that they had.
pub open spec fn stably_sorted<T: Keyed>(sorted: Seq<T>, s: Seq<T>) -> bool {
    &&& ascending(sorted)
    &&& forall|k: int| #[trigger] group(sorted, k) == group(s, k)
    &&& sorted.to_multiset() == s.to_multiset()
}

proof fn lemma_group_push<T: Keyed>(s: Seq<T>, x: T, k: int)
    ensures
        group(s.push(x), k) == if x.key() == k {
            group(s, k).push(x)
        } else {
            group(s, k)
        },
{
    reveal(Seq::filter);
    assert(s.push(x).drop_last() =~= s);
}

proof fn lemma_group_concat<T: Keyed>(a: Seq<T>, b: Seq<T>, k: int)
    ensures
        group(a + b, k) == group(a, k) + group(b, k),
    decreases b.len(),
{
    reveal(Seq::filter);
    if b.len() == 0 {
        assert(a + b =~= a);
        assert(group(b, k) =~= Seq::empty());
        assert(group(a, k) + group(b, k) =~= group(a, k));
    } else {
        lemma_group_concat(a, b.drop_last(), k);
        assert((a + b).drop_last() =~= a + b.drop_last());
        assert(group(a + b, k) =~= group(a, k) + group(b, k));
    }
}

proof fn lemma_group_front<T: Keyed>(s: Seq<T>, k: int)
    requires
        s.len() > 0,
    ensures
        group(s, k) == if s[0].key() == k {
            seq![s[0]] + group(s.skip(1), k)
        } else {
            group(s.skip(1), k)
        },
{
    lemma_group_concat(seq![s[0]], s.skip(1), k);
    assert(seq![s[0]] + s.skip(1) =~= s);
    reveal_with_fuel(Seq::filter, 2);
    assert(seq![s[0]].drop_last() =~= Seq::<T>::empty());
    assert(group(seq![s[0]], k) =~= if s[0].key() == k { seq![s[0]] } else { Seq::empty() });
    assert(Seq::<T>::empty() + group(s.skip(1), k) =~= group(s.skip(1), k));
}

proof fn lemma_group_absent<T: Keyed>(s: Seq<T>, k: int)
    requires
        forall|i: int| 0 <= i < s.len() ==> (#[trigger] s[i]).key() != k,
    ensures
        group(s, k) == Seq::<T>::empty(),
    decreases s.len(),
{
    reveal(Seq::filter);
    if s.len() > 0 {
        assert forall|i: int| 0 <= i < s.drop_last().len() implies (#[trigger] s.drop_last()[i]).key()
            != k by {
            assert(s.drop_last()[i] == s[i]);
        }
        lemma_group_absent(s.drop_last(), k);
        assert(s.last() == s[s.len() - 1]);
    }
}

/// Turns a vector around.
pub(crate) fn flipped<T>(items: Vec<T>) -> (out: Vec<T>)
    ensures
        out@ == items@.reverse(),
{
    let mut items = items;
    let ghost all = items@;
    let mut out: Vec<T> = Vec::new();
    loop
        invariant
            items@.len() <= all.len(),
            items@ == all.take(items@.len() as int),
            out@ == all.skip(items@.len() as int).reverse(),
        ensures
            out@ == all.reverse(),
        decreases items@.len(),
    {
        let ghost n = items@.len();
        match items.pop() {
            Some(x) => {
                out.push(x);
                assert(items@ =~= all.take(n - 1));
                assert(out@ =~= all.skip(n - 1).reverse());
            },
            None => {
                assert(all.skip(0) =~= all);
                break;
            },
        }
    }
    out
}

/// Taking the front item of the first of two runs keeps the groups in order.
proof fn lemma_take_left<T: Keyed>(out: Seq<T>, a: Seq<T>, b: Seq<T>, k: int)
    requires
        a.len() > 0,
    ensures
        group(out.push(a[0]), k) + group(a.skip(1), k) + group(b, k) == group(out, k) + group(a, k)
            + group(b, k),
{
    lemma_group_push(out, a[0], k);
    lemma_group_front(a, k);
    assert(group(out.push(a[0]), k) + group(a.skip(1), k) =~= group(out, k) + group(a, k));
}

/// Taking the front item of the second of two runs keeps the groups in order, when no item of
/// the first run has its key.
proof fn lemma_take_right<T: Keyed>(out: Seq<T>, a: Seq<T>, b: Seq<T>, k: int)
    requires
        b.len() > 0,
        forall|i: int| 0 <= i < a.len() ==> (#[trigger] a[i]).key() > b[0].key(),
    ensures
        group(out.push(b[0]), k) + group(a, k) + group(b.skip(1), k) == group(out, k) + group(a, k)
            + group(b, k),
{
    lemma_group_push(out, b[0], k);
    lemma_group_front(b, k);
    if b[0].key() == k {
        lemma_group_absent(a, k);
    }
    assert(group(out.push(b[0]), k) + group(a, k) + group(b.skip(1), k) =~= group(out, k)
        + group(a, k) + group(b, k));
}

/// Whether `out` is what was merged of two runs so far, with `a` and `b` left of them.
spec fn merging<T: Keyed>(
    out: Seq<T>,
    a: Seq<T>,
    b: Seq<T>,
    all_a: Seq<T>,
    all_b: Seq<T>,
) -> bool {
    &&& ascending(out)
    &&& ascending(a)
    &&& ascending(b)
    &&& forall|i: int, j: int|
        0 <= i < out.len() && 0 <= j < a.len() ==> (#[trigger] out[i]).key() <= (
        #[trigger] a[j]).key()
    &&& forall|i: int, j: int|
        0 <= i < out.len() && 0 <= j < b.len() ==> (#[trigger] out[i]).key() <= (
        #[trigger] b[j]).key()
    &&& forall|k: int|
        group(out, k) + group(a, k) + group(b, k) == #[trigger] group(all_a, k) + group(all_b, k)
    &&& out.to_multiset().add(a.to_multiset()).add(b.to_multiset()) == all_a.to_multiset().add(
        all_b.to_multiset(),
    )
}

proof fn lemma_merge_starts<T: Keyed>(all_a: Seq<T>, all_b: Seq<T>)
    requires
        ascending(all_a),
        ascending(all_b),
    ensures
        merging(Seq::<T>::empty(), all_a, all_b, all_a, all_b),
{
    broadcast use vstd::seq_lib::group_to_multiset_ensures;

    let none = Seq::<T>::empty();
    assert forall|k: int| group(none, k) + group(all_a, k) + group(all_b, k) == #[trigger] group(
        all_a,
        k,
    ) + group(all_b, k) by {
        reveal(Seq::filter);
        assert(group(none, k) =~= none);
        assert(none + group(all_a, k) =~= group(all_a, k));
    }
    assert(none.to_multiset().len() == 0);
    assert(none.to_multiset().add(all_a.to_multiset()).add(all_b.to_multiset())
        =~= all_a.to_multiset().add(all_b.to_multiset()));
}

proof fn lemma_merge_takes_left<T: Keyed>(
    out: Seq<T>,
    a: Seq<T>,
    b: Seq<T>,
    all_a: Seq<T>,
    all_b: Seq<T>,
)
    requires
        merging(out, a, b, all_a, all_b),
        a.len() > 0,
        b.len() > 0 ==> a[0].key() <= b[0].key(),
    ensures
        merging(out.push(a[0]), a.skip(1), b, all_a, all_b),
{
    let next = out.push(a[0]);
    let rest = a.skip(1);
    assert forall|k: int| group(next, k) + group(rest, k) + group(b, k) == #[trigger] group(all_a, k)
        + group(all_b, k) by {
        lemma_take_left(out, a, b, k);
    }
    lemma_front_multiset(out, a);
    assert forall|j: int| 0 <= j < b.len() implies a[0].key() <= (#[trigger] b[j]).key() by {
        assert(b[0].key() <= b[j].key());
    }
    assert forall|j: int| 0 <= j < rest.len() implies a[0].key() <= (#[trigger] rest[j]).key() by {
        assert(rest[j] == a[j + 1]);
    }
}

proof fn lemma_merge_takes_right<T: Keyed>(
    out: Seq<T>,
    a: Seq<T>,
    b: Seq<T>,
    all_a: Seq<T>,
    all_b: Seq<T>,
)
    requires
        merging(out, a, b, all_a, all_b),
        b.len() > 0,
        a.len() > 0 ==> a[0].key() > b[0].key(),
    ensures
        merging(out.push(b[0]), a, b.skip(1), all_a, all_b),
{
    let next = out.push(b[0]);
    let rest = b.skip(1);
    assert forall|j: int| 0 <= j < a.len() implies (#[trigger] a[j]).key() > b[0].key() by {
        assert(a[0].key() <= a[j].key());
    }
    assert forall|j: int| 0 <= j < rest.len() implies b[0].key() <= (#[trigger] rest[j]).key() by {
        assert(rest[j] == b[j + 1]);
    }
    assert forall|k: int| group(next, k) + group(a, k) + group(rest, k) == #[trigger] group(all_a, k)
        + group(all_b, k) by {
        lemma_take_right(out, a, b, k);
    }
    lemma_front_multiset(out, b);
    let m = a.to_multiset();
    assert(next.to_multiset().add(m).add(rest.to_multiset()) =~= next.to_multiset().add(
        rest.to_multiset(),
    ).add(m));
    assert(out.to_multiset().add(m).add(b.to_multiset()) =~= out.to_multiset().add(
        b.to_multiset(),
    ).add(m));
}

proof fn lemma_merge_ends<T: Keyed>(out: Seq<T>, all_a: Seq<T>, all_b: Seq<T>)
    requires
        merging(out, Seq::empty(), Seq::empty(), all_a, all_b),
    ensures
        stably_sorted(out, all_a + all_b),
{
    broadcast use vstd::seq_lib::group_to_multiset_ensures;

    let none = Seq::<T>::empty();
    assert forall|k: int| #[trigger] group(out, k) == group(all_a + all_b, k) by {
        reveal(Seq::filter);
        assert(group(none, k) =~= none);
        assert(group(out, k) + none + none =~= group(out, k));
        assert(group(all_a, k) + group(all_b, k) == group(out, k));
        lemma_group_concat(all_a, all_b, k);
    }
    vstd::seq_lib::lemma_multiset_commutative(all_a, all_b);
    assert(none.to_multiset().len() == 0);
    assert(out.to_multiset() =~= (all_a + all_b).to_multiset());
}

/// Merges two ascending runs, given back to front. Of equal keys the first run's come first.
fn merge<T: Keyed>(first: Vec<T>, second: Vec<T>) -> (out: Vec<T>)
    requires
        ascending(first@.reverse()),
        ascending(second@.reverse()),
    ensures
        stably_sorted(out@, first@.reverse() + second@.reverse()),
{
    let mut first = first;
    let mut second = second;
    let ghost all_a = first@.reverse();
    let ghost all_b = second@.reverse();
    let mut out: Vec<T> = Vec::new();
    proof {
        lemma_merge_starts(all_a, all_b);
    }
    while first.len() > 0 || second.len() > 0
        invariant
            merging(out@, first@.reverse(), second@.reverse(), all_a, all_b),
        decreases first@.len() + second@.len(),
    {
        let from_first = if first.len() == 0 {
            false
        } else if second.len() == 0 {
            true
        } else {
            first[first.len() - 1].sort_key() <= second[second.len() - 1].sort_key()
        };
        let ghost a = first@.reverse();
        let ghost b = second@.reverse();
        if from_first {
            proof {
                lemma_merge_takes_left(out@, a, b, all_a, all_b);
            }
            if let Some(x) = first.pop() {
                out.push(x);
                assert(first@.reverse() =~= a.skip(1));
            }
        } else {
            proof {
                lemma_merge_takes_right(out@, a, b, all_a, all_b);
            }
            if let Some(x) = second.pop() {
                out.push(x);
                assert(second@.reverse() =~= b.skip(1));
            }
        }
    }
    proof {
        assert(first@.reverse() =~= Seq::empty());
        assert(second@.reverse() =~= Seq::empty());
        lemma_merge_ends(out@, all_a, all_b);
    }
    out
}

proof fn lemma_front_multiset<T>(out: Seq<T>, a: Seq<T>)
    requires
        a.len() > 0,
    ensures
        out.push(a[0]).to_multiset().add(a.skip(1).to_multiset()) == out.to_multiset().add(
            a.to_multiset(),
        ),
{
    broadcast use vstd::seq_lib::group_to_multiset_ensures;
    assert(seq![a[0]] + a.skip(1) =~= a);
    vstd::seq_lib::lemma_multiset_commutative(seq![a[0]], a.skip(1));
    assert(seq![a[0]] =~= Seq::<T>::empty().push(a[0]));
    assert(out.push(a[0]).to_multiset().add(a.skip(1).to_multiset()) =~= out.to_multiset().add(
        a.to_multiset(),
    ));
}

/// Sorts by ascending keys. Items of equal keys keep their order.
pub fn stable_sort<T: Keyed>(items: Vec<T>) -> (out: Vec<T>)
    ensures
        stably_sorted(out@, items@),
    decreases items@.len(),
{
    if items.len() <= 1 {
        return items;
    }
    let mut left = items;
    let mid: usize = left.len() / 2;
    let right = left.split_off(mid);
    let ghost (l, r) = (left@, right@);
    let first = stable_sort(left);
    let second = stable_sort(right);
    let ghost (a, b) = (first@, second@);
    assert(a.reverse().reverse() =~= a);
    assert(b.reverse().reverse() =~= b);
    let out = merge(flipped(first), flipped(second));
    proof {
        assert(l + r =~= items@);
        assert forall|k: int| #[trigger] group(out@, k) == group(items@, k) by {
            lemma_group_concat(a, b, k);
            lemma_group_concat(l, r, k);
            assert(group(a, k) == group(l, k));
            assert(group(b, k) == group(r, k));
        }
        vstd::seq_lib::lemma_multiset_commutative(a, b);
        vstd::seq_lib::lemma_multiset_commutative(l, r);
    }
    out
}

/// Sorting loses and adds nothing, puts smaller keys first, and keeps items of one key in the
/// order in which they came.
pub proof fn law_sorting_is_stable<T: Keyed>(items: Vec<T>, out: Vec<T>, k: int)
    requires
        call_ensures(stable_sort::<T>, (items,), out),
    ensures
        out@.to_multiset() == items@.to_multiset(),
        forall|i: int, j: int|
            0 <= i <= j < out@.len() ==> (#[trigger] out@[i]).key() <= (#[trigger] out@[j]).key(),
        group(out@, k) == group(items@, k),
{
}

} // verus!
