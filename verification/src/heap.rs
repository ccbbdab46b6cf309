//! A binary max-heap by integer keys.

use crate::sorting::Keyed;
use vstd::multiset::Multiset;
use vstd::prelude::*;

verus! {

/// The place above a place of the heap.
pub open spec fn parent(i: int) -> int {
    (i - 1) / 2
}

/// Whether the item above a place is at least as large as the item at the place.
pub open spec fn in_order<T: Keyed>(s: Seq<T>, i: int) -> bool {
    s[parent(i)].key() >= s[i].key()
}

/// Whether no item is larger than the item above it.
pub open spec fn is_heap<T: Keyed>(s: Seq<T>) -> bool {
    forall|i: int| 0 < i < s.len() ==> #[trigger] in_order(s, i)
}

/// A sequence with two of its items exchanged.
pub open spec fn exchanged<T>(s: Seq<T>, i: int, j: int) -> Seq<T> {
    s.update(i, s[j]).update(j, s[i])
}

proof fn lemma_exchanged_multiset<T>(s: Seq<T>, i: int, j: int)
    requires
        0 <= i < s.len(),
        0 <= j < s.len(),
    ensures
        exchanged(s, i, j).to_multiset() == s.to_multiset(),
{
    broadcast use vstd::seq_lib::group_to_multiset_ensures;

    let once = s.update(i, s[j]);
    assert(s.contains(s[i]) && s.contains(s[j]));
    assert(once.contains(once[i]) && once.contains(once[j]));
    assert(exchanged(s, i, j) =~= once.update(j, s[i]));
    assert(exchanged(s, i, j).to_multiset() =~= s.to_multiset());
}

/// The first item of a heap is the largest.
proof fn lemma_root_is_largest<T: Keyed>(s: Seq<T>, i: int)
    requires
        is_heap(s),
        0 <= i < s.len(),
    ensures
        s[i].key() <= s[0].key(),
    decreases i,
{
    if i > 0 {
        assert(in_order(s, i));
        lemma_root_is_largest(s, parent(i));
    }
}

/// Exchanges an item with the last one.
fn exchange_with_last<T>(items: &mut Vec<T>, i: usize)
    requires
        i < old(items)@.len(),
    ensures
        final(items)@ == exchanged(old(items)@, i as int, old(items)@.len() - 1),
{
    let item = items.swap_remove(i);
    items.push(item);
    assert(items@ =~= exchanged(old(items)@, i as int, old(items)@.len() - 1));
}

/// Exchanges two items.
fn exchange<T>(items: &mut Vec<T>, i: usize, j: usize)
    requires
        i < old(items)@.len(),
        j < old(items)@.len(),
        i != j,
    ensures
        final(items)@ == exchanged(old(items)@, i as int, j as int),
        final(items)@.to_multiset() == old(items)@.to_multiset(),
{
    let last: usize = items.len() - 1;
    if j == last {
        exchange_with_last(items, i);
    } else if i == last {
        exchange_with_last(items, j);
    } else {
        exchange_with_last(items, i);
        exchange_with_last(items, j);
        exchange_with_last(items, i);
    }
    proof {
        assert(items@ =~= exchanged(old(items)@, i as int, j as int));
        lemma_exchanged_multiset(old(items)@, i as int, j as int);
    }
}

/// Moves the last item up to its place.
fn sift_up<T: Keyed>(items: &mut Vec<T>)
    requires
        old(items)@.len() > 0,
        forall|i: int| 0 < i < old(items)@.len() - 1 ==> #[trigger] in_order(old(items)@, i),
    ensures
        is_heap(final(items)@),
        final(items)@.to_multiset() == old(items)@.to_multiset(),
{
    let mut at: usize = items.len() - 1;
    while at > 0 && items[at].sort_key() > items[(at - 1) / 2].sort_key()
        invariant
            at < items@.len(),
            items@.to_multiset() == old(items)@.to_multiset(),
            forall|i: int| 0 < i < items@.len() && i != at ==> #[trigger] in_order(items@, i),
            forall|i: int|
                #![trigger items@[i]]
                0 < i < items@.len() && parent(i) == at && at > 0 ==> items@[i].key() <= items@[parent(
                    at as int,
                )].key(),
        decreases at,
    {
        let above: usize = (at - 1) / 2;
        let ghost before = items@;
        let ghost was = at as int;
        exchange(items, at, above);
        at = above;
        proof {
            assert forall|i: int| 0 < i < items@.len() && i != at implies #[trigger] in_order(
                items@,
                i,
            ) by {
                assert(i != was ==> in_order(before, i));
            }
            assert forall|i: int|
                #![trigger items@[i]]
                0 < i < items@.len() && parent(i) == at && at > 0 implies items@[i].key()
                <= items@[parent(at as int)].key() by {
                assert(in_order(before, at as int));
                assert(i != was ==> in_order(before, i));
            }
        }
    }
    proof {
        assert forall|i: int| 0 < i < items@.len() implies #[trigger] in_order(items@, i) by {}
    }
}

/// Moves the first item down to its place.
fn sift_down<T: Keyed>(items: &mut Vec<T>)
    requires
        old(items)@.len() > 0,
        forall|i: int|
            0 < i < old(items)@.len() && parent(i) != 0 ==> #[trigger] in_order(old(items)@, i),
    ensures
        is_heap(final(items)@),
        final(items)@.to_multiset() == old(items)@.to_multiset(),
{
    let len = items.len();
    let mut at: usize = 0;
    loop
        invariant
            len == items@.len(),
            at < len,
            items@.to_multiset() == old(items)@.to_multiset(),
            forall|i: int|
                0 < i < items@.len() && parent(i) != at ==> #[trigger] in_order(items@, i),
            forall|i: int|
                #![trigger items@[i]]
                0 < i < items@.len() && parent(i) == at && at > 0 ==> items@[i].key() <= items@[parent(
                    at as int,
                )].key(),
        ensures
            is_heap(items@),
            items@.to_multiset() == old(items)@.to_multiset(),
        decreases len - at,
    {
        if at >= (len - 1) - at {
            assert forall|i: int| 0 < i < items@.len() implies #[trigger] in_order(items@, i) by {}
            break;
        }
        let left: usize = 2 * at + 1;
        let below: usize = if left + 1 < len && items[left + 1].sort_key() > items[left].sort_key() {
            left + 1
        } else {
            left
        };
        if items[at].sort_key() >= items[below].sort_key() {
            assert forall|i: int| 0 < i < items@.len() implies #[trigger] in_order(items@, i) by {
                if parent(i) == at {
                    assert(i == left || i == left + 1);
                }
            }
            break;
        }
        let ghost before = items@;
        let ghost was = at as int;
        exchange(items, at, below);
        at = below;
        proof {
            assert forall|i: int| 0 < i < items@.len() && parent(i) != at implies #[trigger] in_order(
                items@,
                i,
            ) by {
                if parent(i) == was {
                    assert(i == left || i == left + 1);
                } else {
                    assert(in_order(before, i));
                }
            }
            assert forall|i: int|
                #![trigger items@[i]]
                0 < i < items@.len() && parent(i) == at && at > 0 implies items@[i].key()
                <= items@[parent(at as int)].key() by {
                assert(in_order(before, i));
            }
        }
    }
}

/// A binary max-heap.
#[verifier::reject_recursive_types(T)]
pub struct MaxHeap<T: Keyed> {
    items: Vec<T>,
}

impl<T: Keyed> View for MaxHeap<T> {
    type V = Multiset<T>;

    closed spec fn view(&self) -> Multiset<T> {
        self.items@.to_multiset()
    }
}

impl<T: Keyed> MaxHeap<T> {
    #[verifier::type_invariant]
    spec fn inv(self) -> bool {
        is_heap(self.items@)
    }

    /// The item that comes out first, where there is one.
    pub closed spec fn top(&self) -> T {
        self.items@[0]
    }

    /// Makes an empty heap.
    pub fn new() -> (heap: MaxHeap<T>)
        ensures
            heap@ == Multiset::<T>::empty(),
    {
        broadcast use vstd::seq_lib::group_to_multiset_ensures;
        let heap = MaxHeap { items: Vec::new() };
        assert(heap.items@.to_multiset().len() == 0);
        assert(heap@ =~= Multiset::<T>::empty());
        heap
    }

    /// The number of items.
    pub fn len(&self) -> (n: usize)
        ensures
            n == self@.len(),
    {
        broadcast use vstd::seq_lib::group_to_multiset_ensures;
        self.items.len()
    }

    /// Adds an item.
    pub fn push(&mut self, item: T)
        ensures
            final(self)@ == old(self)@.insert(item),
    {
        broadcast use vstd::seq_lib::group_to_multiset_ensures;
        proof {
            use_type_invariant(&*self);
        }
        let mut items: Vec<T> = Vec::new();
        std::mem::swap(&mut items, &mut self.items);
        let ghost before = items@;
        items.push(item);
        proof {
            assert forall|i: int| 0 < i < items@.len() - 1 implies #[trigger] in_order(items@, i) by {
                assert(in_order(before, i));
            }
        }
        sift_up(&mut items);
        self.items = items;
    }

    /// The largest item.
    pub fn peek(&self) -> (top: Option<&T>)
        ensures
            top is None <==> self@.len() == 0,
            top matches Some(t) ==> *t == self.top(),
            top matches Some(t) ==> self@.count(*t) > 0,
            top matches Some(t) ==> forall|x: T| #[trigger] self@.count(x) > 0 ==> x.key() <= t.key(),
    {
        broadcast use vstd::seq_lib::group_to_multiset_ensures;
        proof {
            use_type_invariant(self);
        }
        if self.items.len() == 0 {
            return None;
        }
        proof {
            assert(self.items@.contains(self.items@[0]));
            assert forall|x: T| #[trigger] self@.count(x) > 0 implies x.key() <= self.items@[0].key() by {
                assert(self.items@.contains(x));
                let i = choose|i: int| 0 <= i < self.items@.len() && self.items@[i] == x;
                lemma_root_is_largest(self.items@, i);
            }
        }
        Some(&self.items[0])
    }

    /// Takes out the largest item.
    pub fn pop(&mut self) -> (top: Option<T>)
        ensures
            top is None <==> old(self)@.len() == 0,
            top is None ==> final(self)@ == old(self)@,
            top matches Some(t) ==> t == old(self).top(),
            top matches Some(t) ==> old(self)@.count(t) > 0,
            top matches Some(t) ==> final(self)@ == old(self)@.remove(t),
            top matches Some(t) ==> forall|x: T| #[trigger] old(self)@.count(x) > 0 ==> x.key() <= t.key(),
    {
        broadcast use vstd::seq_lib::group_to_multiset_ensures;
        proof {
            use_type_invariant(&*self);
        }
        let mut items: Vec<T> = Vec::new();
        std::mem::swap(&mut items, &mut self.items);
        if items.len() == 0 {
            self.items = items;
            return None;
        }
        let ghost before = items@;
        proof {
            assert(before.contains(before[0]));
            assert forall|x: T| #[trigger] old(self)@.count(x) > 0 implies x.key() <= before[0].key() by {
                assert(before.contains(x));
                let i = choose|i: int| 0 <= i < before.len() && before[i] == x;
                lemma_root_is_largest(before, i);
            }
        }
        let top = items.swap_remove(0);
        proof {
            let last = before.len() - 1;
            lemma_exchanged_multiset(before, 0, last);
            assert(items@ =~= exchanged(before, 0, last).remove(last));
            assert(exchanged(before, 0, last)[last] == top);
            assert(items@.to_multiset() =~= before.to_multiset().remove(top));
            assert forall|i: int| 0 < i < items@.len() && parent(i) != 0 implies #[trigger] in_order(
                items@,
                i,
            ) by {
                assert(in_order(before, i));
            }
        }
        if items.len() > 0 {
            sift_down(&mut items);
        }
        self.items = items;
        Some(top)
    }

    /// Takes out all items, in no particular order.
    pub fn drain(&mut self) -> (items: Vec<T>)
        ensures
            final(self)@ == Multiset::<T>::empty(),
            items@.to_multiset() == old(self)@,
    {
        broadcast use vstd::seq_lib::group_to_multiset_ensures;
        let mut items: Vec<T> = Vec::new();
        std::mem::swap(&mut items, &mut self.items);
        assert(self.items@.to_multiset().len() == 0);
        assert(self@ =~= Multiset::<T>::empty());
        items
    }
}

} // verus!
