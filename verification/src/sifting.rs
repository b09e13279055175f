//! Why sifting restores the heap property, and what it leaves untouched.

use crate::model::{
    after_pop, after_push, favoured_child, heap_ordered, left_child, node_ordered, parent,
    right_child, sift_down, sift_up, swapped,
};
use crate::strategy::{lawful, lemma_total, lemma_transitive, Strategy};
use vstd::prelude::*;

verus! {

/// The element at `j` ranks before or equal to each child it has, the child
/// at `skip` left aside.
pub open spec fn node_ordered_but<T, S: Strategy<T>>(s: Seq<T>, ord: S, j: int, skip: int) -> bool {
    &&& left_child(j) < s.len() && left_child(j) != skip ==> ord.le(s[j], s[left_child(j)])
    &&& right_child(j) < s.len() && right_child(j) != skip ==> ord.le(s[j], s[right_child(j)])
}

/// The parent of `i`, where `i` has one, ranks before or equal to the
/// children of `i`.
pub open spec fn grandchildren_ordered<T, S: Strategy<T>>(s: Seq<T>, ord: S, i: int) -> bool {
    i > 0 ==> {
        &&& left_child(i) < s.len() ==> ord.le(s[parent(i)], s[left_child(i)])
        &&& right_child(i) < s.len() ==> ord.le(s[parent(i)], s[right_child(i)])
    }
}

/// The state in which `sift_up` from `i` works: the heap property holds
/// everywhere but, perhaps, between `i` and its parent.
pub open spec fn ordered_but_above<T, S: Strategy<T>>(s: Seq<T>, ord: S, i: int) -> bool {
    &&& forall|j: int| 0 <= j < s.len() ==> #[trigger] node_ordered_but(s, ord, j, i)
    &&& grandchildren_ordered(s, ord, i)
}

/// The state in which `sift_down` from `i` works: the heap property holds
/// everywhere but, perhaps, between `i` and its children.
pub open spec fn ordered_but_below<T, S: Strategy<T>>(s: Seq<T>, ord: S, i: int) -> bool {
    &&& forall|j: int| 0 <= j < s.len() && j != i ==> #[trigger] node_ordered(s, ord, j)
    &&& grandchildren_ordered(s, ord, i)
}

/// Exchanging two elements keeps the length and the elements.
pub proof fn lemma_swapped_permutes<T>(s: Seq<T>, i: int, j: int)
    requires
        0 <= i < s.len(),
        0 <= j < s.len(),
    ensures
        swapped(s, i, j).len() == s.len(),
        swapped(s, i, j).to_multiset() == s.to_multiset(),
{
    broadcast use vstd::seq_lib::group_to_multiset_ensures;
}

/// Sifting up keeps the length and the elements.
pub proof fn lemma_sift_up_permutes<T, S: Strategy<T>>(s: Seq<T>, ord: S, i: int)
    ensures
        sift_up(s, ord, i).len() == s.len(),
        sift_up(s, ord, i).to_multiset() == s.to_multiset(),
    decreases i,
{
    if 0 < i < s.len() && ord.le(s[i], s[parent(i)]) {
        lemma_swapped_permutes(s, i, parent(i));
        lemma_sift_up_permutes(swapped(s, i, parent(i)), ord, parent(i));
    }
}

/// Sifting down keeps the length and the elements.
pub proof fn lemma_sift_down_permutes<T, S: Strategy<T>>(s: Seq<T>, ord: S, i: int)
    ensures
        sift_down(s, ord, i).len() == s.len(),
        sift_down(s, ord, i).to_multiset() == s.to_multiset(),
    decreases s.len() - i,
{
    if 0 <= i && left_child(i) < s.len() {
        let c = favoured_child(s, ord, i);
        if ord.le(s[c], s[i]) {
            lemma_swapped_permutes(s, i, c);
            lemma_sift_down_permutes(swapped(s, i, c), ord, c);
        }
    }
}

/// Sifting up from `i` restores the heap property where only the place of
/// `i` against its parent was in doubt.
pub proof fn lemma_sift_up_orders<T, S: Strategy<T>>(s: Seq<T>, ord: S, i: int)
    requires
        lawful(ord),
        0 <= i < s.len(),
        ordered_but_above(s, ord, i),
    ensures
        heap_ordered(sift_up(s, ord, i), ord),
    decreases i,
{
    if 0 < i && ord.le(s[i], s[parent(i)]) {
        let p = parent(i);
        let t = swapped(s, i, p);
        let q = if i == left_child(p) {
            right_child(p)
        } else {
            left_child(p)
        };
        assert(node_ordered_but(s, ord, p, i));
        if q < s.len() {
            lemma_transitive(ord, s[i], s[p], s[q]);
        }
        assert forall|j: int| 0 <= j < t.len() implies #[trigger] node_ordered_but(
            t,
            ord,
            j,
            p,
        ) by {
            assert(node_ordered_but(s, ord, j, i));
        }
        if p > 0 {
            let g = parent(p);
            assert(node_ordered_but(s, ord, g, i));
            if q < s.len() {
                lemma_transitive(ord, s[g], s[p], s[q]);
            }
        }
        lemma_sift_up_orders(t, ord, p);
    } else {
        if i > 0 {
            lemma_total(ord, s[i], s[parent(i)]);
        }
        assert forall|j: int| 0 <= j < s.len() implies #[trigger] node_ordered(s, ord, j) by {
            assert(node_ordered_but(s, ord, j, i));
        }
    }
}

/// Sifting down from `i` restores the heap property where only the place of
/// `i` against its children was in doubt.
pub proof fn lemma_sift_down_orders<T, S: Strategy<T>>(s: Seq<T>, ord: S, i: int)
    requires
        lawful(ord),
        0 <= i,
        ordered_but_below(s, ord, i),
    ensures
        heap_ordered(sift_down(s, ord, i), ord),
    decreases s.len() - i,
{
    let l = left_child(i);
    let r = right_child(i);
    if l < s.len() {
        let c = favoured_child(s, ord, i);
        let d = if c == l {
            r
        } else {
            l
        };
        if d < s.len() {
            lemma_total(ord, s[l], s[r]);
        }
        if ord.le(s[c], s[i]) {
            let t = swapped(s, i, c);
            assert(node_ordered(s, ord, c));
            assert forall|j: int| 0 <= j < t.len() && j != c implies #[trigger] node_ordered(
                t,
                ord,
                j,
            ) by {
                if j != i {
                    assert(node_ordered(s, ord, j));
                }
            }
            lemma_sift_down_orders(t, ord, c);
        } else {
            lemma_total(ord, s[c], s[i]);
            if d < s.len() {
                lemma_transitive(ord, s[i], s[c], s[d]);
            }
            assert(node_ordered(s, ord, i));
        }
    } else {
        assert(node_ordered(s, ord, i));
    }
}

/// In a heap the root ranks before or equal to every element.
pub proof fn lemma_root_ranks_first<T, S: Strategy<T>>(s: Seq<T>, ord: S, i: int)
    requires
        lawful(ord),
        heap_ordered(s, ord),
        0 <= i < s.len(),
    ensures
        ord.le(s[0], s[i]),
    decreases i,
{
    if i == 0 {
        lemma_total(ord, s[0], s[0]);
    } else {
        let p = parent(i);
        lemma_root_ranks_first(s, ord, p);
        assert(node_ordered(s, ord, p));
        lemma_transitive(ord, s[0], s[p], s[i]);
    }
}

/// A push adds one to the length and the pushed element to the elements,
/// whatever the strategy.
pub proof fn lemma_after_push_permutes<T, S: Strategy<T>>(s: Seq<T>, ord: S, e: T)
    ensures
        after_push(s, ord, e).len() == s.len() + 1,
        after_push(s, ord, e).to_multiset() == s.to_multiset().insert(e),
{
    broadcast use vstd::seq_lib::group_to_multiset_ensures;

    lemma_sift_up_permutes(s.push(e), ord, s.len() as int);
}

/// A push keeps the heap property.
pub proof fn lemma_after_push_orders<T, S: Strategy<T>>(s: Seq<T>, ord: S, e: T)
    requires
        lawful(ord),
        heap_ordered(s, ord),
    ensures
        heap_ordered(after_push(s, ord, e), ord),
{
    let t = s.push(e);
    let n = s.len() as int;
    assert forall|j: int| 0 <= j < t.len() implies #[trigger] node_ordered_but(t, ord, j, n) by {
        if j < n {
            assert(node_ordered(s, ord, j));
        }
    }
    lemma_sift_up_orders(t, ord, n);
}

/// Putting the last element in the root's place and dropping the last
/// position takes one off the length and the root out of the elements.
pub proof fn lemma_root_replaced<T>(s: Seq<T>)
    requires
        s.len() > 0,
    ensures
        s.update(0, s.last()).drop_last().len() == s.len() - 1,
        s.update(0, s.last()).drop_last().to_multiset() == s.to_multiset().remove(s[0]),
{
    broadcast use vstd::seq_lib::group_to_multiset_ensures;

    let u = s.update(0, s.last());
    let t = u.drop_last();
    assert(t =~= u.remove(s.len() - 1));
}

/// A pop on an empty heap leaves it as it is; any other takes one off the
/// length and the root out of the elements, whatever the strategy.
pub proof fn lemma_after_pop_permutes<T, S: Strategy<T>>(s: Seq<T>, ord: S)
    ensures
        s.len() == 0 ==> after_pop(s, ord) == s,
        s.len() > 0 ==> after_pop(s, ord).len() == s.len() - 1,
        s.len() > 0 ==> after_pop(s, ord).to_multiset() == s.to_multiset().remove(s[0]),
{
    if s.len() > 0 {
        lemma_root_replaced(s);
        lemma_sift_down_permutes(s.update(0, s.last()).drop_last(), ord, 0);
    }
}

/// A pop keeps the heap property.
pub proof fn lemma_after_pop_orders<T, S: Strategy<T>>(s: Seq<T>, ord: S)
    requires
        lawful(ord),
        heap_ordered(s, ord),
    ensures
        heap_ordered(after_pop(s, ord), ord),
{
    if s.len() > 0 {
        let t = s.update(0, s.last()).drop_last();
        assert forall|j: int| 0 <= j < t.len() && j != 0 implies #[trigger] node_ordered(
            t,
            ord,
            j,
        ) by {
            assert(node_ordered(s, ord, j));
        }
        lemma_sift_down_orders(t, ord, 0);
    }
}

} // verus!
