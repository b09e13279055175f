//! What holds of a heap over whole runs of `push` and `pop`.

use crate::model::{
    after_pop, after_pops, after_pushes, after_steps, heap_ordered, popped, ranking, root, served,
    tie_free, Step,
};
use crate::sifting::{
    lemma_after_pop_orders, lemma_after_pop_permutes, lemma_after_push_orders,
    lemma_after_push_permutes, lemma_root_ranks_first,
};
use crate::strategy::{
    lawful, lemma_desc_reverses_asc, lemma_total, lemma_transitive, Asc, Desc, Strategy,
};
use std::cmp::Ordering;
use vstd::prelude::*;
use vstd::relations::{sorted_by, total_ordering};
use vstd::std_specs::cmp::OrdSpec;

verus! {

/// The heap property holds after any run of pushes and pops on a heap.
pub proof fn lemma_steps_keep_heap_order<T, S: Strategy<T>>(s: Seq<T>, ord: S, steps: Seq<Step<T>>)
    requires
        lawful(ord),
        heap_ordered(s, ord),
    ensures
        heap_ordered(after_steps(s, ord, steps), ord),
    decreases steps.len(),
{
    if steps.len() > 0 {
        let before = after_steps(s, ord, steps.drop_last());
        lemma_steps_keep_heap_order(s, ord, steps.drop_last());
        match steps.last() {
            Step::Push(e) => lemma_after_push_orders(before, ord, e),
            Step::Pop => lemma_after_pop_orders(before, ord),
        }
    }
}

/// The heap property holds after any run of pushes and pops on a new heap.
pub proof fn lemma_heap_order_always<T, S: Strategy<T>>(ord: S, steps: Seq<Step<T>>)
    requires
        lawful(ord),
    ensures
        heap_ordered(after_steps(Seq::<T>::empty(), ord, steps), ord),
{
    lemma_steps_keep_heap_order(Seq::<T>::empty(), ord, steps);
}

/// Pushes keep the heap property, add their number to the size, and add
/// their elements to those of the heap.
pub proof fn lemma_after_pushes<T, S: Strategy<T>>(s: Seq<T>, ord: S, items: Seq<T>)
    requires
        lawful(ord),
        heap_ordered(s, ord),
    ensures
        heap_ordered(after_pushes(s, ord, items), ord),
        after_pushes(s, ord, items).len() == s.len() + items.len(),
        after_pushes(s, ord, items).to_multiset() == s.to_multiset().add(items.to_multiset()),
    decreases items.len(),
{
    broadcast use vstd::seq_lib::group_to_multiset_ensures;

    if items.len() > 0 {
        let before = after_pushes(s, ord, items.drop_last());
        lemma_after_pushes(s, ord, items.drop_last());
        lemma_after_push_orders(before, ord, items.last());
        lemma_after_push_permutes(before, ord, items.last());
        assert(items =~= items.drop_last().push(items.last()));
        assert(after_pushes(s, ord, items).to_multiset() =~= s.to_multiset().add(
            items.to_multiset(),
        ));
    }
}

/// Pops keep the heap property and hand the elements out in the order of
/// their rank; what they hand out and what they leave are together the
/// elements that were there. The size goes down by the number of pops, and
/// stays at 0 once it is there.
pub proof fn lemma_after_pops<T, S: Strategy<T>>(s: Seq<T>, ord: S, n: nat)
    requires
        lawful(ord),
        heap_ordered(s, ord),
    ensures
        heap_ordered(after_pops(s, ord, n), ord),
        after_pops(s, ord, n).len() == (if n <= s.len() {
            s.len() - n
        } else {
            0
        }),
        popped(s, ord, n).len() == (if n <= s.len() {
            n
        } else {
            s.len()
        }),
        sorted_by(popped(s, ord, n), ranking(ord)),
        popped(s, ord, n).to_multiset().add(after_pops(s, ord, n).to_multiset())
            == s.to_multiset(),
    decreases n,
{
    broadcast use vstd::seq_lib::group_to_multiset_ensures;

    let out = popped(s, ord, n);
    if n > 0 {
        let t = after_pop(s, ord);
        let m = (n - 1) as nat;
        let rest = popped(t, ord, m);
        lemma_after_pop_orders(s, ord);
        lemma_after_pop_permutes(s, ord);
        lemma_after_pops(t, ord, m);
        if s.len() == 0 {
            assert(out.to_multiset().add(after_pops(s, ord, n).to_multiset())
                =~= s.to_multiset());
        } else {
            assert forall|i: int, j: int| 0 <= i < j < out.len() implies #[trigger] ranking(ord)(
                out[i],
                out[j],
            ) by {
                if i == 0 {
                    let x = rest[j - 1];
                    assert(t.to_multiset().count(x) > 0);
                    let k = choose|k: int| 0 <= k < s.len() && s[k] == x;
                    lemma_root_ranks_first(s, ord, k);
                }
            }
            let left = after_pops(s, ord, n);
            vstd::seq_lib::lemma_multiset_commutative(seq![s[0]], rest);
            assert forall|x: T|
                out.to_multiset().add(left.to_multiset()).count(x) == s.to_multiset().count(
                    x,
                ) by {
                assert(rest.to_multiset().add(left.to_multiset()).count(x)
                    == s.to_multiset().remove(s[0]).count(x));
            }
        }
    }
}

/// One pop more hands out the root of the heap that the pops before it left,
/// and leaves what a pop makes of that heap.
pub proof fn lemma_one_more_pop<T, S: Strategy<T>>(s: Seq<T>, ord: S, n: nat)
    requires
        n < s.len(),
    ensures
        after_pops(s, ord, n).len() == s.len() - n,
        popped(s, ord, n + 1) == popped(s, ord, n).push(after_pops(s, ord, n)[0]),
        after_pops(s, ord, n + 1) == after_pop(after_pops(s, ord, n), ord),
    decreases n,
{
    let t = after_pop(s, ord);
    if n == 0 {
        assert(popped(t, ord, 0) =~= Seq::<T>::empty());
        assert(after_pops(t, ord, 0) == t);
    } else {
        let m = (n - 1) as nat;
        lemma_after_pop_permutes(s, ord);
        lemma_one_more_pop(t, ord, m);
    }
}

/// What `min` shows is what the next `pop` hands out, and every element of
/// the heap ranks equal to it or after it.
pub proof fn lemma_peek_is_next_pop<T, S: Strategy<T>>(s: Seq<T>, ord: S)
    requires
        lawful(ord),
        heap_ordered(s, ord),
    ensures
        popped(s, ord, 1) == (match root(s) {
            Some(x) => seq![x],
            None => Seq::<T>::empty(),
        }),
        forall|i: int| 0 <= i < s.len() ==> ord.le(s[0], #[trigger] s[i]),
{
    if s.len() > 0 {
        assert(popped(after_pop(s, ord), ord, 0) =~= Seq::<T>::empty());
    }
    assert forall|i: int| 0 <= i < s.len() implies ord.le(s[0], #[trigger] s[i]) by {
        lemma_root_ranks_first(s, ord, i);
    }
}

/// After `k` pushes onto a new heap the size is `k`; after `j <= k` pops
/// more it is `k - j`; a pop on an empty heap leaves it empty.
pub proof fn lemma_size<T, S: Strategy<T>>(ord: S, items: Seq<T>, j: nat)
    requires
        lawful(ord),
    ensures
        after_pushes(Seq::<T>::empty(), ord, items).len() == items.len(),
        j <= items.len() ==> after_pops(after_pushes(Seq::<T>::empty(), ord, items), ord, j).len()
            == items.len() - j,
        after_pop(Seq::<T>::empty(), ord) == Seq::<T>::empty(),
        root(Seq::<T>::empty()) == None::<T>,
{
    lemma_after_pushes(Seq::<T>::empty(), ord, items);
    lemma_after_pops(after_pushes(Seq::<T>::empty(), ord, items), ord, j);
}

/// Pushing any elements onto a new heap and popping until it is empty hands
/// out those elements, each as often as it was pushed, in the order of their
/// rank.
pub proof fn lemma_push_all_pop_all_sorts<T, S: Strategy<T>>(ord: S, items: Seq<T>)
    requires
        lawful(ord),
    ensures
        served(ord, items).len() == items.len(),
        served(ord, items).to_multiset() == items.to_multiset(),
        sorted_by(served(ord, items), ranking(ord)),
{
    broadcast use vstd::seq_lib::group_to_multiset_ensures;

    let full = after_pushes(Seq::<T>::empty(), ord, items);
    let left = after_pops(full, ord, full.len());
    lemma_after_pushes(Seq::<T>::empty(), ord, items);
    lemma_after_pops(full, ord, full.len());
    assert forall|x: T|
        served(ord, items).to_multiset().count(x) == items.to_multiset().count(x) by {
        assert(served(ord, items).to_multiset().add(left.to_multiset()).count(x)
            == full.to_multiset().count(x));
        assert(full.to_multiset().count(x) == Seq::<T>::empty().to_multiset().add(
            items.to_multiset(),
        ).count(x));
    }
}

/// With `Asc` no element comes out after a greater one, with `Desc` none
/// after a smaller one.
pub proof fn lemma_natural_order_is_kept<T: Ord>(items: Seq<T>)
    requires
        lawful::<T, Asc>(Asc),
    ensures
        forall|i: int, j: int|
            #![trigger served(Asc, items)[i], served(Asc, items)[j]]
            0 <= i < j < items.len() ==> served(Asc, items)[i].cmp_spec(&served(Asc, items)[j])
                != Ordering::Greater,
        forall|i: int, j: int|
            #![trigger served(Desc, items)[i], served(Desc, items)[j]]
            0 <= i < j < items.len() ==> served(Desc, items)[j].cmp_spec(&served(Desc, items)[i])
                != Ordering::Greater,
{
    lemma_desc_reverses_asc::<T>();
    lemma_push_all_pop_all_sorts(Asc, items);
    lemma_push_all_pop_all_sorts(Desc, items);
    assert forall|i: int, j: int|
        #![trigger served(Asc, items)[i], served(Asc, items)[j]]
        0 <= i < j < items.len() implies served(Asc, items)[i].cmp_spec(&served(Asc, items)[j])
        != Ordering::Greater by {
        assert(ranking(Asc)(served(Asc, items)[i], served(Asc, items)[j]));
    }
    assert forall|i: int, j: int|
        #![trigger served(Desc, items)[i], served(Desc, items)[j]]
        0 <= i < j < items.len() implies served(Desc, items)[j].cmp_spec(&served(Desc, items)[i])
        != Ordering::Greater by {
        assert(ranking(Desc)(served(Desc, items)[i], served(Desc, items)[j]));
    }
}

/// A lawful strategy under which nothing ties ranks by a total order.
pub proof fn lemma_tie_free_is_total_order<T, S: Strategy<T>>(ord: S)
    requires
        lawful(ord),
        tie_free(ord),
    ensures
        total_ordering(ranking(ord)),
{
    let r = ranking(ord);
    assert forall|x: T| #[trigger] r(x, x) by {
        lemma_total(ord, x, x);
    }
    assert forall|x: T, y: T| #[trigger] r(x, y) && #[trigger] r(y, x) implies x == y by {
        assert(ord.le(x, y) && ord.le(y, x));
    }
    assert forall|x: T, y: T, z: T| #[trigger] r(x, y) && #[trigger] r(y, z) implies r(x, z) by {
        lemma_transitive(ord, x, y, z);
    }
    assert forall|x: T, y: T| #[trigger] r(x, y) || #[trigger] r(y, x) by {
        lemma_total(ord, x, y);
    }
}

/// Where nothing ties and no element is pushed twice, pushing the elements
/// and popping until the heap is empty hands them out in strictly rising
/// rank: it sorts them.
pub proof fn lemma_push_all_pop_all_strict<T, S: Strategy<T>>(ord: S, items: Seq<T>)
    requires
        lawful(ord),
        tie_free(ord),
        items.no_duplicates(),
    ensures
        served(ord, items) == items.sort_by(ranking(ord)),
        forall|i: int, j: int|
            0 <= i < j < items.len() ==> ord.le(
                #[trigger] served(ord, items)[i],
                #[trigger] served(ord, items)[j],
            ) && !ord.le(served(ord, items)[j], served(ord, items)[i]),
{
    let out = served(ord, items);
    lemma_push_all_pop_all_sorts(ord, items);
    lemma_tie_free_is_total_order(ord);
    items.lemma_sort_by_ensures(ranking(ord));
    vstd::seq_lib::lemma_sorted_unique(out, items.sort_by(ranking(ord)), ranking(ord));
    items.lemma_multiset_has_no_duplicates();
    out.lemma_multiset_has_no_duplicates_conv();
    assert forall|i: int, j: int| 0 <= i < j < items.len() implies ord.le(out[i], out[j])
        && !ord.le(out[j], out[i]) by {
        assert(ranking(ord)(out[i], out[j]));
    }
}

/// Where nothing ties, the order in which elements are pushed does not
/// show in the order in which they are popped.
pub proof fn lemma_push_order_is_forgotten<T, S: Strategy<T>>(
    ord: S,
    items: Seq<T>,
    shuffled: Seq<T>,
)
    requires
        lawful(ord),
        tie_free(ord),
        shuffled.to_multiset() == items.to_multiset(),
    ensures
        served(ord, shuffled) == served(ord, items),
{
    lemma_push_all_pop_all_sorts(ord, items);
    lemma_push_all_pop_all_sorts(ord, shuffled);
    lemma_tie_free_is_total_order(ord);
    vstd::seq_lib::lemma_sorted_unique(served(ord, shuffled), served(ord, items), ranking(ord));
}

} // verus!
