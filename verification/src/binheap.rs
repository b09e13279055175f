//! The heap itself: a `Vec` read as a complete binary tree.

use crate::cost::lemma_depth_rises;
use crate::model::{
    after_pop, after_push, depth, heap_ordered, root, sift_down, sift_down_exchanges, sift_up,
    sift_up_exchanges, swapped,
};
use crate::sifting::{
    lemma_after_pop_orders, lemma_after_push_orders, lemma_root_ranks_first, lemma_root_replaced,
    lemma_swapped_permutes,
};
use crate::strategy::{lawful, Asc, Strategy};
use vstd::prelude::*;

verus! {

/// A binary heap. `pop` hands out the element that ranks first under the
/// heap's strategy; with `Asc` that is the smallest one.
///
/// The elements lie in one sequence, the root at position 0, the children of
/// position `p` at `2p + 1` and `2p + 2`, the parent of `p > 0` at
/// `(p - 1) / 2`. The view of a heap is that sequence.
///
/// Nothing here panics, whatever answers the strategy gives. What a call
/// does to the number of elements and to the elements is stated for every
/// strategy; where they end up is stated for a strategy whose `precedes`
/// computes its `le`; that they are served in order is stated for a lawful
/// one. A heap is not stable: of elements that tie, any may come first.
#[derive(Debug)]
pub struct BinHeap<T, S: Strategy<T> = Asc> {
    heap: Vec<T>,
    strategy: S,
}

impl<T, S: Strategy<T>> View for BinHeap<T, S> {
    type V = Seq<T>;

    closed spec fn view(&self) -> Seq<T> {
        self.heap@
    }
}

impl<T: Ord> BinHeap<T, Asc> {
    /// Creates a new empty heap that serves the smallest element first.
    pub fn new() -> (h: Self)
        ensures
            h@ == Seq::<T>::empty(),
            h.strategy() == Asc,
    {
        BinHeap { heap: Vec::new(), strategy: Asc }
    }
}

impl<T, S: Strategy<T>> BinHeap<T, S> {
    /// The strategy that the heap was made with.
    pub closed spec fn strategy(&self) -> S {
        self.strategy
    }

    /// Under a lawful strategy the heap property holds between calls.
    #[verifier::type_invariant]
    spec fn well_formed(&self) -> bool {
        lawful(self.strategy) ==> heap_ordered(self.heap@, self.strategy)
    }

    /// Creates a new empty heap that serves its elements as `strategy` ranks
    /// them.
    pub fn with_strategy(strategy: S) -> (h: Self)
        ensures
            h@ == Seq::<T>::empty(),
            h.strategy() == strategy,
    {
        BinHeap { heap: Vec::new(), strategy }
    }

    /// The number of elements.
    pub fn len(&self) -> (n: usize)
        ensures
            n == self@.len(),
    {
        self.heap.len()
    }

    /// Whether the heap holds no element.
    pub fn is_empty(&self) -> (b: bool)
        ensures
            b == (self@.len() == 0),
    {
        self.heap.is_empty()
    }

    /// Pushes a new element onto the heap: it goes to the end of the
    /// sequence and is sifted up from there.
    pub fn push(&mut self, element: T)
        ensures
            final(self).strategy() == old(self).strategy(),
            final(self)@.len() == old(self)@.len() + 1,
            final(self)@.to_multiset() == old(self)@.to_multiset().insert(element),
            old(self).strategy().faithful() ==> final(self)@ == after_push(
                old(self)@,
                old(self).strategy(),
                element,
            ),
            lawful(old(self).strategy()) ==> heap_ordered(final(self)@, old(self).strategy()),
    {
        proof {
            use_type_invariant(&*self);
            if lawful(self.strategy) {
                lemma_after_push_orders(self.heap@, self.strategy, element);
            }
            vstd::seq_lib::to_multiset_build(self.heap@, element);
        }
        let mut heap = Vec::new();
        core::mem::swap(&mut heap, &mut self.heap);
        let last: usize = heap.len();
        heap.push(element);
        let _ = Self::sift_up(&mut heap, &self.strategy, last);
        self.heap = heap;
    }

    /// Pops the element that ranks first, the root of the heap. Returns
    /// `None` if the heap is empty. The last element takes the root's place
    /// and is sifted down from there.
    pub fn pop(&mut self) -> (r: Option<T>)
        ensures
            final(self).strategy() == old(self).strategy(),
            r == root(old(self)@),
            old(self)@.len() == 0 ==> final(self)@ == old(self)@,
            old(self)@.len() > 0 ==> final(self)@.len() == old(self)@.len() - 1,
            old(self)@.len() > 0 ==> final(self)@.to_multiset() == old(self)@.to_multiset().remove(
                old(self)@[0],
            ),
            old(self).strategy().faithful() ==> final(self)@ == after_pop(
                old(self)@,
                old(self).strategy(),
            ),
            lawful(old(self).strategy()) ==> heap_ordered(final(self)@, old(self).strategy()),
            lawful(old(self).strategy()) ==> forall|i: int|
                0 <= i < old(self)@.len() ==> old(self).strategy().le(
                    old(self)@[0],
                    #[trigger] old(self)@[i],
                ),
    {
        proof {
            use_type_invariant(&*self);
            if lawful(self.strategy) {
                lemma_after_pop_orders(self.heap@, self.strategy);
                assert forall|i: int| 0 <= i < self.heap@.len() implies self.strategy.le(
                    self.heap@[0],
                    #[trigger] self.heap@[i],
                ) by {
                    lemma_root_ranks_first(self.heap@, self.strategy, i);
                }
            }
        }
        if self.heap.is_empty() {
            return None;
        }
        let mut heap = Vec::new();
        core::mem::swap(&mut heap, &mut self.heap);
        proof {
            lemma_root_replaced(heap@);
        }
        let first = heap.swap_remove(0);
        let _ = Self::sift_down(&mut heap, &self.strategy, 0);
        self.heap = heap;
        Some(first)
    }

    /// Returns a reference to the root, the element that the next `pop`
    /// hands out, or `None` if the heap is empty. No mutable reference can be
    /// had: a change to an element could break the heap property. To change
    /// the root, pop it, change it and push it back.
    pub fn min(&self) -> (r: Option<&T>)
        ensures
            r == (match root(self@) {
                Some(x) => Some(&x),
                None => None,
            }),
            lawful(self.strategy()) ==> heap_ordered(self@, self.strategy()),
            lawful(self.strategy()) ==> forall|i: int|
                0 <= i < self@.len() ==> self.strategy().le(self@[0], #[trigger] self@[i]),
    {
        proof {
            use_type_invariant(self);
            if lawful(self.strategy) {
                assert forall|i: int| 0 <= i < self.heap@.len() implies self.strategy.le(
                    self.heap@[0],
                    #[trigger] self.heap@[i],
                ) by {
                    lemma_root_ranks_first(self.heap@, self.strategy, i);
                }
            }
        }
        if self.heap.len() > 0 {
            Some(&self.heap[0])
        } else {
            None
        }
    }

    /// Exchanges the elements at `i` and `j`.
    fn swap(heap: &mut Vec<T>, i: usize, j: usize)
        requires
            i < j < old(heap).len(),
        ensures
            final(heap)@ == swapped(old(heap)@, i as int, j as int),
            final(heap)@.len() == old(heap)@.len(),
            final(heap)@.to_multiset() == old(heap)@.to_multiset(),
    {
        proof {
            lemma_swapped_permutes(heap@, i as int, j as int);
        }
        let (low, high) = heap.as_mut_slice().split_at_mut(j);
        core::mem::swap(&mut low[i], &mut high[0]);
        assert(heap@ =~= swapped(old(heap)@, i as int, j as int));
    }

    /// Takes the element at `node` and sifts it up: exchanges it with its
    /// parent for as long as it ranks before or equal to that parent. Hands
    /// back, for proofs alone, how many exchanges it made.
    fn sift_up(heap: &mut Vec<T>, strategy: &S, node: usize) -> (exchanges: Ghost<nat>)
        requires
            node < old(heap).len(),
        ensures
            final(heap)@.len() == old(heap)@.len(),
            final(heap)@.to_multiset() == old(heap)@.to_multiset(),
            exchanges@ <= depth(node as int),
            strategy.faithful() ==> final(heap)@ == sift_up(old(heap)@, *strategy, node as int),
            strategy.faithful() ==> exchanges@ == sift_up_exchanges(
                old(heap)@,
                *strategy,
                node as int,
            ),
    {
        let mut at: usize = node;
        let ghost mut made: nat = 0;
        while at > 0 && strategy.precedes(&heap[at], &heap[(at - 1) / 2])
            invariant
                at < heap.len(),
                heap@.len() == old(heap)@.len(),
                heap@.to_multiset() == old(heap)@.to_multiset(),
                made + depth(at as int) == depth(node as int),
                strategy.faithful() ==> sift_up(heap@, *strategy, at as int) == sift_up(
                    old(heap)@,
                    *strategy,
                    node as int,
                ),
                strategy.faithful() ==> made + sift_up_exchanges(heap@, *strategy, at as int)
                    == sift_up_exchanges(old(heap)@, *strategy, node as int),
            decreases at,
        {
            let up: usize = (at - 1) / 2;
            assert(swapped(heap@, up as int, at as int) =~= swapped(heap@, at as int, up as int));
            Self::swap(heap, up, at);
            at = up;
            proof {
                made = made + 1;
            }
        }
        Ghost(made)
    }

    /// Takes the element at `node` and sifts it down: exchanges it with the
    /// child that ranks first for as long as that child ranks before or equal
    /// to it. Hands back, for proofs alone, how many exchanges it made.
    fn sift_down(heap: &mut Vec<T>, strategy: &S, node: usize) -> (exchanges: Ghost<nat>)
        ensures
            final(heap)@.len() == old(heap)@.len(),
            final(heap)@.to_multiset() == old(heap)@.to_multiset(),
            node < old(heap)@.len() ==> depth(node as int) + exchanges@ <= depth(
                old(heap)@.len() - 1,
            ),
            node >= old(heap)@.len() ==> exchanges@ == 0,
            strategy.faithful() ==> final(heap)@ == sift_down(
                old(heap)@,
                *strategy,
                node as int,
            ),
            strategy.faithful() ==> exchanges@ == sift_down_exchanges(
                old(heap)@,
                *strategy,
                node as int,
            ),
    {
        let len: usize = heap.len();
        let mut at: usize = node;
        let ghost mut made: nat = 0;
        while at < len / 2
            invariant
                heap.len() == len,
                heap@.len() == old(heap)@.len(),
                heap@.to_multiset() == old(heap)@.to_multiset(),
                depth(node as int) + made == depth(at as int),
                made > 0 ==> at < len,
                made == 0 ==> at == node,
                at >= node,
                strategy.faithful() ==> sift_down(heap@, *strategy, at as int) == sift_down(
                    old(heap)@,
                    *strategy,
                    node as int,
                ),
                strategy.faithful() ==> made + sift_down_exchanges(heap@, *strategy, at as int)
                    == sift_down_exchanges(old(heap)@, *strategy, node as int),
            ensures
                heap@.len() == old(heap)@.len(),
                heap@.to_multiset() == old(heap)@.to_multiset(),
                depth(node as int) + made == depth(at as int),
                made > 0 ==> at < len,
                made == 0 ==> at == node,
                at >= node,
                strategy.faithful() ==> heap@ == sift_down(old(heap)@, *strategy, node as int),
                strategy.faithful() ==> made == sift_down_exchanges(
                    old(heap)@,
                    *strategy,
                    node as int,
                ),
            decreases len - at,
        {
            let left: usize = 2 * at + 1;
            let right: usize = left + 1;
            let other: usize = if right >= len || strategy.precedes(&heap[left], &heap[right]) {
                left
            } else {
                right
            };
            if !strategy.precedes(&heap[other], &heap[at]) {
                break ;
            }
            Self::swap(heap, at, other);
            at = other;
            proof {
                made = made + 1;
            }
        }
        proof {
            if node < len {
                lemma_depth_rises(at as int, len - 1);
            }
        }
        Ghost(made)
    }
}

} // verus!
