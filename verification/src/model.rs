//! The heap as mathematics: a sequence read as a complete binary tree, and
//! what `push` and `pop` do to it.

use crate::strategy::Strategy;
use vstd::prelude::*;

verus! {

/// Position of the parent of position `i`, for `i > 0`.
pub open spec fn parent(i: int) -> int {
    (i - 1) / 2
}

/// Position of the first child of position `i`.
pub open spec fn left_child(i: int) -> int {
    2 * i + 1
}

/// Position of the second child of position `i`.
pub open spec fn right_child(i: int) -> int {
    2 * i + 2
}

/// `s` with the elements at `i` and `j` exchanged.
pub open spec fn swapped<T>(s: Seq<T>, i: int, j: int) -> Seq<T> {
    s.update(i, s[j]).update(j, s[i])
}

/// The element at `i` ranks before or equal to each child it has.
pub open spec fn node_ordered<T, S: Strategy<T>>(s: Seq<T>, ord: S, i: int) -> bool {
    &&& left_child(i) < s.len() ==> ord.le(s[i], s[left_child(i)])
    &&& right_child(i) < s.len() ==> ord.le(s[i], s[right_child(i)])
}

/// The heap property: every position ranks before or equal to its children.
pub open spec fn heap_ordered<T, S: Strategy<T>>(s: Seq<T>, ord: S) -> bool {
    forall|i: int| 0 <= i < s.len() ==> #[trigger] node_ordered(s, ord, i)
}

/// The element that is served next, if there is one.
pub open spec fn root<T>(s: Seq<T>) -> Option<T> {
    if s.len() > 0 {
        Some(s[0])
    } else {
        None
    }
}

/// Moves the element at `i` towards the root for as long as it ranks before
/// or equal to its parent. An element that ties with its parent still moves.
pub open spec fn sift_up<T, S: Strategy<T>>(s: Seq<T>, ord: S, i: int) -> Seq<T>
    decreases i,
{
    if 0 < i < s.len() && ord.le(s[i], s[parent(i)]) {
        sift_up(swapped(s, i, parent(i)), ord, parent(i))
    } else {
        s
    }
}

/// The child of `i` that ranks first; the left one where the two tie or
/// where it is the only one. Meaningful where `i` has a child.
pub open spec fn favoured_child<T, S: Strategy<T>>(s: Seq<T>, ord: S, i: int) -> int {
    if right_child(i) >= s.len() || ord.le(s[left_child(i)], s[right_child(i)]) {
        left_child(i)
    } else {
        right_child(i)
    }
}

/// Moves the element at `i` away from the root for as long as its favoured
/// child ranks before or equal to it. An element that ties with that child
/// still moves.
pub open spec fn sift_down<T, S: Strategy<T>>(s: Seq<T>, ord: S, i: int) -> Seq<T>
    decreases s.len() - i,
{
    if 0 <= i && left_child(i) < s.len() {
        let c = favoured_child(s, ord, i);
        if ord.le(s[c], s[i]) {
            sift_down(swapped(s, i, c), ord, c)
        } else {
            s
        }
    } else {
        s
    }
}

/// The number of positions on the way from `i` up to the root, `i` itself
/// left out: the depth of `i` in the tree.
pub open spec fn depth(i: int) -> nat
    decreases i,
{
    if i <= 0 {
        0
    } else {
        1 + depth(parent(i))
    }
}

/// The number of exchanges that `sift_up` from `i` makes.
pub open spec fn sift_up_exchanges<T, S: Strategy<T>>(s: Seq<T>, ord: S, i: int) -> nat
    decreases i,
{
    if 0 < i < s.len() && ord.le(s[i], s[parent(i)]) {
        1 + sift_up_exchanges(swapped(s, i, parent(i)), ord, parent(i))
    } else {
        0
    }
}

/// The number of exchanges that `sift_down` from `i` makes.
pub open spec fn sift_down_exchanges<T, S: Strategy<T>>(s: Seq<T>, ord: S, i: int) -> nat
    decreases s.len() - i,
{
    if 0 <= i && left_child(i) < s.len() {
        let c = favoured_child(s, ord, i);
        if ord.le(s[c], s[i]) {
            1 + sift_down_exchanges(swapped(s, i, c), ord, c)
        } else {
            0
        }
    } else {
        0
    }
}

/// The heap after `e` was pushed: `e` goes to the end and is sifted up.
pub open spec fn after_push<T, S: Strategy<T>>(s: Seq<T>, ord: S, e: T) -> Seq<T> {
    sift_up(s.push(e), ord, s.len() as int)
}

/// The heap after a pop: the last element takes the root's place and is
/// sifted down. An empty heap stays as it is.
pub open spec fn after_pop<T, S: Strategy<T>>(s: Seq<T>, ord: S) -> Seq<T> {
    if s.len() == 0 {
        s
    } else {
        sift_down(s.update(0, s.last()).drop_last(), ord, 0)
    }
}

/// The number of exchanges that a push of `e` makes.
pub open spec fn push_exchanges<T, S: Strategy<T>>(s: Seq<T>, ord: S, e: T) -> nat {
    sift_up_exchanges(s.push(e), ord, s.len() as int)
}

/// The number of exchanges that a pop makes.
pub open spec fn pop_exchanges<T, S: Strategy<T>>(s: Seq<T>, ord: S) -> nat {
    if s.len() == 0 {
        0
    } else {
        sift_down_exchanges(s.update(0, s.last()).drop_last(), ord, 0)
    }
}

/// One call on a heap that changes it.
pub enum Step<T> {
    /// `push` with this element.
    Push(T),
    /// `pop`.
    Pop,
}

/// The heap after the calls in `steps` were made on it, first to last.
pub open spec fn after_steps<T, S: Strategy<T>>(s: Seq<T>, ord: S, steps: Seq<Step<T>>) -> Seq<T>
    decreases steps.len(),
{
    if steps.len() == 0 {
        s
    } else {
        let before = after_steps(s, ord, steps.drop_last());
        match steps.last() {
            Step::Push(e) => after_push(before, ord, e),
            Step::Pop => after_pop(before, ord),
        }
    }
}

/// The heap after each element of `items` was pushed, first to last.
pub open spec fn after_pushes<T, S: Strategy<T>>(s: Seq<T>, ord: S, items: Seq<T>) -> Seq<T>
    decreases items.len(),
{
    if items.len() == 0 {
        s
    } else {
        after_push(after_pushes(s, ord, items.drop_last()), ord, items.last())
    }
}

/// The heap after `n` pops.
pub open spec fn after_pops<T, S: Strategy<T>>(s: Seq<T>, ord: S, n: nat) -> Seq<T>
    decreases n,
{
    if n == 0 {
        s
    } else {
        after_pops(after_pop(s, ord), ord, (n - 1) as nat)
    }
}

/// The elements that up to `n` pops hand out, in the order they come.
pub open spec fn popped<T, S: Strategy<T>>(s: Seq<T>, ord: S, n: nat) -> Seq<T>
    decreases n,
{
    if n == 0 || s.len() == 0 {
        Seq::empty()
    } else {
        seq![s[0]] + popped(after_pop(s, ord), ord, (n - 1) as nat)
    }
}

/// The elements that popping until the heap is empty hands out.
pub open spec fn drained<T, S: Strategy<T>>(s: Seq<T>, ord: S) -> Seq<T> {
    popped(s, ord, s.len())
}

/// The elements of `items` in the order in which a new heap hands them out
/// once all of them were pushed, first to last.
pub open spec fn served<T, S: Strategy<T>>(ord: S, items: Seq<T>) -> Seq<T> {
    drained(after_pushes(Seq::empty(), ord, items), ord)
}

/// The relation by which `ord` ranks, as a function of two elements.
pub open spec fn ranking<T, S: Strategy<T>>(ord: S) -> spec_fn(T, T) -> bool {
    |a: T, b: T| ord.le(a, b)
}

/// No two different elements tie under `ord`.
pub open spec fn tie_free<T, S: Strategy<T>>(ord: S) -> bool {
    forall|a: T, b: T| #[trigger] ord.le(a, b) && ord.le(b, a) ==> a == b
}

} // verus!
