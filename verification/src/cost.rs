//! How far an element can travel when it is sifted: no further than the
//! tree is deep, and the depth is the logarithm of the size.

use crate::model::{
    depth, favoured_child, left_child, parent, pop_exchanges, push_exchanges,
    sift_down_exchanges, sift_up_exchanges, swapped,
};
use crate::strategy::Strategy;
use vstd::arithmetic::power2::{lemma_pow2_unfold, pow2};
use vstd::prelude::*;

verus! {

/// The depth of position `i` is the logarithm of `i + 1`, rounded down.
pub proof fn lemma_depth_is_logarithm(i: int)
    requires
        0 <= i,
    ensures
        pow2(depth(i)) <= i + 1 < pow2(depth(i) + 1),
    decreases i,
{
    lemma_pow2_unfold(depth(i) + 1);
    if i == 0 {
        vstd::arithmetic::power2::lemma2_to64();
    } else {
        lemma_depth_is_logarithm(parent(i));
        lemma_pow2_unfold(depth(i));
    }
}

/// A position further on in the sequence lies no higher in the tree.
pub proof fn lemma_depth_rises(i: int, j: int)
    requires
        0 <= i <= j,
    ensures
        depth(i) <= depth(j),
    decreases j,
{
    if i > 0 {
        lemma_depth_rises(parent(i), parent(j));
    }
}

/// Sifting up from `i` makes at most as many exchanges as `i` is deep.
pub proof fn lemma_sift_up_is_short<T, S: Strategy<T>>(s: Seq<T>, ord: S, i: int)
    ensures
        sift_up_exchanges(s, ord, i) <= depth(i),
    decreases i,
{
    if 0 < i < s.len() && ord.le(s[i], s[parent(i)]) {
        lemma_sift_up_is_short(swapped(s, i, parent(i)), ord, parent(i));
    }
}

/// Sifting down from `i` makes at most as many exchanges as the last
/// position is deeper than `i`.
pub proof fn lemma_sift_down_is_short<T, S: Strategy<T>>(s: Seq<T>, ord: S, i: int)
    requires
        0 <= i < s.len(),
    ensures
        depth(i) + sift_down_exchanges(s, ord, i) <= depth(s.len() - 1),
    decreases s.len() - i,
{
    if left_child(i) < s.len() && ord.le(s[favoured_child(s, ord, i)], s[i]) {
        let c = favoured_child(s, ord, i);
        lemma_sift_down_is_short(swapped(s, i, c), ord, c);
    } else {
        lemma_depth_rises(i, s.len() - 1);
    }
}

/// A push onto a heap of `n` elements makes at most `log2(n + 1)` exchanges,
/// a pop from it at most `log2(n - 1)`, both rounded down.
pub proof fn lemma_push_and_pop_are_short<T, S: Strategy<T>>(s: Seq<T>, ord: S, e: T)
    ensures
        pow2(push_exchanges(s, ord, e)) <= s.len() + 1,
        s.len() > 1 ==> pow2(pop_exchanges(s, ord)) <= s.len() - 1,
        s.len() <= 1 ==> pop_exchanges(s, ord) == 0,
{
    let n = s.len() as int;
    lemma_sift_up_is_short(s.push(e), ord, n);
    lemma_depth_is_logarithm(n);
    lemma_pow2_rises(push_exchanges(s, ord, e), depth(n));
    if n > 1 {
        let t = s.update(0, s.last()).drop_last();
        lemma_sift_down_is_short(t, ord, 0);
        lemma_depth_is_logarithm(n - 2);
        lemma_pow2_rises(pop_exchanges(s, ord), depth(n - 2));
    }
}

/// A greater exponent gives no smaller power of two.
proof fn lemma_pow2_rises(a: nat, b: nat)
    requires
        a <= b,
    ensures
        pow2(a) <= pow2(b),
{
    if a < b {
        vstd::arithmetic::power2::lemma_pow2_strictly_increases(a, b);
    }
}

} // verus!
