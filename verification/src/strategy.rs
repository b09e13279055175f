//! The order in which a heap serves its elements.

use std::cmp::Ordering;
use vstd::laws_cmp::{
    obeys_cmp, obeys_cmp_ord, obeys_cmp_partial_ord, obeys_partial_cmp_spec_properties,
};
use vstd::laws_eq::obeys_eq_spec_properties;
use vstd::prelude::*;
use vstd::std_specs::cmp::{OrdSpec, PartialOrdSpec};

verus! {

/// Decides which of two elements a heap serves first.
///
/// A strategy ranks the elements of `T` by a relation `le`, and `precedes`
/// computes that relation. Only `precedes` has to be written; a strategy
/// that says nothing of `le` and `faithful` can be used, and nothing is
/// known of the order in which a heap with it serves.
pub trait Strategy<T> {
    /// Whether `a` ranks before `b` or equal to it. Unless a strategy says
    /// otherwise, every element ranks equal to every other.
    open spec fn le(&self, a: T, b: T) -> bool {
        true
    }

    /// Whether `precedes` computes `le`. Unless a strategy says otherwise,
    /// it does not.
    open spec fn faithful(&self) -> bool {
        false
    }

    /// Says whether `a` ranks before `b` or equal to it.
    fn precedes(&self, a: &T, b: &T) -> (r: bool)
        ensures
            self.faithful() ==> r == self.le(*a, *b),
    ;
}

/// What a heap needs of its strategy to serve in order: `precedes` computes
/// `le`, and `le` is a total preorder, which is to say that any two elements
/// are related one way or the other and that the relation chains. Elements
/// may tie.
pub open spec fn lawful<T, S: Strategy<T>>(ord: S) -> bool {
    &&& ord.faithful()
    &&& forall|a: T, b: T| #![trigger ord.le(a, b)] ord.le(a, b) || ord.le(b, a)
    &&& forall|a: T, b: T, c: T|
        #![trigger ord.le(a, b), ord.le(b, c)]
        ord.le(a, b) && ord.le(b, c) ==> ord.le(a, c)
}

/// Under a lawful strategy any two elements are related one way or the
/// other.
pub proof fn lemma_total<T, S: Strategy<T>>(ord: S, a: T, b: T)
    requires
        lawful(ord),
    ensures
        ord.le(a, b) || ord.le(b, a),
{
}

/// Under a lawful strategy the relation chains.
pub proof fn lemma_transitive<T, S: Strategy<T>>(ord: S, a: T, b: T, c: T)
    requires
        lawful(ord),
        ord.le(a, b),
        ord.le(b, c),
    ensures
        ord.le(a, c),
{
}

/// The natural order of the elements: the smallest is served first.
#[derive(Clone, Copy, Debug)]
pub struct Asc;

/// The reverse of the natural order: the greatest is served first.
#[derive(Clone, Copy, Debug)]
pub struct Desc;

impl<T: Ord> Strategy<T> for Asc {
    open spec fn le(&self, a: T, b: T) -> bool {
        a.cmp_spec(&b) != Ordering::Greater
    }

    open spec fn faithful(&self) -> bool {
        T::obeys_cmp_spec()
    }

    fn precedes(&self, a: &T, b: &T) -> (r: bool) {
        match a.cmp(b) {
            Ordering::Greater => false,
            _ => true,
        }
    }
}

impl<T: Ord> Strategy<T> for Desc {
    open spec fn le(&self, a: T, b: T) -> bool {
        b.cmp_spec(&a) != Ordering::Greater
    }

    open spec fn faithful(&self) -> bool {
        T::obeys_cmp_spec()
    }

    fn precedes(&self, a: &T, b: &T) -> (r: bool) {
        match b.cmp(a) {
            Ordering::Greater => false,
            _ => true,
        }
    }
}

/// `Desc` ranks as `Asc` does with the two elements exchanged, so that the
/// one is lawful where the other is.
pub proof fn lemma_desc_reverses_asc<T: Ord>()
    ensures
        forall|a: T, b: T| #![trigger Desc.le(a, b)] Desc.le(a, b) == Asc.le(b, a),
        lawful::<T, Desc>(Desc) == lawful::<T, Asc>(Asc),
{
    if lawful::<T, Asc>(Asc) {
        assert forall|a: T, b: T| #![trigger Desc.le(a, b)] Desc.le(a, b) || Desc.le(b, a) by {
            lemma_total(Asc, a, b);
        }
        assert forall|a: T, b: T, c: T|
            #![trigger Desc.le(a, b), Desc.le(b, c)]
            Desc.le(a, b) && Desc.le(b, c) implies Desc.le(a, c) by {
            lemma_transitive(Asc, c, b, a);
        }
    }
    if lawful::<T, Desc>(Desc) {
        assert forall|a: T, b: T| #![trigger Asc.le(a, b)] Asc.le(a, b) || Asc.le(b, a) by {
            lemma_total(Desc, a, b);
        }
        assert forall|a: T, b: T, c: T|
            #![trigger Asc.le(a, b), Asc.le(b, c)]
            Asc.le(a, b) && Asc.le(b, c) implies Asc.le(a, c) by {
            lemma_transitive(Desc, c, b, a);
        }
    }
}

/// A type whose comparison keeps the laws that vstd states of `Ord` can be
/// served in its natural order and in the reverse of it.
pub proof fn lemma_ord_laws_make_lawful<T: Ord>()
    requires
        obeys_cmp::<T>(),
    ensures
        lawful::<T, Asc>(Asc),
        lawful::<T, Desc>(Desc),
{
    reveal(obeys_cmp_ord);
    reveal(obeys_cmp_partial_ord);
    reveal(obeys_partial_cmp_spec_properties);
    reveal(obeys_eq_spec_properties);
    assert forall|a: T, b: T| #![trigger Asc.le(a, b)] Asc.le(a, b) || Asc.le(b, a) by {
        assert(a.partial_cmp_spec(&b) == Some(a.cmp_spec(&b)));
        assert(b.partial_cmp_spec(&a) == Some(b.cmp_spec(&a)));
    }
    assert forall|a: T, b: T, c: T|
        #![trigger Asc.le(a, b), Asc.le(b, c)]
        Asc.le(a, b) && Asc.le(b, c) implies Asc.le(a, c) by {
        assert(a.partial_cmp_spec(&b) == Some(a.cmp_spec(&b)));
        assert(b.partial_cmp_spec(&c) == Some(b.cmp_spec(&c)));
        assert(a.partial_cmp_spec(&c) == Some(a.cmp_spec(&c)));
    }
    lemma_desc_reverses_asc::<T>();
}

} // verus!
