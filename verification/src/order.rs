//! The strict total order that keys are compared by.

use core::cmp::Ordering;
use vstd::laws_cmp::obeys_cmp;
use vstd::laws_eq::obeys_concrete_eq;
use vstd::prelude::*;
use vstd::std_specs::cmp::{OrdSpec, PartialEqSpec, PartialOrdSpec};

verus! {

/// `a` is ordered strictly before `b`.
pub open spec fn lt<T: Ord>(a: T, b: T) -> bool {
    a.partial_cmp_spec(&b) == Some(Ordering::Less)
}

/// The comparison operators of `T` follow one strict total order, and two
/// keys compare equal exactly when they are the same value. This is what
/// every operation that compares keys asks of them; for the integer types
/// [`lemma_integer_keys`] shows it.
pub open spec fn total_order<T: Ord>() -> bool {
    obeys_cmp::<T>() && obeys_concrete_eq::<T>()
}

/// Under `total_order`, `lt` is irreflexive, asymmetric, transitive and
/// connected.
pub proof fn lemma_total_order<T: Ord>()
    requires
        total_order::<T>(),
    ensures
        forall|a: T| !#[trigger] lt(a, a),
        forall|a: T, b: T| #[trigger] lt(a, b) ==> !lt(b, a),
        forall|a: T, b: T| #![trigger lt(a, b)] lt(a, b) || a == b || lt(b, a),
        forall|a: T, b: T, c: T| #[trigger] lt(a, b) && #[trigger] lt(b, c) ==> lt(a, c),
{
    lemma_operators::<T>();
    reveal(vstd::laws_cmp::obeys_partial_cmp_spec_properties);
    reveal(vstd::laws_cmp::obeys_cmp_partial_ord);
    reveal(vstd::laws_cmp::obeys_cmp_ord);
    reveal(vstd::laws_eq::obeys_concrete_eq);
    reveal(vstd::laws_eq::obeys_eq_spec_properties);
    assert forall|a: T, b: T| #![trigger lt(a, b)] lt(a, b) || a == b || lt(b, a) by {
        let o = a.cmp_spec(&b);
        assert(a.partial_cmp_spec(&b) == Some(o));
    }
}

/// Under `total_order`, the operators `<`, `>` and `==` of `T` compute `lt`
/// and equality of values.
pub proof fn lemma_operators<T: Ord>()
    requires
        total_order::<T>(),
    ensures
        T::obeys_eq_spec(),
        T::obeys_partial_cmp_spec(),
        forall|a: T, b: T| #[trigger] a.eq_spec(&b) <==> a == b,
        forall|a: T, b: T|
            #[trigger] a.partial_cmp_spec(&b) == Some(Ordering::Less) <==> lt(a, b),
        forall|a: T, b: T|
            #[trigger] a.partial_cmp_spec(&b) == Some(Ordering::Greater) <==> lt(b, a),
{
    reveal(vstd::laws_cmp::obeys_partial_cmp_spec_properties);
    reveal(vstd::laws_cmp::obeys_cmp_partial_ord);
    reveal(vstd::laws_eq::obeys_concrete_eq);
}

/// The integer types are totally ordered, and `lt` is their `<`.
pub proof fn lemma_integer_keys()
    ensures
        total_order::<u8>(),
        total_order::<u16>(),
        total_order::<u32>(),
        total_order::<u64>(),
        total_order::<u128>(),
        total_order::<usize>(),
        total_order::<i8>(),
        total_order::<i16>(),
        total_order::<i32>(),
        total_order::<i64>(),
        total_order::<i128>(),
        total_order::<isize>(),
        forall|a: u8, b: u8| #[trigger] lt(a, b) <==> a < b,
        forall|a: u16, b: u16| #[trigger] lt(a, b) <==> a < b,
        forall|a: u32, b: u32| #[trigger] lt(a, b) <==> a < b,
        forall|a: u64, b: u64| #[trigger] lt(a, b) <==> a < b,
        forall|a: u128, b: u128| #[trigger] lt(a, b) <==> a < b,
        forall|a: usize, b: usize| #[trigger] lt(a, b) <==> a < b,
        forall|a: i8, b: i8| #[trigger] lt(a, b) <==> a < b,
        forall|a: i16, b: i16| #[trigger] lt(a, b) <==> a < b,
        forall|a: i32, b: i32| #[trigger] lt(a, b) <==> a < b,
        forall|a: i64, b: i64| #[trigger] lt(a, b) <==> a < b,
        forall|a: i128, b: i128| #[trigger] lt(a, b) <==> a < b,
        forall|a: isize, b: isize| #[trigger] lt(a, b) <==> a < b,
{
    broadcast use vstd::laws_cmp::group_laws_cmp;
    broadcast use vstd::laws_eq::group_laws_eq;

}

} // verus!
