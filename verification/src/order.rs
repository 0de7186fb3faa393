//! The order on the elements of a heap.
//!
//! A heap compares its elements with the comparison operators of `Ord`. What
//! the library proves of a heap rests on that order being total: the predicate
//! [`total_order`] says so, and the functions that compare elements ask for it.

use std::cmp::Ordering;
use vstd::prelude::*;
use vstd::std_specs::cmp::PartialOrdSpec;

verus! {

/// `a` is at most `b`.
pub open spec fn le<T: Ord>(a: T, b: T) -> bool {
    a.partial_cmp_spec(&b) matches Some(Ordering::Less | Ordering::Equal)
}

/// `a` is strictly greater than `b`: what `a > b` computes.
pub open spec fn gt<T: Ord>(a: T, b: T) -> bool {
    a.partial_cmp_spec(&b) == Some(Ordering::Greater)
}

/// The comparison operators of `T` compute a total order: any two values can
/// be compared, one of them is at most the other, and `le` is transitive.
pub open spec fn total_order<T: Ord>() -> bool {
    &&& T::obeys_partial_cmp_spec()
    &&& forall|a: T, b: T| (#[trigger] a.partial_cmp_spec(&b)) is Some
    &&& forall|a: T, b: T| #[trigger] le(a, b) || le(b, a)
    &&& forall|a: T, b: T, c: T| #[trigger] le(a, b) && #[trigger] le(b, c) ==> le(a, c)
}

/// In a total order every value is at most itself.
pub proof fn lemma_le_reflexive<T: Ord>(a: T)
    requires
        total_order::<T>(),
    ensures
        le(a, a),
{
    assert(le(a, a) || le(a, a));
}

/// In a total order `a > b` holds exactly where `a <= b` fails, and then
/// `b <= a`.
pub proof fn lemma_gt_is_not_le<T: Ord>(a: T, b: T)
    requires
        total_order::<T>(),
    ensures
        gt(a, b) <==> !le(a, b),
        gt(a, b) ==> le(b, a),
{
    assert(a.partial_cmp_spec(&b) is Some);
    assert(le(a, b) || le(b, a));
}

/// The order of `u8` is total, and `le` is its `<=`.
pub proof fn lemma_total_order_u8()
    ensures
        total_order::<u8>(),
        forall|a: u8, b: u8| #[trigger] le(a, b) <==> a <= b,
        forall|a: u8, b: u8| #[trigger] gt(a, b) <==> a > b,
{
}

/// The order of `u16` is total, and `le` is its `<=`.
pub proof fn lemma_total_order_u16()
    ensures
        total_order::<u16>(),
        forall|a: u16, b: u16| #[trigger] le(a, b) <==> a <= b,
        forall|a: u16, b: u16| #[trigger] gt(a, b) <==> a > b,
{
}

/// The order of `u32` is total, and `le` is its `<=`.
pub proof fn lemma_total_order_u32()
    ensures
        total_order::<u32>(),
        forall|a: u32, b: u32| #[trigger] le(a, b) <==> a <= b,
        forall|a: u32, b: u32| #[trigger] gt(a, b) <==> a > b,
{
}

/// The order of `u64` is total, and `le` is its `<=`.
pub proof fn lemma_total_order_u64()
    ensures
        total_order::<u64>(),
        forall|a: u64, b: u64| #[trigger] le(a, b) <==> a <= b,
        forall|a: u64, b: u64| #[trigger] gt(a, b) <==> a > b,
{
}

/// The order of `u128` is total, and `le` is its `<=`.
pub proof fn lemma_total_order_u128()
    ensures
        total_order::<u128>(),
        forall|a: u128, b: u128| #[trigger] le(a, b) <==> a <= b,
        forall|a: u128, b: u128| #[trigger] gt(a, b) <==> a > b,
{
}

/// The order of `usize` is total, and `le` is its `<=`.
pub proof fn lemma_total_order_usize()
    ensures
        total_order::<usize>(),
        forall|a: usize, b: usize| #[trigger] le(a, b) <==> a <= b,
        forall|a: usize, b: usize| #[trigger] gt(a, b) <==> a > b,
{
}

/// The order of `i8` is total, and `le` is its `<=`.
pub proof fn lemma_total_order_i8()
    ensures
        total_order::<i8>(),
        forall|a: i8, b: i8| #[trigger] le(a, b) <==> a <= b,
        forall|a: i8, b: i8| #[trigger] gt(a, b) <==> a > b,
{
}

/// The order of `i16` is total, and `le` is its `<=`.
pub proof fn lemma_total_order_i16()
    ensures
        total_order::<i16>(),
        forall|a: i16, b: i16| #[trigger] le(a, b) <==> a <= b,
        forall|a: i16, b: i16| #[trigger] gt(a, b) <==> a > b,
{
}

/// The order of `i32` is total, and `le` is its `<=`.
pub proof fn lemma_total_order_i32()
    ensures
        total_order::<i32>(),
        forall|a: i32, b: i32| #[trigger] le(a, b) <==> a <= b,
        forall|a: i32, b: i32| #[trigger] gt(a, b) <==> a > b,
{
}

/// The order of `i64` is total, and `le` is its `<=`.
pub proof fn lemma_total_order_i64()
    ensures
        total_order::<i64>(),
        forall|a: i64, b: i64| #[trigger] le(a, b) <==> a <= b,
        forall|a: i64, b: i64| #[trigger] gt(a, b) <==> a > b,
{
}

/// The order of `i128` is total, and `le` is its `<=`.
pub proof fn lemma_total_order_i128()
    ensures
        total_order::<i128>(),
        forall|a: i128, b: i128| #[trigger] le(a, b) <==> a <= b,
        forall|a: i128, b: i128| #[trigger] gt(a, b) <==> a > b,
{
}

/// The order of `isize` is total, and `le` is its `<=`.
pub proof fn lemma_total_order_isize()
    ensures
        total_order::<isize>(),
        forall|a: isize, b: isize| #[trigger] le(a, b) <==> a <= b,
        forall|a: isize, b: isize| #[trigger] gt(a, b) <==> a > b,
{
}

} // verus!
