//! Numeric conversions across the storage boundary.
//!
//! Versions are 64-bit unsigned integers, but the backend stores them as
//! arbitrary-precision decimals. The widen/narrow pair below is lossless on
//! `[0, 2^64)`; narrowing a decimal outside that range is excluded by
//! contract, where the underlying conversion would give nothing back.

use vstd::prelude::*;

verus! {

#[verifier::external_type_specification]
#[verifier::external_body]
pub struct ExBigDecimal(bigdecimal::BigDecimal);

/// The exact `u64` a decimal stands for, when it stands for one.
pub uninterp spec fn decimal_u64_value(d: bigdecimal::BigDecimal) -> Option<u64>;

/// Relies on bigdecimal's `FromPrimitive::from_u64`, which builds a decimal
/// holding exactly the given integer (it returns `Some(BigDecimal::from(n))`
/// for every `u64`).
#[verifier::external_body]
pub fn u64_to_bigdecimal(val: u64) -> (r: bigdecimal::BigDecimal)
    ensures
        decimal_u64_value(r) == Some(val),
{
    <bigdecimal::BigDecimal as bigdecimal::FromPrimitive>::from_u64(val)
        .expect("Unable to convert u64 to big decimal")
}

/// Relies on bigdecimal's `ToPrimitive::to_u64`, which narrows a
/// non-negative integral decimal back to the `u64` it holds and gives
/// nothing back otherwise; decimals holding no `u64` are excluded here.
#[verifier::external_body]
pub fn bigdecimal_to_u64(val: &bigdecimal::BigDecimal) -> (r: u64)
    requires
        decimal_u64_value(*val) is Some,
    ensures
        decimal_u64_value(*val) == Some(r),
{
    <bigdecimal::BigDecimal as bigdecimal::ToPrimitive>::to_u64(val)
        .expect("Unable to convert big decimal to u64")
}

} // verus!
