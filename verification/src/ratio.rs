//! Parts-per-billion ratios, computed by `sp_runtime::Perbill`.

use vstd::prelude::*;

verus! {

/// The number of parts that make one whole.
pub const BILLION: u32 = 1_000_000_000;

/// The parts per billion that stand for the fraction `p / q`, rounded down.
/// A fraction that is no fraction of a whole (`q` zero, or `p` above `q`) counts as one whole.
pub open spec fn ratio_of(p: u128, q: u128) -> u32 {
    if q == 0 || p > q {
        BILLION
    } else {
        ((p as int * BILLION as int) / (q as int)) as u32
    }
}

/// `x` scaled by `parts` per billion, rounded to the nearest integer, half-way cases down.
/// More than a billion parts count as a billion.
pub open spec fn scaled_by(parts: u32, x: u128) -> u128 {
    let p: int = if parts > BILLION { BILLION as int } else { parts as int };
    let b: int = BILLION as int;
    let rem: int = (x as int) % b;
    let bump: int = if (rem * p) % b > b / 2 { 1 } else { 0 };
    (((x as int) / b) * p + (rem * p) / b + bump) as u128
}

/// Calls `Perbill::from_rational` on two balances and hands back the parts of the result.
/// The contract repeats what that function computes for 128-bit arguments: the floor of
/// `p * 10^9 / q`, and one whole where `q` is zero or `p` exceeds `q`.
#[verifier::external_body]
pub(crate) fn perbill_from_rational(p: u128, q: u128) -> (parts: u32)
    ensures
        parts == ratio_of(p, q),
{
    sp_runtime::Perbill::from_rational(p, q).deconstruct()
}

/// Calls `Perbill::from_parts` and then the `Mul` operator of `Perbill` on a balance.
/// The contract repeats what the two compute: parts above a billion are cut to a billion,
/// and the product is rounded to the nearest integer, half-way cases down.
#[verifier::external_body]
pub(crate) fn perbill_mul(parts: u32, x: u128) -> (r: u128)
    ensures
        r == scaled_by(parts, x),
{
    sp_runtime::Perbill::from_parts(parts) * x
}

/// The share `p / q` of `x`.
pub fn share_of(p: u128, q: u128, x: u128) -> (r: u128)
    ensures
        r == scaled_by(ratio_of(p, q), x),
{
    let parts: u32 = perbill_from_rational(p, q);
    perbill_mul(parts, x)
}

} // verus!
