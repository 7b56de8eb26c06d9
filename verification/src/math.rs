//! Fixed-point arithmetic on eighteen-decimal ratios.
//!
//! A ratio is carried as its count of atomic units: the ratio `1` is
//! `DECIMAL_ONE` units. Ratios are made and multiplied by
//! `cosmwasm_std::Decimal`; the functions built on that state their results
//! over unbounded integers.
use vstd::prelude::*;

verus! {

/// Atomic units in the ratio `1`.
pub const DECIMAL_ONE: u128 = 1_000_000_000_000_000_000;

/// Atomic units of `numerator / denominator`, rounded down.
pub open spec fn ratio_of(numerator: nat, denominator: nat) -> nat {
    numerator * (DECIMAL_ONE as nat) / denominator
}

/// Atomic units of the product of two ratios, rounded down.
pub open spec fn product_of(a: nat, b: nat) -> nat {
    a * b / (DECIMAL_ONE as nat)
}

/// Whole part of a ratio.
pub open spec fn floor_of(a: nat) -> nat {
    a / (DECIMAL_ONE as nat)
}

/// Smallest whole number that is not below the ratio.
pub open spec fn ceil_of(a: nat) -> nat {
    if a == 0 {
        0
    } else {
        1 + ((a - 1) as nat) / (DECIMAL_ONE as nat)
    }
}

/// Atomic units of the inverse `1 / a`, rounded down.
pub open spec fn inverse_of(a: nat) -> nat {
    (DECIMAL_ONE as nat) * (DECIMAL_ONE as nat) / a
}

/// `amount` whole units valued at `price`, rounded down.
pub open spec fn value_floor_of(amount: nat, price: nat) -> nat {
    amount * price / (DECIMAL_ONE as nat)
}

/// `amount` whole units valued at `price`, rounded up.
pub open spec fn value_ceil_of(amount: nat, price: nat) -> nat {
    ceil_of(amount * price)
}

/// Whether `amount` whole units can be valued at `price` within 128 bits.
pub open spec fn value_fits(amount: nat, price: nat) -> bool {
    &&& amount * (DECIMAL_ONE as nat) <= u128::MAX
    &&& amount * price <= u128::MAX
}

/// `amount` whole units divided by `price`, rounded down.
pub open spec fn quotient_floor_of(amount: nat, price: nat) -> nat {
    floor_of(ratio_of(amount * (DECIMAL_ONE as nat), price))
}

/// Whether `amount` whole units can be divided by `price` within 128 bits.
pub open spec fn quotient_fits(amount: nat, price: nat) -> bool {
    &&& price != 0
    &&& amount * (DECIMAL_ONE as nat) <= u128::MAX
    &&& ratio_of(amount * (DECIMAL_ONE as nat), price) <= u128::MAX
}

/// Calls `cosmwasm_std::Decimal::checked_from_ratio`: the ratio of two whole
/// numbers in atomic units, rounded down; nothing when the denominator is zero
/// or the ratio does not fit 128 bits.
#[verifier::external_body]
pub(crate) fn decimal_from_ratio(numerator: u128, denominator: u128) -> (r: Option<u128>)
    ensures
        r == (if denominator != 0 && ratio_of(numerator as nat, denominator as nat) <= u128::MAX {
            Some(ratio_of(numerator as nat, denominator as nat) as u128)
        } else {
            None
        }),
{
    match cosmwasm_std::Decimal::checked_from_ratio(numerator, denominator) {
        Ok(d) => Some(d.atomics().u128()),
        Err(_) => None,
    }
}

/// Calls `cosmwasm_std::Decimal::checked_mul`: the product of two ratios,
/// rounded down; nothing when it does not fit 128 bits.
#[verifier::external_body]
pub(crate) fn decimal_mul(a: u128, b: u128) -> (r: Option<u128>)
    ensures
        r == (if product_of(a as nat, b as nat) <= u128::MAX {
            Some(product_of(a as nat, b as nat) as u128)
        } else {
            None
        }),
{
    match cosmwasm_std::Decimal::raw(a).checked_mul(cosmwasm_std::Decimal::raw(b)) {
        Ok(d) => Some(d.atomics().u128()),
        Err(_) => None,
    }
}

/// Atomic units in the ratio `1`, squared.
pub const DECIMAL_ONE_SQUARED: u128 = 1_000_000_000_000_000_000_000_000_000_000_000_000;

/// The inverse of a ratio, rounded down; nothing for zero.
pub(crate) fn decimal_inv(a: u128) -> (r: Option<u128>)
    ensures
        a == 0 ==> r.is_none(),
        a != 0 ==> r.is_some() && r.unwrap() as nat == inverse_of(a as nat),
{
    if a == 0 {
        None
    } else {
        proof {
            assert((DECIMAL_ONE as nat) * (DECIMAL_ONE as nat) == DECIMAL_ONE_SQUARED as nat) by (nonlinear_arith);
        }
        Some(DECIMAL_ONE_SQUARED / a)
    }
}

/// The whole part of a ratio.
pub(crate) fn decimal_floor(a: u128) -> (r: u128)
    ensures
        r == floor_of(a as nat),
{
    a / DECIMAL_ONE
}

/// A ratio rounded up to a whole number.
pub(crate) fn decimal_ceil(a: u128) -> (r: u128)
    ensures
        r == ceil_of(a as nat),
{
    if a == 0 {
        0
    } else {
        1 + (a - 1) / DECIMAL_ONE
    }
}

proof fn lemma_scaled_product(amount: nat, price: nat)
    ensures
        product_of(amount * (DECIMAL_ONE as nat), price) == amount * price,
        ratio_of(amount, 1) == amount * (DECIMAL_ONE as nat),
{
    let one = DECIMAL_ONE as nat;
    assert(amount * one * price == (amount * price) * one) by (nonlinear_arith);
    assert((amount * price) * one / one == amount * price) by (nonlinear_arith)
        requires
            one > 0,
    ;
}

/// The value of `amount` whole units at `price`, rounded down to whole units.
///
/// Nothing when an intermediate ratio leaves 128 bits.
pub fn value_floor(amount: u128, price: u128) -> (r: Option<u128>)
    ensures
        value_fits(amount as nat, price as nat) ==> r == Some(
            value_floor_of(amount as nat, price as nat) as u128,
        ),
        !value_fits(amount as nat, price as nat) ==> r.is_none(),
{
    proof {
        lemma_scaled_product(amount as nat, price as nat);
    }
    match decimal_from_ratio(amount, 1) {
        None => None,
        Some(scaled) => match decimal_mul(scaled, price) {
            None => None,
            Some(product) => Some(decimal_floor(product)),
        },
    }
}

/// The value of `amount` whole units at `price`, rounded up to whole units.
///
/// Nothing when an intermediate ratio leaves 128 bits.
pub fn value_ceil(amount: u128, price: u128) -> (r: Option<u128>)
    ensures
        value_fits(amount as nat, price as nat) ==> r == Some(
            value_ceil_of(amount as nat, price as nat) as u128,
        ),
        !value_fits(amount as nat, price as nat) ==> r.is_none(),
{
    proof {
        lemma_scaled_product(amount as nat, price as nat);
    }
    match decimal_from_ratio(amount, 1) {
        None => None,
        Some(scaled) => match decimal_mul(scaled, price) {
            None => None,
            Some(product) => Some(decimal_ceil(product)),
        },
    }
}

/// `amount` whole units divided by `price`, rounded down to whole units.
///
/// Nothing when the price is zero or an intermediate ratio leaves 128 bits.
pub fn quotient_floor(amount: u128, price: u128) -> (r: Option<u128>)
    ensures
        quotient_fits(amount as nat, price as nat) ==> r == Some(
            quotient_floor_of(amount as nat, price as nat) as u128,
        ),
        !quotient_fits(amount as nat, price as nat) ==> r.is_none(),
{
    proof {
        lemma_scaled_product(amount as nat, price as nat);
    }
    match decimal_from_ratio(amount, 1) {
        None => None,
        Some(scaled) => match decimal_from_ratio(scaled, price) {
            None => None,
            Some(ratio) => Some(decimal_floor(ratio)),
        },
    }
}

/// The inverse of a ratio, rounded down; nothing for zero.
pub fn invert(rate: u128) -> (r: Option<u128>)
    ensures
        rate == 0 ==> r.is_none(),
        rate != 0 ==> r.is_some() && r.unwrap() as nat == inverse_of(rate as nat),
{
    decimal_inv(rate)
}

} // verus!
