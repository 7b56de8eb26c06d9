//! Rounding of rates to a number of significant figures.
use crate::math::ceil_of;
use crate::math::decimal_from_ratio;
use crate::math::decimal_ceil;
use crate::math::floor_of;
use crate::math::ratio_of;
use vstd::prelude::*;

verus! {

/// A rounding granularity: the number of significant figures that a fixed
/// price may have.
#[derive(Clone, Copy, Debug, PartialEq, Eq, Structural)]
pub struct Tick {
    pub size: u8,
}

/// The number of decimal digits of `v`; zero has one.
pub open spec fn digits_of(v: nat) -> nat
    decreases v,
{
    if v < 10 {
        1
    } else {
        1 + digits_of(v / 10)
    }
}

/// `10` to the power `k`.
pub open spec fn pow10_of(k: nat) -> nat
    decreases k,
{
    if k == 0 {
        1
    } else {
        10 * pow10_of((k - 1) as nat)
    }
}

/// The weight of the last significant figure that a tick of `size` figures
/// leaves to `v`.
pub open spec fn unit_of(size: nat, v: nat) -> nat {
    pow10_of((digits_of(v) - size) as nat)
}

/// `v` cut down to `size` significant figures.
pub open spec fn floor_to_tick(size: nat, v: nat) -> nat {
    floor_of(ratio_of(v, unit_of(size, v))) * unit_of(size, v)
}

/// `v` raised to `size` significant figures.
pub open spec fn ceil_to_tick(size: nat, v: nat) -> nat {
    ceil_of(ratio_of(v, unit_of(size, v))) * unit_of(size, v)
}

/// Whether `v` can be cut down to `size` significant figures: it has at least
/// that many digits, and the figures kept fit the arithmetic.
pub open spec fn floor_defined(size: nat, v: nat) -> bool {
    &&& size <= digits_of(v)
    &&& digits_of(v) - size <= 38
    &&& ratio_of(v, unit_of(size, v)) <= u128::MAX
    &&& floor_to_tick(size, v) <= u128::MAX
}

/// Whether `v` can be raised to `size` significant figures.
pub open spec fn ceil_defined(size: nat, v: nat) -> bool {
    &&& size <= digits_of(v)
    &&& digits_of(v) - size <= 38
    &&& ratio_of(v, unit_of(size, v)) <= u128::MAX
    &&& ceil_to_tick(size, v) <= u128::MAX
}

/// Whether `v` has no more than `size` significant figures.
pub open spec fn aligned(size: nat, v: nat) -> bool {
    floor_defined(size, v) && floor_to_tick(size, v) == v
}

/// Calls `rujira_rs::fin::Tick::truncate_floor`: the ratio cut down to the
/// tick's significant figures. The outside function fails where the ratio has
/// fewer digits than the tick or the figures kept leave 128 bits.
#[verifier::external_body]
pub(crate) fn tick_truncate_floor(size: u8, v: u128) -> (r: u128)
    requires
        floor_defined(size as nat, v as nat),
    ensures
        r == floor_to_tick(size as nat, v as nat),
{
    rujira_rs::fin::Tick::new(size).truncate_floor(&cosmwasm_std::Decimal::raw(v)).atomics().u128()
}

/// Calls `rujira_rs::fin::Tick::truncate_ceil`: the ratio raised to the tick's
/// significant figures. The outside function fails where the ratio has fewer
/// digits than the tick or the result leaves 128 bits.
#[verifier::external_body]
pub(crate) fn tick_truncate_ceil(size: u8, v: u128) -> (r: u128)
    requires
        ceil_defined(size as nat, v as nat),
    ensures
        r == ceil_to_tick(size as nat, v as nat),
{
    rujira_rs::fin::Tick::new(size).truncate_ceil(&cosmwasm_std::Decimal::raw(v)).atomics().u128()
}

proof fn lemma_digits_bound(v: nat, k: nat)
    requires
        k >= 1,
        v < pow10_of(k),
    ensures
        digits_of(v) <= k,
    decreases k,
{
    if v >= 10 {
        if k == 1 {
            reveal_with_fuel(pow10_of, 2);
        } else {
            assert(v / 10 < pow10_of((k - 1) as nat)) by (nonlinear_arith)
                requires
                    v < 10 * pow10_of((k - 1) as nat),
            ;
            lemma_digits_bound(v / 10, (k - 1) as nat);
        }
    }
}

proof fn lemma_pow10_values()
    ensures
        pow10_of(38) == 100_000_000_000_000_000_000_000_000_000_000_000_000,
        pow10_of(39) > u128::MAX,
{
    reveal_with_fuel(pow10_of, 40);
}

proof fn lemma_pow10_monotone(a: nat, b: nat)
    requires
        a <= b,
    ensures
        0 < pow10_of(a) <= pow10_of(b),
    decreases b,
{
    if b == 0 {
    } else if a == b {
        lemma_pow10_monotone((a - 1) as nat, (b - 1) as nat);
    } else {
        lemma_pow10_monotone(a, (b - 1) as nat);
    }
}

/// Counts the decimal digits of `v`.
pub fn digits(v: u128) -> (r: u32)
    ensures
        r == digits_of(v as nat),
        1 <= r <= 39,
    decreases v,
{
    proof {
        lemma_pow10_values();
        lemma_digits_bound(v as nat, 39);
    }
    if v < 10 {
        1
    } else {
        proof {
            lemma_digits_bound((v / 10) as nat, 39);
        }
        1 + digits(v / 10)
    }
}

/// Raises ten to the power `k`.
pub fn pow10(k: u32) -> (r: u128)
    requires
        k <= 38,
    ensures
        r == pow10_of(k as nat),
        r > 0,
    decreases k,
{
    if k == 0 {
        1
    } else {
        let lower: u128 = pow10(k - 1);
        proof {
            lemma_pow10_monotone(k as nat, 38);
            lemma_pow10_values();
        }
        10 * lower
    }
}

impl Tick {
    pub fn new(size: u8) -> (r: Self)
        ensures
            r.size == size,
    {
        Self { size }
    }

    /// Cuts a ratio down to the tick's significant figures; nothing where the
    /// ratio has fewer digits than the tick or the figures kept leave 128 bits.
    pub fn truncate_floor(&self, v: u128) -> (r: Option<u128>)
        ensures
            r == (if floor_defined(self.size as nat, v as nat) {
                Some(floor_to_tick(self.size as nat, v as nat) as u128)
            } else {
                None
            }),
    {
        let d: u32 = digits(v);
        if (self.size as u32) > d || d - (self.size as u32) > 38 {
            return None;
        }
        let unit: u128 = pow10(d - (self.size as u32));
        match decimal_from_ratio(v, unit) {
            None => None,
            Some(kept) => {
                proof {
                    let whole = floor_of(kept as nat);
                    assert(whole * (unit as nat) <= v) by (nonlinear_arith)
                        requires
                            whole == (kept as nat) / 1_000_000_000_000_000_000,
                            kept as nat == (v as nat) * 1_000_000_000_000_000_000 / (unit as nat),
                            unit > 0,
                    ;
                }
                Some(tick_truncate_floor(self.size, v))
            },
        }
    }

    /// Raises a ratio to the tick's significant figures; nothing where the
    /// ratio has fewer digits than the tick or the result leaves 128 bits.
    pub fn truncate_ceil(&self, v: u128) -> (r: Option<u128>)
        ensures
            r == (if ceil_defined(self.size as nat, v as nat) {
                Some(ceil_to_tick(self.size as nat, v as nat) as u128)
            } else {
                None
            }),
    {
        let d: u32 = digits(v);
        if (self.size as u32) > d || d - (self.size as u32) > 38 {
            return None;
        }
        let unit: u128 = pow10(d - (self.size as u32));
        match decimal_from_ratio(v, unit) {
            None => None,
            Some(kept) => {
                let whole: u128 = decimal_ceil(kept);
                match whole.checked_mul(unit) {
                    None => None,
                    Some(_) => Some(tick_truncate_ceil(self.size, v)),
                }
            },
        }
    }

    /// Whether a fixed price has no more significant figures than the tick
    /// allows.
    pub fn validate_price(&self, v: u128) -> (r: bool)
        ensures
            r == aligned(self.size as nat, v as nat),
    {
        match self.truncate_floor(v) {
            None => false,
            Some(cut) => cut == v,
        }
    }
}

} // verus!
