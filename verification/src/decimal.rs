//! Fixed-point ratios with eighteen fractional digits, and the arithmetic on
//! them that needs more than 128 bits and is delegated to `cosmwasm_std`.

use vstd::prelude::*;

verus! {

/// The number of atomic units that make up `1.0`.
pub const DECIMAL_FRACTIONAL: u128 = 1_000_000_000_000_000_000;

/// A non-negative fixed-point number: `atomics / 10^18`.
///
/// It carries the same atomic units as `cosmwasm_std::Decimal`, so the two
/// convert into each other without loss.
#[derive(Clone, Copy, Debug, PartialEq, Eq, Structural)]
pub struct Decimal {
    pub atomics: u128,
}

/// A 256-bit unsigned number as two 128-bit halves: `high * 2^128 + low`.
///
/// It carries the product of two 128-bit numbers, the same value that a
/// `cosmwasm_std::Uint256` holds in its big-endian bytes.
#[derive(Clone, Copy, Debug, PartialEq, Eq, Structural)]
pub struct Wide {
    pub high: u128,
    pub low: u128,
}

impl Wide {
    /// The number that the two halves stand for.
    pub open spec fn value(&self) -> nat {
        (self.high as nat) * 0x1_0000_0000_0000_0000_0000_0000_0000_0000nat + (self.low as nat)
    }
}

/// `x` as a 128-bit value, if it is one.
pub open spec fn fits(x: nat) -> Option<u128> {
    if x <= u128::MAX {
        Some(x as u128)
    } else {
        None
    }
}

/// `floor(amount * factor)`, as a mathematical integer.
pub open spec fn scaled_floor(amount: nat, factor: Decimal) -> nat {
    (amount * (factor.atomics as nat)) / (DECIMAL_FRACTIONAL as nat)
}

/// `floor(amount * price * factor)`, as a mathematical integer: the value of
/// an amount at a unit price, discounted by a factor and rounded down once,
/// at the end.
pub open spec fn priced_floor(amount: nat, price: nat, factor: Decimal) -> nat {
    scaled_floor(amount * price, factor)
}

/// `floor(numerator / denominator)` in atomic units, as a mathematical integer.
pub open spec fn ratio_floor(numerator: nat, denominator: nat) -> nat
    recommends
        denominator > 0,
{
    (numerator * (DECIMAL_FRACTIONAL as nat)) / denominator
}

/// The health factor of an account: collateral over debt, rounded down, and
/// the largest representable value where the debt is zero or the quotient
/// does not fit.
pub open spec fn health_factor_spec(collateral_value: nat, debt_value: nat) -> nat {
    if debt_value == 0 || ratio_floor(collateral_value, debt_value) > u128::MAX {
        u128::MAX as nat
    } else {
        ratio_floor(collateral_value, debt_value)
    }
}

/// Calls `cosmwasm_std::Uint128::full_mul`, which multiplies two 128-bit
/// numbers into a `Uint256` and cannot overflow, and hands the product on
/// as the two halves of its big-endian bytes. The contract states that the
/// result is the exact product.
#[verifier::external_body]
fn full_mul(a: u128, b: u128) -> (r: Wide)
    ensures
        r.value() == a * b,
{
    let bytes = cosmwasm_std::Uint128::new(a).full_mul(b).to_be_bytes();
    let mut high = [0u8; 16];
    let mut low = [0u8; 16];
    high.copy_from_slice(&bytes[..16]);
    low.copy_from_slice(&bytes[16..]);
    Wide { high: u128::from_be_bytes(high), low: u128::from_be_bytes(low) }
}

/// Calls `cosmwasm_std::Uint256::checked_mul_floor` with a
/// `cosmwasm_std::Decimal` of the same atomics, on the `Uint256` of the same
/// bytes. That function multiplies in 512 bits, divides by `10^18` rounding
/// down, and fails when the quotient does not fit in 256 bits; the quotient
/// is then narrowed with `Uint128::try_from`, which fails exactly when it
/// does not fit in 128 bits. The contract states this.
#[verifier::external_body]
fn wide_mul_floor(wide: Wide, factor: Decimal) -> (r: Option<u128>)
    ensures
        r == fits(scaled_floor(wide.value(), factor)),
{
    let mut bytes = [0u8; 32];
    bytes[..16].copy_from_slice(&wide.high.to_be_bytes());
    bytes[16..].copy_from_slice(&wide.low.to_be_bytes());
    let rhs = cosmwasm_std::Decimal::raw(factor.atomics);
    match cosmwasm_std::Uint256::from_be_bytes(bytes).checked_mul_floor(rhs) {
        Ok(scaled) => match cosmwasm_std::Uint128::try_from(scaled) {
            Ok(narrow) => Some(narrow.u128()),
            Err(_) => None,
        },
        Err(_) => None,
    }
}

/// Calls `cosmwasm_std::Decimal::checked_from_ratio`. That function fails on
/// a zero denominator, otherwise computes `numerator * 10^18 / denominator`
/// in 256 bits, rounding down, and fails when the quotient does not fit in
/// 128 bits; the contract states this.
#[verifier::external_body]
fn checked_from_ratio(numerator: u128, denominator: u128) -> (r: Option<Decimal>)
    ensures
        denominator == 0 ==> r.is_none(),
        denominator > 0 && ratio_floor(numerator as nat, denominator as nat) > u128::MAX
            ==> r.is_none(),
        denominator > 0 && ratio_floor(numerator as nat, denominator as nat) <= u128::MAX ==> r
            == Some(Decimal { atomics: ratio_floor(numerator as nat, denominator as nat) as u128 }),
{
    match cosmwasm_std::Decimal::checked_from_ratio(numerator, denominator) {
        Ok(ratio) => Some(Decimal { atomics: ratio.atomics().u128() }),
        Err(_) => None,
    }
}

/// A factor of at most one never scales an amount up.
pub proof fn lemma_scaled_floor_bounded(amount: nat, factor: Decimal)
    requires
        factor.atomics <= DECIMAL_FRACTIONAL,
    ensures
        scaled_floor(amount, factor) <= amount,
{
    let c = factor.atomics as nat;
    let d = DECIMAL_FRACTIONAL as nat;
    assert(amount * c <= amount * d) by (nonlinear_arith)
        requires
            c <= d,
    ;
    assert((amount * c) / d <= amount) by (nonlinear_arith)
        requires
            amount * c <= amount * d,
            d > 0,
    ;
}

impl Decimal {
    /// The decimal with the given number of atomic units.
    pub fn raw(atomics: u128) -> (r: Decimal)
        ensures
            r.atomics == atomics,
    {
        Decimal { atomics }
    }

    /// `0.0`.
    pub fn zero() -> (r: Decimal)
        ensures
            r.atomics == 0,
    {
        Decimal { atomics: 0 }
    }

    /// `1.0`.
    pub fn one() -> (r: Decimal)
        ensures
            r.atomics == DECIMAL_FRACTIONAL,
    {
        Decimal { atomics: DECIMAL_FRACTIONAL }
    }

    /// The largest representable decimal.
    pub fn max_value() -> (r: Decimal)
        ensures
            r.atomics == u128::MAX,
    {
        Decimal { atomics: u128::MAX }
    }

    /// `x` percent.
    pub fn percent(x: u64) -> (r: Decimal)
        ensures
            r.atomics == x * 10_000_000_000_000_000,
    {
        let unit: u128 = 10_000_000_000_000_000;
        let whole: u128 = x as u128;
        assert(whole * unit <= u128::MAX) by (nonlinear_arith)
            requires
                whole <= u64::MAX,
                unit == 10_000_000_000_000_000,
        ;
        Decimal { atomics: whole * unit }
    }

    /// The number of atomic units.
    pub fn atomics(&self) -> (r: u128)
        ensures
            r == self.atomics,
    {
        self.atomics
    }

    /// Whether the value lies in `[0, 1]`: the range of a collateral factor.
    pub open spec fn is_fraction(&self) -> bool {
        self.atomics <= DECIMAL_FRACTIONAL
    }

    /// Decides `is_fraction`.
    pub fn at_most_one(&self) -> (r: bool)
        ensures
            r == self.is_fraction(),
    {
        self.atomics <= DECIMAL_FRACTIONAL
    }

    /// `floor(amount * self)`, or `None` where that does not fit in 128 bits.
    pub fn mul_floor(&self, amount: u128) -> (r: Option<u128>)
        ensures
            r == fits(scaled_floor(amount as nat, *self)),
            self.is_fraction() ==> r.is_some(),
    {
        proof {
            if self.is_fraction() {
                lemma_scaled_floor_bounded(amount as nat, *self);
            }
        }
        wide_mul_floor(Wide { high: 0, low: amount }, *self)
    }

    /// `floor(amount * price * self)`, or `None` where that does not fit in
    /// 128 bits. The product of amount and price is taken in 256 bits, so
    /// nothing is lost before the one rounding at the end.
    pub fn value_floor(&self, amount: u128, price: u128) -> (r: Option<u128>)
        ensures
            r == fits(priced_floor(amount as nat, price as nat, *self)),
    {
        wide_mul_floor(full_mul(amount, price), *self)
    }

    /// The health factor of an account with the given collateral and debt
    /// values.
    pub fn health_factor(collateral_value: u128, debt_value: u128) -> (r: Decimal)
        ensures
            r.atomics == health_factor_spec(collateral_value as nat, debt_value as nat),
    {
        if debt_value == 0 {
            return Decimal::max_value();
        }
        match checked_from_ratio(collateral_value, debt_value) {
            Some(ratio) => ratio,
            None => Decimal::max_value(),
        }
    }
}

} // verus!
