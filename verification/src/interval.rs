//! From an amount and a unit to the tick interval in milliseconds.

use crate::amount::{lemma_pow10_positive, pow10, Amount, Decimal, Kind};
use crate::error::{ConfigError, Fault};
use crate::text::number;
use crate::unit::TimeUnit;
use vstd::arithmetic::div_mod::lemma_fundamental_div_mod_converse;
use vstd::prelude::*;

verus! {

/// The longest interval, in milliseconds: what 32 bits hold.
pub open spec fn max_interval() -> nat {
    0xFFFF_FFFF
}

/// Whether `amount` units last longer than the longest interval.
pub open spec fn too_long(amount: Decimal, unit: TimeUnit) -> bool {
    amount.times_exceeds(unit.millis(), max_interval())
}

/// `amount` units in whole milliseconds: the product with what is left of a
/// millisecond cut off, and 0 for a negative amount.
pub open spec fn whole_millis(amount: Decimal, unit: TimeUnit) -> nat {
    amount.times_floor(unit.millis())
}

/// The tick interval for `amount` units, in milliseconds. The interval is
/// refused exactly where the product is greater than 2^32 - 1; otherwise it is
/// the product without its fraction.
pub fn interval_ms(amount: &Amount, unit: TimeUnit) -> (r: Result<u32, ConfigError>)
    ensures
        match r {
            Ok(ms) => !too_long(amount@, unit) && ms == whole_millis(amount@, unit),
            Err(e) => too_long(amount@, unit) && e@ == Fault::IntervalTooLong,
        },
{
    match amount.times(unit.factor_ms()) {
        Some(ms) => Ok(ms),
        None => Err(ConfigError::IntervalTooLong),
    }
}

/// For an amount written without a fraction and without an exponent the
/// interval is the plain product, and it is too long exactly where that
/// product is over the limit.
pub proof fn lemma_whole_amount(amount: Decimal, unit: TimeUnit)
    requires
        amount.kind == Kind::Finite,
        !amount.negative,
        amount.fraction.len() == 0,
        amount.exponent_digits.len() == 0,
    ensures
        whole_millis(amount, unit) == number(amount.whole) * unit.millis(),
        too_long(amount, unit) <==> number(amount.whole) * unit.millis() > max_interval(),
{
    assert(amount.whole + amount.fraction =~= amount.whole);
    assert(pow10(0) == 1);
    assert(amount.shift() == 0);
    let w = number(amount.whole);
    assert(w * 1 == w) by (nonlinear_arith);
    let product = w * unit.millis();
    lemma_fundamental_div_mod_converse(product as int, 1, product as int, 0);
}

/// The infinite amount is too long for every unit, and what is not a number
/// gives the interval 0.
pub proof fn lemma_special_amounts(amount: Decimal, unit: TimeUnit)
    requires
        !amount.negative,
    ensures
        amount.kind == Kind::Infinite ==> too_long(amount, unit),
        amount.kind == Kind::NotANumber ==> !too_long(amount, unit) && whole_millis(amount, unit)
            == 0,
{
}

/// A negative amount gives the interval 0 and is never too long.
pub proof fn lemma_negative_amount(amount: Decimal, unit: TimeUnit)
    requires
        amount.negative,
    ensures
        whole_millis(amount, unit) == 0,
        !too_long(amount, unit),
{
}

/// The interval is the product of amount and unit without its fraction: it
/// is within one millisecond below the exact product. The interval is too
/// long exactly where the exact product is over 2^32 - 1, and where it is
/// not, 32 bits hold it. The amount stands for `numerator / denominator`.
pub proof fn lemma_interval_exact(amount: Decimal, unit: TimeUnit)
    requires
        amount.kind == Kind::Finite,
        !amount.negative,
    ensures
        whole_millis(amount, unit) * amount.denominator() <= amount.numerator() * unit.millis(),
        amount.numerator() * unit.millis() < (whole_millis(amount, unit) + 1)
            * amount.denominator(),
        too_long(amount, unit) <==> amount.numerator() * unit.millis() > 0xFFFF_FFFF
            * amount.denominator(),
        !too_long(amount, unit) ==> whole_millis(amount, unit) <= max_interval(),
{
    let p = amount.denominator();
    let x = amount.numerator() * unit.millis();
    if amount.shift() < 0 {
        lemma_pow10_positive((-amount.shift()) as nat);
    } else {
        lemma_pow10_positive(0);
    }
    let q = x / p;
    let r = x % p;
    vstd::arithmetic::div_mod::lemma_fundamental_div_mod(x as int, p as int);
    assert(x == p * q + r);
    assert(0 <= r < p) by {
        vstd::arithmetic::div_mod::lemma_mod_bound(x as int, p as int);
    }
    assert(0 <= q) by {
        vstd::arithmetic::div_mod::lemma_div_pos_is_pos(x as int, p as int);
    }
    assert(q * p == p * q) by (nonlinear_arith);
    assert((q + 1) * p == q * p + p) by (nonlinear_arith);
    if !too_long(amount, unit) && q > max_interval() {
        assert(q * p >= (max_interval() + 1) * p) by (nonlinear_arith)
            requires
                q >= max_interval() + 1,
                p >= 1,
        ;
        assert((max_interval() + 1) * p == max_interval() * p + p) by (nonlinear_arith);
    }
}

} // verus!
