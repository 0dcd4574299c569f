use vstd::prelude::*;
use vstd::arithmetic::div_mod::lemma_fundamental_div_mod_converse;
use vstd::arithmetic::div_mod::lemma_fundamental_div_mod;
use vstd::arithmetic::div_mod::lemma_div_is_ordered;

verus! {

/// Smallest collateral units (satoshis) in one whole coin.
pub const SATS_PER_COIN: u64 = 100_000_000;

/// The loan-to-value ceiling, 0.7, as a fraction.
pub const MAX_LTV_NUMERATOR: u64 = 7;
pub const MAX_LTV_DENOMINATOR: u64 = 10;

/// The annual interest rate of every loan, 8%, in basis points.
pub const INTEREST_RATE_BPS: u64 = 800;
pub const BPS_PER_UNIT: u64 = 10_000;

/// Nanoseconds in a day and in a year of 365.25 days.
pub const NANOS_PER_DAY: u64 = 86_400_000_000_000;
pub const NANOS_PER_YEAR: u64 = 31_557_600_000_000_000;

/// `BPS_PER_UNIT * NANOS_PER_YEAR`: the divisor that turns basis points times
/// nanoseconds into a fraction of a year's rate.
pub const INTEREST_DENOMINATOR: u128 = 315_576_000_000_000_000_000;

/// The fiat value, in cents, of `collateral` satoshis at `price` cents per
/// coin, truncated toward zero.
pub open spec fn collateral_value_of(collateral: int, price: int) -> int {
    collateral * price / SATS_PER_COIN as int
}

/// The largest value `collateral_value_of` takes on `u64` arguments.
pub open spec fn max_collateral_value() -> int {
    3402823669209384634264811192843
}

/// The largest loan, in cents, that a collateral value allows.
pub open spec fn max_loan_of_value(value: int) -> int {
    value * MAX_LTV_NUMERATOR as int / MAX_LTV_DENOMINATOR as int
}

/// Whether `loan / value <= 0.7`, exactly, with a zero value admitting nothing.
pub open spec fn ltv_within_max(loan: int, value: int) -> bool {
    loan * MAX_LTV_DENOMINATOR as int <= value * MAX_LTV_NUMERATOR as int
}

/// Interest owed on `loan` cents after `elapsed` nanoseconds, truncated.
pub open spec fn interest_of(loan: int, elapsed: int) -> int {
    loan * elapsed * INTEREST_RATE_BPS as int / INTEREST_DENOMINATOR as int
}

/// Value in cents of a collateral amount at a price in cents per coin.
pub fn collateral_value(collateral: u64, price: u64) -> (r: u128)
    ensures
        r as int == collateral_value_of(collateral as int, price as int),
        r <= max_collateral_value(),
{
    let c = collateral as u128;
    let p = price as u128;
    assert(c * p <= u64::MAX as int * u64::MAX as int) by (nonlinear_arith)
        requires c <= u64::MAX, p <= u64::MAX;
    proof {
        lemma_div_is_ordered((c * p) as int, u64::MAX as int * u64::MAX as int, SATS_PER_COIN as int);
        assert(u64::MAX as int * u64::MAX as int / SATS_PER_COIN as int == max_collateral_value())
            by (nonlinear_arith);
    }
    (c * p) / (SATS_PER_COIN as u128)
}

/// The largest loan a collateral value allows, capped at the largest `u64`.
pub fn max_loan_for_value(value: u128) -> (r: u64)
    requires
        value <= max_collateral_value(),
    ensures
        r as int == if max_loan_of_value(value as int) <= u64::MAX {
            max_loan_of_value(value as int)
        } else {
            u64::MAX as int
        },
{
    assert(value * 7 <= 7 * max_collateral_value());
    let m = value * (MAX_LTV_NUMERATOR as u128) / (MAX_LTV_DENOMINATOR as u128);
    if m <= u64::MAX as u128 {
        m as u64
    } else {
        u64::MAX
    }
}

/// Whether a loan of `loan` cents against collateral worth `value` cents stays
/// within the loan-to-value ceiling.
pub fn ltv_acceptable(loan: u64, value: u128) -> (r: bool)
    requires
        value <= max_collateral_value(),
    ensures
        r == ltv_within_max(loan as int, value as int),
{
    assert(value * 7 <= 7 * max_collateral_value());
    assert(loan * 10 <= 10 * u64::MAX);
    (loan as u128) * (MAX_LTV_DENOMINATOR as u128) <= value * (MAX_LTV_NUMERATOR as u128)
}

/// The loan ceiling and the ceiling check agree: the largest loan a value
/// allows is accepted, and one cent more is not.
pub proof fn lemma_max_loan_is_tight(value: int)
    requires
        value >= 0,
    ensures
        ltv_within_max(max_loan_of_value(value), value),
        !ltv_within_max(max_loan_of_value(value) + 1, value),
        forall|loan: int| ltv_within_max(loan, value) <==> loan <= max_loan_of_value(value),
{
    let m = max_loan_of_value(value);
    lemma_fundamental_div_mod(value * 7, 10);
    assert(m * 10 <= value * 7);
    assert((m + 1) * 10 > value * 7);
    assert forall|loan: int| ltv_within_max(loan, value) <==> loan <= m by {
        if loan <= m {
            assert(loan * 10 <= m * 10) by (nonlinear_arith)
                requires loan <= m;
        } else {
            assert(loan * 10 >= (m + 1) * 10) by (nonlinear_arith)
                requires loan >= m + 1;
        }
    }
}

/// Interest owed on `loan` cents after `elapsed` nanoseconds, in cents.
pub fn interest_due(loan: u64, elapsed: u64) -> (r: u128)
    ensures
        r as int == interest_of(loan as int, elapsed as int),
        r <= u64::MAX as int * u64::MAX as int,
{
    let d: u128 = INTEREST_DENOMINATOR;
    let l = loan as u128;
    let e = elapsed as u128;
    assert(l * e <= u64::MAX as int * u64::MAX as int) by (nonlinear_arith)
        requires l <= u64::MAX, e <= u64::MAX;
    let p = l * e;
    let q = p / d;
    proof {
        lemma_div_is_ordered(p as int, u64::MAX as int * u64::MAX as int, d as int);
    }
    let rem = p % d;
    let rate = INTEREST_RATE_BPS as u128;
    let scaled = rem * rate;
    let r = q * rate + scaled / d;
    proof {
        let x = (p as int) * (rate as int);
        lemma_fundamental_div_mod(p as int, d as int);
        lemma_fundamental_div_mod(scaled as int, d as int);
        assert(x == (q * rate + scaled / d) * d + scaled % d) by (nonlinear_arith)
            requires
                p == q * d + rem,
                scaled == rem * rate,
                scaled == (scaled / d) * d + scaled % d,
                x == p * rate;
        lemma_fundamental_div_mod_converse(x, d as int, r as int, (scaled % d) as int);
        assert(l * e * rate == x);
        assert(r <= u64::MAX as int * u64::MAX as int) by (nonlinear_arith)
            requires r == x / (d as int), x == p * 800, p <= u64::MAX as int * u64::MAX as int,
                d == 315_576_000_000_000_000_000int;
    }
    r
}

} // verus!
