//! Arithmetic facts about the pool formulas.
//!
//! All deposit, withdrawal and swap amounts are computed as
//! `x * y / d` with floor division. The lemmas here bound those
//! quotients and prove the constant-product and round-trip laws.

use vstd::prelude::*;
use vstd::arithmetic::div_mod::lemma_div_is_ordered;
use vstd::arithmetic::div_mod::lemma_div_multiples_vanish;
use vstd::arithmetic::div_mod::lemma_div_pos_is_pos;
use vstd::arithmetic::div_mod::lemma_fundamental_div_mod;
use vstd::arithmetic::div_mod::lemma_fundamental_div_mod_converse;
use vstd::arithmetic::div_mod::lemma_mod_division_less_than_divisor;
use vstd::arithmetic::mul::lemma_mul_inequality;
use vstd::arithmetic::mul::lemma_mul_strict_inequality;

verus! {

/// From `a * b <= c * b` with positive `b`, cancel `b`.
proof fn lemma_mul_le_cancel(a: int, c: int, b: int)
    requires
        b > 0,
        a * b <= c * b,
    ensures
        a <= c,
{
    if a > c {
        lemma_mul_strict_inequality(c, a, b);
    }
}

/// From `a * b < c * b` with positive `b`, cancel `b`.
proof fn lemma_mul_lt_cancel(a: int, c: int, b: int)
    requires
        b > 0,
        a * b < c * b,
    ensures
        a < c,
{
    if a >= c {
        lemma_mul_inequality(c, a, b);
    }
}

/// A pro-rata share of `x` over at most the whole never exceeds `x`.
pub proof fn lemma_mul_div_le_factor(x: int, l: int, d: int)
    requires
        0 <= x,
        0 <= l <= d,
        0 < d,
    ensures
        0 <= x * l / d <= x,
{
    lemma_mul_inequality(l, d, x);
    assert(l * x == x * l && d * x == x * d) by (nonlinear_arith);
    lemma_div_is_ordered(x * l, x * d, d);
    assert(x * d == d * x) by (nonlinear_arith);
    lemma_div_multiples_vanish(x, d);
    lemma_div_pos_is_pos(x * l, d);
    assert(0 <= x * l) by (nonlinear_arith)
        requires
            0 <= x,
            0 <= l,
    ;
}

/// A strict share of positive `x` stays strictly below `x`.
pub proof fn lemma_mul_div_lt_factor(x: int, l: int, d: int)
    requires
        0 < x,
        0 <= l < d,
    ensures
        0 <= x * l / d < x,
{
    lemma_div_pos_is_pos(x * l, d);
    assert(0 <= x * l) by (nonlinear_arith)
        requires
            0 <= x,
            0 <= l,
    ;
    let out = x * l / d;
    lemma_fundamental_div_mod(x * l, d);
    lemma_mod_division_less_than_divisor(x * l, d);
    assert(d * out <= x * l);
    if out >= x {
        lemma_mul_inequality(x, out, d);
        assert(x * d <= out * d);
        lemma_mul_strict_inequality(l, d, x);
        assert(l * x < d * x);
        assert(l * x == x * l && d * x == x * d && out * d == d * out) by (nonlinear_arith);
        assert(false);
    }
}

/// A full share of `x` pays out exactly `x`.
pub proof fn lemma_mul_div_exact(x: int, d: int)
    requires
        0 < d,
    ensures
        (x * d) / d == x,
{
    lemma_div_multiples_vanish(x, d);
    assert(x * d == d * x) by (nonlinear_arith);
}

/// The constant-product law of a swap: paying `din` into the `bin`
/// reserve and receiving the floor-priced output from the `bout`
/// reserve never decreases the product of the reserves.
pub proof fn lemma_constant_product_preserved(bin: int, bout: int, din: int)
    requires
        0 < bin,
        0 < bout,
        0 < din,
    ensures
        (bin + din) * (bout - bout * din / (bin + din)) >= bin * bout,
{
    let d = bin + din;
    let out = bout * din / d;
    lemma_fundamental_div_mod(bout * din, d);
    lemma_mod_division_less_than_divisor(bout * din, d);
    assert(d * out <= bout * din);
    assert(d * (bout - out) == d * bout - d * out) by (nonlinear_arith);
    assert(d * bout - bout * din == bin * bout) by (nonlinear_arith)
        requires
            d == bin + din,
    ;
}

/// The add/remove round trip, on dust-free deposits.
///
/// From a funded pool `(b, q)` with `l` issued shares, a deposit of `db`
/// base whose share computation divides evenly (`l * db` is a multiple
/// of `b`) mints `m = l * db / b` shares and draws `qa = q * db / b`
/// quote. Burning those `m` shares against the enlarged pool pays back
/// exactly `db` base and exactly `qa` quote: the provider's balances
/// return to their pre-deposit values.
pub proof fn lemma_add_remove_round_trip(b: int, q: int, l: int, db: int)
    requires
        0 < b,
        0 < q,
        0 < l,
        0 < db,
        l * db % b == 0,
        q * db >= b,
    ensures
        ({
            let m = l * db / b;
            let qa = q * db / b;
            &&& 0 < m
            &&& 0 < qa
            &&& (b + db) * m / (l + m) == db
            &&& (q + qa) * m / (l + m) == qa
        }),
{
    let m = l * db / b;
    let qa = q * db / b;
    lemma_fundamental_div_mod(l * db, b);
    assert(l * db == b * m);
    assert(l * db > 0) by (nonlinear_arith)
        requires
            l > 0,
            db > 0,
    ;
    assert(m > 0) by {
        if m <= 0 {
            assert(b * m <= 0) by (nonlinear_arith)
                requires
                    b > 0,
                    m <= 0,
            ;
        }
    }
    lemma_fundamental_div_mod(q * db, b);
    lemma_mod_division_less_than_divisor(q * db, b);
    let r = q * db % b;
    assert(q * db == b * qa + r);
    assert(qa > 0) by {
        if qa <= 0 {
            assert(b * qa <= 0) by (nonlinear_arith)
                requires
                    b > 0,
                    qa <= 0,
            ;
        }
    }
    // The base payout: the numerator is an exact multiple of `l + m`.
    assert((b + db) * m == (l + m) * db) by (nonlinear_arith)
        requires
            b * m == l * db,
    ;
    lemma_div_multiples_vanish(db, l + m);
    assert(((l + m) * db) / (l + m) == db);
    // The quote payout: squeeze the numerator between `qa * (l + m)`
    // and `(qa + 1) * (l + m)`.
    assert(qa * l * b <= q * m * b) by (nonlinear_arith)
        requires
            b * qa + r == q * db,
            r >= 0,
            l >= 0,
            b * m == l * db,
    ;
    lemma_mul_le_cancel(qa * l, q * m, b);
    assert(q * m * b < (qa * l + l + m) * b) by (nonlinear_arith)
        requires
            b * qa + r == q * db,
            r < b,
            l > 0,
            b > 0,
            m > 0,
            b * m == l * db,
    ;
    lemma_mul_lt_cancel(q * m, qa * l + l + m, b);
    assert((q + qa) * m == qa * (l + m) + (q * m - qa * l)) by (nonlinear_arith);
    assert((q * m - qa * l) < l + m);
    lemma_fundamental_div_mod_converse((q + qa) * m, l + m, qa, q * m - qa * l);
}

} // verus!
