//! The pricing engine's mathematics.
//!
//! Every quantity the pool works with is a non-negative integer, and every
//! division truncates toward zero.  The truncation direction always favors
//! the pool over the trader, which is what keeps the pool solvent.  The spec
//! functions here define the exact value of each estimate; the lemmas state
//! the bounds the operations rely on and the laws the pricing rules obey.

use vstd::prelude::*;

verus! {

use vstd::arithmetic::div_mod::lemma_div_is_ordered;
use vstd::arithmetic::div_mod::lemma_div_is_ordered_by_denominator;
use vstd::arithmetic::div_mod::lemma_div_multiples_vanish;
use vstd::arithmetic::div_mod::lemma_div_pos_is_pos;
use vstd::arithmetic::div_mod::lemma_fundamental_div_mod;
use vstd::arithmetic::div_mod::lemma_mod_division_less_than_divisor;

/// Shares are denominated with six digits of precision.
pub const PRECISION: u128 = 1_000_000;

/// Shares minted for the first-ever ("genesis") liquidity contribution,
/// whatever the ratio of the two contributed amounts: the first provider
/// sets the initial price.
pub open spec fn genesis_shares() -> int {
    100 * (PRECISION as int)
}

/// Shares minted when contributing `a1` of token1 to a pool holding `x` of
/// token1 and `s` outstanding shares.
pub open spec fn share_for_provide(x: int, s: int, a1: int) -> int {
    if s == 0 {
        genesis_shares()
    } else {
        s * a1 / x
    }
}

/// Amount of the reserve paid out for redeeming `share` of `s` outstanding
/// shares against a reserve of `total`.
pub open spec fn withdraw_amount(total: int, s: int, share: int) -> int {
    share * total / s
}

/// The part of a swap input that reaches the pricing formula after the fee
/// (a numerator over 1000) is retained by the pool.
pub open spec fn fee_adjusted(f: int, a: int) -> int {
    (1000 - f) * a / 1000
}

/// Output of a swap given its input, against an input-side reserve `x` and
/// an output-side reserve `y`: the output reserve is brought to
/// `x * y / (x + fee_adjusted(f, a_in))`, and if that would drain it
/// completely, one unit is held back so the reserve never reaches zero.
pub open spec fn swap_out_given_in(x: int, y: int, f: int, a_in: int) -> int {
    let reserve_out_after: int = x * y / (x + fee_adjusted(f, a_in));
    if reserve_out_after == 0 {
        y - 1
    } else {
        y - reserve_out_after
    }
}

/// Input a swap must be paid given its desired output `a_out`, against an
/// input-side reserve `x` and an output-side reserve `y`; the fee is added
/// on top by scaling with `1000 / (1000 - f)`.
pub open spec fn swap_in_given_out(x: int, y: int, f: int, a_out: int) -> int {
    (x * y / (y - a_out) - x) * 1000 / (1000 - f)
}

/// The fee-adjusted input is between 0 and the raw input.
pub proof fn lemma_fee_adjusted_bounds(f: int, a: int)
    requires
        0 <= f <= 999,
        a >= 0,
    ensures
        0 <= fee_adjusted(f, a) <= a,
{
    assert((1000 - f) * a >= 0) by (nonlinear_arith)
        requires
            0 <= f <= 999,
            a >= 0,
    ;
    assert((1000 - f) * a <= 1000 * a) by (nonlinear_arith)
        requires
            0 <= f <= 999,
            a >= 0,
    ;
    lemma_div_pos_is_pos((1000 - f) * a, 1000);
    lemma_div_is_ordered((1000 - f) * a, 1000 * a, 1000);
    lemma_div_multiples_vanish(a, 1000);
}

/// With a positive fee and a positive input, the fee-adjusted input is
/// strictly below the raw input: the pool keeps at least one unit's worth.
pub proof fn lemma_fee_adjusted_strict(f: int, a: int)
    requires
        1 <= f <= 999,
        a >= 1,
    ensures
        0 <= fee_adjusted(f, a) < a,
{
    lemma_fee_adjusted_bounds(f, a);
    assert((1000 - f) * a < 1000 * a) by (nonlinear_arith)
        requires
            1 <= f <= 999,
            a >= 1,
    ;
    if fee_adjusted(f, a) == a {
        lemma_fundamental_div_mod((1000 - f) * a, 1000);
        assert(1000 * ((1000 - f) * a / 1000) == 1000 * a) by (nonlinear_arith)
            requires
                (1000 - f) * a / 1000 == a,
        ;
        assert((1000 - f) * a >= 1000 * a);
    }
}

/// A swap's output is non-negative and strictly below the output-side
/// reserve: no swap can drain a reserve to zero.
pub proof fn lemma_swap_out_bounds(x: int, y: int, f: int, a_in: int)
    requires
        x >= 1,
        y >= 1,
        0 <= f <= 999,
        a_in >= 0,
    ensures
        0 <= swap_out_given_in(x, y, f, a_in) < y,
{
    let adj: int = fee_adjusted(f, a_in);
    lemma_fee_adjusted_bounds(f, a_in);
    assert(x * y >= 0) by (nonlinear_arith)
        requires
            x >= 1,
            y >= 1,
    ;
    lemma_div_pos_is_pos(x * y, x + adj);
    lemma_div_is_ordered_by_denominator(x * y, x, x + adj);
    lemma_div_multiples_vanish(y, x);
    assert(y * x == x * y) by (nonlinear_arith);
    assert(x * y / (x + adj) <= y);
}

/// The input demanded for a given output is non-negative.
pub proof fn lemma_swap_in_nonneg(x: int, y: int, f: int, a_out: int)
    requires
        x >= 1,
        y >= 1,
        0 <= f <= 999,
        0 <= a_out < y,
    ensures
        x * y / (y - a_out) >= x,
        swap_in_given_out(x, y, f, a_out) >= 0,
{
    assert(x * y >= 0) by (nonlinear_arith)
        requires
            x >= 1,
            y >= 1,
    ;
    lemma_div_is_ordered_by_denominator(x * y, y - a_out, y);
    lemma_div_multiples_vanish(x, y);
    assert(x * y == y * x) by (nonlinear_arith);
    assert(x * y / (y - a_out) >= x);
    assert((x * y / (y - a_out) - x) * 1000 >= 0) by (nonlinear_arith)
        requires
            x * y / (y - a_out) - x >= 0,
    ;
    lemma_div_pos_is_pos((x * y / (y - a_out) - x) * 1000, 1000 - f);
}

/// Redeeming at most all outstanding shares never pays out more than the
/// reserve; redeeming all of them pays out the reserve exactly, and
/// redeeming strictly fewer leaves at least one unit behind whenever the
/// reserve is positive.
pub proof fn lemma_withdraw_bounds(total: int, s: int, share: int)
    requires
        s >= 1,
        total >= 0,
        0 <= share <= s,
    ensures
        0 <= withdraw_amount(total, s, share) <= total,
        share == s ==> withdraw_amount(total, s, share) == total,
        share < s && total >= 1 ==> withdraw_amount(total, s, share) < total,
{
    assert(share * total >= 0) by (nonlinear_arith)
        requires
            share >= 0,
            total >= 0,
    ;
    lemma_div_pos_is_pos(share * total, s);
    assert(share * total <= s * total) by (nonlinear_arith)
        requires
            share <= s,
            total >= 0,
    ;
    lemma_div_is_ordered(share * total, s * total, s);
    lemma_div_multiples_vanish(total, s);
    assert(s * total == total * s) by (nonlinear_arith);
    if share == s {
        assert(share * total == total * s) by (nonlinear_arith)
            requires
                share == s,
        ;
    }
    if share < s && total >= 1 {
        assert(share * total < total * s) by (nonlinear_arith)
            requires
                share < s,
                total >= 1,
        ;
        lemma_div_by_multiple_bound(share * total, total, s);
    }
}

/// One redemption side of the round-trip law: shares worth at most
/// `s * a` of a reserve, redeemed right after the contribution joined the
/// pool, pay back at most the contribution.
proof fn lemma_round_trip_side(total: int, s: int, a: int, sh: int)
    requires
        total >= 0,
        s >= 1,
        a >= 1,
        sh >= 1,
        sh * total <= s * a,
    ensures
        withdraw_amount(total + a, s + sh, sh) <= a,
{
    assert(sh * (total + a) <= a * (s + sh)) by (nonlinear_arith)
        requires
            sh * total <= s * a,
    ;
    lemma_div_is_ordered(sh * (total + a), a * (s + sh), s + sh);
    lemma_div_multiples_vanish(a, s + sh);
    assert(a * (s + sh) == (s + sh) * a) by (nonlinear_arith);
}

/// Round-trip law: providing `(a1, a2)` and withdrawing the minted shares
/// from the pool, with no activity in between, returns at most `(a1, a2)`;
/// for the genesis contribution it returns exactly `(a1, a2)`.
///
/// `x`, `y`, `s` are the pool totals before the contribution; the
/// hypotheses are exactly the conditions under which `provide` succeeds on
/// a well-formed pool.
pub proof fn lemma_provide_withdraw_round_trip(x: int, y: int, s: int, a1: int, a2: int)
    requires
        s == 0 ==> x == 0 && y == 0,
        s != 0 ==> x >= 1 && y >= 1,
        s >= 0,
        a1 >= 1,
        a2 >= 1,
        s != 0 ==> s * a1 / x == s * a2 / y,
        share_for_provide(x, s, a1) >= 1,
    ensures
        withdraw_amount(x + a1, s + share_for_provide(x, s, a1), share_for_provide(x, s, a1))
            <= a1,
        withdraw_amount(y + a2, s + share_for_provide(x, s, a1), share_for_provide(x, s, a1))
            <= a2,
        s == 0 ==> withdraw_amount(
            x + a1,
            s + share_for_provide(x, s, a1),
            share_for_provide(x, s, a1),
        ) == a1 && withdraw_amount(
            y + a2,
            s + share_for_provide(x, s, a1),
            share_for_provide(x, s, a1),
        ) == a2,
{
    let sh: int = share_for_provide(x, s, a1);
    if s == 0 {
        assert(sh == genesis_shares());
        lemma_div_multiples_vanish(a1, sh);
        lemma_div_multiples_vanish(a2, sh);
        assert(sh * (x + a1) == sh * a1) by (nonlinear_arith)
            requires
                x == 0,
        ;
        assert(sh * (y + a2) == sh * a2) by (nonlinear_arith)
            requires
                y == 0,
        ;
    } else {
        lemma_fundamental_div_mod(s * a1, x);
        lemma_mod_division_less_than_divisor(s * a1, x);
        assert(sh * x <= s * a1) by (nonlinear_arith)
            requires
                s * a1 == x * sh + (s * a1) % x,
                (s * a1) % x >= 0,
        ;
        lemma_round_trip_side(x, s, a1, sh);
        lemma_fundamental_div_mod(s * a2, y);
        lemma_mod_division_less_than_divisor(s * a2, y);
        assert(sh * y <= s * a2) by (nonlinear_arith)
            requires
                s * a2 == y * sh + (s * a2) % y,
                (s * a2) % y >= 0,
        ;
        lemma_round_trip_side(y, s, a2, sh);
    }
}

/// Constant-product law for a fee-bearing swap given its input: as long as
/// the pool is deep enough on the output side — the product of the
/// reserves at least the square of the fee-adjusted input-side reserve —
/// the product of the reserves never decreases across the swap.  The fee
/// retained by the pool outweighs what truncation gives away.
pub proof fn lemma_swap_in_constant_product(x: int, y: int, f: int, a: int)
    requires
        x >= 1,
        y >= 1,
        1 <= f <= 999,
        a >= 1,
        x * y >= (x + fee_adjusted(f, a)) * (x + fee_adjusted(f, a)),
    ensures
        (x + a) * (y - swap_out_given_in(x, y, f, a)) >= x * y,
{
    let adj: int = fee_adjusted(f, a);
    lemma_fee_adjusted_strict(f, a);
    let d: int = x + adj;
    let q: int = x * y / d;
    let r: int = (x * y) % d;
    lemma_fundamental_div_mod(x * y, d);
    lemma_mod_division_less_than_divisor(x * y, d);
    lemma_div_is_ordered(d * d, x * y, d);
    lemma_div_multiples_vanish(d, d);
    assert(q >= d);
    assert(swap_out_given_in(x, y, f, a) == y - q);
    assert((x + a) * q >= (d + 1) * q) by (nonlinear_arith)
        requires
            x + a >= d + 1,
            q >= 0,
    ;
    assert((d + 1) * q == d * q + q) by (nonlinear_arith);
    assert(x * y == d * q + r);
}

/// Constant-product law for a fee-bearing swap given its output: as long
/// as the required fee-free input is large enough that the fee adds at
/// least one whole unit, the product of the reserves never decreases
/// across the swap.
pub proof fn lemma_swap_out_constant_product(x: int, y: int, f: int, a_out: int)
    requires
        x >= 1,
        y >= 1,
        1 <= f <= 999,
        0 <= a_out < y,
        (x * y / (y - a_out) - x + 1) * f >= 1000,
    ensures
        (x + swap_in_given_out(x, y, f, a_out)) * (y - a_out) >= x * y,
{
    let e: int = y - a_out;
    let q: int = x * y / e;
    let r: int = (x * y) % e;
    lemma_fundamental_div_mod(x * y, e);
    lemma_mod_division_less_than_divisor(x * y, e);
    lemma_swap_in_nonneg(x, y, f, a_out);
    let delta: int = q - x;
    let a_in: int = swap_in_given_out(x, y, f, a_out);
    assert(delta * 1000 >= (delta + 1) * (1000 - f)) by (nonlinear_arith)
        requires
            (delta + 1) * f >= 1000,
            delta >= 0,
            f <= 999,
    ;
    lemma_div_is_ordered((delta + 1) * (1000 - f), delta * 1000, 1000 - f);
    lemma_div_multiples_vanish(delta + 1, 1000 - f);
    assert((delta + 1) * (1000 - f) == (1000 - f) * (delta + 1)) by (nonlinear_arith);
    assert(a_in >= delta + 1);
    assert((x + a_in) * e >= (q + 1) * e) by (nonlinear_arith)
        requires
            x + a_in >= q + 1,
            e >= 1,
    ;
    assert((q + 1) * e == q * e + e) by (nonlinear_arith);
    assert(x * y == e * q + r);
    assert(e * q == q * e) by (nonlinear_arith);
}

/// A non-negative numerator strictly below `c * d` divides to strictly
/// below `c`.
proof fn lemma_div_by_multiple_bound(n: int, c: int, d: int)
    requires
        d >= 1,
        n >= 0,
        n < c * d,
    ensures
        n / d < c,
{
    lemma_fundamental_div_mod(n, d);
    if n / d >= c {
        assert(d * (n / d) >= d * c) by (nonlinear_arith)
            requires
                d >= 1,
                n / d >= c,
        ;
        assert(d * c == c * d) by (nonlinear_arith);
    }
}

} // verus!
