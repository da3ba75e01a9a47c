//! The pool ledger: per-account balances, the shared liquidity pool, and
//! the operations that mutate them.
//!
//! Accounts are opaque identifiers supplied by the caller's environment; the
//! ledger only uses them as mapping keys, so they appear here as plain
//! `u64` values.  A key that was never written stands for a zero balance.
//!
//! Every operation validates before it mutates: on any error the ledger is
//! returned unchanged, and the contracts below say so.

use vstd::prelude::*;

use std::collections::HashMap;

verus! {

broadcast use vstd::std_specs::hash::group_hash_axioms;

use crate::math::PRECISION;
use crate::math::fee_adjusted;
use crate::math::lemma_fee_adjusted_bounds;
use crate::math::lemma_provide_withdraw_round_trip;
use crate::math::lemma_swap_in_constant_product;
use crate::math::lemma_swap_out_constant_product;
use crate::math::lemma_swap_in_nonneg;
use crate::math::lemma_swap_out_bounds;
use crate::math::lemma_withdraw_bounds;
use crate::math::share_for_provide;
use crate::math::swap_in_given_out;
use crate::math::swap_out_given_in;
use crate::math::withdraw_amount;

/// Everything an operation can fail with.  Every error is returned before
/// any state is touched.
#[derive(Clone, Copy, Debug, PartialEq, Eq)]
pub enum Error {
    /// The pool has no reserves; no pricing read can be answered.
    ZeroLiquidity,
    /// A declared amount or share is zero where a positive value is required.
    ZeroAmount,
    /// The caller's tracked balance is less than a declared amount.
    InsufficientAmount,
    /// The supplied token amounts do not match the pool ratio exactly.
    NonEquivalentValue,
    /// The contribution is too small to mint any share.
    ThresholdNotReached,
    /// The redeemed share exceeds the total outstanding shares.
    InvalidShare,
    /// The requested output reaches or exceeds the reserve of that token.
    InsufficientLiquidity,
    /// The computed price violates the caller's min/max bound.
    SlippageExceeded,
}

/// The constant-product market maker: aggregate pool totals plus the
/// per-account balance store.
pub struct Amm {
    total_shares: u128,
    total_token1: u128,
    total_token2: u128,
    shares: HashMap<u64, u128>,
    token1_balance: HashMap<u64, u128>,
    token2_balance: HashMap<u64, u128>,
    fees: u128,
}

/// Balance of `who` in a store where an absent key means zero.
pub open spec fn stored(m: Map<u64, u128>, who: u64) -> u128 {
    if m.contains_key(who) {
        m[who]
    } else {
        0
    }
}

/// Outcome of `provide` on a pool holding `x` of token1, `y` of token2 and
/// `s` shares, for a caller with free balances `b1` and `b2` contributing
/// `a1` and `a2`.  Validation order is part of the interface: each declared
/// amount is checked (zero, then sufficiency) before the ratio, and the
/// ratio before the minting threshold.
pub open spec fn provide_outcome(
    x: int,
    y: int,
    s: int,
    b1: int,
    b2: int,
    a1: int,
    a2: int,
) -> Result<int, Error> {
    if a1 == 0 {
        Err(Error::ZeroAmount)
    } else if a1 > b1 {
        Err(Error::InsufficientAmount)
    } else if a2 == 0 {
        Err(Error::ZeroAmount)
    } else if a2 > b2 {
        Err(Error::InsufficientAmount)
    } else if s != 0 && s * a1 / x != s * a2 / y {
        Err(Error::NonEquivalentValue)
    } else if share_for_provide(x, s, a1) == 0 {
        Err(Error::ThresholdNotReached)
    } else {
        Ok(share_for_provide(x, s, a1))
    }
}

/// Outcome of a withdraw estimate: the pool must be funded and the share
/// within the outstanding total; the payout is the share's proportion of
/// each reserve, truncated.
pub open spec fn withdraw_estimate_outcome(x: int, y: int, s: int, share: int) -> Result<
    (int, int),
    Error,
> {
    if x * y == 0 {
        Err(Error::ZeroLiquidity)
    } else if share > s {
        Err(Error::InvalidShare)
    } else {
        Ok((withdraw_amount(x, s, share), withdraw_amount(y, s, share)))
    }
}

/// Outcome of `withdraw` for a caller holding `held` shares redeeming
/// `share` of them: the holding is validated first, then the estimate runs.
pub open spec fn withdraw_outcome(x: int, y: int, s: int, held: int, share: int) -> Result<
    (int, int),
    Error,
> {
    if share == 0 {
        Err(Error::ZeroAmount)
    } else if share > held {
        Err(Error::InsufficientAmount)
    } else {
        withdraw_estimate_outcome(x, y, s, share)
    }
}

/// Outcome of a swap estimate given the input amount, with `x` the
/// input-side reserve and `y` the output-side reserve.
pub open spec fn swap_out_outcome(x: int, y: int, f: int, a_in: int) -> Result<int, Error> {
    if x * y == 0 {
        Err(Error::ZeroLiquidity)
    } else {
        Ok(swap_out_given_in(x, y, f, a_in))
    }
}

/// Outcome of a swap estimate given the desired output amount, with `x` the
/// input-side reserve and `y` the output-side reserve: the output may never
/// reach the whole reserve.
pub open spec fn swap_in_outcome(x: int, y: int, f: int, a_out: int) -> Result<int, Error> {
    if x * y == 0 {
        Err(Error::ZeroLiquidity)
    } else if a_out >= y {
        Err(Error::InsufficientLiquidity)
    } else {
        Ok(swap_in_given_out(x, y, f, a_out))
    }
}

/// Outcome of a mutating swap given the input amount: the caller's balance
/// in the input token is validated first, then the estimate runs, then the
/// slippage bound is checked against the estimated output.
pub open spec fn swap_exact_in_outcome(
    x: int,
    y: int,
    f: int,
    b_in: int,
    a_in: int,
    min_out: int,
) -> Result<int, Error> {
    if a_in == 0 {
        Err(Error::ZeroAmount)
    } else if a_in > b_in {
        Err(Error::InsufficientAmount)
    } else if x * y == 0 {
        Err(Error::ZeroLiquidity)
    } else if swap_out_given_in(x, y, f, a_in) < min_out {
        Err(Error::SlippageExceeded)
    } else {
        Ok(swap_out_given_in(x, y, f, a_in))
    }
}

/// Outcome of a mutating swap given the desired output amount.  The order
/// is part of the interface: the slippage bound is checked on the estimated
/// input *before* the caller's balance, so a caller with an acceptable
/// bound but insufficient funds sees `InsufficientAmount`, and a caller
/// with an unacceptable bound sees `SlippageExceeded` whatever they hold.
pub open spec fn swap_exact_out_outcome(
    x: int,
    y: int,
    f: int,
    b_in: int,
    a_out: int,
    max_in: int,
) -> Result<int, Error> {
    if x * y == 0 {
        Err(Error::ZeroLiquidity)
    } else if a_out >= y {
        Err(Error::InsufficientLiquidity)
    } else if swap_in_given_out(x, y, f, a_out) > max_in {
        Err(Error::SlippageExceeded)
    } else if swap_in_given_out(x, y, f, a_out) == 0 {
        Err(Error::ZeroAmount)
    } else if swap_in_given_out(x, y, f, a_out) > b_in {
        Err(Error::InsufficientAmount)
    } else {
        Ok(swap_in_given_out(x, y, f, a_out))
    }
}

/// Round-trip law at the operation level: when `provide` succeeds with
/// amounts `(a1, a2)` and mints `sh` shares, then `withdraw(sh)` on the
/// resulting pool — untouched in between — succeeds and returns at most
/// `(a1, a2)`, and exactly `(a1, a2)` when the contribution was the genesis
/// one.  `x`, `y`, `s` are the pool totals before the contribution and
/// `held` the caller's share holding after it.
pub proof fn lemma_provide_then_withdraw(
    x: int,
    y: int,
    s: int,
    b1: int,
    b2: int,
    a1: int,
    a2: int,
    sh: int,
    held: int,
)
    requires
        s == 0 ==> x == 0 && y == 0,
        s != 0 ==> x >= 1 && y >= 1,
        s >= 0,
        a1 >= 0,
        a2 >= 0,
        provide_outcome(x, y, s, b1, b2, a1, a2) == Ok::<int, Error>(sh),
        held >= sh,
    ensures
        withdraw_outcome(x + a1, y + a2, s + sh, held, sh) matches Ok(w) && w.0 <= a1 && w.1
            <= a2,
        s == 0 ==> (withdraw_outcome(x + a1, y + a2, s + sh, held, sh) matches Ok(w) && w.0 == a1
            && w.1 == a2),
{
    lemma_provide_withdraw_round_trip(x, y, s, a1, a2);
    assert((x + a1) * (y + a2) >= 1) by (nonlinear_arith)
        requires
            x + a1 >= 1,
            y + a2 >= 1,
    ;
}

/// Constant-product law for a committed swap given its input, in either
/// direction: with a positive fee, a pool deep enough that the product of
/// the reserves is at least the square of the fee-adjusted input-side
/// reserve keeps `x * y` from decreasing.  `x` and `y` are the input- and
/// output-side reserves, and the pool after the swap holds exactly
/// `(x + a_in, y - out)`.
pub proof fn lemma_swap_exact_in_keeps_product(
    x: int,
    y: int,
    f: int,
    b_in: int,
    a_in: int,
    min_out: int,
    out: int,
)
    requires
        x >= 1,
        y >= 1,
        1 <= f <= 999,
        a_in >= 0,
        swap_exact_in_outcome(x, y, f, b_in, a_in, min_out) == Ok::<int, Error>(out),
        x * y >= (x + fee_adjusted(f, a_in)) * (x + fee_adjusted(f, a_in)),
    ensures
        (x + a_in) * (y - out) >= x * y,
{
    lemma_swap_in_constant_product(x, y, f, a_in);
}

/// Constant-product law for a committed swap given its output, in either
/// direction: with a positive fee, whenever the demanded output is large
/// enough that the fee surcharge adds at least one whole input unit,
/// `x * y` does not decrease.  The pool after the swap holds exactly
/// `(x + a_in, y - a_out)`.
pub proof fn lemma_swap_exact_out_keeps_product(
    x: int,
    y: int,
    f: int,
    b_in: int,
    a_out: int,
    max_in: int,
    a_in: int,
)
    requires
        x >= 1,
        y >= 1,
        1 <= f <= 999,
        a_out >= 0,
        swap_exact_out_outcome(x, y, f, b_in, a_out, max_in) == Ok::<int, Error>(a_in),
        (x * y / (y - a_out) - x + 1) * f >= 1000,
    ensures
        (x + a_in) * (y - a_out) >= x * y,
{
    lemma_swap_out_constant_product(x, y, f, a_out);
}

/// Under the pool invariant, the liquidity constant is zero exactly when
/// no shares are outstanding.
proof fn lemma_pool_product(a: Amm)
    requires
        a.wf(),
    ensures
        (a.total1() * a.total2() == 0) <==> (a.shares_total() == 0),
{
    if a.shares_total() != 0 {
        assert(a.total1() * a.total2() >= 1) by (nonlinear_arith)
            requires
                a.total1() >= 1,
                a.total2() >= 1,
        ;
    } else {
        assert(a.total1() * a.total2() == 0) by (nonlinear_arith)
            requires
                a.total1() == 0,
        ;
    }
}

impl Amm {
    /// Total amount of token1 locked in the pool.
    pub closed spec fn total1(self) -> u128 {
        self.total_token1
    }

    /// Total amount of token2 locked in the pool.
    pub closed spec fn total2(self) -> u128 {
        self.total_token2
    }

    /// Total amount of shares issued for the pool.
    pub closed spec fn shares_total(self) -> u128 {
        self.total_shares
    }

    /// Trading fee, a numerator over 1000.
    pub closed spec fn fee(self) -> u128 {
        self.fees
    }

    /// Free token1 balance of `who`.
    pub closed spec fn bal1(self, who: u64) -> u128 {
        stored(self.token1_balance@, who)
    }

    /// Free token2 balance of `who`.
    pub closed spec fn bal2(self, who: u64) -> u128 {
        stored(self.token2_balance@, who)
    }

    /// Share holding of `who`.
    pub closed spec fn share_of(self, who: u64) -> u128 {
        stored(self.shares@, who)
    }

    /// The pool's well-formedness: the fee numerator is below 1000, and the
    /// pool is empty exactly when no shares are outstanding — whenever
    /// shares exist, both reserves are positive.
    pub open spec fn wf(self) -> bool {
        &&& self.fee() < 1000
        &&& self.shares_total() == 0 ==> self.total1() == 0 && self.total2() == 0
        &&& self.shares_total() != 0 ==> self.total1() >= 1 && self.total2() >= 1
    }

    /// Constructs an empty pool.  A fee numerator outside `[0, 1000)` is
    /// silently coerced to zero, never rejected.
    pub fn new(fees: u128) -> (amm: Amm)
        ensures
            amm.wf(),
            amm.total1() == 0,
            amm.total2() == 0,
            amm.shares_total() == 0,
            amm.fee() == if fees >= 1000 { 0u128 } else { fees },
            forall|q: u64| amm.bal1(q) == 0 && amm.bal2(q) == 0 && amm.share_of(q) == 0,
    {
        Amm {
            total_shares: 0,
            total_token1: 0,
            total_token2: 0,
            shares: HashMap::new(),
            token1_balance: HashMap::new(),
            token2_balance: HashMap::new(),
            fees: if fees >= 1000 { 0 } else { fees },
        }
    }

    /// Reads a balance store, treating an absent key as zero.
    fn lookup(m: &HashMap<u64, u128>, who: u64) -> (r: u128)
        ensures
            r == stored(m@, who),
    {
        match m.get(&who) {
            Some(v) => *v,
            None => 0,
        }
    }

    /// Checks that `qty` is non-zero and that `who` holds at least `qty` in
    /// the given balance store.
    fn valid_amount_check(m: &HashMap<u64, u128>, who: u64, qty: u128) -> (r: Result<(), Error>)
        ensures
            r == if qty == 0 {
                Err::<(), Error>(Error::ZeroAmount)
            } else if qty > stored(m@, who) {
                Err::<(), Error>(Error::InsufficientAmount)
            } else {
                Ok::<(), Error>(())
            },
    {
        let my_balance = Self::lookup(m, who);
        if qty == 0 {
            Err(Error::ZeroAmount)
        } else if qty > my_balance {
            Err(Error::InsufficientAmount)
        } else {
            Ok(())
        }
    }

    /// The liquidity constant of the pool.
    fn get_k(&self) -> (k: u128)
        requires
            self.total1() * self.total2() <= u128::MAX,
        ensures
            k == self.total1() * self.total2(),
    {
        self.total_token1 * self.total_token2
    }

    /// Restricts pricing reads, withdrawals and swaps to a funded pool.
    fn active_pool(&self) -> (r: Result<(), Error>)
        requires
            self.total1() * self.total2() <= u128::MAX,
        ensures
            r == if self.total1() * self.total2() == 0 {
                Err::<(), Error>(Error::ZeroLiquidity)
            } else {
                Ok::<(), Error>(())
            },
    {
        if self.get_k() == 0 {
            Err(Error::ZeroLiquidity)
        } else {
            Ok(())
        }
    }

    /// Credits free tokens to the caller: a pure ledger credit with no
    /// validation, callable by anyone, any number of times.
    pub fn faucet(&mut self, caller: u64, amount_token1: u128, amount_token2: u128)
        requires
            old(self).wf(),
            old(self).bal1(caller) + amount_token1 <= u128::MAX,
            old(self).bal2(caller) + amount_token2 <= u128::MAX,
        ensures
            final(self).wf(),
            final(self).total1() == old(self).total1(),
            final(self).total2() == old(self).total2(),
            final(self).shares_total() == old(self).shares_total(),
            final(self).fee() == old(self).fee(),
            final(self).bal1(caller) == old(self).bal1(caller) + amount_token1,
            final(self).bal2(caller) == old(self).bal2(caller) + amount_token2,
            final(self).share_of(caller) == old(self).share_of(caller),
            forall|q: u64|
                q != caller ==> final(self).bal1(q) == old(self).bal1(q) && final(self).bal2(q)
                    == old(self).bal2(q) && final(self).share_of(q) == old(self).share_of(q),
    {
        let token1 = Self::lookup(&self.token1_balance, caller);
        let token2 = Self::lookup(&self.token2_balance, caller);
        self.token1_balance.insert(caller, token1 + amount_token1);
        self.token2_balance.insert(caller, token2 + amount_token2);
    }

    /// Returns the caller's free token balances and share holding.
    pub fn get_my_holdings(&self, caller: u64) -> (r: (u128, u128, u128))
        ensures
            r.0 == self.bal1(caller),
            r.1 == self.bal2(caller),
            r.2 == self.share_of(caller),
    {
        let token1 = Self::lookup(&self.token1_balance, caller);
        let token2 = Self::lookup(&self.token2_balance, caller);
        let my_shares = Self::lookup(&self.shares, caller);
        (token1, token2, my_shares)
    }

    /// Returns the pool totals, total shares issued and the fee numerator.
    pub fn get_pool_details(&self) -> (r: (u128, u128, u128, u128))
        ensures
            r.0 == self.total1(),
            r.1 == self.total2(),
            r.2 == self.shares_total(),
            r.3 == self.fee(),
    {
        (self.total_token1, self.total_token2, self.total_shares, self.fees)
    }

    /// Amount of token1 that matches `amount_token2` of token2 at the
    /// current pool ratio, truncated.
    pub fn get_equivalent_token1_estimate(&self, amount_token2: u128) -> (r: Result<u128, Error>)
        requires
            self.wf(),
            self.total1() * self.total2() <= u128::MAX,
            self.total1() * amount_token2 <= u128::MAX,
        ensures
            self.shares_total() == 0 ==> r == Err::<u128, Error>(Error::ZeroLiquidity),
            self.shares_total() != 0 ==> (r matches Ok(v) && v == self.total1() * amount_token2
                / (self.total2() as int)),
    {
        proof {
            lemma_pool_product(*self);
        }
        match self.active_pool() {
            Err(e) => return Err(e),
            Ok(()) => {},
        }
        Ok(self.total_token1 * amount_token2 / self.total_token2)
    }

    /// Amount of token2 that matches `amount_token1` of token1 at the
    /// current pool ratio, truncated.
    pub fn get_equivalent_token2_estimate(&self, amount_token1: u128) -> (r: Result<u128, Error>)
        requires
            self.wf(),
            self.total1() * self.total2() <= u128::MAX,
            self.total2() * amount_token1 <= u128::MAX,
        ensures
            self.shares_total() == 0 ==> r == Err::<u128, Error>(Error::ZeroLiquidity),
            self.shares_total() != 0 ==> (r matches Ok(v) && v == self.total2() * amount_token1
                / (self.total1() as int)),
    {
        proof {
            lemma_pool_product(*self);
        }
        match self.active_pool() {
            Err(e) => return Err(e),
            Ok(()) => {},
        }
        Ok(self.total_token2 * amount_token1 / self.total_token1)
    }

    /// Locks the declared amounts into the pool and mints shares for the
    /// caller.  The first-ever contribution mints `100 * PRECISION` shares
    /// whatever its ratio; later contributions must match the pool ratio
    /// exactly, after truncation, and must be large enough to mint at least
    /// one share.
    pub fn provide(&mut self, caller: u64, amount_token1: u128, amount_token2: u128) -> (r: Result<
        u128,
        Error,
    >)
        requires
            old(self).wf(),
            1 <= amount_token1 <= old(self).bal1(caller) && 1 <= amount_token2 <= old(self).bal2(
                caller,
            ) && old(self).shares_total() != 0 ==> old(self).shares_total() * amount_token1
                <= u128::MAX && old(self).shares_total() * amount_token2 <= u128::MAX,
            provide_outcome(
                old(self).total1() as int,
                old(self).total2() as int,
                old(self).shares_total() as int,
                old(self).bal1(caller) as int,
                old(self).bal2(caller) as int,
                amount_token1 as int,
                amount_token2 as int,
            ) is Ok ==> old(self).total1() + amount_token1 <= u128::MAX && old(self).total2()
                + amount_token2 <= u128::MAX && old(self).shares_total() + share_for_provide(
                old(self).total1() as int,
                old(self).shares_total() as int,
                amount_token1 as int,
            ) <= u128::MAX && old(self).share_of(caller) + share_for_provide(
                old(self).total1() as int,
                old(self).shares_total() as int,
                amount_token1 as int,
            ) <= u128::MAX,
        ensures
            final(self).wf(),
            match provide_outcome(
                old(self).total1() as int,
                old(self).total2() as int,
                old(self).shares_total() as int,
                old(self).bal1(caller) as int,
                old(self).bal2(caller) as int,
                amount_token1 as int,
                amount_token2 as int,
            ) {
                Ok(sh) => {
                    &&& r matches Ok(v) && v == sh
                    &&& final(self).total1() == old(self).total1() + amount_token1
                    &&& final(self).total2() == old(self).total2() + amount_token2
                    &&& final(self).shares_total() == old(self).shares_total() + sh
                    &&& final(self).fee() == old(self).fee()
                    &&& final(self).bal1(caller) == old(self).bal1(caller) - amount_token1
                    &&& final(self).bal2(caller) == old(self).bal2(caller) - amount_token2
                    &&& final(self).share_of(caller) == old(self).share_of(caller) + sh
                    &&& forall|q: u64|
                        q != caller ==> final(self).bal1(q) == old(self).bal1(q)
                            && final(self).bal2(q) == old(self).bal2(q)
                            && final(self).share_of(q) == old(self).share_of(q)
                },
                Err(e) => r == Err::<u128, Error>(e) && *final(self) == *old(self),
            },
    {
        match Self::valid_amount_check(&self.token1_balance, caller, amount_token1) {
            Err(e) => return Err(e),
            Ok(()) => {},
        }
        match Self::valid_amount_check(&self.token2_balance, caller, amount_token2) {
            Err(e) => return Err(e),
            Ok(()) => {},
        }
        let share: u128;
        if self.total_shares == 0 {
            // The genesis contribution is issued 100 shares at full precision
            share = 100 * PRECISION;
        } else {
            let share1 = self.total_shares * amount_token1 / self.total_token1;
            let share2 = self.total_shares * amount_token2 / self.total_token2;
            if share1 != share2 {
                return Err(Error::NonEquivalentValue);
            }
            share = share1;
        }
        if share == 0 {
            return Err(Error::ThresholdNotReached);
        }
        let token1 = Self::lookup(&self.token1_balance, caller);
        let token2 = Self::lookup(&self.token2_balance, caller);
        self.token1_balance.insert(caller, token1 - amount_token1);
        self.token2_balance.insert(caller, token2 - amount_token2);
        self.total_token1 = self.total_token1 + amount_token1;
        self.total_token2 = self.total_token2 + amount_token2;
        self.total_shares = self.total_shares + share;
        let shares_held = Self::lookup(&self.shares, caller);
        self.shares.insert(caller, shares_held + share);
        Ok(share)
    }

    /// Estimates the token amounts released on burning `share` shares at
    /// the current pool ratio.
    pub fn get_withdraw_estimate(&self, share: u128) -> (r: Result<(u128, u128), Error>)
        requires
            self.wf(),
            self.total1() * self.total2() <= u128::MAX,
            self.shares_total() != 0 && share <= self.shares_total() ==> share * self.total1()
                <= u128::MAX && share * self.total2() <= u128::MAX,
        ensures
            match withdraw_estimate_outcome(
                self.total1() as int,
                self.total2() as int,
                self.shares_total() as int,
                share as int,
            ) {
                Ok(a) => r matches Ok(v) && v.0 == a.0 && v.1 == a.1 && v.0 <= self.total1() && v.1
                    <= self.total2(),
                Err(e) => r == Err::<(u128, u128), Error>(e),
            },
    {
        proof {
            lemma_pool_product(*self);
        }
        match self.active_pool() {
            Err(e) => return Err(e),
            Ok(()) => {},
        }
        if share > self.total_shares {
            return Err(Error::InvalidShare);
        }
        proof {
            lemma_withdraw_bounds(
                self.total1() as int,
                self.shares_total() as int,
                share as int,
            );
            lemma_withdraw_bounds(
                self.total2() as int,
                self.shares_total() as int,
                share as int,
            );
        }
        let amount_token1 = share * self.total_token1 / self.total_shares;
        let amount_token2 = share * self.total_token2 / self.total_shares;
        Ok((amount_token1, amount_token2))
    }

    /// Burns `share` of the caller's shares and releases the matching
    /// proportion of both reserves to the caller's free balances.
    pub fn withdraw(&mut self, caller: u64, share: u128) -> (r: Result<(u128, u128), Error>)
        requires
            old(self).wf(),
            1 <= share <= old(self).share_of(caller) ==> old(self).total1() * old(self).total2()
                <= u128::MAX,
            1 <= share <= old(self).share_of(caller) && old(self).shares_total() != 0 && share
                <= old(self).shares_total() ==> share * old(self).total1() <= u128::MAX && share
                * old(self).total2() <= u128::MAX,
            withdraw_outcome(
                old(self).total1() as int,
                old(self).total2() as int,
                old(self).shares_total() as int,
                old(self).share_of(caller) as int,
                share as int,
            ) matches Ok(a) ==> old(self).bal1(caller) + a.0 <= u128::MAX && old(self).bal2(caller)
                + a.1 <= u128::MAX,
        ensures
            final(self).wf(),
            match withdraw_outcome(
                old(self).total1() as int,
                old(self).total2() as int,
                old(self).shares_total() as int,
                old(self).share_of(caller) as int,
                share as int,
            ) {
                Ok(a) => {
                    &&& r matches Ok(v) && v.0 == a.0 && v.1 == a.1
                    &&& final(self).total1() == old(self).total1() - a.0
                    &&& final(self).total2() == old(self).total2() - a.1
                    &&& final(self).shares_total() == old(self).shares_total() - share
                    &&& final(self).fee() == old(self).fee()
                    &&& final(self).bal1(caller) == old(self).bal1(caller) + a.0
                    &&& final(self).bal2(caller) == old(self).bal2(caller) + a.1
                    &&& final(self).share_of(caller) == old(self).share_of(caller) - share
                    &&& forall|q: u64|
                        q != caller ==> final(self).bal1(q) == old(self).bal1(q)
                            && final(self).bal2(q) == old(self).bal2(q)
                            && final(self).share_of(q) == old(self).share_of(q)
                },
                Err(e) => r == Err::<(u128, u128), Error>(e) && *final(self) == *old(self),
            },
    {
        match Self::valid_amount_check(&self.shares, caller, share) {
            Err(e) => return Err(e),
            Ok(()) => {},
        }
        let (amount_token1, amount_token2) = match self.get_withdraw_estimate(share) {
            Err(e) => return Err(e),
            Ok(a) => a,
        };
        proof {
            lemma_withdraw_bounds(
                self.total1() as int,
                self.shares_total() as int,
                share as int,
            );
            lemma_withdraw_bounds(
                self.total2() as int,
                self.shares_total() as int,
                share as int,
            );
        }
        let shares_held = Self::lookup(&self.shares, caller);
        self.shares.insert(caller, shares_held - share);
        self.total_shares = self.total_shares - share;
        self.total_token1 = self.total_token1 - amount_token1;
        self.total_token2 = self.total_token2 - amount_token2;
        let balance1 = Self::lookup(&self.token1_balance, caller);
        self.token1_balance.insert(caller, balance1 + amount_token1);
        let balance2 = Self::lookup(&self.token2_balance, caller);
        self.token2_balance.insert(caller, balance2 + amount_token2);
        Ok((amount_token1, amount_token2))
    }

    /// Amount of token2 received for swapping in `amount_token1` of token1.
    pub fn get_swap_token1_estimate_given_token1(&self, amount_token1: u128) -> (r: Result<
        u128,
        Error,
    >)
        requires
            self.wf(),
            self.total1() * self.total2() <= u128::MAX,
            self.shares_total() != 0 ==> (1000 - self.fee()) * amount_token1 <= u128::MAX
                && self.total1() + fee_adjusted(self.fee() as int, amount_token1 as int)
                <= u128::MAX,
        ensures
            match swap_out_outcome(
                self.total1() as int,
                self.total2() as int,
                self.fee() as int,
                amount_token1 as int,
            ) {
                Ok(v) => r matches Ok(o) && o == v && v < self.total2(),
                Err(e) => r == Err::<u128, Error>(e),
            },
    {
        proof {
            lemma_pool_product(*self);
        }
        match self.active_pool() {
            Err(e) => return Err(e),
            Ok(()) => {},
        }
        proof {
            lemma_fee_adjusted_bounds(self.fee() as int, amount_token1 as int);
            lemma_swap_out_bounds(
                self.total1() as int,
                self.total2() as int,
                self.fee() as int,
                amount_token1 as int,
            );
        }
        // Adjust for the fee charged; the fee stays in the pool
        let amount_in = (1000 - self.fees) * amount_token1 / 1000;
        let token1_after = self.total_token1 + amount_in;
        let token2_after = self.get_k() / token1_after;
        let mut amount_token2 = self.total_token2 - token2_after;
        // Hold one unit back rather than drain the token2 reserve completely
        if amount_token2 == self.total_token2 {
            amount_token2 = amount_token2 - 1;
        }
        Ok(amount_token2)
    }

    /// Amount of token1 that must be swapped in to receive `amount_token2`
    /// of token2.
    pub fn get_swap_token1_estimate_given_token2(&self, amount_token2: u128) -> (r: Result<
        u128,
        Error,
    >)
        requires
            self.wf(),
            self.total1() * self.total2() <= u128::MAX,
            self.shares_total() != 0 && amount_token2 < self.total2() ==> (self.total1()
                * self.total2() / (self.total2() - amount_token2) - self.total1()) * 1000
                <= u128::MAX,
        ensures
            match swap_in_outcome(
                self.total1() as int,
                self.total2() as int,
                self.fee() as int,
                amount_token2 as int,
            ) {
                Ok(v) => r matches Ok(o) && o == v,
                Err(e) => r == Err::<u128, Error>(e),
            },
    {
        proof {
            lemma_pool_product(*self);
        }
        match self.active_pool() {
            Err(e) => return Err(e),
            Ok(()) => {},
        }
        if amount_token2 >= self.total_token2 {
            return Err(Error::InsufficientLiquidity);
        }
        proof {
            lemma_swap_in_nonneg(
                self.total1() as int,
                self.total2() as int,
                self.fee() as int,
                amount_token2 as int,
            );
        }
        let token2_after = self.total_token2 - amount_token2;
        let token1_after = self.get_k() / token2_after;
        let amount_token1 = (token1_after - self.total_token1) * 1000 / (1000 - self.fees);
        Ok(amount_token1)
    }

    /// Amount of token1 received for swapping in `amount_token2` of token2.
    pub fn get_swap_token2_estimate_given_token2(&self, amount_token2: u128) -> (r: Result<
        u128,
        Error,
    >)
        requires
            self.wf(),
            self.total1() * self.total2() <= u128::MAX,
            self.shares_total() != 0 ==> (1000 - self.fee()) * amount_token2 <= u128::MAX
                && self.total2() + fee_adjusted(self.fee() as int, amount_token2 as int)
                <= u128::MAX,
        ensures
            match swap_out_outcome(
                self.total2() as int,
                self.total1() as int,
                self.fee() as int,
                amount_token2 as int,
            ) {
                Ok(v) => r matches Ok(o) && o == v && v < self.total1(),
                Err(e) => r == Err::<u128, Error>(e),
            },
    {
        proof {
            lemma_pool_product(*self);
            assert(self.total2() * self.total1() == self.total1() * self.total2())
                by (nonlinear_arith);
        }
        match self.active_pool() {
            Err(e) => return Err(e),
            Ok(()) => {},
        }
        proof {
            lemma_fee_adjusted_bounds(self.fee() as int, amount_token2 as int);
            lemma_swap_out_bounds(
                self.total2() as int,
                self.total1() as int,
                self.fee() as int,
                amount_token2 as int,
            );
        }
        // Adjust for the fee charged; the fee stays in the pool
        let amount_in = (1000 - self.fees) * amount_token2 / 1000;
        let token2_after = self.total_token2 + amount_in;
        let token1_after = self.get_k() / token2_after;
        let mut amount_token1 = self.total_token1 - token1_after;
        // Hold one unit back rather than drain the token1 reserve completely
        if amount_token1 == self.total_token1 {
            amount_token1 = amount_token1 - 1;
        }
        Ok(amount_token1)
    }

    /// Amount of token2 that must be swapped in to receive `amount_token1`
    /// of token1.
    pub fn get_swap_token2_estimate_given_token1(&self, amount_token1: u128) -> (r: Result<
        u128,
        Error,
    >)
        requires
            self.wf(),
            self.total1() * self.total2() <= u128::MAX,
            self.shares_total() != 0 && amount_token1 < self.total1() ==> (self.total1()
                * self.total2() / (self.total1() - amount_token1) - self.total2()) * 1000
                <= u128::MAX,
        ensures
            match swap_in_outcome(
                self.total2() as int,
                self.total1() as int,
                self.fee() as int,
                amount_token1 as int,
            ) {
                Ok(v) => r matches Ok(o) && o == v,
                Err(e) => r == Err::<u128, Error>(e),
            },
    {
        proof {
            lemma_pool_product(*self);
            assert(self.total2() * self.total1() == self.total1() * self.total2())
                by (nonlinear_arith);
        }
        match self.active_pool() {
            Err(e) => return Err(e),
            Ok(()) => {},
        }
        if amount_token1 >= self.total_token1 {
            return Err(Error::InsufficientLiquidity);
        }
        proof {
            lemma_swap_in_nonneg(
                self.total2() as int,
                self.total1() as int,
                self.fee() as int,
                amount_token1 as int,
            );
        }
        let token1_after = self.total_token1 - amount_token1;
        let token2_after = self.get_k() / token1_after;
        let amount_token2 = (token2_after - self.total_token2) * 1000 / (1000 - self.fees);
        Ok(amount_token2)
    }

    /// Swaps `amount_token1` of the caller's token1 for token2 at the
    /// algorithmic price; fails with `SlippageExceeded` if the output would
    /// fall below `min_token2`.
    pub fn swap_token1_given_token1(
        &mut self,
        caller: u64,
        amount_token1: u128,
        min_token2: u128,
    ) -> (r: Result<u128, Error>)
        requires
            old(self).wf(),
            1 <= amount_token1 <= old(self).bal1(caller) ==> old(self).total1() * old(
                self,
            ).total2() <= u128::MAX && (old(self).shares_total() != 0 ==> (1000 - old(self).fee())
                * amount_token1 <= u128::MAX && old(self).total1() + fee_adjusted(
                old(self).fee() as int,
                amount_token1 as int,
            ) <= u128::MAX),
            swap_exact_in_outcome(
                old(self).total1() as int,
                old(self).total2() as int,
                old(self).fee() as int,
                old(self).bal1(caller) as int,
                amount_token1 as int,
                min_token2 as int,
            ) matches Ok(out) ==> old(self).total1() + amount_token1 <= u128::MAX && old(self).bal2(
                caller,
            ) + out <= u128::MAX,
        ensures
            final(self).wf(),
            match swap_exact_in_outcome(
                old(self).total1() as int,
                old(self).total2() as int,
                old(self).fee() as int,
                old(self).bal1(caller) as int,
                amount_token1 as int,
                min_token2 as int,
            ) {
                Ok(out) => {
                    &&& r matches Ok(v) && v == out
                    &&& final(self).total1() == old(self).total1() + amount_token1
                    &&& final(self).total2() == old(self).total2() - out
                    &&& final(self).total2() >= 1
                    &&& final(self).shares_total() == old(self).shares_total()
                    &&& final(self).fee() == old(self).fee()
                    &&& final(self).bal1(caller) == old(self).bal1(caller) - amount_token1
                    &&& final(self).bal2(caller) == old(self).bal2(caller) + out
                    &&& final(self).share_of(caller) == old(self).share_of(caller)
                    &&& forall|q: u64|
                        q != caller ==> final(self).bal1(q) == old(self).bal1(q)
                            && final(self).bal2(q) == old(self).bal2(q)
                            && final(self).share_of(q) == old(self).share_of(q)
                },
                Err(e) => r == Err::<u128, Error>(e) && *final(self) == *old(self),
            },
    {
        proof {
            lemma_pool_product(*self);
        }
        match Self::valid_amount_check(&self.token1_balance, caller, amount_token1) {
            Err(e) => return Err(e),
            Ok(()) => {},
        }
        let amount_token2 = match self.get_swap_token1_estimate_given_token1(amount_token1) {
            Err(e) => return Err(e),
            Ok(v) => v,
        };
        if amount_token2 < min_token2 {
            return Err(Error::SlippageExceeded);
        }
        let balance1 = Self::lookup(&self.token1_balance, caller);
        self.token1_balance.insert(caller, balance1 - amount_token1);
        self.total_token1 = self.total_token1 + amount_token1;
        self.total_token2 = self.total_token2 - amount_token2;
        let balance2 = Self::lookup(&self.token2_balance, caller);
        self.token2_balance.insert(caller, balance2 + amount_token2);
        Ok(amount_token2)
    }

    /// Swaps as much of the caller's token1 as needed to receive exactly
    /// `amount_token2` of token2; fails with `SlippageExceeded` if the
    /// required input exceeds `max_token1`.  The slippage bound is checked
    /// before the caller's balance.
    pub fn swap_token1_given_token2(
        &mut self,
        caller: u64,
        amount_token2: u128,
        max_token1: u128,
    ) -> (r: Result<u128, Error>)
        requires
            old(self).wf(),
            old(self).total1() * old(self).total2() <= u128::MAX,
            old(self).shares_total() != 0 && amount_token2 < old(self).total2() ==> (old(
                self,
            ).total1() * old(self).total2() / (old(self).total2() - amount_token2) - old(
                self,
            ).total1()) * 1000 <= u128::MAX,
            swap_exact_out_outcome(
                old(self).total1() as int,
                old(self).total2() as int,
                old(self).fee() as int,
                old(self).bal1(caller) as int,
                amount_token2 as int,
                max_token1 as int,
            ) matches Ok(a_in) ==> old(self).total1() + a_in <= u128::MAX && old(self).bal2(caller)
                + amount_token2 <= u128::MAX,
        ensures
            final(self).wf(),
            match swap_exact_out_outcome(
                old(self).total1() as int,
                old(self).total2() as int,
                old(self).fee() as int,
                old(self).bal1(caller) as int,
                amount_token2 as int,
                max_token1 as int,
            ) {
                Ok(a_in) => {
                    &&& r matches Ok(v) && v == a_in
                    &&& final(self).total1() == old(self).total1() + a_in
                    &&& final(self).total2() == old(self).total2() - amount_token2
                    &&& final(self).total2() >= 1
                    &&& final(self).shares_total() == old(self).shares_total()
                    &&& final(self).fee() == old(self).fee()
                    &&& final(self).bal1(caller) == old(self).bal1(caller) - a_in
                    &&& final(self).bal2(caller) == old(self).bal2(caller) + amount_token2
                    &&& final(self).share_of(caller) == old(self).share_of(caller)
                    &&& forall|q: u64|
                        q != caller ==> final(self).bal1(q) == old(self).bal1(q)
                            && final(self).bal2(q) == old(self).bal2(q)
                            && final(self).share_of(q) == old(self).share_of(q)
                },
                Err(e) => r == Err::<u128, Error>(e) && *final(self) == *old(self),
            },
    {
        proof {
            lemma_pool_product(*self);
        }
        let amount_token1 = match self.get_swap_token1_estimate_given_token2(amount_token2) {
            Err(e) => return Err(e),
            Ok(v) => v,
        };
        if amount_token1 > max_token1 {
            return Err(Error::SlippageExceeded);
        }
        match Self::valid_amount_check(&self.token1_balance, caller, amount_token1) {
            Err(e) => return Err(e),
            Ok(()) => {},
        }
        let balance1 = Self::lookup(&self.token1_balance, caller);
        self.token1_balance.insert(caller, balance1 - amount_token1);
        self.total_token1 = self.total_token1 + amount_token1;
        self.total_token2 = self.total_token2 - amount_token2;
        let balance2 = Self::lookup(&self.token2_balance, caller);
        self.token2_balance.insert(caller, balance2 + amount_token2);
        Ok(amount_token1)
    }

    /// Swaps `amount_token2` of the caller's token2 for token1 at the
    /// algorithmic price; fails with `SlippageExceeded` if the output would
    /// fall below `min_token1`.
    pub fn swap_token2_given_token2(
        &mut self,
        caller: u64,
        amount_token2: u128,
        min_token1: u128,
    ) -> (r: Result<u128, Error>)
        requires
            old(self).wf(),
            1 <= amount_token2 <= old(self).bal2(caller) ==> old(self).total1() * old(
                self,
            ).total2() <= u128::MAX && (old(self).shares_total() != 0 ==> (1000 - old(self).fee())
                * amount_token2 <= u128::MAX && old(self).total2() + fee_adjusted(
                old(self).fee() as int,
                amount_token2 as int,
            ) <= u128::MAX),
            swap_exact_in_outcome(
                old(self).total2() as int,
                old(self).total1() as int,
                old(self).fee() as int,
                old(self).bal2(caller) as int,
                amount_token2 as int,
                min_token1 as int,
            ) matches Ok(out) ==> old(self).total2() + amount_token2 <= u128::MAX && old(self).bal1(
                caller,
            ) + out <= u128::MAX,
        ensures
            final(self).wf(),
            match swap_exact_in_outcome(
                old(self).total2() as int,
                old(self).total1() as int,
                old(self).fee() as int,
                old(self).bal2(caller) as int,
                amount_token2 as int,
                min_token1 as int,
            ) {
                Ok(out) => {
                    &&& r matches Ok(v) && v == out
                    &&& final(self).total2() == old(self).total2() + amount_token2
                    &&& final(self).total1() == old(self).total1() - out
                    &&& final(self).total1() >= 1
                    &&& final(self).shares_total() == old(self).shares_total()
                    &&& final(self).fee() == old(self).fee()
                    &&& final(self).bal2(caller) == old(self).bal2(caller) - amount_token2
                    &&& final(self).bal1(caller) == old(self).bal1(caller) + out
                    &&& final(self).share_of(caller) == old(self).share_of(caller)
                    &&& forall|q: u64|
                        q != caller ==> final(self).bal1(q) == old(self).bal1(q)
                            && final(self).bal2(q) == old(self).bal2(q)
                            && final(self).share_of(q) == old(self).share_of(q)
                },
                Err(e) => r == Err::<u128, Error>(e) && *final(self) == *old(self),
            },
    {
        proof {
            lemma_pool_product(*self);
        }
        match Self::valid_amount_check(&self.token2_balance, caller, amount_token2) {
            Err(e) => return Err(e),
            Ok(()) => {},
        }
        let amount_token1 = match self.get_swap_token2_estimate_given_token2(amount_token2) {
            Err(e) => return Err(e),
            Ok(v) => v,
        };
        if amount_token1 < min_token1 {
            return Err(Error::SlippageExceeded);
        }
        let balance2 = Self::lookup(&self.token2_balance, caller);
        self.token2_balance.insert(caller, balance2 - amount_token2);
        self.total_token2 = self.total_token2 + amount_token2;
        self.total_token1 = self.total_token1 - amount_token1;
        let balance1 = Self::lookup(&self.token1_balance, caller);
        self.token1_balance.insert(caller, balance1 + amount_token1);
        Ok(amount_token1)
    }

    /// Swaps as much of the caller's token2 as needed to receive exactly
    /// `amount_token1` of token1; fails with `SlippageExceeded` if the
    /// required input exceeds `max_token2`.  The slippage bound is checked
    /// before the caller's balance.
    pub fn swap_token2_given_token1(
        &mut self,
        caller: u64,
        amount_token1: u128,
        max_token2: u128,
    ) -> (r: Result<u128, Error>)
        requires
            old(self).wf(),
            old(self).total1() * old(self).total2() <= u128::MAX,
            old(self).shares_total() != 0 && amount_token1 < old(self).total1() ==> (old(
                self,
            ).total1() * old(self).total2() / (old(self).total1() - amount_token1) - old(
                self,
            ).total2()) * 1000 <= u128::MAX,
            swap_exact_out_outcome(
                old(self).total2() as int,
                old(self).total1() as int,
                old(self).fee() as int,
                old(self).bal2(caller) as int,
                amount_token1 as int,
                max_token2 as int,
            ) matches Ok(a_in) ==> old(self).total2() + a_in <= u128::MAX && old(self).bal1(caller)
                + amount_token1 <= u128::MAX,
        ensures
            final(self).wf(),
            match swap_exact_out_outcome(
                old(self).total2() as int,
                old(self).total1() as int,
                old(self).fee() as int,
                old(self).bal2(caller) as int,
                amount_token1 as int,
                max_token2 as int,
            ) {
                Ok(a_in) => {
                    &&& r matches Ok(v) && v == a_in
                    &&& final(self).total2() == old(self).total2() + a_in
                    &&& final(self).total1() == old(self).total1() - amount_token1
                    &&& final(self).total1() >= 1
                    &&& final(self).shares_total() == old(self).shares_total()
                    &&& final(self).fee() == old(self).fee()
                    &&& final(self).bal2(caller) == old(self).bal2(caller) - a_in
                    &&& final(self).bal1(caller) == old(self).bal1(caller) + amount_token1
                    &&& final(self).share_of(caller) == old(self).share_of(caller)
                    &&& forall|q: u64|
                        q != caller ==> final(self).bal1(q) == old(self).bal1(q)
                            && final(self).bal2(q) == old(self).bal2(q)
                            && final(self).share_of(q) == old(self).share_of(q)
                },
                Err(e) => r == Err::<u128, Error>(e) && *final(self) == *old(self),
            },
    {
        proof {
            lemma_pool_product(*self);
        }
        let amount_token2 = match self.get_swap_token2_estimate_given_token1(amount_token1) {
            Err(e) => return Err(e),
            Ok(v) => v,
        };
        if amount_token2 > max_token2 {
            return Err(Error::SlippageExceeded);
        }
        match Self::valid_amount_check(&self.token2_balance, caller, amount_token2) {
            Err(e) => return Err(e),
            Ok(()) => {},
        }
        let balance2 = Self::lookup(&self.token2_balance, caller);
        self.token2_balance.insert(caller, balance2 - amount_token2);
        self.total_token2 = self.total_token2 + amount_token2;
        self.total_token1 = self.total_token1 - amount_token1;
        let balance1 = Self::lookup(&self.token1_balance, caller);
        self.token1_balance.insert(caller, balance1 + amount_token1);
        Ok(amount_token2)
    }
}

} // verus!
