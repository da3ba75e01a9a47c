//! End-to-end tests of the pool ledger: construction, the faucet, liquidity
//! provision and withdrawal, and all four swap directions, with the exact
//! error each invalid call reports.

use amm::Amm;
use amm::Error;

const ALICE: u64 = 1;
const BOB: u64 = 2;
const CAROL: u64 = 3;

#[test]
fn new_works() {
    let contract = Amm::new(0);
    assert_eq!(contract.get_my_holdings(ALICE), (0, 0, 0));
    assert_eq!(contract.get_pool_details(), (0, 0, 0, 0));
}

#[test]
fn faucet_works() {
    let mut contract = Amm::new(0);
    contract.faucet(ALICE, 100, 200);
    assert_eq!(contract.get_my_holdings(ALICE), (100, 200, 0));
}

#[test]
fn zero_liquidity_test() {
    let contract = Amm::new(0);
    let res = contract.get_equivalent_token1_estimate(5);
    assert_eq!(res, Err(Error::ZeroLiquidity));
}

#[test]
fn provide_works() {
    let mut contract = Amm::new(0);
    contract.faucet(ALICE, 100, 200);
    let share: u128 = contract.provide(ALICE, 10, 20).unwrap();
    assert_eq!(share, 100_000_000);
    assert_eq!(contract.get_pool_details(), (10, 20, share, 0));
    assert_eq!(contract.get_my_holdings(ALICE), (90, 180, share));
}

#[test]
fn withdraw_works() {
    let mut contract = Amm::new(0);
    contract.faucet(ALICE, 100, 200);
    let share: u128 = contract.provide(ALICE, 10, 20).unwrap();
    assert_eq!(contract.withdraw(ALICE, share / 5).unwrap(), (2, 4));
    assert_eq!(contract.get_my_holdings(ALICE), (92, 184, 4 * share / 5));
    assert_eq!(contract.get_pool_details(), (8, 16, 4 * share / 5, 0));
}

#[test]
fn swap_works() {
    let mut contract = Amm::new(0);
    contract.faucet(ALICE, 100, 200);
    let share: u128 = contract.provide(ALICE, 50, 100).unwrap();
    let amount_token2: u128 = contract.swap_token1_given_token1(ALICE, 50, 50).unwrap();
    assert_eq!(amount_token2, 50);
    assert_eq!(contract.get_my_holdings(ALICE), (0, 150, share));
    assert_eq!(contract.get_pool_details(), (100, 50, share, 0));
}

#[test]
fn slippage_works() {
    let mut contract = Amm::new(0);
    contract.faucet(ALICE, 100, 200);
    let share: u128 = contract.provide(ALICE, 50, 100).unwrap();
    let amount_token2 = contract.swap_token1_given_token1(ALICE, 50, 51);
    assert_eq!(amount_token2, Err(Error::SlippageExceeded));
    assert_eq!(contract.get_my_holdings(ALICE), (50, 100, share));
    assert_eq!(contract.get_pool_details(), (50, 100, share, 0));
}

#[test]
fn trading_fees_works() {
    let mut contract = Amm::new(100);
    contract.faucet(ALICE, 100, 200);
    contract.provide(ALICE, 50, 100).unwrap();
    let amount_token2: u128 = contract.get_swap_token1_estimate_given_token1(50).unwrap();
    assert_eq!(amount_token2, 48);
}

#[test]
fn provide_off_ratio_rejected() {
    let mut contract = Amm::new(0);
    contract.faucet(ALICE, 100, 200);
    contract.provide(ALICE, 10, 20).unwrap();
    contract.faucet(BOB, 100, 200);
    // share1 would be 50_000_000 and share2 35_000_000: not equivalent
    assert_eq!(contract.provide(BOB, 5, 7), Err(Error::NonEquivalentValue));
    // nothing changed for the caller on the failure path
    assert_eq!(contract.get_my_holdings(BOB), (100, 200, 0));
    assert_eq!(contract.get_pool_details(), (10, 20, 100_000_000, 0));
}

#[test]
fn genesis_share_independent_of_ratio() {
    let mut lopsided = Amm::new(0);
    lopsided.faucet(ALICE, 1, 999);
    assert_eq!(lopsided.provide(ALICE, 1, 999).unwrap(), 100_000_000);

    let mut other = Amm::new(250);
    other.faucet(BOB, 123, 7);
    assert_eq!(other.provide(BOB, 123, 7).unwrap(), 100_000_000);
}

#[test]
fn round_trip_genesis_exact() {
    let mut contract = Amm::new(0);
    contract.faucet(ALICE, 10, 20);
    let share: u128 = contract.provide(ALICE, 10, 20).unwrap();
    assert_eq!(contract.withdraw(ALICE, share).unwrap(), (10, 20));
    assert_eq!(contract.get_my_holdings(ALICE), (10, 20, 0));
    assert_eq!(contract.get_pool_details(), (0, 0, 0, 0));
    // the emptied pool refuses pricing reads again
    assert_eq!(contract.get_equivalent_token1_estimate(5), Err(Error::ZeroLiquidity));
}

#[test]
fn round_trip_truncation_never_pays_more() {
    let mut contract = Amm::new(0);
    contract.faucet(ALICE, 7, 7);
    contract.provide(ALICE, 7, 7).unwrap();
    contract.faucet(BOB, 1, 1);
    let share: u128 = contract.provide(BOB, 1, 1).unwrap();
    assert_eq!(share, 100_000_000 / 7);
    // 14_285_714 * 8 / 114_285_714 truncates to 0 on both sides: at most (1, 1)
    assert_eq!(contract.withdraw(BOB, share).unwrap(), (0, 0));
}

#[test]
fn constant_product_never_decreases_with_fees() {
    let mut contract = Amm::new(100);
    contract.faucet(ALICE, 2_000_000, 4_000_000);
    contract.provide(ALICE, 500_000, 1_000_000).unwrap();
    let (x0, y0, _, _) = contract.get_pool_details();
    let k0: u128 = x0 * y0;
    contract.swap_token1_given_token1(ALICE, 100_000, 0).unwrap();
    let (x1, y1, _, _) = contract.get_pool_details();
    let k1: u128 = x1 * y1;
    assert!(k1 >= k0);
    contract.swap_token2_given_token2(ALICE, 300_000, 0).unwrap();
    let (x2, y2, _, _) = contract.get_pool_details();
    let k2: u128 = x2 * y2;
    assert!(k2 >= k1);
    contract.swap_token1_given_token2(ALICE, 200_000, u128::MAX).unwrap();
    let (x3, y3, _, _) = contract.get_pool_details();
    let k3: u128 = x3 * y3;
    assert!(k3 >= k2);
}

#[test]
fn anti_depletion_holds_one_unit_back() {
    let mut contract = Amm::new(0);
    contract.faucet(ALICE, 1_000_010, 20);
    contract.provide(ALICE, 10, 20).unwrap();
    // the naive output would be the whole token2 reserve; one unit is kept
    let out: u128 = contract.swap_token1_given_token1(ALICE, 1_000_000, 0).unwrap();
    assert_eq!(out, 19);
    let (x, y, _, _) = contract.get_pool_details();
    assert_eq!(x, 1_000_010);
    assert_eq!(y, 1);
}

#[test]
fn slippage_checked_before_balance() {
    let mut contract = Amm::new(0);
    contract.faucet(ALICE, 100, 200);
    contract.provide(ALICE, 50, 100).unwrap();
    // BOB holds nothing; the required input (50) is within his bound, so the
    // balance check is what fails
    assert_eq!(contract.swap_token1_given_token2(BOB, 50, 100), Err(Error::InsufficientAmount));
    // with an unacceptable bound the price check fails first, whatever the
    // caller holds
    assert_eq!(contract.swap_token1_given_token2(BOB, 50, 10), Err(Error::SlippageExceeded));
    assert_eq!(contract.swap_token1_given_token2(ALICE, 50, 10), Err(Error::SlippageExceeded));
    // the same ordering on the token2-paying side
    assert_eq!(contract.swap_token2_given_token1(BOB, 25, 1000), Err(Error::InsufficientAmount));
    assert_eq!(contract.swap_token2_given_token1(ALICE, 25, 10), Err(Error::SlippageExceeded));
}

#[test]
fn swap_token2_directions_work() {
    let mut contract = Amm::new(0);
    contract.faucet(ALICE, 100, 200);
    let share: u128 = contract.provide(ALICE, 50, 100).unwrap();
    let out: u128 = contract.swap_token2_given_token2(ALICE, 100, 0).unwrap();
    assert_eq!(out, 25);
    assert_eq!(contract.get_my_holdings(ALICE), (75, 0, share));
    assert_eq!(contract.get_pool_details(), (25, 200, share, 0));

    let mut second = Amm::new(0);
    second.faucet(ALICE, 100, 200);
    second.provide(ALICE, 50, 100).unwrap();
    let paid: u128 = second.swap_token2_given_token1(ALICE, 25, 100).unwrap();
    assert_eq!(paid, 100);
    assert_eq!(second.get_my_holdings(ALICE), (75, 0, share));
    assert_eq!(second.get_pool_details(), (25, 200, share, 0));
}

#[test]
fn threshold_not_reached_on_tiny_contribution() {
    let mut contract = Amm::new(0);
    contract.faucet(ALICE, 10_000_000_000, 10_000_000_000);
    contract.provide(ALICE, 10_000_000_000, 10_000_000_000).unwrap();
    contract.faucet(BOB, 50, 50);
    // 100_000_000 * 50 / 10_000_000_000 truncates to 0 shares
    assert_eq!(contract.provide(BOB, 50, 50), Err(Error::ThresholdNotReached));
}

#[test]
fn invalid_share_rejected() {
    let mut contract = Amm::new(0);
    contract.faucet(ALICE, 100, 200);
    let share: u128 = contract.provide(ALICE, 10, 20).unwrap();
    assert_eq!(contract.get_withdraw_estimate(share + 1), Err(Error::InvalidShare));
    assert_eq!(contract.get_withdraw_estimate(share / 2).unwrap(), (5, 10));
}

#[test]
fn insufficient_liquidity_rejected() {
    let mut contract = Amm::new(0);
    contract.faucet(ALICE, 100, 200);
    contract.provide(ALICE, 10, 20).unwrap();
    // asking for the whole reserve or more can never be served
    assert_eq!(contract.get_swap_token1_estimate_given_token2(20), Err(Error::InsufficientLiquidity));
    assert_eq!(contract.get_swap_token1_estimate_given_token2(200), Err(Error::InsufficientLiquidity));
    assert_eq!(contract.get_swap_token2_estimate_given_token1(10), Err(Error::InsufficientLiquidity));
}

#[test]
fn fee_out_of_range_is_coerced_to_zero() {
    assert_eq!(Amm::new(1000).get_pool_details().3, 0);
    assert_eq!(Amm::new(5000).get_pool_details().3, 0);
    assert_eq!(Amm::new(999).get_pool_details().3, 999);
}

#[test]
fn zero_amounts_rejected() {
    let mut contract = Amm::new(0);
    contract.faucet(ALICE, 100, 200);
    assert_eq!(contract.provide(ALICE, 0, 20), Err(Error::ZeroAmount));
    assert_eq!(contract.provide(ALICE, 10, 0), Err(Error::ZeroAmount));
    assert_eq!(contract.withdraw(ALICE, 0), Err(Error::ZeroAmount));
    assert_eq!(contract.swap_token1_given_token1(ALICE, 0, 0), Err(Error::ZeroAmount));
    assert_eq!(contract.swap_token2_given_token2(ALICE, 0, 0), Err(Error::ZeroAmount));
}

#[test]
fn insufficient_amount_rejected() {
    let mut contract = Amm::new(0);
    contract.faucet(ALICE, 5, 5);
    assert_eq!(contract.provide(ALICE, 10, 5), Err(Error::InsufficientAmount));
    assert_eq!(contract.provide(ALICE, 5, 10), Err(Error::InsufficientAmount));
    assert_eq!(contract.swap_token1_given_token1(ALICE, 10, 0), Err(Error::InsufficientAmount));
}

#[test]
fn untouched_account_holds_nothing() {
    let mut contract = Amm::new(0);
    contract.faucet(ALICE, 100, 200);
    contract.provide(ALICE, 10, 20).unwrap();
    assert_eq!(contract.get_my_holdings(CAROL), (0, 0, 0));
}

#[test]
fn equivalent_estimates_follow_pool_ratio() {
    let mut contract = Amm::new(0);
    contract.faucet(ALICE, 100, 200);
    contract.provide(ALICE, 10, 20).unwrap();
    assert_eq!(contract.get_equivalent_token1_estimate(30).unwrap(), 15);
    assert_eq!(contract.get_equivalent_token2_estimate(15).unwrap(), 30);
    // truncation goes toward zero
    assert_eq!(contract.get_equivalent_token1_estimate(3).unwrap(), 1);
}
