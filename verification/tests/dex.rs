use cdp_engine::state::CdpEngine;
use cdp_engine::types::{Change, Config, Error, Origin, PairStatus, Position, Ratio};

const STABLE: u32 = 0;
const NATIVE: u32 = 1;
const X: u32 = 2;
const Y: u32 = 3;
const ALICE: u32 = 10;
const MAKER: u32 = 20;

fn new_engine() -> CdpEngine {
    CdpEngine::new(Config {
        stable_currency: STABLE,
        native_currency: NATIVE,
        deposit_per_authorization: 100,
        default_debit_exchange_rate: Ratio::one(),
        max_swap_path_len: 3,
    })
}

/// An engine with an enabled X/stable pool of the given reserves and a loan
/// of (1000 collateral, 500 debit) for Alice.
fn engine_with_loan_and_pool(x_reserve: u64, stable_reserve: u64) -> CdpEngine {
    let mut e = new_engine();
    e.set_collateral_params(
        Origin::Root,
        X,
        Change::NoChange,
        Change::NewValue(Some(Ratio::from_parts(1_500_000))),
        Change::NewValue(Some(Ratio::from_parts(100_000))),
        Change::NewValue(Some(Ratio::from_parts(1_500_000))),
        Change::NewValue(1_000_000),
    )
    .unwrap();
    e.feed_price(X, Some(Ratio::one()));
    e.set_balance(X, ALICE, 1_000);
    assert_eq!(e.adjust_loan(ALICE, X, 1_000, 500), Ok(()));
    e.set_balance(X, MAKER, x_reserve);
    e.set_balance(STABLE, MAKER, stable_reserve);
    assert_eq!(e.enable_trading_pair(Origin::Root, X, STABLE), Ok(()));
    assert_eq!(e.add_liquidity(MAKER, X, STABLE, x_reserve, stable_reserve), Ok(()));
    e
}

#[test]
fn enable_trading_pair_needs_root() {
    let mut e = new_engine();
    assert_eq!(
        e.enable_trading_pair(Origin::Signed(ALICE), X, STABLE),
        Err(Error::NotAuthorized)
    );
    assert_eq!(e.get_pool(X, STABLE), None);
}

#[test]
fn add_liquidity_moves_balances_into_reserves() {
    let mut e = new_engine();
    e.set_balance(X, MAKER, 5_000);
    e.set_balance(STABLE, MAKER, 7_000);
    assert_eq!(e.enable_trading_pair(Origin::Root, X, STABLE), Ok(()));
    assert_eq!(e.add_liquidity(MAKER, X, STABLE, 5_000, 7_000), Ok(()));
    let p = e.get_pool(X, STABLE).unwrap();
    assert_eq!(p.status, PairStatus::Enabled);
    // STABLE has the smaller currency id, so it is the base side.
    assert_eq!(p.reserve_base, 7_000);
    assert_eq!(p.reserve_quote, 5_000);
    assert_eq!(e.get_balance(X, MAKER), 0);
    assert_eq!(e.get_balance(STABLE, MAKER), 0);
}

#[test]
fn add_liquidity_without_pair_fails() {
    let mut e = new_engine();
    e.set_balance(X, MAKER, 5_000);
    e.set_balance(STABLE, MAKER, 5_000);
    assert_eq!(
        e.add_liquidity(MAKER, X, STABLE, 5_000, 5_000),
        Err(Error::TradingPairNotEnabled)
    );
}

#[test]
fn close_loan_by_dex_sells_just_enough_collateral() {
    // Debt value 500; constant product demands
    // floor(10000 * 500 / (10000 - 500)) + 1 = 527 of collateral.
    let mut e = engine_with_loan_and_pool(10_000, 10_000);
    assert_eq!(e.close_loan_has_debit_by_dex(ALICE, X, 1_000, None), Ok(()));
    assert_eq!(
        e.get_position(X, ALICE),
        Position { collateral: 1_000 - 527, debit: 0 }
    );
    let p = e.get_pool(X, STABLE).unwrap();
    assert_eq!(p.reserve_quote, 10_000 + 527);
    assert_eq!(p.reserve_base, 10_000 - 500);
    assert_eq!(e.get_total_debit(X), 0);
    // The bought stablecoin was burned, not paid out.
    assert_eq!(e.get_balance(STABLE, ALICE), 500);
}

#[test]
fn close_loan_by_dex_respects_max_collateral() {
    let mut e = engine_with_loan_and_pool(10_000, 10_000);
    assert_eq!(
        e.close_loan_has_debit_by_dex(ALICE, X, 100, None),
        Err(Error::SwapSlippageExceeded)
    );
    assert_eq!(
        e.get_position(X, ALICE),
        Position { collateral: 1_000, debit: 500 }
    );
    let p = e.get_pool(X, STABLE).unwrap();
    assert_eq!(p.reserve_base, 10_000);
    assert_eq!(p.reserve_quote, 10_000);
}

#[test]
fn close_loan_by_dex_fails_on_drained_pool() {
    // The pool holds less stablecoin than the debt value.
    let mut e = engine_with_loan_and_pool(10_000, 400);
    assert_eq!(
        e.close_loan_has_debit_by_dex(ALICE, X, 1_000, None),
        Err(Error::SwapSlippageExceeded)
    );
    assert_eq!(
        e.get_position(X, ALICE),
        Position { collateral: 1_000, debit: 500 }
    );
}

#[test]
fn close_loan_by_dex_needs_enabled_pair() {
    let mut e = engine_with_loan_and_pool(10_000, 10_000);
    assert_eq!(e.disable_trading_pair(Origin::Root, X, STABLE), Ok(()));
    assert_eq!(
        e.close_loan_has_debit_by_dex(ALICE, X, 1_000, None),
        Err(Error::TradingPairNotEnabled)
    );
}

#[test]
fn close_loan_by_dex_rejects_long_paths() {
    let mut e = engine_with_loan_and_pool(10_000, 10_000);
    assert_eq!(
        e.close_loan_has_debit_by_dex(ALICE, X, 1_000, Some(vec![X, Y, NATIVE, STABLE])),
        Err(Error::PathTooLong)
    );
}

#[test]
fn close_loan_by_dex_rejects_misshapen_paths() {
    let mut e = engine_with_loan_and_pool(10_000, 10_000);
    assert_eq!(
        e.close_loan_has_debit_by_dex(ALICE, X, 1_000, Some(vec![X, Y])),
        Err(Error::InvalidSwapPath)
    );
}

#[test]
fn close_loan_by_dex_needs_outstanding_debit() {
    let mut e = new_engine();
    e.set_balance(X, ALICE, 1_000);
    e.set_collateral_params(
        Origin::Root,
        X,
        Change::NoChange,
        Change::NoChange,
        Change::NoChange,
        Change::NoChange,
        Change::NewValue(1_000_000),
    )
    .unwrap();
    assert_eq!(e.adjust_loan(ALICE, X, 1_000, 0), Ok(()));
    assert_eq!(
        e.close_loan_has_debit_by_dex(ALICE, X, 1_000, None),
        Err(Error::NoOutstandingDebit)
    );
}

#[test]
fn close_loan_by_dex_multi_hop() {
    // Path X -> Y -> STABLE through two pools of 10000/10000.
    let mut e = new_engine();
    e.set_collateral_params(
        Origin::Root,
        X,
        Change::NoChange,
        Change::NoChange,
        Change::NoChange,
        Change::NewValue(Some(Ratio::from_parts(1_500_000))),
        Change::NewValue(1_000_000),
    )
    .unwrap();
    e.feed_price(X, Some(Ratio::one()));
    e.set_balance(X, ALICE, 1_000);
    assert_eq!(e.adjust_loan(ALICE, X, 1_000, 500), Ok(()));
    e.set_balance(X, MAKER, 10_000);
    e.set_balance(Y, MAKER, 20_000);
    e.set_balance(STABLE, MAKER, 10_000);
    assert_eq!(e.enable_trading_pair(Origin::Root, X, Y), Ok(()));
    assert_eq!(e.enable_trading_pair(Origin::Root, Y, STABLE), Ok(()));
    assert_eq!(e.add_liquidity(MAKER, X, Y, 10_000, 10_000), Ok(()));
    assert_eq!(e.add_liquidity(MAKER, Y, STABLE, 10_000, 10_000), Ok(()));
    // Y needed from the Y/STABLE pool: floor(10000*500/9500) + 1 = 527.
    // X needed from the X/Y pool: floor(10000*527/9473) + 1 = 557.
    assert_eq!(
        e.close_loan_has_debit_by_dex(ALICE, X, 1_000, Some(vec![X, Y, STABLE])),
        Ok(())
    );
    assert_eq!(
        e.get_position(X, ALICE),
        Position { collateral: 1_000 - 557, debit: 0 }
    );
    assert_eq!(e.get_total_debit(X), 0);
}
