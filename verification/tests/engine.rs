use cdp_engine::state::CdpEngine;
use cdp_engine::types::{Change, Config, Error, Origin, Position, Ratio};

const STABLE: u32 = 0;
const NATIVE: u32 = 1;
const X: u32 = 2;
const Y: u32 = 3;
const ALICE: u32 = 10;
const BOB: u32 = 11;
const DEPOSIT: u64 = 100;

fn new_engine() -> CdpEngine {
    CdpEngine::new(Config {
        stable_currency: STABLE,
        native_currency: NATIVE,
        deposit_per_authorization: DEPOSIT,
        default_debit_exchange_rate: Ratio::one(),
        max_swap_path_len: 3,
    })
}

fn set_standard_params(e: &mut CdpEngine, required_ratio_parts: u32, ceiling: u64) {
    e.set_collateral_params(
        Origin::Root,
        X,
        Change::NoChange,
        Change::NewValue(Some(Ratio::from_parts(1_500_000))),
        Change::NewValue(Some(Ratio::from_parts(100_000))),
        Change::NewValue(Some(Ratio::from_parts(required_ratio_parts))),
        Change::NewValue(ceiling),
    )
    .unwrap();
}

#[test]
fn authorize_reserves_deposit() {
    let mut e = new_engine();
    e.set_balance(NATIVE, ALICE, DEPOSIT);
    assert_eq!(e.authorize(ALICE, X, BOB), Ok(()));
    assert_eq!(e.get_balance(NATIVE, ALICE), 0);
    assert_eq!(e.get_authorization(X, ALICE, BOB), Some(DEPOSIT));
}

#[test]
fn authorize_without_balance_fails() {
    let mut e = new_engine();
    e.set_balance(NATIVE, ALICE, DEPOSIT - 1);
    assert_eq!(e.authorize(ALICE, X, BOB), Err(Error::InsufficientBalance));
    assert_eq!(e.get_balance(NATIVE, ALICE), DEPOSIT - 1);
    assert_eq!(e.get_authorization(X, ALICE, BOB), None);
}

#[test]
fn authorize_twice_does_not_double_reserve() {
    let mut e = new_engine();
    e.set_balance(NATIVE, ALICE, 2 * DEPOSIT);
    assert_eq!(e.authorize(ALICE, X, BOB), Ok(()));
    assert_eq!(e.authorize(ALICE, X, BOB), Ok(()));
    assert_eq!(e.get_balance(NATIVE, ALICE), DEPOSIT);
}

#[test]
fn deposit_round_trips_through_unauthorize() {
    let mut e = new_engine();
    e.set_balance(NATIVE, ALICE, 250);
    assert_eq!(e.authorize(ALICE, X, BOB), Ok(()));
    assert_eq!(e.get_balance(NATIVE, ALICE), 150);
    assert_eq!(e.unauthorize(ALICE, X, BOB), Ok(()));
    assert_eq!(e.get_balance(NATIVE, ALICE), 250);
    assert_eq!(e.get_authorization(X, ALICE, BOB), None);
}

#[test]
fn unauthorize_absent_grant_fails() {
    let mut e = new_engine();
    assert_eq!(e.unauthorize(ALICE, X, BOB), Err(Error::AuthorizationNotFound));
}

#[test]
fn unauthorize_overflowing_refund_fails() {
    let mut e = new_engine();
    e.set_balance(NATIVE, ALICE, u64::MAX);
    assert_eq!(e.authorize(ALICE, X, BOB), Ok(()));
    e.set_balance(NATIVE, ALICE, u64::MAX);
    assert_eq!(e.unauthorize(ALICE, X, BOB), Err(Error::Overflow));
    assert_eq!(e.get_authorization(X, ALICE, BOB), Some(DEPOSIT));
}

#[test]
fn unauthorize_all_without_grants_is_noop() {
    let mut e = new_engine();
    e.set_balance(NATIVE, ALICE, 77);
    assert_eq!(e.unauthorize_all(ALICE), Ok(()));
    assert_eq!(e.get_balance(NATIVE, ALICE), 77);
}

#[test]
fn unauthorize_all_refunds_every_deposit() {
    let mut e = new_engine();
    e.set_balance(NATIVE, ALICE, 2 * DEPOSIT);
    assert_eq!(e.authorize(ALICE, X, BOB), Ok(()));
    assert_eq!(e.authorize(ALICE, Y, BOB), Ok(()));
    assert_eq!(e.get_balance(NATIVE, ALICE), 0);
    assert_eq!(e.unauthorize_all(ALICE), Ok(()));
    assert_eq!(e.get_balance(NATIVE, ALICE), 2 * DEPOSIT);
    assert_eq!(e.get_authorization(X, ALICE, BOB), None);
    assert_eq!(e.get_authorization(Y, ALICE, BOB), None);
}

#[test]
fn adjust_loan_opens_a_position() {
    let mut e = new_engine();
    set_standard_params(&mut e, 1_500_000, 1_000_000);
    e.set_balance(X, ALICE, 1_000);
    e.feed_price(X, Some(Ratio::one()));
    assert_eq!(e.adjust_loan(ALICE, X, 1_000, 500), Ok(()));
    assert_eq!(
        e.get_position(X, ALICE),
        Position { collateral: 1_000, debit: 500 }
    );
    assert_eq!(e.get_balance(X, ALICE), 0);
    assert_eq!(e.get_balance(STABLE, ALICE), 500);
    assert_eq!(e.get_total_debit(X), 500);
}

#[test]
fn ratio_gate_accepts_exactly_at_threshold() {
    // collateral 1000 at price 1, debit 500 at rate 1: ratio 2.0 >= 1.5.
    let mut e = new_engine();
    set_standard_params(&mut e, 1_500_000, 1_000_000);
    e.set_balance(X, ALICE, 1_000);
    e.feed_price(X, Some(Ratio::one()));
    assert_eq!(e.adjust_loan(ALICE, X, 1_000, 0), Ok(()));
    assert_eq!(e.adjust_loan(ALICE, X, 0, 500), Ok(()));
    assert_eq!(
        e.get_position(X, ALICE),
        Position { collateral: 1_000, debit: 500 }
    );
}

#[test]
fn ratio_gate_rejects_below_threshold() {
    // collateral 1000 at price 1, debit 500 at rate 1: ratio 2.0 < 2.5.
    let mut e = new_engine();
    set_standard_params(&mut e, 2_500_000, 1_000_000);
    e.set_balance(X, ALICE, 1_000);
    e.feed_price(X, Some(Ratio::one()));
    assert_eq!(e.adjust_loan(ALICE, X, 1_000, 0), Ok(()));
    assert_eq!(
        e.adjust_loan(ALICE, X, 0, 500),
        Err(Error::InsufficientCollateralRatio)
    );
    assert_eq!(
        e.get_position(X, ALICE),
        Position { collateral: 1_000, debit: 0 }
    );
}

#[test]
fn missing_price_blocks_debit() {
    let mut e = new_engine();
    set_standard_params(&mut e, 1_500_000, 1_000_000);
    e.set_balance(X, ALICE, 1_000);
    assert_eq!(e.adjust_loan(ALICE, X, 1_000, 500), Err(Error::PriceNotAvailable));
    assert_eq!(e.get_position(X, ALICE), Position { collateral: 0, debit: 0 });
}

#[test]
fn debit_ceiling_is_enforced() {
    let mut e = new_engine();
    set_standard_params(&mut e, 1_500_000, 400);
    e.set_balance(X, ALICE, 10_000);
    e.feed_price(X, Some(Ratio::one()));
    assert_eq!(e.adjust_loan(ALICE, X, 10_000, 500), Err(Error::ExceedsDebitCeiling));
    assert_eq!(e.adjust_loan(ALICE, X, 10_000, 400), Ok(()));
}

#[test]
fn collateral_withdrawal_beyond_held_fails() {
    let mut e = new_engine();
    set_standard_params(&mut e, 1_500_000, 1_000_000);
    e.set_balance(X, ALICE, 1_000);
    e.feed_price(X, Some(Ratio::one()));
    assert_eq!(e.adjust_loan(ALICE, X, 1_000, 0), Ok(()));
    assert_eq!(e.adjust_loan(ALICE, X, -1_001, 0), Err(Error::InsufficientBalance));
    assert_eq!(
        e.get_position(X, ALICE),
        Position { collateral: 1_000, debit: 0 }
    );
}

#[test]
fn adjust_loan_round_trip_restores_everything() {
    let mut e = new_engine();
    set_standard_params(&mut e, 1_500_000, 1_000_000);
    e.set_balance(X, ALICE, 1_000);
    e.feed_price(X, Some(Ratio::one()));
    assert_eq!(e.adjust_loan(ALICE, X, 1_000, 500), Ok(()));
    assert_eq!(e.adjust_loan(ALICE, X, -1_000, -500), Ok(()));
    assert_eq!(e.get_position(X, ALICE), Position { collateral: 0, debit: 0 });
    assert_eq!(e.get_balance(X, ALICE), 1_000);
    assert_eq!(e.get_balance(STABLE, ALICE), 0);
    assert_eq!(e.get_total_debit(X), 0);
}

#[test]
fn minting_converts_through_exchange_rate() {
    // rate 1.5: 1000 debit units mint exactly 1500 stablecoin.
    let mut e = new_engine();
    set_standard_params(&mut e, 1_500_000, 1_000_000);
    e.set_debit_exchange_rate(X, Ratio::from_parts(1_500_000));
    e.set_balance(X, ALICE, 10_000);
    e.feed_price(X, Some(Ratio::one()));
    assert_eq!(e.adjust_loan(ALICE, X, 10_000, 1_000), Ok(()));
    assert_eq!(e.get_balance(STABLE, ALICE), 1_500);
}

#[test]
fn transfer_loan_without_authorization_fails() {
    let mut e = new_engine();
    set_standard_params(&mut e, 1_500_000, 1_000_000);
    e.set_balance(X, ALICE, 1_000);
    e.feed_price(X, Some(Ratio::one()));
    assert_eq!(e.adjust_loan(ALICE, X, 1_000, 500), Ok(()));
    assert_eq!(
        e.transfer_loan_from(BOB, X, ALICE),
        Err(Error::AuthorizationNotFound)
    );
    assert_eq!(
        e.get_position(X, ALICE),
        Position { collateral: 1_000, debit: 500 }
    );
    assert_eq!(e.get_position(X, BOB), Position { collateral: 0, debit: 0 });
}

#[test]
fn transfer_loan_moves_position_and_consumes_grant() {
    let mut e = new_engine();
    set_standard_params(&mut e, 1_500_000, 1_000_000);
    e.set_balance(X, ALICE, 1_000);
    e.set_balance(NATIVE, ALICE, DEPOSIT);
    e.feed_price(X, Some(Ratio::one()));
    assert_eq!(e.adjust_loan(ALICE, X, 1_000, 500), Ok(()));
    assert_eq!(e.authorize(ALICE, X, BOB), Ok(()));
    assert_eq!(e.get_balance(NATIVE, ALICE), 0);
    assert_eq!(e.transfer_loan_from(BOB, X, ALICE), Ok(()));
    assert_eq!(e.get_position(X, ALICE), Position { collateral: 0, debit: 0 });
    assert_eq!(
        e.get_position(X, BOB),
        Position { collateral: 1_000, debit: 500 }
    );
    assert_eq!(e.get_authorization(X, ALICE, BOB), None);
    assert_eq!(e.get_balance(NATIVE, ALICE), DEPOSIT);
}

#[test]
fn transfer_loan_to_occupied_position_fails() {
    let mut e = new_engine();
    set_standard_params(&mut e, 1_500_000, 1_000_000);
    e.set_balance(X, ALICE, 1_000);
    e.set_balance(X, BOB, 1_000);
    e.set_balance(NATIVE, ALICE, DEPOSIT);
    e.feed_price(X, Some(Ratio::one()));
    assert_eq!(e.adjust_loan(ALICE, X, 1_000, 0), Ok(()));
    assert_eq!(e.adjust_loan(BOB, X, 1_000, 0), Ok(()));
    assert_eq!(e.authorize(ALICE, X, BOB), Ok(()));
    assert_eq!(
        e.transfer_loan_from(BOB, X, ALICE),
        Err(Error::PositionAlreadyExists)
    );
}

#[test]
fn set_collateral_params_needs_root() {
    let mut e = new_engine();
    let r = e.set_collateral_params(
        Origin::Signed(ALICE),
        X,
        Change::NoChange,
        Change::NoChange,
        Change::NoChange,
        Change::NoChange,
        Change::NewValue(1_000),
    );
    assert_eq!(r, Err(Error::NotAuthorized));
    assert_eq!(e.get_risk_params(X).debit_ceiling, 0);
}

#[test]
fn no_change_directive_keeps_fields() {
    let mut e = new_engine();
    set_standard_params(&mut e, 1_500_000, 1_000_000);
    e.set_collateral_params(
        Origin::Root,
        X,
        Change::NoChange,
        Change::NoChange,
        Change::NoChange,
        Change::NoChange,
        Change::NewValue(42),
    )
    .unwrap();
    let p = e.get_risk_params(X);
    assert_eq!(p.debit_ceiling, 42);
    assert_eq!(p.required_collateral_ratio, Some(Ratio::from_parts(1_500_000)));
    assert_eq!(p.liquidation_ratio, Some(Ratio::from_parts(1_500_000)));
    assert_eq!(p.liquidation_penalty, Some(Ratio::from_parts(100_000)));
    assert_eq!(p.interest_rate_per_period, None);
}

#[test]
fn default_exchange_rate_comes_from_config() {
    let e = new_engine();
    assert_eq!(e.get_debit_exchange_rate(X), Ratio::one());
}

#[test]
fn unauthorize_all_leaves_other_owners_grants() {
    let mut e = new_engine();
    e.set_balance(NATIVE, ALICE, DEPOSIT);
    e.set_balance(NATIVE, BOB, DEPOSIT);
    assert_eq!(e.authorize(ALICE, X, BOB), Ok(()));
    assert_eq!(e.authorize(BOB, X, ALICE), Ok(()));
    assert_eq!(e.unauthorize_all(ALICE), Ok(()));
    assert_eq!(e.get_authorization(X, ALICE, BOB), None);
    assert_eq!(e.get_authorization(X, BOB, ALICE), Some(DEPOSIT));
}

#[test]
fn withdrawing_the_price_feed_blocks_new_debt() {
    let mut e = new_engine();
    set_standard_params(&mut e, 1_500_000, 1_000_000);
    e.set_balance(X, ALICE, 2_000);
    e.feed_price(X, Some(Ratio::one()));
    assert_eq!(e.adjust_loan(ALICE, X, 1_000, 100), Ok(()));
    e.feed_price(X, None);
    assert_eq!(e.adjust_loan(ALICE, X, 1_000, 100), Err(Error::PriceNotAvailable));
}

#[test]
fn transfer_of_empty_position_still_consumes_grant() {
    let mut e = new_engine();
    e.set_balance(NATIVE, ALICE, DEPOSIT);
    assert_eq!(e.authorize(ALICE, X, BOB), Ok(()));
    assert_eq!(e.transfer_loan_from(BOB, X, ALICE), Ok(()));
    assert_eq!(e.get_authorization(X, ALICE, BOB), None);
    assert_eq!(e.get_balance(NATIVE, ALICE), DEPOSIT);
    assert_eq!(e.get_position(X, BOB), Position { collateral: 0, debit: 0 });
}
