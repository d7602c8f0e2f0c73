//! Scenario tests: boundary initial-margin checks, liquidation tiers at
//! moving and collapsing prices, the escrow withdrawal race, error
//! variants, and insertion-order independence of the cycle results.

use perpetual_asset::arith::PRICE_SCALE;
use perpetual_asset::errors::Error;
use perpetual_asset::events::Event;
use perpetual_asset::mock::{ExtBuilder, ALICE, BOB, CHARLIE};

#[test]
fn boundary_mint() {
    // price = 1, initial margin fraction = 1/5: +100 with +20 margin is
    // exactly enough, one more unit of position is not.
    let mut w = ExtBuilder::default().build();
    w.on_initialize();
    assert!(w.engine.adjust(&mut w.tokens, ALICE, 100, 20).is_ok());
    assert_eq!(w.engine.margin_of(ALICE), 20);
    assert_eq!(
        w.engine.adjust(&mut w.tokens, ALICE, 1, 0),
        Err(Error::NotEnoughIM)
    );
    assert_eq!(w.engine.position_of(ALICE), 100);
}

#[test]
fn full_liquidation_at_zero_price() {
    let mut w = ExtBuilder::default().build();
    w.on_initialize();
    assert!(w.engine.adjust(&mut w.tokens, ALICE, 100, 20).is_ok());
    assert!(w.engine.adjust(&mut w.tokens, BOB, -100, 20).is_ok());
    w.on_initialize();
    assert_eq!(w.engine.inventory_of(ALICE), 100);
    assert_eq!(w.engine.inventory_of(BOB), -100);

    // The price collapses to zero: the long side's margin is wiped by
    // mark-to-market and the account is fully unwound; the short
    // counterparty keeps its full position.
    w.price_source.set_price(Some(0));
    w.on_initialize();
    assert_eq!(w.engine.margin_of(ALICE), 0);
    assert_eq!(w.engine.position_of(ALICE), 0);
    assert_eq!(w.engine.inventory_of(ALICE), 0);
    assert_eq!(w.engine.position_of(BOB), -100);
    assert_eq!(w.engine.margin_of(BOB), 120);
    // With the long side gone, nothing can be matched this cycle.
    assert_eq!(w.engine.inventory_of(BOB), 0);
}

#[test]
fn mark_to_market_moves_margins() {
    let mut w = ExtBuilder::default().build();
    w.on_initialize();
    assert!(w.engine.adjust(&mut w.tokens, ALICE, 100, 20).is_ok());
    assert!(w.engine.adjust(&mut w.tokens, BOB, -100, 20).is_ok());
    w.on_initialize();

    // The price doubles: the long gains 100, the short loses its whole
    // margin (clamped at zero) and is fully unwound by liquidation.
    w.price_source.set_price(Some(2 * PRICE_SCALE));
    w.on_initialize();
    assert_eq!(w.engine.margin_of(ALICE), 120);
    assert_eq!(w.engine.margin_of(BOB), 0);
    assert_eq!(w.engine.position_of(BOB), 0);
    assert_eq!(w.engine.position_of(ALICE), 100);
    assert_eq!(w.engine.inventory_of(ALICE), 0);
}

#[test]
fn liquidation_shrinks_oversized_position() {
    let mut w = ExtBuilder::default().build();
    w.on_initialize();
    assert!(w.engine.adjust(&mut w.tokens, ALICE, 100, 20).is_ok());
    assert!(w.engine.adjust(&mut w.tokens, BOB, -100, 20).is_ok());
    w.on_initialize();
    assert_eq!(w.engine.inventory_of(BOB), -100);

    // Bob quadruples the short intent; the entry check demands the full initial
    // margin on the new raw position: ceil(400 / 5) = 80.
    assert!(w.engine.adjust(&mut w.tokens, BOB, -300, 60).is_ok());
    assert_eq!(w.engine.margin_of(BOB), 80);

    // The price rises to 1.4: Bob's matched exposure of -100 loses 40,
    // leaving 40. The raw position's liquidation requirement
    // ceil(0.1 * 560) = 56 exceeds it, the matched inventory's initial
    // requirement ceil(0.2 * 140) = 28 does not, so the position shrinks
    // to the largest sustainable magnitude floor(40 / 0.28) = 142 on the
    // inventory's side.
    w.price_source.set_price(Some(PRICE_SCALE / 10 * 14));
    w.on_initialize();
    assert_eq!(w.engine.margin_of(BOB), 40);
    assert_eq!(w.engine.position_of(BOB), -142);
    assert_eq!(w.engine.margin_of(ALICE), 60);
    assert_eq!(w.engine.position_of(ALICE), 100);

    // Netting in the same cycle: longs (100) are the smaller side and
    // stay whole; Bob is haircut to floor(142 * 100/142) = 99.
    assert_eq!(w.engine.inventory_of(ALICE), 100);
    assert_eq!(w.engine.inventory_of(BOB), -99);
}

#[test]
fn withdrawal_escrow_race() {
    // A documented first-come-first-served race: when unrealized losses
    // have not yet been liquidated into the escrow, a withdrawal backed by
    // paper gains can exceed what the escrow holds.
    let mut w = ExtBuilder::default().build();
    w.on_initialize();
    assert!(w.engine.adjust(&mut w.tokens, ALICE, 100, 20).is_ok());
    assert!(w.engine.adjust(&mut w.tokens, BOB, -100, 20).is_ok());
    w.on_initialize();

    w.price_source.set_price(Some(2 * PRICE_SCALE));
    w.on_initialize();
    assert_eq!(w.engine.margin_of(ALICE), 120);
    assert_eq!(w.engine.total_collateral_balance(&w.tokens), 40);

    // Alice closes out and asks for 100 back; the escrow only holds 40.
    assert_eq!(
        w.engine.adjust(&mut w.tokens, ALICE, -100, -100),
        Err(Error::InsufficientBalance)
    );
    assert_eq!(w.engine.margin_of(ALICE), 120);
    assert_eq!(w.engine.position_of(ALICE), 100);
    assert_eq!(w.engine.total_collateral_balance(&w.tokens), 40);

    // What the escrow does hold can be withdrawn.
    assert!(w.engine.adjust(&mut w.tokens, ALICE, -100, -40).is_ok());
    assert_eq!(w.engine.margin_of(ALICE), 80);
    assert_eq!(w.engine.position_of(ALICE), 0);
    assert_eq!(w.engine.total_collateral_balance(&w.tokens), 0);
}

#[test]
fn stale_price_survives_oracle_outage() {
    let mut w = ExtBuilder::default().build();
    w.on_initialize();
    assert!(w.engine.adjust(&mut w.tokens, ALICE, 100, 20).is_ok());

    // The oracle goes dark: the cycle still runs against the stale
    // reference price and position entry keeps working.
    w.price_source.set_price(None);
    w.on_initialize();
    assert_eq!(w.engine.margin_of(ALICE), 20);
    assert!(w.engine.adjust(&mut w.tokens, ALICE, 0, 5).is_ok());
    assert_eq!(w.engine.margin_of(ALICE), 25);
}

#[test]
fn overflow_is_rejected_atomically() {
    let mut w = ExtBuilder::default().build();
    w.on_initialize();
    assert!(w.engine.adjust(&mut w.tokens, ALICE, 1, 1).is_ok());
    assert_eq!(
        w.engine.adjust(&mut w.tokens, ALICE, i128::MAX, 0),
        Err(Error::Overflow)
    );
    assert_eq!(w.engine.position_of(ALICE), 1);
    assert_eq!(w.engine.margin_of(ALICE), 1);
    assert_eq!(w.engine.total_collateral_balance(&w.tokens), 1);
}

#[test]
fn amount_convert_failure() {
    let mut w = ExtBuilder::default().build();
    w.on_initialize();
    assert_eq!(
        w.engine
            .mint_or_burn(&mut w.tokens, ALICE, u128::MAX, true, 0, true),
        Err(Error::AmountConvertFailed)
    );
    assert_eq!(
        w.engine
            .mint_or_burn(&mut w.tokens, ALICE, 0, true, u128::MAX, false),
        Err(Error::AmountConvertFailed)
    );
    // The same call in signed range behaves exactly as adjust.
    assert!(w
        .engine
        .mint_or_burn(&mut w.tokens, ALICE, 100, true, 20, true)
        .is_ok());
    assert_eq!(w.engine.position_of(ALICE), 100);
    assert!(w
        .engine
        .mint_or_burn(&mut w.tokens, ALICE, 100, false, 0, true)
        .is_ok());
    assert_eq!(w.engine.position_of(ALICE), 0);
}

#[test]
fn collateral_events_are_recorded() {
    let mut w = ExtBuilder::default().build();
    w.on_initialize();
    assert!(w.engine.adjust(&mut w.tokens, ALICE, 100, 20).is_ok());
    let n = w.engine.events.len();
    assert_eq!(w.engine.events[n - 2], Event::CollateralUpdated(20));
    assert_eq!(w.engine.events[n - 1], Event::BalanceUpdated(ALICE, 100));

    // No collateral movement, no collateral notification.
    assert!(w.engine.adjust(&mut w.tokens, ALICE, -10, 0).is_ok());
    assert_eq!(w.engine.events.len(), n + 1);
    assert_eq!(w.engine.events[n], Event::BalanceUpdated(ALICE, 90));
}

#[test]
fn insertion_order_does_not_change_results() {
    let mut w1 = ExtBuilder::default().build();
    w1.on_initialize();
    assert!(w1.engine.adjust(&mut w1.tokens, ALICE, 70, 20).is_ok());
    assert!(w1.engine.adjust(&mut w1.tokens, BOB, -100, 20).is_ok());
    w1.on_initialize();

    let mut w2 = ExtBuilder::default().build();
    w2.on_initialize();
    assert!(w2.engine.adjust(&mut w2.tokens, BOB, -100, 20).is_ok());
    assert!(w2.engine.adjust(&mut w2.tokens, ALICE, 70, 20).is_ok());
    w2.on_initialize();

    assert_eq!(w1.engine.inventory_of(ALICE), w2.engine.inventory_of(ALICE));
    assert_eq!(w1.engine.inventory_of(BOB), w2.engine.inventory_of(BOB));
    assert_eq!(w1.engine.margin_of(ALICE), w2.engine.margin_of(ALICE));
    assert_eq!(w1.engine.margin_of(BOB), w2.engine.margin_of(BOB));
}

#[test]
fn netting_totals_stay_balanced() {
    // Longs 150 against shorts 100: the shorts stay whole, the longs are
    // haircut pro rata, and the matched totals differ by at most one unit
    // per haircut account.
    let mut w = ExtBuilder::default().build();
    w.on_initialize();
    assert!(w.engine.adjust(&mut w.tokens, ALICE, 100, 20).is_ok());
    assert!(w.engine.adjust(&mut w.tokens, BOB, -100, 20).is_ok());
    assert!(w.engine.adjust(&mut w.tokens, CHARLIE, 50, 10).is_ok());
    w.on_initialize();

    assert_eq!(w.engine.inventory_of(ALICE), 66);
    assert_eq!(w.engine.inventory_of(CHARLIE), 33);
    assert_eq!(w.engine.inventory_of(BOB), -100);

    let matched_long = w.engine.inventory_of(ALICE) + w.engine.inventory_of(CHARLIE);
    let matched_short = -w.engine.inventory_of(BOB);
    assert!(matched_long <= matched_short);
    // Two accounts were haircut, so the rounding loss is at most 2.
    assert!(matched_short - matched_long <= 2);
}

#[test]
fn built_world_is_endowed() {
    let w = ExtBuilder::default().build();
    assert_eq!(w.tokens.balance(ALICE), 1_000_000_000_000_000_000);
    assert_eq!(w.engine.total_collateral_balance(&w.tokens), 0);
    assert_eq!(w.engine.position_of(ALICE), 0);
    assert_eq!(w.engine.margin_of(ALICE), 0);
}
