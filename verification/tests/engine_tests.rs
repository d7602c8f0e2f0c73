//! The original module tests: collateral top-up, minting through the
//! position-entry call, and proportional interest matching.

use perpetual_asset::errors::Error;
use perpetual_asset::events::Event;
use perpetual_asset::mock::{ExtBuilder, World, ALICE, BOB, CHARLIE, GEORGES};

fn last_event(w: &World) -> Event {
    *w.engine.events.last().unwrap()
}

#[test]
fn top_up_collateral_works() {
    let mut w = ExtBuilder::default().build();
    w.on_initialize();

    assert!(w.engine.adjust(&mut w.tokens, ALICE, 100, 20).is_ok());

    // A pure collateral top-up of 10 units.
    assert!(w.engine.adjust(&mut w.tokens, ALICE, 0, 10).is_ok());

    assert_eq!(w.engine.total_collateral_balance(&w.tokens), 30);
    assert_eq!(w.engine.margin_of(ALICE), 30);

    // A top-up beyond the caller's free balance is rejected by the
    // transfer ledger and changes nothing.
    assert_eq!(
        w.engine.adjust(&mut w.tokens, ALICE, 0, 2_000_000_000_000_000_000),
        Err(Error::InsufficientBalance)
    );

    assert_eq!(w.engine.total_collateral_balance(&w.tokens), 30);
    assert_eq!(w.engine.margin_of(ALICE), 30);
}

#[test]
fn mint_works() {
    let mut w = ExtBuilder::default().build();

    assert_eq!(
        w.engine.adjust(&mut w.tokens, ALICE, 10, 1),
        Err(Error::PriceNotSet)
    );

    w.on_initialize();

    assert_eq!(
        w.engine.adjust(
            &mut w.tokens,
            ALICE,
            2_000_000_000_000_000_000,
            2_000_000_000_000_000_000
        ),
        Err(Error::InsufficientBalance)
    );
    assert_eq!(w.engine.margin_of(ALICE), 0);

    assert_eq!(
        w.engine.adjust(&mut w.tokens, ALICE, 10, 1),
        Err(Error::NotEnoughIM)
    );

    assert!(w.engine.adjust(&mut w.tokens, ALICE, 100, 20).is_ok());

    assert_eq!(last_event(&w), Event::BalanceUpdated(ALICE, 100));

    assert_eq!(w.engine.total_collateral_balance(&w.tokens), 20);
    assert_eq!(w.tokens.balance(ALICE), 999_999_999_999_999_980);
    assert_eq!(w.engine.margin_of(ALICE), 20);

    // Removes balance so no extra initial margin is needed.
    assert!(w.engine.adjust(&mut w.tokens, ALICE, -10, 0).is_ok());
    assert_eq!(w.engine.total_collateral_balance(&w.tokens), 20);
    assert_eq!(w.engine.margin_of(ALICE), 20);

    // Only 10 units added net, so 2 more initial margin is needed.
    assert!(w.engine.adjust(&mut w.tokens, ALICE, 20, 2).is_ok());
    assert_eq!(w.engine.total_collateral_balance(&w.tokens), 22);
    assert_eq!(w.engine.margin_of(ALICE), 22);

    // Position becomes -200, so 40 margin is needed; 22 is there, 18 more.
    assert_eq!(
        w.engine.adjust(&mut w.tokens, ALICE, -310, 17),
        Err(Error::NotEnoughIM)
    );
    assert!(w.engine.adjust(&mut w.tokens, ALICE, -310, 18).is_ok());
    assert_eq!(w.engine.total_collateral_balance(&w.tokens), 40);
    assert_eq!(w.engine.margin_of(ALICE), 40);

    assert!(w.engine.adjust(&mut w.tokens, BOB, -100, 20).is_ok());
    assert_eq!(w.engine.total_collateral_balance(&w.tokens), 60);
    assert_eq!(w.engine.margin_of(BOB), 20);
}

#[test]
fn match_interest_works() {
    let mut w = ExtBuilder::default().build();

    w.on_initialize();

    assert!(w.engine.adjust(&mut w.tokens, ALICE, 100, 20).is_ok());
    assert!(w.engine.adjust(&mut w.tokens, BOB, -100, 20).is_ok());

    w.on_initialize();

    assert_eq!(w.engine.inventory_of(ALICE), 100);
    assert_eq!(w.engine.inventory_of(BOB), -100);

    assert!(w.engine.adjust(&mut w.tokens, ALICE, -50, 0).is_ok());
    w.on_initialize();
    assert_eq!(w.engine.inventory_of(ALICE), 50);
    assert_eq!(w.engine.inventory_of(BOB), -50);

    assert!(w.engine.adjust(&mut w.tokens, CHARLIE, 100, 20).is_ok());
    w.on_initialize();
    assert_eq!(w.engine.inventory_of(ALICE), 33);
    assert_eq!(w.engine.inventory_of(CHARLIE), 66);
    assert_eq!(w.engine.inventory_of(BOB), -100);

    assert!(w.engine.adjust(&mut w.tokens, GEORGES, -100, 20).is_ok());
    w.on_initialize();
    assert_eq!(w.engine.inventory_of(ALICE), 50);
    assert_eq!(w.engine.inventory_of(CHARLIE), 100);
    assert_eq!(w.engine.inventory_of(BOB), -75);
    assert_eq!(w.engine.inventory_of(GEORGES), -75);
}
