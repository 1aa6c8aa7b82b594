use swap::exchange::Exchange;
use swap::errors::Error;
use swap::pair::Event;

const ALICE: u64 = 10;
const BOB: u64 = 20;

/// Two tokens issued to Alice, Bob funded, and a pair created.
fn setup_pair() -> (Exchange, u128, u128, u128) {
    let mut ex = Exchange::new();
    let t1 = ex.do_issue(ALICE, b"6666".to_vec(), 21000000);
    let t2 = ex.do_issue(ALICE, b"8888".to_vec(), 10000000);
    assert!(ex.do_transfer(ALICE, BOB, t1, 1000000, None).is_ok());
    assert!(ex.do_transfer(ALICE, BOB, t2, 5000000, None).is_ok());
    assert!(ex.do_create_trade_pair(ALICE, t1, t2, 42, 1).is_ok());
    let h = ex.trade_pair_hash_by_base_quote((t1, t2)).unwrap();
    (ex, t1, t2, h)
}

#[test]
fn add_rejects_unknown_pair() {
    let (mut ex, _t1, _t2, h) = setup_pair();
    assert_eq!(
        ex.do_add_liquidity(ALICE, h.wrapping_add(1), 100, Some(30000)),
        Err(Error::NoMatchingTradePair)
    );
}

#[test]
fn add_rejects_zero_base_amount() {
    let (mut ex, _t1, _t2, h) = setup_pair();
    assert_eq!(
        ex.do_add_liquidity(ALICE, h, 0, Some(30000)),
        Err(Error::BaseAmountIsZero)
    );
}

#[test]
fn add_rejects_missing_quote_on_bootstrap() {
    let (mut ex, _t1, _t2, h) = setup_pair();
    assert_eq!(
        ex.do_add_liquidity(ALICE, h, 100, None),
        Err(Error::QuoteAmountIsNone)
    );
}

#[test]
fn add_rejects_zero_quote_on_bootstrap() {
    let (mut ex, _t1, _t2, h) = setup_pair();
    assert_eq!(
        ex.do_add_liquidity(ALICE, h, 100, Some(0)),
        Err(Error::QuoteAmountIsZero)
    );
}

#[test]
fn add_rejects_insufficient_base_balance() {
    let (mut ex, _t1, _t2, h) = setup_pair();
    // Bob holds 1000000 of the base token.
    assert_eq!(
        ex.do_add_liquidity(BOB, h, 1000001, Some(1)),
        Err(Error::InsufficientBalance)
    );
}

#[test]
fn add_rejects_vanishing_minted_amount() {
    let (mut ex, _t1, _t2, h) = setup_pair();
    assert!(ex.do_add_liquidity(ALICE, h, 100, Some(30000)).is_ok());
    assert!(ex.do_add_liquidity(BOB, h, 500, None).is_ok());
    assert!(ex.do_swap_buy(ALICE, h, 13).is_ok());
    // Pool now holds 613 base with 600 shares issued: one base mints
    // 600 / 613 = 0 shares, while the implicit quote stays positive.
    assert_eq!(
        ex.do_add_liquidity(ALICE, h, 1, None),
        Err(Error::LiquidityMintedIsZero)
    );
}

#[test]
fn add_rejects_overflowing_quote_product() {
    let mut ex = Exchange::new();
    let t1 = ex.do_issue(ALICE, b"AAAA".to_vec(), 1000);
    let t2 = ex.do_issue(ALICE, b"BBBB".to_vec(), u128::MAX);
    assert!(ex.do_create_trade_pair(ALICE, t1, t2, 42, 1).is_ok());
    let h = ex.trade_pair_hash_by_base_quote((t1, t2)).unwrap();
    assert!(ex.do_add_liquidity(ALICE, h, 100, Some(u128::MAX)).is_ok());
    // The quote reserve is the full balance range: any further deposit
    // overflows the 128-bit product.
    assert_eq!(
        ex.do_add_liquidity(ALICE, h, 50, None),
        Err(Error::Overflow)
    );
}

#[test]
fn remove_rejects_more_than_issued() {
    let (mut ex, _t1, _t2, h) = setup_pair();
    assert!(ex.do_add_liquidity(ALICE, h, 100, Some(30000)).is_ok());
    assert_eq!(
        ex.do_remove_liquidity(ALICE, h, 101),
        Err(Error::LiquidityTokenAmountOverflow)
    );
}

#[test]
fn remove_rejects_zero_amount() {
    let (mut ex, _t1, _t2, h) = setup_pair();
    assert!(ex.do_add_liquidity(ALICE, h, 100, Some(30000)).is_ok());
    assert_eq!(
        ex.do_remove_liquidity(ALICE, h, 0),
        Err(Error::LiquidityTokenAmountIsZero)
    );
}

#[test]
fn remove_rejects_more_than_held() {
    let (mut ex, _t1, _t2, h) = setup_pair();
    assert!(ex.do_add_liquidity(ALICE, h, 100, Some(30000)).is_ok());
    assert!(ex.do_add_liquidity(BOB, h, 500, None).is_ok());
    // 501 shares are within the issued total but above Bob's holding.
    assert_eq!(
        ex.do_remove_liquidity(BOB, h, 501),
        Err(Error::InsufficientBalance)
    );
}

#[test]
fn remove_rejects_vanishing_quote_payout() {
    let (mut ex, _t1, _t2, h) = setup_pair();
    // A pool of 100 base against 1 quote: burning half the shares pays
    // 1 * 50 / 100 = 0 quote.
    assert!(ex.do_add_liquidity(ALICE, h, 100, Some(1)).is_ok());
    assert_eq!(
        ex.do_remove_liquidity(ALICE, h, 50),
        Err(Error::QuoteAmountIsZero)
    );
}

#[test]
fn remove_rejects_vanishing_base_payout() {
    let (mut ex, _t1, _t2, h) = setup_pair();
    assert!(ex.do_add_liquidity(ALICE, h, 100, Some(30000)).is_ok());
    assert!(ex.do_add_liquidity(BOB, h, 500, None).is_ok());
    // Sell the pool's quote price down: 600 base reserve halves to 300
    // against 600 issued shares, so one share pays 300 / 600 = 0 base.
    assert!(ex.do_swap_sell(ALICE, h, 180000).is_ok());
    assert_eq!(ex.balance_of((ex.trade_pair(h).unwrap().account, ex.trade_pair(h).unwrap().base)), 300);
    assert_eq!(
        ex.do_remove_liquidity(ALICE, h, 1),
        Err(Error::BaseAmountIsZero)
    );
}

#[test]
fn add_then_remove_restores_balances_exactly() {
    let (mut ex, t1, t2, h) = setup_pair();
    assert!(ex.do_add_liquidity(ALICE, h, 100, Some(30000)).is_ok());
    assert!(ex.do_add_liquidity(BOB, h, 500, None).is_ok());
    // The pool ratio is 600 : 180000 with 600 shares issued, so a
    // deposit of 7 base divides evenly: it mints 7 shares for 2100
    // quote, and burning the 7 shares pays both back in full.
    let base_before = ex.balance_of((ALICE, t1));
    let quote_before = ex.balance_of((ALICE, t2));
    let lp_before = ex.balance_of((ALICE, ex.trade_pair(h).unwrap().liquidity_token_hash));
    assert!(ex.do_add_liquidity(ALICE, h, 7, None).is_ok());
    assert_eq!(ex.balance_of((ALICE, t1)), base_before - 7);
    assert_eq!(ex.balance_of((ALICE, t2)), quote_before - 2100);
    assert!(ex.do_remove_liquidity(ALICE, h, 7).is_ok());
    assert_eq!(ex.balance_of((ALICE, t1)), base_before);
    assert_eq!(ex.balance_of((ALICE, t2)), quote_before);
    assert_eq!(
        ex.balance_of((ALICE, ex.trade_pair(h).unwrap().liquidity_token_hash)),
        lp_before
    );
}

#[test]
fn withdraw_to_zero_in_reverse_order() {
    // The full trading scenario, then all shares removed with Alice
    // going first: the pool must still drain to exactly zero and the
    // LP token return to full supply at the pool account.
    let (mut ex, t1, t2, h) = setup_pair();
    assert!(ex.do_add_liquidity(ALICE, h, 100, Some(30000)).is_ok());
    assert!(ex.do_add_liquidity(BOB, h, 500, None).is_ok());
    assert!(ex.do_swap_buy(ALICE, h, 13).is_ok());
    assert!(ex.do_swap_sell(BOB, h, 539).is_ok());
    assert!(ex.do_add_liquidity(ALICE, h, 477, None).is_ok());

    assert!(ex.do_remove_liquidity(ALICE, h, 567).is_ok());
    let tp = ex.trade_pair(h).unwrap();
    assert_eq!(tp.liquidity_token_issued_amount, 500);
    assert_eq!(ex.balance_of((ALICE, t1)), 19999988); // 19999410 + 578
    assert_eq!(ex.balance_of((ALICE, t2)), 5003181); // 4836078 + 167103

    assert!(ex.do_remove_liquidity(BOB, h, 500).is_ok());
    let tp = ex.trade_pair(h).unwrap();
    assert_eq!(tp.liquidity_token_issued_amount, 0);
    assert_eq!(ex.balance_of((BOB, t1)), 1000012); // 999501 + 511
    assert_eq!(ex.balance_of((BOB, t2)), 4996819); // 4849461 + 147358

    assert_eq!(ex.balance_of((tp.account, t1)), 0);
    assert_eq!(ex.balance_of((tp.account, t2)), 0);
    assert_eq!(
        ex.balance_of((tp.account, tp.liquidity_token_hash)),
        u128::MAX
    );
    // Everything returned to providers adds back up to both supplies.
    assert_eq!(ex.balance_of((ALICE, t1)) + ex.balance_of((BOB, t1)), 21000000);
    assert_eq!(ex.balance_of((ALICE, t2)) + ex.balance_of((BOB, t2)), 10000000);
}

#[test]
fn liquidity_events_are_recorded_in_order() {
    let (mut ex, _t1, _t2, h) = setup_pair();
    assert!(ex.do_add_liquidity(ALICE, h, 100, Some(30000)).is_ok());
    assert!(ex.do_remove_liquidity(ALICE, h, 40).is_ok());
    assert_eq!(ex.events.len(), 3);
    assert!(matches!(ex.events[0], Event::TradePairCreated(ALICE, _, _)));
    assert_eq!(ex.events[1], Event::LiquidityAdded(ALICE, h));
    assert_eq!(ex.events[2], Event::LiquidityRemoved(ALICE, h));
}
