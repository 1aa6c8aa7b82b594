use swap::exchange::Exchange;
use swap::errors::Error;
use swap::pair::Event;

const ALICE: u64 = 10;
const BOB: u64 = 20;

fn setup_pair() -> (Exchange, u128, u128, u128) {
    let mut ex = Exchange::new();
    let t1 = ex.do_issue(ALICE, b"6666".to_vec(), 21000000);
    let t2 = ex.do_issue(ALICE, b"8888".to_vec(), 10000000);
    assert!(ex.do_transfer(ALICE, BOB, t1, 1000000, None).is_ok());
    assert!(ex.do_transfer(ALICE, BOB, t2, 5000000, None).is_ok());
    assert!(ex.do_create_trade_pair(ALICE, t1, t2, 42, 1).is_ok());
    let h = ex.trade_pair_hash_by_base_quote((t1, t2)).unwrap();
    (ex, t1, t2, h)
}

/// The pair funded at 600 base : 180000 quote with 600 shares issued.
fn setup_funded_pair() -> (Exchange, u128, u128, u128) {
    let (mut ex, t1, t2, h) = setup_pair();
    assert!(ex.do_add_liquidity(ALICE, h, 100, Some(30000)).is_ok());
    assert!(ex.do_add_liquidity(BOB, h, 500, None).is_ok());
    (ex, t1, t2, h)
}

#[test]
fn swap_rejects_unknown_pair() {
    let (mut ex, _t1, _t2, h) = setup_funded_pair();
    assert_eq!(
        ex.do_swap_buy(ALICE, h.wrapping_add(1), 13),
        Err(Error::NoMatchingTradePair)
    );
    assert_eq!(
        ex.do_swap_sell(ALICE, h.wrapping_add(1), 13),
        Err(Error::NoMatchingTradePair)
    );
}

#[test]
fn swap_rejects_empty_pool() {
    let (mut ex, _t1, _t2, h) = setup_pair();
    assert_eq!(ex.do_swap_buy(ALICE, h, 13), Err(Error::PoolBaseAmountIsZero));
    assert_eq!(ex.do_swap_sell(ALICE, h, 13), Err(Error::PoolBaseAmountIsZero));
}

#[test]
fn swap_buy_rejects_zero_input() {
    let (mut ex, _t1, _t2, h) = setup_funded_pair();
    // A zero input prices a zero output, caught as the zero-output
    // error of the buy side.
    assert_eq!(ex.do_swap_buy(ALICE, h, 0), Err(Error::QuoteAmountIsZero));
}

#[test]
fn swap_sell_rejects_zero_input() {
    let (mut ex, _t1, _t2, h) = setup_funded_pair();
    assert_eq!(ex.do_swap_sell(ALICE, h, 0), Err(Error::QuoteAmountIsZero));
}

#[test]
fn swap_buy_rejects_vanishing_output() {
    let (mut ex, _t1, _t2, h) = setup_pair();
    // 30000 base against 100 quote: one base prices 100 / 30001 = 0.
    assert!(ex.do_add_liquidity(ALICE, h, 30000, Some(100)).is_ok());
    assert_eq!(ex.do_swap_buy(BOB, h, 1), Err(Error::QuoteAmountIsZero));
}

#[test]
fn swap_sell_rejects_vanishing_output() {
    let (mut ex, _t1, _t2, h) = setup_funded_pair();
    // One quote prices 600 / 180001 = 0 base.
    assert_eq!(ex.do_swap_sell(BOB, h, 1), Err(Error::BaseAmountIsZero));
}

#[test]
fn swap_rejects_insufficient_input_balance() {
    let (mut ex, _t1, _t2, h) = setup_funded_pair();
    // Bob holds 999500 base and 4850000 quote.
    assert_eq!(
        ex.do_swap_buy(BOB, h, 999501),
        Err(Error::InsufficientBalance)
    );
    assert_eq!(
        ex.do_swap_sell(BOB, h, 4850001),
        Err(Error::InsufficientBalance)
    );
}

#[test]
fn swap_rejects_overflowing_product() {
    let mut ex = Exchange::new();
    let t1 = ex.do_issue(ALICE, b"AAAA".to_vec(), 1000);
    let t2 = ex.do_issue(ALICE, b"BBBB".to_vec(), u128::MAX);
    assert!(ex.do_create_trade_pair(ALICE, t1, t2, 42, 1).is_ok());
    let h = ex.trade_pair_hash_by_base_quote((t1, t2)).unwrap();
    assert!(ex.do_add_liquidity(ALICE, h, 100, Some(u128::MAX)).is_ok());
    assert_eq!(ex.do_swap_buy(ALICE, h, 2), Err(Error::Overflow));
}

#[test]
fn swap_buy_preserves_constant_product() {
    let (mut ex, t1, t2, h) = setup_funded_pair();
    let tp = ex.trade_pair(h).unwrap();
    let before = ex.balance_of((tp.account, t1)) * ex.balance_of((tp.account, t2));
    assert!(ex.do_swap_buy(ALICE, h, 13).is_ok());
    let after = ex.balance_of((tp.account, t1)) * ex.balance_of((tp.account, t2));
    assert_eq!(before, 600 * 180000);
    assert_eq!(after, 613 * 176183);
    assert!(after >= before);
}

#[test]
fn swap_sell_preserves_constant_product() {
    let (mut ex, t1, t2, h) = setup_funded_pair();
    assert!(ex.do_swap_buy(ALICE, h, 13).is_ok());
    let tp = ex.trade_pair(h).unwrap();
    let before = ex.balance_of((tp.account, t1)) * ex.balance_of((tp.account, t2));
    assert!(ex.do_swap_sell(BOB, h, 539).is_ok());
    let after = ex.balance_of((tp.account, t1)) * ex.balance_of((tp.account, t2));
    assert_eq!(after, 612 * 176722);
    assert!(after >= before);
}

#[test]
fn failed_swap_changes_nothing() {
    let (mut ex, t1, t2, h) = setup_funded_pair();
    let tp = ex.trade_pair(h).unwrap();
    let alice_base = ex.balance_of((ALICE, t1));
    let alice_quote = ex.balance_of((ALICE, t2));
    let pool_base = ex.balance_of((tp.account, t1));
    let pool_quote = ex.balance_of((tp.account, t2));
    let n_events = ex.events.len();
    assert!(ex.do_swap_buy(ALICE, h, 0).is_err());
    assert!(ex.do_swap_buy(ALICE, h.wrapping_add(1), 13).is_err());
    assert_eq!(ex.balance_of((ALICE, t1)), alice_base);
    assert_eq!(ex.balance_of((ALICE, t2)), alice_quote);
    assert_eq!(ex.balance_of((tp.account, t1)), pool_base);
    assert_eq!(ex.balance_of((tp.account, t2)), pool_quote);
    assert_eq!(ex.trade_pair(h).unwrap(), tp);
    assert_eq!(ex.events.len(), n_events);
}

#[test]
fn swap_events_are_recorded() {
    let (mut ex, _t1, _t2, h) = setup_funded_pair();
    assert!(ex.do_swap_buy(ALICE, h, 13).is_ok());
    assert!(ex.do_swap_sell(BOB, h, 539).is_ok());
    let n = ex.events.len();
    assert_eq!(ex.events[n - 2], Event::SwapBuy(ALICE, h));
    assert_eq!(ex.events[n - 1], Event::SwapSell(BOB, h));
}
