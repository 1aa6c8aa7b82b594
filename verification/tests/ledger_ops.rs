use swap::exchange::Exchange;
use swap::errors::Error;

const ALICE: u64 = 10;
const BOB: u64 = 20;

#[test]
fn issue_assigns_dense_identifiers() {
    let mut ex = Exchange::new();
    let t1 = ex.do_issue(ALICE, b"6666".to_vec(), 21000000);
    let t2 = ex.do_issue(BOB, b"8888".to_vec(), 10000000);
    assert_eq!(t1, 0);
    assert_eq!(t2, 1);
    assert_eq!(ex.token_hash_by_index(0), Some(t1));
    assert_eq!(ex.token_hash_by_index(1), Some(t2));
    assert_eq!(ex.token_hash_by_index(2), None);
    assert_eq!(ex.owner(t1), Some(ALICE));
    assert_eq!(ex.owner(t2), Some(BOB));
    assert_eq!(ex.owner(2), None);
    let info = ex.token(t2).unwrap();
    assert_eq!(info.token_hash, t2);
    assert_eq!(info.symbol, b"8888".to_vec());
    assert_eq!(info.total_supply, 10000000);
    assert!(ex.token(2).is_none());
}

#[test]
fn issue_mints_full_supply_to_owner() {
    let mut ex = Exchange::new();
    let t = ex.do_issue(ALICE, b"6666".to_vec(), 21000000);
    assert_eq!(ex.balance_of((ALICE, t)), 21000000);
    assert_eq!(ex.balance_of((BOB, t)), 0);
}

#[test]
fn issue_accepts_empty_symbol_and_zero_supply() {
    let mut ex = Exchange::new();
    let t = ex.do_issue(ALICE, Vec::new(), 0);
    assert_eq!(ex.token(t).unwrap().symbol, Vec::<u8>::new());
    assert_eq!(ex.balance_of((ALICE, t)), 0);
}

#[test]
fn transfer_moves_balance() {
    let mut ex = Exchange::new();
    let t = ex.do_issue(ALICE, b"6666".to_vec(), 1000);
    assert!(ex.do_transfer(ALICE, BOB, t, 400, None).is_ok());
    assert_eq!(ex.balance_of((ALICE, t)), 600);
    assert_eq!(ex.balance_of((BOB, t)), 400);
    assert!(ex.do_transfer(BOB, ALICE, t, 400, None).is_ok());
    assert_eq!(ex.balance_of((ALICE, t)), 1000);
    assert_eq!(ex.balance_of((BOB, t)), 0);
}

#[test]
fn transfer_rejects_unknown_token() {
    let mut ex = Exchange::new();
    assert_eq!(
        ex.do_transfer(ALICE, BOB, 0, 1, None),
        Err(Error::TokenNotFound)
    );
}

#[test]
fn transfer_rejects_insufficient_balance() {
    let mut ex = Exchange::new();
    let t = ex.do_issue(ALICE, b"6666".to_vec(), 1000);
    assert_eq!(
        ex.do_transfer(ALICE, BOB, t, 1001, None),
        Err(Error::InsufficientBalance)
    );
    assert_eq!(ex.balance_of((ALICE, t)), 1000);
    assert_eq!(ex.balance_of((BOB, t)), 0);
}

#[test]
fn transfer_to_self_changes_nothing() {
    let mut ex = Exchange::new();
    let t = ex.do_issue(ALICE, b"6666".to_vec(), 1000);
    assert!(ex.do_transfer(ALICE, ALICE, t, 700, None).is_ok());
    assert_eq!(ex.balance_of((ALICE, t)), 1000);
}

#[test]
fn ensure_free_balance_checks_without_side_effects() {
    let mut ex = Exchange::new();
    let t = ex.do_issue(ALICE, b"6666".to_vec(), 1000);
    assert!(ex.ensure_free_balance(ALICE, t, 1000).is_ok());
    assert_eq!(
        ex.ensure_free_balance(ALICE, t, 1001),
        Err(Error::InsufficientBalance)
    );
    assert_eq!(
        ex.ensure_free_balance(ALICE, 5, 1),
        Err(Error::TokenNotFound)
    );
    assert_eq!(ex.balance_of((ALICE, t)), 1000);
}
