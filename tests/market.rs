use prediction_market::error::ErrorCode;
use prediction_market::market::{MarketStatus, PredictionMarket, Resolution};
use prediction_market::oracle::OracleState;

const PUBLISHER: [u8; 32] = [1u8; 32];
const CREATOR: [u8; 32] = [2u8; 32];
const ALICE: [u8; 32] = [3u8; 32];
const BOB: [u8; 32] = [4u8; 32];
const CAROL: [u8; 32] = [5u8; 32];

const EXPIRY: i64 = 10_000;

fn maize() -> [u8; 32] {
    let mut c = [0u8; 32];
    c[..5].copy_from_slice(b"MAIZE");
    c
}

fn open_market(threshold: u64) -> PredictionMarket {
    PredictionMarket::create_market(1, maize(), threshold, EXPIRY, CREATOR, 100).unwrap()
}

fn oracle_with(price: u64, at: i64) -> OracleState {
    let mut store = OracleState::initialize(PUBLISHER);
    store.update_price(&PUBLISHER, maize(), price, 90, at).unwrap();
    store
}

#[test]
fn create_requires_future_expiry() {
    assert_eq!(
        PredictionMarket::create_market(1, maize(), 250, 100, CREATOR, 100).err(),
        Some(ErrorCode::InvalidExpiryTime)
    );
    let m = PredictionMarket::create_market(9, maize(), 250, 101, CREATOR, 100).unwrap();
    assert_eq!(m.market_id(), 9);
    assert_eq!(m.commodity(), maize());
    assert_eq!(m.threshold_price(), 250);
    assert_eq!(m.creation_time(), 100);
    assert_eq!(m.expiry_time(), 101);
    assert_eq!(m.authority(), CREATOR);
    assert_eq!((m.yes_pool(), m.no_pool()), (0, 0));
    assert_eq!(m.status(), MarketStatus::Open);
}

#[test]
fn two_participants_stake_independently() {
    let mut m = open_market(250);
    m.buy_shares(ALICE, 300, true, 200).unwrap();
    m.buy_shares(BOB, 700, true, 300).unwrap();
    assert_eq!(m.yes_pool(), 1000);
    assert_eq!(m.no_pool(), 0);
    assert_eq!(m.position(&ALICE).unwrap().yes_shares, 300);
    assert_eq!(m.position(&BOB).unwrap().yes_shares, 700);
    assert_eq!(m.position(&ALICE).unwrap().no_shares, 0);
    assert!(m.position(&CAROL).is_none());
}

#[test]
fn buy_accumulates_on_both_sides() {
    let mut m = open_market(250);
    let ev = m.buy_shares(ALICE, 10, false, 200).unwrap();
    assert_eq!((ev.market_id, ev.user, ev.is_yes, ev.amount), (1, ALICE, false, 10));
    m.buy_shares(ALICE, 5, true, 200).unwrap();
    m.buy_shares(ALICE, 7, false, 200).unwrap();
    let p = m.position(&ALICE).unwrap();
    assert_eq!((p.yes_shares, p.no_shares, p.claimed, p.market_id), (5, 17, false, 1));
    assert_eq!((m.yes_pool(), m.no_pool()), (5, 17));
}

#[test]
fn buy_at_expiry_fails() {
    let mut m = open_market(250);
    assert_eq!(m.buy_shares(ALICE, 10, true, EXPIRY), Err(ErrorCode::MarketExpired));
    assert_eq!(m.buy_shares(ALICE, 10, true, EXPIRY + 1), Err(ErrorCode::MarketExpired));
    assert!(m.buy_shares(ALICE, 10, true, EXPIRY - 1).is_ok());
}

#[test]
fn buy_rejects_zero_and_overflow() {
    let mut m = open_market(250);
    assert_eq!(m.buy_shares(ALICE, 0, true, 200), Err(ErrorCode::InvalidAmount));
    m.buy_shares(ALICE, u64::MAX - 5, true, 200).unwrap();
    assert_eq!(m.buy_shares(BOB, 6, false, 200), Err(ErrorCode::ArithmeticOverflow));
    m.buy_shares(BOB, 5, false, 200).unwrap();
    assert_eq!(m.no_pool(), 5);
}

#[test]
fn resolve_before_expiry_fails() {
    let mut m = open_market(250);
    let oracle = oracle_with(300, EXPIRY - 10);
    assert_eq!(m.resolve_market(&oracle, EXPIRY - 1), Err(ErrorCode::MarketNotExpired));
    assert_eq!(m.status(), MarketStatus::Open);
}

#[test]
fn resolve_twice_keeps_first_resolution() {
    let mut m = open_market(250);
    let oracle = oracle_with(300, EXPIRY);
    let ev = m.resolve_market(&oracle, EXPIRY).unwrap();
    assert!(ev.outcome);
    assert_eq!((ev.oracle_price, ev.threshold_price, ev.timestamp), (300, 250, EXPIRY));
    let first = m.status();
    let later = oracle_with(100, EXPIRY + 50);
    assert_eq!(m.resolve_market(&later, EXPIRY + 60), Err(ErrorCode::AlreadyResolved));
    assert_eq!(m.status(), first);
    assert_eq!(
        first,
        MarketStatus::Resolved(Resolution { outcome: true, oracle_price: 300, resolution_time: EXPIRY })
    );
}

#[test]
fn resolve_staleness_boundary() {
    let oracle = oracle_with(300, EXPIRY);
    let mut stale = open_market(250);
    assert_eq!(
        stale.resolve_market(&oracle, EXPIRY + 3600),
        Err(ErrorCode::StaleOraclePrice)
    );
    let mut fresh = open_market(250);
    assert!(fresh.resolve_market(&oracle, EXPIRY + 3599).is_ok());
}

#[test]
fn resolve_needs_a_price() {
    let mut m = open_market(250);
    let empty = OracleState::initialize(PUBLISHER);
    assert_eq!(m.resolve_market(&empty, EXPIRY), Err(ErrorCode::PriceNotInitialized));
}

#[test]
fn price_at_threshold_resolves_yes() {
    let mut m = open_market(250);
    let ev = m.resolve_market(&oracle_with(250, EXPIRY), EXPIRY).unwrap();
    assert!(ev.outcome);
    let mut below = open_market(250);
    let ev = below.resolve_market(&oracle_with(249, EXPIRY), EXPIRY).unwrap();
    assert!(!ev.outcome);
}

#[test]
fn buy_after_resolution_fails() {
    let mut m = open_market(250);
    m.resolve_market(&oracle_with(250, EXPIRY), EXPIRY).unwrap();
    assert_eq!(m.buy_shares(ALICE, 10, true, EXPIRY + 1), Err(ErrorCode::MarketResolved));
}

#[test]
fn claim_pays_once() {
    let mut m = open_market(250);
    m.buy_shares(ALICE, 100, true, 200).unwrap();
    m.buy_shares(BOB, 300, true, 200).unwrap();
    m.buy_shares(CAROL, 600, false, 200).unwrap();
    m.resolve_market(&oracle_with(260, EXPIRY), EXPIRY).unwrap();
    let ev = m.claim_winnings(&ALICE).unwrap();
    assert_eq!((ev.market_id, ev.user, ev.payout), (1, ALICE, 250));
    assert!(m.position(&ALICE).unwrap().claimed);
    assert_eq!(m.claim_winnings(&ALICE), Err(ErrorCode::AlreadyClaimed));
    assert_eq!(m.claim_winnings(&BOB).unwrap().payout, 750);
    assert_eq!(m.claim_winnings(&CAROL), Err(ErrorCode::NoWinningShares));
    assert_eq!(m.claim_winnings(&CREATOR), Err(ErrorCode::NoWinningShares));
}

#[test]
fn claim_before_resolution_fails() {
    let mut m = open_market(250);
    m.buy_shares(ALICE, 100, true, 200).unwrap();
    assert_eq!(m.claim_winnings(&ALICE), Err(ErrorCode::MarketNotResolved));
}

#[test]
fn claim_rounds_down() {
    let mut m = open_market(250);
    m.buy_shares(ALICE, 1, false, 200).unwrap();
    m.buy_shares(BOB, 2, false, 200).unwrap();
    m.buy_shares(CAROL, 2, true, 200).unwrap();
    m.resolve_market(&oracle_with(10, EXPIRY), EXPIRY).unwrap();
    assert_eq!(m.claim_winnings(&ALICE).unwrap().payout, 1);
    assert_eq!(m.claim_winnings(&BOB).unwrap().payout, 3);
}
