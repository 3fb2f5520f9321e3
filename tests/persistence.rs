use prediction_market::market::{MarketHeader, MarketStatus, PredictionMarket, UserPosition};
use prediction_market::oracle::{OracleState, PriceAccount};

const PUBLISHER: [u8; 32] = [1u8; 32];
const ALICE: [u8; 32] = [3u8; 32];
const BOB: [u8; 32] = [4u8; 32];

fn record(tag: u8, price: u64) -> PriceAccount {
    PriceAccount {
        commodity: [tag; 32],
        price,
        confidence: 50,
        timestamp: 10,
        last_updater: PUBLISHER,
        update_count: 1,
    }
}

#[test]
fn oracle_records_round_trip() {
    let mut store = OracleState::initialize(PUBLISHER);
    store.update_price(&PUBLISHER, [9u8; 32], 42, 70, 5).unwrap();
    store.update_price(&PUBLISHER, [8u8; 32], 43, 71, 6).unwrap();
    let records = store.records();
    assert_eq!(records.len(), 2);
    let again = OracleState::from_records(PUBLISHER, records).unwrap();
    assert_eq!(again.get_price(&[9u8; 32]).unwrap().price, 42);
    assert_eq!(again.get_price(&[8u8; 32]).unwrap().confidence, 71);
    assert_eq!(again.authority(), PUBLISHER);
}

#[test]
fn oracle_records_must_be_distinct() {
    assert!(OracleState::from_records(PUBLISHER, vec![record(1, 5), record(1, 6)]).is_none());
    assert!(OracleState::from_records(PUBLISHER, vec![record(1, 5), record(2, 6)]).is_some());
}

fn header(yes_pool: u64, no_pool: u64) -> MarketHeader {
    MarketHeader {
        market_id: 7,
        commodity: [5u8; 32],
        threshold_price: 100,
        creation_time: 1,
        expiry_time: 50,
        authority: PUBLISHER,
        yes_pool,
        no_pool,
        status: MarketStatus::Open,
    }
}

fn position(user: [u8; 32], yes: u64, no: u64) -> UserPosition {
    UserPosition { user, market_id: 7, yes_shares: yes, no_shares: no, claimed: false }
}

#[test]
fn market_restore_round_trip() {
    let mut m = PredictionMarket::create_market(7, [5u8; 32], 100, 50, PUBLISHER, 1).unwrap();
    m.buy_shares(ALICE, 30, true, 2).unwrap();
    m.buy_shares(BOB, 12, false, 3).unwrap();
    let again = PredictionMarket::restore(m.header(), m.positions()).unwrap();
    assert_eq!(again.header(), m.header());
    assert_eq!(again.position(&ALICE), m.position(&ALICE));
    assert_eq!(again.position(&BOB).unwrap().no_shares, 12);
}

#[test]
fn market_restore_checks_consistency() {
    let good = vec![position(ALICE, 30, 0), position(BOB, 0, 12)];
    assert!(PredictionMarket::restore(header(30, 12), good.clone()).is_some());
    assert!(PredictionMarket::restore(header(31, 12), good.clone()).is_none());
    assert!(PredictionMarket::restore(header(30, 11), good.clone()).is_none());
    let twice = vec![position(ALICE, 30, 0), position(ALICE, 0, 12)];
    assert!(PredictionMarket::restore(header(30, 12), twice).is_none());
    let foreign = vec![UserPosition { market_id: 8, ..position(ALICE, 30, 0) }];
    assert!(PredictionMarket::restore(header(30, 0), foreign).is_none());
    let backwards = MarketHeader { expiry_time: 1, ..header(0, 0) };
    assert!(PredictionMarket::restore(backwards, Vec::new()).is_none());
    assert!(PredictionMarket::restore(header(u64::MAX, 1), Vec::new()).is_none());
}
