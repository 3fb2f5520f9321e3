use prediction_market::error::ErrorCode;
use prediction_market::oracle::{OracleState, PriceAccount};

const PUBLISHER: [u8; 32] = [7u8; 32];
const STRANGER: [u8; 32] = [8u8; 32];

fn coffee() -> [u8; 32] {
    let mut c = [0u8; 32];
    c[..6].copy_from_slice(b"COFFEE");
    c
}

fn tea() -> [u8; 32] {
    let mut c = [0u8; 32];
    c[..3].copy_from_slice(b"TEA");
    c
}

#[test]
fn publish_rejects_zero_price() {
    let mut store = OracleState::initialize(PUBLISHER);
    assert_eq!(
        store.update_price(&PUBLISHER, coffee(), 0, 50, 100),
        Err(ErrorCode::InvalidPrice)
    );
    assert_eq!(store.get_price(&coffee()), Err(ErrorCode::PriceNotInitialized));
}

#[test]
fn publish_confidence_bounds() {
    let mut store = OracleState::initialize(PUBLISHER);
    assert_eq!(
        store.update_price(&PUBLISHER, coffee(), 247, 0, 100),
        Err(ErrorCode::InvalidConfidence)
    );
    assert_eq!(
        store.update_price(&PUBLISHER, coffee(), 247, 101, 100),
        Err(ErrorCode::InvalidConfidence)
    );
    let event = store.update_price(&PUBLISHER, coffee(), 247, 100, 100).unwrap();
    assert_eq!(event.price, 247);
    assert_eq!(event.confidence, 100);
    assert_eq!(event.timestamp, 100);
    assert_eq!(event.commodity, coffee());
    assert_eq!(event.updater, PUBLISHER);
}

#[test]
fn publish_rejects_other_callers() {
    let mut store = OracleState::initialize(PUBLISHER);
    assert_eq!(
        store.update_price(&STRANGER, coffee(), 247, 90, 100),
        Err(ErrorCode::Unauthorized)
    );
    assert_eq!(store.get_price(&coffee()), Err(ErrorCode::PriceNotInitialized));
    assert_eq!(store.authority(), PUBLISHER);
}

#[test]
fn publish_creates_then_updates_in_place() {
    let mut store = OracleState::initialize(PUBLISHER);
    store.update_price(&PUBLISHER, coffee(), 247, 90, 100).unwrap();
    store.update_price(&PUBLISHER, tea(), 120, 80, 150).unwrap();
    store.update_price(&PUBLISHER, coffee(), 250, 95, 200).unwrap();
    assert_eq!(
        store.get_price(&coffee()),
        Ok(PriceAccount {
            commodity: coffee(),
            price: 250,
            confidence: 95,
            timestamp: 200,
            last_updater: PUBLISHER,
            update_count: 2,
        })
    );
    let t = store.get_price(&tea()).unwrap();
    assert_eq!((t.price, t.confidence, t.timestamp, t.update_count), (120, 80, 150, 1));
}

#[test]
fn staleness_predicate() {
    let record = PriceAccount {
        commodity: coffee(),
        price: 1,
        confidence: 1,
        timestamp: 1000,
        last_updater: PUBLISHER,
        update_count: 1,
    };
    assert!(!record.is_stale(1000 + 3600));
    assert!(record.is_stale(1000 + 3601));
    assert!(!record.is_stale(0));
    assert!(!record.is_stale(i64::MIN));
    let old = PriceAccount { timestamp: i64::MIN, ..record };
    assert!(old.is_stale(i64::MAX));
}
