use prediction_market::codec::{
    DecodeError, EncodeError, MarketInstruction, OracleInstruction, PriceFeed, PRICE_FEED_LEN,
};

fn maize() -> [u8; 32] {
    let mut commodity = [0u8; 32];
    commodity[..5].copy_from_slice(b"MAIZE");
    commodity
}

#[test]
fn test_price_feed_serialization() {
    let mut commodity = [0u8; 32];
    commodity[..5].copy_from_slice(b"MAIZE");

    let price_feed = PriceFeed {
        commodity,
        price: 15000,
        confidence: 100,
        timestamp: 1696896000,
        decimals: 2,
    };

    let mut buffer = vec![0u8; 128];
    price_feed.serialize(&mut buffer).unwrap();

    let deserialized = PriceFeed::try_from_slice(&buffer).unwrap();
    assert_eq!(price_feed.commodity, deserialized.commodity);
    assert_eq!(price_feed.price, deserialized.price);
    assert_eq!(price_feed.confidence, deserialized.confidence);
    assert_eq!(price_feed.timestamp, deserialized.timestamp);
    assert_eq!(price_feed.decimals, deserialized.decimals);
}

#[test]
fn price_feed_layout_is_little_endian() {
    let feed = PriceFeed {
        commodity: maize(),
        price: 0x0102,
        confidence: 7,
        timestamp: -1,
        decimals: 9,
    };
    let bytes = feed.to_bytes();
    assert_eq!(bytes.len(), PRICE_FEED_LEN);
    assert_eq!(&bytes[..5], b"MAIZE");
    assert_eq!(&bytes[32..40], &[2, 1, 0, 0, 0, 0, 0, 0]);
    assert_eq!(&bytes[40..48], &[7, 0, 0, 0, 0, 0, 0, 0]);
    assert_eq!(&bytes[48..56], &[0xff; 8]);
    assert_eq!(bytes[56], 9);
}

#[test]
fn price_feed_serialize_keeps_tail_and_refuses_short_buffer() {
    let feed = PriceFeed { commodity: maize(), price: 1, confidence: 2, timestamp: 3, decimals: 4 };
    let mut buffer = vec![0xaau8; 60];
    feed.serialize(&mut buffer).unwrap();
    assert_eq!(buffer.len(), 60);
    assert_eq!(&buffer[..57], feed.to_bytes().as_slice());
    assert_eq!(&buffer[57..], &[0xaa, 0xaa, 0xaa]);

    let mut short = vec![0u8; 56];
    assert_eq!(feed.serialize(&mut short), Err(EncodeError::BufferTooSmall));
    assert_eq!(short, vec![0u8; 56]);
}

#[test]
fn price_feed_decode_needs_whole_record() {
    assert_eq!(PriceFeed::try_from_slice(&[0u8; 56]), Err(DecodeError::UnexpectedEnd));
    let feed = PriceFeed {
        commodity: maize(),
        price: 15000,
        confidence: 100,
        timestamp: 1696896000,
        decimals: 2,
    };
    assert_eq!(PriceFeed::try_from_slice(&feed.to_bytes()), Ok(feed));
}

#[test]
fn oracle_instruction_round_trip() {
    let update = OracleInstruction::UpdatePrice {
        commodity: maize(),
        price: 247,
        confidence: 95,
        decimals: 2,
    };
    let bytes = update.to_bytes();
    assert_eq!(bytes.len(), 50);
    assert_eq!(bytes[0], 1);
    assert_eq!(&bytes[33..41], &247u64.to_le_bytes());
    assert_eq!(OracleInstruction::try_from_slice(&bytes), Ok(update));
    assert_eq!(OracleInstruction::try_from_slice(&[0]), Ok(OracleInstruction::Initialize));
    assert_eq!(OracleInstruction::try_from_slice(&[2]), Ok(OracleInstruction::GetPrice));
}

#[test]
fn oracle_instruction_errors() {
    assert_eq!(OracleInstruction::try_from_slice(&[]), Err(DecodeError::UnexpectedEnd));
    assert_eq!(OracleInstruction::try_from_slice(&[3]), Err(DecodeError::InvalidTag));
    assert_eq!(OracleInstruction::try_from_slice(&[1, 0, 0]), Err(DecodeError::UnexpectedEnd));
    assert_eq!(OracleInstruction::try_from_slice(&[0, 0]), Err(DecodeError::TrailingBytes));
}

#[test]
fn market_instruction_round_trip() {
    let all = [
        MarketInstruction::CreateMarket {
            commodity: maize(),
            target_price: 15000,
            expiry: 1696896000,
            decimals: 2,
        },
        MarketInstruction::BuyShares { amount: 1000, is_yes: true },
        MarketInstruction::BuyShares { amount: 5, is_yes: false },
        MarketInstruction::ResolveMarket,
        MarketInstruction::ClaimWinnings,
    ];
    for i in all {
        assert_eq!(MarketInstruction::try_from_slice(&i.to_bytes()), Ok(i));
    }
    let buy = MarketInstruction::BuyShares { amount: 1000, is_yes: true }.to_bytes();
    assert_eq!(buy, vec![1, 0xe8, 0x03, 0, 0, 0, 0, 0, 0, 1]);
}

#[test]
fn market_instruction_errors() {
    assert_eq!(MarketInstruction::try_from_slice(&[]), Err(DecodeError::UnexpectedEnd));
    assert_eq!(MarketInstruction::try_from_slice(&[4]), Err(DecodeError::InvalidTag));
    assert_eq!(
        MarketInstruction::try_from_slice(&[1, 1, 0, 0, 0, 0, 0, 0, 0]),
        Err(DecodeError::UnexpectedEnd)
    );
    assert_eq!(
        MarketInstruction::try_from_slice(&[1, 1, 0, 0, 0, 0, 0, 0, 0, 2]),
        Err(DecodeError::InvalidBool)
    );
    assert_eq!(MarketInstruction::try_from_slice(&[2, 0]), Err(DecodeError::TrailingBytes));
}
