use vstd::prelude::*;
use vstd::bytes::{
    spec_u64_from_le_bytes, spec_u64_to_le_bytes, u64_from_le_bytes, u64_to_le_bytes,
    lemma_auto_spec_u64_to_from_le_bytes,
};
use vstd::slice::slice_subrange;

verus! {

broadcast use vstd::array::group_array_axioms;

/// Why a byte string does not decode.
#[derive(Debug, Clone, Copy, PartialEq, Eq, Structural)]
pub enum DecodeError {
    /// The bytes end before the value does.
    UnexpectedEnd,
    /// The leading tag names no variant.
    InvalidTag,
    /// A boolean byte is neither 0 nor 1.
    InvalidBool,
    /// Bytes are left over after the value.
    TrailingBytes,
}

/// Why a value does not fit in a buffer.
#[derive(Debug, Clone, Copy, PartialEq, Eq, Structural)]
pub enum EncodeError {
    /// The buffer is shorter than the encoding.
    BufferTooSmall,
}

/// The little-endian bytes of a signed 64-bit integer (two's complement).
pub open spec fn spec_i64_to_le_bytes(x: i64) -> Seq<u8> {
    spec_u64_to_le_bytes(x as u64)
}

/// The signed 64-bit integer whose little-endian bytes are `s`.
pub open spec fn spec_i64_from_le_bytes(s: Seq<u8>) -> i64 {
    spec_u64_from_le_bytes(s) as i64
}

/// The one-byte encoding of a boolean.
pub open spec fn spec_bool_byte(b: bool) -> u8 {
    if b {
        1
    } else {
        0
    }
}

pub proof fn lemma_i64_le_bytes(x: i64)
    ensures
        spec_i64_to_le_bytes(x).len() == 8,
        spec_i64_from_le_bytes(spec_i64_to_le_bytes(x)) == x,
{
    lemma_auto_spec_u64_to_from_le_bytes();
    let u = x as u64;
    assert(spec_u64_from_le_bytes(spec_u64_to_le_bytes(u)) == u);
    assert((u as i64) == x) by (bit_vector)
        requires u == x as u64;
}

fn put_bytes(out: &mut Vec<u8>, src: &[u8])
    ensures
        final(out)@ == old(out)@ + src@,
{
    let mut i: usize = 0;
    while i < src.len()
        invariant
            i <= src@.len(),
            out@ == old(out)@ + src@.subrange(0, i as int),
        decreases src@.len() - i,
    {
        out.push(src[i]);
        i = i + 1;
        assert(src@.subrange(0, i as int) =~= src@.subrange(0, i - 1) + seq![src@[i - 1]]);
        assert(out@ =~= old(out)@ + src@.subrange(0, i as int));
    }
    assert(src@.subrange(0, src@.len() as int) =~= src@);
}

fn put_u64(out: &mut Vec<u8>, x: u64)
    ensures
        final(out)@ == old(out)@ + spec_u64_to_le_bytes(x),
{
    let b = u64_to_le_bytes(x);
    put_bytes(out, b.as_slice());
}

fn put_i64(out: &mut Vec<u8>, x: i64)
    ensures
        final(out)@ == old(out)@ + spec_i64_to_le_bytes(x),
{
    #[verifier::truncate]
    let u = x as u64;
    put_u64(out, u);
}

fn get_u64(data: &[u8], at: usize) -> (r: u64)
    requires
        at + 8 <= data@.len(),
    ensures
        r == spec_u64_from_le_bytes(data@.subrange(at as int, at + 8)),
{
    let n = data.len();
    assert(n == data@.len());
    u64_from_le_bytes(slice_subrange(data, at, at + 8))
}

fn get_i64(data: &[u8], at: usize) -> (r: i64)
    requires
        at + 8 <= data@.len(),
    ensures
        r == spec_i64_from_le_bytes(data@.subrange(at as int, at + 8)),
{
    let u = get_u64(data, at);
    #[verifier::truncate]
    let r = u as i64;
    r
}

fn get_key(data: &[u8], at: usize) -> (r: [u8; 32])
    requires
        at + 32 <= data@.len(),
    ensures
        r@ == data@.subrange(at as int, at + 32),
{
    let n = data.len();
    let mut k = [0u8; 32];
    let mut i: usize = 0;
    while i < 32
        invariant
            i <= 32,
            n == data@.len(),
            at + 32 <= data@.len(),
            k@.len() == 32,
            forall|j: int| 0 <= j < i ==> k@[j] == data@[at + j],
        decreases 32 - i,
    {
        k[i] = data[at + i];
        i = i + 1;
    }
    assert(k@ =~= data@.subrange(at as int, at + 32));
    k
}

/// The price record of a feed account, in the account's byte layout.
#[derive(Debug, Clone, Copy, PartialEq, Eq)]
pub struct PriceFeed {
    /// Commodity name, padded with zero bytes.
    pub commodity: [u8; 32],
    /// Price in the smallest currency unit.
    pub price: u64,
    pub confidence: u64,
    /// Host time of the update, in seconds.
    pub timestamp: i64,
    /// Number of decimals of `price`.
    pub decimals: u8,
}

/// The length of an encoded `PriceFeed`.
pub const PRICE_FEED_LEN: usize = 57;

/// The layout of a price record: the commodity, then price, confidence and
/// timestamp as little-endian 64-bit integers, then the decimals byte.
pub open spec fn price_feed_bytes(f: PriceFeed) -> Seq<u8> {
    f.commodity@ + spec_u64_to_le_bytes(f.price) + spec_u64_to_le_bytes(f.confidence)
        + spec_i64_to_le_bytes(f.timestamp) + seq![f.decimals]
}

/// Whether the leading bytes of `data` hold the record `f`.
pub open spec fn price_feed_decodes(data: Seq<u8>, f: PriceFeed) -> bool {
    &&& data.len() >= PRICE_FEED_LEN
    &&& f.commodity@ == data.subrange(0, 32)
    &&& f.price == spec_u64_from_le_bytes(data.subrange(32, 40))
    &&& f.confidence == spec_u64_from_le_bytes(data.subrange(40, 48))
    &&& f.timestamp == spec_i64_from_le_bytes(data.subrange(48, 56))
    &&& f.decimals == data[56]
}

impl PriceFeed {
    /// The record's bytes.
    pub fn to_bytes(&self) -> (r: Vec<u8>)
        ensures
            r@ == price_feed_bytes(*self),
    {
        let mut out: Vec<u8> = Vec::new();
        put_bytes(&mut out, self.commodity.as_slice());
        put_u64(&mut out, self.price);
        put_u64(&mut out, self.confidence);
        put_i64(&mut out, self.timestamp);
        out.push(self.decimals);
        proof {
            assert(out@ =~= price_feed_bytes(*self));
        }
        out
    }

    /// Writes the record over the front of `buf`, which keeps its length;
    /// the bytes after the record stay as they were.
    pub fn serialize(&self, buf: &mut Vec<u8>) -> (r: Result<(), EncodeError>)
        ensures
            old(buf)@.len() < PRICE_FEED_LEN ==> r == Err::<(), EncodeError>(
                EncodeError::BufferTooSmall,
            ) && final(buf)@ == old(buf)@,
            old(buf)@.len() >= PRICE_FEED_LEN ==> r is Ok && final(buf)@ == price_feed_bytes(
                *self,
            ) + old(buf)@.subrange(PRICE_FEED_LEN as int, old(buf)@.len() as int),
    {
        if buf.len() < PRICE_FEED_LEN {
            return Err(EncodeError::BufferTooSmall);
        }
        let bytes = self.to_bytes();
        proof {
            lemma_auto_spec_u64_to_from_le_bytes();
            lemma_i64_le_bytes(self.timestamp);
        }
        assert(bytes@.len() == PRICE_FEED_LEN);
        let mut i: usize = 0;
        while i < PRICE_FEED_LEN
            invariant
                i <= PRICE_FEED_LEN,
                bytes@.len() == PRICE_FEED_LEN,
                old(buf)@.len() >= PRICE_FEED_LEN,
                buf@.len() == old(buf)@.len(),
                forall|j: int| 0 <= j < i ==> buf@[j] == bytes@[j],
                forall|j: int| i <= j < buf@.len() ==> buf@[j] == old(buf)@[j],
            decreases PRICE_FEED_LEN - i,
        {
            buf.set(i, bytes[i]);
            i = i + 1;
        }
        assert(buf@ =~= price_feed_bytes(*self) + old(buf)@.subrange(
            PRICE_FEED_LEN as int,
            old(buf)@.len() as int,
        ));
        Ok(())
    }

    /// Reads the record from the front of an account's data; whatever
    /// follows it is the account's unused space.
    pub fn try_from_slice(data: &[u8]) -> (r: Result<PriceFeed, DecodeError>)
        ensures
            data@.len() < PRICE_FEED_LEN ==> r == Err::<PriceFeed, DecodeError>(
                DecodeError::UnexpectedEnd,
            ),
            data@.len() >= PRICE_FEED_LEN ==> r is Ok,
            r matches Ok(f) ==> price_feed_decodes(data@, f),
    {
        if data.len() < PRICE_FEED_LEN {
            return Err(DecodeError::UnexpectedEnd);
        }
        Ok(
            PriceFeed {
                commodity: get_key(data, 0),
                price: get_u64(data, 32),
                confidence: get_u64(data, 40),
                timestamp: get_i64(data, 48),
                decimals: data[56],
            },
        )
    }
}

/// Decoding gives back the record that was encoded, whatever follows it.
pub proof fn lemma_price_feed_round_trip(f: PriceFeed, rest: Seq<u8>, g: PriceFeed)
    requires
        price_feed_decodes(price_feed_bytes(f) + rest, g),
    ensures
        g == f,
{
    lemma_auto_spec_u64_to_from_le_bytes();
    lemma_i64_le_bytes(f.timestamp);
    let d = price_feed_bytes(f) + rest;
    assert(d.subrange(0, 32) =~= f.commodity@);
    assert(d.subrange(32, 40) =~= spec_u64_to_le_bytes(f.price));
    assert(d.subrange(40, 48) =~= spec_u64_to_le_bytes(f.confidence));
    assert(d.subrange(48, 56) =~= spec_i64_to_le_bytes(f.timestamp));
    assert(g.commodity@ == f.commodity@);
    assert(g.commodity =~= f.commodity);
}

/// An instruction to the oracle program.
#[derive(Debug, Clone, Copy, PartialEq, Eq)]
pub enum OracleInstruction {
    /// Registers the signer as the store's publisher.
    Initialize,
    /// Publishes a price for a commodity.
    UpdatePrice { commodity: [u8; 32], price: u64, confidence: u64, decimals: u8 },
    /// Reads a price record.
    GetPrice,
}

/// The length of an encoded `UpdatePrice`, tag included.
pub const UPDATE_PRICE_LEN: usize = 50;

/// An instruction's bytes: a tag byte (the variant's position), then the
/// fields in order.
pub open spec fn oracle_instruction_bytes(i: OracleInstruction) -> Seq<u8> {
    match i {
        OracleInstruction::Initialize => seq![0u8],
        OracleInstruction::UpdatePrice { commodity, price, confidence, decimals } => seq![1u8]
            + commodity@ + spec_u64_to_le_bytes(price) + spec_u64_to_le_bytes(confidence) + seq![
            decimals],
        OracleInstruction::GetPrice => seq![2u8],
    }
}

/// Why `data` is not an oracle instruction, or `None` when it is one.
pub open spec fn oracle_instruction_error(data: Seq<u8>) -> Option<DecodeError> {
    if data.len() == 0 {
        Some(DecodeError::UnexpectedEnd)
    } else if data[0] > 2 {
        Some(DecodeError::InvalidTag)
    } else {
        let needed = if data[0] == 1 {
            UPDATE_PRICE_LEN as int
        } else {
            1
        };
        if data.len() < needed {
            Some(DecodeError::UnexpectedEnd)
        } else if data.len() > needed {
            Some(DecodeError::TrailingBytes)
        } else {
            None
        }
    }
}

impl OracleInstruction {
    /// The instruction's bytes.
    pub fn to_bytes(&self) -> (r: Vec<u8>)
        ensures
            r@ == oracle_instruction_bytes(*self),
    {
        let mut out: Vec<u8> = Vec::new();
        match self {
            OracleInstruction::Initialize => {
                out.push(0u8);
            },
            OracleInstruction::UpdatePrice { commodity, price, confidence, decimals } => {
                out.push(1u8);
                put_bytes(&mut out, commodity.as_slice());
                put_u64(&mut out, *price);
                put_u64(&mut out, *confidence);
                out.push(*decimals);
            },
            OracleInstruction::GetPrice => {
                out.push(2u8);
            },
        }
        assert(out@ =~= oracle_instruction_bytes(*self));
        out
    }

    /// Decodes an instruction that fills `data` exactly.
    pub fn try_from_slice(data: &[u8]) -> (r: Result<OracleInstruction, DecodeError>)
        ensures
            match oracle_instruction_error(data@) {
                Some(e) => r == Err::<OracleInstruction, DecodeError>(e),
                None => r matches Ok(i) && oracle_instruction_bytes(i) == data@,
            },
    {
        let n = data.len();
        if n == 0 {
            return Err(DecodeError::UnexpectedEnd);
        }
        let tag = data[0];
        if tag > 2 {
            return Err(DecodeError::InvalidTag);
        }
        let needed: usize = if tag == 1 {
            UPDATE_PRICE_LEN
        } else {
            1
        };
        if n < needed {
            return Err(DecodeError::UnexpectedEnd);
        }
        if n > needed {
            return Err(DecodeError::TrailingBytes);
        }
        if tag == 0 {
            assert(data@ =~= seq![0u8]);
            Ok(OracleInstruction::Initialize)
        } else if tag == 2 {
            assert(data@ =~= seq![2u8]);
            Ok(OracleInstruction::GetPrice)
        } else {
            let commodity = get_key(data, 1);
            let price = get_u64(data, 33);
            let confidence = get_u64(data, 41);
            let decimals = data[49];
            proof {
                lemma_auto_spec_u64_to_from_le_bytes();
                assert(data@ =~= seq![1u8] + data@.subrange(1, 33) + data@.subrange(33, 41)
                    + data@.subrange(41, 49) + seq![data@[49]]);
            }
            Ok(OracleInstruction::UpdatePrice { commodity, price, confidence, decimals })
        }
    }
}

/// Every oracle instruction decodes, and back to itself: no two
/// instructions share an encoding.
pub proof fn lemma_oracle_instruction_round_trip(i: OracleInstruction, j: OracleInstruction)
    requires
        oracle_instruction_bytes(j) == oracle_instruction_bytes(i),
    ensures
        oracle_instruction_error(oracle_instruction_bytes(i)) is None,
        j == i,
{
    lemma_auto_spec_u64_to_from_le_bytes();
    let b = oracle_instruction_bytes(i);
    assert(b[0] == oracle_instruction_bytes(j)[0]);
    if let OracleInstruction::UpdatePrice { commodity, price, confidence, decimals } = i {
        if let OracleInstruction::UpdatePrice {
            commodity: commodity_j,
            price: price_j,
            confidence: confidence_j,
            decimals: decimals_j,
        } = j {
            assert(b.subrange(1, 33) =~= commodity@);
            assert(oracle_instruction_bytes(j).subrange(1, 33) =~= commodity_j@);
            assert(b.subrange(33, 41) =~= spec_u64_to_le_bytes(price));
            assert(oracle_instruction_bytes(j).subrange(33, 41) =~= spec_u64_to_le_bytes(price_j));
            assert(b.subrange(41, 49) =~= spec_u64_to_le_bytes(confidence));
            assert(oracle_instruction_bytes(j).subrange(41, 49) =~= spec_u64_to_le_bytes(confidence_j));
            assert(b[49] == decimals);
            assert(oracle_instruction_bytes(j)[49] == decimals_j);
            assert(commodity =~= commodity_j);
        }
    }
}

/// An instruction to the market program.
#[derive(Debug, Clone, Copy, PartialEq, Eq)]
pub enum MarketInstruction {
    /// Opens a market on `commodity` reaching `target_price` by `expiry`.
    CreateMarket { commodity: [u8; 32], target_price: u64, expiry: i64, decimals: u8 },
    /// Stakes `amount` on YES (`is_yes`) or NO.
    BuyShares { amount: u64, is_yes: bool },
    /// Resolves the market from the oracle.
    ResolveMarket,
    /// Pays out the signer's winning position.
    ClaimWinnings,
}

/// The length of an encoded `CreateMarket`, tag included.
pub const CREATE_MARKET_LEN: usize = 50;

/// The length of an encoded `BuyShares`, tag included.
pub const BUY_SHARES_LEN: usize = 10;

/// An instruction's bytes: a tag byte (the variant's position), then the
/// fields in order, a boolean as one byte 0 or 1.
pub open spec fn market_instruction_bytes(i: MarketInstruction) -> Seq<u8> {
    match i {
        MarketInstruction::CreateMarket { commodity, target_price, expiry, decimals } => seq![0u8]
            + commodity@ + spec_u64_to_le_bytes(target_price) + spec_i64_to_le_bytes(expiry)
            + seq![decimals],
        MarketInstruction::BuyShares { amount, is_yes } => seq![1u8] + spec_u64_to_le_bytes(
            amount,
        ) + seq![spec_bool_byte(is_yes)],
        MarketInstruction::ResolveMarket => seq![2u8],
        MarketInstruction::ClaimWinnings => seq![3u8],
    }
}

/// Why `data` is not a market instruction, or `None` when it is one.
pub open spec fn market_instruction_error(data: Seq<u8>) -> Option<DecodeError> {
    if data.len() == 0 {
        Some(DecodeError::UnexpectedEnd)
    } else if data[0] > 3 {
        Some(DecodeError::InvalidTag)
    } else {
        let needed = if data[0] == 0 {
            CREATE_MARKET_LEN as int
        } else if data[0] == 1 {
            BUY_SHARES_LEN as int
        } else {
            1
        };
        if data.len() < needed {
            Some(DecodeError::UnexpectedEnd)
        } else if data[0] == 1 && data[9] > 1 {
            Some(DecodeError::InvalidBool)
        } else if data.len() > needed {
            Some(DecodeError::TrailingBytes)
        } else {
            None
        }
    }
}

impl MarketInstruction {
    /// The instruction's bytes.
    pub fn to_bytes(&self) -> (r: Vec<u8>)
        ensures
            r@ == market_instruction_bytes(*self),
    {
        let mut out: Vec<u8> = Vec::new();
        match self {
            MarketInstruction::CreateMarket { commodity, target_price, expiry, decimals } => {
                out.push(0u8);
                put_bytes(&mut out, commodity.as_slice());
                put_u64(&mut out, *target_price);
                put_i64(&mut out, *expiry);
                out.push(*decimals);
            },
            MarketInstruction::BuyShares { amount, is_yes } => {
                out.push(1u8);
                put_u64(&mut out, *amount);
                out.push(if *is_yes { 1u8 } else { 0u8 });
            },
            MarketInstruction::ResolveMarket => {
                out.push(2u8);
            },
            MarketInstruction::ClaimWinnings => {
                out.push(3u8);
            },
        }
        assert(out@ =~= market_instruction_bytes(*self));
        out
    }

    /// Decodes an instruction that fills `data` exactly.
    pub fn try_from_slice(data: &[u8]) -> (r: Result<MarketInstruction, DecodeError>)
        ensures
            match market_instruction_error(data@) {
                Some(e) => r == Err::<MarketInstruction, DecodeError>(e),
                None => r matches Ok(i) && market_instruction_bytes(i) == data@,
            },
    {
        let n = data.len();
        if n == 0 {
            return Err(DecodeError::UnexpectedEnd);
        }
        let tag = data[0];
        if tag > 3 {
            return Err(DecodeError::InvalidTag);
        }
        let needed: usize = if tag == 0 {
            CREATE_MARKET_LEN
        } else if tag == 1 {
            BUY_SHARES_LEN
        } else {
            1
        };
        if n < needed {
            return Err(DecodeError::UnexpectedEnd);
        }
        if tag == 1 && data[9] > 1 {
            return Err(DecodeError::InvalidBool);
        }
        if n > needed {
            return Err(DecodeError::TrailingBytes);
        }
        proof {
            lemma_auto_spec_u64_to_from_le_bytes();
        }
        if tag == 0 {
            let commodity = get_key(data, 1);
            let target_price = get_u64(data, 33);
            let expiry = get_i64(data, 41);
            let decimals = data[49];
            proof {
                lemma_auto_spec_u64_to_from_le_bytes();
                assert(data@ =~= seq![0u8] + data@.subrange(1, 33) + data@.subrange(33, 41)
                    + data@.subrange(41, 49) + seq![data@[49]]);
                let u = spec_u64_from_le_bytes(data@.subrange(41, 49));
                assert(((u as i64) as u64) == u) by (bit_vector);
            }
            Ok(MarketInstruction::CreateMarket { commodity, target_price, expiry, decimals })
        } else if tag == 1 {
            let amount = get_u64(data, 1);
            let is_yes = data[9] == 1;
            proof {
                assert(data@ =~= seq![1u8] + data@.subrange(1, 9) + seq![data@[9]]);
            }
            Ok(MarketInstruction::BuyShares { amount, is_yes })
        } else if tag == 2 {
            assert(data@ =~= seq![2u8]);
            Ok(MarketInstruction::ResolveMarket)
        } else {
            assert(data@ =~= seq![3u8]);
            Ok(MarketInstruction::ClaimWinnings)
        }
    }
}

/// Every market instruction decodes, and back to itself: no two
/// instructions share an encoding.
pub proof fn lemma_market_instruction_round_trip(i: MarketInstruction, j: MarketInstruction)
    requires
        market_instruction_bytes(j) == market_instruction_bytes(i),
    ensures
        market_instruction_error(market_instruction_bytes(i)) is None,
        j == i,
{
    lemma_auto_spec_u64_to_from_le_bytes();
    let b = market_instruction_bytes(i);
    let c = market_instruction_bytes(j);
    assert(b[0] == c[0]);
    match i {
        MarketInstruction::CreateMarket { commodity, target_price, expiry, decimals } => {
            lemma_i64_le_bytes(expiry);
            if let MarketInstruction::CreateMarket {
                commodity: commodity_j,
                target_price: price_j,
                expiry: expiry_j,
                decimals: decimals_j,
            } = j {
                lemma_i64_le_bytes(expiry_j);
                assert(b.subrange(1, 33) =~= commodity@);
                assert(c.subrange(1, 33) =~= commodity_j@);
                assert(b.subrange(33, 41) =~= spec_u64_to_le_bytes(target_price));
                assert(c.subrange(33, 41) =~= spec_u64_to_le_bytes(price_j));
                assert(b.subrange(41, 49) =~= spec_i64_to_le_bytes(expiry));
                assert(c.subrange(41, 49) =~= spec_i64_to_le_bytes(expiry_j));
                assert(b[49] == decimals);
                assert(c[49] == decimals_j);
                assert(commodity =~= commodity_j);
            }
        },
        MarketInstruction::BuyShares { amount, is_yes } => {
            if let MarketInstruction::BuyShares { amount: amount_j, is_yes: is_yes_j } = j {
                assert(b.subrange(1, 9) =~= spec_u64_to_le_bytes(amount));
                assert(c.subrange(1, 9) =~= spec_u64_to_le_bytes(amount_j));
                assert(b[9] == spec_bool_byte(is_yes));
                assert(c[9] == spec_bool_byte(is_yes_j));
            }
        },
        _ => {},
    }
}

} // verus!
