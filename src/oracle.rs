use vstd::prelude::*;
use crate::error::ErrorCode;
use crate::key::key_eq;

verus! {

broadcast use vstd::array::group_array_axioms;

/// The age, in seconds, from which a price no longer counts as fresh.
pub const MAX_PRICE_AGE: i64 = 3600;

/// The latest observation of one commodity's price.
#[derive(Debug, Clone, Copy, PartialEq, Eq)]
pub struct PriceAccount {
    /// Commodity identifier, compared byte for byte.
    pub commodity: [u8; 32],
    /// Price in the smallest currency unit; never zero once published.
    pub price: u64,
    /// Confidence in percent, `1..=100`.
    pub confidence: u8,
    /// Host time, in seconds, of the latest publish.
    pub timestamp: i64,
    /// Publisher of the latest update.
    pub last_updater: [u8; 32],
    /// Number of publishes so far.
    pub update_count: u64,
}

/// Notification emitted by a successful publish.
#[derive(Debug, Clone, Copy, PartialEq, Eq)]
pub struct PriceUpdated {
    pub commodity: [u8; 32],
    pub price: u64,
    pub confidence: u8,
    pub timestamp: i64,
    pub updater: [u8; 32],
}

impl PriceAccount {
    /// True when the record is older than `MAX_PRICE_AGE` at time `now`.
    pub open spec fn spec_is_stale(&self, now: i64) -> bool {
        now - self.timestamp > MAX_PRICE_AGE
    }

    /// Whether the price is older than one hour at time `now`.
    pub fn is_stale(&self, now: i64) -> (r: bool)
        ensures
            r == self.spec_is_stale(now),
    {
        (now as i128) - (self.timestamp as i128) > MAX_PRICE_AGE as i128
    }
}

/// Whether a published confidence lies in `1..=100`.
pub open spec fn valid_confidence(confidence: u8) -> bool {
    1 <= confidence <= 100
}

/// No two records in `s` share a commodity.
pub open spec fn distinct_commodities(s: Seq<PriceAccount>) -> bool {
    forall|i: int, j: int|
        0 <= i < j < s.len() ==> #[trigger] s[i].commodity@ != #[trigger] s[j].commodity@
}

spec fn feed_holds(s: Seq<PriceAccount>, c: Seq<u8>) -> bool {
    exists|i: int| 0 <= i < s.len() && #[trigger] s[i].commodity@ == c
}

spec fn feed_index(s: Seq<PriceAccount>, c: Seq<u8>) -> int {
    choose|i: int| 0 <= i < s.len() && #[trigger] s[i].commodity@ == c
}

/// The records of `s`, by commodity.
pub closed spec fn feed_map(s: Seq<PriceAccount>) -> Map<Seq<u8>, PriceAccount> {
    Map::new(|c: Seq<u8>| feed_holds(s, c), |c: Seq<u8>| s[feed_index(s, c)])
}

/// The price-feed store: one record per commodity, written only by the
/// registered publisher.
pub struct OracleState {
    authority: [u8; 32],
    prices: Vec<PriceAccount>,
}

impl OracleState {
    /// No two records share a commodity.
    pub closed spec fn wf(&self) -> bool {
        distinct_commodities(self.prices@)
    }

    closed spec fn holds(&self, c: Seq<u8>) -> bool {
        feed_holds(self.prices@, c)
    }

    closed spec fn index_of(&self, c: Seq<u8>) -> int {
        feed_index(self.prices@, c)
    }

    /// The published records, by commodity.
    pub closed spec fn feeds(&self) -> Map<Seq<u8>, PriceAccount> {
        feed_map(self.prices@)
    }

    /// The one principal allowed to publish.
    pub closed spec fn publisher(&self) -> Seq<u8> {
        self.authority@
    }

    /// The record that a successful publish by `caller` leaves for `commodity`.
    pub open spec fn published(
        &self,
        caller: [u8; 32],
        commodity: [u8; 32],
        price: u64,
        confidence: u8,
        now: i64,
    ) -> PriceAccount {
        PriceAccount {
            commodity,
            price,
            confidence,
            timestamp: now,
            last_updater: caller,
            update_count: (self.prior_count(commodity@) + 1) as u64,
        }
    }

    /// How many times `commodity` has been published so far.
    pub open spec fn prior_count(&self, commodity: Seq<u8>) -> int {
        if self.feeds().contains_key(commodity) {
            self.feeds()[commodity].update_count as int
        } else {
            0
        }
    }

    /// The error of a publish, in the order the checks run, or `None` when
    /// the publish goes through.
    pub open spec fn publish_error(
        &self,
        caller: Seq<u8>,
        commodity: Seq<u8>,
        price: u64,
        confidence: u8,
    ) -> Option<ErrorCode> {
        if caller != self.publisher() {
            Some(ErrorCode::Unauthorized)
        } else if price == 0 {
            Some(ErrorCode::InvalidPrice)
        } else if !valid_confidence(confidence) {
            Some(ErrorCode::InvalidConfidence)
        } else if self.prior_count(commodity) >= u64::MAX {
            Some(ErrorCode::ArithmeticOverflow)
        } else {
            None
        }
    }

    proof fn lemma_feed_at(&self, i: int)
        requires
            self.wf(),
            0 <= i < self.prices@.len(),
        ensures
            self.feeds().contains_key(self.prices@[i].commodity@),
            self.feeds()[self.prices@[i].commodity@] == self.prices@[i],
    {
        let c = self.prices@[i].commodity@;
        assert(self.holds(c));
        let j = self.index_of(c);
        assert(self.prices@[j].commodity@ == c);
        if j < i {
            assert(self.prices@[j].commodity@ != self.prices@[i].commodity@);
        } else if i < j {
            assert(self.prices@[i].commodity@ != self.prices@[j].commodity@);
        }
    }

    /// The registered publisher.
    pub fn authority(&self) -> (r: [u8; 32])
        ensures
            r@ == self.publisher(),
    {
        self.authority
    }

    /// Opens an empty store whose only publisher is `authority`.
    pub fn initialize(authority: [u8; 32]) -> (r: OracleState)
        ensures
            r.wf(),
            r.publisher() == authority@,
            r.feeds() == Map::<Seq<u8>, PriceAccount>::empty(),
    {
        let r = OracleState { authority, prices: Vec::new() };
        assert(r.feeds() =~= Map::<Seq<u8>, PriceAccount>::empty());
        r
    }

    fn find(&self, commodity: &[u8; 32]) -> (r: Option<usize>)
        requires
            self.wf(),
        ensures
            match r {
                Some(i) => i < self.prices@.len() && self.prices@[i as int].commodity@
                    == commodity@,
                None => !self.feeds().contains_key(commodity@),
            },
    {
        let mut i: usize = 0;
        while i < self.prices.len()
            invariant
                i <= self.prices@.len(),
                forall|j: int| 0 <= j < i ==> #[trigger] self.prices@[j].commodity@ != commodity@,
            decreases self.prices@.len() - i,
        {
            if key_eq(&self.prices[i].commodity, commodity) {
                return Some(i);
            }
            i = i + 1;
        }
        None
    }

    /// Reads the record of `commodity`. Staleness is left to the caller.
    pub fn get_price(&self, commodity: &[u8; 32]) -> (r: Result<PriceAccount, ErrorCode>)
        requires
            self.wf(),
        ensures
            match r {
                Ok(a) => self.feeds().contains_key(commodity@) && a == self.feeds()[commodity@],
                Err(e) => e == ErrorCode::PriceNotInitialized && !self.feeds().contains_key(
                    commodity@,
                ),
            },
    {
        match self.find(commodity) {
            Some(i) => {
                proof {
                    self.lemma_feed_at(i as int);
                }
                Ok(self.prices[i])
            },
            None => Err(ErrorCode::PriceNotInitialized),
        }
    }

    /// Publishes a price for `commodity`, stamped with the host time `now`.
    ///
    /// Checks, in order: the caller is the registered publisher, the price
    /// is not zero, the confidence lies in `1..=100`, and the update counter
    /// has room. The record is created on the first publish and replaced on
    /// every later one.
    pub fn update_price(
        &mut self,
        caller: &[u8; 32],
        commodity: [u8; 32],
        price: u64,
        confidence: u8,
        now: i64,
    ) -> (r: Result<PriceUpdated, ErrorCode>)
        requires
            old(self).wf(),
        ensures
            final(self).wf(),
            final(self).publisher() == old(self).publisher(),
            match old(self).publish_error(caller@, commodity@, price, confidence) {
                Some(e) => r == Err::<PriceUpdated, ErrorCode>(e) && final(self).feeds() == old(
                    self,
                ).feeds(),
                None => r == Ok::<PriceUpdated, ErrorCode>(
                    PriceUpdated { commodity, price, confidence, timestamp: now, updater: *caller },
                ) && final(self).feeds() == old(self).feeds().insert(
                    commodity@,
                    old(self).published(*caller, commodity, price, confidence, now),
                ),
            },
    {
        if !key_eq(caller, &self.authority) {
            return Err(ErrorCode::Unauthorized);
        }
        if price == 0 {
            return Err(ErrorCode::InvalidPrice);
        }
        if confidence == 0 || confidence > 100 {
            return Err(ErrorCode::InvalidConfidence);
        }
        let ghost before = *self;
        match self.find(&commodity) {
            Some(i) => {
                proof {
                    before.lemma_feed_at(i as int);
                }
                let count = self.prices[i].update_count;
                if count == u64::MAX {
                    return Err(ErrorCode::ArithmeticOverflow);
                }
                let rec = PriceAccount {
                    commodity,
                    price,
                    confidence,
                    timestamp: now,
                    last_updater: *caller,
                    update_count: count + 1,
                };
                self.prices.set(i, rec);
                proof {
                    let target = before.feeds().insert(commodity@, rec);
                    assert forall|c: Seq<u8>|
                        #![trigger self.feeds().dom().contains(c)]
                        #![trigger target.dom().contains(c)]
                        self.feeds().dom().contains(c) == target.dom().contains(c) && (
                        self.feeds().dom().contains(c) ==> self.feeds()[c] == target[c]) by {
                        if before.holds(c) {
                            let j = before.index_of(c);
                            before.lemma_feed_at(j);
                            if j != i {
                                self.lemma_feed_at(j);
                            } else {
                                self.lemma_feed_at(i as int);
                            }
                        }
                        if self.holds(c) {
                            let j = self.index_of(c);
                            self.lemma_feed_at(j);
                            before.lemma_feed_at(j);
                        }
                    }
                    assert(self.feeds() =~= before.feeds().insert(commodity@, rec));
                }
                Ok(PriceUpdated { commodity, price, confidence, timestamp: now, updater: *caller })
            },
            None => {
                let rec = PriceAccount {
                    commodity,
                    price,
                    confidence,
                    timestamp: now,
                    last_updater: *caller,
                    update_count: 1,
                };
                self.prices.push(rec);
                proof {
                    let n = before.prices@.len() as int;
                    assert forall|a: int, b: int|
                        0 <= a < b < self.prices@.len() implies #[trigger] self.prices@[a].commodity@
                        != #[trigger] self.prices@[b].commodity@ by {
                        if b == n {
                            before.lemma_feed_at(a);
                        }
                    }
                    let target = before.feeds().insert(commodity@, rec);
                    assert forall|c: Seq<u8>|
                        #![trigger self.feeds().dom().contains(c)]
                        #![trigger target.dom().contains(c)]
                        self.feeds().dom().contains(c) == target.dom().contains(c) && (
                        self.feeds().dom().contains(c) ==> self.feeds()[c] == target[c]) by {
                        if before.holds(c) {
                            let j = before.index_of(c);
                            before.lemma_feed_at(j);
                            self.lemma_feed_at(j);
                        }
                        if c == commodity@ {
                            self.lemma_feed_at(n);
                        }
                        if self.holds(c) {
                            let j = self.index_of(c);
                            self.lemma_feed_at(j);
                            if j < n {
                                before.lemma_feed_at(j);
                            }
                        }
                    }
                    assert(self.feeds() =~= before.feeds().insert(commodity@, rec));
                }
                Ok(PriceUpdated { commodity, price, confidence, timestamp: now, updater: *caller })
            },
        }
    }
}

impl OracleState {
    /// Rebuilds a store from its persisted records; `None` when two of
    /// them share a commodity.
    pub fn from_records(authority: [u8; 32], records: Vec<PriceAccount>) -> (r: Option<
        OracleState,
    >)
        ensures
            r is Some <==> distinct_commodities(records@),
            r matches Some(s) ==> s.wf() && s.publisher() == authority@ && s.feeds() == feed_map(
                records@,
            ),
    {
        let n = records.len();
        let mut i: usize = 0;
        while i < n
            invariant
                n == records@.len(),
                i <= n,
                forall|a: int, b: int|
                    0 <= a < b < n && a < i ==> #[trigger] records@[a].commodity@
                        != #[trigger] records@[b].commodity@,
            decreases n - i,
        {
            let mut j: usize = i + 1;
            while j < n
                invariant
                    n == records@.len(),
                    i < n,
                    i + 1 <= j <= n,
                    forall|a: int, b: int|
                        0 <= a < b < n && a < i ==> #[trigger] records@[a].commodity@
                            != #[trigger] records@[b].commodity@,
                    forall|b: int| i < b < j ==> records@[i as int].commodity@ != #[trigger] records@[b].commodity@,
                decreases n - j,
            {
                if key_eq(&records[i].commodity, &records[j].commodity) {
                    return None;
                }
                j = j + 1;
            }
            i = i + 1;
        }
        Some(OracleState { authority, prices: records })
    }

    /// The records to persist, one per commodity.
    pub fn records(&self) -> (r: Vec<PriceAccount>)
        requires
            self.wf(),
        ensures
            distinct_commodities(r@),
            feed_map(r@) == self.feeds(),
    {
        let mut out: Vec<PriceAccount> = Vec::new();
        let mut i: usize = 0;
        while i < self.prices.len()
            invariant
                i <= self.prices@.len(),
                out@ == self.prices@.subrange(0, i as int),
            decreases self.prices@.len() - i,
        {
            out.push(self.prices[i]);
            i = i + 1;
            assert(out@ =~= self.prices@.subrange(0, i as int));
        }
        assert(out@ =~= self.prices@);
        out
    }
}

} // verus!
