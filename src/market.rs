use vstd::prelude::*;
use crate::error::ErrorCode;
use crate::key::key_eq;
use crate::oracle::{OracleState, PriceAccount, MAX_PRICE_AGE};
use crate::settlement::{compute_payout, payout_amount, lemma_payout_bounds};

verus! {

broadcast use vstd::array::group_array_axioms;

/// The frozen result of a market: what the oracle said and when.
#[derive(Debug, Clone, Copy, PartialEq, Eq, Structural)]
pub struct Resolution {
    /// `true` when the oracle price reached the threshold (YES won).
    pub outcome: bool,
    /// The oracle price the market was resolved on.
    pub oracle_price: u64,
    /// Host time of the resolution.
    pub resolution_time: i64,
}

/// A market is open for stakes until it is resolved, once and for all.
#[derive(Debug, Clone, Copy, PartialEq, Eq, Structural)]
pub enum MarketStatus {
    Open,
    Resolved(Resolution),
}

/// One participant's stake in one market.
#[derive(Debug, Clone, Copy, PartialEq, Eq)]
pub struct UserPosition {
    pub user: [u8; 32],
    pub market_id: u64,
    /// Shares on YES, issued one for one with the amount staked.
    pub yes_shares: u64,
    /// Shares on NO, issued one for one with the amount staked.
    pub no_shares: u64,
    /// Set by the one successful claim, and never cleared.
    pub claimed: bool,
}

/// Notification of a stake.
#[derive(Debug, Clone, Copy, PartialEq, Eq)]
pub struct SharesPurchased {
    pub market_id: u64,
    pub user: [u8; 32],
    pub is_yes: bool,
    pub amount: u64,
}

/// Notification of a resolution.
#[derive(Debug, Clone, Copy, PartialEq, Eq, Structural)]
pub struct MarketResolved {
    pub market_id: u64,
    pub outcome: bool,
    pub oracle_price: u64,
    pub threshold_price: u64,
    pub timestamp: i64,
}

/// Notification of a payout; the host moves `payout` to the user.
#[derive(Debug, Clone, Copy, PartialEq, Eq)]
pub struct WinningsClaimed {
    pub market_id: u64,
    pub user: [u8; 32],
    pub payout: u64,
}

/// The fixed-size part of a market, as persisted beside its positions.
#[derive(Debug, Clone, Copy, PartialEq, Eq)]
pub struct MarketHeader {
    pub market_id: u64,
    pub commodity: [u8; 32],
    pub threshold_price: u64,
    pub creation_time: i64,
    pub expiry_time: i64,
    pub authority: [u8; 32],
    pub yes_pool: u64,
    pub no_pool: u64,
    pub status: MarketStatus,
}

impl MarketHeader {
    /// The market made of this header and the positions `positions`.
    pub open spec fn with_positions(self, positions: Map<Seq<u8>, UserPosition>) -> MarketView {
        MarketView {
            market_id: self.market_id,
            commodity: self.commodity@,
            threshold_price: self.threshold_price,
            creation_time: self.creation_time,
            expiry_time: self.expiry_time,
            authority: self.authority@,
            yes_pool: self.yes_pool,
            no_pool: self.no_pool,
            status: self.status,
            positions,
        }
    }

    /// Whether this header and the positions `s` make a consistent market:
    /// one position per user, all in this market, pools equal to the
    /// shares issued, the combined pool within `u64`, and an expiry after
    /// the creation time.
    pub open spec fn consistent_with(self, s: Seq<UserPosition>) -> bool {
        &&& distinct_users(s)
        &&& all_in_market(s, self.market_id)
        &&& total_shares(s, true) == self.yes_pool
        &&& total_shares(s, false) == self.no_pool
        &&& self.yes_pool + self.no_pool <= u64::MAX
        &&& self.creation_time < self.expiry_time
    }
}

/// The shares that `p` holds on one side.
pub open spec fn side_shares(p: UserPosition, is_yes: bool) -> int {
    if is_yes {
        p.yes_shares as int
    } else {
        p.no_shares as int
    }
}

/// The abstract state of a market.
pub struct MarketView {
    pub market_id: u64,
    pub commodity: Seq<u8>,
    pub threshold_price: u64,
    pub creation_time: i64,
    pub expiry_time: i64,
    pub authority: Seq<u8>,
    pub yes_pool: u64,
    pub no_pool: u64,
    pub status: MarketStatus,
    /// The position of each participant that has staked, by address.
    pub positions: Map<Seq<u8>, UserPosition>,
}

impl MarketView {
    /// Each position's shares are covered by its side's pool, and the
    /// combined pool fits in `u64`.
    pub open spec fn pools_cover_positions(self) -> bool {
        &&& self.yes_pool + self.no_pool <= u64::MAX
        &&& forall|u: Seq<u8>| #[trigger]
            self.positions.contains_key(u) ==> self.positions[u].yes_shares <= self.yes_pool
                && self.positions[u].no_shares <= self.no_pool
    }

    pub open spec fn is_resolved(self) -> bool {
        self.status is Resolved
    }

    pub open spec fn total_pool(self) -> int {
        self.yes_pool + self.no_pool
    }

    /// The pool of the side that won; meaningful once resolved.
    pub open spec fn winning_pool(self) -> u64 {
        if self.status->Resolved_0.outcome {
            self.yes_pool
        } else {
            self.no_pool
        }
    }

    /// The position of `user`, or an empty one where the user never staked.
    pub open spec fn position_of(self, user: [u8; 32]) -> UserPosition {
        if self.positions.contains_key(user@) {
            self.positions[user@]
        } else {
            UserPosition {
                user,
                market_id: self.market_id,
                yes_shares: 0,
                no_shares: 0,
                claimed: false,
            }
        }
    }

    /// The shares of `user` on the side that won; meaningful once resolved.
    pub open spec fn winning_shares(self, user: [u8; 32]) -> u64 {
        if self.status->Resolved_0.outcome {
            self.position_of(user).yes_shares
        } else {
            self.position_of(user).no_shares
        }
    }

    /// The error of a stake, in the order the checks run.
    pub open spec fn buy_error(self, amount: u64, now: i64) -> Option<ErrorCode> {
        if self.is_resolved() {
            Some(ErrorCode::MarketResolved)
        } else if now >= self.expiry_time {
            Some(ErrorCode::MarketExpired)
        } else if amount == 0 {
            Some(ErrorCode::InvalidAmount)
        } else if self.total_pool() + amount > u64::MAX {
            Some(ErrorCode::ArithmeticOverflow)
        } else {
            None
        }
    }

    /// The market after `user` stakes `amount` on one side.
    pub open spec fn staked(self, user: [u8; 32], amount: u64, is_yes: bool) -> MarketView {
        let p = self.position_of(user);
        MarketView {
            yes_pool: if is_yes { (self.yes_pool + amount) as u64 } else { self.yes_pool },
            no_pool: if is_yes { self.no_pool } else { (self.no_pool + amount) as u64 },
            positions: self.positions.insert(
                user@,
                UserPosition {
                    yes_shares: if is_yes { (p.yes_shares + amount) as u64 } else { p.yes_shares },
                    no_shares: if is_yes { p.no_shares } else { (p.no_shares + amount) as u64 },
                    ..p
                },
            ),
            ..self
        }
    }

    /// The error of a resolution against the price feeds `feeds`.
    pub open spec fn resolve_error(self, feeds: Map<Seq<u8>, PriceAccount>, now: i64) -> Option<
        ErrorCode,
    > {
        if now < self.expiry_time {
            Some(ErrorCode::MarketNotExpired)
        } else if self.is_resolved() {
            Some(ErrorCode::AlreadyResolved)
        } else if !feeds.contains_key(self.commodity) {
            Some(ErrorCode::PriceNotInitialized)
        } else if now - feeds[self.commodity].timestamp >= MAX_PRICE_AGE {
            Some(ErrorCode::StaleOraclePrice)
        } else {
            None
        }
    }

    /// The resolution taken from `price` at time `now`: YES when the price
    /// reaches the threshold, equality included.
    pub open spec fn resolution_at(self, price: u64, now: i64) -> Resolution {
        Resolution {
            outcome: price >= self.threshold_price,
            oracle_price: price,
            resolution_time: now,
        }
    }

    /// The market frozen with resolution `res`.
    pub open spec fn resolved_with(self, res: Resolution) -> MarketView {
        MarketView { status: MarketStatus::Resolved(res), ..self }
    }

    /// The market after the position of `user` is paid out.
    pub open spec fn claimed_by(self, user: [u8; 32]) -> MarketView {
        MarketView {
            positions: self.positions.insert(
                user@,
                UserPosition { claimed: true, ..self.position_of(user) },
            ),
            ..self
        }
    }

    /// The error of a claim by `user`, in the order the checks run.
    pub open spec fn claim_error(self, user: [u8; 32]) -> Option<ErrorCode> {
        if !self.is_resolved() {
            Some(ErrorCode::MarketNotResolved)
        } else if self.winning_shares(user) == 0 {
            Some(ErrorCode::NoWinningShares)
        } else if self.position_of(user).claimed {
            Some(ErrorCode::AlreadyClaimed)
        } else if self.winning_pool() == 0 {
            Some(ErrorCode::InvalidPool)
        } else if self.payout_of(user) == 0 {
            Some(ErrorCode::InvalidPayout)
        } else {
            None
        }
    }

    /// What `user` is owed once the market is resolved.
    pub open spec fn payout_of(self, user: [u8; 32]) -> int {
        payout_amount(
            self.winning_shares(user) as int,
            self.winning_pool() as int,
            self.total_pool(),
        )
    }
}

/// The shares that the positions in `s` hold on one side, together.
pub open spec fn total_shares(s: Seq<UserPosition>, is_yes: bool) -> int
    decreases s.len(),
{
    if s.len() == 0 {
        0
    } else {
        total_shares(s.drop_last(), is_yes) + side_shares(s.last(), is_yes)
    }
}

proof fn lemma_total_push(s: Seq<UserPosition>, p: UserPosition, is_yes: bool)
    ensures
        total_shares(s.push(p), is_yes) == total_shares(s, is_yes) + side_shares(p, is_yes),
{
    assert(s.push(p).drop_last() =~= s);
}

proof fn lemma_total_update(s: Seq<UserPosition>, i: int, p: UserPosition, is_yes: bool)
    requires
        0 <= i < s.len(),
    ensures
        total_shares(s.update(i, p), is_yes) == total_shares(s, is_yes) - side_shares(s[i], is_yes)
            + side_shares(p, is_yes),
    decreases s.len(),
{
    if i < s.len() - 1 {
        lemma_total_update(s.drop_last(), i, p, is_yes);
        assert(s.update(i, p).drop_last() =~= s.drop_last().update(i, p));
    } else {
        assert(s.update(i, p).drop_last() =~= s.drop_last());
    }
}

proof fn lemma_total_covers(s: Seq<UserPosition>, i: int, is_yes: bool)
    requires
        0 <= i < s.len(),
    ensures
        side_shares(s[i], is_yes) <= total_shares(s, is_yes),
    decreases s.len(),
{
    if i < s.len() - 1 {
        lemma_total_covers(s.drop_last(), i, is_yes);
        lemma_total_nonneg(s.drop_last(), is_yes);
    } else {
        lemma_total_nonneg(s.drop_last(), is_yes);
    }
}

proof fn lemma_total_prefix(s: Seq<UserPosition>, i: int, j: int, is_yes: bool)
    requires
        0 <= i <= j <= s.len(),
    ensures
        total_shares(s.subrange(0, i), is_yes) <= total_shares(s.subrange(0, j), is_yes),
    decreases j - i,
{
    if i < j {
        lemma_total_prefix(s, i, j - 1, is_yes);
        assert(s.subrange(0, j).drop_last() =~= s.subrange(0, j - 1));
    }
}

proof fn lemma_total_nonneg(s: Seq<UserPosition>, is_yes: bool)
    ensures
        total_shares(s, is_yes) >= 0,
    decreases s.len(),
{
    if s.len() > 0 {
        lemma_total_nonneg(s.drop_last(), is_yes);
    }
}

/// No two positions in `s` belong to the same user.
pub open spec fn distinct_users(s: Seq<UserPosition>) -> bool {
    forall|i: int, j: int| 0 <= i < j < s.len() ==> #[trigger] s[i].user@ != #[trigger] s[j].user@
}

/// Every position in `s` belongs to market `market_id`.
pub open spec fn all_in_market(s: Seq<UserPosition>, market_id: u64) -> bool {
    forall|i: int| 0 <= i < s.len() ==> #[trigger] s[i].market_id == market_id
}

spec fn position_holds(s: Seq<UserPosition>, u: Seq<u8>) -> bool {
    exists|i: int| 0 <= i < s.len() && #[trigger] s[i].user@ == u
}

spec fn position_index(s: Seq<UserPosition>, u: Seq<u8>) -> int {
    choose|i: int| 0 <= i < s.len() && #[trigger] s[i].user@ == u
}

/// The positions of `s`, by user.
pub closed spec fn position_map(s: Seq<UserPosition>) -> Map<Seq<u8>, UserPosition> {
    Map::new(|u: Seq<u8>| position_holds(s, u), |u: Seq<u8>| s[position_index(s, u)])
}

/// A binary market on "commodity price ≥ threshold at expiry", with its
/// two stake pools and its ledger of positions.
pub struct PredictionMarket {
    market_id: u64,
    commodity: [u8; 32],
    threshold_price: u64,
    creation_time: i64,
    expiry_time: i64,
    authority: [u8; 32],
    yes_pool: u64,
    no_pool: u64,
    status: MarketStatus,
    positions: Vec<UserPosition>,
}

impl View for PredictionMarket {
    type V = MarketView;

    closed spec fn view(&self) -> MarketView {
        MarketView {
            market_id: self.market_id,
            commodity: self.commodity@,
            threshold_price: self.threshold_price,
            creation_time: self.creation_time,
            expiry_time: self.expiry_time,
            authority: self.authority@,
            yes_pool: self.yes_pool,
            no_pool: self.no_pool,
            status: self.status,
            positions: position_map(self.positions@),
        }
    }
}

impl PredictionMarket {
    closed spec fn holds(&self, u: Seq<u8>) -> bool {
        position_holds(self.positions@, u)
    }

    closed spec fn index_of(&self, u: Seq<u8>) -> int {
        position_index(self.positions@, u)
    }

    /// The market's invariant: one position per participant, each pool
    /// equal to the shares issued on its side, the combined pool within
    /// `u64`, and an expiry after the creation time.
    pub closed spec fn wf(&self) -> bool {
        &&& distinct_users(self.positions@)
        &&& all_in_market(self.positions@, self.market_id)
        &&& self.yes_pool == total_shares(self.positions@, true)
        &&& self.no_pool == total_shares(self.positions@, false)
        &&& self.yes_pool + self.no_pool <= u64::MAX
        &&& self.creation_time < self.expiry_time
    }

    proof fn lemma_position_at(&self, i: int)
        requires
            self.wf(),
            0 <= i < self.positions@.len(),
        ensures
            self@.positions.contains_key(self.positions@[i].user@),
            self@.positions[self.positions@[i].user@] == self.positions@[i],
    {
        let u = self.positions@[i].user@;
        assert(self.holds(u));
        let j = self.index_of(u);
        assert(self.positions@[j].user@ == u);
        if j < i {
            assert(self.positions@[j].user@ != self.positions@[i].user@);
        } else if i < j {
            assert(self.positions@[i].user@ != self.positions@[j].user@);
        }
    }

    /// Every position's shares are covered by its side's pool.
    pub proof fn lemma_pools_cover_positions(&self)
        requires
            self.wf(),
        ensures
            self@.pools_cover_positions(),
    {
        assert forall|u: Seq<u8>| #[trigger] self@.positions.contains_key(u) implies self@.positions[
            u].yes_shares <= self@.yes_pool && self@.positions[u].no_shares <= self@.no_pool by {
            self.lemma_position_covered(u);
        }
    }

    proof fn lemma_position_covered(&self, user: Seq<u8>)
        requires
            self.wf(),
            self@.positions.contains_key(user),
        ensures
            self@.positions[user].yes_shares <= self@.yes_pool,
            self@.positions[user].no_shares <= self@.no_pool,
            self@.yes_pool + self@.no_pool <= u64::MAX,
            self@.positions[user].user@ == user,
            self@.positions[user].market_id == self@.market_id,
    {
        let i = self.index_of(user);
        assert(self.holds(user));
        self.lemma_position_at(i);
        lemma_total_covers(self.positions@, i, true);
        lemma_total_covers(self.positions@, i, false);
    }

    fn find(&self, user: &[u8; 32]) -> (r: Option<usize>)
        requires
            self.wf(),
        ensures
            match r {
                Some(i) => i < self.positions@.len() && self.positions@[i as int].user@ == user@,
                None => !self@.positions.contains_key(user@),
            },
    {
        let mut i: usize = 0;
        while i < self.positions.len()
            invariant
                i <= self.positions@.len(),
                forall|j: int| 0 <= j < i ==> #[trigger] self.positions@[j].user@ != user@,
            decreases self.positions@.len() - i,
        {
            if key_eq(&self.positions[i].user, user) {
                return Some(i);
            }
            i = i + 1;
        }
        None
    }

    /// Opens a market on `commodity` reaching `threshold_price` by
    /// `expiry_time`, with empty pools. `creator` is recorded as the
    /// market's administrative owner.
    pub fn create_market(
        market_id: u64,
        commodity: [u8; 32],
        threshold_price: u64,
        expiry_time: i64,
        creator: [u8; 32],
        now: i64,
    ) -> (r: Result<PredictionMarket, ErrorCode>)
        ensures
            expiry_time <= now ==> r == Err::<PredictionMarket, ErrorCode>(
                ErrorCode::InvalidExpiryTime,
            ),
            expiry_time > now ==> r is Ok,
            r matches Ok(m) ==> m.wf() && m@ == (MarketView {
                market_id,
                commodity: commodity@,
                threshold_price,
                creation_time: now,
                expiry_time,
                authority: creator@,
                yes_pool: 0,
                no_pool: 0,
                status: MarketStatus::Open,
                positions: Map::empty(),
            }),
    {
        if expiry_time <= now {
            return Err(ErrorCode::InvalidExpiryTime);
        }
        let m = PredictionMarket {
            market_id,
            commodity,
            threshold_price,
            creation_time: now,
            expiry_time,
            authority: creator,
            yes_pool: 0,
            no_pool: 0,
            status: MarketStatus::Open,
            positions: Vec::new(),
        };
        assert(m@.positions =~= Map::<Seq<u8>, UserPosition>::empty());
        Ok(m)
    }
}


impl PredictionMarket {
    /// Stakes `amount` on YES (`is_yes`) or NO for `user` at time `now`.
    ///
    /// Checks, in order: the market is not resolved, `now` is before the
    /// expiry, the amount is not zero, and the combined pool stays within
    /// `u64`. On success the side's pool and the user's shares on that side
    /// both grow by `amount`; the user's position is created on the first
    /// stake. The host debits `amount` from the user.
    pub fn buy_shares(&mut self, user: [u8; 32], amount: u64, is_yes: bool, now: i64) -> (r:
        Result<SharesPurchased, ErrorCode>)
        requires
            old(self).wf(),
        ensures
            final(self).wf(),
            match old(self)@.buy_error(amount, now) {
                Some(e) => r == Err::<SharesPurchased, ErrorCode>(e) && final(self)@ == old(
                    self,
                )@,
                None => r == Ok::<SharesPurchased, ErrorCode>(
                    SharesPurchased { market_id: old(self)@.market_id, user, is_yes, amount },
                ) && final(self)@ == old(self)@.staked(user, amount, is_yes),
            },
    {
        if let MarketStatus::Resolved(_) = self.status {
            return Err(ErrorCode::MarketResolved);
        }
        if now >= self.expiry_time {
            return Err(ErrorCode::MarketExpired);
        }
        if amount == 0 {
            return Err(ErrorCode::InvalidAmount);
        }
        if amount > u64::MAX - self.yes_pool - self.no_pool {
            return Err(ErrorCode::ArithmeticOverflow);
        }
        let ghost before = *self;
        let ghost target = before@.staked(user, amount, is_yes);
        let found = self.find(&user);
        if is_yes {
            self.yes_pool = self.yes_pool + amount;
        } else {
            self.no_pool = self.no_pool + amount;
        }
        match found {
            Some(i) => {
                let mut p = self.positions[i];
                proof {
                    before.lemma_position_at(i as int);
                    lemma_total_covers(before.positions@, i as int, true);
                    lemma_total_covers(before.positions@, i as int, false);
                }
                if is_yes {
                    p.yes_shares = p.yes_shares + amount;
                } else {
                    p.no_shares = p.no_shares + amount;
                }
                self.positions.set(i, p);
                proof {
                    lemma_total_update(before.positions@, i as int, p, true);
                    lemma_total_update(before.positions@, i as int, p, false);
                    assert(self.positions@ == before.positions@.update(i as int, p));
                    assert(p == target.positions[user@]);
                    assert forall|u: Seq<u8>|
                        #![trigger self@.positions.dom().contains(u)]
                        #![trigger target.positions.dom().contains(u)]
                        self@.positions.dom().contains(u) == target.positions.dom().contains(u)
                            && (self@.positions.dom().contains(u) ==> self@.positions[u]
                            == target.positions[u]) by {
                        if before.holds(u) {
                            let j = before.index_of(u);
                            before.lemma_position_at(j);
                            self.lemma_position_at(j);
                        }
                        if self.holds(u) {
                            let j = self.index_of(u);
                            self.lemma_position_at(j);
                            before.lemma_position_at(j);
                        }
                    }
                    assert(self@.positions =~= target.positions);
                }
            },
            None => {
                let p = UserPosition {
                    user,
                    market_id: self.market_id,
                    yes_shares: if is_yes { amount } else { 0 },
                    no_shares: if is_yes { 0 } else { amount },
                    claimed: false,
                };
                self.positions.push(p);
                proof {
                    lemma_total_push(before.positions@, p, true);
                    lemma_total_push(before.positions@, p, false);
                    let n = before.positions@.len() as int;
                    assert(self.positions@ == before.positions@.push(p));
                    assert forall|a: int, b: int|
                        0 <= a < b < self.positions@.len() implies #[trigger] self.positions@[a].user@
                        != #[trigger] self.positions@[b].user@ by {
                        if b == n {
                            before.lemma_position_at(a);
                        }
                    }
                    assert(p == target.positions[user@]);
                    assert forall|u: Seq<u8>|
                        #![trigger self@.positions.dom().contains(u)]
                        #![trigger target.positions.dom().contains(u)]
                        self@.positions.dom().contains(u) == target.positions.dom().contains(u)
                            && (self@.positions.dom().contains(u) ==> self@.positions[u]
                            == target.positions[u]) by {
                        if before.holds(u) {
                            let j = before.index_of(u);
                            before.lemma_position_at(j);
                            self.lemma_position_at(j);
                        }
                        if u == user@ {
                            self.lemma_position_at(n);
                        }
                        if self.holds(u) {
                            let j = self.index_of(u);
                            self.lemma_position_at(j);
                            if j < n {
                                before.lemma_position_at(j);
                            }
                        }
                    }
                    assert(self@.positions =~= target.positions);
                }
            },
        }
        Ok(SharesPurchased { market_id: self.market_id, user, is_yes, amount })
    }
}

impl PredictionMarket {
    /// Resolves the market from the oracle's record of its commodity at
    /// time `now`.
    ///
    /// Checks, in order: the market has expired, it is not resolved yet, a
    /// price has been published, and that price is less than an hour old.
    /// On success the outcome is YES exactly when the price reaches the
    /// threshold, and the resolution is frozen for good.
    pub fn resolve_market(&mut self, oracle: &OracleState, now: i64) -> (r: Result<
        MarketResolved,
        ErrorCode,
    >)
        requires
            old(self).wf(),
            oracle.wf(),
        ensures
            final(self).wf(),
            match old(self)@.resolve_error(oracle.feeds(), now) {
                Some(e) => r == Err::<MarketResolved, ErrorCode>(e) && final(self)@ == old(
                    self,
                )@,
                None => {
                    let res = old(self)@.resolution_at(
                        oracle.feeds()[old(self)@.commodity].price,
                        now,
                    );
                    &&& r == Ok::<MarketResolved, ErrorCode>(
                        MarketResolved {
                            market_id: old(self)@.market_id,
                            outcome: res.outcome,
                            oracle_price: res.oracle_price,
                            threshold_price: old(self)@.threshold_price,
                            timestamp: now,
                        },
                    )
                    &&& final(self)@ == old(self)@.resolved_with(res)
                },
            },
    {
        if now < self.expiry_time {
            return Err(ErrorCode::MarketNotExpired);
        }
        if let MarketStatus::Resolved(_) = self.status {
            return Err(ErrorCode::AlreadyResolved);
        }
        let feed = match oracle.get_price(&self.commodity) {
            Ok(feed) => feed,
            Err(e) => return Err(e),
        };
        if (now as i128) - (feed.timestamp as i128) >= MAX_PRICE_AGE as i128 {
            return Err(ErrorCode::StaleOraclePrice);
        }
        let outcome = feed.price >= self.threshold_price;
        let ghost before = *self;
        self.status = MarketStatus::Resolved(
            Resolution { outcome, oracle_price: feed.price, resolution_time: now },
        );
        assert(self@.positions =~= before@.positions);
        Ok(
            MarketResolved {
                market_id: self.market_id,
                outcome,
                oracle_price: feed.price,
                threshold_price: self.threshold_price,
                timestamp: now,
            },
        )
    }

    /// Pays out the winning position of `user`, once.
    ///
    /// Checks, in order: the market is resolved, the user holds shares on
    /// the winning side, the position has not been paid, the winning pool
    /// is not empty, and the payout does not round down to zero. On success
    /// the position is marked claimed and the payout is
    /// `floor(winning_shares * total_pool / winning_pool)`, which the host
    /// transfers to the user.
    pub fn claim_winnings(&mut self, user: &[u8; 32]) -> (r: Result<WinningsClaimed, ErrorCode>)
        requires
            old(self).wf(),
        ensures
            final(self).wf(),
            match old(self)@.claim_error(*user) {
                Some(e) => r == Err::<WinningsClaimed, ErrorCode>(e) && final(self)@ == old(
                    self,
                )@,
                None => {
                    &&& r == Ok::<WinningsClaimed, ErrorCode>(
                        WinningsClaimed {
                            market_id: old(self)@.market_id,
                            user: *user,
                            payout: old(self)@.payout_of(*user) as u64,
                        },
                    )
                    &&& final(self)@ == old(self)@.claimed_by(*user)
                },
            },
    {
        let res = match self.status {
            MarketStatus::Open => return Err(ErrorCode::MarketNotResolved),
            MarketStatus::Resolved(res) => res,
        };
        let i = match self.find(user) {
            Some(i) => i,
            None => return Err(ErrorCode::NoWinningShares),
        };
        let ghost before = *self;
        proof {
            before.lemma_position_at(i as int);
            lemma_total_covers(before.positions@, i as int, true);
            lemma_total_covers(before.positions@, i as int, false);
        }
        let mut p = self.positions[i];
        let winning_shares = if res.outcome {
            p.yes_shares
        } else {
            p.no_shares
        };
        if winning_shares == 0 {
            return Err(ErrorCode::NoWinningShares);
        }
        if p.claimed {
            return Err(ErrorCode::AlreadyClaimed);
        }
        let winning_pool = if res.outcome {
            self.yes_pool
        } else {
            self.no_pool
        };
        if winning_pool == 0 {
            return Err(ErrorCode::InvalidPool);
        }
        let total_pool = self.yes_pool + self.no_pool;
        proof {
            lemma_payout_bounds(winning_shares, winning_pool, total_pool);
        }
        let payout = match compute_payout(winning_shares, winning_pool, total_pool) {
            Some(payout) => payout,
            None => return Err(ErrorCode::ArithmeticOverflow),
        };
        if payout == 0 {
            return Err(ErrorCode::InvalidPayout);
        }
        p.claimed = true;
        self.positions.set(i, p);
        proof {
            lemma_total_update(before.positions@, i as int, p, true);
            lemma_total_update(before.positions@, i as int, p, false);
            let target = before@.positions.insert(user@, p);
            assert forall|u: Seq<u8>|
                #![trigger self@.positions.dom().contains(u)]
                #![trigger target.dom().contains(u)]
                self@.positions.dom().contains(u) == target.dom().contains(u) && (
                self@.positions.dom().contains(u) ==> self@.positions[u] == target[u]) by {
                if before.holds(u) {
                    let j = before.index_of(u);
                    before.lemma_position_at(j);
                    self.lemma_position_at(j);
                }
                if self.holds(u) {
                    let j = self.index_of(u);
                    self.lemma_position_at(j);
                    before.lemma_position_at(j);
                }
            }
            assert(self@.positions =~= target);
        }
        Ok(WinningsClaimed { market_id: self.market_id, user: *user, payout })
    }
}

impl PredictionMarket {
    pub fn market_id(&self) -> (r: u64)
        ensures
            r == self@.market_id,
    {
        self.market_id
    }

    pub fn commodity(&self) -> (r: [u8; 32])
        ensures
            r@ == self@.commodity,
    {
        self.commodity
    }

    pub fn threshold_price(&self) -> (r: u64)
        ensures
            r == self@.threshold_price,
    {
        self.threshold_price
    }

    pub fn creation_time(&self) -> (r: i64)
        ensures
            r == self@.creation_time,
    {
        self.creation_time
    }

    pub fn expiry_time(&self) -> (r: i64)
        ensures
            r == self@.expiry_time,
    {
        self.expiry_time
    }

    /// The market's administrative owner.
    pub fn authority(&self) -> (r: [u8; 32])
        ensures
            r@ == self@.authority,
    {
        self.authority
    }

    pub fn yes_pool(&self) -> (r: u64)
        ensures
            r == self@.yes_pool,
    {
        self.yes_pool
    }

    pub fn no_pool(&self) -> (r: u64)
        ensures
            r == self@.no_pool,
    {
        self.no_pool
    }

    pub fn status(&self) -> (r: MarketStatus)
        ensures
            r == self@.status,
    {
        self.status
    }

    /// The position of `user`, if the user has staked.
    pub fn position(&self, user: &[u8; 32]) -> (r: Option<UserPosition>)
        requires
            self.wf(),
        ensures
            match r {
                Some(p) => self@.positions.contains_key(user@) && p == self@.positions[user@],
                None => !self@.positions.contains_key(user@),
            },
    {
        match self.find(user) {
            Some(i) => {
                proof {
                    self.lemma_position_at(i as int);
                }
                Some(self.positions[i])
            },
            None => None,
        }
    }
}

impl PredictionMarket {
    /// Rebuilds a market from its persisted header and positions; `None`
    /// when they are not consistent.
    pub fn restore(header: MarketHeader, positions: Vec<UserPosition>) -> (r: Option<
        PredictionMarket,
    >)
        ensures
            r is Some <==> header.consistent_with(positions@),
            r matches Some(m) ==> m.wf() && m@ == header.with_positions(
                position_map(positions@),
            ),
    {
        if header.expiry_time <= header.creation_time {
            return None;
        }
        if header.yes_pool > u64::MAX - header.no_pool {
            return None;
        }
        let n = positions.len();
        let mut yes: u64 = 0;
        let mut no: u64 = 0;
        let mut i: usize = 0;
        while i < n
            invariant
                n == positions@.len(),
                i <= n,
                yes == total_shares(positions@.subrange(0, i as int), true),
                no == total_shares(positions@.subrange(0, i as int), false),
                yes <= header.yes_pool,
                no <= header.no_pool,
                forall|a: int| 0 <= a < i ==> #[trigger] positions@[a].market_id
                    == header.market_id,
                forall|a: int, b: int|
                    0 <= a < b < n && a < i ==> #[trigger] positions@[a].user@
                        != #[trigger] positions@[b].user@,
            decreases n - i,
        {
            let p = positions[i];
            proof {
                assert(positions@.subrange(0, i + 1).drop_last() =~= positions@.subrange(
                    0,
                    i as int,
                ));
                lemma_total_prefix(positions@, i + 1, n as int, true);
                lemma_total_prefix(positions@, i + 1, n as int, false);
                assert(positions@.subrange(0, n as int) =~= positions@);
            }
            if p.market_id != header.market_id {
                return None;
            }
            if p.yes_shares > header.yes_pool - yes || p.no_shares > header.no_pool - no {
                return None;
            }
            yes = yes + p.yes_shares;
            no = no + p.no_shares;
            let mut j: usize = i + 1;
            while j < n
                invariant
                    n == positions@.len(),
                    i < n,
                    i + 1 <= j <= n,
                    forall|a: int, b: int|
                        0 <= a < b < n && a < i ==> #[trigger] positions@[a].user@
                            != #[trigger] positions@[b].user@,
                    forall|b: int|
                        i < b < j ==> positions@[i as int].user@ != #[trigger] positions@[b].user@,
                decreases n - j,
            {
                if key_eq(&positions[i].user, &positions[j].user) {
                    return None;
                }
                j = j + 1;
            }
            i = i + 1;
        }
        proof {
            assert(positions@.subrange(0, n as int) =~= positions@);
        }
        if yes != header.yes_pool || no != header.no_pool {
            return None;
        }
        Some(
            PredictionMarket {
                market_id: header.market_id,
                commodity: header.commodity,
                threshold_price: header.threshold_price,
                creation_time: header.creation_time,
                expiry_time: header.expiry_time,
                authority: header.authority,
                yes_pool: header.yes_pool,
                no_pool: header.no_pool,
                status: header.status,
                positions,
            },
        )
    }

    /// The fixed-size part of the market, to persist.
    pub fn header(&self) -> (r: MarketHeader)
        ensures
            r.with_positions(self@.positions) == self@,
    {
        MarketHeader {
            market_id: self.market_id,
            commodity: self.commodity,
            threshold_price: self.threshold_price,
            creation_time: self.creation_time,
            expiry_time: self.expiry_time,
            authority: self.authority,
            yes_pool: self.yes_pool,
            no_pool: self.no_pool,
            status: self.status,
        }
    }

    /// The positions to persist, one per user.
    pub fn positions(&self) -> (r: Vec<UserPosition>)
        requires
            self.wf(),
        ensures
            distinct_users(r@),
            all_in_market(r@, self@.market_id),
            total_shares(r@, true) == self@.yes_pool,
            total_shares(r@, false) == self@.no_pool,
            position_map(r@) == self@.positions,
    {
        let mut out: Vec<UserPosition> = Vec::new();
        let mut i: usize = 0;
        while i < self.positions.len()
            invariant
                i <= self.positions@.len(),
                out@ == self.positions@.subrange(0, i as int),
            decreases self.positions@.len() - i,
        {
            out.push(self.positions[i]);
            i = i + 1;
            assert(out@ =~= self.positions@.subrange(0, i as int));
        }
        assert(out@ =~= self.positions@);
        out
    }
}

/// A market cannot be resolved before its expiry.
pub proof fn lemma_no_resolution_before_expiry(
    m: MarketView,
    feeds: Map<Seq<u8>, PriceAccount>,
    now: i64,
)
    requires
        now < m.expiry_time,
    ensures
        m.resolve_error(feeds, now) == Some(ErrorCode::MarketNotExpired),
{
}

/// Resolution is one-shot: once resolved, every later attempt after expiry
/// fails with `AlreadyResolved`, whatever the oracle then says, so the
/// stored resolution is never overwritten.
pub proof fn lemma_resolve_is_one_shot(
    m: MarketView,
    feeds: Map<Seq<u8>, PriceAccount>,
    now: i64,
    later_feeds: Map<Seq<u8>, PriceAccount>,
    later: i64,
)
    requires
        m.resolve_error(feeds, now) is None,
        now <= later,
    ensures
        ({
            let resolved = m.resolved_with(m.resolution_at(feeds[m.commodity].price, now));
            &&& resolved.resolve_error(later_feeds, later) == Some(ErrorCode::AlreadyResolved)
            &&& resolved.status == MarketStatus::Resolved(
                m.resolution_at(feeds[m.commodity].price, now),
            )
        }),
{
}

/// A price whose age at resolution time is an hour or more is refused as
/// stale; a younger one is accepted.
pub proof fn lemma_staleness_boundary(m: MarketView, feeds: Map<Seq<u8>, PriceAccount>, now: i64)
    requires
        m.expiry_time <= now,
        !m.is_resolved(),
        feeds.contains_key(m.commodity),
    ensures
        (m.resolve_error(feeds, now) == Some(ErrorCode::StaleOraclePrice)) <==> now
            - feeds[m.commodity].timestamp >= MAX_PRICE_AGE,
        (m.resolve_error(feeds, now) is None) <==> now - feeds[m.commodity].timestamp
            < MAX_PRICE_AGE,
{
}

/// A price equal to the threshold resolves the market to YES.
pub proof fn lemma_threshold_counts_as_yes(m: MarketView, now: i64)
    ensures
        m.resolution_at(m.threshold_price, now).outcome,
{
}

/// A position is paid at most once: after a successful claim, a second
/// claim by the same user fails with `AlreadyClaimed`.
pub proof fn lemma_claim_is_one_shot(m: MarketView, user: [u8; 32])
    requires
        m.claim_error(user) is None,
    ensures
        m.claimed_by(user).claim_error(user) == Some(ErrorCode::AlreadyClaimed),
{
}

/// No stake is taken from the expiry time on.
pub proof fn lemma_no_stake_after_expiry(m: MarketView, amount: u64, now: i64)
    requires
        !m.is_resolved(),
        now >= m.expiry_time,
    ensures
        m.buy_error(amount, now) == Some(ErrorCode::MarketExpired),
{
}

/// Stakes of two different participants on the same side add up in the
/// pool, while each participant's shares grow by their own stake alone.
pub proof fn lemma_stakes_are_independent(
    m: MarketView,
    first: [u8; 32],
    first_amount: u64,
    second: [u8; 32],
    second_amount: u64,
    is_yes: bool,
    now: i64,
)
    requires
        m.pools_cover_positions(),
        first@ != second@,
        m.buy_error(first_amount, now) is None,
        m.staked(first, first_amount, is_yes).buy_error(second_amount, now) is None,
    ensures
        ({
            let after = m.staked(first, first_amount, is_yes).staked(
                second,
                second_amount,
                is_yes,
            );
            &&& side_pool(after, is_yes) == side_pool(m, is_yes) + first_amount + second_amount
            &&& side_shares(after.positions[first@], is_yes) == side_shares(
                m.position_of(first),
                is_yes,
            ) + first_amount
            &&& side_shares(after.positions[second@], is_yes) == side_shares(
                m.position_of(second),
                is_yes,
            ) + second_amount
        }),
{
    let mid = m.staked(first, first_amount, is_yes);
    assert(mid.position_of(second) == m.position_of(second));
    assert(mid.positions.contains_key(first@));
    assert(mid.pools_cover_positions()) by {
        assert forall|u: Seq<u8>| #[trigger] mid.positions.contains_key(u) implies mid.positions[
            u].yes_shares <= mid.yes_pool && mid.positions[u].no_shares <= mid.no_pool by {
            if u != first@ {
                assert(m.positions.contains_key(u));
            }
        }
    }
}

/// The pool of one side.
pub open spec fn side_pool(m: MarketView, is_yes: bool) -> int {
    if is_yes {
        m.yes_pool as int
    } else {
        m.no_pool as int
    }
}

} // verus!
