//! Markets and their outcomes: the records, their mathematical views, and what
//! it means for a market to be well formed.

use crate::pubkey::Pubkey;
use crate::stakes::{total_staked, StakeMap};
use vstd::prelude::*;

verus! {

/// Where a market stands in its life. A market only ever moves forward:
/// from `Opened` to `Closed` to `Settled`.
#[derive(Clone, Copy, PartialEq, Eq, Structural, Debug)]
pub enum MarketStatus {
    Opened,
    Closed,
    Settled,
}

/// The kind of event a market is about. It does not change how a market is
/// settled.
#[derive(Clone, Copy, PartialEq, Eq, Structural, Debug)]
pub enum MarketType {
    Hilo,
    TokenFight,
    Custom,
}

/// One possible resolution of a market, with the stakes wagered on it.
#[derive(Debug)]
pub struct Outcome {
    /// The position of the outcome in its market.
    pub index: u8,
    /// The sum of all stakes placed on this outcome.
    pub total_bets: u64,
    /// What each user has staked on this outcome.
    pub user_bets: StakeMap,
}

/// An outcome as a mathematical value.
pub struct OutcomeView {
    pub index: u8,
    pub total_bets: u64,
    pub user_bets: Map<Pubkey, u64>,
}

impl View for Outcome {
    type V = OutcomeView;

    open spec fn view(&self) -> OutcomeView {
        OutcomeView { index: self.index, total_bets: self.total_bets, user_bets: self.user_bets@ }
    }
}

impl OutcomeView {
    /// The outcome stands at position `k`, and its pool is the sum of the
    /// stakes placed on it.
    pub open spec fn wf_at(self, k: int) -> bool {
        &&& self.index == k
        &&& self.user_bets.dom().finite()
        &&& self.total_bets == total_staked(self.user_bets)
    }
}

impl Outcome {
    /// The largest number of users whose stakes one outcome is sized for.
    pub const MAX_USER_BETS: usize = 100;

    /// The number of bytes that a stored outcome is sized for.
    pub const MAX_SIZE: usize = 1 + 8 + 4 + (Self::MAX_USER_BETS * (32 + 8));

    /// An outcome at position `index` on which nothing has been staked.
    pub fn new(index: u8) -> (outcome: Outcome)
        ensures
            outcome@ == (OutcomeView { index, total_bets: 0, user_bets: Map::empty() }),
            outcome@.wf_at(index as int),
    {
        Outcome { index, total_bets: 0, user_bets: StakeMap::new() }
    }
}

impl Clone for Outcome {
    fn clone(&self) -> (copy: Outcome)
        ensures
            copy@ == self@,
    {
        Outcome {
            index: self.index,
            total_bets: self.total_bets,
            user_bets: self.user_bets.clone(),
        }
    }
}

/// The views of a list of outcomes, in order.
pub open spec fn outcome_views(outcomes: Seq<Outcome>) -> Seq<OutcomeView> {
    outcomes.map_values(|o: Outcome| o@)
}

/// The sum of the pools of all outcomes.
pub open spec fn pool_sum(outcomes: Seq<OutcomeView>) -> nat
    decreases outcomes.len(),
{
    if outcomes.len() == 0 {
        0
    } else {
        pool_sum(outcomes.drop_last()) + outcomes.last().total_bets as nat
    }
}

/// The sum of the pools of all outcomes but the one whose index is `winner`.
pub open spec fn losing_sum(outcomes: Seq<OutcomeView>, winner: u8) -> nat
    decreases outcomes.len(),
{
    if outcomes.len() == 0 {
        0
    } else if outcomes.last().index != winner {
        losing_sum(outcomes.drop_last(), winner) + outcomes.last().total_bets as nat
    } else {
        losing_sum(outcomes.drop_last(), winner)
    }
}

/// Replacing one outcome changes the sum of the pools by the difference of
/// the two pools.
pub proof fn lemma_pool_sum_update(outcomes: Seq<OutcomeView>, k: int, o: OutcomeView)
    requires
        0 <= k < outcomes.len(),
    ensures
        pool_sum(outcomes.update(k, o)) + outcomes[k].total_bets == pool_sum(outcomes)
            + o.total_bets,
    decreases outcomes.len(),
{
    let after = outcomes.update(k, o);
    if k == outcomes.len() - 1 {
        assert(after.drop_last() =~= outcomes.drop_last());
    } else {
        lemma_pool_sum_update(outcomes.drop_last(), k, o);
        assert(after.drop_last() =~= outcomes.drop_last().update(k, o));
    }
}

/// The sum over the first `n` outcomes is no more than the sum over all.
pub proof fn lemma_pool_sum_prefix(outcomes: Seq<OutcomeView>, n: int)
    requires
        0 <= n <= outcomes.len(),
    ensures
        pool_sum(outcomes.take(n)) <= pool_sum(outcomes),
    decreases outcomes.len(),
{
    if n == outcomes.len() {
        assert(outcomes.take(n) =~= outcomes);
    } else {
        lemma_pool_sum_prefix(outcomes.drop_last(), n);
        assert(outcomes.drop_last().take(n) =~= outcomes.take(n));
    }
}

/// Where every outcome carries its position as index, the losing pools and
/// the pool of the winner make up the whole.
pub proof fn lemma_losing_sum(outcomes: Seq<OutcomeView>, winner: u8)
    requires
        forall|k: int| 0 <= k < outcomes.len() ==> (#[trigger] outcomes[k]).index == k,
    ensures
        winner < outcomes.len() ==> losing_sum(outcomes, winner)
            + outcomes[winner as int].total_bets == pool_sum(outcomes),
        winner >= outcomes.len() ==> losing_sum(outcomes, winner) == pool_sum(outcomes),
    decreases outcomes.len(),
{
    if outcomes.len() > 0 {
        let front = outcomes.drop_last();
        assert forall|k: int| 0 <= k < front.len() implies (#[trigger] front[k]).index == k by {
            assert(front[k] == outcomes[k]);
        }
        lemma_losing_sum(front, winner);
        assert(outcomes.last() == outcomes[outcomes.len() - 1]);
        if winner < front.len() {
            assert(front[winner as int] == outcomes[winner as int]);
        }
    }
}

/// A market: its terms, its status, its outcomes and the stakes placed.
#[derive(Debug)]
pub struct Market {
    /// Who created the market and may settle it. Never changes.
    pub admin: Pubkey,
    pub market_title: String,
    pub market_description: String,
    pub market_type: MarketType,
    /// The two assets of a token-denominated market.
    pub tokens: Option<[Pubkey; 2]>,
    /// Bets are taken from this time on (seconds since the epoch).
    pub opening_date: i64,
    /// Bets are taken up to and including this time.
    pub closing_date: i64,
    /// When settlement is expected; advisory only.
    pub settlement_date: i64,
    /// The share of every reward that is kept as a fee, in percent.
    pub commission_percentage: u8,
    /// The least amount of a single bet.
    pub min_bet: u64,
    /// The greatest amount of a single bet.
    pub max_bet: u64,
    /// The greatest total that one user may stake in this market.
    pub max_cumulative_bet: u64,
    /// A counter that is part of the record; placing a bet does not touch it.
    pub total_bets: u64,
    pub status: MarketStatus,
    /// The outcome that won; recorded when the market is settled.
    pub winning_outcome: Option<u8>,
    pub outcomes: Vec<Outcome>,
    /// What each user has staked in this market over all outcomes. The entry
    /// of a user is taken out when the user claims a reward.
    pub user_bets: StakeMap,
}

/// A market as a mathematical value.
pub struct MarketView {
    pub admin: Pubkey,
    pub market_title: Seq<char>,
    pub market_description: Seq<char>,
    pub market_type: MarketType,
    pub tokens: Option<[Pubkey; 2]>,
    pub opening_date: i64,
    pub closing_date: i64,
    pub settlement_date: i64,
    pub commission_percentage: u8,
    pub min_bet: u64,
    pub max_bet: u64,
    pub max_cumulative_bet: u64,
    pub total_bets: u64,
    pub status: MarketStatus,
    pub winning_outcome: Option<u8>,
    pub outcomes: Seq<OutcomeView>,
    pub user_bets: Map<Pubkey, u64>,
}

impl View for Market {
    type V = MarketView;

    open spec fn view(&self) -> MarketView {
        MarketView {
            admin: self.admin,
            market_title: self.market_title@,
            market_description: self.market_description@,
            market_type: self.market_type,
            tokens: self.tokens,
            opening_date: self.opening_date,
            closing_date: self.closing_date,
            settlement_date: self.settlement_date,
            commission_percentage: self.commission_percentage,
            min_bet: self.min_bet,
            max_bet: self.max_bet,
            max_cumulative_bet: self.max_cumulative_bet,
            total_bets: self.total_bets,
            status: self.status,
            winning_outcome: self.winning_outcome,
            outcomes: outcome_views(self.outcomes@),
            user_bets: self.user_bets@,
        }
    }
}

impl MarketView {
    /// Everything staked in the market: the sum of the pools of its outcomes.
    pub open spec fn pool_total(self) -> nat {
        pool_sum(self.outcomes)
    }

    /// The stakes recorded per user add up to the pools of the outcomes.
    pub open spec fn conserved(self) -> bool {
        self.pool_total() == total_staked(self.user_bets)
    }

    /// No user holds more in the market than the market allows.
    pub open spec fn within_limits(self) -> bool {
        forall|user: Pubkey| #[trigger]
            self.user_bets.contains_key(user) ==> self.user_bets[user] <= self.max_cumulative_bet
    }

    /// What holds of a market at all times:
    /// - it has at most `Market::MAX_OUTCOMES` outcomes, each at its own
    ///   index and with a pool equal to the sum of the stakes placed on it;
    /// - everything staked in it fits in 64 bits;
    /// - no user holds more than the cumulative limit;
    /// - until the market is settled, the stakes recorded per user add up
    ///   to the pools of the outcomes;
    /// - a recorded winner is one of the outcomes.
    pub open spec fn wf(self) -> bool {
        &&& self.outcomes.len() <= Market::MAX_OUTCOMES
        &&& forall|k: int| 0 <= k < self.outcomes.len() ==> (#[trigger] self.outcomes[k]).wf_at(k)
        &&& self.user_bets.dom().finite()
        &&& self.within_limits()
        &&& self.pool_total() <= u64::MAX
        &&& !(self.status is Settled) ==> self.conserved()
        &&& self.winning_outcome matches Some(w) ==> w < self.outcomes.len()
    }
}

impl Market {
    /// The longest title that a stored market is sized for.
    pub const MAX_TITLE_LENGTH: usize = 64;

    /// The longest description that a stored market is sized for.
    pub const MAX_DESC_LENGTH: usize = 256;

    /// The largest number of outcomes of a market.
    pub const MAX_OUTCOMES: usize = 4;

    /// The largest number of users whose stakes a stored market is sized for.
    pub const MAX_BETS: usize = 100;

    /// The number of bytes that a stored market is sized for.
    pub const MAX_SIZE: usize = 32 + 4 + Self::MAX_TITLE_LENGTH + 4 + Self::MAX_DESC_LENGTH + 1
        + 1 + 64 + 8 + 8 + 8 + 1 + 8 + 8 + 8 + 8 + 1 + 1 + 1 + 4 + (Self::MAX_OUTCOMES
        * Outcome::MAX_SIZE) + 4 + (Self::MAX_BETS * (32 + 8));

    /// Whether the market is well formed.
    pub open spec fn wf(&self) -> bool {
        self@.wf()
    }

    /// Tests `wf`.
    pub fn is_well_formed(&self) -> (ok: bool)
        ensures
            ok == self.wf(),
    {
        proof {
            self.user_bets.lemma_finite();
        }
        let n = self.outcomes.len();
        if n > Market::MAX_OUTCOMES {
            return false;
        }
        let mut pool: u128 = 0;
        let mut k: usize = 0;
        while k < n
            invariant
                n == self.outcomes@.len(),
                n <= Market::MAX_OUTCOMES,
                k <= n,
                forall|j: int| 0 <= j < k ==> (#[trigger] self@.outcomes[j]).wf_at(j),
                pool == pool_sum(self@.outcomes.take(k as int)),
                pool <= k * 0xffff_ffff_ffff_ffff,
            decreases n - k,
        {
            let outcome = &self.outcomes[k];
            proof {
                let views = self@.outcomes;
                outcome.user_bets.lemma_finite();
                assert(views[k as int] == outcome@);
                assert(views.take(k + 1).drop_last() =~= views.take(k as int));
                assert(views.take(k + 1).last() == views[k as int]);
            }
            if outcome.index as usize != k {
                return false;
            }
            match outcome.user_bets.checked_total() {
                Some(t) => {
                    if t != outcome.total_bets {
                        return false;
                    }
                },
                None => {
                    return false;
                },
            }
            pool = pool + outcome.total_bets as u128;
            k += 1;
        }
        proof {
            assert(self@.outcomes.take(k as int) =~= self@.outcomes);
        }
        if pool > u64::MAX as u128 {
            return false;
        }
        if !self.user_bets.all_within(self.max_cumulative_bet) {
            return false;
        }
        match self.status {
            MarketStatus::Settled => {},
            _ => {
                match self.user_bets.checked_total() {
                    Some(t) => {
                        if t as u128 != pool {
                            return false;
                        }
                    },
                    None => {
                        return false;
                    },
                }
            },
        }
        match self.winning_outcome {
            Some(w) => (w as usize) < n,
            None => true,
        }
    }
}

impl Clone for Market {
    fn clone(&self) -> (copy: Market)
        ensures
            copy@ == self@,
    {
        let mut outcomes: Vec<Outcome> = Vec::new();
        let mut i: usize = 0;
        while i < self.outcomes.len()
            invariant
                i <= self.outcomes@.len(),
                outcomes@.len() == i,
                outcome_views(outcomes@) == outcome_views(self.outcomes@).take(i as int),
            decreases self.outcomes@.len() - i,
        {
            let ghost before = outcomes@;
            let copy = self.outcomes[i].clone();
            outcomes.push(copy);
            proof {
                let done = outcome_views(outcomes@);
                let want = outcome_views(self.outcomes@).take(i + 1);
                assert forall|j: int| 0 <= j < done.len() implies done[j] == want[j] by {
                    if j < i {
                        assert(outcomes@[j] == before[j]);
                        assert(outcome_views(before)[j] == outcome_views(self.outcomes@).take(
                            i as int,
                        )[j]);
                    }
                }
                assert(done =~= want);
            }
            i += 1;
        }
        assert(outcome_views(self.outcomes@).take(i as int) =~= outcome_views(self.outcomes@));
        Market {
            admin: self.admin,
            market_title: self.market_title.clone(),
            market_description: self.market_description.clone(),
            market_type: self.market_type,
            tokens: self.tokens,
            opening_date: self.opening_date,
            closing_date: self.closing_date,
            settlement_date: self.settlement_date,
            commission_percentage: self.commission_percentage,
            min_bet: self.min_bet,
            max_bet: self.max_bet,
            max_cumulative_bet: self.max_cumulative_bet,
            total_bets: self.total_bets,
            status: self.status,
            winning_outcome: self.winning_outcome,
            outcomes,
            user_bets: self.user_bets.clone(),
        }
    }
}

} // verus!
