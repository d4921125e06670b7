//! Placing bets: which bets a market takes, and what a bet that is taken does
//! to the market, to the record of the user and to the balances.

use crate::error::ErrorCode;
use crate::lifecycle::advances;
use crate::market::{
    lemma_pool_sum_prefix, lemma_pool_sum_update, pool_sum, Market, MarketStatus, MarketView,
    OutcomeView,
};
use crate::pubkey::Pubkey;
use crate::stakes::{lemma_stake_le_total, lemma_total_insert, stake_of, total_staked};
use crate::user::{User, UserBet};
use crate::wallet::Wallet;
use vstd::prelude::*;

verus! {

/// Why the market takes no bets at time `now`, if it does not: it must be
/// open, and `now` must lie between its opening and its closing date.
pub open spec fn window_error(m: MarketView, now: i64) -> Option<ErrorCode> {
    if !(m.status is Opened) {
        Some(ErrorCode::MarketClosed)
    } else if !(m.opening_date <= now <= m.closing_date) {
        Some(ErrorCode::BettingPeriodOver)
    } else {
        None
    }
}

/// Why a bet is refused, if it is. The conditions are tested in this order,
/// and the first that fails is reported: status and time, the size of the
/// bet, the cumulative limit, the outcome index.
pub open spec fn bet_error(
    m: MarketView,
    user: Pubkey,
    outcome_index: u8,
    amount: u64,
    now: i64,
) -> Option<ErrorCode> {
    if window_error(m, now) is Some {
        window_error(m, now)
    } else if amount < m.min_bet {
        Some(ErrorCode::BetTooSmall)
    } else if amount > m.max_bet {
        Some(ErrorCode::BetTooLarge)
    } else if stake_of(m.user_bets, user) + amount > m.max_cumulative_bet {
        Some(ErrorCode::MaxCumulativeBetExceeded)
    } else if outcome_index >= m.outcomes.len() {
        Some(ErrorCode::InvalidOutcomeIndex)
    } else {
        None
    }
}

/// An outcome after `user` has staked `amount` more on it.
pub open spec fn outcome_after_bet(o: OutcomeView, user: Pubkey, amount: u64) -> OutcomeView {
    OutcomeView {
        index: o.index,
        total_bets: (o.total_bets + amount) as u64,
        user_bets: o.user_bets.insert(user, (stake_of(o.user_bets, user) + amount) as u64),
    }
}

/// A market after `user` has staked `amount` more on the outcome at
/// `outcome_index`: the stake of the user in the market, the stake of the
/// user on the outcome and the pool of the outcome each grow by `amount`.
pub open spec fn after_bet(
    m: MarketView,
    user: Pubkey,
    outcome_index: u8,
    amount: u64,
) -> MarketView {
    MarketView {
        outcomes: m.outcomes.update(
            outcome_index as int,
            outcome_after_bet(m.outcomes[outcome_index as int], user, amount),
        ),
        user_bets: m.user_bets.insert(user, (stake_of(m.user_bets, user) + amount) as u64),
        ..m
    }
}

/// The pool of one outcome is no more than the pools of all.
pub proof fn lemma_pool_le_sum(outcomes: Seq<OutcomeView>, k: int)
    requires
        0 <= k < outcomes.len(),
    ensures
        outcomes[k].total_bets <= pool_sum(outcomes),
{
    lemma_pool_sum_prefix(outcomes, k + 1);
    assert(outcomes.take(k + 1).drop_last() =~= outcomes.take(k));
    assert(outcomes.take(k + 1).last() == outcomes[k]);
}

/// A bet that is taken keeps the market well formed: the pools of the
/// outcomes and the stakes recorded per user both grow by the amount of the
/// bet, so they still add up to the same sum.
pub proof fn lemma_bet_keeps_wf(
    m: MarketView,
    user: Pubkey,
    outcome_index: u8,
    amount: u64,
    now: i64,
)
    requires
        m.wf(),
        bet_error(m, user, outcome_index, amount, now) is None,
        m.pool_total() + amount <= u64::MAX,
    ensures
        after_bet(m, user, outcome_index, amount).wf(),
        after_bet(m, user, outcome_index, amount).conserved(),
        after_bet(m, user, outcome_index, amount).pool_total() == m.pool_total() + amount,
        total_staked(after_bet(m, user, outcome_index, amount).user_bets) == total_staked(
            m.user_bets,
        ) + amount,
{
    let k = outcome_index as int;
    let o = m.outcomes[k];
    let o2 = outcome_after_bet(o, user, amount);
    let m2 = after_bet(m, user, outcome_index, amount);
    assert(o.wf_at(k));
    lemma_pool_le_sum(m.outcomes, k);
    lemma_stake_le_total(o.user_bets, user);
    lemma_total_insert(o.user_bets, user, (stake_of(o.user_bets, user) + amount) as u64);
    lemma_total_insert(m.user_bets, user, (stake_of(m.user_bets, user) + amount) as u64);
    lemma_pool_sum_update(m.outcomes, k, o2);
    assert(o2.wf_at(k));
    assert forall|j: int| 0 <= j < m2.outcomes.len() implies (#[trigger] m2.outcomes[j]).wf_at(
        j,
    ) by {
        if j != k {
            assert(m2.outcomes[j] == m.outcomes[j]);
        }
    }
    assert(m2.within_limits());
}

/// Which refusal a bet meets while the market takes bets: a bet outside the
/// size limits is refused for its size; a bet of the right size that would
/// take the user over the cumulative limit is refused for that; and a bet
/// that passes both but names an outcome that is not there is refused for the
/// index.
pub proof fn lemma_bet_refusals(
    m: MarketView,
    user: Pubkey,
    outcome_index: u8,
    amount: u64,
    now: i64,
)
    requires
        window_error(m, now) is None,
    ensures
        amount < m.min_bet ==> bet_error(m, user, outcome_index, amount, now) == Some(
            ErrorCode::BetTooSmall,
        ),
        m.min_bet <= amount && amount > m.max_bet ==> bet_error(
            m,
            user,
            outcome_index,
            amount,
            now,
        ) == Some(ErrorCode::BetTooLarge),
        m.min_bet <= amount <= m.max_bet && stake_of(m.user_bets, user) + amount
            > m.max_cumulative_bet ==> bet_error(m, user, outcome_index, amount, now) == Some(
            ErrorCode::MaxCumulativeBetExceeded,
        ),
        m.min_bet <= amount <= m.max_bet && stake_of(m.user_bets, user) + amount
            <= m.max_cumulative_bet && outcome_index >= m.outcomes.len() ==> bet_error(
            m,
            user,
            outcome_index,
            amount,
            now,
        ) == Some(ErrorCode::InvalidOutcomeIndex),
{
}

/// A bet as it is asked of a market.
pub struct BetRequest {
    pub user: Pubkey,
    pub outcome_index: u8,
    pub amount: u64,
    pub now: i64,
}

/// Whether the market takes the bet: nothing speaks against it, and the pools
/// can hold it.
pub open spec fn takes(m: MarketView, bet: BetRequest) -> bool {
    &&& bet_error(m, bet.user, bet.outcome_index, bet.amount, bet.now) is None
    &&& m.pool_total() + bet.amount <= u64::MAX
}

/// The market after the bets have been asked of it one after the other. A
/// bet that the market does not take leaves it as it is.
pub open spec fn after_bets(m: MarketView, bets: Seq<BetRequest>) -> MarketView
    decreases bets.len(),
{
    if bets.len() == 0 {
        m
    } else {
        let before = after_bets(m, bets.drop_last());
        let bet = bets.last();
        if takes(before, bet) {
            after_bet(before, bet.user, bet.outcome_index, bet.amount)
        } else {
            before
        }
    }
}

/// Stakes are conserved: in a market in which the stakes recorded per user
/// add up to the pools of the outcomes, they still do so after every one of
/// any sequence of bets.
pub proof fn lemma_bets_conserve(m: MarketView, bets: Seq<BetRequest>)
    requires
        m.wf(),
        m.conserved(),
    ensures
        after_bets(m, bets).wf(),
        after_bets(m, bets).conserved(),
        forall|n: int|
            0 <= n <= bets.len() ==> (#[trigger] after_bets(m, bets.take(n))).conserved(),
    decreases bets.len(),
{
    if bets.len() > 0 {
        let front = bets.drop_last();
        lemma_bets_conserve(m, front);
        let before = after_bets(m, front);
        let bet = bets.last();
        if takes(before, bet) {
            lemma_bet_keeps_wf(before, bet.user, bet.outcome_index, bet.amount, bet.now);
        }
        assert forall|n: int| 0 <= n <= bets.len() implies (#[trigger] after_bets(
            m,
            bets.take(n),
        )).conserved() by {
            if n == bets.len() {
                assert(bets.take(n) =~= bets);
            } else {
                assert(bets.take(n) =~= front.take(n));
            }
        }
    } else {
        assert forall|n: int| 0 <= n <= bets.len() implies (#[trigger] after_bets(
            m,
            bets.take(n),
        )).conserved() by {
            assert(bets.take(n) =~= bets);
        }
    }
}

/// What placing a bet works on.
#[derive(Debug)]
pub struct PlaceBet {
    /// The address under which the market is kept.
    pub market_key: Pubkey,
    pub market: Market,
    /// The betting record that the bet is written into.
    pub user: User,
    /// Who places the bet, and the balance that the stake is paid from.
    pub signer: Wallet,
    /// The balance that holds the stakes of the market.
    pub market_pool: Wallet,
}

impl PlaceBet {
    /// Whether a bet of `amount` can be carried out without a number leaving
    /// its range: the signer can pay it, and the pool, the market and the
    /// record of the user can take it.
    pub open spec fn carries(&self, amount: u64) -> bool {
        &&& amount <= self.signer.balance
        &&& self.market_pool.balance + amount <= u64::MAX
        &&& self.market@.pool_total() + amount <= u64::MAX
        &&& self.user.total_bets + 1 <= u64::MAX
        &&& self.user.total_amount_bet + amount <= u64::MAX
    }

    /// Tests `carries`.
    pub fn can_carry(&self, amount: u64) -> (r: bool)
        requires
            self.market.wf(),
        ensures
            r == self.carries(amount),
    {
        let pool = self.market.pool_total();
        amount <= self.signer.balance && amount <= u64::MAX - self.market_pool.balance && amount
            <= u64::MAX - pool && self.user.total_bets < u64::MAX && amount <= u64::MAX
            - self.user.total_amount_bet
    }
}

impl Market {
    /// Everything staked in the market.
    pub fn pool_total(&self) -> (r: u64)
        requires
            self.wf(),
        ensures
            r == self@.pool_total(),
    {
        let mut sum: u64 = 0;
        let mut i: usize = 0;
        while i < self.outcomes.len()
            invariant
                i <= self.outcomes@.len(),
                sum == pool_sum(self@.outcomes.take(i as int)),
                pool_sum(self@.outcomes) <= u64::MAX,
            decreases self.outcomes@.len() - i,
        {
            proof {
                let views = self@.outcomes;
                lemma_pool_sum_prefix(views, i + 1);
                assert(views.take(i + 1).drop_last() =~= views.take(i as int));
                assert(views.take(i + 1).last() == self.outcomes@[i as int]@);
            }
            sum = sum + self.outcomes[i].total_bets;
            i += 1;
        }
        proof {
            assert(self@.outcomes.take(i as int) =~= self@.outcomes);
        }
        sum
    }

    /// Whether the market takes bets at time `now`.
    pub fn validate_bet_window(&self, now: i64) -> (r: Result<(), ErrorCode>)
        ensures
            match r {
                Ok(()) => window_error(self@, now) is None,
                Err(e) => window_error(self@, now) == Some(e),
            },
    {
        match self.status {
            MarketStatus::Opened => {},
            _ => {
                return Err(ErrorCode::MarketClosed);
            },
        }
        if now < self.opening_date || now > self.closing_date {
            return Err(ErrorCode::BettingPeriodOver);
        }
        Ok(())
    }

    /// Whether the market would take a bet of `amount` by `user` on the
    /// outcome at `outcome_index` at time `now`. Nothing is changed.
    pub fn check_bet(&self, user: &Pubkey, outcome_index: u8, amount: u64, now: i64) -> (r: Result<
        (),
        ErrorCode,
    >)
        ensures
            match r {
                Ok(()) => bet_error(self@, *user, outcome_index, amount, now) is None,
                Err(e) => bet_error(self@, *user, outcome_index, amount, now) == Some(e),
            },
    {
        match self.validate_bet_window(now) {
            Err(e) => {
                return Err(e);
            },
            Ok(()) => {},
        }
        if amount < self.min_bet {
            return Err(ErrorCode::BetTooSmall);
        }
        if amount > self.max_bet {
            return Err(ErrorCode::BetTooLarge);
        }
        let staked: u64 = match self.user_bets.get(user) {
            Some(s) => s,
            None => 0,
        };
        if amount > self.max_cumulative_bet || staked > self.max_cumulative_bet - amount {
            return Err(ErrorCode::MaxCumulativeBetExceeded);
        }
        if outcome_index as usize >= self.outcomes.len() {
            return Err(ErrorCode::InvalidOutcomeIndex);
        }
        Ok(())
    }
}

/// Places a bet of `amount` by the signer on the outcome at `outcome_index`
/// at time `now`.
///
/// The bet is refused, and nothing changes, when `bet_error` names a reason.
/// Otherwise the market is changed as `after_bet` says, `amount` moves from
/// the signer to the pool of the market, and the bet is written into the
/// record of the user.
pub fn place_bet(ctx: &mut PlaceBet, outcome_index: u8, amount: u64, now: i64) -> (r: Result<
    (),
    ErrorCode,
>)
    requires
        old(ctx).market.wf(),
        bet_error(old(ctx).market@, old(ctx).signer.key, outcome_index, amount, now) is None
            ==> old(ctx).carries(amount),
    ensures
        final(ctx).market.wf(),
        advances(old(ctx).market@, final(ctx).market@),
        match r {
            Ok(()) => {
                &&& bet_error(old(ctx).market@, old(ctx).signer.key, outcome_index, amount, now)
                    is None
                &&& final(ctx).market@ == after_bet(
                    old(ctx).market@,
                    old(ctx).signer.key,
                    outcome_index,
                    amount,
                )
                &&& final(ctx).market@.conserved()
                &&& final(ctx).signer == old(ctx).signer.debited(amount as int)
                &&& final(ctx).market_pool == old(ctx).market_pool.credited(amount as int)
                &&& final(ctx).user@ == old(ctx).user@.with_bet(
                    (UserBet { market: old(ctx).market_key, outcome_index, amount }),
                )
                &&& final(ctx).market_key == old(ctx).market_key
            },
            Err(e) => {
                &&& bet_error(old(ctx).market@, old(ctx).signer.key, outcome_index, amount, now)
                    == Some(e)
                &&& *final(ctx) == *old(ctx)
            },
        },
        amount < old(ctx).market.min_bet || amount > old(ctx).market.max_bet || outcome_index
            >= old(ctx).market.outcomes@.len() || stake_of(
            old(ctx).market.user_bets@,
            old(ctx).signer.key,
        ) + amount > old(ctx).market.max_cumulative_bet ==> r is Err && *final(ctx) == *old(ctx),
{
    let user_key = ctx.signer.key;
    match ctx.market.check_bet(&user_key, outcome_index, amount, now) {
        Err(e) => {
            return Err(e);
        },
        Ok(()) => {},
    }
    let k = outcome_index as usize;
    proof {
        let m = ctx.market@;
        lemma_bet_keeps_wf(m, user_key, outcome_index, amount, now);
        assert(m.outcomes[k as int].wf_at(k as int));
        assert(m.outcomes[k as int] == ctx.market.outcomes@[k as int]@);
        lemma_pool_le_sum(m.outcomes, k as int);
        lemma_stake_le_total(m.outcomes[k as int].user_bets, user_key);
    }
    let staked: u64 = match ctx.market.user_bets.get(&user_key) {
        Some(s) => s,
        None => 0,
    };
    ctx.market.user_bets.set(user_key, staked + amount);
    let on_outcome: u64 = match ctx.market.outcomes[k].user_bets.get(&user_key) {
        Some(s) => s,
        None => 0,
    };
    ctx.market.outcomes[k].user_bets.set(user_key, on_outcome + amount);
    ctx.market.outcomes[k].total_bets = ctx.market.outcomes[k].total_bets + amount;
    proof {
        assert(ctx.market@.outcomes =~= after_bet(
            old(ctx).market@,
            user_key,
            outcome_index,
            amount,
        ).outcomes);
    }
    ctx.signer.balance = ctx.signer.balance - amount;
    ctx.market_pool.balance = ctx.market_pool.balance + amount;
    ctx.user.total_bets = ctx.user.total_bets + 1;
    ctx.user.total_amount_bet = ctx.user.total_amount_bet + amount;
    ctx.user.bets.push(UserBet { market: ctx.market_key, outcome_index, amount });
    Ok(())
}

} // verus!
