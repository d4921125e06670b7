//! Claiming rewards: who may claim, what a winner is paid, and what a claim
//! does to the market and to the balances.

use crate::error::ErrorCode;
use crate::lifecycle::advances;
use crate::market::{
    lemma_losing_sum, lemma_pool_sum_prefix, losing_sum, pool_sum, Market, MarketStatus,
    MarketView, OutcomeView,
};
use crate::pubkey::Pubkey;
use crate::stakes::{lemma_stake_le_total, lemma_total_remove, stake_of, total_staked};
use crate::wallet::Wallet;
use vstd::prelude::*;

verus! {

/// What a winner is paid, and what is kept of it.
#[derive(Clone, Copy, PartialEq, Eq, Structural, Debug)]
pub struct Payout {
    /// What leaves the pool of the market: the stake of the winner and its
    /// share of the losing stakes.
    pub reward: u64,
    /// The part of the reward that is kept as a fee.
    pub commission: u64,
    /// The part of the reward that the winner receives.
    pub net_reward: u64,
}

/// Why a claim is refused, if it is. The conditions are tested in this order:
/// the market is settled, the user holds a stake in the market, a winner is
/// recorded, the user has staked on the winner.
pub open spec fn claim_error(m: MarketView, user: Pubkey) -> Option<ErrorCode> {
    if !(m.status is Settled) {
        Some(ErrorCode::MarketNotSettled)
    } else if !m.user_bets.contains_key(user) {
        Some(ErrorCode::NoBetPlaced)
    } else if m.winning_outcome is None {
        Some(ErrorCode::NoWinnerSet)
    } else if stake_of(m.outcomes[m.winning_outcome->0 as int].user_bets, user) == 0 {
        Some(ErrorCode::NotEligibleForReward)
    } else {
        None
    }
}

/// The share of the losing stakes that falls to a stake of `stake` in a
/// winning pool of `winning`: in proportion, rounded down.
pub open spec fn user_share(stake: int, losing: int, winning: int) -> int {
    stake * losing / winning
}

/// The fee on `reward` at `percentage` percent, rounded down.
pub open spec fn commission_on(reward: int, percentage: int) -> int {
    reward * percentage / 100
}

/// What `user` has staked on the winning outcome of `m`.
pub open spec fn winning_stake(m: MarketView, user: Pubkey) -> int {
    stake_of(m.outcomes[m.winning_outcome->0 as int].user_bets, user) as int
}

/// The reward of `user` in the settled market `m`: its stake on the winning
/// outcome, and its share of everything staked on the other outcomes.
pub open spec fn reward_of(m: MarketView, user: Pubkey) -> int {
    let winner = m.winning_outcome->0;
    user_share(
        winning_stake(m, user),
        losing_sum(m.outcomes, winner) as int,
        m.outcomes[winner as int].total_bets as int,
    ) + winning_stake(m, user)
}

/// What a claim of `user` in the settled market `m` pays.
pub open spec fn payout_of(m: MarketView, user: Pubkey) -> Payout {
    let reward = reward_of(m, user);
    let commission = commission_on(reward, m.commission_percentage as int);
    Payout {
        reward: reward as u64,
        commission: commission as u64,
        net_reward: (reward - commission) as u64,
    }
}

/// The market after `user` has claimed: the entry of the user is gone, so
/// that the user cannot claim again. Nothing else changes.
pub open spec fn after_claim(m: MarketView, user: Pubkey) -> MarketView {
    MarketView { user_bets: m.user_bets.remove(user), ..m }
}

/// A share of the losing stakes is no more than all of them.
proof fn lemma_share_bound(stake: int, losing: int, winning: int)
    by (nonlinear_arith)
    requires
        0 <= stake <= winning,
        0 <= losing,
        0 < winning,
    ensures
        0 <= user_share(stake, losing, winning) <= losing,
{
}

/// A fee of at most 100 percent is no more than the reward.
proof fn lemma_commission_bound(reward: int, percentage: int)
    by (nonlinear_arith)
    requires
        0 <= reward,
        0 <= percentage <= 100,
    ensures
        0 <= commission_on(reward, percentage) <= reward,
{
}

/// The losing pools are part of all pools.
pub proof fn lemma_losing_le_pool(outcomes: Seq<OutcomeView>, winner: u8)
    ensures
        losing_sum(outcomes, winner) <= pool_sum(outcomes),
    decreases outcomes.len(),
{
    if outcomes.len() > 0 {
        lemma_losing_le_pool(outcomes.drop_last(), winner);
    }
}

/// A valid claim pays more than nothing and no more than was staked in the
/// market; the fee is no more than the reward. In particular the winning pool
/// is not empty, and every part of the payout fits in 64 bits.
pub proof fn lemma_payout_bounds(m: MarketView, user: Pubkey)
    requires
        m.wf(),
        m.commission_percentage <= 100,
        claim_error(m, user) is None,
    ensures
        0 < winning_stake(m, user) <= m.outcomes[m.winning_outcome->0 as int].total_bets,
        winning_stake(m, user) <= reward_of(m, user) <= m.pool_total() <= u64::MAX,
        0 <= commission_on(reward_of(m, user), m.commission_percentage as int) <= reward_of(
            m,
            user,
        ),
        payout_of(m, user).reward == reward_of(m, user),
        payout_of(m, user).commission == commission_on(
            reward_of(m, user),
            m.commission_percentage as int,
        ),
        payout_of(m, user).net_reward == payout_of(m, user).reward - payout_of(
            m,
            user,
        ).commission,
{
    let winner = m.winning_outcome->0;
    let o = m.outcomes[winner as int];
    assert(o.wf_at(winner as int));
    lemma_stake_le_total(o.user_bets, user);
    lemma_losing_sum(m.outcomes, winner);
    lemma_share_bound(
        winning_stake(m, user),
        losing_sum(m.outcomes, winner) as int,
        o.total_bets as int,
    );
    lemma_commission_bound(reward_of(m, user), m.commission_percentage as int);
}

/// A claim keeps the market well formed.
pub proof fn lemma_claim_keeps_wf(m: MarketView, user: Pubkey)
    requires
        m.wf(),
        m.status is Settled,
    ensures
        after_claim(m, user).wf(),
{
    assert(after_claim(m, user).within_limits());
}

/// Nobody claims twice: once a claim of `user` has gone through, the next
/// claim of the same user in the same market is refused, because the user
/// holds no stake in the market any more.
pub proof fn lemma_single_claim(m: MarketView, user: Pubkey)
    requires
        m.wf(),
        claim_error(m, user) is None,
    ensures
        claim_error(after_claim(m, user), user) == Some(ErrorCode::NoBetPlaced),
{
}

/// Where nothing was staked on any losing outcome, a winner gets back its
/// stake less the fee on that stake: nothing is lost and nothing is won.
pub proof fn lemma_zero_losing_pool(m: MarketView, user: Pubkey)
    requires
        m.wf(),
        m.commission_percentage <= 100,
        claim_error(m, user) is None,
        losing_sum(m.outcomes, m.winning_outcome->0) == 0,
    ensures
        payout_of(m, user).reward == winning_stake(m, user),
        payout_of(m, user).commission == commission_on(
            winning_stake(m, user),
            m.commission_percentage as int,
        ),
        payout_of(m, user).net_reward == winning_stake(m, user) - commission_on(
            winning_stake(m, user),
            m.commission_percentage as int,
        ),
{
    lemma_payout_bounds(m, user);
    let winner = m.winning_outcome->0;
    assert(user_share(winning_stake(m, user), 0, m.outcomes[winner as int].total_bets as int)
        == 0) by (nonlinear_arith)
        requires
            m.outcomes[winner as int].total_bets > 0,
    ;
}

/// What a sequence of claims takes out of the pool of the market, one claim
/// after the other. A claim that is refused takes nothing.
pub open spec fn paid_out(m: MarketView, claimants: Seq<Pubkey>) -> int
    decreases claimants.len(),
{
    if claimants.len() == 0 {
        0
    } else if claim_error(m, claimants.first()) is None {
        reward_of(m, claimants.first()) + paid_out(
            after_claim(m, claimants.first()),
            claimants.drop_first(),
        )
    } else {
        paid_out(m, claimants.drop_first())
    }
}

/// The stakes on the winning outcome of those users who can still claim.
pub open spec fn open_stakes(m: MarketView) -> Map<Pubkey, u64> {
    m.outcomes[m.winning_outcome->0 as int].user_bets.restrict(m.user_bets.dom())
}

/// Part of a book holds no more than the whole book.
pub proof fn lemma_total_restrict(m: Map<Pubkey, u64>, keys: Set<Pubkey>)
    requires
        m.dom().finite(),
    ensures
        m.restrict(keys).dom().finite(),
        total_staked(m.restrict(keys)) <= total_staked(m),
    decreases m.dom().len(),
{
    let part = m.restrict(keys);
    assert(part.dom() =~= m.dom().intersect(keys));
    if m.dom().len() == 0 {
        assert(part.dom() =~= Set::<Pubkey>::empty());
    } else {
        let k = m.dom().choose();
        lemma_total_remove(m, k);
        lemma_total_restrict(m.remove(k), keys);
        if part.contains_key(k) {
            lemma_total_remove(part, k);
            assert(part.remove(k) =~= m.remove(k).restrict(keys));
        } else {
            assert(part =~= m.remove(k).restrict(keys));
        }
    }
}

/// A reward, scaled by the winning pool, is no more than the stake scaled by
/// all pools: rounding down only ever keeps something back.
proof fn lemma_reward_scaled(stake: int, losing: int, winning: int)
    by (nonlinear_arith)
    requires
        0 <= stake,
        0 <= losing,
        0 < winning,
    ensures
        (user_share(stake, losing, winning) + stake) * winning <= stake * (losing + winning),
{
}

/// Scaled bounds on one reward and on the rest add up.
proof fn lemma_scaled_sum(reward: int, rest: int, stake: int, open: int, winning: int, all: int)
    by (nonlinear_arith)
    requires
        reward * winning <= stake * all,
        rest * winning <= all * (open - stake),
    ensures
        (reward + rest) * winning <= all * open,
{
}

/// A scaled bound, with the open stakes within the winning pool, bounds what
/// was paid by all pools.
proof fn lemma_scaled_bound(paid: int, open: int, winning: int, all: int)
    by (nonlinear_arith)
    requires
        0 < winning,
        0 <= all,
        open <= winning,
        paid * winning <= all * open,
    ensures
        paid <= all,
{
}

/// What a sequence of claims pays, scaled by the winning pool, is no more than
/// all pools times the winning stakes of those who can still claim.
proof fn lemma_paid_out_scaled(m: MarketView, claimants: Seq<Pubkey>)
    requires
        m.wf(),
        m.status is Settled,
        m.winning_outcome is Some,
    ensures
        0 <= paid_out(m, claimants),
        m.outcomes[m.winning_outcome->0 as int].total_bets == 0 ==> paid_out(m, claimants) == 0,
        paid_out(m, claimants) * m.outcomes[m.winning_outcome->0 as int].total_bets
            <= m.pool_total() * total_staked(open_stakes(m)),
    decreases claimants.len(),
{
    let winner = m.winning_outcome->0;
    let o = m.outcomes[winner as int];
    let winning = o.total_bets as int;
    let losing = losing_sum(m.outcomes, winner) as int;
    assert(o.wf_at(winner as int));
    lemma_losing_sum(m.outcomes, winner);
    lemma_total_restrict(o.user_bets, m.user_bets.dom());
    if claimants.len() == 0 {
        assert(0 <= m.pool_total() * total_staked(open_stakes(m))) by (nonlinear_arith)
            requires
                0 <= m.pool_total(),
                0 <= total_staked(open_stakes(m)),
        ;
    } else {
        let user = claimants.first();
        let rest = claimants.drop_first();
        if claim_error(m, user) is None {
            let next = after_claim(m, user);
            lemma_claim_keeps_wf(m, user);
            lemma_paid_out_scaled(next, rest);
            lemma_stake_le_total(o.user_bets, user);
            let stake = winning_stake(m, user);
            assert(open_stakes(m).contains_key(user));
            lemma_total_remove(open_stakes(m), user);
            assert(open_stakes(next) =~= open_stakes(m).remove(user));
            lemma_reward_scaled(stake, losing, winning);
            lemma_scaled_sum(
                reward_of(m, user),
                paid_out(next, rest),
                stake,
                total_staked(open_stakes(m)) as int,
                winning,
                m.pool_total() as int,
            );
            lemma_share_bound(stake, losing, winning);
        } else {
            lemma_paid_out_scaled(m, rest);
        }
    }
}

/// No market pays out more than was staked in it: whoever claims, in whatever
/// order and however often, the rewards that leave the pool add up to no more
/// than the pools of all outcomes.
pub proof fn lemma_payout_bound(m: MarketView, claimants: Seq<Pubkey>)
    requires
        m.wf(),
    ensures
        0 <= paid_out(m, claimants) <= m.pool_total(),
    decreases claimants.len(),
{
    if m.status is Settled && m.winning_outcome is Some {
        let winner = m.winning_outcome->0;
        let o = m.outcomes[winner as int];
        assert(o.wf_at(winner as int));
        lemma_paid_out_scaled(m, claimants);
        lemma_total_restrict(o.user_bets, m.user_bets.dom());
        if o.total_bets > 0 {
            lemma_scaled_bound(
                paid_out(m, claimants),
                total_staked(open_stakes(m)) as int,
                o.total_bets as int,
                m.pool_total() as int,
            );
        }
    } else if claimants.len() > 0 {
        lemma_payout_bound(m, claimants.drop_first());
    }
}

impl Market {
    /// The sum of the pools of all outcomes whose index is not `winner`.
    fn losing_total(&self, winner: u8) -> (r: u64)
        requires
            self.wf(),
        ensures
            r == losing_sum(self@.outcomes, winner),
    {
        let mut sum: u64 = 0;
        let mut i: usize = 0;
        while i < self.outcomes.len()
            invariant
                i <= self.outcomes@.len(),
                sum == losing_sum(self@.outcomes.take(i as int), winner),
                pool_sum(self@.outcomes) <= u64::MAX,
            decreases self.outcomes@.len() - i,
        {
            proof {
                let views = self@.outcomes;
                lemma_pool_sum_prefix(views, i + 1);
                lemma_losing_le_pool(views.take(i + 1), winner);
                assert(views.take(i + 1).drop_last() =~= views.take(i as int));
                assert(views.take(i + 1).last() == self.outcomes@[i as int]@);
            }
            if self.outcomes[i].index != winner {
                sum = sum + self.outcomes[i].total_bets;
            }
            i += 1;
        }
        proof {
            assert(self@.outcomes.take(i as int) =~= self@.outcomes);
        }
        sum
    }

    /// What a claim of `user` would pay, or why it would be refused. Nothing
    /// is changed.
    pub fn compute_payout(&self, user: &Pubkey) -> (r: Result<Payout, ErrorCode>)
        requires
            self.wf(),
            self.commission_percentage <= 100,
        ensures
            match r {
                Ok(payout) => claim_error(self@, *user) is None && payout == payout_of(
                    self@,
                    *user,
                ),
                Err(e) => claim_error(self@, *user) == Some(e),
            },
    {
        match self.status {
            MarketStatus::Settled => {},
            _ => {
                return Err(ErrorCode::MarketNotSettled);
            },
        }
        if !self.user_bets.contains_key(user) {
            return Err(ErrorCode::NoBetPlaced);
        }
        let winner: u8 = match self.winning_outcome {
            Some(w) => w,
            None => {
                return Err(ErrorCode::NoWinnerSet);
            },
        };
        let outcome = &self.outcomes[winner as usize];
        assert(outcome@ == self@.outcomes[winner as int]);
        let stake: u64 = match outcome.user_bets.get(user) {
            Some(s) => s,
            None => 0,
        };
        if stake == 0 {
            return Err(ErrorCode::NotEligibleForReward);
        }
        let losing = self.losing_total(winner);
        proof {
            lemma_payout_bounds(self@, *user);
            assert(stake as int * losing as int <= 0xffff_ffff_ffff_ffff * 0xffff_ffff_ffff_ffff)
                by (nonlinear_arith)
                requires
                    0 <= stake <= 0xffff_ffff_ffff_ffff,
                    0 <= losing <= 0xffff_ffff_ffff_ffff,
            ;
        }
        let share: u128 = (stake as u128 * losing as u128) / (outcome.total_bets as u128);
        let reward: u64 = share as u64 + stake;
        proof {
            assert(reward as int * self.commission_percentage as int <= 0xffff_ffff_ffff_ffff
                * 100) by (nonlinear_arith)
                requires
                    0 <= reward <= 0xffff_ffff_ffff_ffff,
                    0 <= self.commission_percentage <= 100,
            ;
        }
        let commission: u64 = ((reward as u128 * self.commission_percentage as u128) / 100) as u64;
        Ok(Payout { reward, commission, net_reward: reward - commission })
    }
}

/// What claiming a reward works on.
#[derive(Debug)]
pub struct ClaimReward {
    pub market: Market,
    /// Who claims, and the balance that the reward is paid into.
    pub user: Wallet,
    /// The balance that holds the stakes of the market.
    pub market_pool: Wallet,
    /// The balance that the fee is paid into.
    pub fee_collector: Wallet,
}

impl ClaimReward {
    /// Whether `payout` can be paid without a number leaving its range: the
    /// pool holds the reward, and the fee collector and the user can take
    /// their parts.
    pub open spec fn pays(&self, payout: Payout) -> bool {
        &&& payout.reward <= self.market_pool.balance
        &&& self.fee_collector.balance + payout.commission <= u64::MAX
        &&& self.user.balance + payout.net_reward <= u64::MAX
    }

    /// Tests `pays`.
    pub fn can_pay(&self, payout: &Payout) -> (r: bool)
        ensures
            r == self.pays(*payout),
    {
        payout.reward <= self.market_pool.balance && payout.commission <= u64::MAX
            - self.fee_collector.balance && payout.net_reward <= u64::MAX - self.user.balance
    }
}

/// Pays the user its reward from the settled market.
///
/// The claim is refused, and nothing changes, when `claim_error` names a
/// reason. Otherwise the reward leaves the pool of the market, the fee goes to
/// the fee collector and the rest to the user, and the entry of the user is
/// taken out of the market, so that a second claim finds no stake.
pub fn claim_reward(ctx: &mut ClaimReward) -> (r: Result<Payout, ErrorCode>)
    requires
        old(ctx).market.wf(),
        old(ctx).market.commission_percentage <= 100,
        claim_error(old(ctx).market@, old(ctx).user.key) is None ==> old(ctx).pays(
            payout_of(old(ctx).market@, old(ctx).user.key),
        ),
    ensures
        final(ctx).market.wf(),
        advances(old(ctx).market@, final(ctx).market@),
        match r {
            Ok(payout) => {
                &&& claim_error(old(ctx).market@, old(ctx).user.key) is None
                &&& payout == payout_of(old(ctx).market@, old(ctx).user.key)
                &&& payout.reward == payout.commission + payout.net_reward
                &&& final(ctx).market@ == after_claim(old(ctx).market@, old(ctx).user.key)
                &&& final(ctx).market_pool == old(ctx).market_pool.debited(payout.reward as int)
                &&& final(ctx).fee_collector == old(ctx).fee_collector.credited(
                    payout.commission as int,
                )
                &&& final(ctx).user == old(ctx).user.credited(payout.net_reward as int)
                &&& claim_error(final(ctx).market@, old(ctx).user.key) == Some(
                    ErrorCode::NoBetPlaced,
                )
            },
            Err(e) => {
                &&& claim_error(old(ctx).market@, old(ctx).user.key) == Some(e)
                &&& *final(ctx) == *old(ctx)
            },
        },
{
    let user_key = ctx.user.key;
    let payout = match ctx.market.compute_payout(&user_key) {
        Ok(p) => p,
        Err(e) => {
            return Err(e);
        },
    };
    proof {
        lemma_payout_bounds(ctx.market@, user_key);
        lemma_claim_keeps_wf(ctx.market@, user_key);
    }
    ctx.market_pool.balance = ctx.market_pool.balance - payout.reward;
    ctx.fee_collector.balance = ctx.fee_collector.balance + payout.commission;
    ctx.user.balance = ctx.user.balance + payout.net_reward;
    ctx.market.user_bets.remove(&user_key);
    Ok(payout)
}

} // verus!
