//! The life of a market: it is created open, closed by an administrator, and
//! settled by its own administrator, who names the winning outcome. A market
//! never goes back.

use crate::error::ErrorCode;
use crate::market::{Market, MarketStatus, MarketType, MarketView, OutcomeView};
use crate::pubkey::Pubkey;
use crate::stakes::StakeMap;
use crate::state::{State, StateView};
use vstd::prelude::*;

verus! {

/// How far a market has come.
pub open spec fn status_rank(status: MarketStatus) -> int {
    match status {
        MarketStatus::Opened => 0,
        MarketStatus::Closed => 1,
        MarketStatus::Settled => 2,
    }
}

/// `after` is a later state of the market `before`: the administrator is the
/// same, the status has not gone back, the winner of a settled market has
/// stayed, and a winner has only changed on the way to `Settled`.
pub open spec fn advances(before: MarketView, after: MarketView) -> bool {
    &&& after.admin == before.admin
    &&& status_rank(before.status) <= status_rank(after.status)
    &&& before.status is Settled ==> after.winning_outcome == before.winning_outcome
    &&& after.winning_outcome != before.winning_outcome ==> !(before.status is Settled)
        && after.status is Settled
}

/// A market that has not changed has not gone back.
pub proof fn lemma_advances_reflexive(m: MarketView)
    ensures
        advances(m, m),
{
}

/// Whatever is done to a market step by step, it does not go back: its status
/// never regresses, and once it is settled its winner stays.
pub proof fn lemma_advances_transitive(a: MarketView, b: MarketView, c: MarketView)
    requires
        advances(a, b),
        advances(b, c),
    ensures
        advances(a, c),
{
}

/// The market that `create_market` makes: open, with the given terms, no
/// outcome, no stake and no winner.
pub open spec fn new_market(
    admin: Pubkey,
    market_title: Seq<char>,
    market_description: Seq<char>,
    market_type: MarketType,
    tokens: Option<[Pubkey; 2]>,
    opening_date: i64,
    closing_date: i64,
    settlement_date: i64,
    commission_percentage: u8,
    min_bet: u64,
    max_bet: u64,
    max_cumulative_bet: u64,
) -> MarketView {
    MarketView {
        admin,
        market_title,
        market_description,
        market_type,
        tokens,
        opening_date,
        closing_date,
        settlement_date,
        commission_percentage,
        min_bet,
        max_bet,
        max_cumulative_bet,
        total_bets: 0,
        status: MarketStatus::Opened,
        winning_outcome: None,
        outcomes: Seq::empty(),
        user_bets: Map::empty(),
    }
}

/// What creating a market works on.
#[derive(Debug)]
pub struct CreateMarket {
    /// The address under which the market will be kept.
    pub market_key: Pubkey,
    /// The record that is filled in.
    pub market: Market,
    /// Who creates the market.
    pub admin: Pubkey,
    pub state: State,
}

/// Creates a market with the given terms, provided that the caller is an
/// administrator. The market is entered in the registry, and its address is
/// returned.
pub fn create_market(
    ctx: &mut CreateMarket,
    market_title: String,
    market_description: String,
    market_type: MarketType,
    tokens: Option<[Pubkey; 2]>,
    opening_date: i64,
    closing_date: i64,
    settlement_date: i64,
    commission_percentage: u8,
    min_bet: u64,
    max_bet: u64,
    max_cumulative_bet: u64,
) -> (r: Result<Pubkey, ErrorCode>)
    ensures
        match r {
            Ok(key) => {
                &&& old(ctx).state@.is_admin(old(ctx).admin)
                &&& key == old(ctx).market_key
                &&& final(ctx).market@ == new_market(
                    old(ctx).admin,
                    market_title@,
                    market_description@,
                    market_type,
                    tokens,
                    opening_date,
                    closing_date,
                    settlement_date,
                    commission_percentage,
                    min_bet,
                    max_bet,
                    max_cumulative_bet,
                )
                &&& final(ctx).market.wf()
                &&& final(ctx).market@.conserved()
                &&& final(ctx).state@.admins == old(ctx).state@.admins
                &&& final(ctx).state@.markets == old(ctx).state@.markets.push(key)
                &&& final(ctx).state@.is_market(key)
                &&& final(ctx).market_key == old(ctx).market_key
                &&& final(ctx).admin == old(ctx).admin
            },
            Err(e) => {
                &&& !old(ctx).state@.is_admin(old(ctx).admin)
                &&& e == ErrorCode::Unauthorized
                &&& *final(ctx) == *old(ctx)
            },
        },
{
    if !ctx.state.is_admin(&ctx.admin) {
        return Err(ErrorCode::Unauthorized);
    }
    ctx.market = Market {
        admin: ctx.admin,
        market_title,
        market_description,
        market_type,
        tokens,
        opening_date,
        closing_date,
        settlement_date,
        commission_percentage,
        min_bet,
        max_bet,
        max_cumulative_bet,
        total_bets: 0,
        status: MarketStatus::Opened,
        winning_outcome: None,
        outcomes: Vec::new(),
        user_bets: StakeMap::new(),
    };
    ctx.state.markets.push(ctx.market_key);
    proof {
        assert(ctx.market@.outcomes =~= Seq::<OutcomeView>::empty());
        let n = old(ctx).state@.markets.len() as int;
        assert(ctx.state@.markets[n] == ctx.market_key);
    }
    Ok(ctx.market_key)
}

/// Why a market cannot be closed, if it cannot: the caller must be an
/// administrator, and the market must be open.
pub open spec fn close_error(m: MarketView, state: StateView, caller: Pubkey) -> Option<ErrorCode> {
    if !state.is_admin(caller) {
        Some(ErrorCode::Unauthorized)
    } else if !(m.status is Opened) {
        Some(ErrorCode::MarketClosed)
    } else {
        None
    }
}

/// What closing a market works on.
#[derive(Debug)]
pub struct CloseMarket {
    pub market: Market,
    /// Who closes the market.
    pub admin: Pubkey,
    pub state: State,
}

/// Closes an open market, so that it takes no more bets and can be settled.
/// Any administrator may close a market, at any time.
pub fn close_market(ctx: &mut CloseMarket) -> (r: Result<(), ErrorCode>)
    ensures
        old(ctx).market.wf() ==> final(ctx).market.wf(),
        advances(old(ctx).market@, final(ctx).market@),
        match r {
            Ok(()) => {
                &&& close_error(old(ctx).market@, old(ctx).state@, old(ctx).admin) is None
                &&& final(ctx).market@ == (MarketView {
                    status: MarketStatus::Closed,
                    ..old(ctx).market@
                })
                &&& final(ctx).state == old(ctx).state
                &&& final(ctx).admin == old(ctx).admin
            },
            Err(e) => {
                &&& close_error(old(ctx).market@, old(ctx).state@, old(ctx).admin) == Some(e)
                &&& *final(ctx) == *old(ctx)
            },
        },
{
    if !ctx.state.is_admin(&ctx.admin) {
        return Err(ErrorCode::Unauthorized);
    }
    match ctx.market.status {
        MarketStatus::Opened => {},
        _ => {
            return Err(ErrorCode::MarketClosed);
        },
    }
    ctx.market.status = MarketStatus::Closed;
    Ok(())
}

/// Why a market cannot be settled, if it cannot. The conditions are tested in
/// this order: the caller is the administrator of the market, the market is
/// closed, the winner is one of its outcomes.
pub open spec fn settle_error(m: MarketView, caller: Pubkey, winning_outcome: u8) -> Option<
    ErrorCode,
> {
    if caller != m.admin {
        Some(ErrorCode::Unauthorized)
    } else if !(m.status is Closed) {
        Some(ErrorCode::MarketNotClosed)
    } else if winning_outcome >= m.outcomes.len() {
        Some(ErrorCode::InvalidOutcomeIndex)
    } else {
        None
    }
}

/// The market after it has been settled with the given winner.
pub open spec fn after_settle(m: MarketView, winning_outcome: u8) -> MarketView {
    MarketView { status: MarketStatus::Settled, winning_outcome: Some(winning_outcome), ..m }
}

/// What settling a market works on.
#[derive(Debug)]
pub struct SettleMarket {
    pub market: Market,
    /// Who settles the market.
    pub admin: Pubkey,
}

/// Settles a closed market: records the winning outcome and ends the life of
/// the market. Only the administrator of the market may do so; anybody else
/// is refused, and the market stays as it is.
pub fn settle_market(ctx: &mut SettleMarket, winning_outcome: u8) -> (r: Result<(), ErrorCode>)
    ensures
        old(ctx).market.wf() ==> final(ctx).market.wf(),
        advances(old(ctx).market@, final(ctx).market@),
        match r {
            Ok(()) => {
                &&& settle_error(old(ctx).market@, old(ctx).admin, winning_outcome) is None
                &&& final(ctx).market@ == after_settle(old(ctx).market@, winning_outcome)
                &&& final(ctx).admin == old(ctx).admin
            },
            Err(e) => {
                &&& settle_error(old(ctx).market@, old(ctx).admin, winning_outcome) == Some(e)
                &&& *final(ctx) == *old(ctx)
            },
        },
        old(ctx).admin != old(ctx).market.admin ==> r == Err::<(), ErrorCode>(
            ErrorCode::Unauthorized,
        ) && *final(ctx) == *old(ctx),
        !(old(ctx).market.status is Closed) ==> r is Err,
{
    if ctx.market.admin != ctx.admin {
        return Err(ErrorCode::Unauthorized);
    }
    match ctx.market.status {
        MarketStatus::Closed => {},
        _ => {
            return Err(ErrorCode::MarketNotClosed);
        },
    }
    if winning_outcome as usize >= ctx.market.outcomes.len() {
        return Err(ErrorCode::InvalidOutcomeIndex);
    }
    ctx.market.status = MarketStatus::Settled;
    ctx.market.winning_outcome = Some(winning_outcome);
    Ok(())
}

/// What looking up a market needs.
#[derive(Debug)]
pub struct GetMarketInfo {
    /// Who asks.
    pub admin: Pubkey,
    pub state: State,
    pub market: Market,
}

/// Hands out a copy of the market in `ctx`, provided that the registry knows
/// a market under `market_pubkey`.
pub fn get_market_info(ctx: &GetMarketInfo, market_pubkey: Pubkey) -> (r: Result<Market, ErrorCode>)
    ensures
        match r {
            Ok(info) => ctx.state@.is_market(market_pubkey) && info@ == ctx.market@,
            Err(e) => !ctx.state@.is_market(market_pubkey) && e == ErrorCode::MarketNotFound,
        },
{
    if !ctx.state.is_market(&market_pubkey) {
        return Err(ErrorCode::MarketNotFound);
    }
    Ok(ctx.market.clone())
}

} // verus!
