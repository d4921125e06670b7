//! The betting record that is kept for each user.

use crate::error::ErrorCode;
use crate::pubkey::Pubkey;
use vstd::prelude::*;

verus! {

/// One bet as it is written into the history of a user.
#[derive(Clone, Copy, PartialEq, Eq, Debug)]
pub struct UserBet {
    /// The market the bet was placed in.
    pub market: Pubkey,
    pub outcome_index: u8,
    pub amount: u64,
}

/// What a user has staked in one market.
#[derive(Clone, Copy, PartialEq, Eq, Debug)]
pub struct UserMarketBetSummary {
    pub market_pubkey: Pubkey,
    pub total_bet: u64,
}

/// The betting record of a user.
#[derive(Debug)]
pub struct User {
    /// Whose record this is.
    pub address: Pubkey,
    /// How many bets the user has placed.
    pub total_bets: u64,
    /// The sum of all amounts the user has bet.
    pub total_amount_bet: u64,
    /// Every bet of the user, oldest first. Bets are only ever added.
    pub bets: Vec<UserBet>,
}

/// A copy of the betting record of a user, as it is handed out.
#[derive(Debug)]
pub struct UserInfo {
    pub address: Pubkey,
    pub total_bets: u64,
    pub total_amount_bet: u64,
    pub bets: Vec<UserBet>,
}

/// The betting record of a user as a mathematical value.
pub struct UserView {
    pub address: Pubkey,
    pub total_bets: u64,
    pub total_amount_bet: u64,
    pub bets: Seq<UserBet>,
}

impl View for User {
    type V = UserView;

    open spec fn view(&self) -> UserView {
        UserView {
            address: self.address,
            total_bets: self.total_bets,
            total_amount_bet: self.total_amount_bet,
            bets: self.bets@,
        }
    }
}

impl View for UserInfo {
    type V = UserView;

    open spec fn view(&self) -> UserView {
        UserView {
            address: self.address,
            total_bets: self.total_bets,
            total_amount_bet: self.total_amount_bet,
            bets: self.bets@,
        }
    }
}

impl UserView {
    /// The record after one more bet has been written into it.
    pub open spec fn with_bet(self, bet: UserBet) -> UserView {
        UserView {
            address: self.address,
            total_bets: (self.total_bets + 1) as u64,
            total_amount_bet: (self.total_amount_bet + bet.amount) as u64,
            bets: self.bets.push(bet),
        }
    }
}

/// What looking up a user's record needs.
#[derive(Debug)]
pub struct GetUserInfo {
    pub user: User,
}

/// Hands out a copy of the record in `ctx`, provided that it is the record of
/// `user_address`.
pub fn get_user_info(ctx: &GetUserInfo, user_address: Pubkey) -> (r: Result<UserInfo, ErrorCode>)
    ensures
        match r {
            Ok(info) => ctx.user.address == user_address && info@ == ctx.user@,
            Err(e) => ctx.user.address != user_address && e == ErrorCode::UserNotFound,
        },
{
    if ctx.user.address != user_address {
        return Err(ErrorCode::UserNotFound);
    }
    let mut bets: Vec<UserBet> = Vec::new();
    let mut i: usize = 0;
    while i < ctx.user.bets.len()
        invariant
            i <= ctx.user.bets@.len(),
            bets@ == ctx.user.bets@.take(i as int),
        decreases ctx.user.bets@.len() - i,
    {
        bets.push(ctx.user.bets[i]);
        assert(ctx.user.bets@.take(i + 1) =~= ctx.user.bets@.take(i as int).push(
            ctx.user.bets@[i as int],
        ));
        i += 1;
    }
    assert(ctx.user.bets@.take(i as int) =~= ctx.user.bets@);
    Ok(
        UserInfo {
            address: ctx.user.address,
            total_bets: ctx.user.total_bets,
            total_amount_bet: ctx.user.total_amount_bet,
            bets,
        },
    )
}

} // verus!
