//! A pari-mutuel prediction market: users stake on the outcomes of an event;
//! once the market is settled, the stakes on the losing outcomes are shared
//! out among the winners in proportion to their stakes, less a commission.

pub mod betting;
pub mod error;
pub mod lifecycle;
pub mod market;
pub mod pubkey;
pub mod settlement;
pub mod stakes;
pub mod state;
pub mod user;
pub mod wallet;

pub use betting::{place_bet, PlaceBet};
pub use error::ErrorCode;
pub use lifecycle::{
    close_market, create_market, get_market_info, settle_market, CloseMarket, CreateMarket,
    GetMarketInfo, SettleMarket,
};
pub use market::{Market, MarketStatus, MarketType, Outcome};
pub use pubkey::Pubkey;
pub use settlement::{claim_reward, ClaimReward, Payout};
pub use stakes::{Stake, StakeMap};
pub use state::{
    add_admin, get_admin_info, initialize, AdminInfo, GetAdminInfo,
    GetUserBettingSummaryAcrossMarkets, Initialize, ModifyAdmins, State,
};
pub use user::{get_user_info, GetUserInfo, User, UserBet, UserInfo, UserMarketBetSummary};
pub use wallet::Wallet;
