use betting_service::{
    add_admin, claim_reward, close_market, create_market, get_admin_info, get_market_info,
    get_user_info, initialize, place_bet, settle_market, ClaimReward, CloseMarket, CreateMarket,
    ErrorCode, GetAdminInfo, GetMarketInfo, GetUserInfo, Initialize, Market, MarketStatus,
    MarketType, ModifyAdmins, Outcome, Payout, PlaceBet, Pubkey, SettleMarket, StakeMap, State,
    User, UserBet, Wallet,
};

fn key(n: u8) -> Pubkey {
    Pubkey::new([n; 32])
}

fn admin() -> Pubkey {
    key(1)
}

fn market_key() -> Pubkey {
    key(200)
}

fn state_with_admin() -> State {
    let mut ctx = Initialize { state: State::new() };
    assert_eq!(initialize(&mut ctx, admin()), Ok(()));
    ctx.state
}

fn blank_market() -> Market {
    Market {
        admin: key(0),
        market_title: String::new(),
        market_description: String::new(),
        market_type: MarketType::Custom,
        tokens: None,
        opening_date: 0,
        closing_date: 0,
        settlement_date: 0,
        commission_percentage: 0,
        min_bet: 0,
        max_bet: 0,
        max_cumulative_bet: 0,
        total_bets: 0,
        status: MarketStatus::Opened,
        winning_outcome: None,
        outcomes: Vec::new(),
        user_bets: StakeMap::new(),
    }
}

/// An open market of the administrator with `outcomes` outcomes, a
/// commission of 10 percent, bets from 10 to 1000, at most 1500 per user,
/// open from time 100 to time 200.
fn open_market(outcomes: u8) -> Market {
    let mut ctx = CreateMarket {
        market_key: market_key(),
        market: blank_market(),
        admin: admin(),
        state: state_with_admin(),
    };
    let made = create_market(
        &mut ctx,
        String::from("Final"),
        String::from("Who wins the final?"),
        MarketType::Hilo,
        None,
        100,
        200,
        300,
        10,
        10,
        1000,
        1500,
    );
    assert_eq!(made, Ok(market_key()));
    let mut market = ctx.market;
    for i in 0..outcomes {
        market.outcomes.push(Outcome::new(i));
    }
    assert!(market.is_well_formed());
    market
}

fn new_user(who: Pubkey) -> User {
    User { address: who, total_bets: 0, total_amount_bet: 0, bets: Vec::new() }
}

fn bet_ctx(market: Market, who: Pubkey, balance: u64) -> PlaceBet {
    PlaceBet {
        market_key: market_key(),
        market,
        user: new_user(who),
        signer: Wallet { key: who, balance },
        market_pool: Wallet { key: key(201), balance: 0 },
    }
}

/// Places a bet that must go through and hands the market back.
fn bet(market: Market, who: Pubkey, outcome: u8, amount: u64) -> Market {
    let mut ctx = bet_ctx(market, who, amount);
    assert_eq!(place_bet(&mut ctx, outcome, amount, 150), Ok(()));
    assert!(ctx.market.is_well_formed());
    ctx.market
}

fn close(market: Market) -> Market {
    let mut ctx = CloseMarket { market, admin: admin(), state: state_with_admin() };
    assert_eq!(close_market(&mut ctx), Ok(()));
    ctx.market
}

fn settle(market: Market, winner: u8) -> Market {
    let mut ctx = SettleMarket { market: close(market), admin: admin() };
    assert_eq!(settle_market(&mut ctx, winner), Ok(()));
    assert!(ctx.market.is_well_formed());
    ctx.market
}

fn claim_ctx(market: Market, who: Pubkey, pool: u64) -> ClaimReward {
    ClaimReward {
        market,
        user: Wallet { key: who, balance: 5 },
        market_pool: Wallet { key: key(201), balance: pool },
        fee_collector: Wallet { key: key(202), balance: 7 },
    }
}

fn pool_of(market: &Market) -> u64 {
    market.outcomes.iter().map(|o| o.total_bets).sum()
}

fn staked_in(market: &Market) -> u64 {
    market.user_bets.entries().iter().map(|e| e.amount).sum()
}

#[test]
fn pubkeys_are_equal_when_all_bytes_agree() {
    let mut bytes = [9u8; 32];
    assert_eq!(Pubkey::new(bytes), key(9));
    bytes[31] = 8;
    assert_ne!(Pubkey::new(bytes), key(9));
    bytes[31] = 9;
    bytes[0] = 8;
    assert_ne!(Pubkey::new(bytes), key(9));
}

#[test]
fn stake_map_set_get_remove() {
    let mut book = StakeMap::new();
    assert_eq!(book.get(&key(1)), None);
    assert_eq!(book.checked_total(), Some(0));
    book.set(key(1), 10);
    book.set(key(2), 20);
    book.set(key(1), 15);
    assert_eq!(book.get(&key(1)), Some(15));
    assert_eq!(book.get(&key(2)), Some(20));
    assert!(book.contains_key(&key(2)));
    assert!(!book.contains_key(&key(3)));
    assert_eq!(book.checked_total(), Some(35));
    assert_eq!(book.entries().len(), 2);
    assert!(book.all_within(20));
    assert!(!book.all_within(19));
    assert_eq!(book.remove(&key(1)), Some(15));
    assert_eq!(book.remove(&key(1)), None);
    assert_eq!(book.get(&key(1)), None);
    assert_eq!(book.checked_total(), Some(20));
    let copy = book.clone();
    assert_eq!(copy.get(&key(2)), Some(20));
    assert_eq!(copy.entries().len(), 1);
}

#[test]
fn stake_map_total_that_does_not_fit() {
    let mut book = StakeMap::new();
    book.set(key(1), u64::MAX);
    assert_eq!(book.checked_total(), Some(u64::MAX));
    book.set(key(2), 1);
    assert_eq!(book.checked_total(), None);
}

#[test]
fn initialize_enters_the_first_admin() {
    let mut ctx = Initialize { state: State::new() };
    ctx.state.markets.push(key(50));
    assert_eq!(initialize(&mut ctx, admin()), Ok(()));
    assert_eq!(ctx.state.admins, vec![admin()]);
    assert!(ctx.state.markets.is_empty());
    assert!(ctx.state.is_admin(&admin()));
    assert!(!ctx.state.is_admin(&key(2)));
}

#[test]
fn add_admin_needs_an_admin() {
    let mut ctx = ModifyAdmins { state: state_with_admin(), caller: key(2) };
    assert_eq!(add_admin(&mut ctx, key(3)), Err(ErrorCode::Unauthorized));
    assert_eq!(ctx.state.admins, vec![admin()]);
    ctx.caller = admin();
    assert_eq!(add_admin(&mut ctx, key(3)), Ok(()));
    assert_eq!(ctx.state.admins, vec![admin(), key(3)]);
    ctx.caller = key(3);
    assert_eq!(add_admin(&mut ctx, key(4)), Ok(()));
    assert_eq!(ctx.state.admins, vec![admin(), key(3), key(4)]);
}

#[test]
fn get_admin_info_finds_admins_only() {
    let ctx = GetAdminInfo { state: state_with_admin() };
    let info = get_admin_info(&ctx, admin()).unwrap();
    assert_eq!(info.admin_pubkey, admin());
    assert!(info.is_active);
    assert_eq!(get_admin_info(&ctx, key(2)), Err(ErrorCode::AdminNotFound));
}

#[test]
fn create_market_needs_an_admin() {
    let mut ctx = CreateMarket {
        market_key: market_key(),
        market: blank_market(),
        admin: key(2),
        state: state_with_admin(),
    };
    let made = create_market(
        &mut ctx,
        String::from("t"),
        String::from("d"),
        MarketType::Hilo,
        None,
        1,
        2,
        3,
        4,
        5,
        6,
        7,
    );
    assert_eq!(made, Err(ErrorCode::Unauthorized));
    assert!(ctx.state.markets.is_empty());
    assert_eq!(ctx.market.market_title, "");
    assert_eq!(ctx.market.min_bet, 0);
}

#[test]
fn create_market_fills_in_the_terms() {
    let mut ctx = CreateMarket {
        market_key: market_key(),
        market: blank_market(),
        admin: admin(),
        state: state_with_admin(),
    };
    ctx.market.status = MarketStatus::Settled;
    ctx.market.winning_outcome = Some(3);
    ctx.market.total_bets = 99;
    ctx.market.outcomes.push(Outcome::new(0));
    ctx.market.user_bets.set(key(9), 1);
    let made = create_market(
        &mut ctx,
        String::from("Final"),
        String::from("Who wins?"),
        MarketType::TokenFight,
        Some([key(7), key(8)]),
        -5,
        20,
        30,
        12,
        40,
        50,
        60,
    );
    assert_eq!(made, Ok(market_key()));
    let m = &ctx.market;
    assert_eq!(m.admin, admin());
    assert_eq!(m.market_title, "Final");
    assert_eq!(m.market_description, "Who wins?");
    assert_eq!(m.market_type, MarketType::TokenFight);
    assert_eq!(m.tokens, Some([key(7), key(8)]));
    assert_eq!(m.opening_date, -5);
    assert_eq!(m.closing_date, 20);
    assert_eq!(m.settlement_date, 30);
    assert_eq!(m.commission_percentage, 12);
    assert_eq!(m.min_bet, 40);
    assert_eq!(m.max_bet, 50);
    assert_eq!(m.max_cumulative_bet, 60);
    assert_eq!(m.total_bets, 0);
    assert_eq!(m.status, MarketStatus::Opened);
    assert_eq!(m.winning_outcome, None);
    assert!(m.outcomes.is_empty());
    assert!(m.user_bets.entries().is_empty());
    assert!(m.is_well_formed());
    assert_eq!(ctx.state.markets, vec![market_key()]);
    assert!(ctx.state.is_market(&market_key()));
    assert_eq!(ctx.state.admins, vec![admin()]);
}

#[test]
fn get_market_info_copies_a_known_market() {
    let mut state = state_with_admin();
    let market = bet(open_market(2), key(10), 1, 30);
    let ctx = GetMarketInfo { admin: admin(), state: State::new(), market: market.clone() };
    assert!(matches!(get_market_info(&ctx, market_key()), Err(ErrorCode::MarketNotFound)));
    state.markets.push(market_key());
    let ctx = GetMarketInfo { admin: admin(), state, market };
    let info = get_market_info(&ctx, market_key()).unwrap();
    assert_eq!(info.admin, admin());
    assert_eq!(info.market_title, "Final");
    assert_eq!(info.market_description, "Who wins the final?");
    assert_eq!(info.market_type, MarketType::Hilo);
    assert_eq!(info.tokens, None);
    assert_eq!((info.opening_date, info.closing_date, info.settlement_date), (100, 200, 300));
    assert_eq!(info.commission_percentage, 10);
    assert_eq!((info.min_bet, info.max_bet, info.max_cumulative_bet), (10, 1000, 1500));
    assert_eq!(info.status, MarketStatus::Opened);
    assert_eq!(info.winning_outcome, None);
    assert_eq!(info.outcomes.len(), 2);
    assert_eq!(info.outcomes[0].index, 0);
    assert_eq!(info.outcomes[1].index, 1);
    assert_eq!(info.outcomes[1].total_bets, 30);
    assert_eq!(info.outcomes[1].user_bets.get(&key(10)), Some(30));
    assert_eq!(info.user_bets.get(&key(10)), Some(30));
    assert!(matches!(get_market_info(&ctx, key(77)), Err(ErrorCode::MarketNotFound)));
}

#[test]
fn get_user_info_copies_the_record_of_the_user() {
    let mut user = new_user(key(10));
    user.total_bets = 2;
    user.total_amount_bet = 70;
    user.bets.push(UserBet { market: market_key(), outcome_index: 0, amount: 30 });
    user.bets.push(UserBet { market: market_key(), outcome_index: 1, amount: 40 });
    let ctx = GetUserInfo { user };
    let info = get_user_info(&ctx, key(10)).unwrap();
    assert_eq!(info.address, key(10));
    assert_eq!(info.total_bets, 2);
    assert_eq!(info.total_amount_bet, 70);
    assert_eq!(
        info.bets,
        vec![
            UserBet { market: market_key(), outcome_index: 0, amount: 30 },
            UserBet { market: market_key(), outcome_index: 1, amount: 40 },
        ]
    );
    assert!(matches!(get_user_info(&ctx, key(11)), Err(ErrorCode::UserNotFound)));
}

#[test]
fn place_bet_records_the_stake_everywhere() {
    let mut ctx = bet_ctx(open_market(2), key(10), 500);
    ctx.market_pool.balance = 40;
    assert!(ctx.can_carry(100));
    assert_eq!(place_bet(&mut ctx, 1, 100, 150), Ok(()));
    assert_eq!(ctx.market.user_bets.get(&key(10)), Some(100));
    assert_eq!(ctx.market.outcomes[1].total_bets, 100);
    assert_eq!(ctx.market.outcomes[1].user_bets.get(&key(10)), Some(100));
    assert_eq!(ctx.market.outcomes[0].total_bets, 0);
    assert_eq!(ctx.market.outcomes[0].user_bets.get(&key(10)), None);
    assert_eq!(ctx.market.total_bets, 0);
    assert_eq!(ctx.signer, Wallet { key: key(10), balance: 400 });
    assert_eq!(ctx.market_pool, Wallet { key: key(201), balance: 140 });
    assert_eq!(ctx.user.total_bets, 1);
    assert_eq!(ctx.user.total_amount_bet, 100);
    assert_eq!(ctx.user.bets, vec![UserBet { market: market_key(), outcome_index: 1, amount: 100 }]);

    assert_eq!(place_bet(&mut ctx, 0, 50, 200), Ok(()));
    assert_eq!(ctx.market.user_bets.get(&key(10)), Some(150));
    assert_eq!(ctx.market.outcomes[0].total_bets, 50);
    assert_eq!(ctx.market.outcomes[0].user_bets.get(&key(10)), Some(50));
    assert_eq!(ctx.market.outcomes[1].total_bets, 100);
    assert_eq!(ctx.signer.balance, 350);
    assert_eq!(ctx.market_pool.balance, 190);
    assert_eq!(ctx.user.total_bets, 2);
    assert_eq!(ctx.user.total_amount_bet, 150);
    assert_eq!(ctx.user.bets.len(), 2);
    assert_eq!(ctx.user.bets[1], UserBet { market: market_key(), outcome_index: 0, amount: 50 });
    assert!(ctx.market.is_well_formed());
}

#[test]
fn bets_keep_pools_and_stakes_in_step() {
    let mut market = open_market(3);
    let bets = [(10u8, 0u8, 300u64), (11, 1, 250), (10, 2, 40), (12, 1, 1000), (11, 1, 10)];
    let mut sum = 0;
    for (who, outcome, amount) in bets {
        market = bet(market, key(who), outcome, amount);
        sum += amount;
        assert_eq!(pool_of(&market), sum);
        assert_eq!(staked_in(&market), sum);
    }
    assert_eq!(market.outcomes[1].total_bets, 1260);
    assert_eq!(market.user_bets.get(&key(10)), Some(340));
    assert_eq!(market.user_bets.get(&key(11)), Some(260));
}

#[test]
fn place_bet_on_a_market_that_is_not_open() {
    let mut ctx = bet_ctx(close(open_market(2)), key(10), 500);
    assert_eq!(place_bet(&mut ctx, 0, 100, 150), Err(ErrorCode::MarketClosed));
    let mut ctx = bet_ctx(settle(open_market(2), 0), key(10), 500);
    assert_eq!(place_bet(&mut ctx, 0, 100, 150), Err(ErrorCode::MarketClosed));
    assert_eq!(ctx.signer.balance, 500);
}

#[test]
fn place_bet_outside_the_betting_period() {
    let mut ctx = bet_ctx(open_market(2), key(10), 500);
    assert_eq!(place_bet(&mut ctx, 0, 100, 99), Err(ErrorCode::BettingPeriodOver));
    assert_eq!(place_bet(&mut ctx, 0, 100, 201), Err(ErrorCode::BettingPeriodOver));
    assert_eq!(ctx.market.validate_bet_window(99), Err(ErrorCode::BettingPeriodOver));
    assert_eq!(ctx.market.validate_bet_window(100), Ok(()));
    assert_eq!(ctx.market.validate_bet_window(200), Ok(()));
    assert_eq!(ctx.market.validate_bet_window(201), Err(ErrorCode::BettingPeriodOver));
    assert_eq!(ctx.signer.balance, 500);
    assert_eq!(place_bet(&mut ctx, 0, 100, 100), Ok(()));
    assert_eq!(place_bet(&mut ctx, 0, 100, 200), Ok(()));
    assert_eq!(ctx.signer.balance, 300);
}

#[test]
fn place_bet_outside_the_limits_changes_nothing() {
    let mut ctx = bet_ctx(open_market(2), key(10), 5000);
    assert_eq!(place_bet(&mut ctx, 0, 9, 150), Err(ErrorCode::BetTooSmall));
    assert_eq!(place_bet(&mut ctx, 0, 1001, 150), Err(ErrorCode::BetTooLarge));
    assert_eq!(place_bet(&mut ctx, 0, 10, 150), Ok(()));
    assert_eq!(place_bet(&mut ctx, 0, 1000, 150), Ok(()));
    assert_eq!(place_bet(&mut ctx, 1, 491, 150), Err(ErrorCode::MaxCumulativeBetExceeded));
    assert_eq!(ctx.market.user_bets.get(&key(10)), Some(1010));
    assert_eq!(ctx.market.outcomes[0].total_bets, 1010);
    assert_eq!(ctx.market.outcomes[1].total_bets, 0);
    assert_eq!(ctx.market.outcomes[1].user_bets.get(&key(10)), None);
    assert_eq!(ctx.signer.balance, 3990);
    assert_eq!(ctx.market_pool.balance, 1010);
    assert_eq!(ctx.user.total_bets, 2);
    assert_eq!(ctx.user.total_amount_bet, 1010);
    assert_eq!(ctx.user.bets.len(), 2);
    assert_eq!(place_bet(&mut ctx, 1, 490, 150), Ok(()));
    assert_eq!(ctx.market.user_bets.get(&key(10)), Some(1500));
    assert_eq!(place_bet(&mut ctx, 1, 10, 150), Err(ErrorCode::MaxCumulativeBetExceeded));
    assert!(ctx.market.is_well_formed());
}

#[test]
fn place_bet_on_an_outcome_that_is_not_there() {
    let mut ctx = bet_ctx(open_market(2), key(10), 500);
    assert_eq!(place_bet(&mut ctx, 2, 100, 150), Err(ErrorCode::InvalidOutcomeIndex));
    assert_eq!(place_bet(&mut ctx, 255, 100, 150), Err(ErrorCode::InvalidOutcomeIndex));
    assert_eq!(ctx.market.user_bets.get(&key(10)), None);
    assert!(ctx.market.user_bets.entries().is_empty());
    assert_eq!(pool_of(&ctx.market), 0);
    assert_eq!(ctx.signer.balance, 500);
    assert_eq!(ctx.market_pool.balance, 0);
    assert_eq!(ctx.user.total_bets, 0);
    assert!(ctx.user.bets.is_empty());
    let mut ctx = bet_ctx(open_market(0), key(10), 500);
    assert_eq!(place_bet(&mut ctx, 0, 100, 150), Err(ErrorCode::InvalidOutcomeIndex));
}

#[test]
fn place_bet_reports_the_first_condition_that_fails() {
    // Closed before anything else.
    let mut ctx = bet_ctx(close(open_market(2)), key(10), 500);
    assert_eq!(place_bet(&mut ctx, 9, 1, 999), Err(ErrorCode::MarketClosed));
    // Time before size.
    let mut ctx = bet_ctx(open_market(2), key(10), 5000);
    assert_eq!(place_bet(&mut ctx, 9, 1, 999), Err(ErrorCode::BettingPeriodOver));
    // Size before the cumulative limit and the index.
    assert_eq!(place_bet(&mut ctx, 9, 1, 150), Err(ErrorCode::BetTooSmall));
    assert_eq!(place_bet(&mut ctx, 9, 2000, 150), Err(ErrorCode::BetTooLarge));
    // The cumulative limit before the index.
    assert_eq!(place_bet(&mut ctx, 0, 1000, 150), Ok(()));
    assert_eq!(place_bet(&mut ctx, 9, 600, 150), Err(ErrorCode::MaxCumulativeBetExceeded));
    assert_eq!(place_bet(&mut ctx, 9, 500, 150), Err(ErrorCode::InvalidOutcomeIndex));
    assert_eq!(ctx.market.check_bet(&key(10), 9, 600, 150), Err(ErrorCode::MaxCumulativeBetExceeded));
    assert_eq!(ctx.market.check_bet(&key(10), 1, 500, 150), Ok(()));
    assert_eq!(ctx.market.user_bets.get(&key(10)), Some(1000));
}

#[test]
fn cumulative_limit_counts_all_outcomes_of_one_user_only() {
    let mut market = open_market(2);
    market = bet(market, key(10), 0, 1000);
    market = bet(market, key(11), 0, 1000);
    let mut ctx = bet_ctx(market, key(10), 5000);
    assert_eq!(place_bet(&mut ctx, 1, 501, 150), Err(ErrorCode::MaxCumulativeBetExceeded));
    assert_eq!(place_bet(&mut ctx, 1, 500, 150), Ok(()));
    let mut ctx = bet_ctx(ctx.market, key(11), 5000);
    assert_eq!(place_bet(&mut ctx, 1, 500, 150), Ok(()));
}

#[test]
fn a_bet_that_the_balances_cannot_carry() {
    let mut ctx = bet_ctx(open_market(2), key(10), 99);
    assert!(!ctx.can_carry(100));
    assert!(ctx.can_carry(99));
    ctx.signer.balance = 500;
    ctx.market_pool.balance = u64::MAX - 99;
    assert!(!ctx.can_carry(100));
    ctx.market_pool.balance = u64::MAX - 100;
    assert!(ctx.can_carry(100));
    ctx.user.total_amount_bet = u64::MAX - 99;
    assert!(!ctx.can_carry(100));
    ctx.user.total_amount_bet = 0;
    ctx.user.total_bets = u64::MAX;
    assert!(!ctx.can_carry(100));
}

#[test]
fn close_market_by_an_admin() {
    let mut ctx = CloseMarket { market: open_market(2), admin: key(2), state: state_with_admin() };
    assert_eq!(close_market(&mut ctx), Err(ErrorCode::Unauthorized));
    assert_eq!(ctx.market.status, MarketStatus::Opened);
    ctx.admin = admin();
    assert_eq!(close_market(&mut ctx), Ok(()));
    assert_eq!(ctx.market.status, MarketStatus::Closed);
    assert_eq!(ctx.market.winning_outcome, None);
    assert_eq!(close_market(&mut ctx), Err(ErrorCode::MarketClosed));
    assert_eq!(ctx.market.status, MarketStatus::Closed);
    let mut ctx = CloseMarket { market: settle(open_market(2), 1), admin: admin(), state: state_with_admin() };
    assert_eq!(close_market(&mut ctx), Err(ErrorCode::MarketClosed));
    assert_eq!(ctx.market.status, MarketStatus::Settled);
}

#[test]
fn settle_market_by_anyone_but_its_admin() {
    let mut state = state_with_admin();
    state.admins.push(key(2));
    let mut ctx = SettleMarket { market: close(open_market(2)), admin: key(2) };
    assert_eq!(settle_market(&mut ctx, 0), Err(ErrorCode::Unauthorized));
    assert_eq!(ctx.market.status, MarketStatus::Closed);
    assert_eq!(ctx.market.winning_outcome, None);
    // Unauthorized comes first, whatever the status and the index.
    let mut ctx = SettleMarket { market: open_market(2), admin: key(2) };
    assert_eq!(settle_market(&mut ctx, 9), Err(ErrorCode::Unauthorized));
    assert_eq!(ctx.market.status, MarketStatus::Opened);
}

#[test]
fn settle_market_needs_a_closed_market() {
    let mut ctx = SettleMarket { market: open_market(2), admin: admin() };
    assert_eq!(settle_market(&mut ctx, 0), Err(ErrorCode::MarketNotClosed));
    assert_eq!(ctx.market.status, MarketStatus::Opened);
    assert_eq!(ctx.market.winning_outcome, None);
    let mut ctx = SettleMarket { market: close(open_market(2)), admin: admin() };
    assert_eq!(settle_market(&mut ctx, 1), Ok(()));
    assert_eq!(ctx.market.status, MarketStatus::Settled);
    assert_eq!(ctx.market.winning_outcome, Some(1));
    // A settled market stays as it is.
    assert_eq!(settle_market(&mut ctx, 0), Err(ErrorCode::MarketNotClosed));
    assert_eq!(ctx.market.status, MarketStatus::Settled);
    assert_eq!(ctx.market.winning_outcome, Some(1));
}

#[test]
fn settle_market_needs_an_outcome_of_the_market() {
    let mut ctx = SettleMarket { market: close(open_market(2)), admin: admin() };
    assert_eq!(settle_market(&mut ctx, 2), Err(ErrorCode::InvalidOutcomeIndex));
    assert_eq!(ctx.market.status, MarketStatus::Closed);
    assert_eq!(ctx.market.winning_outcome, None);
    let mut ctx = SettleMarket { market: open_market(2), admin: admin() };
    assert_eq!(settle_market(&mut ctx, 2), Err(ErrorCode::MarketNotClosed));
}

/// Two outcomes; A has staked 300 on outcome 0, B and C together 700 on
/// outcome 1.
fn worked_market() -> Market {
    let mut market = open_market(2);
    market = bet(market, key(10), 0, 300);
    market = bet(market, key(11), 1, 500);
    market = bet(market, key(12), 1, 200);
    market
}

#[test]
fn claim_pays_stake_and_share_less_commission() {
    let mut ctx = claim_ctx(settle(worked_market(), 0), key(10), 1000);
    assert_eq!(
        ctx.market.compute_payout(&key(10)),
        Ok(Payout { reward: 1000, commission: 100, net_reward: 900 })
    );
    assert!(ctx.can_pay(&Payout { reward: 1000, commission: 100, net_reward: 900 }));
    assert_eq!(claim_reward(&mut ctx), Ok(Payout { reward: 1000, commission: 100, net_reward: 900 }));
    assert_eq!(ctx.user, Wallet { key: key(10), balance: 905 });
    assert_eq!(ctx.fee_collector, Wallet { key: key(202), balance: 107 });
    assert_eq!(ctx.market_pool, Wallet { key: key(201), balance: 0 });
    assert_eq!(ctx.market.user_bets.get(&key(10)), None);
    assert_eq!(ctx.market.user_bets.get(&key(11)), Some(500));
    assert_eq!(ctx.market.outcomes[0].total_bets, 300);
    assert_eq!(ctx.market.outcomes[0].user_bets.get(&key(10)), Some(300));
    assert_eq!(ctx.market.status, MarketStatus::Settled);
    assert_eq!(ctx.market.winning_outcome, Some(0));
    assert!(ctx.market.is_well_formed());
}

#[test]
fn claim_twice_pays_once() {
    let mut ctx = claim_ctx(settle(worked_market(), 0), key(10), 1000);
    assert!(claim_reward(&mut ctx).is_ok());
    assert_eq!(claim_reward(&mut ctx), Err(ErrorCode::NoBetPlaced));
    assert_eq!(ctx.user.balance, 905);
    assert_eq!(ctx.fee_collector.balance, 107);
    assert_eq!(ctx.market_pool.balance, 0);
}

#[test]
fn claim_shares_in_proportion_and_rounds_down() {
    let mut market = open_market(3);
    market = bet(market, key(10), 0, 100);
    market = bet(market, key(11), 0, 200);
    market = bet(market, key(12), 1, 50);
    market = bet(market, key(13), 2, 50);
    let market = settle(market, 0);
    // 100 * 100 / 300 = 33, 200 * 100 / 300 = 66.
    assert_eq!(
        market.compute_payout(&key(10)),
        Ok(Payout { reward: 133, commission: 13, net_reward: 120 })
    );
    assert_eq!(
        market.compute_payout(&key(11)),
        Ok(Payout { reward: 266, commission: 26, net_reward: 240 })
    );
    let mut ctx = claim_ctx(market, key(11), 400);
    assert_eq!(claim_reward(&mut ctx), Ok(Payout { reward: 266, commission: 26, net_reward: 240 }));
    assert_eq!(ctx.market_pool.balance, 134);
    let mut ctx = claim_ctx(ctx.market, key(10), 134);
    assert_eq!(claim_reward(&mut ctx), Ok(Payout { reward: 133, commission: 13, net_reward: 120 }));
    assert_eq!(ctx.market_pool.balance, 1);
}

#[test]
fn claim_with_nothing_staked_on_the_losers() {
    let mut market = open_market(2);
    market = bet(market, key(10), 1, 250);
    market = bet(market, key(11), 1, 55);
    let mut ctx = claim_ctx(settle(market, 1), key(11), 305);
    assert_eq!(claim_reward(&mut ctx), Ok(Payout { reward: 55, commission: 5, net_reward: 50 }));
    assert_eq!(ctx.user.balance, 55);
    let mut ctx = claim_ctx(ctx.market, key(10), 250);
    assert_eq!(claim_reward(&mut ctx), Ok(Payout { reward: 250, commission: 25, net_reward: 225 }));
    assert_eq!(ctx.market_pool.balance, 0);
}

#[test]
fn claim_with_products_beyond_64_bits() {
    let big = 1u64 << 62;
    let mut market = open_market(2);
    market.min_bet = 0;
    market.max_bet = u64::MAX;
    market.max_cumulative_bet = u64::MAX;
    market.commission_percentage = 100;
    market = bet(market, key(10), 0, big);
    market = bet(market, key(11), 0, big);
    market = bet(market, key(12), 1, big + 1);
    let market = settle(market, 0);
    // big * (big + 1) / (2 * big) = big / 2, the half being dropped.
    let reward = big / 2 + big;
    assert_eq!(
        market.compute_payout(&key(10)),
        Ok(Payout { reward, commission: reward, net_reward: 0 })
    );
    let mut ctx = claim_ctx(market, key(10), u64::MAX);
    ctx.market.commission_percentage = 99;
    // reward * 99 does not fit in 64 bits.
    let fee = ((reward as u128 * 99) / 100) as u64;
    assert_eq!(claim_reward(&mut ctx), Ok(Payout { reward, commission: fee, net_reward: reward - fee }));
}

#[test]
fn claim_before_the_market_is_settled() {
    let mut ctx = claim_ctx(worked_market(), key(10), 1000);
    assert_eq!(claim_reward(&mut ctx), Err(ErrorCode::MarketNotSettled));
    let mut ctx = claim_ctx(close(worked_market()), key(10), 1000);
    assert_eq!(claim_reward(&mut ctx), Err(ErrorCode::MarketNotSettled));
    assert_eq!(ctx.user.balance, 5);
    assert_eq!(ctx.market_pool.balance, 1000);
    assert_eq!(ctx.market.user_bets.get(&key(10)), Some(300));
}

#[test]
fn claim_without_a_stake_in_the_market() {
    let mut ctx = claim_ctx(settle(worked_market(), 0), key(13), 1000);
    assert_eq!(claim_reward(&mut ctx), Err(ErrorCode::NoBetPlaced));
    assert_eq!(ctx.user.balance, 5);
    assert_eq!(ctx.fee_collector.balance, 7);
    assert_eq!(ctx.market_pool.balance, 1000);
}

#[test]
fn claim_without_a_recorded_winner() {
    let mut market = worked_market();
    market.status = MarketStatus::Settled;
    assert!(market.is_well_formed());
    let mut ctx = claim_ctx(market, key(10), 1000);
    assert_eq!(claim_reward(&mut ctx), Err(ErrorCode::NoWinnerSet));
    assert_eq!(ctx.market.user_bets.get(&key(10)), Some(300));
    // A user without a stake is told so first.
    ctx.user.key = key(13);
    assert_eq!(claim_reward(&mut ctx), Err(ErrorCode::NoBetPlaced));
}

#[test]
fn claim_by_a_loser() {
    let mut ctx = claim_ctx(settle(worked_market(), 0), key(11), 1000);
    assert_eq!(claim_reward(&mut ctx), Err(ErrorCode::NotEligibleForReward));
    assert_eq!(ctx.user.balance, 5);
    assert_eq!(ctx.market_pool.balance, 1000);
    assert_eq!(ctx.market.user_bets.get(&key(11)), Some(500));
    assert_eq!(claim_reward(&mut ctx), Err(ErrorCode::NotEligibleForReward));
}

#[test]
fn a_payout_that_the_balances_cannot_carry() {
    let payout = Payout { reward: 1000, commission: 100, net_reward: 900 };
    let mut ctx = claim_ctx(settle(worked_market(), 0), key(10), 999);
    assert!(!ctx.can_pay(&payout));
    ctx.market_pool.balance = 1000;
    assert!(ctx.can_pay(&payout));
    ctx.fee_collector.balance = u64::MAX - 99;
    assert!(!ctx.can_pay(&payout));
    ctx.fee_collector.balance = u64::MAX - 100;
    ctx.user.balance = u64::MAX - 899;
    assert!(!ctx.can_pay(&payout));
    ctx.user.balance = u64::MAX - 900;
    assert!(ctx.can_pay(&payout));
}

#[test]
fn well_formedness_is_tested_part_by_part() {
    let good = worked_market();
    assert!(good.is_well_formed());
    assert_eq!(good.pool_total(), 1000);

    let mut m = good.clone();
    m.outcomes[0].index = 1;
    assert!(!m.is_well_formed());

    let mut m = good.clone();
    m.outcomes[1].total_bets = 701;
    assert!(!m.is_well_formed());

    let mut m = good.clone();
    m.user_bets.set(key(10), 301);
    assert!(!m.is_well_formed());
    m.status = MarketStatus::Settled;
    assert!(m.is_well_formed());

    let mut m = good.clone();
    m.max_cumulative_bet = 499;
    assert!(!m.is_well_formed());

    let mut m = good.clone();
    m.winning_outcome = Some(2);
    assert!(!m.is_well_formed());
    m.winning_outcome = Some(1);
    assert!(m.is_well_formed());

    let mut m = open_market(4);
    assert!(m.is_well_formed());
    m.outcomes.push(Outcome::new(4));
    assert!(!m.is_well_formed());

    let mut m = open_market(2);
    m.max_cumulative_bet = u64::MAX;
    m.outcomes[0].total_bets = u64::MAX;
    m.outcomes[0].user_bets.set(key(10), u64::MAX);
    m.user_bets.set(key(10), u64::MAX);
    assert!(m.is_well_formed());
    m.outcomes[1].total_bets = 1;
    m.outcomes[1].user_bets.set(key(11), 1);
    m.status = MarketStatus::Settled;
    assert!(!m.is_well_formed());
}

#[test]
fn the_sizes_that_records_are_stored_in() {
    assert_eq!(Market::MAX_TITLE_LENGTH, 64);
    assert_eq!(Market::MAX_DESC_LENGTH, 256);
    assert_eq!(Market::MAX_OUTCOMES, 4);
    assert_eq!(Market::MAX_BETS, 100);
    assert_eq!(Outcome::MAX_USER_BETS, 100);
    assert_eq!(Outcome::MAX_SIZE, 4013);
    assert_eq!(Market::MAX_SIZE, 20546);
}

#[test]
fn every_refusal_has_its_words() {
    assert_eq!(ErrorCode::MarketClosed.message(), "Market is already closed.");
    assert_eq!(ErrorCode::BettingPeriodOver.message(), "Betting period is over.");
    assert_eq!(ErrorCode::BetTooSmall.message(), "Bet amount is too small.");
    assert_eq!(ErrorCode::BetTooLarge.message(), "Bet amount is too large.");
    assert_eq!(ErrorCode::MaxCumulativeBetExceeded.message(), "Maximum cumulative bet exceeded.");
    assert_eq!(ErrorCode::InvalidOutcomeIndex.message(), "Invalid outcome index.");
    assert_eq!(ErrorCode::Unauthorized.message(), "Unauthorized.");
    assert_eq!(ErrorCode::MarketNotClosed.message(), "Market is not closed.");
    assert_eq!(ErrorCode::MarketNotSettled.message(), "Market is not settled.");
    assert_eq!(ErrorCode::NoBetPlaced.message(), "No bet placed.");
    assert_eq!(ErrorCode::NoWinnerSet.message(), "No winner set.");
    assert_eq!(ErrorCode::NotEligibleForReward.message(), "Not eligible for reward.");
    assert_eq!(ErrorCode::AdminNotFound.message(), "Admin not found.");
    assert_eq!(ErrorCode::UserNotFound.message(), "User has no betting history in this market.");
    assert_eq!(ErrorCode::MarketNotFound.message(), "The specified market was not found.");
}

#[test]
fn a_new_outcome_holds_nothing() {
    let outcome = Outcome::new(3);
    assert_eq!(outcome.index, 3);
    assert_eq!(outcome.total_bets, 0);
    assert!(outcome.user_bets.entries().is_empty());
    let copy = outcome.clone();
    assert_eq!(copy.index, 3);
    assert_eq!(copy.total_bets, 0);
}

#[test]
fn payouts_never_exceed_the_pool() {
    let mut market = open_market(3);
    market.min_bet = 1;
    market = bet(market, key(10), 0, 7);
    market = bet(market, key(11), 0, 5);
    market = bet(market, key(12), 0, 1);
    market = bet(market, key(13), 1, 10);
    market = bet(market, key(14), 2, 12);
    let mut market = settle(market, 0);
    let pool = market.pool_total();
    assert_eq!(pool, 35);
    let mut paid = 0;
    for who in [10u8, 13, 11, 10, 12, 14, 11] {
        let mut ctx = claim_ctx(market, key(who), pool - paid);
        if let Ok(payout) = claim_reward(&mut ctx) {
            assert_eq!(payout.reward, payout.commission + payout.net_reward);
            paid += payout.reward;
        }
        assert!(paid <= pool);
        assert_eq!(ctx.market_pool.balance, pool - paid);
        market = ctx.market;
    }
    // 7 + 7 * 22 / 13, 5 + 5 * 22 / 13, 1 + 1 * 22 / 13.
    assert_eq!(paid, 18 + 13 + 2);
}
