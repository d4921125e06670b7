//! The registry of the service: who its administrators are and which markets
//! it has.

use crate::error::ErrorCode;
use crate::pubkey::Pubkey;
use vstd::prelude::*;

verus! {

/// The registry: the administrators and the markets of the service, each in
/// the order in which they were entered.
#[derive(Debug)]
pub struct State {
    pub admins: Vec<Pubkey>,
    pub markets: Vec<Pubkey>,
}

/// The registry as a mathematical value.
pub struct StateView {
    pub admins: Seq<Pubkey>,
    pub markets: Seq<Pubkey>,
}

impl View for State {
    type V = StateView;

    open spec fn view(&self) -> StateView {
        StateView { admins: self.admins@, markets: self.markets@ }
    }
}

impl StateView {
    /// Whether `principal` is an administrator.
    pub open spec fn is_admin(self, principal: Pubkey) -> bool {
        self.admins.contains(principal)
    }

    /// Whether a market is kept under `key`.
    pub open spec fn is_market(self, key: Pubkey) -> bool {
        self.markets.contains(key)
    }
}

/// Whether `key` occurs in `keys`.
fn contains_key(keys: &Vec<Pubkey>, key: &Pubkey) -> (r: bool)
    ensures
        r == keys@.contains(*key),
{
    let mut i: usize = 0;
    while i < keys.len()
        invariant
            i <= keys@.len(),
            forall|j: int| 0 <= j < i ==> keys@[j] != *key,
        decreases keys@.len() - i,
    {
        if keys[i] == *key {
            return true;
        }
        i += 1;
    }
    false
}

impl State {
    /// A registry with no administrator and no market.
    pub fn new() -> (state: State)
        ensures
            state@ == (StateView { admins: Seq::empty(), markets: Seq::empty() }),
    {
        State { admins: Vec::new(), markets: Vec::new() }
    }

    /// Whether `principal` is an administrator.
    pub fn is_admin(&self, principal: &Pubkey) -> (r: bool)
        ensures
            r == self@.is_admin(*principal),
    {
        contains_key(&self.admins, principal)
    }

    /// Whether a market is kept under `key`.
    pub fn is_market(&self, key: &Pubkey) -> (r: bool)
        ensures
            r == self@.is_market(*key),
    {
        contains_key(&self.markets, key)
    }
}

/// What is told about an administrator.
#[derive(Clone, Copy, PartialEq, Eq, Debug)]
pub struct AdminInfo {
    pub admin_pubkey: Pubkey,
    pub is_active: bool,
}

/// What setting up the service works on.
#[derive(Debug)]
pub struct Initialize {
    pub state: State,
}

/// What entering an administrator works on.
#[derive(Debug)]
pub struct ModifyAdmins {
    pub state: State,
    /// Who asks for the change.
    pub caller: Pubkey,
}

/// What looking up an administrator needs.
#[derive(Debug)]
pub struct GetAdminInfo {
    pub state: State,
}

/// What summing up the stakes of a user over all markets needs.
#[derive(Debug)]
pub struct GetUserBettingSummaryAcrossMarkets {
    pub state: State,
    /// The administrator who asks.
    pub admin: Pubkey,
}

/// Sets the service up: enters `admin` as an administrator, whoever asks, and
/// starts with no market. This is how the first administrator comes to be.
pub fn initialize(ctx: &mut Initialize, admin: Pubkey) -> (r: Result<(), ErrorCode>)
    ensures
        r is Ok,
        final(ctx).state@.admins == old(ctx).state@.admins.push(admin),
        final(ctx).state@.markets == Seq::<Pubkey>::empty(),
        final(ctx).state@.is_admin(admin),
{
    ctx.state.admins.push(admin);
    ctx.state.markets = Vec::new();
    proof {
        let n = old(ctx).state@.admins.len() as int;
        assert(ctx.state@.admins[n] == admin);
    }
    Ok(())
}

/// Enters `new_admin` as an administrator, provided that the caller is one.
pub fn add_admin(ctx: &mut ModifyAdmins, new_admin: Pubkey) -> (r: Result<(), ErrorCode>)
    ensures
        match r {
            Ok(()) => {
                &&& old(ctx).state@.is_admin(old(ctx).caller)
                &&& final(ctx).state@.admins == old(ctx).state@.admins.push(new_admin)
                &&& final(ctx).state@.markets == old(ctx).state@.markets
                &&& final(ctx).caller == old(ctx).caller
                &&& final(ctx).state@.is_admin(new_admin)
                &&& forall|p: Pubkey|
                    old(ctx).state@.is_admin(p) ==> #[trigger] final(ctx).state@.is_admin(p)
            },
            Err(e) => {
                &&& !old(ctx).state@.is_admin(old(ctx).caller)
                &&& e == ErrorCode::Unauthorized
                &&& *final(ctx) == *old(ctx)
            },
        },
{
    if !ctx.state.is_admin(&ctx.caller) {
        return Err(ErrorCode::Unauthorized);
    }
    ctx.state.admins.push(new_admin);
    proof {
        let before = old(ctx).state@.admins;
        let after = ctx.state@.admins;
        assert(after[before.len() as int] == new_admin);
        assert forall|p: Pubkey| before.contains(p) implies #[trigger] after.contains(p) by {
            let i = choose|i: int| 0 <= i < before.len() && before[i] == p;
            assert(after[i] == p);
        }
    }
    Ok(())
}

/// Tells about the administrator `admin_pubkey`, provided that there is one.
pub fn get_admin_info(ctx: &GetAdminInfo, admin_pubkey: Pubkey) -> (r: Result<AdminInfo, ErrorCode>)
    ensures
        match r {
            Ok(info) => {
                &&& ctx.state@.is_admin(admin_pubkey)
                &&& info.admin_pubkey == admin_pubkey
                &&& info.is_active
            },
            Err(e) => !ctx.state@.is_admin(admin_pubkey) && e == ErrorCode::AdminNotFound,
        },
{
    if !ctx.state.is_admin(&admin_pubkey) {
        return Err(ErrorCode::AdminNotFound);
    }
    Ok(AdminInfo { admin_pubkey, is_active: true })
}

} // verus!
