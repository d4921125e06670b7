//! Balances that the operations move value between.

use crate::pubkey::Pubkey;
use vstd::prelude::*;

verus! {

/// A funded account: who it belongs to and what it holds.
#[derive(Clone, Copy, PartialEq, Eq, Debug)]
pub struct Wallet {
    pub key: Pubkey,
    pub balance: u64,
}

impl Wallet {
    /// The wallet of `self` after `amount` has been taken out of it.
    pub open spec fn debited(self, amount: int) -> Wallet {
        Wallet { key: self.key, balance: (self.balance - amount) as u64 }
    }

    /// The wallet of `self` after `amount` has been paid into it.
    pub open spec fn credited(self, amount: int) -> Wallet {
        Wallet { key: self.key, balance: (self.balance + amount) as u64 }
    }
}

} // verus!
