//! Account records: balances, delegation on both sides, and voting power.

use vstd::prelude::*;
use crate::address::Address;
use crate::amount::{Amount, saturate};
use crate::amount_map::{AmountMap, sum_of};

verus! {

/// An outgoing delegation: the target and the delegator's shares.
#[derive(Clone, Copy, Debug, PartialEq, Eq, Structural)]
pub struct Delegation {
    /// the account that the shares are delegated to
    pub address: Address,
    /// the delegator's shares, kept equal to its current shares
    pub shares: Amount,
    /// time of the last delegation
    pub tm: u64,
}

/// A reservation for unstaking, already taken off `staked` and `shares`.
#[derive(Clone, Copy, Debug, PartialEq, Eq, Structural)]
pub struct ScheduledUnstake {
    /// amount being unstaked
    pub amount: Amount,
    /// shares being unstaked
    pub shares: Amount,
    /// time the unstake is scheduled for
    pub tm: u64,
}

/// One account of the ledger.
pub struct Wallet {
    pub address: Address,
    pub vested: bool,
    pub vested_amount: Option<Amount>,
    /// deposited, never withdrew, and holds no vested deposit
    pub supporter: bool,
    pub deposited: Amount,
    pub withdrawn: Amount,
    pub staked: Amount,
    pub scheduled_unstake: Option<ScheduledUnstake>,
    pub shares: Amount,
    pub delegates: Option<Delegation>,
    /// incoming delegations: delegator to its shares
    pub delegated: AmountMap,
    pub voting_power: Amount,
    /// number of proposals voted on
    pub votes: u64,
    pub rewards: Amount,
    pub created_at: u64,
    pub updated_at: u64,
}

/// The value of a `Wallet`.
pub struct WalletView {
    pub address: Address,
    pub vested: bool,
    pub vested_amount: Option<Amount>,
    pub supporter: bool,
    pub deposited: Amount,
    pub withdrawn: Amount,
    pub staked: Amount,
    pub scheduled_unstake: Option<ScheduledUnstake>,
    pub shares: Amount,
    pub delegates: Option<Delegation>,
    pub delegated: Seq<(Address, Amount)>,
    pub voting_power: Amount,
    pub votes: u64,
    pub rewards: Amount,
    pub created_at: u64,
    pub updated_at: u64,
}

impl View for Wallet {
    type V = WalletView;

    open spec fn view(&self) -> WalletView {
        WalletView {
            address: self.address,
            vested: self.vested,
            vested_amount: self.vested_amount,
            supporter: self.supporter,
            deposited: self.deposited,
            withdrawn: self.withdrawn,
            staked: self.staked,
            scheduled_unstake: self.scheduled_unstake,
            shares: self.shares,
            delegates: self.delegates,
            delegated: self.delegated@,
            voting_power: self.voting_power,
            votes: self.votes,
            rewards: self.rewards,
            created_at: self.created_at,
            updated_at: self.updated_at,
        }
    }
}

/// Shares of one's own that count for voting: none while delegating.
pub open spec fn own_votes(w: WalletView) -> nat {
    if w.delegates is Some {
        0
    } else {
        w.shares@
    }
}

/// Voting power: own shares unless delegating, plus every incoming
/// delegation, cut short at the largest amount.
pub open spec fn voting_power_of(w: WalletView) -> Amount {
    Amount::from_nat(saturate(own_votes(w) + sum_of(w.delegated)))
}

/// `w` with its voting power derived anew.
pub open spec fn with_voting_power(w: WalletView) -> WalletView {
    WalletView { voting_power: voting_power_of(w), ..w }
}

/// A fresh account first seen at time `tm`.
pub open spec fn new_wallet(address: Address, tm: u64) -> WalletView {
    WalletView {
        address,
        vested: false,
        vested_amount: None,
        supporter: false,
        deposited: Amount::from_nat(0),
        withdrawn: Amount::from_nat(0),
        staked: Amount::from_nat(0),
        scheduled_unstake: None,
        shares: Amount::from_nat(0),
        delegates: None,
        delegated: Seq::empty(),
        voting_power: Amount::from_nat(0),
        votes: 0,
        rewards: Amount::from_nat(0),
        created_at: tm,
        updated_at: tm,
    }
}

impl Wallet {
    /// A fresh account first seen at time `tm`.
    pub fn new(address: Address, tm: u64) -> (r: Wallet)
        ensures
            r@ == new_wallet(address, tm),
    {
        Wallet {
            address,
            vested: false,
            vested_amount: None,
            supporter: false,
            deposited: Amount::zero(),
            withdrawn: Amount::zero(),
            staked: Amount::zero(),
            scheduled_unstake: None,
            shares: Amount::zero(),
            delegates: None,
            delegated: AmountMap::new(),
            voting_power: Amount::zero(),
            votes: 0,
            rewards: Amount::zero(),
            created_at: tm,
            updated_at: tm,
        }
    }

    /// Derives the voting power anew from shares, delegation and incoming
    /// delegations.
    pub fn update_voting_power(&mut self)
        ensures
            final(self)@ == with_voting_power(old(self)@),
    {
        let base = if self.delegates.is_some() {
            Amount::zero()
        } else {
            self.shares
        };
        self.voting_power = self.delegated.saturating_sum(base);
    }
}

} // verus!
