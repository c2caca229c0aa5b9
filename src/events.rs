//! The DAO contract events, in their current and legacy encodings.

use vstd::prelude::*;
use crate::address::{Address, TxHash};
use crate::amount::Amount;

verus! {

/// Which of the two voting contracts a proposal belongs to.
#[derive(Clone, Copy, Debug, PartialEq, Eq, Structural)]
pub enum VotingAgent {
    Primary,
    Secondary,
}

/// One event of the staking pool, voting or treasury contracts. The `V0`
/// variants are the legacy encodings, with fewer fields.
#[derive(Clone, Debug)]
pub enum Api3 {
    MintedReward { epoch_index: u64, amount: Amount, new_apr: Amount, total_stake: Amount },
    MintedRewardV0 { epoch_index: u64, amount: Amount, new_apr: Amount },
    Deposited { user: Address, amount: Amount, user_unstaked: Amount },
    DepositedV0 { user: Address, amount: Amount },
    DepositedVesting {
        user: Address,
        amount: Amount,
        start: u64,
        end: u64,
        user_unstaked: Amount,
        user_vesting: Amount,
    },
    DepositedByTimelockManager { user: Address, amount: Amount, user_unstaked: Amount },
    Withdrawn { user: Address, amount: Amount, user_unstaked: Amount },
    WithdrawnV0 { user: Address, amount: Amount },
    Staked {
        user: Address,
        amount: Amount,
        minted_shares: Amount,
        user_unstaked: Amount,
        user_shares: Amount,
        total_shares: Amount,
        total_stake: Amount,
    },
    StakedV0 { user: Address, amount: Amount, minted_shares: Amount },
    ScheduledUnstake {
        user: Address,
        amount: Amount,
        shares: Amount,
        scheduled_for: u64,
        user_shares: Amount,
    },
    ScheduledUnstakeV0 { user: Address, amount: Amount, shares: Amount, scheduled_for: u64 },
    Unstaked {
        user: Address,
        amount: Amount,
        user_unstaked: Amount,
        total_shares: Amount,
        total_stake: Amount,
    },
    UnstakedV0 { user: Address, amount: Amount },
    Delegated { from: Address, to: Address, shares: Amount, total_delegated_to: Amount },
    DelegatedV0 { from: Address, to: Address, shares: Amount },
    Undelegated { from: Address, to: Address, shares: Amount, total_delegated_to: Amount },
    UndelegatedV0 { from: Address, to: Address, shares: Amount },
    StartVote { agent: VotingAgent, vote_id: u64, creator: Address, metadata: String },
    CastVote { agent: VotingAgent, vote_id: u64, voter: Address, supports: bool, stake: Amount },
    ExecuteVote { agent: VotingAgent, vote_id: u64 },
    SetVestingAddresses { addresses: Vec<Address> },
    /// any other event of the contracts; it changes nothing
    Other,
}

/// An event with its place in the chain.
#[derive(Clone, Debug)]
pub struct OnChainEvent {
    pub entry: Api3,
    pub tm: u64,
    pub block_number: u64,
    pub tx: TxHash,
    pub log_index: u64,
}

/// The single integer that a proposal is keyed by: twice its id, plus one
/// for the secondary agent; none where that does not fit in 64 bits.
pub open spec fn voting_key(agent: VotingAgent, vote_id: u64) -> Option<u64> {
    if 2 * vote_id + 1 <= u64::MAX {
        Some(
            (2 * vote_id + if agent == VotingAgent::Primary {
                0int
            } else {
                1int
            }) as u64,
        )
    } else {
        None
    }
}

pub fn voting_to_u64(agent: &VotingAgent, vote_id: u64) -> (r: Option<u64>)
    ensures
        r == voting_key(*agent, vote_id),
{
    if vote_id > (u64::MAX - 1) / 2 {
        None
    } else {
        match agent {
            VotingAgent::Primary => Some(2 * vote_id),
            VotingAgent::Secondary => Some(2 * vote_id + 1),
        }
    }
}

/// The decimal digit for `d`, below ten.
pub open spec fn digit_char(d: nat) -> char {
    if d == 0 { '0' } else if d == 1 { '1' } else if d == 2 { '2' } else if d == 3 { '3' } else if d == 4 {
        '4'
    } else if d == 5 { '5' } else if d == 6 { '6' } else if d == 7 { '7' } else if d == 8 { '8' } else {
        '9'
    }
}

/// The decimal digits of `n`, most significant first, without padding.
pub open spec fn decimal(n: nat) -> Seq<char>
    decreases n,
{
    if n < 10 {
        seq![digit_char(n)]
    } else {
        decimal(n / 10).push(digit_char(n % 10))
    }
}

/// Relies on `u64`'s `Display`, through `ToString::to_string`: the decimal
/// digits of the number, most significant first, with no sign or padding.
#[verifier::external_body]
fn decimal_string(n: u64) -> (r: String)
    ensures
        r@ == decimal(n as nat),
{
    n.to_string()
}

/// The display form of a proposal's key: the key in decimal.
pub fn voting_to_string(agent: &VotingAgent, vote_id: u64) -> (r: Option<String>)
    ensures
        r is Some <==> voting_key(*agent, vote_id) is Some,
        r matches Some(t) ==> t@ == decimal(voting_key(*agent, vote_id).unwrap() as nat),
{
    match voting_to_u64(agent, vote_id) {
        Some(k) => Some(decimal_string(k)),
        None => None,
    }
}

/// The accounts that an event mentions, in order.
pub open spec fn wallets_of(e: Api3) -> Seq<Address> {
    match e {
        Api3::Deposited { user, .. } => seq![user],
        Api3::DepositedV0 { user, .. } => seq![user],
        Api3::DepositedVesting { user, .. } => seq![user],
        Api3::DepositedByTimelockManager { user, .. } => seq![user],
        Api3::Withdrawn { user, .. } => seq![user],
        Api3::WithdrawnV0 { user, .. } => seq![user],
        Api3::Staked { user, .. } => seq![user],
        Api3::StakedV0 { user, .. } => seq![user],
        Api3::ScheduledUnstake { user, .. } => seq![user],
        Api3::ScheduledUnstakeV0 { user, .. } => seq![user],
        Api3::Unstaked { user, .. } => seq![user],
        Api3::UnstakedV0 { user, .. } => seq![user],
        Api3::Delegated { from, to, .. } => seq![from, to],
        Api3::DelegatedV0 { from, to, .. } => seq![from, to],
        Api3::Undelegated { from, to, .. } => seq![from, to],
        Api3::UndelegatedV0 { from, to, .. } => seq![from, to],
        Api3::StartVote { creator, .. } => seq![creator],
        Api3::CastVote { voter, .. } => seq![voter],
        _ => Seq::empty(),
    }
}

/// The proposal that an event is about, by its key.
pub open spec fn voting_of(e: Api3) -> Option<u64> {
    match e {
        Api3::StartVote { agent, vote_id, .. } => voting_key(agent, vote_id),
        Api3::CastVote { agent, vote_id, .. } => voting_key(agent, vote_id),
        Api3::ExecuteVote { agent, vote_id } => voting_key(agent, vote_id),
        _ => None,
    }
}

impl Api3 {
    /// The accounts that the event mentions.
    pub fn get_wallets(&self) -> (r: Vec<Address>)
        ensures
            r@ == wallets_of(*self),
    {
        match self {
            Api3::Deposited { user, .. } | Api3::DepositedV0 { user, .. } | Api3::DepositedVesting {
                user,
                ..
            } | Api3::DepositedByTimelockManager { user, .. } | Api3::Withdrawn { user, .. }
            | Api3::WithdrawnV0 { user, .. } | Api3::Staked { user, .. } | Api3::StakedV0 {
                user,
                ..
            } | Api3::ScheduledUnstake { user, .. } | Api3::ScheduledUnstakeV0 { user, .. }
            | Api3::Unstaked { user, .. } | Api3::UnstakedV0 { user, .. } => {
                let r = vec![*user];
                assert(r@ =~= seq![*user]);
                r
            },
            Api3::Delegated { from, to, .. } | Api3::DelegatedV0 { from, to, .. }
            | Api3::Undelegated { from, to, .. } | Api3::UndelegatedV0 { from, to, .. } => {
                let r = vec![*from, *to];
                assert(r@ =~= seq![*from, *to]);
                r
            },
            Api3::StartVote { creator, .. } => {
                let r = vec![*creator];
                assert(r@ =~= seq![*creator]);
                r
            },
            Api3::CastVote { voter, .. } => {
                let r = vec![*voter];
                assert(r@ =~= seq![*voter]);
                r
            },
            _ => {
                let r = Vec::new();
                assert(r@ =~= Seq::<Address>::empty());
                r
            },
        }
    }

    /// The key of the proposal that the event is about.
    pub fn get_voting(&self) -> (r: Option<u64>)
        ensures
            r == voting_of(*self),
    {
        match self {
            Api3::StartVote { agent, vote_id, .. } => voting_to_u64(agent, *vote_id),
            Api3::CastVote { agent, vote_id, .. } => voting_to_u64(agent, *vote_id),
            Api3::ExecuteVote { agent, vote_id } => voting_to_u64(agent, *vote_id),
            _ => None,
        }
    }
}

} // verus!
