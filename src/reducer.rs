//! The reducer's single entry point: one event folded into the state.

use vstd::prelude::*;
use crate::address::{Address, TxHash};
use crate::amount::Amount;
use crate::events::{Api3, OnChainEvent, VotingAgent, voting_key, voting_of, wallets_of};
use crate::ledger::{
    DepositKind, LedgerError, delegate_spec, deposited_spec, find_index, lemma_find_index,
    lemma_push_wf, lemma_touch_wf, scheduled_unstake_spec, staked_spec, undelegate_spec,
    unstaked_spec, votes_total, wallets_wf, withdrawn_spec,
};
use crate::rewards::distribute_spec;
use crate::state::{
    AppState, AppStateView, keys_wf, lemma_keys_wf_same, lemma_keys_wf_votings, lemma_keys_wf_logs, vkey, with_wallets,
};
use crate::voting::{Voting, VotingView, cast_spec, started, voting_wf};
use crate::wallet::{Wallet, WalletView, new_wallet, voting_power_of};

verus! {

/// `n + 1`, stopping at the largest `u64`.
pub open spec fn bump(n: u64) -> u64 {
    if n < u64::MAX {
        (n + 1) as u64
    } else {
        n
    }
}

/// The position of the proposal with key `key`, or -1.
pub open spec fn voting_pos(vs: Seq<VotingView>, key: u64) -> int
    decreases vs.len(),
{
    if vs.len() == 0 {
        -1
    } else if vkey(vs.last()) == Some(key) {
        vs.len() - 1
    } else {
        voting_pos(vs.drop_last(), key)
    }
}

pub proof fn lemma_voting_pos(vs: Seq<VotingView>, key: u64)
    ensures
        -1 <= voting_pos(vs, key) < vs.len(),
        voting_pos(vs, key) >= 0 ==> vkey(vs[voting_pos(vs, key)]) == Some(key),
        voting_pos(vs, key) == -1 <==> forall|j: int| 0 <= j < vs.len() ==> vkey(vs[j]) != Some(key),
    decreases vs.len(),
{
    if vs.len() > 0 {
        lemma_voting_pos(vs.drop_last(), key);
        if vkey(vs.last()) != Some(key) {
            assert forall|j: int| 0 <= j < vs.len() - 1 implies vs[j] == vs.drop_last()[j] by {}
        }
    }
}

/// `ws` with one more vote counted for the account `a`, if it has a record.
pub open spec fn count_vote(ws: Seq<WalletView>, a: Address) -> Seq<WalletView> {
    let i = find_index(ws, a);
    if i >= 0 {
        ws.update(i, WalletView { votes: bump(ws[i].votes), ..ws[i] })
    } else {
        ws
    }
}

/// A new proposal of `agent` with id `vote_id`, replacing one of the same
/// key; the creator's current voting power is its first supporting vote,
/// and the DAO's total voting power is recorded with it.
pub open spec fn start_vote_spec(
    s: AppStateView,
    agent: VotingAgent,
    vote_id: u64,
    creator: Address,
    metadata: Seq<char>,
    tm: u64,
    block_number: u64,
    tx: TxHash,
) -> AppStateView {
    match voting_key(agent, vote_id) {
        None => s,
        Some(key) => {
            let ci = find_index(s.wallets, creator);
            let power = if ci >= 0 {
                s.wallets[ci].voting_power
            } else {
                Amount::from_nat(0)
            };
            let v = started(
                agent,
                vote_id,
                creator,
                metadata,
                power,
                Amount::from_nat(votes_total(s.wallets)),
                tm,
                block_number,
                tx,
            );
            let p = voting_pos(s.votings, key);
            AppStateView {
                votings: if p >= 0 {
                    s.votings.update(p, v)
                } else {
                    s.votings.push(v)
                },
                wallets: count_vote(s.wallets, creator),
                ..s
            }
        },
    }
}

/// A vote of `voter` on a proposal: it replaces the voter's earlier vote
/// there, if the proposal is known, and counts among the voter's votes
/// either way.
pub open spec fn cast_vote_spec(
    s: AppStateView,
    agent: VotingAgent,
    vote_id: u64,
    voter: Address,
    supports: bool,
    stake: Amount,
) -> AppStateView {
    let votings = match voting_key(agent, vote_id) {
        Some(key) => {
            let p = voting_pos(s.votings, key);
            if p >= 0 {
                s.votings.update(p, cast_spec(s.votings[p], voter, supports, stake))
            } else {
                s.votings
            }
        },
        None => s.votings,
    };
    AppStateView { votings, wallets: count_vote(s.wallets, voter), ..s }
}

/// Execution of a proposal; an unknown one is ignored.
pub open spec fn execute_vote_spec(s: AppStateView, agent: VotingAgent, vote_id: u64) -> AppStateView {
    match voting_key(agent, vote_id) {
        Some(key) => {
            let p = voting_pos(s.votings, key);
            if p >= 0 {
                AppStateView {
                    votings: s.votings.update(p, VotingView { executed: true, ..s.votings[p] }),
                    ..s
                }
            } else {
                s
            }
        },
        None => s,
    }
}

/// The new list of vesting accounts: every account is marked by whether it
/// is on the list.
pub open spec fn set_vesting_spec(s: AppStateView, addresses: Seq<Address>) -> AppStateView {
    AppStateView {
        wallets: s.wallets.map_values(
            |w: WalletView| WalletView { vested: addresses.contains(w.address), ..w },
        ),
        vested: addresses,
        ..s
    }
}

/// Account `a` as mentioned by the event at position `n` of the log, at
/// time `tm`: created if new, its log extended and its update time stamped.
pub open spec fn touch_one(s: AppStateView, a: Address, tm: u64, n: usize) -> AppStateView {
    let s1 = if find_index(s.wallets, a) < 0 {
        AppStateView {
            wallets: s.wallets.push(new_wallet(a, tm)),
            wallets_events: s.wallets_events.push(Seq::empty()),
            ..s
        }
    } else {
        s
    };
    let i = find_index(s1.wallets, a);
    AppStateView {
        wallets: s1.wallets.update(i, WalletView { updated_at: tm, ..s1.wallets[i] }),
        wallets_events: s1.wallets_events.update(i, s1.wallets_events[i].push(n)),
        ..s1
    }
}

/// Every account in `addrs`, in order, touched by `touch_one`.
pub open spec fn touch_all(s: AppStateView, addrs: Seq<Address>, tm: u64, n: usize) -> AppStateView
    decreases addrs.len(),
{
    if addrs.len() == 0 {
        s
    } else {
        touch_one(touch_all(s, addrs.drop_last(), tm, n), addrs.last(), tm, n)
    }
}

/// The position of the log of proposal `key`, or -1.
pub open spec fn log_pos(ls: Seq<(u64, Seq<usize>)>, key: u64) -> int
    decreases ls.len(),
{
    if ls.len() == 0 {
        -1
    } else if ls.last().0 == key {
        ls.len() - 1
    } else {
        log_pos(ls.drop_last(), key)
    }
}

pub proof fn lemma_log_pos(ls: Seq<(u64, Seq<usize>)>, key: u64)
    ensures
        -1 <= log_pos(ls, key) < ls.len(),
        log_pos(ls, key) >= 0 ==> ls[log_pos(ls, key)].0 == key,
        log_pos(ls, key) == -1 <==> forall|j: int| 0 <= j < ls.len() ==> ls[j].0 != key,
    decreases ls.len(),
{
    if ls.len() > 0 {
        lemma_log_pos(ls.drop_last(), key);
        if ls.last().0 != key {
            assert forall|j: int| 0 <= j < ls.len() - 1 implies ls[j] == ls.drop_last()[j] by {}
        }
    }
}

/// The event at position `n` of the log added to the log of proposal `key`.
pub open spec fn log_voting(s: AppStateView, key: u64, n: usize) -> AppStateView {
    let p = log_pos(s.votings_events, key);
    AppStateView {
        votings_events: if p >= 0 {
            s.votings_events.update(p, (key, s.votings_events[p].1.push(n)))
        } else {
            s.votings_events.push((key, seq![n]))
        },
        ..s
    }
}

/// What the event's own operation does, after the accounts it mentions have
/// been touched.
pub open spec fn apply_entry(s: AppStateView, e: OnChainEvent) -> (AppStateView, Result<(), LedgerError>) {
    let ws = s.wallets;
    match e.entry {
        Api3::MintedReward { epoch_index, amount, new_apr, total_stake } => distribute_spec(
            s,
            epoch_index,
            amount,
            new_apr,
            Some(total_stake),
            e.tm,
            e.block_number,
            e.tx,
        ),
        Api3::MintedRewardV0 { epoch_index, amount, new_apr } => distribute_spec(
            s,
            epoch_index,
            amount,
            new_apr,
            None,
            e.tm,
            e.block_number,
            e.tx,
        ),
        Api3::Deposited { user, amount, .. } => {
            let (w, r) = deposited_spec(ws, user, amount, DepositKind::Plain);
            (with_wallets(s, w), r)
        },
        Api3::DepositedV0 { user, amount } => {
            let (w, r) = deposited_spec(ws, user, amount, DepositKind::Plain);
            (with_wallets(s, w), r)
        },
        Api3::DepositedVesting { user, amount, .. } => {
            let (w, r) = deposited_spec(ws, user, amount, DepositKind::Vesting);
            (with_wallets(s, w), r)
        },
        Api3::DepositedByTimelockManager { user, amount, .. } => {
            let (w, r) = deposited_spec(ws, user, amount, DepositKind::ByTimelockManager);
            (with_wallets(s, w), r)
        },
        Api3::Withdrawn { user, amount, .. } => {
            let (w, r) = withdrawn_spec(ws, user, amount);
            (with_wallets(s, w), r)
        },
        Api3::WithdrawnV0 { user, amount } => {
            let (w, r) = withdrawn_spec(ws, user, amount);
            (with_wallets(s, w), r)
        },
        Api3::Staked { user, amount, minted_shares, .. } => {
            let (w, r) = staked_spec(ws, user, amount, minted_shares);
            (with_wallets(s, w), r)
        },
        Api3::StakedV0 { user, amount, minted_shares } => {
            let (w, r) = staked_spec(ws, user, amount, minted_shares);
            (with_wallets(s, w), r)
        },
        Api3::ScheduledUnstake { user, amount, shares, scheduled_for, .. } => {
            let (w, r) = scheduled_unstake_spec(ws, user, amount, shares, scheduled_for);
            (with_wallets(s, w), r)
        },
        Api3::ScheduledUnstakeV0 { user, amount, shares, scheduled_for } => {
            let (w, r) = scheduled_unstake_spec(ws, user, amount, shares, scheduled_for);
            (with_wallets(s, w), r)
        },
        Api3::Unstaked { user, amount, .. } => {
            let (w, r) = unstaked_spec(ws, user, amount);
            (with_wallets(s, w), r)
        },
        Api3::UnstakedV0 { user, amount } => {
            let (w, r) = unstaked_spec(ws, user, amount);
            (with_wallets(s, w), r)
        },
        Api3::Delegated { from, to, .. } => {
            let (w, r) = delegate_spec(ws, from, to, e.tm);
            (with_wallets(s, w), r)
        },
        Api3::DelegatedV0 { from, to, .. } => {
            let (w, r) = delegate_spec(ws, from, to, e.tm);
            (with_wallets(s, w), r)
        },
        Api3::Undelegated { from, to, shares, .. } => {
            let (w, r) = undelegate_spec(ws, from, to, shares);
            (with_wallets(s, w), r)
        },
        Api3::UndelegatedV0 { from, to, shares } => {
            let (w, r) = undelegate_spec(ws, from, to, shares);
            (with_wallets(s, w), r)
        },
        Api3::StartVote { agent, vote_id, creator, metadata } => (
            start_vote_spec(s, agent, vote_id, creator, metadata@, e.tm, e.block_number, e.tx),
            Ok(()),
        ),
        Api3::CastVote { agent, vote_id, voter, supports, stake } => (
            cast_vote_spec(s, agent, vote_id, voter, supports, stake),
            Ok(()),
        ),
        Api3::ExecuteVote { agent, vote_id } => (execute_vote_spec(s, agent, vote_id), Ok(())),
        Api3::SetVestingAddresses { addresses } => (set_vesting_spec(s, addresses@), Ok(())),
        Api3::Other => (s, Ok(())),
    }
}

/// One event folded into the state: the block of its log entry is recorded
/// where known, the accounts it mentions are created if new and log it, the
/// proposal it is about logs it, its operation is applied, and it joins the
/// log of all events. The operation's failure leaves the state as the
/// operation found it.
#[verifier::opaque]
pub open spec fn update_spec(s: AppStateView, e: OnChainEvent, log_block: Option<u64>) -> (
    AppStateView,
    Result<(), LedgerError>,
) {
    let n = s.events.len() as usize;
    let s0 = AppStateView {
        last_block: match log_block {
            Some(b) => b,
            None => s.last_block,
        },
        ..s
    };
    let s1 = touch_all(s0, wallets_of(e.entry), e.tm, n);
    let s2 = match voting_of(e.entry) {
        Some(key) => log_voting(s1, key, n),
        None => s1,
    };
    let (s3, r) = apply_entry(s2, e);
    (AppStateView { events: s3.events.push(e), ..s3 }, r)
}

/// What a failed operation means for the process: most are logged and the
/// fold goes on; a failed reservation for unstaking means that the ledger
/// and the chain have parted, and the fold must stop.
#[derive(Clone, Copy, Debug, PartialEq, Eq, Structural)]
pub enum FailurePolicy {
    Continue,
    Halt,
}

pub open spec fn policy_of(e: Api3) -> FailurePolicy {
    match e {
        Api3::ScheduledUnstake { .. } => FailurePolicy::Halt,
        Api3::ScheduledUnstakeV0 { .. } => FailurePolicy::Halt,
        _ => FailurePolicy::Continue,
    }
}

/// How a failure of the event's operation is to be handled.
pub fn failure_policy(e: &Api3) -> (r: FailurePolicy)
    ensures
        r == policy_of(*e),
{
    match e {
        Api3::ScheduledUnstake { .. } | Api3::ScheduledUnstakeV0 { .. } => FailurePolicy::Halt,
        _ => FailurePolicy::Continue,
    }
}

pub proof fn lemma_count_vote_wf(ws: Seq<WalletView>, a: Address)
    requires
        wallets_wf(ws),
    ensures
        wallets_wf(count_vote(ws, a)),
        count_vote(ws, a).len() == ws.len(),
{
    let i = find_index(ws, a);
    lemma_find_index(ws, a);
    if i >= 0 {
        lemma_touch_wf(ws, count_vote(ws, a));
    }
}

impl AppState {
    /// The position of the proposal with key `key`.
    pub fn voting_index(&self, key: u64) -> (r: Option<usize>)
        requires
            keys_wf(self@),
        ensures
            r is Some <==> voting_pos(self@.votings, key) >= 0,
            r matches Some(i) ==> i == voting_pos(self@.votings, key) && i < self@.votings.len(),
    {
        let ghost vs = self@.votings;
        let mut i: usize = 0;
        while i < self.votings.len()
            invariant
                i <= vs.len(),
                vs == self@.votings,
                keys_wf(self@),
                forall|j: int| 0 <= j < i ==> vkey(vs[j]) != Some(key),
            decreases vs.len() - i,
        {
            if self.votings[i].as_u64() == Some(key) {
                proof {
                    lemma_voting_pos(vs, key);
                    assert(vkey(vs[voting_pos(vs, key)]) == vkey(vs[i as int]));
                }
                return Some(i);
            }
            i = i + 1;
        }
        proof {
            lemma_voting_pos(vs, key);
        }
        None
    }

    /// Counts one more vote for the account `a`, if it has a record.
    fn count_vote(&mut self, a: &Address)
        requires
            old(self).wf(),
        ensures
            final(self).wf(),
            final(self)@ == with_wallets(old(self)@, count_vote(old(self)@.wallets, *a)),
    {
        let ghost ws = self@.wallets;
        proof {
            lemma_count_vote_wf(ws, *a);
        }
        if let Some(i) = self.find_wallet(a) {
            if self.wallets[i].votes < u64::MAX {
                self.wallets[i].votes = self.wallets[i].votes + 1;
            }
            proof {
                assert(self@.wallets =~= count_vote(ws, *a));
            }
        }
        proof {
            lemma_keys_wf_same(old(self)@, self@);
        }
    }

    /// Starts a proposal of `agent` with id `vote_id`, replacing one of the
    /// same key: the creator's current voting power is its first supporting
    /// vote, and the DAO's total voting power is recorded with it.
    pub fn start_vote(
        &mut self,
        agent: VotingAgent,
        vote_id: u64,
        creator: &Address,
        metadata: &String,
        tm: u64,
        block_number: u64,
        tx: TxHash,
    )
        requires
            old(self).wf(),
        ensures
            final(self).wf(),
            final(self)@ == start_vote_spec(old(self)@, agent, vote_id, *creator, metadata@, tm, block_number, tx),
    {
        let key = match crate::events::voting_to_u64(&agent, vote_id) {
            Some(k) => k,
            None => return,
        };
        let power = match self.find_wallet(creator) {
            Some(i) => self.wallets[i].voting_power,
            None => Amount::zero(),
        };
        let total = self.get_votes_total();
        proof {
            crate::amount::lemma_view_bound(total);
            crate::amount::lemma_from_nat_view(total);
        }
        let v = Voting::start(agent, vote_id, *creator, metadata, power, total, tm, block_number, tx);
        let ghost vs = self@.votings;
        proof {
            lemma_voting_pos(vs, key);
        }
        match self.voting_index(key) {
            Some(p) => {
                self.votings.set(p, v);
            },
            None => {
                self.votings.push(v);
            },
        }
        proof {
            let nv = self@.votings;
            assert(nv =~= if voting_pos(vs, key) >= 0 {
                vs.update(voting_pos(vs, key), v@)
            } else {
                vs.push(v@)
            });
            assert(vkey(v@) == Some(key));
            assert forall|i: int| 0 <= i < nv.len() implies voting_wf(#[trigger] nv[i]) && (#[trigger] vkey(
                nv[i],
            )) is Some && (i != voting_pos(vs, key) && i < vs.len() ==> nv[i] == vs[i]) by {
                if i < vs.len() && i != voting_pos(vs, key) {
                    assert(nv[i] == vs[i]);
                }
            }
            assert forall|i: int, j: int|
                0 <= i < nv.len() && 0 <= j < nv.len() && #[trigger] vkey(nv[i]) == #[trigger] vkey(nv[j])
                    implies i == j by {
                let p = voting_pos(vs, key);
                if i < vs.len() && i != p && j < vs.len() && j != p {
                    assert(nv[i] == vs[i] && nv[j] == vs[j]);
                } else if i < vs.len() && i != p {
                    assert(nv[i] == vs[i]);
                } else if j < vs.len() && j != p {
                    assert(nv[j] == vs[j]);
                }
            }
            lemma_keys_wf_votings(old(self)@, self@);
        }
        self.count_vote(creator);
    }

    /// Records a vote of `voter`, which replaces the voter's earlier vote on
    /// the proposal if it is known, and counts among the voter's votes
    /// either way.
    pub fn cast_vote(
        &mut self,
        agent: VotingAgent,
        vote_id: u64,
        voter: &Address,
        supports: bool,
        stake: Amount,
    )
        requires
            old(self).wf(),
        ensures
            final(self).wf(),
            final(self)@ == cast_vote_spec(old(self)@, agent, vote_id, *voter, supports, stake),
    {
        let ghost vs = self@.votings;
        if let Some(key) = crate::events::voting_to_u64(&agent, vote_id) {
            if let Some(p) = self.voting_index(key) {
                proof {
                    assert(voting_wf(vs[p as int]));
                }
                self.votings[p].cast(*voter, supports, stake);
                proof {
                    let nv = self@.votings;
                    assert(nv =~= vs.update(p as int, cast_spec(vs[p as int], *voter, supports, stake)));
                    assert forall|i: int| 0 <= i < nv.len() implies voting_wf(#[trigger] nv[i]) by {
                        if i != p {
                            assert(nv[i] == vs[i]);
                        }
                    }
                    assert forall|i: int| 0 <= i < nv.len() implies (#[trigger] vkey(nv[i])) == vkey(vs[i]) by {
                        if i != p {
                            assert(nv[i] == vs[i]);
                        }
                    }
                    assert forall|i: int, j: int|
                        0 <= i < nv.len() && 0 <= j < nv.len() && #[trigger] vkey(nv[i])
                            == #[trigger] vkey(nv[j]) implies i == j by {
                        assert(vkey(vs[i]) == vkey(vs[j]));
                    }
                    assert forall|i: int| 0 <= i < nv.len() implies (#[trigger] vkey(nv[i])) is Some by {
                        assert(vkey(nv[i]) == vkey(vs[i]));
                    }
                    lemma_keys_wf_votings(old(self)@, self@);
                }
            }
        }
        self.count_vote(voter);
    }

    /// Marks a proposal executed; an unknown one is ignored.
    pub fn execute_vote(&mut self, agent: VotingAgent, vote_id: u64)
        requires
            old(self).wf(),
        ensures
            final(self).wf(),
            final(self)@ == execute_vote_spec(old(self)@, agent, vote_id),
    {
        let ghost vs = self@.votings;
        if let Some(key) = crate::events::voting_to_u64(&agent, vote_id) {
            if let Some(p) = self.voting_index(key) {
                self.votings[p].executed = true;
                proof {
                    let nv = self@.votings;
                    assert(nv =~= vs.update(p as int, VotingView { executed: true, ..vs[p as int] }));
                    assert forall|i: int| 0 <= i < nv.len() implies voting_wf(#[trigger] nv[i]) by {
                        if i != p {
                            assert(nv[i] == vs[i]);
                        }
                    }
                    assert forall|i: int| 0 <= i < nv.len() implies (#[trigger] vkey(nv[i])) == vkey(vs[i]) by {
                        if i != p {
                            assert(nv[i] == vs[i]);
                        }
                    }
                    assert forall|i: int, j: int|
                        0 <= i < nv.len() && 0 <= j < nv.len() && #[trigger] vkey(nv[i])
                            == #[trigger] vkey(nv[j]) implies i == j by {
                        assert(vkey(vs[i]) == vkey(vs[j]));
                    }
                    assert forall|i: int| 0 <= i < nv.len() implies (#[trigger] vkey(nv[i])) is Some by {
                        assert(vkey(nv[i]) == vkey(vs[i]));
                    }
                    lemma_keys_wf_votings(old(self)@, self@);
                }
            }
        }
    }

    /// Marks each account by whether it is on the new list of vesting
    /// accounts, and keeps the list.
    pub fn set_vesting_addresses(&mut self, addresses: &Vec<Address>)
        requires
            old(self).wf(),
        ensures
            final(self).wf(),
            final(self)@ == set_vesting_spec(old(self)@, addresses@),
    {
        let ghost ws = self@.wallets;
        let n = self.wallets.len();
        let mut i: usize = 0;
        while i < n
            invariant
                n == ws.len(),
                n == self@.wallets.len(),
                i <= n,
                self@ == with_wallets(old(self)@, self@.wallets),
                ws == old(self)@.wallets,
                forall|j: int|
                    0 <= j < i ==> #[trigger] self@.wallets[j] == (WalletView {
                        vested: addresses@.contains(ws[j].address),
                        ..ws[j]
                    }),
                forall|j: int| i <= j < n ==> #[trigger] self@.wallets[j] == ws[j],
            decreases n - i,
        {
            let ghost before = self@.wallets;
            proof {
                assert(before[i as int] == ws[i as int]);
            }
            let v = address_in(addresses, &self.wallets[i].address);
            self.wallets[i].vested = v;
            proof {
                assert(self@.wallets =~= before.update(
                    i as int,
                    WalletView { vested: addresses@.contains(ws[i as int].address), ..ws[i as int] },
                ));
            }
            i = i + 1;
        }
        let mut list: Vec<Address> = Vec::new();
        let mut k: usize = 0;
        while k < addresses.len()
            invariant
                k <= addresses@.len(),
                list@ == addresses@.take(k as int),
            decreases addresses@.len() - k,
        {
            list.push(addresses[k]);
            proof {
                assert(list@ =~= addresses@.take(k + 1));
            }
            k = k + 1;
        }
        proof {
            assert(list@ =~= addresses@);
        }
        self.vested = list;
        proof {
            let vs = set_vesting_spec(old(self)@, addresses@).wallets;
            assert(self@.wallets =~= vs);
            lemma_touch_wf(ws, vs);
            lemma_keys_wf_same(old(self)@, self@);
        }
    }

    /// Account `a` as mentioned by the event at position `n` of the log:
    /// created if new, its log extended, its update time stamped.
    fn touch_one(&mut self, a: &Address, tm: u64, n: usize)
        requires
            old(self).wf(),
        ensures
            final(self).wf(),
            final(self)@ == touch_one(old(self)@, *a, tm, n),
    {
        let ghost s = self@;
        let i = match self.find_wallet(a) {
            Some(i) => i,
            None => {
                let w = Wallet::new(*a, tm);
                proof {
                    lemma_find_index(s.wallets, *a);
                    assert(crate::amount_map::sum_of(Seq::<(Address, Amount)>::empty()) == 0);
                    crate::amount::lemma_from_nat_view(Amount::from_nat(0));
                    assert(w@.voting_power == voting_power_of(w@));
                    lemma_push_wf(s.wallets, w@);
                }
                self.wallets.push(w);
                self.wallets_events.push(Vec::new());
                proof {
                    assert(self@.wallets =~= s.wallets.push(new_wallet(*a, tm)));
                    assert(self@.wallets_events =~= s.wallets_events.push(Seq::empty()));
                    assert(find_index(self@.wallets, *a) == self@.wallets.len() - 1);
                    lemma_keys_wf_same(s, self@);
                }
                self.wallets.len() - 1
            },
        };
        let ghost s1 = self@;
        proof {
            assert(s1 == if find_index(s.wallets, *a) < 0 {
                AppStateView {
                    wallets: s.wallets.push(new_wallet(*a, tm)),
                    wallets_events: s.wallets_events.push(Seq::empty()),
                    ..s
                }
            } else {
                s
            });
        }
        self.wallets[i].updated_at = tm;
        self.wallets_events[i].push(n);
        proof {
            assert(self@.wallets =~= s1.wallets.update(i as int, WalletView { updated_at: tm, ..s1.wallets[i as int] }));
            assert(self@.wallets_events =~= s1.wallets_events.update(i as int, s1.wallets_events[i as int].push(n)));
            lemma_touch_wf(s1.wallets, self@.wallets);
            lemma_keys_wf_same(s1, self@);
        }
    }

    /// The event at position `n` of the log added to the log of proposal
    /// `key`.
    fn log_voting(&mut self, key: u64, n: usize)
        requires
            old(self).wf(),
        ensures
            final(self).wf(),
            final(self)@ == log_voting(old(self)@, key, n),
    {
        let ghost ls = self@.votings_events;
        let mut i: usize = 0;
        while i < self.votings_events.len()
            invariant
                i <= ls.len(),
                ls == self@.votings_events,
                self@ == old(self)@,
                old(self).wf(),
                forall|j: int| 0 <= j < i ==> ls[j].0 != key,
            decreases ls.len() - i,
        {
            if self.votings_events[i].0 == key {
                proof {
                    lemma_log_pos(ls, key);
                    assert(ls[log_pos(ls, key)].0 == ls[i as int].0);
                }
                self.votings_events[i].1.push(n);
                proof {
                    assert(self@.votings_events =~= ls.update(i as int, (key, ls[i as int].1.push(n))));
                    assert forall|a: int, b: int|
                        0 <= a < ls.len() && 0 <= b < ls.len() && #[trigger] self@.votings_events[a].0
                            == #[trigger] self@.votings_events[b].0 implies a == b by {
                        assert(ls[a].0 == self@.votings_events[a].0);
                        assert(ls[b].0 == self@.votings_events[b].0);
                    }
                    lemma_keys_wf_logs(old(self)@, self@);
                }
                return;
            }
            i = i + 1;
        }
        proof {
            lemma_log_pos(ls, key);
        }
        let mut l: Vec<usize> = Vec::new();
        l.push(n);
        self.votings_events.push((key, l));
        proof {
            assert(l@ =~= seq![n]);
            assert(self@.votings_events =~= ls.push((key, seq![n])));
            assert forall|a: int, b: int|
                0 <= a < self@.votings_events.len() && 0 <= b < self@.votings_events.len()
                    && #[trigger] self@.votings_events[a].0 == #[trigger] self@.votings_events[b].0 implies a
                == b by {
                if a < ls.len() {
                    assert(ls[a].0 == self@.votings_events[a].0);
                }
                if b < ls.len() {
                    assert(ls[b].0 == self@.votings_events[b].0);
                }
            }
            lemma_keys_wf_logs(old(self)@, self@);
        }
    }
}

impl AppState {
    /// Folds one event into the state: records the block of its log entry
    /// where known, creates the accounts it mentions if new and logs the
    /// event for them and for its proposal, applies its operation, and
    /// appends it to the log of all events. A failed operation leaves the
    /// state as the operation found it; `failure_policy` says whether the
    /// fold may go on.
    pub fn update(&mut self, e: OnChainEvent, log_block: Option<u64>) -> (r: Result<(), LedgerError>)
        requires
            old(self).wf(),
        ensures
            final(self).wf(),
            (final(self)@, r) == update_spec(old(self)@, e, log_block),
    {
        proof {
            reveal(update_spec);
        }
        if let Some(b) = log_block {
            self.last_block = b;
        }
        proof {
            lemma_keys_wf_same(old(self)@, self@);
        }
        let ghost s0 = self@;
        let n = self.events.len();
        let addrs = e.entry.get_wallets();
        let mut k: usize = 0;
        while k < addrs.len()
            invariant
                k <= addrs@.len(),
                addrs@ == wallets_of(e.entry),
                self.wf(),
                self@ == touch_all(s0, addrs@.take(k as int), e.tm, n),
                n == s0.events.len(),
            decreases addrs@.len() - k,
        {
            proof {
                assert(addrs@.take(k + 1).drop_last() =~= addrs@.take(k as int));
            }
            self.touch_one(&addrs[k], e.tm, n);
            k = k + 1;
        }
        proof {
            assert(addrs@.take(k as int) =~= addrs@);
        }
        if let Some(key) = e.entry.get_voting() {
            self.log_voting(key, n);
        }
        let ghost s2 = self@;
        let r = match &e.entry {
            Api3::MintedReward { epoch_index, amount, new_apr, total_stake } => self.distribute(
                *epoch_index,
                *amount,
                *new_apr,
                Some(*total_stake),
                e.tm,
                e.block_number,
                e.tx,
            ),
            Api3::MintedRewardV0 { epoch_index, amount, new_apr } => self.distribute(
                *epoch_index,
                *amount,
                *new_apr,
                None,
                e.tm,
                e.block_number,
                e.tx,
            ),
            Api3::Deposited { user, amount, .. } => self.deposited(user, amount, DepositKind::Plain),
            Api3::DepositedV0 { user, amount } => self.deposited(user, amount, DepositKind::Plain),
            Api3::DepositedVesting { user, amount, .. } => self.deposited(user, amount, DepositKind::Vesting),
            Api3::DepositedByTimelockManager { user, amount, .. } => self.deposited(
                user,
                amount,
                DepositKind::ByTimelockManager,
            ),
            Api3::Withdrawn { user, amount, .. } => self.withdrawn(user, amount),
            Api3::WithdrawnV0 { user, amount } => self.withdrawn(user, amount),
            Api3::Staked { user, amount, minted_shares, .. } => self.staked(user, amount, minted_shares),
            Api3::StakedV0 { user, amount, minted_shares } => self.staked(user, amount, minted_shares),
            Api3::ScheduledUnstake { user, amount, shares, scheduled_for, .. } => self.scheduled_unstake(
                user,
                amount,
                shares,
                *scheduled_for,
            ),
            Api3::ScheduledUnstakeV0 { user, amount, shares, scheduled_for } => self.scheduled_unstake(
                user,
                amount,
                shares,
                *scheduled_for,
            ),
            Api3::Unstaked { user, amount, .. } => self.unstaked(user, amount),
            Api3::UnstakedV0 { user, amount } => self.unstaked(user, amount),
            Api3::Delegated { from, to, .. } => self.delegate(from, to, e.tm),
            Api3::DelegatedV0 { from, to, .. } => self.delegate(from, to, e.tm),
            Api3::Undelegated { from, to, shares, .. } => self.undelegate(from, to, *shares),
            Api3::UndelegatedV0 { from, to, shares } => self.undelegate(from, to, *shares),
            Api3::StartVote { agent, vote_id, creator, metadata } => {
                self.start_vote(*agent, *vote_id, creator, metadata, e.tm, e.block_number, e.tx);
                Ok(())
            },
            Api3::CastVote { agent, vote_id, voter, supports, stake } => {
                self.cast_vote(*agent, *vote_id, voter, *supports, *stake);
                Ok(())
            },
            Api3::ExecuteVote { agent, vote_id } => {
                self.execute_vote(*agent, *vote_id);
                Ok(())
            },
            Api3::SetVestingAddresses { addresses } => {
                self.set_vesting_addresses(addresses);
                Ok(())
            },
            Api3::Other => Ok(()),
        };
        proof {
            assert((self@, r) == apply_entry(s2, e));
        }
        let ghost s3 = self@;
        self.events.push(e);
        proof {
            assert(self@ == (AppStateView { events: s3.events.push(e), ..s3 }));
            lemma_keys_wf_same(s3, self@);
        }
        r
    }
}

/// Whether `a` is on `list`.
pub fn address_in(list: &Vec<Address>, a: &Address) -> (r: bool)
    ensures
        r == list@.contains(*a),
{
    let mut i: usize = 0;
    while i < list.len()
        invariant
            i <= list@.len(),
            forall|j: int| 0 <= j < i ==> list@[j] != *a,
        decreases list@.len() - i,
    {
        if list[i].equals(a) {
            return true;
        }
        i = i + 1;
    }
    false
}

/// The state after folding `evs` into `s`, with the failures met on the way,
/// each with its position counted from `at`; the fold stops after a failure
/// whose policy is to halt.
pub open spec fn fold_spec(s: AppStateView, evs: Seq<(OnChainEvent, Option<u64>)>, at: int) -> (
    AppStateView,
    Seq<(int, LedgerError)>,
)
    decreases evs.len(),
{
    if evs.len() == 0 {
        (s, Seq::empty())
    } else {
        let (s1, r) = update_spec(s, evs[0].0, evs[0].1);
        match r {
            Err(err) => if policy_of(evs[0].0.entry) == FailurePolicy::Halt {
                (s1, seq![(at, err)])
            } else {
                let (s2, fs) = fold_spec(s1, evs.drop_first(), at + 1);
                (s2, seq![(at, err)] + fs)
            },
            Ok(()) => fold_spec(s1, evs.drop_first(), at + 1),
        }
    }
}

impl AppState {
    /// Folds `events`, each with the block of its log entry, into the state
    /// in order. Returns the failures, each with the event's position; stops
    /// after a failure whose policy is to halt.
    pub fn fold(&mut self, events: Vec<(OnChainEvent, Option<u64>)>) -> (r: Vec<(usize, LedgerError)>)
        requires
            old(self).wf(),
        ensures
            final(self).wf(),
            final(self)@ == fold_spec(old(self)@, events@, 0).0,
            r@.map_values(|f: (usize, LedgerError)| (f.0 as int, f.1)) == fold_spec(old(self)@, events@, 0).1,
    {
        let ghost evs = events@;
        let len = events.len();
        let mut pending = events;
        let mut rev: Vec<(OnChainEvent, Option<u64>)> = Vec::new();
        while pending.len() > 0
            invariant
                len == evs.len(),
                pending@ == evs.take(len - rev@.len()),
                evs == events@,
                rev@.len() <= len,
                forall|t: int| 0 <= t < rev@.len() ==> #[trigger] rev@[t] == evs[len - 1 - t],
                self@ == old(self)@,
                self.wf(),
            decreases pending@.len(),
        {
            let x = pending.pop().unwrap();
            proof {
                assert(pending@ =~= evs.take(len - rev@.len() - 1));
            }
            rev.push(x);
        }
        let mut failures: Vec<(usize, LedgerError)> = Vec::new();
        let ghost s0 = self@;
        let mut k: usize = 0;
        while k < len
            invariant
                len == evs.len(),
                k <= len,
                s0 == old(self)@,
                evs == events@,
                rev@.len() == len - k,
                forall|t: int| 0 <= t < rev@.len() ==> #[trigger] rev@[t] == evs[len - 1 - t],
                self.wf(),
                ({
                    let (sf, fs) = fold_spec(self@, evs.skip(k as int), k as int);
                    &&& sf == fold_spec(s0, evs, 0).0
                    &&& failures@.map_values(|f: (usize, LedgerError)| (f.0 as int, f.1)) + fs == fold_spec(
                        s0,
                        evs,
                        0,
                    ).1
                }),
            decreases len - k,
        {
            let (e, b) = rev.pop().unwrap();
            proof {
                assert(evs.skip(k as int)[0] == (e, b));
                assert(evs.skip(k as int).drop_first() =~= evs.skip(k + 1));
            }
            let policy = failure_policy(&e.entry);
            let ghost fb = failures@;
            let ghost pre = self@;
            let r = self.update(e, b);
            match r {
                Err(err) => {
                    failures.push((k, err));
                    proof {
                        assert(failures@.map_values(|f: (usize, LedgerError)| (f.0 as int, f.1)) =~= fb.map_values(
                            |f: (usize, LedgerError)| (f.0 as int, f.1),
                        ) + seq![(k as int, err)]);
                    }
                    if policy == FailurePolicy::Halt {
                        proof {
                            assert(fold_spec(pre, evs.skip(k as int), k as int) == (self@, seq![(k as int, err)]));
                            assert(self@ == fold_spec(s0, evs, 0).0);
                            assert(fb.map_values(|f: (usize, LedgerError)| (f.0 as int, f.1)) + seq![(k as int, err)]
                                == fold_spec(s0, evs, 0).1);
                            assert(fb.map_values(|f: (usize, LedgerError)| (f.0 as int, f.1)) + seq![(k as int, err)]
                                =~= failures@.map_values(|f: (usize, LedgerError)| (f.0 as int, f.1)) + Seq::<
                                (int, LedgerError),
                            >::empty());
                        }
                        return failures;
                    }
                    proof {
                        let fs = fold_spec(self@, evs.skip(k + 1), k + 1).1;
                        assert(fb.map_values(|f: (usize, LedgerError)| (f.0 as int, f.1)) + (seq![(k as int, err)] + fs)
                            =~= failures@.map_values(|f: (usize, LedgerError)| (f.0 as int, f.1)) + fs);
                    }
                },
                Ok(()) => {},
            }
            k = k + 1;
        }
        proof {
            assert(evs.skip(k as int) =~= Seq::<(OnChainEvent, Option<u64>)>::empty());
            assert(failures@.map_values(|f: (usize, LedgerError)| (f.0 as int, f.1)) + Seq::<(int, LedgerError)>::empty()
                =~= failures@.map_values(|f: (usize, LedgerError)| (f.0 as int, f.1)));
        }
        failures
    }
}

} // verus!
