//! The aggregate state of the DAO, and the reducer that folds events into it.

use vstd::prelude::*;
use crate::address::{Address, TxHash};
use crate::amount::{Amount, amount_bound, saturate};
use crate::amount_map::{AmountMap, keys_unique};
use crate::epoch::{Epoch, EpochView};
use crate::rewards::{
    distribute_spec, distribution_fits, epoch_pos, epoch_stake, epoch_total, insert_epoch, lemma_epoch_pos, lemma_insert_epoch_unique, lemma_snapshot_sum, reward_share, snapshot,
};
use crate::events::OnChainEvent;
use crate::ledger::{
    DepositKind, LedgerError, addresses_unique, delegate_spec, deposited_spec, detach, drop_incoming, find_index, lemma_delegate_wf, lemma_detach, lemma_find_index, lemma_find_index_unique, lemma_scheduled_unstake_wf, lemma_staked_wf, lemma_touch_wf, lemma_undelegate_wf, lemma_wf_at, maps_unique, put_incoming, reshare, scheduled_unstake_spec, shares_of, shares_total, staked_of, staked_spec, staked_total, sum_wallets, undelegate_spec, unstake_deduction, unstaked_spec, wallets_wf, withdrawn_spec, power_of, votes_total,
};
use crate::treasury::{Treasury, TreasuryView};
use crate::voting::{Voting, VotingView, voting_wf};
use crate::wallet::{Delegation, ScheduledUnstake, Wallet, WalletView, with_voting_power};

verus! {

/// The whole state: accounts, epochs, proposals, and the event logs.
pub struct AppState {
    /// version of the state's layout
    pub version: String,
    pub chain_id: u64,
    /// index of the current epoch
    pub epoch_index: u64,
    /// APR of the current epoch, as a fraction scaled by 10^18
    pub apr: Amount,
    /// block of the last event
    pub last_block: u64,
    pub epochs: Vec<Epoch>,
    pub votings: Vec<Voting>,
    /// for each proposal key, the positions in `events` of the events about it
    pub votings_events: Vec<(u64, Vec<usize>)>,
    pub wallets: Vec<Wallet>,
    /// for the account at the same position in `wallets`, the positions in
    /// `events` of the events that mention it
    pub wallets_events: Vec<Vec<usize>>,
    /// every event applied, in order
    pub events: Vec<OnChainEvent>,
    /// accounts whose balance is vesting
    pub vested: Vec<Address>,
    pub treasuries: Vec<Treasury>,
    /// decimals of known tokens
    pub decimals: Vec<(String, usize)>,
    /// accounts that were recipients in voting actions
    pub grants: Vec<(Address, u64)>,
}

/// The value of an `AppState`.
pub struct AppStateView {
    pub version: Seq<char>,
    pub chain_id: u64,
    pub epoch_index: u64,
    pub apr: Amount,
    pub last_block: u64,
    pub epochs: Seq<EpochView>,
    pub votings: Seq<VotingView>,
    pub votings_events: Seq<(u64, Seq<usize>)>,
    pub wallets: Seq<WalletView>,
    pub wallets_events: Seq<Seq<usize>>,
    pub events: Seq<OnChainEvent>,
    pub vested: Seq<Address>,
    pub treasuries: Seq<TreasuryView>,
    pub decimals: Seq<(Seq<char>, usize)>,
    pub grants: Seq<(Address, u64)>,
}

pub open spec fn wallets_view(ws: Seq<Wallet>) -> Seq<WalletView> {
    ws.map_values(|w: Wallet| w@)
}

impl View for AppState {
    type V = AppStateView;

    open spec fn view(&self) -> AppStateView {
        AppStateView {
            version: self.version@,
            chain_id: self.chain_id,
            epoch_index: self.epoch_index,
            apr: self.apr,
            last_block: self.last_block,
            epochs: self.epochs@.map_values(|e: Epoch| e@),
            votings: self.votings@.map_values(|v: Voting| v@),
            votings_events: self.votings_events@.map_values(|p: (u64, Vec<usize>)| (p.0, p.1@)),
            wallets: wallets_view(self.wallets@),
            wallets_events: self.wallets_events@.map_values(|l: Vec<usize>| l@),
            events: self.events@,
            vested: self.vested@,
            treasuries: self.treasuries@.map_values(|t: Treasury| t@),
            decimals: self.decimals@.map_values(|d: (String, usize)| (d.0@, d.1)),
            grants: self.grants@,
        }
    }
}

/// The key of a proposal.
pub open spec fn vkey(v: VotingView) -> Option<u64> {
    crate::events::voting_key(
        if v.primary {
            crate::events::VotingAgent::Primary
        } else {
            crate::events::VotingAgent::Secondary
        },
        v.vote_id,
    )
}

/// Epoch indices are unique, and so are proposal keys.
pub open spec fn keys_wf(s: AppStateView) -> bool {
    &&& forall|i: int, j: int|
        0 <= i < s.epochs.len() && 0 <= j < s.epochs.len() && #[trigger] s.epochs[i].index
            == #[trigger] s.epochs[j].index ==> i == j
    &&& forall|i: int, j: int|
        0 <= i < s.votings_events.len() && 0 <= j < s.votings_events.len()
            && #[trigger] s.votings_events[i].0 == #[trigger] s.votings_events[j].0 ==> i == j
    &&& forall|i: int| 0 <= i < s.epochs.len() ==> keys_unique(#[trigger] s.epochs[i].stake)
    &&& forall|i: int| 0 <= i < s.votings.len() ==> voting_wf(#[trigger] s.votings[i])
    &&& forall|i: int| 0 <= i < s.votings.len() ==> (#[trigger] vkey(s.votings[i])) is Some
    &&& forall|i: int, j: int|
        0 <= i < s.votings.len() && 0 <= j < s.votings.len() && #[trigger] vkey(s.votings[i])
            == #[trigger] vkey(s.votings[j]) ==> i == j
}

pub proof fn lemma_keys_wf_same(a: AppStateView, b: AppStateView)
    requires
        keys_wf(a),
        a.epochs == b.epochs,
        a.votings == b.votings,
        a.votings_events == b.votings_events,
    ensures
        keys_wf(b),
{
}

pub proof fn lemma_keys_wf_votings(a: AppStateView, b: AppStateView)
    requires
        keys_wf(a),
        a.epochs == b.epochs,
        a.votings_events == b.votings_events,
        forall|i: int| 0 <= i < b.votings.len() ==> voting_wf(#[trigger] b.votings[i]),
        forall|i: int| 0 <= i < b.votings.len() ==> (#[trigger] vkey(b.votings[i])) is Some,
        forall|i: int, j: int|
            0 <= i < b.votings.len() && 0 <= j < b.votings.len() && #[trigger] vkey(b.votings[i])
                == #[trigger] vkey(b.votings[j]) ==> i == j,
    ensures
        keys_wf(b),
{
}

pub proof fn lemma_keys_wf_logs(a: AppStateView, b: AppStateView)
    requires
        keys_wf(a),
        a.epochs == b.epochs,
        a.votings == b.votings,
        forall|i: int, j: int|
            0 <= i < b.votings_events.len() && 0 <= j < b.votings_events.len()
                && #[trigger] b.votings_events[i].0 == #[trigger] b.votings_events[j].0 ==> i == j,
    ensures
        keys_wf(b),
{
}

/// The state's invariant.
pub open spec fn state_wf(s: AppStateView) -> bool {
    &&& wallets_wf(s.wallets)
    &&& s.wallets_events.len() == s.wallets.len()
    &&& keys_wf(s)
}

/// `s` with another account sequence.
pub open spec fn with_wallets(s: AppStateView, ws: Seq<WalletView>) -> AppStateView {
    AppStateView { wallets: ws, ..s }
}

impl AppState {
    pub open spec fn wf(&self) -> bool {
        state_wf(self@)
    }

    /// The position of the account with address `a`.
    pub fn find_wallet(&self, a: &Address) -> (r: Option<usize>)
        requires
            addresses_unique(self@.wallets),
        ensures
            r is Some <==> find_index(self@.wallets, *a) >= 0,
            r matches Some(i) ==> i == find_index(self@.wallets, *a) && i < self.wallets@.len()
                && self@.wallets[i as int].address == *a,
    {
        proof {
            lemma_find_index(self@.wallets, *a);
        }
        let mut i: usize = 0;
        while i < self.wallets.len()
            invariant
                i <= self.wallets@.len(),
                addresses_unique(self@.wallets),
                forall|j: int| 0 <= j < i ==> self@.wallets[j].address != *a,
            decreases self.wallets@.len() - i,
        {
            if self.wallets[i].address.equals(a) {
                proof {
                    lemma_find_index_unique(self@.wallets, i as int);
                }
                return Some(i);
            }
            i = i + 1;
        }
        None
    }

    /// Delegates `from`'s shares to `to`, replacing any earlier delegation.
    pub fn delegate(&mut self, from: &Address, to: &Address, tm: u64) -> (r: Result<(), LedgerError>)
        requires
            old(self).wf(),
        ensures
            final(self).wf(),
            (final(self)@.wallets, r) == delegate_spec(old(self)@.wallets, *from, *to, tm),
            final(self)@ == with_wallets(old(self)@, final(self)@.wallets),
    {
        let ghost ws = self@.wallets;
        proof {
            lemma_delegate_wf(ws, *from, *to, tm);
        }
        let fi = match self.find_wallet(from) {
            Some(i) => i,
            None => return Err(LedgerError::UnknownAccount),
        };
        let ti = match self.find_wallet(to) {
            Some(i) => i,
            None => return Err(LedgerError::UnknownAccount),
        };
        if let Some(d) = self.wallets[fi].delegates {
            if let Some(ci) = self.find_wallet(&d.address) {
                proof {
                    lemma_wf_at(ws, ci as int, *from);
                }
                self.wallets[ci].delegated.remove(from);
                self.wallets[ci].update_voting_power();
                proof {
                    assert(self@.wallets[ci as int] == drop_incoming(ws[ci as int], *from));
                    assert(self@.wallets =~= ws.update(ci as int, drop_incoming(ws[ci as int], *from)));
                }
            }
        }
        proof {
            assert(self@.wallets =~= detach(ws, fi as int));
        }
        let sh = self.wallets[fi].shares;
        self.wallets[fi].delegates = Some(Delegation { address: *to, shares: sh, tm });
        self.wallets[fi].update_voting_power();
        proof {
            lemma_detach(ws, fi as int);
            lemma_wf_at(ws, ti as int, *from);
        }
        self.wallets[ti].delegated.insert(*from, sh);
        self.wallets[ti].update_voting_power();
        proof {
            assert(self@.wallets =~= delegate_spec(ws, *from, *to, tm).0);
            assert(self@ == with_wallets(old(self)@, self@.wallets));
            assert(wallets_wf(self@.wallets));
            assert(keys_wf(self@));
        }
        Ok(())
    }

    /// Withdraws `from`'s delegation to `to`. The delegation is cleared
    /// whenever `to` is its target (or there is none); `shares` is only
    /// checked against `from`'s shares afterwards.
    pub fn undelegate(&mut self, from: &Address, to: &Address, shares: Amount) -> (r: Result<
        (),
        LedgerError,
    >)
        requires
            old(self).wf(),
        ensures
            final(self).wf(),
            (final(self)@.wallets, r) == undelegate_spec(old(self)@.wallets, *from, *to, shares),
            final(self)@ == with_wallets(old(self)@, final(self)@.wallets),
    {
        let ghost ws = self@.wallets;
        proof {
            lemma_undelegate_wf(ws, *from, *to, shares);
        }
        let fi = match self.find_wallet(from) {
            Some(i) => i,
            None => return Err(LedgerError::UnknownAccount),
        };
        if let Some(d) = self.wallets[fi].delegates {
            if !d.address.equals(to) {
                return Err(LedgerError::DelegationMismatch);
            }
            if let Some(ci) = self.find_wallet(&d.address) {
                proof {
                    lemma_wf_at(ws, ci as int, *from);
                }
                self.wallets[ci].delegated.remove(from);
                self.wallets[ci].update_voting_power();
                proof {
                    assert(self@.wallets[ci as int] == drop_incoming(ws[ci as int], *from));
                    assert(self@.wallets =~= ws.update(ci as int, drop_incoming(ws[ci as int], *from)));
                }
            }
        }
        proof {
            assert(self@.wallets =~= detach(ws, fi as int));
        }
        self.wallets[fi].delegates = None;
        self.wallets[fi].update_voting_power();
        proof {
            assert(self@.wallets =~= undelegate_spec(ws, *from, *to, shares).0);
            assert(self@ == with_wallets(old(self)@, self@.wallets));
            assert(keys_wf(self@));
        }
        if self.wallets[fi].shares.lt(&shares) {
            Err(LedgerError::InsufficientShares)
        } else {
            Ok(())
        }
    }

    /// Brings the delegation of the account at `i` in line with its shares,
    /// on both sides, and derives its voting power anew.
    fn resync(&mut self, i: usize)
        requires
            i < old(self)@.wallets.len(),
            addresses_unique(old(self)@.wallets),
            maps_unique(old(self)@.wallets),
        ensures
            final(self)@.wallets == reshare(old(self)@.wallets, i as int, old(self)@.wallets[i as int]),
            final(self)@ == with_wallets(old(self)@, final(self)@.wallets),
    {
        let ghost ws = self@.wallets;
        let ghost w = ws[i as int];
        let ghost w1 = with_voting_power(
            WalletView {
                delegates: match w.delegates {
                    Some(d) => Some(Delegation { shares: w.shares, ..d }),
                    None => None,
                },
                ..w
            },
        );
        let sh = self.wallets[i].shares;
        if let Some(d) = self.wallets[i].delegates {
            self.wallets[i].delegates = Some(Delegation { shares: sh, ..d });
        }
        self.wallets[i].update_voting_power();
        let ghost ws1 = self@.wallets;
        proof {
            assert(ws1[i as int] == w1);
            assert(ws1 =~= ws.update(i as int, w1));
            assert forall|j: int| 0 <= j < ws.len() implies #[trigger] ws[j].address == ws1[j].address by {}
            crate::ledger::lemma_find_same(ws, ws1);
        }
        if let Some(d) = self.wallets[i].delegates {
            if let Some(ti) = self.find_wallet(&d.address) {
                let a = self.wallets[i].address;
                proof {
                    reveal(maps_unique);
                    assert(keys_unique(ws[ti as int].delegated));
                }
                self.wallets[ti].delegated.insert(a, sh);
                self.wallets[ti].update_voting_power();
                proof {
                    assert(self@.wallets[ti as int] == put_incoming(ws1[ti as int], a, sh));
                    assert(self@.wallets =~= ws1.update(ti as int, put_incoming(ws1[ti as int], a, sh)));
                }
            }
        }
        proof {
            assert(self@.wallets =~= reshare(ws, i as int, ws[i as int]));
        }
    }

    /// Stake of `amount` for `shares` by `user`. A user without a record is
    /// ignored; one whose stake or shares would overflow is left as it was.
    pub fn staked(&mut self, user: &Address, amount: &Amount, shares: &Amount) -> (r: Result<
        (),
        LedgerError,
    >)
        requires
            old(self).wf(),
        ensures
            final(self).wf(),
            (final(self)@.wallets, r) == staked_spec(old(self)@.wallets, *user, *amount, *shares),
            final(self)@ == with_wallets(old(self)@, final(self)@.wallets),
    {
        let ghost ws = self@.wallets;
        proof {
            lemma_staked_wf(ws, *user, *amount, *shares);
        }
        let i = match self.find_wallet(user) {
            Some(i) => i,
            None => return Ok(()),
        };
        let st = match self.wallets[i].staked.checked_add(*amount) {
            Some(x) => x,
            None => return Err(LedgerError::Arithmetic),
        };
        let sh = match self.wallets[i].shares.checked_add(*shares) {
            Some(x) => x,
            None => return Err(LedgerError::Arithmetic),
        };
        self.wallets[i].staked = st;
        self.wallets[i].shares = sh;
        if self.wallets[i].vested_amount.is_none() && self.wallets[i].withdrawn.is_zero() {
            self.wallets[i].supporter = true;
        }
        proof {
            assert(self@.wallets =~= ws.update(i as int, self@.wallets[i as int]));
            crate::ledger::lemma_find_same(ws, self@.wallets);
            reveal(maps_unique);
        }
        let ghost w1 = self@.wallets[i as int];
        self.resync(i);
        proof {
            crate::ledger::lemma_reshare_update(ws, i as int, w1, w1);
            assert(self@.wallets == staked_spec(ws, *user, *amount, *shares).0);
            assert(self@ == with_wallets(old(self)@, self@.wallets));
            assert(keys_wf(self@));
        }
        Ok(())
    }

    /// Reserves `amount` (cut to the stake) and `shares` of `user` for
    /// unstaking at `scheduled_for`, taking them off at once; an earlier
    /// reservation is replaced.
    pub fn scheduled_unstake(&mut self, user: &Address, amount: &Amount, shares: &Amount, scheduled_for: u64) -> (r:
        Result<(), LedgerError>)
        requires
            old(self).wf(),
        ensures
            final(self).wf(),
            (final(self)@.wallets, r) == scheduled_unstake_spec(
                old(self)@.wallets,
                *user,
                *amount,
                *shares,
                scheduled_for,
            ),
            final(self)@ == with_wallets(old(self)@, final(self)@.wallets),
    {
        let ghost ws = self@.wallets;
        proof {
            lemma_scheduled_unstake_wf(ws, *user, *amount, *shares, scheduled_for);
        }
        let i = match self.find_wallet(user) {
            Some(i) => i,
            None => return Err(LedgerError::UnknownAccount),
        };
        let sh = match self.wallets[i].shares.checked_sub(*shares) {
            Some(x) => x,
            None => return Err(LedgerError::InsufficientShares),
        };
        let deduct = if self.wallets[i].staked.lt(amount) {
            self.wallets[i].staked
        } else {
            *amount
        };
        let st = match self.wallets[i].staked.checked_sub(deduct) {
            Some(x) => x,
            None => return Err(LedgerError::Arithmetic),
        };
        self.wallets[i].scheduled_unstake = Some(
            ScheduledUnstake { amount: deduct, shares: *shares, tm: scheduled_for },
        );
        self.wallets[i].staked = st;
        self.wallets[i].shares = sh;
        self.wallets[i].supporter = false;
        proof {
            assert(deduct == unstake_deduction(ws[i as int], *amount));
            assert(self@.wallets =~= ws.update(i as int, self@.wallets[i as int]));
            crate::ledger::lemma_find_same(ws, self@.wallets);
            reveal(maps_unique);
        }
        let ghost w1 = self@.wallets[i as int];
        self.resync(i);
        proof {
            crate::ledger::lemma_reshare_update(ws, i as int, w1, w1);
            assert(self@.wallets == scheduled_unstake_spec(ws, *user, *amount, *shares, scheduled_for).0);
            assert(self@ == with_wallets(old(self)@, self@.wallets));
            assert(keys_wf(self@));
        }
        Ok(())
    }

    /// Total stake of all accounts, cut short at the largest amount.
    pub fn get_staked_total(&self) -> (r: Amount)
        ensures
            r@ == staked_total(self@.wallets),
    {
        let ghost ws = self@.wallets;
        let mut acc = Amount::zero();
        let mut i: usize = 0;
        while i < self.wallets.len()
            invariant
                i <= ws.len(),
                ws == self@.wallets,
                acc@ == saturate(sum_wallets(ws.take(i as int), |w: WalletView| staked_of(w))),
            decreases ws.len() - i,
        {
            proof {
                assert(ws.take(i + 1).drop_last() =~= ws.take(i as int));
            }
            acc = acc.saturating_add(self.wallets[i].staked);
            i = i + 1;
        }
        proof {
            assert(ws.take(i as int) =~= ws);
        }
        acc
    }

    /// Total shares of all accounts, cut short at the largest amount.
    pub fn get_shares_total(&self) -> (r: Amount)
        ensures
            r@ == shares_total(self@.wallets),
    {
        let ghost ws = self@.wallets;
        let mut acc = Amount::zero();
        let mut i: usize = 0;
        while i < self.wallets.len()
            invariant
                i <= ws.len(),
                ws == self@.wallets,
                acc@ == saturate(sum_wallets(ws.take(i as int), |w: WalletView| shares_of(w))),
            decreases ws.len() - i,
        {
            proof {
                assert(ws.take(i + 1).drop_last() =~= ws.take(i as int));
            }
            acc = acc.saturating_add(self.wallets[i].shares);
            i = i + 1;
        }
        proof {
            assert(ws.take(i as int) =~= ws);
        }
        acc
    }

    /// Total voting power of all accounts, cut short at the largest amount.
    pub fn get_votes_total(&self) -> (r: Amount)
        ensures
            r@ == votes_total(self@.wallets),
    {
        let ghost ws = self@.wallets;
        let mut acc = Amount::zero();
        let mut i: usize = 0;
        while i < self.wallets.len()
            invariant
                i <= ws.len(),
                ws == self@.wallets,
                acc@ == saturate(sum_wallets(ws.take(i as int), |w: WalletView| power_of(w))),
            decreases ws.len() - i,
        {
            proof {
                assert(ws.take(i + 1).drop_last() =~= ws.take(i as int));
            }
            acc = acc.saturating_add(self.wallets[i].voting_power);
            i = i + 1;
        }
        proof {
            assert(ws.take(i as int) =~= ws);
        }
        acc
    }

    /// Confirms an unstake of `amount` by `user`: the reservation is cleared
    /// and nothing else changes. Where the reservation held fewer shares than
    /// `amount` stands for at the ledger's current rate, the mismatch is
    /// reported as `InsufficientShares`, after the clearing.
    pub fn unstaked(&mut self, user: &Address, amount: &Amount) -> (r: Result<(), LedgerError>)
        requires
            old(self).wf(),
        ensures
            final(self).wf(),
            (final(self)@.wallets, r) == unstaked_spec(old(self)@.wallets, *user, *amount),
            final(self)@ == with_wallets(old(self)@, final(self)@.wallets),
    {
        let ghost ws = self@.wallets;
        let total_stake = self.get_staked_total();
        let total_shares = self.get_shares_total();
        let i = match self.find_wallet(user) {
            Some(i) => i,
            None => return Ok(()),
        };
        let su = match self.wallets[i].scheduled_unstake {
            Some(su) => su,
            None => return Ok(()),
        };
        self.wallets[i].scheduled_unstake = None;
        proof {
            assert(self@.wallets =~= unstaked_spec(ws, *user, *amount).0);
            lemma_touch_wf(ws, self@.wallets);
            assert(self@ == with_wallets(old(self)@, self@.wallets));
            assert(keys_wf(self@));
        }
        let implied = match amount.checked_mul(total_shares) {
            Some(x) => x.checked_div(total_stake),
            None => None,
        };
        match implied {
            Some(n) => if su.shares.lt(&n) {
                Err(LedgerError::InsufficientShares)
            } else {
                Ok(())
            },
            None => Ok(()),
        }
    }

    /// A deposit of `amount` by `user`; a user without a record is ignored.
    /// A vesting deposit adds to the vested amount; any but a plain one ends
    /// the supporter mark.
    pub fn deposited(&mut self, user: &Address, amount: &Amount, kind: DepositKind) -> (r: Result<(), LedgerError>)
        requires
            old(self).wf(),
        ensures
            final(self).wf(),
            (final(self)@.wallets, r) == deposited_spec(old(self)@.wallets, *user, *amount, kind),
            final(self)@ == with_wallets(old(self)@, final(self)@.wallets),
    {
        let ghost ws = self@.wallets;
        let i = match self.find_wallet(user) {
            Some(i) => i,
            None => return Ok(()),
        };
        let dep = match self.wallets[i].deposited.checked_add(*amount) {
            Some(x) => x,
            None => return Err(LedgerError::Arithmetic),
        };
        let vested = match self.wallets[i].vested_amount {
            Some(v) => v,
            None => Amount::zero(),
        };
        let new_vested = match kind {
            DepositKind::Vesting => match vested.checked_add(*amount) {
                Some(x) => Some(x),
                None => return Err(LedgerError::Arithmetic),
            },
            _ => self.wallets[i].vested_amount,
        };
        self.wallets[i].deposited = dep;
        self.wallets[i].vested_amount = new_vested;
        match kind {
            DepositKind::Plain => {},
            _ => {
                self.wallets[i].supporter = false;
            },
        }
        proof {
            assert(self@.wallets =~= deposited_spec(ws, *user, *amount, kind).0);
            lemma_touch_wf(ws, self@.wallets);
            assert(self@ == with_wallets(old(self)@, self@.wallets));
            assert(keys_wf(self@));
        }
        Ok(())
    }

    /// A withdrawal of `amount` by `user`, which ends the supporter mark; a
    /// user without a record is ignored.
    pub fn withdrawn(&mut self, user: &Address, amount: &Amount) -> (r: Result<(), LedgerError>)
        requires
            old(self).wf(),
        ensures
            final(self).wf(),
            (final(self)@.wallets, r) == withdrawn_spec(old(self)@.wallets, *user, *amount),
            final(self)@ == with_wallets(old(self)@, final(self)@.wallets),
    {
        let ghost ws = self@.wallets;
        let i = match self.find_wallet(user) {
            Some(i) => i,
            None => return Ok(()),
        };
        let wd = match self.wallets[i].withdrawn.checked_add(*amount) {
            Some(x) => x,
            None => return Err(LedgerError::Arithmetic),
        };
        self.wallets[i].withdrawn = wd;
        self.wallets[i].supporter = false;
        proof {
            assert(self@.wallets =~= withdrawn_spec(ws, *user, *amount).0);
            lemma_touch_wf(ws, self@.wallets);
            assert(self@ == with_wallets(old(self)@, self@.wallets));
            assert(keys_wf(self@));
        }
        Ok(())
    }

    /// Stores `e` under its index, replacing an epoch of that index.
    fn insert_epoch(&mut self, e: Epoch)
        requires
            keys_wf(old(self)@),
            keys_unique(e@.stake),
        ensures
            final(self)@ == (AppStateView { epochs: insert_epoch(old(self)@.epochs, e@), ..old(self)@ }),
            keys_wf(final(self)@),
    {
        let ghost es = self@.epochs;
        proof {
            lemma_epoch_pos(es, e.index);
            lemma_insert_epoch_unique(es, e@);
            let fs = insert_epoch(es, e@);
            assert forall|i: int| 0 <= i < fs.len() implies keys_unique(#[trigger] fs[i].stake) by {
                if fs[i] != e@ {
                    assert(fs[i] == es[i]);
                }
            }
        }
        let mut i: usize = 0;
        while i < self.epochs.len()
            invariant
                i <= es.len(),
                es == self@.epochs,
                self@ == old(self)@,
                keys_wf(self@),
                keys_unique(e@.stake),
                forall|j: int| 0 <= j < i ==> es[j].index != e.index,
            decreases es.len() - i,
        {
            if self.epochs[i].index == e.index {
                proof {
                    lemma_epoch_pos(es, e.index);
                    assert(es[i as int].index == e.index);
                    assert(es[epoch_pos(es, e.index)].index == es[i as int].index);
                    assert(epoch_pos(es, e.index) == i);
                }
                self.epochs.set(i, e);
                proof {
                    assert(self@.epochs =~= insert_epoch(es, e@));
                    lemma_insert_epoch_unique(es, e@);
                    let fs = insert_epoch(es, e@);
                    assert forall|k: int| 0 <= k < fs.len() implies keys_unique(#[trigger] fs[k].stake) by {
                        if k != i {
                            assert(fs[k] == es[k]);
                        }
                    }
                }
                return;
            }
            i = i + 1;
        }
        self.epochs.push(e);
        proof {
            assert(self@.epochs =~= insert_epoch(es, e@));
        }
    }

    /// Mints `amount` as the rewards of epoch `epoch_index`: records the
    /// epoch, credits every account `amount * stake / total` rounded down,
    /// and starts the next epoch with `new_apr`. `total` is `total_stake`
    /// less `amount` where the chain gives `total_stake`, else the sum of
    /// the stakes. Where an amount does not fit, nothing changes.
    pub fn distribute(
        &mut self,
        epoch_index: u64,
        amount: Amount,
        new_apr: Amount,
        total_stake: Option<Amount>,
        tm: u64,
        block_number: u64,
        tx: TxHash,
    ) -> (r: Result<(), LedgerError>)
        requires
            old(self).wf(),
        ensures
            final(self).wf(),
            (final(self)@, r) == distribute_spec(
                old(self)@,
                epoch_index,
                amount,
                new_apr,
                total_stake,
                tm,
                block_number,
                tx,
            ),
    {
        let ghost ws = self@.wallets;
        let ghost spec = distribute_spec(self@, epoch_index, amount, new_apr, total_stake, tm, block_number, tx);
        let n = self.wallets.len();
        let mut stake = AmountMap::new();
        let mut i: usize = 0;
        while i < n
            invariant
                n == ws.len(),
                ws == self@.wallets,
                self@ == old(self)@,
                old(self).wf(),
                i <= n,
                stake@ == snapshot(ws.take(i as int)),
                stake@.len() == i,
                forall|j: int| 0 <= j < i ==> (#[trigger] stake@[j]).1@ == epoch_stake(ws[j]),
                forall|j: int| 0 <= j < i ==> epoch_stake(#[trigger] ws[j]) < amount_bound(),
            decreases n - i,
        {
            let s = match self.wallets[i].staked.checked_add(self.wallets[i].rewards) {
                Some(x) => x,
                None => {
                    proof {
                        assert(epoch_stake(ws[i as int]) >= amount_bound());
                    }
                    return Err(LedgerError::Arithmetic);
                },
            };
            stake.entries.push((self.wallets[i].address, s));
            proof {
                assert(stake@ =~= snapshot(ws.take(i + 1)));
            }
            i = i + 1;
        }
        proof {
            assert(ws.take(n as int) =~= ws);
        }
        let total = match total_stake {
            Some(t) => match t.checked_sub(amount) {
                Some(x) => x,
                None => return Err(LedgerError::Arithmetic),
            },
            None => match stake.checked_sum() {
                Some(x) => {
                    proof {
                        lemma_snapshot_sum(ws);
                    }
                    x
                },
                None => {
                    proof {
                        lemma_snapshot_sum(ws);
                    }
                    return Err(LedgerError::Arithmetic);
                },
            },
        };
        proof {
            assert(total@ == epoch_total(ws, amount, total_stake));
            assert(total == Amount::from_nat(epoch_total(ws, amount, total_stake) as nat));
        }
        if n > 0 && total.is_zero() {
            return Err(LedgerError::Arithmetic);
        }
        let mut rewards: Vec<Amount> = Vec::new();
        let mut i: usize = 0;
        while i < n
            invariant
                n == ws.len(),
                n == stake@.len(),
                ws == self@.wallets,
                self@ == old(self)@,
                old(self).wf(),
                stake@ == snapshot(ws),
                forall|j: int| 0 <= j < n ==> (#[trigger] stake@[j]).1@ == epoch_stake(ws[j]),
                total == Amount::from_nat(epoch_total(ws, amount, total_stake) as nat),
                total@ == epoch_total(ws, amount, total_stake),
                i <= n,
                n > 0 ==> total@ > 0,
                rewards@.len() == i,
                forall|j: int|
                    0 <= j < i ==> #[trigger] rewards@[j] == Amount::from_nat(
                        ws[j].rewards@ + reward_share(amount@, epoch_stake(ws[j]), total@),
                    ),
                forall|j: int| 0 <= j < i ==> amount@ * epoch_stake(#[trigger] ws[j]) < amount_bound(),
                forall|j: int|
                    0 <= j < i ==> (#[trigger] ws[j]).rewards@ + reward_share(
                        amount@,
                        epoch_stake(ws[j]),
                        total@,
                    ) < amount_bound(),
            decreases n - i,
        {
            let m = match amount.checked_mul(stake.entries[i].1) {
                Some(x) => x,
                None => {
                    proof {
                        assert(amount@ * epoch_stake(ws[i as int]) >= amount_bound());
                    }
                    return Err(LedgerError::Arithmetic);
                },
            };
            let q = match m.checked_div(total) {
                Some(x) => x,
                None => return Err(LedgerError::Arithmetic),
            };
            let nr = match self.wallets[i].rewards.checked_add(q) {
                Some(x) => x,
                None => {
                    proof {
                        assert((ws[i as int]).rewards@ + reward_share(
                            amount@,
                            epoch_stake(ws[i as int]),
                            total@,
                        ) >= amount_bound());
                    }
                    return Err(LedgerError::Arithmetic);
                },
            };
            rewards.push(nr);
            i = i + 1;
        }
        if epoch_index == u64::MAX {
            return Err(LedgerError::Arithmetic);
        }
        proof {
            assert(distribution_fits(ws, epoch_index, amount, total_stake));
        }
        proof {
            assert(addresses_unique(ws));
            assert forall|a: int, b: int|
                0 <= a < stake@.len() && 0 <= b < stake@.len() && #[trigger] stake@[a].0 == #[trigger] stake@[b].0
                    implies a == b by {
                assert(stake@[a].0 == ws[a].address && stake@[b].0 == ws[b].address);
            }
        }
        let e = Epoch::new(epoch_index, self.apr, amount, total, stake, tm, block_number, tx);
        self.insert_epoch(e);
        let ghost pre = self@;
        self.epoch_index = epoch_index + 1;
        self.apr = new_apr;
        proof {
            lemma_keys_wf_same(pre, self@);
            assert(self@ == (AppStateView { wallets: self@.wallets, ..spec.0 }));
            lemma_keys_wf_same(self@, spec.0);
        }
        let mut i: usize = 0;
        while i < n
            invariant
                n == ws.len(),
                n == self@.wallets.len(),
                rewards@.len() == n,
                i <= n,
                forall|j: int|
                    0 <= j < n ==> #[trigger] rewards@[j] == Amount::from_nat(
                        ws[j].rewards@ + reward_share(amount@, epoch_stake(ws[j]), total@),
                    ),
                forall|j: int| 0 <= j < i ==> #[trigger] self@.wallets[j] == (WalletView { rewards: rewards@[j], ..ws[j] }),
                forall|j: int| i <= j < n ==> #[trigger] self@.wallets[j] == ws[j],
                self@ == (AppStateView { wallets: self@.wallets, ..spec.0 }),
                old(self).wf(),
                ws == old(self)@.wallets,
                keys_wf(self@),
                keys_wf(spec.0),
                self@.wallets_events.len() == n,
            decreases n - i,
        {
            let ghost before = self@.wallets;
            proof {
                assert(before[i as int] == ws[i as int]);
            }
            self.wallets[i].rewards = rewards[i];
            proof {
                assert(self@.wallets =~= before.update(
                    i as int,
                    WalletView { rewards: rewards@[i as int], ..ws[i as int] },
                ));
                assert(self@ == (AppStateView { wallets: self@.wallets, ..spec.0 }));
                lemma_keys_wf_same(spec.0, self@);
            }
            i = i + 1;
        }
        proof {
            assert(self@.wallets =~= spec.0.wallets);
            lemma_touch_wf(ws, self@.wallets);
            assert(self@ == spec.0);
        }
        Ok(())
    }
}

/// APR at genesis, 38.75%, as a fraction scaled by 10^18.
pub const GENESIS_APR: u64 = 387_500_000_000_000_000;

/// The decimals of the tokens known from the start.
pub open spec fn known_decimals() -> Seq<(Seq<char>, usize)> {
    seq![("USDC"@, 6usize), ("API3"@, 18usize)]
}

/// The decimals of the tokens known from the start.
pub fn get_known_decimals() -> (r: Vec<(String, usize)>)
    ensures
        r@.map_values(|d: (String, usize)| (d.0@, d.1)) == known_decimals(),
{
    let mut r: Vec<(String, usize)> = Vec::new();
    r.push(("USDC".to_owned(), 6));
    r.push(("API3".to_owned(), 18));
    proof {
        assert(r@.map_values(|d: (String, usize)| (d.0@, d.1)) =~= known_decimals());
    }
    r
}

/// The state before any event: epoch 1 at the genesis APR, and nothing else
/// but the known token decimals.
pub open spec fn initial_state(chain_id: u64) -> AppStateView {
    AppStateView {
        version: "20210820"@,
        chain_id,
        epoch_index: 1,
        apr: Amount::from_nat(GENESIS_APR as nat),
        last_block: 0,
        epochs: Seq::empty(),
        votings: Seq::empty(),
        votings_events: Seq::empty(),
        wallets: Seq::empty(),
        wallets_events: Seq::empty(),
        events: Seq::empty(),
        vested: Seq::empty(),
        treasuries: Seq::empty(),
        decimals: known_decimals(),
        grants: Seq::empty(),
    }
}

impl AppState {
    pub fn new(chain_id: u64) -> (r: AppState)
        ensures
            r@ == initial_state(chain_id),
            r.wf(),
    {
        let r = AppState {
            version: "20210820".to_owned(),
            chain_id,
            epoch_index: 1,
            apr: Amount::from_u64(GENESIS_APR),
            last_block: 0,
            epochs: Vec::new(),
            votings: Vec::new(),
            votings_events: Vec::new(),
            wallets: Vec::new(),
            wallets_events: Vec::new(),
            events: Vec::new(),
            vested: Vec::new(),
            treasuries: Vec::new(),
            decimals: get_known_decimals(),
            grants: Vec::new(),
        };
        proof {
            crate::ledger::lemma_empty_wf();
            let i = initial_state(chain_id);
            assert(r@.epochs =~= i.epochs);
            assert(r@.votings =~= i.votings);
            assert(r@.votings_events =~= i.votings_events);
            assert(r@.wallets =~= i.wallets);
            assert(r@.wallets_events =~= i.wallets_events);
            assert(r@.events =~= i.events);
            assert(r@.vested =~= i.vested);
            assert(r@.treasuries =~= i.treasuries);
            assert(r@.grants =~= i.grants);
            assert(r@ == i);
        }
        r
    }
}

} // verus!
