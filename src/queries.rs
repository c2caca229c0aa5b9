//! Read-only queries over the state: per-account lookups and DAO-wide totals.

use vstd::prelude::*;
use crate::address::Address;
use crate::amount::{Amount, amount_bound, saturate};
use crate::amount_map::get_of;
use crate::epoch::EpochView;
use crate::events::OnChainEvent;
use crate::labels::has_vested_amount;
use crate::ledger::{LedgerError, find_index, sum_wallets};
use crate::reducer::fold_spec;
use crate::rewards::{epoch_pos, lemma_epoch_pos};
use crate::state::{AppState, initial_state, keys_wf};
use crate::wallet::WalletView;

verus! {

/// The number of accounts of which `p` holds.
pub open spec fn count_wallets(ws: Seq<WalletView>, p: spec_fn(WalletView) -> bool) -> nat
    decreases ws.len(),
{
    if ws.len() == 0 {
        0
    } else {
        count_wallets(ws.drop_last(), p) + if p(ws.last()) {
            1nat
        } else {
            0nat
        }
    }
}

/// The sum of the amounts minted over the epochs.
pub open spec fn minted_sum(es: Seq<EpochView>) -> nat
    decreases es.len(),
{
    if es.len() == 0 {
        0
    } else {
        minted_sum(es.drop_last()) + es.last().minted@
    }
}

pub open spec fn delegating_shares_of(w: WalletView) -> nat {
    if w.delegates is Some {
        w.shares@
    } else {
        0
    }
}

pub open spec fn vested_of(w: WalletView) -> nat {
    match w.vested_amount {
        Some(a) => a@,
        None => 0,
    }
}

/// Withdrew more than 90% of what it deposited.
pub open spec fn mostly_withdrawn(w: WalletView) -> bool {
    w.withdrawn@ * 10 > w.deposited@ * 9
}

/// The reward of `addr` in one epoch, where the epoch counts up to `upto`
/// and the account had stake in it; `None` where it cannot be computed.
pub open spec fn epoch_reward(e: EpochView, addr: Address, upto: u64) -> Option<nat> {
    match get_of(e.stake, addr) {
        None => Some(0),
        Some(s) => if s@ == 0 || e.index > upto {
            Some(0)
        } else if e.minted@ * s@ >= amount_bound() || e.total@ == 0 {
            None
        } else {
            Some(e.minted@ * s@ / e.total@)
        },
    }
}

/// The rewards of `addr` over the epochs up to `upto`; `None` where a term
/// or the sum cannot be computed.
pub open spec fn rewards_upto(es: Seq<EpochView>, addr: Address, upto: u64) -> Option<nat>
    decreases es.len(),
{
    if es.len() == 0 {
        Some(0)
    } else {
        match (rewards_upto(es.drop_last(), addr, upto), epoch_reward(es.last(), addr, upto)) {
            (Some(a), Some(b)) => if a + b < amount_bound() {
                Some(a + b)
            } else {
                None
            },
            _ => None,
        }
    }
}

proof fn lemma_rewards_prefix(es: Seq<EpochView>, addr: Address, upto: u64, i: int)
    requires
        0 <= i <= es.len(),
        rewards_upto(es.take(i), addr, upto) is None,
    ensures
        rewards_upto(es, addr, upto) is None,
    decreases es.len(),
{
    if i < es.len() {
        assert(es.drop_last().take(i) =~= es.take(i));
        lemma_rewards_prefix(es.drop_last(), addr, upto, i);
    } else {
        assert(es.take(i) =~= es);
    }
}

impl AppState {
    /// The voting power of `voter`, or zero for an account without a record.
    pub fn get_voting_power_of(&self, voter: &Address) -> (r: Amount)
        requires
            self.wf(),
        ensures
            r == (if find_index(self@.wallets, *voter) >= 0 {
                self@.wallets[find_index(self@.wallets, *voter)].voting_power
            } else {
                Amount::from_nat(0)
            }),
    {
        match self.find_wallet(voter) {
            Some(i) => self.wallets[i].voting_power,
            None => Amount::zero(),
        }
    }

    /// The sum minted over all epochs, cut short at the largest amount.
    pub fn get_minted_total(&self) -> (r: Amount)
        ensures
            r@ == saturate(minted_sum(self@.epochs)),
    {
        let ghost es = self@.epochs;
        let mut acc = Amount::zero();
        let mut i: usize = 0;
        while i < self.epochs.len()
            invariant
                i <= es.len(),
                es == self@.epochs,
                acc@ == saturate(minted_sum(es.take(i as int))),
            decreases es.len() - i,
        {
            proof {
                assert(es.take(i + 1).drop_last() =~= es.take(i as int));
            }
            acc = acc.saturating_add(self.epochs[i].minted);
            i = i + 1;
        }
        proof {
            assert(es.take(i as int) =~= es);
        }
        acc
    }

    /// The stake of `addr` recorded in epoch `epoch_index`, or zero.
    pub fn get_staked_for_epoch(&self, addr: &Address, epoch_index: u64) -> (r: Amount)
        requires
            self.wf(),
        ensures
            r == (if epoch_pos(self@.epochs, epoch_index) >= 0 {
                match get_of(self@.epochs[epoch_pos(self@.epochs, epoch_index)].stake, *addr) {
                    Some(s) => s,
                    None => Amount::from_nat(0),
                }
            } else {
                Amount::from_nat(0)
            }),
    {
        let ghost es = self@.epochs;
        proof {
            lemma_epoch_pos(es, epoch_index);
        }
        let mut i: usize = 0;
        while i < self.epochs.len()
            invariant
                i <= es.len(),
                es == self@.epochs,
                keys_wf(self@),
                forall|j: int| 0 <= j < i ==> es[j].index != epoch_index,
            decreases es.len() - i,
        {
            if self.epochs[i].index == epoch_index {
                proof {
                    lemma_epoch_pos(es, epoch_index);
                    assert(es[epoch_pos(es, epoch_index)].index == es[i as int].index);
                    assert(crate::amount_map::keys_unique(es[i as int].stake));
                }
                return match self.epochs[i].stake.get(addr) {
                    Some(s) => s,
                    None => Amount::zero(),
                };
            }
            i = i + 1;
        }
        Amount::zero()
    }

    /// The rewards of `addr` over the epochs up to `epoch_index`: in each
    /// epoch where it had stake, `minted * stake / total` rounded down.
    /// `None` where a term or the sum does not fit, or an epoch's total is
    /// zero.
    pub fn get_rewards(&self, addr: &Address, epoch_index: u64) -> (r: Option<Amount>)
        requires
            self.wf(),
        ensures
            r is Some <==> rewards_upto(self@.epochs, *addr, epoch_index) is Some,
            r matches Some(v) ==> Some(v@) == rewards_upto(self@.epochs, *addr, epoch_index),
    {
        let ghost es = self@.epochs;
        let mut acc = Amount::zero();
        let mut i: usize = 0;
        while i < self.epochs.len()
            invariant
                i <= es.len(),
                es == self@.epochs,
                keys_wf(self@),
                rewards_upto(es.take(i as int), *addr, epoch_index) == Some(acc@),
            decreases es.len() - i,
        {
            proof {
                assert(es.take(i + 1).drop_last() =~= es.take(i as int));
                assert(crate::amount_map::keys_unique(es[i as int].stake));
            }
            let term = match self.epochs[i].stake.get(addr) {
                None => Amount::zero(),
                Some(s) => if s.is_zero() || self.epochs[i].index > epoch_index {
                    Amount::zero()
                } else {
                    let m = match self.epochs[i].minted.checked_mul(s) {
                        Some(m) => m,
                        None => {
                            proof {
                                lemma_rewards_prefix(es, *addr, epoch_index, i + 1);
                            }
                            return None;
                        },
                    };
                    match m.checked_div(self.epochs[i].total) {
                        Some(q) => q,
                        None => {
                            proof {
                                lemma_rewards_prefix(es, *addr, epoch_index, i + 1);
                            }
                            return None;
                        },
                    }
                },
            };
            acc = match acc.checked_add(term) {
                Some(x) => x,
                None => {
                    proof {
                        lemma_rewards_prefix(es, *addr, epoch_index, i + 1);
                    }
                    return None;
                },
            };
            i = i + 1;
        }
        proof {
            assert(es.take(i as int) =~= es);
        }
        Some(acc)
    }

    /// The rewards of `addr` in epoch `epoch_index` alone: the rewards up to
    /// it less those up to the one before; zero for the first epoch.
    pub fn get_rewards_for_epoch(&self, addr: &Address, epoch_index: u64) -> (r: Option<Amount>)
        requires
            self.wf(),
        ensures
            epoch_index <= 1 ==> r == Some(Amount::from_nat(0)),
            epoch_index > 1 ==> (r is Some <==> (rewards_upto(self@.epochs, *addr, epoch_index) matches Some(a)
                && rewards_upto(self@.epochs, *addr, (epoch_index - 1) as u64) matches Some(b) && a >= b)),
            epoch_index > 1 ==> (r matches Some(v) ==> v@ == rewards_upto(self@.epochs, *addr, epoch_index).unwrap()
                - rewards_upto(self@.epochs, *addr, (epoch_index - 1) as u64).unwrap()),
    {
        if epoch_index > 1 {
            match (self.get_rewards(addr, epoch_index), self.get_rewards(addr, epoch_index - 1)) {
                (Some(a), Some(b)) => a.checked_sub(b),
                _ => None,
            }
        } else {
            Some(Amount::zero())
        }
    }

    /// The number of accounts that delegate, stopping at the largest `u32`.
    pub fn get_delegating_num(&self) -> (r: u32)
        ensures
            r == if count_wallets(self@.wallets, |w: WalletView| w.delegates is Some) < u32::MAX {
                count_wallets(self@.wallets, |w: WalletView| w.delegates is Some)
            } else {
                u32::MAX as nat
            },
    {
        let ghost ws = self@.wallets;
        let mut n: u32 = 0;
        let mut i: usize = 0;
        while i < self.wallets.len()
            invariant
                i <= ws.len(),
                ws == self@.wallets,
                n == if count_wallets(ws.take(i as int), |w: WalletView| w.delegates is Some) < u32::MAX {
                    count_wallets(ws.take(i as int), |w: WalletView| w.delegates is Some)
                } else {
                    u32::MAX as nat
                },
            decreases ws.len() - i,
        {
            proof {
                assert(ws.take(i + 1).drop_last() =~= ws.take(i as int));
            }
            if self.wallets[i].delegates.is_some() && n < u32::MAX {
                n = n + 1;
            }
            i = i + 1;
        }
        proof {
            assert(ws.take(i as int) =~= ws);
        }
        n
    }

    /// The shares of the accounts that delegate, cut short at the largest
    /// amount.
    pub fn get_delegating_shares(&self) -> (r: Amount)
        ensures
            r@ == saturate(sum_wallets(self@.wallets, |w: WalletView| delegating_shares_of(w))),
    {
        let ghost ws = self@.wallets;
        let mut acc = Amount::zero();
        let mut i: usize = 0;
        while i < self.wallets.len()
            invariant
                i <= ws.len(),
                ws == self@.wallets,
                acc@ == saturate(sum_wallets(ws.take(i as int), |w: WalletView| delegating_shares_of(w))),
            decreases ws.len() - i,
        {
            proof {
                assert(ws.take(i + 1).drop_last() =~= ws.take(i as int));
            }
            if self.wallets[i].delegates.is_some() {
                acc = acc.saturating_add(self.wallets[i].shares);
            }
            i = i + 1;
        }
        proof {
            assert(ws.take(i as int) =~= ws);
        }
        acc
    }

    /// The number of accounts that withdrew more than 90% of their
    /// deposits, stopping at the largest `u32`.
    pub fn get_withdrawn_num(&self) -> (r: u32)
        ensures
            r == if count_wallets(self@.wallets, |w: WalletView| mostly_withdrawn(w)) < u32::MAX {
                count_wallets(self@.wallets, |w: WalletView| mostly_withdrawn(w))
            } else {
                u32::MAX as nat
            },
    {
        let ghost ws = self@.wallets;
        let mut n: u32 = 0;
        let mut i: usize = 0;
        while i < self.wallets.len()
            invariant
                i <= ws.len(),
                ws == self@.wallets,
                n == if count_wallets(ws.take(i as int), |w: WalletView| mostly_withdrawn(w)) < u32::MAX {
                    count_wallets(ws.take(i as int), |w: WalletView| mostly_withdrawn(w))
                } else {
                    u32::MAX as nat
                },
            decreases ws.len() - i,
        {
            proof {
                assert(ws.take(i + 1).drop_last() =~= ws.take(i as int));
            }
            if withdrew_most(&self.wallets[i].withdrawn, &self.wallets[i].deposited) && n < u32::MAX {
                n = n + 1;
            }
            i = i + 1;
        }
        proof {
            assert(ws.take(i as int) =~= ws);
        }
        n
    }

    /// The number of accounts with a vested deposit, stopping at the
    /// largest `u32`.
    pub fn get_vested_num(&self) -> (r: u32)
        ensures
            r == if count_wallets(self@.wallets, |w: WalletView| has_vested_amount(w)) < u32::MAX {
                count_wallets(self@.wallets, |w: WalletView| has_vested_amount(w))
            } else {
                u32::MAX as nat
            },
    {
        let ghost ws = self@.wallets;
        let mut n: u32 = 0;
        let mut i: usize = 0;
        while i < self.wallets.len()
            invariant
                i <= ws.len(),
                ws == self@.wallets,
                n == if count_wallets(ws.take(i as int), |w: WalletView| has_vested_amount(w)) < u32::MAX {
                    count_wallets(ws.take(i as int), |w: WalletView| has_vested_amount(w))
                } else {
                    u32::MAX as nat
                },
            decreases ws.len() - i,
        {
            proof {
                assert(ws.take(i + 1).drop_last() =~= ws.take(i as int));
            }
            let v = match self.wallets[i].vested_amount {
                Some(a) => !a.is_zero(),
                None => false,
            };
            if v && n < u32::MAX {
                n = n + 1;
            }
            i = i + 1;
        }
        proof {
            assert(ws.take(i as int) =~= ws);
        }
        n
    }

    /// The sum of the vested deposits, cut short at the largest amount.
    pub fn get_vested_shares(&self) -> (r: Amount)
        ensures
            r@ == saturate(sum_wallets(self@.wallets, |w: WalletView| vested_of(w))),
    {
        let ghost ws = self@.wallets;
        let mut acc = Amount::zero();
        let mut i: usize = 0;
        while i < self.wallets.len()
            invariant
                i <= ws.len(),
                ws == self@.wallets,
                acc@ == saturate(sum_wallets(ws.take(i as int), |w: WalletView| vested_of(w))),
            decreases ws.len() - i,
        {
            proof {
                assert(ws.take(i + 1).drop_last() =~= ws.take(i as int));
            }
            if let Some(a) = self.wallets[i].vested_amount {
                acc = acc.saturating_add(a);
            }
            i = i + 1;
        }
        proof {
            assert(ws.take(i as int) =~= ws);
        }
        acc
    }
}

/// Whether `withdrawn * 10 > deposited * 9`, computed without overflow.
pub fn withdrew_most(withdrawn: &Amount, deposited: &Amount) -> (r: bool)
    ensures
        r == (withdrawn@ * 10 > deposited@ * 9),
{
    match deposited.checked_sub(*withdrawn) {
        None => true,
        Some(diff) => {
            if diff.is_zero() {
                !withdrawn.is_zero()
            } else {
                match diff.checked_mul(Amount::from_u64(9)) {
                    None => {
                        proof {
                            crate::amount::lemma_view_bound(*withdrawn);
                        }
                        false
                    },
                    Some(m) => m.lt(withdrawn),
                }
            }
        },
    }
}

/// Folds `events` into a fresh state of chain `chain_id`; see `AppState::fold`.
pub fn replay(chain_id: u64, events: Vec<(OnChainEvent, Option<u64>)>) -> (r: (AppState, Vec<(usize, LedgerError)>))
    ensures
        r.0.wf(),
        r.0@ == fold_spec(initial_state(chain_id), events@, 0).0,
        r.1@.map_values(|f: (usize, LedgerError)| (f.0 as int, f.1)) == fold_spec(
            initial_state(chain_id),
            events@,
            0,
        ).1,
{
    let mut s = AppState::new(chain_id);
    let failures = s.fold(events);
    (s, failures)
}

} // verus!
