//! What holds of the reducer across operations and event sequences.

use vstd::prelude::*;
use crate::address::Address;
use crate::amount::{Amount, amount_bound};
use crate::amount_map::{get_of, index_of, insert_of, remove_of, sum_of};
use crate::events::OnChainEvent;
use crate::ledger::{
    LedgerError, delegate_spec, detach, find_index, lemma_find_index, lemma_wf_at, undelegate_spec,
    wallets_wf,
};
use crate::reducer::{FailurePolicy, fold_spec, policy_of, update_spec};
use crate::state::{AppStateView, initial_state};
use crate::wallet::{Delegation, WalletView, voting_power_of, with_voting_power};

verus! {

/// Voting power is derived: an account that does not delegate has its
/// shares plus every incoming delegation (where that fits in 256 bits); one
/// that delegates and has no incoming delegation has none. Every state that
/// the reducer reaches is well-formed, so this holds after every event.
pub proof fn law_voting_power_derivation(ws: Seq<WalletView>, i: int)
    requires
        wallets_wf(ws),
        0 <= i < ws.len(),
    ensures
        ws[i].delegates is None && ws[i].shares@ + sum_of(ws[i].delegated) < amount_bound()
            ==> ws[i].voting_power@ == ws[i].shares@ + sum_of(ws[i].delegated),
        ws[i].delegates is Some && sum_of(ws[i].delegated) == 0 ==> ws[i].voting_power@ == 0,
{
    lemma_wf_at(ws, i, ws[i].address);
    let w = ws[i];
    if w.delegates is None && w.shares@ + sum_of(w.delegated) < amount_bound() {
        crate::amount::lemma_view_from_nat(w.shares@ + sum_of(w.delegated));
    }
    if w.delegates is Some && sum_of(w.delegated) == 0 {
        crate::amount::lemma_view_from_nat(0);
    }
}

/// Delegation is symmetric: the target of every delegation has a record,
/// which holds the delegator's shares under the delegator, and the
/// delegation's own snapshot holds the same shares.
pub proof fn law_delegation_symmetry(ws: Seq<WalletView>, i: int)
    requires
        wallets_wf(ws),
        0 <= i < ws.len(),
        ws[i].delegates is Some,
    ensures
        ({
            let d = ws[i].delegates.unwrap();
            let t = find_index(ws, d.address);
            &&& 0 <= t < ws.len()
            &&& ws[t].address == d.address
            &&& get_of(ws[t].delegated, ws[i].address) == Some(ws[i].shares)
            &&& d.shares == ws[i].shares
        }),
{
    let d = ws[i].delegates.unwrap();
    lemma_wf_at(ws, i, ws[i].address);
    let t = find_index(ws, d.address);
    lemma_find_index(ws, d.address);
    lemma_wf_at(ws, t, ws[i].address);
    crate::ledger::lemma_find_index_unique(ws, i);
}

/// Replay is deterministic: folding the same events over the starting
/// state gives one and the same state, and the same failures.
pub proof fn law_replay_deterministic(
    chain_id: u64,
    evs: Seq<(OnChainEvent, Option<u64>)>,
    a: (AppStateView, Seq<(int, LedgerError)>),
    b: (AppStateView, Seq<(int, LedgerError)>),
)
    requires
        a == fold_spec(initial_state(chain_id), evs, 0),
        b == fold_spec(initial_state(chain_id), evs, 0),
    ensures
        a == b,
{
}

proof fn lemma_remove_pushed(s: Seq<(Address, Amount)>, k: Address, v: Amount)
    requires
        index_of(s, k) == -1,
    ensures
        remove_of(insert_of(s, k, v), k) == s,
{
    let t = s.push((k, v));
    assert(t.drop_last() =~= s);
    assert(index_of(t, k) == s.len());
    assert(t.remove(s.len() as int) =~= s);
}

/// Delegating and then undelegating the same shares restores the voting
/// power and the incoming delegations of both accounts.
pub proof fn law_delegate_round_trip(ws: Seq<WalletView>, from: Address, to: Address, tm: u64, shares: Amount)
    requires
        wallets_wf(ws),
        find_index(ws, from) >= 0,
        find_index(ws, to) >= 0,
        ws[find_index(ws, from)].delegates is None,
        shares@ <= ws[find_index(ws, from)].shares@,
    ensures
        ({
            let (ws1, r1) = delegate_spec(ws, from, to, tm);
            let (ws2, r2) = undelegate_spec(ws1, from, to, shares);
            let fi = find_index(ws, from);
            let ti = find_index(ws, to);
            &&& r1 is Ok
            &&& r2 is Ok
            &&& ws2[fi].voting_power == ws[fi].voting_power
            &&& ws2[fi].delegated == ws[fi].delegated
            &&& ws2[ti].voting_power == ws[ti].voting_power
            &&& ws2[ti].delegated == ws[ti].delegated
        }),
{
    let fi = find_index(ws, from);
    let ti = find_index(ws, to);
    lemma_find_index(ws, from);
    lemma_find_index(ws, to);
    lemma_wf_at(ws, fi, from);
    lemma_wf_at(ws, ti, from);
    crate::ledger::lemma_delegate_wf(ws, from, to, tm);
    let (ws1, r1) = delegate_spec(ws, from, to, tm);
    assert(detach(ws, fi) == ws);
    let sf = ws[fi].shares;
    let ws2a = ws.update(
        fi,
        with_voting_power(WalletView { delegates: Some(Delegation { address: to, shares: sf, tm }), ..ws[fi] }),
    );
    assert(ws1 == ws2a.update(ti, crate::ledger::put_incoming(ws2a[ti], from, sf)));
    // `from` does not delegate, so no incoming map holds it.
    crate::ledger::lemma_find_index_unique(ws, fi);
    assert(get_of(ws[ti].delegated, from) is None);
    crate::amount_map::lemma_index_of(ws[ti].delegated, from);
    lemma_remove_pushed(ws[ti].delegated, from, sf);
    crate::ledger::lemma_find_same(ws, ws1);
    assert forall|j: int| 0 <= j < ws.len() implies #[trigger] ws[j].address == ws1[j].address by {}
    crate::ledger::lemma_find_same(ws, ws1);
    assert(find_index(ws1, from) == fi);
    assert(find_index(ws1, to) == ti);
    let (ws2, r2) = undelegate_spec(ws1, from, to, shares);
    lemma_wf_at(ws1, fi, from);
    let w0 = ws[fi];
    let w1 = ws1[fi];
    assert(w1.delegates == Some(Delegation { address: to, shares: sf, tm }));
    assert(detach(ws1, fi) == ws1.update(ti, crate::ledger::drop_incoming(ws1[ti], from)));
    if fi == ti {
        assert(ws2[fi].delegated == remove_of(insert_of(w0.delegated, from, sf), from));
        assert(ws2[fi] == with_voting_power(WalletView { delegates: None, ..ws2[fi] }));
        assert(ws2[fi].voting_power == voting_power_of(w0));
    } else {
        assert(ws2[ti].delegated == remove_of(insert_of(ws[ti].delegated, from, sf), from));
        assert(ws2[ti].voting_power == voting_power_of(ws[ti]));
        assert(ws2[fi].voting_power == voting_power_of(w0));
    }
}

/// Whether folding `evs` into `s` stops early, at a failure whose policy is
/// to halt.
pub open spec fn fold_halts(s: AppStateView, evs: Seq<(OnChainEvent, Option<u64>)>) -> bool
    decreases evs.len(),
{
    if evs.len() == 0 {
        false
    } else {
        let (s1, r) = update_spec(s, evs[0].0, evs[0].1);
        if r is Err && policy_of(evs[0].0.entry) == FailurePolicy::Halt {
            true
        } else {
            fold_halts(s1, evs.drop_first())
        }
    }
}

/// Folding is incremental: folding a log and then one more event gives the
/// state of folding the longer log, unless the fold of the log had already
/// halted, in which case the event is not applied.
pub proof fn law_fold_incremental(
    s: AppStateView,
    evs: Seq<(OnChainEvent, Option<u64>)>,
    x: (OnChainEvent, Option<u64>),
    at: int,
)
    ensures
        fold_spec(s, evs.push(x), at).0 == if fold_halts(s, evs) {
            fold_spec(s, evs, at).0
        } else {
            update_spec(fold_spec(s, evs, at).0, x.0, x.1).0
        },
    decreases evs.len(),
{
    let ys = evs.push(x);
    if evs.len() == 0 {
        assert(ys.drop_first() =~= Seq::<(OnChainEvent, Option<u64>)>::empty());
        let (s1, r) = update_spec(s, x.0, x.1);
        assert(fold_spec(s1, ys.drop_first(), at + 1).0 == s1);
        assert(fold_spec(s, ys, at).0 == s1);
    } else {
        assert(ys[0] == evs[0]);
        assert(ys.drop_first() =~= evs.drop_first().push(x));
        let (s1, r) = update_spec(s, evs[0].0, evs[0].1);
        law_fold_incremental(s1, evs.drop_first(), x, at + 1);
        if !(r is Err && policy_of(evs[0].0.entry) == FailurePolicy::Halt) {
            assert(fold_spec(s, ys, at).0 == fold_spec(s1, ys.drop_first(), at + 1).0);
            assert(fold_spec(s, evs, at).0 == fold_spec(s1, evs.drop_first(), at + 1).0);
        }
    }
}

} // verus!
