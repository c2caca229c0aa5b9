//! The account ledger as a mathematical sequence of account values: its
//! well-formedness, and what each reducer operation does to it.

use vstd::prelude::*;
use crate::address::Address;
use crate::amount::{Amount, amount_bound, saturate};
use crate::amount_map::{get_of, insert_of, keys_unique, remove_of};
use crate::wallet::{Delegation, ScheduledUnstake, WalletView, voting_power_of, with_voting_power};

verus! {

/// Why a reducer operation was refused.
#[derive(Clone, Copy, Debug, PartialEq, Eq, Structural)]
pub enum LedgerError {
    /// an account that the operation needs has no record
    UnknownAccount,
    /// an operation would take more shares than the account holds
    InsufficientShares,
    /// the undelegated target is not the recorded one
    DelegationMismatch,
    /// an amount would leave the 256-bit range, or be divided by zero
    Arithmetic,
}

/// The position of the last account with address `a`, or -1.
pub open spec fn find_index(ws: Seq<WalletView>, a: Address) -> int
    decreases ws.len(),
{
    if ws.len() == 0 {
        -1
    } else if ws.last().address == a {
        ws.len() - 1
    } else {
        find_index(ws.drop_last(), a)
    }
}

pub open spec fn addresses_unique(ws: Seq<WalletView>) -> bool {
    forall|i: int, j: int|
        0 <= i < ws.len() && 0 <= j < ws.len() && #[trigger] ws[i].address == #[trigger] ws[j].address
            ==> i == j
}

pub open spec fn has_wallet(ws: Seq<WalletView>, a: Address) -> bool {
    find_index(ws, a) >= 0
}

/// The entry that account `j`'s incoming map should hold under `k`: the
/// shares of `k`'s account, where it delegates to `j`.
pub open spec fn incoming(ws: Seq<WalletView>, j: int, k: Address) -> Option<Amount> {
    let i = find_index(ws, k);
    if i >= 0 && (ws[i].delegates matches Some(d) && d.address == ws[j].address) {
        Some(ws[i].shares)
    } else {
        None
    }
}

/// An outgoing delegation carries the delegator's shares, and its target
/// has a record.
pub open spec fn delegation_synced(ws: Seq<WalletView>, i: int) -> bool {
    ws[i].delegates matches Some(d) ==> d.shares == ws[i].shares && has_wallet(ws, d.address)
}

/// Every incoming map has unique keys.
#[verifier::opaque]
pub open spec fn maps_unique(ws: Seq<WalletView>) -> bool {
    forall|i: int| 0 <= i < ws.len() ==> keys_unique(#[trigger] ws[i].delegated)
}

/// Every account's voting power is derived from its current state.
#[verifier::opaque]
pub open spec fn powers_derived(ws: Seq<WalletView>) -> bool {
    forall|i: int| 0 <= i < ws.len() ==> (#[trigger] ws[i]).voting_power == voting_power_of(ws[i])
}

/// Every outgoing delegation is in sync with its delegator.
#[verifier::opaque]
pub open spec fn delegations_synced(ws: Seq<WalletView>) -> bool {
    forall|i: int| 0 <= i < ws.len() ==> #[trigger] delegation_synced(ws, i)
}

/// Every incoming map holds exactly the delegations that point at its account.
#[verifier::opaque]
pub open spec fn backrefs_exact(ws: Seq<WalletView>) -> bool {
    forall|j: int, k: Address|
        0 <= j < ws.len() ==> #[trigger] get_of(ws[j].delegated, k) == incoming(ws, j, k)
}

/// The ledger's invariant.
pub open spec fn wallets_wf(ws: Seq<WalletView>) -> bool {
    &&& addresses_unique(ws)
    &&& maps_unique(ws)
    &&& powers_derived(ws)
    &&& delegations_synced(ws)
    &&& backrefs_exact(ws)
}

pub proof fn lemma_find_index(ws: Seq<WalletView>, a: Address)
    ensures
        -1 <= find_index(ws, a) < ws.len(),
        find_index(ws, a) >= 0 ==> ws[find_index(ws, a)].address == a,
        find_index(ws, a) == -1 <==> forall|j: int| 0 <= j < ws.len() ==> ws[j].address != a,
    decreases ws.len(),
{
    if ws.len() > 0 {
        lemma_find_index(ws.drop_last(), a);
        if ws.last().address != a {
            assert forall|j: int| 0 <= j < ws.len() - 1 implies ws[j] == ws.drop_last()[j] by {}
        }
    }
}

pub proof fn lemma_find_index_unique(ws: Seq<WalletView>, i: int)
    requires
        addresses_unique(ws),
        0 <= i < ws.len(),
    ensures
        find_index(ws, ws[i].address) == i,
{
    lemma_find_index(ws, ws[i].address);
}

/// Sequences with the same addresses in the same places agree on every lookup.
pub proof fn lemma_find_same(ws: Seq<WalletView>, vs: Seq<WalletView>)
    requires
        ws.len() == vs.len(),
        forall|i: int| 0 <= i < ws.len() ==> #[trigger] ws[i].address == vs[i].address,
    ensures
        addresses_unique(ws) ==> addresses_unique(vs),
        forall|a: Address| #[trigger] find_index(vs, a) == find_index(ws, a),
{
    assert forall|a: Address| #[trigger] find_index(vs, a) == find_index(ws, a) by {
        lemma_find_index_by_shape(ws, vs, a);
    }
    if addresses_unique(ws) {
        assert forall|i: int, j: int|
            0 <= i < vs.len() && 0 <= j < vs.len() && #[trigger] vs[i].address
                == #[trigger] vs[j].address implies i == j by {
            assert(ws[i].address == vs[i].address && ws[j].address == vs[j].address);
        }
    }
}

proof fn lemma_find_index_by_shape(ws: Seq<WalletView>, vs: Seq<WalletView>, a: Address)
    requires
        ws.len() == vs.len(),
        forall|i: int| 0 <= i < ws.len() ==> #[trigger] ws[i].address == vs[i].address,
    ensures
        find_index(vs, a) == find_index(ws, a),
    decreases ws.len(),
{
    if ws.len() > 0 {
        assert(ws.last().address == vs.last().address);
        let (w2, v2) = (ws.drop_last(), vs.drop_last());
        assert forall|i: int| 0 <= i < w2.len() implies #[trigger] w2[i].address == v2[i].address by {
            assert(ws[i].address == vs[i].address);
        }
        lemma_find_index_by_shape(w2, v2, a);
    }
}

// ---------------------------------------------------------------------------
// The operations on the account sequence.

/// `w` with `from` taken out of its incoming delegations.
pub open spec fn drop_incoming(w: WalletView, from: Address) -> WalletView {
    with_voting_power(WalletView { delegated: remove_of(w.delegated, from), ..w })
}

/// `w` with `from`'s shares recorded among its incoming delegations.
pub open spec fn put_incoming(w: WalletView, from: Address, shares: Amount) -> WalletView {
    with_voting_power(WalletView { delegated: insert_of(w.delegated, from, shares), ..w })
}

/// Takes the back-reference of account `fi` out of its current target.
pub open spec fn detach(ws: Seq<WalletView>, fi: int) -> Seq<WalletView> {
    match ws[fi].delegates {
        Some(d) => {
            let ci = find_index(ws, d.address);
            if ci >= 0 {
                ws.update(ci, drop_incoming(ws[ci], ws[fi].address))
            } else {
                ws
            }
        },
        None => ws,
    }
}

/// Delegation of `from`'s shares to `to` at time `tm`.
pub open spec fn delegate_spec(ws: Seq<WalletView>, from: Address, to: Address, tm: u64) -> (Seq<
    WalletView,
>, Result<(), LedgerError>) {
    let fi = find_index(ws, from);
    let ti = find_index(ws, to);
    if fi < 0 || ti < 0 {
        (ws, Err(LedgerError::UnknownAccount))
    } else {
        let ws1 = detach(ws, fi);
        let ws2 = ws1.update(
            fi,
            with_voting_power(
                WalletView {
                    delegates: Some(Delegation { address: to, shares: ws1[fi].shares, tm }),
                    ..ws1[fi]
                },
            ),
        );
        let ws3 = ws2.update(ti, put_incoming(ws2[ti], from, ws2[fi].shares));
        (ws3, Ok(()))
    }
}

/// Withdrawal of `from`'s delegation to `to`; `shares` is only checked
/// against `from`'s shares, after the delegation is cleared.
pub open spec fn undelegate_spec(ws: Seq<WalletView>, from: Address, to: Address, shares: Amount) -> (Seq<
    WalletView,
>, Result<(), LedgerError>) {
    let fi = find_index(ws, from);
    if fi < 0 {
        (ws, Err(LedgerError::UnknownAccount))
    } else if ws[fi].delegates matches Some(d) && d.address != to {
        (ws, Err(LedgerError::DelegationMismatch))
    } else {
        let ws1 = detach(ws, fi);
        let ws2 = ws1.update(fi, with_voting_power(WalletView { delegates: None, ..ws1[fi] }));
        (ws2, if ws[fi].shares@ < shares@ {
            Err(LedgerError::InsufficientShares)
        } else {
            Ok(())
        })
    }
}

/// Account `i` with new shares: the delegation snapshot follows, and so does
/// the target's record of it.
pub open spec fn reshare(ws: Seq<WalletView>, i: int, w: WalletView) -> Seq<WalletView> {
    let w1 = with_voting_power(
        WalletView {
            delegates: match w.delegates {
                Some(d) => Some(Delegation { shares: w.shares, ..d }),
                None => None,
            },
            ..w
        },
    );
    let ws1 = ws.update(i, w1);
    match w1.delegates {
        Some(d) => {
            let ti = find_index(ws1, d.address);
            if ti >= 0 {
                ws1.update(ti, put_incoming(ws1[ti], w1.address, w1.shares))
            } else {
                ws1
            }
        },
        None => ws1,
    }
}

/// `reshare` overwrites the account it is given, whatever stood there.
pub proof fn lemma_reshare_update(ws: Seq<WalletView>, i: int, w: WalletView, v: WalletView)
    requires
        0 <= i < ws.len(),
    ensures
        reshare(ws.update(i, v), i, w) == reshare(ws, i, w),
{
    let w1 = with_voting_power(
        WalletView {
            delegates: match w.delegates {
                Some(d) => Some(Delegation { shares: w.shares, ..d }),
                None => None,
            },
            ..w
        },
    );
    assert(ws.update(i, v).update(i, w1) =~= ws.update(i, w1));
}

/// Stake of `amount` for `shares` by `user`; a user without a record is
/// ignored.
pub open spec fn staked_spec(ws: Seq<WalletView>, user: Address, amount: Amount, shares: Amount) -> (Seq<
    WalletView,
>, Result<(), LedgerError>) {
    let i = find_index(ws, user);
    if i < 0 {
        (ws, Ok(()))
    } else if ws[i].staked@ + amount@ >= amount_bound() || ws[i].shares@ + shares@ >= amount_bound() {
        (ws, Err(LedgerError::Arithmetic))
    } else {
        let w = ws[i];
        let w1 = WalletView {
            staked: Amount::from_nat(w.staked@ + amount@),
            shares: Amount::from_nat(w.shares@ + shares@),
            supporter: if w.vested_amount is None && w.withdrawn@ == 0 {
                true
            } else {
                w.supporter
            },
            ..w
        };
        (reshare(ws, i, w1), Ok(()))
    }
}

/// The amount that an unstake of `amount` takes off `w`'s stake.
pub open spec fn unstake_deduction(w: WalletView, amount: Amount) -> Amount {
    if w.staked@ < amount@ {
        w.staked
    } else {
        amount
    }
}

/// A reservation of `amount` and `shares` for unstaking at `scheduled_for`,
/// taken off the stake at once.
pub open spec fn scheduled_unstake_spec(
    ws: Seq<WalletView>,
    user: Address,
    amount: Amount,
    shares: Amount,
    scheduled_for: u64,
) -> (Seq<WalletView>, Result<(), LedgerError>) {
    let i = find_index(ws, user);
    if i < 0 {
        (ws, Err(LedgerError::UnknownAccount))
    } else if ws[i].shares@ < shares@ {
        (ws, Err(LedgerError::InsufficientShares))
    } else {
        let w = ws[i];
        let deduct = unstake_deduction(w, amount);
        let w1 = WalletView {
            scheduled_unstake: Some(ScheduledUnstake { amount: deduct, shares, tm: scheduled_for }),
            staked: Amount::from_nat((w.staked@ - deduct@) as nat),
            shares: Amount::from_nat((w.shares@ - shares@) as nat),
            supporter: false,
            ..w
        };
        (reshare(ws, i, w1), Ok(()))
    }
}

} // verus!

verus! {

// ---------------------------------------------------------------------------
// Each operation keeps the ledger well-formed.

/// What the parts of the invariant say of one account, or one entry.
pub proof fn lemma_wf_at(ws: Seq<WalletView>, j: int, k: Address)
    requires
        wallets_wf(ws),
        0 <= j < ws.len(),
    ensures
        keys_unique(ws[j].delegated),
        ws[j].voting_power == voting_power_of(ws[j]),
        delegation_synced(ws, j),
        get_of(ws[j].delegated, k) == incoming(ws, j, k),
{
    reveal(maps_unique);
    reveal(powers_derived);
    reveal(delegations_synced);
    reveal(backrefs_exact);
}

/// The shape that the operations' results share: the same addresses, and
/// every part of the invariant but the back-references, which are checked
/// against `ws` entry by entry.
pub proof fn lemma_wf_by_parts(ws: Seq<WalletView>, vs: Seq<WalletView>)
    requires
        addresses_unique(ws),
        ws.len() == vs.len(),
        forall|i: int| 0 <= i < ws.len() ==> #[trigger] ws[i].address == vs[i].address,
        forall|i: int| 0 <= i < vs.len() ==> keys_unique(#[trigger] vs[i].delegated),
        forall|i: int| 0 <= i < vs.len() ==> (#[trigger] vs[i]).voting_power == voting_power_of(vs[i]),
        forall|i: int|
            0 <= i < vs.len() ==> (#[trigger] vs[i].delegates matches Some(d) ==> d.shares
                == vs[i].shares && has_wallet(ws, d.address)),
        forall|j: int, k: Address|
            0 <= j < vs.len() ==> #[trigger] get_of(vs[j].delegated, k) == incoming(vs, j, k),
    ensures
        wallets_wf(vs),
{
    lemma_find_same(ws, vs);
    reveal(maps_unique);
    reveal(powers_derived);
    reveal(delegations_synced);
    reveal(backrefs_exact);
    assert forall|i: int| 0 <= i < vs.len() implies #[trigger] delegation_synced(vs, i) by {
        assert(vs[i].delegates matches Some(d) ==> d.shares == vs[i].shares && has_wallet(ws, d.address));
    }
}

/// Taking a delegator's back-reference out of its target leaves every other
/// entry of every incoming map as it was.
pub proof fn lemma_detach(ws: Seq<WalletView>, fi: int)
    requires
        wallets_wf(ws),
        0 <= fi < ws.len(),
    ensures
        detach(ws, fi).len() == ws.len(),
        forall|j: int|
            0 <= j < ws.len() ==> {
                let v = #[trigger] detach(ws, fi)[j];
                &&& 0 <= j < detach(ws, fi).len()
                &&& v.address == ws[j].address
                &&& v.shares == ws[j].shares
                &&& v.delegates == ws[j].delegates
                &&& keys_unique(v.delegated)
                &&& v.voting_power == voting_power_of(v)
            },
        forall|j: int, k: Address|
            0 <= j < ws.len() ==> #[trigger] get_of(detach(ws, fi)[j].delegated, k) == (if k
                == ws[fi].address {
                None
            } else {
                incoming(ws, j, k)
            }),
{
    let from = ws[fi].address;
    lemma_find_index_unique(ws, fi);
    let ws1 = detach(ws, fi);
    lemma_wf_at(ws, fi, from);
    if let Some(d) = ws[fi].delegates {
        lemma_find_index(ws, d.address);
    }
    assert forall|j: int| 0 <= j < ws.len() implies {
        let v = #[trigger] ws1[j];
        &&& 0 <= j < ws1.len()
        &&& v.address == ws[j].address
        &&& v.shares == ws[j].shares
        &&& v.delegates == ws[j].delegates
        &&& keys_unique(v.delegated)
        &&& v.voting_power == voting_power_of(v)
    } by {
        lemma_wf_at(ws, j, from);
        if let Some(d) = ws[fi].delegates {
            let ci = find_index(ws, d.address);
            lemma_find_index(ws, d.address);
            lemma_wf_at(ws, ci, from);
            crate::amount_map::lemma_remove_get(ws[ci].delegated, from);
        }
    }
    assert forall|j: int, k: Address| 0 <= j < ws.len() implies #[trigger] get_of(
        ws1[j].delegated,
        k,
    ) == (if k == from {
        None
    } else {
        incoming(ws, j, k)
    }) by {
        lemma_wf_at(ws, j, k);
        match ws[fi].delegates {
            Some(d) => {
                let ci = find_index(ws, d.address);
                lemma_find_index(ws, d.address);
                lemma_wf_at(ws, ci, from);
                crate::amount_map::lemma_remove_get(ws[ci].delegated, from);
                if j != ci && k == from {
                    assert(ws[j].address != d.address);
                }
            },
            None => {},
        }
    }
}

pub proof fn lemma_delegate_wf(ws: Seq<WalletView>, from: Address, to: Address, tm: u64)
    requires
        wallets_wf(ws),
    ensures
        wallets_wf(delegate_spec(ws, from, to, tm).0),
        delegate_spec(ws, from, to, tm).0.len() == ws.len(),
{
    let fi = find_index(ws, from);
    let ti = find_index(ws, to);
    lemma_find_index(ws, from);
    lemma_find_index(ws, to);
    if fi >= 0 && ti >= 0 {
        lemma_detach(ws, fi);
        let ws1 = detach(ws, fi);
        let sf = ws[fi].shares;
        let ws2 = ws1.update(
            fi,
            with_voting_power(
                WalletView {
                    delegates: Some(Delegation { address: to, shares: ws1[fi].shares, tm }),
                    ..ws1[fi]
                },
            ),
        );
        let ws3 = ws2.update(ti, put_incoming(ws2[ti], from, ws2[fi].shares));
        assert(ws3 == delegate_spec(ws, from, to, tm).0);
        assert(ws1[ti].address == to);
        crate::amount_map::lemma_insert_get(ws2[ti].delegated, from, sf);
        assert forall|i: int| 0 <= i < ws.len() implies #[trigger] ws[i].address == ws3[i].address by {
            assert(ws1[i].address == ws[i].address);
        }
        lemma_find_same(ws, ws3);
        assert forall|i: int|
            0 <= i < ws3.len() implies (#[trigger] ws3[i].delegates matches Some(d) ==> d.shares
            == ws3[i].shares && has_wallet(ws, d.address)) by {
            lemma_wf_at(ws, i, from);
            assert(ws1[i].shares == ws[i].shares && ws1[i].delegates == ws[i].delegates);
        }
        assert forall|j: int, k: Address| 0 <= j < ws3.len() implies #[trigger] get_of(
            ws3[j].delegated,
            k,
        ) == incoming(ws3, j, k) by {
            assert(get_of(ws1[j].delegated, k) == (if k == from {
                None
            } else {
                incoming(ws, j, k)
            }));
            let i = find_index(ws, k);
            lemma_find_index(ws, k);
            if i >= 0 {
                assert(ws1[i].shares == ws[i].shares && ws1[i].delegates == ws[i].delegates);
            }
            assert(ws1[j].address == ws[j].address);
            if k == from {
                assert(i == fi);
                if j != ti {
                    assert(ws[j].address != to);
                }
            }
        }
        assert forall|i: int| 0 <= i < ws3.len() implies keys_unique(#[trigger] ws3[i].delegated) by {
            assert(keys_unique(ws1[i].delegated));
        }
        assert forall|i: int| 0 <= i < ws3.len() implies (#[trigger] ws3[i]).voting_power
            == voting_power_of(ws3[i]) by {
            assert(ws1[i].voting_power == voting_power_of(ws1[i]));
        }
        lemma_wf_by_parts(ws, ws3);
    }
}

pub proof fn lemma_undelegate_wf(ws: Seq<WalletView>, from: Address, to: Address, shares: Amount)
    requires
        wallets_wf(ws),
    ensures
        wallets_wf(undelegate_spec(ws, from, to, shares).0),
        undelegate_spec(ws, from, to, shares).0.len() == ws.len(),
{
    let fi = find_index(ws, from);
    lemma_find_index(ws, from);
    if fi >= 0 && !(ws[fi].delegates matches Some(d) && d.address != to) {
        lemma_detach(ws, fi);
        let ws1 = detach(ws, fi);
        let ws2 = ws1.update(fi, with_voting_power(WalletView { delegates: None, ..ws1[fi] }));
        assert(ws2 == undelegate_spec(ws, from, to, shares).0);
        assert forall|i: int| 0 <= i < ws.len() implies #[trigger] ws[i].address == ws2[i].address by {
            assert(ws1[i].address == ws[i].address);
        }
        lemma_find_same(ws, ws2);
        assert forall|i: int|
            0 <= i < ws2.len() implies (#[trigger] ws2[i].delegates matches Some(d) ==> d.shares
            == ws2[i].shares && has_wallet(ws, d.address)) by {
            lemma_wf_at(ws, i, from);
            assert(ws1[i].shares == ws[i].shares && ws1[i].delegates == ws[i].delegates);
        }
        assert forall|j: int, k: Address| 0 <= j < ws2.len() implies #[trigger] get_of(
            ws2[j].delegated,
            k,
        ) == incoming(ws2, j, k) by {
            assert(get_of(ws1[j].delegated, k) == (if k == from {
                None
            } else {
                incoming(ws, j, k)
            }));
            let i = find_index(ws, k);
            lemma_find_index(ws, k);
            if i >= 0 {
                assert(ws1[i].shares == ws[i].shares && ws1[i].delegates == ws[i].delegates);
            }
            assert(ws1[j].address == ws[j].address);
        }
        assert forall|i: int| 0 <= i < ws2.len() implies keys_unique(#[trigger] ws2[i].delegated) by {
            assert(keys_unique(ws1[i].delegated));
        }
        assert forall|i: int| 0 <= i < ws2.len() implies (#[trigger] ws2[i]).voting_power
            == voting_power_of(ws2[i]) by {
            assert(ws1[i].voting_power == voting_power_of(ws1[i]));
        }
        lemma_wf_by_parts(ws, ws2);
    }
}

/// Changing an account's shares, with `reshare`, keeps the ledger well-formed.
pub proof fn lemma_reshare_wf(ws: Seq<WalletView>, i: int, w: WalletView)
    requires
        wallets_wf(ws),
        0 <= i < ws.len(),
        w.address == ws[i].address,
        w.delegates == ws[i].delegates,
        w.delegated == ws[i].delegated,
    ensures
        wallets_wf(reshare(ws, i, w)),
        reshare(ws, i, w).len() == ws.len(),
{
    lemma_find_index_unique(ws, i);
    let user = w.address;
    let w1 = with_voting_power(
        WalletView {
            delegates: match w.delegates {
                Some(d) => Some(Delegation { shares: w.shares, ..d }),
                None => None,
            },
            ..w
        },
    );
    let ws1 = ws.update(i, w1);
    let ws2 = reshare(ws, i, w);
    lemma_wf_at(ws, i, user);
    assert forall|j: int| 0 <= j < ws.len() implies #[trigger] ws[j].address == ws1[j].address by {}
    lemma_find_same(ws, ws1);
    let ti = match w1.delegates {
        Some(d) => find_index(ws, d.address),
        None => -1,
    };
    if let Some(d) = w1.delegates {
        lemma_find_index(ws, d.address);
        lemma_wf_at(ws, ti, user);
        assert(keys_unique(ws1[ti].delegated));
        crate::amount_map::lemma_insert_get(ws1[ti].delegated, user, w1.shares);
        assert(ws2 == ws1.update(ti, put_incoming(ws1[ti], user, w1.shares)));
    } else {
        assert(ws2 == ws1);
    }
    assert(ws2.len() == ws.len());
    assert forall|j: int| 0 <= j < ws.len() implies #[trigger] ws[j].address == ws2[j].address by {
        assert(ws1[j].address == ws[j].address);
    }
    lemma_find_same(ws, ws2);
    assert forall|m: int|
        0 <= m < ws2.len() implies (#[trigger] ws2[m].delegates matches Some(d) ==> d.shares
        == ws2[m].shares && has_wallet(ws, d.address)) by {
        lemma_wf_at(ws, m, user);
    }
    assert forall|j: int, k: Address| 0 <= j < ws2.len() implies #[trigger] get_of(
        ws2[j].delegated,
        k,
    ) == incoming(ws2, j, k) by {
        lemma_wf_at(ws, j, k);
        let m = find_index(ws, k);
        lemma_find_index(ws, k);
        if m >= 0 {
            lemma_wf_at(ws, m, k);
        }
        if k == user {
            assert(m == i);
            if let Some(d) = w1.delegates {
                if j != ti {
                    assert(ws[j].address != d.address);
                }
            }
        }
    }
    assert forall|m: int| 0 <= m < ws2.len() implies keys_unique(#[trigger] ws2[m].delegated) by {
        lemma_wf_at(ws, m, user);
    }
    assert forall|m: int| 0 <= m < ws2.len() implies (#[trigger] ws2[m]).voting_power
        == voting_power_of(ws2[m]) by {
        lemma_wf_at(ws, m, user);
    }
    lemma_wf_by_parts(ws, ws2);
}

pub proof fn lemma_staked_wf(ws: Seq<WalletView>, user: Address, amount: Amount, shares: Amount)
    requires
        wallets_wf(ws),
    ensures
        wallets_wf(staked_spec(ws, user, amount, shares).0),
        staked_spec(ws, user, amount, shares).0.len() == ws.len(),
{
    let i = find_index(ws, user);
    lemma_find_index(ws, user);
    if i >= 0 && !(ws[i].staked@ + amount@ >= amount_bound() || ws[i].shares@ + shares@
        >= amount_bound()) {
        let w = ws[i];
        let w1 = WalletView {
            staked: Amount::from_nat(w.staked@ + amount@),
            shares: Amount::from_nat(w.shares@ + shares@),
            supporter: if w.vested_amount is None && w.withdrawn@ == 0 {
                true
            } else {
                w.supporter
            },
            ..w
        };
        lemma_reshare_wf(ws, i, w1);
    }
}

pub proof fn lemma_scheduled_unstake_wf(
    ws: Seq<WalletView>,
    user: Address,
    amount: Amount,
    shares: Amount,
    scheduled_for: u64,
)
    requires
        wallets_wf(ws),
    ensures
        wallets_wf(scheduled_unstake_spec(ws, user, amount, shares, scheduled_for).0),
        scheduled_unstake_spec(ws, user, amount, shares, scheduled_for).0.len() == ws.len(),
{
    let i = find_index(ws, user);
    lemma_find_index(ws, user);
    if i >= 0 && ws[i].shares@ >= shares@ {
        let w = ws[i];
        let deduct = unstake_deduction(w, amount);
        let w1 = WalletView {
            scheduled_unstake: Some(ScheduledUnstake { amount: deduct, shares, tm: scheduled_for }),
            staked: Amount::from_nat((w.staked@ - deduct@) as nat),
            shares: Amount::from_nat((w.shares@ - shares@) as nat),
            supporter: false,
            ..w
        };
        lemma_reshare_wf(ws, i, w1);
    }
}

/// Changes that leave address, shares, delegation and voting power of every
/// account alone keep the ledger well-formed.
pub proof fn lemma_touch_wf(ws: Seq<WalletView>, vs: Seq<WalletView>)
    requires
        wallets_wf(ws),
        ws.len() == vs.len(),
        forall|i: int|
            0 <= i < ws.len() ==> {
                &&& (#[trigger] vs[i]).address == ws[i].address
                &&& vs[i].shares == ws[i].shares
                &&& vs[i].delegates == ws[i].delegates
                &&& vs[i].delegated == ws[i].delegated
                &&& vs[i].voting_power == ws[i].voting_power
            },
    ensures
        wallets_wf(vs),
{
    assert forall|i: int| 0 <= i < ws.len() implies #[trigger] ws[i].address == vs[i].address by {}
    lemma_find_same(ws, vs);
    assert forall|i: int|
        0 <= i < vs.len() implies (#[trigger] vs[i].delegates matches Some(d) ==> d.shares
        == vs[i].shares && has_wallet(ws, d.address)) by {
        lemma_wf_at(ws, i, ws[i].address);
    }
    assert forall|j: int, k: Address| 0 <= j < vs.len() implies #[trigger] get_of(vs[j].delegated, k)
        == incoming(vs, j, k) by {
        lemma_wf_at(ws, j, k);
        lemma_find_index(ws, k);
    }
    assert forall|i: int| 0 <= i < vs.len() implies keys_unique(#[trigger] vs[i].delegated) by {
        lemma_wf_at(ws, i, ws[i].address);
    }
    assert forall|i: int| 0 <= i < vs.len() implies (#[trigger] vs[i]).voting_power
        == voting_power_of(vs[i]) by {
        lemma_wf_at(ws, i, ws[i].address);
    }
    lemma_wf_by_parts(ws, vs);
}

/// A new account, with no delegation either way, keeps the ledger well-formed.
pub proof fn lemma_push_wf(ws: Seq<WalletView>, w: WalletView)
    requires
        wallets_wf(ws),
        !has_wallet(ws, w.address),
        w.delegates is None,
        w.delegated == Seq::<(Address, Amount)>::empty(),
        w.voting_power == voting_power_of(w),
    ensures
        wallets_wf(ws.push(w)),
{
    let vs = ws.push(w);
    lemma_find_index(ws, w.address);
    assert forall|a: Address| #[trigger] find_index(vs, a) == (if a == w.address {
        ws.len() as int
    } else {
        find_index(ws, a)
    }) by {
        assert(vs.drop_last() =~= ws);
    }
    reveal(maps_unique);
    reveal(powers_derived);
    reveal(delegations_synced);
    reveal(backrefs_exact);
    assert forall|i: int| 0 <= i < vs.len() implies #[trigger] delegation_synced(vs, i) by {
        if i < ws.len() {
            assert(delegation_synced(ws, i));
        }
    }
    assert forall|j: int, k: Address| 0 <= j < vs.len() implies #[trigger] get_of(vs[j].delegated, k)
        == incoming(vs, j, k) by {
        let m = find_index(ws, k);
        lemma_find_index(ws, k);
        if j < ws.len() {
            assert(get_of(ws[j].delegated, k) == incoming(ws, j, k));
        } else {
            reveal_with_fuel(crate::amount_map::index_of, 1);
            if m >= 0 {
                assert(delegation_synced(ws, m));
                if let Some(d) = ws[m].delegates {
                    lemma_find_index(ws, d.address);
                }
            }
        }
    }
}

/// A ledger with no account is well-formed.
pub proof fn lemma_empty_wf()
    ensures
        wallets_wf(Seq::<WalletView>::empty()),
{
    reveal(maps_unique);
    reveal(powers_derived);
    reveal(delegations_synced);
    reveal(backrefs_exact);
}

/// The sum of `f` over the accounts.
pub open spec fn sum_wallets(ws: Seq<WalletView>, f: spec_fn(WalletView) -> nat) -> nat
    decreases ws.len(),
{
    if ws.len() == 0 {
        0
    } else {
        sum_wallets(ws.drop_last(), f) + f(ws.last())
    }
}

pub open spec fn staked_of(w: WalletView) -> nat {
    w.staked@
}

pub open spec fn shares_of(w: WalletView) -> nat {
    w.shares@
}

pub open spec fn power_of(w: WalletView) -> nat {
    w.voting_power@
}

/// Total stake of the ledger, cut short at the largest amount.
pub open spec fn staked_total(ws: Seq<WalletView>) -> nat {
    saturate(sum_wallets(ws, |w: WalletView| staked_of(w)))
}

/// Total shares of the ledger, cut short at the largest amount.
pub open spec fn shares_total(ws: Seq<WalletView>) -> nat {
    saturate(sum_wallets(ws, |w: WalletView| shares_of(w)))
}

/// Total voting power of the ledger, cut short at the largest amount.
pub open spec fn votes_total(ws: Seq<WalletView>) -> nat {
    saturate(sum_wallets(ws, |w: WalletView| power_of(w)))
}

/// The shares that an unstake of `amount` stands for at the ledger's
/// current rate, where that can be computed.
pub open spec fn implied_shares(ws: Seq<WalletView>, amount: Amount) -> Option<nat> {
    if staked_total(ws) == 0 || amount@ * shares_total(ws) >= amount_bound() {
        None
    } else {
        Some(amount@ * shares_total(ws) / staked_total(ws))
    }
}

/// Confirmation of an unstake: the reservation is cleared, and reported
/// where it held fewer shares than the unstake stands for.
pub open spec fn unstaked_spec(ws: Seq<WalletView>, user: Address, amount: Amount) -> (Seq<
    WalletView,
>, Result<(), LedgerError>) {
    let i = find_index(ws, user);
    if i < 0 {
        (ws, Ok(()))
    } else {
        match ws[i].scheduled_unstake {
            None => (ws, Ok(())),
            Some(su) => (
                ws.update(i, WalletView { scheduled_unstake: None, ..ws[i] }),
                match implied_shares(ws, amount) {
                    Some(n) => if su.shares@ < n {
                        Err(LedgerError::InsufficientShares)
                    } else {
                        Ok(())
                    },
                    None => Ok(()),
                },
            ),
        }
    }
}

/// How a deposit is made.
#[derive(Clone, Copy, Debug, PartialEq, Eq, Structural)]
pub enum DepositKind {
    Plain,
    Vesting,
    ByTimelockManager,
}

/// A deposit of `amount` by `user`; a user without a record is ignored.
pub open spec fn deposited_spec(ws: Seq<WalletView>, user: Address, amount: Amount, kind: DepositKind) -> (Seq<
    WalletView,
>, Result<(), LedgerError>) {
    let i = find_index(ws, user);
    if i < 0 {
        (ws, Ok(()))
    } else {
        let w = ws[i];
        let vested = match w.vested_amount {
            Some(v) => v@,
            None => 0,
        };
        if w.deposited@ + amount@ >= amount_bound() || (kind == DepositKind::Vesting && vested + amount@
            >= amount_bound()) {
            (ws, Err(LedgerError::Arithmetic))
        } else {
            (
                ws.update(
                    i,
                    WalletView {
                        deposited: Amount::from_nat(w.deposited@ + amount@),
                        vested_amount: if kind == DepositKind::Vesting {
                            Some(Amount::from_nat(vested + amount@))
                        } else {
                            w.vested_amount
                        },
                        supporter: if kind == DepositKind::Plain {
                            w.supporter
                        } else {
                            false
                        },
                        ..w
                    },
                ),
                Ok(()),
            )
        }
    }
}

/// A withdrawal of `amount` by `user`; a user without a record is ignored.
pub open spec fn withdrawn_spec(ws: Seq<WalletView>, user: Address, amount: Amount) -> (Seq<
    WalletView,
>, Result<(), LedgerError>) {
    let i = find_index(ws, user);
    if i < 0 {
        (ws, Ok(()))
    } else if ws[i].withdrawn@ + amount@ >= amount_bound() {
        (ws, Err(LedgerError::Arithmetic))
    } else {
        (
            ws.update(
                i,
                WalletView {
                    withdrawn: Amount::from_nat(ws[i].withdrawn@ + amount@),
                    supporter: false,
                    ..ws[i]
                },
            ),
            Ok(()),
        )
    }
}

} // verus!
