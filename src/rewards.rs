//! Epoch reward distribution: minted rewards shared pro rata over stake.

use vstd::prelude::*;
use crate::address::{Address, TxHash};
use crate::amount::{Amount, amount_bound};
use crate::epoch::EpochView;
use crate::ledger::sum_wallets;
use crate::state::AppStateView;
use crate::wallet::WalletView;

verus! {

/// What an account has at stake for rewards: its stake plus its rewards so far.
pub open spec fn epoch_stake(w: WalletView) -> nat {
    w.staked@ + w.rewards@
}

/// The reward of a stake `stake` out of `total` when `minted` is shared,
/// rounded down.
pub open spec fn reward_share(minted: nat, stake: nat, total: nat) -> nat {
    minted * stake / total
}

/// Each account's stake when the rewards are minted.
pub open spec fn snapshot(ws: Seq<WalletView>) -> Seq<(Address, Amount)> {
    ws.map_values(|w: WalletView| (w.address, Amount::from_nat(epoch_stake(w))))
}

/// The sum of the snapshot.
pub open spec fn snapshot_total(ws: Seq<WalletView>) -> nat {
    sum_wallets(ws, |w: WalletView| epoch_stake(w))
}

/// The total that the minted amount is shared over: the chain's total less
/// the minted amount where the chain gives one, else the snapshot's sum.
pub open spec fn epoch_total(ws: Seq<WalletView>, minted: Amount, total_stake: Option<Amount>) -> int {
    match total_stake {
        Some(t) => t@ - minted@,
        None => snapshot_total(ws) as int,
    }
}

/// Whether every amount that the distribution computes fits.
pub open spec fn distribution_fits(
    ws: Seq<WalletView>,
    epoch_index: u64,
    minted: Amount,
    total_stake: Option<Amount>,
) -> bool {
    let total = epoch_total(ws, minted, total_stake);
    &&& forall|i: int| 0 <= i < ws.len() ==> epoch_stake(#[trigger] ws[i]) < amount_bound()
    &&& 0 <= total < amount_bound()
    &&& ws.len() > 0 ==> total > 0
    &&& forall|i: int| 0 <= i < ws.len() ==> minted@ * epoch_stake(#[trigger] ws[i]) < amount_bound()
    &&& forall|i: int|
        0 <= i < ws.len() ==> (#[trigger] ws[i]).rewards@ + reward_share(
            minted@,
            epoch_stake(ws[i]),
            total as nat,
        ) < amount_bound()
    &&& epoch_index < u64::MAX
}

/// The position of the last epoch with index `index`, or -1.
pub open spec fn epoch_pos(es: Seq<EpochView>, index: u64) -> int
    decreases es.len(),
{
    if es.len() == 0 {
        -1
    } else if es.last().index == index {
        es.len() - 1
    } else {
        epoch_pos(es.drop_last(), index)
    }
}

pub proof fn lemma_epoch_pos(es: Seq<EpochView>, index: u64)
    ensures
        -1 <= epoch_pos(es, index) < es.len(),
        epoch_pos(es, index) >= 0 ==> es[epoch_pos(es, index)].index == index,
        epoch_pos(es, index) == -1 <==> forall|j: int| 0 <= j < es.len() ==> es[j].index != index,
    decreases es.len(),
{
    if es.len() > 0 {
        lemma_epoch_pos(es.drop_last(), index);
        if es.last().index != index {
            assert forall|j: int| 0 <= j < es.len() - 1 implies es[j] == es.drop_last()[j] by {}
        }
    }
}

/// `es` with `e` stored under its index, replacing an epoch of that index.
pub open spec fn insert_epoch(es: Seq<EpochView>, e: EpochView) -> Seq<EpochView> {
    let i = epoch_pos(es, e.index);
    if i >= 0 {
        es.update(i, e)
    } else {
        es.push(e)
    }
}

/// The minting of `minted` at the end of epoch `epoch_index`: the epoch is
/// recorded with the APR that was in force, each account is credited its
/// share, and the next epoch starts with `new_apr`. Where an amount does
/// not fit, nothing changes.
pub open spec fn distribute_spec(
    s: AppStateView,
    epoch_index: u64,
    minted: Amount,
    new_apr: Amount,
    total_stake: Option<Amount>,
    tm: u64,
    block_number: u64,
    tx: TxHash,
) -> (AppStateView, Result<(), crate::ledger::LedgerError>) {
    let ws = s.wallets;
    if !distribution_fits(ws, epoch_index, minted, total_stake) {
        (s, Err(crate::ledger::LedgerError::Arithmetic))
    } else {
        let total = epoch_total(ws, minted, total_stake) as nat;
        let e = EpochView {
            index: epoch_index,
            apr: s.apr,
            minted,
            total: Amount::from_nat(total),
            stake: snapshot(ws),
            tm,
            block_number,
            tx,
        };
        (
            AppStateView {
                epochs: insert_epoch(s.epochs, e),
                wallets: ws.map_values(
                    |w: WalletView|
                        WalletView {
                            rewards: Amount::from_nat(
                                w.rewards@ + reward_share(minted@, epoch_stake(w), total),
                            ),
                            ..w
                        },
                ),
                epoch_index: (epoch_index + 1) as u64,
                apr: new_apr,
                ..s
            },
            Ok(()),
        )
    }
}

/// Sum of the shares of `minted` over the stakes in `ws`.
pub open spec fn credited_total(ws: Seq<WalletView>, minted: nat, total: nat) -> nat {
    sum_wallets(ws, |w: WalletView| reward_share(minted, epoch_stake(w), total))
}

proof fn lemma_credit_bounds(ws: Seq<WalletView>, minted: nat, total: nat)
    requires
        total > 0,
    ensures
        credited_total(ws, minted, total) * total <= minted * snapshot_total(ws),
        minted * snapshot_total(ws) < (credited_total(ws, minted, total) + ws.len()) * total
            || ws.len() == 0,
    decreases ws.len(),
{
    if ws.len() > 0 {
        let rest = ws.drop_last();
        lemma_credit_bounds(rest, minted, total);
        let s = epoch_stake(ws.last());
        let c = reward_share(minted, s, total);
        let cr = credited_total(rest, minted, total);
        let sr = snapshot_total(rest);
        assert(credited_total(ws, minted, total) == cr + c);
        assert(snapshot_total(ws) == sr + s);
        vstd::arithmetic::div_mod::lemma_fundamental_div_mod((minted * s) as int, total as int);
        assert(c * total <= minted * s && minted * s < (c + 1) * total) by (nonlinear_arith)
            requires
                c == minted * s / total,
                minted * s == total * (minted * s / total) + (minted * s) % total,
                0 <= (minted * s) % total < total,
        ;
        assert((cr + c) * total <= minted * (sr + s)) by (nonlinear_arith)
            requires
                cr * total <= minted * sr,
                c * total <= minted * s,
        ;
        if rest.len() == 0 {
            assert(cr == 0 && sr == 0);
        }
        assert(minted * (sr + s) < (cr + c + ws.len()) * total) by (nonlinear_arith)
            requires
                rest.len() == 0 || minted * sr < (cr + rest.len()) * total,
                rest.len() == 0 ==> cr == 0 && sr == 0,
                ws.len() == rest.len() + 1,
                minted * s < (c + 1) * total,
                total > 0,
        ;
    } else {
        assert(credited_total(ws, minted, total) == 0 && snapshot_total(ws) == 0);
        assert(0 * total <= minted * 0) by (nonlinear_arith);
    }
}

/// Rewards are conserved: where the stakes add up to no more than the
/// total they are shared over, the accounts are credited no more than was
/// minted; where they add up to exactly the total, rounding loses less than
/// one base unit per account.
pub proof fn law_reward_conservation(ws: Seq<WalletView>, minted: nat, total: nat)
    requires
        total > 0,
        snapshot_total(ws) <= total,
    ensures
        credited_total(ws, minted, total) <= minted,
        snapshot_total(ws) == total ==> minted < credited_total(ws, minted, total) + ws.len(),
{
    lemma_credit_bounds(ws, minted, total);
    let c = credited_total(ws, minted, total);
    let st = snapshot_total(ws);
    assert(c <= minted) by (nonlinear_arith)
        requires
            c * total <= minted * st,
            st <= total,
            total > 0,
    ;
    if st == total {
        if ws.len() == 0 {
            assert(st == 0);
        } else {
            assert(minted < c + ws.len()) by (nonlinear_arith)
                requires
                    minted * total < (c + ws.len()) * total,
                    total > 0,
            ;
        }
    }
}

/// Storing an epoch under its index keeps indices unique.
pub proof fn lemma_insert_epoch_unique(es: Seq<EpochView>, e: EpochView)
    requires
        forall|i: int, j: int|
            0 <= i < es.len() && 0 <= j < es.len() && #[trigger] es[i].index == #[trigger] es[j].index
                ==> i == j,
    ensures
        ({
            let fs = insert_epoch(es, e);
            forall|i: int, j: int|
                0 <= i < fs.len() && 0 <= j < fs.len() && #[trigger] fs[i].index == #[trigger] fs[j].index
                    ==> i == j
        }),
{
    lemma_epoch_pos(es, e.index);
}

/// The snapshot's entries add up to the snapshot's total.
pub proof fn lemma_snapshot_sum(ws: Seq<WalletView>)
    requires
        forall|i: int| 0 <= i < ws.len() ==> epoch_stake(#[trigger] ws[i]) < amount_bound(),
    ensures
        crate::amount_map::sum_of(snapshot(ws)) == snapshot_total(ws),
    decreases ws.len(),
{
    if ws.len() > 0 {
        let rest = ws.drop_last();
        assert forall|i: int| 0 <= i < rest.len() implies epoch_stake(#[trigger] rest[i]) < amount_bound() by {
            assert(rest[i] == ws[i]);
        }
        lemma_snapshot_sum(rest);
        assert(snapshot(ws).drop_last() =~= snapshot(rest));
        crate::amount::lemma_view_from_nat(epoch_stake(ws.last()));
    }
}

} // verus!
