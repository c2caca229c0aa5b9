//! Labels that describe an account from its flags and balances.

use vstd::prelude::*;
use crate::address::Address;
use crate::state::AppState;
use crate::wallet::{Wallet, WalletView};

verus! {

/// A label: a style class, a short text and a longer explanation.
pub struct LabelBadge {
    pub class: String,
    pub text: String,
    pub title: String,
}

impl View for LabelBadge {
    type V = (Seq<char>, Seq<char>, Seq<char>);

    open spec fn view(&self) -> (Seq<char>, Seq<char>, Seq<char>) {
        (self.class@, self.text@, self.title@)
    }
}

impl LabelBadge {
    pub fn new(class: &str, text: &str, title: &str) -> (r: LabelBadge)
        ensures
            r@ == (class@, text@, title@),
    {
        LabelBadge { class: class.to_owned(), text: text.to_owned(), title: title.to_owned() }
    }
}

/// The label when `cond` holds, else nothing.
pub open spec fn badge_if(cond: bool, class: Seq<char>, text: Seq<char>, title: Seq<char>) -> Seq<
    (Seq<char>, Seq<char>, Seq<char>),
> {
    if cond {
        seq![(class, text, title)]
    } else {
        Seq::empty()
    }
}

/// Whether the account holds a vested deposit.
pub open spec fn has_vested_amount(w: WalletView) -> bool {
    w.vested_amount matches Some(a) && a@ > 0
}

/// The labels of an account, in order: grant recipient, vested, supporter,
/// then one of withdrawn, unstaking or deposited-but-not-staking, then
/// delegating.
pub open spec fn labels_of(w: WalletView, grant: bool, vested_deposit: bool) -> Seq<
    (Seq<char>, Seq<char>, Seq<char>),
> {
    let vested = has_vested_amount(w);
    badge_if(grant, "badge-grant"@, "grant"@, "This address was a participant of voting as recipient"@)
        + badge_if(w.vested || vested_deposit, "badge-vested"@, "vested"@, "Some shares of this member are vested"@)
        + badge_if(
        !vested && w.supporter,
        "badge-supporter"@,
        "supporter"@,
        "API3 tokens are not vested, member can withdraw, but never did"@,
    ) + badge_if(w.withdrawn@ > 0, "badge-withdrawn"@, "withdrawn"@, "Withdrew tokens in the past"@)
        + badge_if(
        !(w.withdrawn@ > 0) && w.scheduled_unstake is Some,
        "badge-unstaking"@,
        "unstaking"@,
        "In the process of withdrawing"@,
    ) + badge_if(
        !(w.withdrawn@ > 0) && w.scheduled_unstake is None && !w.supporter && w.deposited@ > 0
            && w.voting_power@ == 0 && !vested && w.delegates is None,
        "badge-not-staking"@,
        "deposited, not staking"@,
        "Deposited tokens but not staking them"@,
    ) + badge_if(
        w.delegates is Some,
        "badge-delegates"@,
        "delegates"@,
        "Delegates their stake to another member"@,
    )
}

fn push_badge(
    labels: &mut Vec<LabelBadge>,
    cond: bool,
    class: &str,
    text: &str,
    title: &str,
)
    ensures
        final(labels)@.map_values(|b: LabelBadge| b@) == old(labels)@.map_values(|b: LabelBadge| b@)
            + badge_if(cond, class@, text@, title@),
{
    let ghost before = labels@;
    if cond {
        labels.push(LabelBadge::new(class, text, title));
    }
    proof {
        assert(labels@.map_values(|b: LabelBadge| b@) =~= before.map_values(|b: LabelBadge| b@)
            + badge_if(cond, class@, text@, title@));
    }
}

/// Whether `a` received a grant in a voting action.
pub open spec fn is_grant(grants: Seq<(Address, u64)>, a: Address) -> bool {
    exists|i: int| 0 <= i < grants.len() && grants[i].0 == a
}

impl AppState {
    /// Whether `a` received a grant in a voting action.
    pub fn is_grant(&self, a: &Address) -> (r: bool)
        ensures
            r == is_grant(self.grants@, *a),
    {
        let mut i: usize = 0;
        while i < self.grants.len()
            invariant
                i <= self.grants@.len(),
                forall|j: int| 0 <= j < i ==> self.grants@[j].0 != *a,
            decreases self.grants@.len() - i,
        {
            if self.grants[i].0.equals(a) {
                return true;
            }
            i = i + 1;
        }
        false
    }

    /// Whether the account `addr` holds a vested deposit.
    pub fn is_vested_deposit(&self, addr: &Address) -> (r: bool)
        requires
            self.wf(),
        ensures
            r == (crate::ledger::find_index(self@.wallets, *addr) >= 0 && has_vested_amount(
                self@.wallets[crate::ledger::find_index(self@.wallets, *addr)],
            )),
    {
        match self.find_wallet(addr) {
            Some(i) => match self.wallets[i].vested_amount {
                Some(v) => !v.is_zero(),
                None => false,
            },
            None => false,
        }
    }

    /// The labels of account `w`.
    pub fn get_labels(&self, w: &Wallet) -> (r: Vec<LabelBadge>)
        requires
            self.wf(),
        ensures
            r@.map_values(|b: LabelBadge| b@) == labels_of(
                w@,
                is_grant(self.grants@, w.address),
                crate::ledger::find_index(self@.wallets, w.address) >= 0 && has_vested_amount(
                    self@.wallets[crate::ledger::find_index(self@.wallets, w.address)],
                ),
            ),
    {
        let vested = match w.vested_amount {
            Some(a) => !a.is_zero(),
            None => false,
        };
        let withdrawn = !w.withdrawn.is_zero();
        let mut labels: Vec<LabelBadge> = Vec::new();
        proof {
            assert(labels@.map_values(|b: LabelBadge| b@) =~= Seq::<(Seq<char>, Seq<char>, Seq<char>)>::empty());
        }
        push_badge(
            &mut labels,
            self.is_grant(&w.address),
            "badge-grant",
            "grant",
            "This address was a participant of voting as recipient",
        );
        push_badge(
            &mut labels,
            w.vested || self.is_vested_deposit(&w.address),
            "badge-vested",
            "vested",
            "Some shares of this member are vested",
        );
        push_badge(
            &mut labels,
            !vested && w.supporter,
            "badge-supporter",
            "supporter",
            "API3 tokens are not vested, member can withdraw, but never did",
        );
        push_badge(&mut labels, withdrawn, "badge-withdrawn", "withdrawn", "Withdrew tokens in the past");
        push_badge(
            &mut labels,
            !withdrawn && w.scheduled_unstake.is_some(),
            "badge-unstaking",
            "unstaking",
            "In the process of withdrawing",
        );
        push_badge(
            &mut labels,
            !withdrawn && w.scheduled_unstake.is_none() && !w.supporter && !w.deposited.is_zero()
                && w.voting_power.is_zero() && !vested && w.delegates.is_none(),
            "badge-not-staking",
            "deposited, not staking",
            "Deposited tokens but not staking them",
        );
        push_badge(
            &mut labels,
            w.delegates.is_some(),
            "badge-delegates",
            "delegates",
            "Delegates their stake to another member",
        );
        labels
    }
}

} // verus!
