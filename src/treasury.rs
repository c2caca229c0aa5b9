//! Named treasuries and their token balances.

use vstd::prelude::*;
use crate::address::Address;
use crate::amount::Amount;

verus! {

/// A treasury account with its balance of each token.
pub struct Treasury {
    pub name: String,
    pub wallet: Address,
    /// token symbol to balance
    pub balances: Vec<(String, Amount)>,
    /// seconds since the Unix epoch of the last update, 0 for never
    pub updated_at: i64,
}

/// The value of a `Treasury`.
pub struct TreasuryView {
    pub name: Seq<char>,
    pub wallet: Address,
    pub balances: Seq<(Seq<char>, Amount)>,
    pub updated_at: i64,
}

impl View for Treasury {
    type V = TreasuryView;

    open spec fn view(&self) -> TreasuryView {
        TreasuryView {
            name: self.name@,
            wallet: self.wallet,
            balances: self.balances@.map_values(|b: (String, Amount)| (b.0@, b.1)),
            updated_at: self.updated_at,
        }
    }
}

/// Relies on `chrono::Utc::now`: the current time in whole seconds since the
/// Unix epoch. Nothing is promised of its value.
#[verifier::external_body]
fn now_timestamp() -> (r: i64) {
    chrono::Utc::now().timestamp()
}

impl Treasury {
    pub fn new(name: String, wallet: Address) -> (r: Treasury)
        ensures
            r@ == (TreasuryView { name: name@, wallet, balances: Seq::empty(), updated_at: 0 }),
    {
        let r = Treasury { name, wallet, balances: Vec::new(), updated_at: 0 };
        proof {
            assert(r@.balances =~= Seq::<(Seq<char>, Amount)>::empty());
        }
        r
    }

    /// Replaces the balances and stamps the time `tm` of the update.
    pub fn update_at(&mut self, balances: Vec<(String, Amount)>, tm: i64)
        ensures
            final(self).balances@ == balances@,
            final(self).updated_at == tm,
            final(self).name == old(self).name,
            final(self).wallet == old(self).wallet,
    {
        self.balances = balances;
        self.updated_at = tm;
    }

    /// Replaces the balances and stamps the current time.
    pub fn update(&mut self, balances: Vec<(String, Amount)>)
        ensures
            final(self).balances@ == balances@,
            final(self).name == old(self).name,
            final(self).wallet == old(self).wallet,
    {
        let tm = now_timestamp();
        self.update_at(balances, tm);
    }
}

} // verus!
