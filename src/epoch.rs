//! Reward epochs: one per distribution of minted rewards.

use vstd::prelude::*;
use crate::address::{Address, TxHash};
use crate::amount::Amount;
use crate::amount_map::AmountMap;

verus! {

/// One reward distribution.
pub struct Epoch {
    /// index of the epoch
    pub index: u64,
    /// APR in force during the epoch, as a fraction scaled by 10^18
    pub apr: Amount,
    /// amount minted at the end of the epoch
    pub minted: Amount,
    /// total stake that the minted amount was shared over
    pub total: Amount,
    /// stake plus rewards of each account when the rewards were minted
    pub stake: AmountMap,
    pub tm: u64,
    pub block_number: u64,
    /// transaction that minted the rewards
    pub tx: TxHash,
}

/// The value of an `Epoch`.
pub struct EpochView {
    pub index: u64,
    pub apr: Amount,
    pub minted: Amount,
    pub total: Amount,
    pub stake: Seq<(Address, Amount)>,
    pub tm: u64,
    pub block_number: u64,
    pub tx: TxHash,
}

impl View for Epoch {
    type V = EpochView;

    open spec fn view(&self) -> EpochView {
        EpochView {
            index: self.index,
            apr: self.apr,
            minted: self.minted,
            total: self.total,
            stake: self.stake@,
            tm: self.tm,
            block_number: self.block_number,
            tx: self.tx,
        }
    }
}

impl Epoch {
    pub fn new(
        index: u64,
        apr: Amount,
        minted: Amount,
        total: Amount,
        stake: AmountMap,
        tm: u64,
        block_number: u64,
        tx: TxHash,
    ) -> (r: Epoch)
        ensures
            r@ == (EpochView { index, apr, minted, total, stake: stake@, tm, block_number, tx }),
    {
        Epoch { index, apr, minted, total, stake, tm, block_number, tx }
    }
}

} // verus!
