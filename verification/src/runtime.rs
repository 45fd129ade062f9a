//! The part of the canister's state that downloading reads and changes.

use vstd::prelude::*;

verus! {

/// The settings of the target ledger and the progress of downloading.
pub struct RuntimeState {
    /// The target ledger's canister, in textual form.
    pub target_ledger: String,
    /// Whether the target ledger has been set.
    pub target_ledger_locked: bool,
    /// The target ledger's transfer fee.
    pub ledger_fee: u128,
    /// The number of decimals of the target ledger's token.
    pub ledger_decimals: u8,
    /// How long blocks count as recent, for the hourly and for the daily statistics.
    pub hours_nano: u64,
    pub days_nano: u64,
    /// The last known tip of the target ledger's chain.
    pub ledger_tip_of_chain: u64,
    /// The next block to download.
    pub next_block: u64,
    /// Whether all known blocks have been downloaded.
    pub is_upto_date: bool,
}

/// The mathematical counterpart of [`RuntimeState`].
pub struct RuntimeView {
    pub target_ledger: Seq<char>,
    pub target_ledger_locked: bool,
    pub ledger_fee: u128,
    pub ledger_decimals: u8,
    pub hours_nano: u64,
    pub days_nano: u64,
    pub ledger_tip_of_chain: u64,
    pub next_block: u64,
    pub is_upto_date: bool,
}

impl View for RuntimeState {
    type V = RuntimeView;

    open spec fn view(&self) -> RuntimeView {
        RuntimeView {
            target_ledger: self.target_ledger@,
            target_ledger_locked: self.target_ledger_locked,
            ledger_fee: self.ledger_fee,
            ledger_decimals: self.ledger_decimals,
            hours_nano: self.hours_nano,
            days_nano: self.days_nano,
            ledger_tip_of_chain: self.ledger_tip_of_chain,
            next_block: self.next_block,
            is_upto_date: self.is_upto_date,
        }
    }
}

/// The state's counterpart has the same fields.
pub proof fn law_runtime_view(state: RuntimeState)
    ensures
        state@.target_ledger == state.target_ledger@,
        state@.target_ledger_locked == state.target_ledger_locked,
        state@.ledger_fee == state.ledger_fee,
        state@.ledger_decimals == state.ledger_decimals,
        state@.hours_nano == state.hours_nano,
        state@.days_nano == state.days_nano,
        state@.ledger_tip_of_chain == state.ledger_tip_of_chain,
        state@.next_block == state.next_block,
        state@.is_upto_date == state.is_upto_date,
{
}

} // verus!
