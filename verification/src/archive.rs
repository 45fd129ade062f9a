//! Getting transactions from an archive.

use crate::accounts::principal_text;
use crate::calls::{
    describe_rejection, rejection_text, BlocksView, CallRejection, CallView, CanisterCall,
    GetBlocksArgs1, RejectionView,
};
use crate::numbers::{nat_to_u64, too_large_for_u64};
use crate::process::{process_ledger_block_t3, processed};
use crate::types::{
    outcome_view, ArchivedRange1, ArchivedRangeView, Outcome, ProcessedTX, TransactionRange,
    TransactionView,
};
use crate::views::result_view;
use vstd::prelude::*;

verus! {

/// An archive's answer, or its refusal.
pub type ArchiveReplyView = Result<Seq<TransactionView>, RejectionView>;

/// The call that asks the archive with this text for a range.
pub open spec fn archive_call_view(canister: Seq<char>, archived: ArchivedRangeView) -> CallView {
    CallView {
        canister,
        method: archived.method,
        blocks: Some(BlocksView { start: archived.start, length: archived.length }),
    }
}

/// The failure for a range whose start is no block number.
pub open spec fn start_failure() -> Seq<char> {
    "Can't convert archive.start into u64 value (get_transactions_from_archive_t3) : "@
        + too_large_for_u64()
}

/// What an archive's reply gives: its transactions, numbered from the start of the range.
pub open spec fn archive_outcome(master_block: u64, reply: ArchiveReplyView) -> Outcome {
    match reply {
        Ok(transactions) => processed(transactions, master_block),
        Err(rejection) => Err(rejection_text("Error fetching archive blocks (2) - "@, rejection)),
    }
}

/// A call to an archive, and the number of the first block asked for.
pub struct ArchiveRequest {
    pub call: CanisterCall,
    pub master_block: u64,
}

/// Makes the request for a range to the archive with text `canister`.
pub fn archive_request(canister: String, archived: &ArchivedRange1) -> (result: Result<
    ArchiveRequest,
    String,
>)
    ensures
        match result {
            Ok(request) => archived@.start <= u64::MAX && request.master_block == archived@.start
                && request.call@ == archive_call_view(canister@, archived@),
            Err(error) => archived@.start > u64::MAX && error@ == start_failure(),
        },
        match result {
            Ok(request) => {
                &&& request.master_block == archived.start@
                &&& request.call.canister@ == canister@
                &&& request.call.method@ == archived.callback.method@
                &&& request.call.blocks is Some
                &&& request.call.blocks->0.start@ == archived.start@
                &&& request.call.blocks->0.length@ == archived.length@
            },
            Err(error) => archived.start@ > u64::MAX && error@
                == "Can't convert archive.start into u64 value (get_transactions_from_archive_t3) : "@
                + "Nat does not fit in u64"@,
        },
{
    let blocks = GetBlocksArgs1 {
        start: archived.start.duplicate(),
        length: archived.length.duplicate(),
    };
    match nat_to_u64(archived.start.duplicate()) {
        Ok(master_block) => {
            let call = CanisterCall {
                canister,
                method: archived.callback.method.clone(),
                blocks: Some(blocks),
            };
            Ok(ArchiveRequest { call, master_block })
        },
        Err(error) => Err(
            "Can't convert archive.start into u64 value (get_transactions_from_archive_t3) : ".to_owned().concat(
                error.as_str(),
            ),
        ),
    }
}

/// Makes the request for an archived range. It fails exactly when the start of the range is no
/// block number.
pub fn get_transactions_from_archive_t3(archived: &ArchivedRange1) -> (result: Result<
    ArchiveRequest,
    String,
>)
    ensures
        match result {
            Ok(request) => archived@.start <= u64::MAX && request.master_block == archived@.start
                && request.call@ == archive_call_view(
                principal_text(archived@.principal),
                archived@,
            ),
            Err(error) => archived@.start > u64::MAX && error@ == start_failure(),
        },
        match result {
            Ok(request) => {
                &&& request.master_block == archived.start@
                &&& request.call.canister@ == principal_text(archived.callback.principal@)
                &&& request.call.method@ == archived.callback.method@
                &&& request.call.blocks is Some
                &&& request.call.blocks->0.start@ == archived.start@
                &&& request.call.blocks->0.length@ == archived.length@
            },
            Err(error) => archived.start@ > u64::MAX && error@
                == "Can't convert archive.start into u64 value (get_transactions_from_archive_t3) : "@
                + "Nat does not fit in u64"@,
        },
{
    let canister: String = archived.callback.principal.to_text();
    archive_request(canister, archived)
}

/// Turns an archive's reply into stored transactions.
pub fn archive_reply(
    master_block: u64,
    reply: Result<TransactionRange, CallRejection>,
) -> (result: Result<Vec<ProcessedTX>, String>)
    ensures
        outcome_view(result) == archive_outcome(master_block, result_view(reply)),
{
    match reply {
        Ok(range) => process_ledger_block_t3(range.transactions, master_block),
        Err(rejection) => Err(
            describe_rejection("Error fetching archive blocks (2) - ", rejection),
        ),
    }
}

/// The call for an archived range goes to the archive with that text, to the method that the range
/// names, and asks for exactly the range.
pub proof fn law_archive_call(canister: Seq<char>, archived: ArchivedRangeView)
    ensures
        ({
            let call = archive_call_view(canister, archived);
            &&& call.canister == canister
            &&& call.method == archived.method
            &&& call.blocks is Some
            &&& call.blocks->0.start == archived.start
            &&& call.blocks->0.length == archived.length
        }),
{
}

/// An archive's transactions are processed from the first block of the range; a refusal is
/// reported with its code and message.
pub proof fn law_archive_outcome(
    master_block: u64,
    transactions: Seq<TransactionView>,
    rejection: RejectionView,
)
    ensures
        archive_outcome(master_block, Ok(transactions)) == processed(transactions, master_block),
        archive_outcome(master_block, Err(rejection)) == Outcome::Err(
            "Error fetching archive blocks (2) - "@ + rejection.code.name() + ". "@
                + rejection.message,
        ),
{
}

} // verus!
