//! Turning ledger transactions into stored ones.

use crate::accounts::{account_text, icrc_account_to_string};
use crate::numbers::{nat_to_u128, too_large_for_u128, Nat};
use crate::types::{
    outcome_view, BurnView, MintView, Outcome, ProcessedTX, ProcessedView, Transaction,
    TransactionType, TransactionView, TransferView,
};
use crate::views::{option_view, views};
use vstd::prelude::*;

verus! {

/// One operation of a transaction, with the amounts it names.
pub enum Operation {
    Mint(MintView),
    Burn(BurnView),
    Transfer(TransferView),
}

/// An operation and the time of its transaction.
pub struct TimedOperation {
    pub operation: Operation,
    pub time: u64,
}

/// The sequence of zero or one operations that an optional part of a transaction gives.
pub open spec fn optional(operation: Option<Operation>, time: u64) -> Seq<TimedOperation> {
    match operation {
        Some(operation) => seq![TimedOperation { operation, time }],
        None => Seq::empty(),
    }
}

/// The mint of a transaction, if it holds one.
pub open spec fn mint_of(tx: TransactionView) -> Seq<TimedOperation> {
    optional(
        match tx.mint {
            Some(mint) => Some(Operation::Mint(mint)),
            None => None,
        },
        tx.timestamp,
    )
}

/// The burn of a transaction, if it holds one.
pub open spec fn burn_of(tx: TransactionView) -> Seq<TimedOperation> {
    optional(
        match tx.burn {
            Some(burn) => Some(Operation::Burn(burn)),
            None => None,
        },
        tx.timestamp,
    )
}

/// The transfer of a transaction, if it holds one.
pub open spec fn transfer_of(tx: TransactionView) -> Seq<TimedOperation> {
    optional(
        match tx.transfer {
            Some(transfer) => Some(Operation::Transfer(transfer)),
            None => None,
        },
        tx.timestamp,
    )
}

/// The operations of a transaction: a mint, then a burn, then a transfer, as far as present.
pub open spec fn operations_of(tx: TransactionView) -> Seq<TimedOperation> {
    mint_of(tx) + burn_of(tx) + transfer_of(tx)
}

/// The operations of a sequence of transactions, in order.
pub open spec fn operations(txs: Seq<TransactionView>) -> Seq<TimedOperation>
    decreases txs.len(),
{
    if txs.len() == 0 {
        Seq::empty()
    } else {
        operations(txs.drop_last()) + operations_of(txs.last())
    }
}

/// The account text that stands for the ledger itself.
pub open spec fn token_ledger() -> Seq<char> {
    "Token Ledger"@
}

/// The stored form of a mint.
pub open spec fn minted(to_account: Seq<char>, amount: nat, block: u64, time: u64) -> ProcessedView {
    ProcessedView {
        block,
        hash: "no-hash"@,
        tx_type: TransactionType::Mint.name(),
        from_account: token_ledger(),
        to_account,
        tx_value: amount as u128,
        tx_fee: None,
        tx_time: time,
        spender: None,
    }
}

/// The stored form of a burn.
pub open spec fn burned(
    from_account: Seq<char>,
    amount: nat,
    block: u64,
    time: u64,
) -> ProcessedView {
    ProcessedView {
        block,
        hash: "no-hash"@,
        tx_type: TransactionType::Burn.name(),
        from_account,
        to_account: token_ledger(),
        tx_value: amount as u128,
        tx_fee: None,
        tx_time: time,
        spender: None,
    }
}

/// The stored form of a transfer.
pub open spec fn transferred(
    to_account: Seq<char>,
    from_account: Seq<char>,
    fee: Option<nat>,
    amount: nat,
    block: u64,
    time: u64,
) -> ProcessedView {
    ProcessedView {
        block,
        hash: "no-hash"@,
        tx_type: TransactionType::Transfer.name(),
        from_account,
        to_account,
        tx_value: amount as u128,
        tx_fee: match fee {
            Some(fee) => Some(fee as u128),
            None => None,
        },
        tx_time: time,
        spender: None,
    }
}

/// Why a mint cannot be stored, if so.
pub open spec fn mint_failure(amount: nat) -> Option<Seq<char>> {
    if amount > u128::MAX {
        Some("Can't process archive tx value to u128 (1) : "@ + too_large_for_u128())
    } else {
        None
    }
}

/// Why a burn cannot be stored, if so.
pub open spec fn burn_failure(amount: nat) -> Option<Seq<char>> {
    if amount > u128::MAX {
        Some("Can't process archive tx value to u128 (2) : "@ + too_large_for_u128())
    } else {
        None
    }
}

/// Why a transfer cannot be stored, if so. The fee is looked at before the amount.
pub open spec fn transfer_failure(fee: Option<nat>, amount: nat) -> Option<Seq<char>> {
    if fee is Some && fee->0 > u128::MAX {
        Some("Can't process transaction fee to u128 : "@ + too_large_for_u128())
    } else if amount > u128::MAX {
        Some("Can't process archive tx value to u128 (3) : "@ + too_large_for_u128())
    } else {
        None
    }
}

/// Why an operation cannot be stored, if so.
pub open spec fn failure(item: TimedOperation) -> Option<Seq<char>> {
    match item.operation {
        Operation::Mint(mint) => mint_failure(mint.amount),
        Operation::Burn(burn) => burn_failure(burn.amount),
        Operation::Transfer(transfer) => transfer_failure(transfer.fee, transfer.amount),
    }
}

/// The stored form of an operation under a block number.
pub open spec fn record(item: TimedOperation, block: u64) -> ProcessedView {
    match item.operation {
        Operation::Mint(mint) => minted(account_text(mint.to), mint.amount, block, item.time),
        Operation::Burn(burn) => burned(account_text(burn.from), burn.amount, block, item.time),
        Operation::Transfer(transfer) => transferred(
            account_text(transfer.to),
            account_text(transfer.from),
            transfer.fee,
            transfer.amount,
            block,
            item.time,
        ),
    }
}

/// The number of the `offset`-th block from `first`; numbers stop at the largest `u64`.
pub open spec fn block_number(first: u64, offset: int) -> u64 {
    if first + offset > u64::MAX {
        u64::MAX
    } else {
        (first + offset) as u64
    }
}

/// The failure of the first operation that cannot be stored, if there is one.
pub open spec fn first_failure(items: Seq<TimedOperation>) -> Option<Seq<char>>
    decreases items.len(),
{
    if items.len() == 0 {
        None
    } else {
        match first_failure(items.drop_last()) {
            Some(error) => Some(error),
            None => failure(items.last()),
        }
    }
}

/// The stored forms of operations under consecutive block numbers from `first`.
pub open spec fn records(items: Seq<TimedOperation>, first: u64) -> Seq<ProcessedView> {
    Seq::new(items.len(), |i: int| record(items[i], block_number(first, i)))
}

/// What storing operations gives: all of them under consecutive block numbers, or the failure of
/// the first one that cannot be stored.
pub open spec fn stored(items: Seq<TimedOperation>, first: u64) -> Outcome {
    match first_failure(items) {
        Some(error) => Err(error),
        None => Ok(records(items, first)),
    }
}

/// What processing transactions gives: their operations, stored in order.
pub open spec fn processed(txs: Seq<TransactionView>, first: u64) -> Outcome {
    stored(operations(txs), first)
}

/// Builds the stored form of a mint to the account with text `to_account`.
pub fn mint_record(to_account: String, amount: Nat, block: u64, time: u64) -> (result: Result<
    ProcessedTX,
    String,
>)
    ensures
        match result {
            Ok(stored) => mint_failure(amount@) is None && stored@ == minted(
                to_account@,
                amount@,
                block,
                time,
            ),
            Err(error) => mint_failure(amount@) == Some(error@),
        },
        result is Ok <==> amount@ <= u128::MAX,
        match result {
            Ok(stored) => {
                &&& stored.block == block
                &&& stored.tx_type@ == "Mint"@
                &&& stored.tx_value as int == amount@
                &&& stored.from_account@ == "Token Ledger"@
                &&& stored.to_account@ == to_account@
                &&& stored.tx_fee is None
                &&& stored.tx_time == time
                &&& stored.hash@ == "no-hash"@
                &&& stored.spender is None
            },
            Err(error) => error@ == "Can't process archive tx value to u128 (1) : "@
                + "Nat does not fit in u128"@,
        },
{
    match nat_to_u128(amount) {
        Ok(value) => Ok(
            ProcessedTX {
                block,
                hash: "no-hash".to_owned(),
                tx_type: TransactionType::Mint.to_string(),
                from_account: "Token Ledger".to_owned(),
                to_account,
                tx_value: value,
                tx_fee: None,
                tx_time: time,
                spender: None,
            },
        ),
        Err(error) => Err(
            "Can't process archive tx value to u128 (1) : ".to_owned().concat(error.as_str()),
        ),
    }
}

/// Builds the stored form of a burn from the account with text `from_account`.
pub fn burn_record(from_account: String, amount: Nat, block: u64, time: u64) -> (result: Result<
    ProcessedTX,
    String,
>)
    ensures
        match result {
            Ok(stored) => burn_failure(amount@) is None && stored@ == burned(
                from_account@,
                amount@,
                block,
                time,
            ),
            Err(error) => burn_failure(amount@) == Some(error@),
        },
        result is Ok <==> amount@ <= u128::MAX,
        match result {
            Ok(stored) => {
                &&& stored.block == block
                &&& stored.tx_type@ == "Burn"@
                &&& stored.tx_value as int == amount@
                &&& stored.from_account@ == from_account@
                &&& stored.to_account@ == "Token Ledger"@
                &&& stored.tx_fee is None
                &&& stored.tx_time == time
                &&& stored.hash@ == "no-hash"@
                &&& stored.spender is None
            },
            Err(error) => error@ == "Can't process archive tx value to u128 (2) : "@
                + "Nat does not fit in u128"@,
        },
{
    match nat_to_u128(amount) {
        Ok(value) => Ok(
            ProcessedTX {
                block,
                hash: "no-hash".to_owned(),
                tx_type: TransactionType::Burn.to_string(),
                from_account,
                to_account: "Token Ledger".to_owned(),
                tx_value: value,
                tx_fee: None,
                tx_time: time,
                spender: None,
            },
        ),
        Err(error) => Err(
            "Can't process archive tx value to u128 (2) : ".to_owned().concat(error.as_str()),
        ),
    }
}

/// Builds the stored form of a transfer between the accounts with these texts.
pub fn transfer_record(
    to_account: String,
    from_account: String,
    fee: Option<Nat>,
    amount: Nat,
    block: u64,
    time: u64,
) -> (result: Result<ProcessedTX, String>)
    ensures
        match result {
            Ok(stored) => transfer_failure(option_view(fee), amount@) is None && stored@
                == transferred(
                to_account@,
                from_account@,
                option_view(fee),
                amount@,
                block,
                time,
            ),
            Err(error) => transfer_failure(option_view(fee), amount@) == Some(error@),
        },
        result is Ok <==> amount@ <= u128::MAX && (fee is Some ==> fee->0@ <= u128::MAX),
        match result {
            Ok(stored) => {
                &&& stored.block == block
                &&& stored.tx_type@ == "Transfer"@
                &&& stored.tx_value as int == amount@
                &&& stored.from_account@ == from_account@
                &&& stored.to_account@ == to_account@
                &&& stored.tx_fee is Some <==> fee is Some
                &&& fee is Some ==> stored.tx_fee->0 as int == fee->0@
                &&& stored.tx_time == time
                &&& stored.hash@ == "no-hash"@
                &&& stored.spender is None
            },
            Err(error) => error@ == if fee is Some && fee->0@ > u128::MAX {
                "Can't process transaction fee to u128 : "@ + "Nat does not fit in u128"@
            } else {
                "Can't process archive tx value to u128 (3) : "@ + "Nat does not fit in u128"@
            },
        },
{
    let tx_fee: Option<u128> = match fee {
        Some(fee) => match nat_to_u128(fee) {
            Ok(value) => Some(value),
            Err(error) => {
                return Err(
                    "Can't process transaction fee to u128 : ".to_owned().concat(error.as_str()),
                );
            },
        },
        None => None,
    };
    match nat_to_u128(amount) {
        Ok(value) => Ok(
            ProcessedTX {
                block,
                hash: "no-hash".to_owned(),
                tx_type: TransactionType::Transfer.to_string(),
                from_account,
                to_account,
                tx_value: value,
                tx_fee,
                tx_time: time,
                spender: None,
            },
        ),
        Err(error) => Err(
            "Can't process archive tx value to u128 (3) : ".to_owned().concat(error.as_str()),
        ),
    }
}

/// Failures are looked for from the front.
proof fn lemma_first_failure_concat(front: Seq<TimedOperation>, back: Seq<TimedOperation>)
    ensures
        first_failure(front + back) == match first_failure(front) {
            Some(error) => Some(error),
            None => first_failure(back),
        },
    decreases back.len(),
{
    if back.len() == 0 {
        assert(front + back =~= front);
    } else {
        lemma_first_failure_concat(front, back.drop_last());
        assert((front + back).drop_last() =~= front + back.drop_last());
    }
}

/// The operations of two sequences of transactions, one after the other.
proof fn lemma_operations_concat(front: Seq<TransactionView>, back: Seq<TransactionView>)
    ensures
        operations(front + back) == operations(front) + operations(back),
    decreases back.len(),
{
    if back.len() == 0 {
        assert(front + back =~= front);
        assert(operations(front) + operations(back) =~= operations(front));
    } else {
        lemma_operations_concat(front, back.drop_last());
        assert((front + back).drop_last() =~= front + back.drop_last());
        assert((operations(front) + operations(back.drop_last())) + operations_of(back.last())
            =~= operations(front) + operations(back));
    }
}

/// Storing operations in two parts, the second under the block numbers that follow, is storing
/// them at once.
proof fn lemma_stored_concat(front: Seq<TimedOperation>, back: Seq<TimedOperation>, first: u64)
    ensures
        stored(front + back, first) == match stored(front, first) {
            Ok(earlier) => match stored(back, block_number(first, front.len() as int)) {
                Ok(later) => Ok(earlier + later),
                Err(error) => Err(error),
            },
            Err(error) => Err(error),
        },
{
    lemma_first_failure_concat(front, back);
    assert(records(front, first) + records(back, block_number(first, front.len() as int))
        =~= records(front + back, first));
}

/// Storing at most one operation.
proof fn lemma_stored_optional(operation: Option<Operation>, time: u64, first: u64)
    ensures
        stored(optional(operation, time), first) == match operation {
            Some(operation) => {
                let item = TimedOperation { operation, time };
                match failure(item) {
                    Some(error) => Err(error),
                    None => Ok(seq![record(item, first)]),
                }
            },
            None => Ok(Seq::empty()),
        },
{
    reveal_with_fuel(first_failure, 2);
    let items = optional(operation, time);
    match operation {
        Some(operation) => {
            let item = TimedOperation { operation, time };
            assert(items.drop_last() =~= Seq::<TimedOperation>::empty());
            assert(records(items, first) =~= seq![record(item, first)]);
        },
        None => {
            assert(records(items, first) =~= Seq::<ProcessedView>::empty());
        },
    }
}

/// Turns one transaction into its stored form: the operations it holds, in order.
fn process_transaction(tx: Transaction, block: u64) -> (result: Result<Vec<ProcessedTX>, String>)
    ensures
        outcome_view(result) == stored(operations_of(tx@), block),
{
    let ghost mint_part = mint_of(tx@);
    let ghost burn_part = burn_of(tx@);
    let ghost transfer_part = transfer_of(tx@);
    let mut entries: Vec<ProcessedTX> = Vec::new();
    let mut master_block: u64 = block;
    proof {
        lemma_stored_concat(mint_part + burn_part, transfer_part, block);
        lemma_stored_concat(mint_part, burn_part, block);
    }

    let ghost mint_operation = match tx@.mint {
        Some(mint) => Some(Operation::Mint(mint)),
        None => None,
    };
    proof {
        lemma_stored_optional(mint_operation, tx.timestamp, master_block);
    }
    if let Some(mint) = tx.mint {
        let to_account: String = icrc_account_to_string(mint.to);
        match mint_record(to_account, mint.amount, master_block, tx.timestamp) {
            Ok(entry) => {
                entries.push(entry);
            },
            Err(error) => {
                return Err(error);
            },
        }
        master_block = master_block.saturating_add(1);
    }
    assert(stored(mint_part, block) == Outcome::Ok(views(entries@))) by {
        assert(views(entries@) =~= stored(mint_part, block)->Ok_0);
    }

    let ghost burn_operation = match tx@.burn {
        Some(burn) => Some(Operation::Burn(burn)),
        None => None,
    };
    proof {
        assert(master_block == block_number(block, mint_part.len() as int));
        lemma_stored_optional(burn_operation, tx.timestamp, master_block);
    }
    let ghost minted_entries = views(entries@);
    if let Some(burn) = tx.burn {
        let from_account: String = icrc_account_to_string(burn.from);
        match burn_record(from_account, burn.amount, master_block, tx.timestamp) {
            Ok(entry) => {
                entries.push(entry);
            },
            Err(error) => {
                return Err(error);
            },
        }
        master_block = master_block.saturating_add(1);
    }
    assert(stored(mint_part + burn_part, block) == Outcome::Ok(views(entries@))) by {
        assert(views(entries@) =~= stored(mint_part + burn_part, block)->Ok_0);
    }

    let ghost transfer_operation = match tx@.transfer {
        Some(transfer) => Some(Operation::Transfer(transfer)),
        None => None,
    };
    proof {
        assert(master_block == block_number(block, (mint_part + burn_part).len() as int));
        lemma_stored_optional(transfer_operation, tx.timestamp, master_block);
    }
    if let Some(transfer) = tx.transfer {
        let to_account: String = icrc_account_to_string(transfer.to);
        let from_account: String = icrc_account_to_string(transfer.from);
        match transfer_record(
            to_account,
            from_account,
            transfer.fee,
            transfer.amount,
            master_block,
            tx.timestamp,
        ) {
            Ok(entry) => {
                entries.push(entry);
            },
            Err(error) => {
                return Err(error);
            },
        }
    }
    assert(views(entries@) =~= stored(mint_part + burn_part + transfer_part, block)->Ok_0);
    Ok(entries)
}

/// Turns transactions into their stored form. Their operations get consecutive block numbers
/// from `next_block_number` on.
pub fn process_ledger_block_t3(txs: Vec<Transaction>, next_block_number: u64) -> (result: Result<
    Vec<ProcessedTX>,
    String,
>)
    ensures
        outcome_view(result) == processed(views(txs@), next_block_number),
{
    let ghost all = views(txs@);
    let mut processed_transactions: Vec<ProcessedTX> = Vec::new();
    let mut master_block: u64 = next_block_number;
    assert(views(processed_transactions@) =~= records(
        operations(all.take(0)),
        next_block_number,
    ));
    for tx in it: txs
        invariant
            all == views(txs@),
            all == views(it.seq()),
            processed(all.take(it.index()), next_block_number) == Outcome::Ok(
                views(processed_transactions@),
            ),
            master_block == block_number(
                next_block_number,
                operations(all.take(it.index())).len() as int,
            ),
    {
        proof {
            let index = it.index();
            let done = all.take(index);
            let now = all.take(index + 1);
            let rest = all.skip(index + 1);
            assert(now.drop_last() =~= done);
            assert(now.last() == tx@);
            lemma_stored_concat(operations(done), operations_of(tx@), next_block_number);
            assert(all =~= now + rest);
            lemma_operations_concat(now, rest);
            lemma_stored_concat(operations(now), operations(rest), next_block_number);
        }
        let ghost earlier = views(processed_transactions@);
        match process_transaction(tx, master_block) {
            Ok(mut entries) => {
                let ghost later = views(entries@);
                master_block = master_block.saturating_add(entries.len() as u64);
                processed_transactions.append(&mut entries);
                assert(views(processed_transactions@) =~= earlier + later);
            },
            Err(error) => {
                return Err(error);
            },
        }
    }
    assert(all.take(all.len() as int) =~= all);
    Ok(processed_transactions)
}

/// Processing transactions in two parts, the second from the block number that follows the
/// first part's operations, gives the same as processing them at once.
pub proof fn law_processing_in_parts(
    front: Seq<TransactionView>,
    back: Seq<TransactionView>,
    first: u64,
)
    ensures
        processed(front + back, first) == match processed(front, first) {
            Ok(earlier) => match processed(
                back,
                block_number(first, operations(front).len() as int),
            ) {
                Ok(later) => Ok(earlier + later),
                Err(error) => Err(error),
            },
            Err(error) => Err(error),
        },
{
    lemma_operations_concat(front, back);
    lemma_stored_concat(operations(front), operations(back), first);
}

/// Processed transactions carry consecutive block numbers from the first one on, as long as
/// block numbers fit.
pub proof fn law_block_numbers_consecutive(txs: Seq<TransactionView>, first: u64, index: int)
    requires
        processed(txs, first) is Ok,
        0 <= index < processed(txs, first)->Ok_0.len(),
        first + index <= u64::MAX,
    ensures
        processed(txs, first)->Ok_0[index].block == first + index,
{
}

/// Processing fails exactly when some operation cannot be stored.
pub proof fn law_fails_exactly_when_unstorable(txs: Seq<TransactionView>, first: u64)
    ensures
        processed(txs, first) is Err <==> exists|i: int|
            0 <= i < operations(txs).len() && failure(#[trigger] operations(txs)[i]) is Some,
{
    let all = operations(txs);
    if first_failure(all) is Some {
        let index = lemma_failure_found(all);
        assert(failure(operations(txs)[index]) is Some);
    } else if exists|i: int| 0 <= i < all.len() && failure(#[trigger] all[i]) is Some {
        let index = choose|i: int| 0 <= i < all.len() && failure(#[trigger] all[i]) is Some;
        assert(all =~= all.take(index) + all.skip(index));
        lemma_first_failure_concat(all.take(index), all.skip(index));
        assert(all.skip(index) =~= seq![all[index]] + all.skip(index + 1));
        lemma_first_failure_concat(seq![all[index]], all.skip(index + 1));
        reveal_with_fuel(first_failure, 2);
        assert(seq![all[index]].drop_last() =~= Seq::<TimedOperation>::empty());
    }
}

/// A first failure is the failure of some operation.
proof fn lemma_failure_found(items: Seq<TimedOperation>) -> (index: int)
    requires
        first_failure(items) is Some,
    ensures
        0 <= index < items.len(),
        failure(items[index]) is Some,
    decreases items.len(),
{
    if first_failure(items.drop_last()) is Some {
        lemma_failure_found(items.drop_last())
    } else {
        items.len() - 1
    }
}

/// An operation that cannot be stored, after operations that can, decides the outcome:
/// processing fails with its failure.
pub proof fn law_first_failure_reported(txs: Seq<TransactionView>, first: u64, index: int)
    requires
        0 <= index < operations(txs).len(),
        failure(operations(txs)[index]) is Some,
        forall|i: int| 0 <= i < index ==> failure(#[trigger] operations(txs)[i]) is None,
    ensures
        processed(txs, first) == Outcome::Err(failure(operations(txs)[index])->0),
{
    let all = operations(txs);
    let front = all.take(index);
    assert(all =~= front + seq![all[index]] + all.skip(index + 1));
    assert forall|i: int| 0 <= i < front.len() implies failure(#[trigger] front[i]) is None by {
        assert(front[i] == operations(txs)[i]);
    }
    lemma_no_failure(front);
    lemma_first_failure_concat(front + seq![all[index]], all.skip(index + 1));
    lemma_first_failure_concat(front, seq![all[index]]);
    reveal_with_fuel(first_failure, 2);
    assert(seq![all[index]].drop_last() =~= Seq::<TimedOperation>::empty());
}

/// Processing succeeds when every operation can be stored, with one entry for each operation.
pub proof fn law_all_operations_stored(txs: Seq<TransactionView>, first: u64)
    requires
        forall|i: int|
            0 <= i < operations(txs).len() ==> failure(#[trigger] operations(txs)[i]) is None,
    ensures
        processed(txs, first) is Ok,
        processed(txs, first)->Ok_0.len() == operations(txs).len(),
{
    lemma_no_failure(operations(txs));
}

/// Operations that can all be stored have no first failure.
proof fn lemma_no_failure(items: Seq<TimedOperation>)
    requires
        forall|i: int| 0 <= i < items.len() ==> failure(#[trigger] items[i]) is None,
    ensures
        first_failure(items) is None,
    decreases items.len(),
{
    if items.len() > 0 {
        let front = items.drop_last();
        assert forall|i: int| 0 <= i < front.len() implies failure(#[trigger] front[i]) is None by {
            assert(front[i] == items[i]);
        }
        lemma_no_failure(front);
    }
}

/// Minted tokens come from the ledger and burned tokens go to it; only transfers carry a fee.
/// No entry has a transaction hash or a spender.
pub proof fn law_entry_shape(txs: Seq<TransactionView>, first: u64, index: int)
    requires
        processed(txs, first) is Ok,
        0 <= index < processed(txs, first)->Ok_0.len(),
    ensures
        ({
            let entry = processed(txs, first)->Ok_0[index];
            &&& entry.hash == "no-hash"@
            &&& entry.spender is None
            &&& match operations(txs)[index].operation {
                Operation::Mint(mint) => entry.from_account == token_ledger()
                    && entry.to_account == account_text(mint.to) && entry.tx_fee is None,
                Operation::Burn(burn) => entry.to_account == token_ledger() && entry.from_account
                    == account_text(burn.from) && entry.tx_fee is None,
                Operation::Transfer(transfer) => entry.from_account == account_text(transfer.from)
                    && entry.to_account == account_text(transfer.to) && (entry.tx_fee is Some
                    <==> transfer.fee is Some),
            }
        }),
{
}

/// The entry has the `index`-th block number from `first` on; numbers stop at the largest `u64`.
pub open spec fn numbered(entry: ProcessedView, first: u64, index: int) -> bool {
    if first + index <= u64::MAX {
        entry.block == first + index
    } else {
        entry.block == u64::MAX
    }
}

/// The entry holds the data of a mint: all of the amount, from the ledger to the account, at that
/// time.
pub open spec fn carries_mint(entry: ProcessedView, mint: MintView, time: u64) -> bool {
    &&& entry.tx_type == "Mint"@
    &&& entry.tx_value as int == mint.amount
    &&& entry.from_account == "Token Ledger"@
    &&& entry.to_account == account_text(mint.to)
    &&& entry.tx_fee is None
    &&& entry.tx_time == time
    &&& entry.hash == "no-hash"@
    &&& entry.spender is None
}

/// The entry holds the data of a burn: all of the amount, from the account to the ledger, at that
/// time.
pub open spec fn carries_burn(entry: ProcessedView, burn: BurnView, time: u64) -> bool {
    &&& entry.tx_type == "Burn"@
    &&& entry.tx_value as int == burn.amount
    &&& entry.from_account == account_text(burn.from)
    &&& entry.to_account == "Token Ledger"@
    &&& entry.tx_fee is None
    &&& entry.tx_time == time
    &&& entry.hash == "no-hash"@
    &&& entry.spender is None
}

/// The entry holds the data of a transfer: all of the amount and of the fee, from the one account
/// to the other, at that time.
pub open spec fn carries_transfer(entry: ProcessedView, transfer: TransferView, time: u64) -> bool {
    &&& entry.tx_type == "Transfer"@
    &&& entry.tx_value as int == transfer.amount
    &&& entry.from_account == account_text(transfer.from)
    &&& entry.to_account == account_text(transfer.to)
    &&& entry.tx_fee is Some <==> transfer.fee is Some
    &&& transfer.fee is Some ==> entry.tx_fee->0 as int == transfer.fee->0
    &&& entry.tx_time == time
    &&& entry.hash == "no-hash"@
    &&& entry.spender is None
}

/// Every stored entry carries the data of its operation unchanged, as numbers without a bound:
/// the kind, the amount, the fee, the two accounts and the time; and it is numbered by its place.
pub proof fn law_entry_carries_operation(txs: Seq<TransactionView>, first: u64, index: int)
    requires
        processed(txs, first) is Ok,
        0 <= index < processed(txs, first)->Ok_0.len(),
    ensures
        processed(txs, first)->Ok_0.len() == operations(txs).len(),
        ({
            let entry = processed(txs, first)->Ok_0[index];
            let item = operations(txs)[index];
            &&& numbered(entry, first, index)
            &&& first + index <= u64::MAX ==> entry.block == first + index
            &&& first + index > u64::MAX ==> entry.block == u64::MAX
            &&& entry.tx_time == item.time
            &&& entry.hash == "no-hash"@
            &&& entry.spender is None
            &&& match item.operation {
                Operation::Mint(mint) => {
                    &&& carries_mint(entry, mint, item.time)
                    &&& entry.tx_type == "Mint"@
                    &&& entry.tx_value as int == mint.amount
                    &&& entry.tx_fee is None
                    &&& entry.from_account == "Token Ledger"@
                    &&& entry.to_account == account_text(mint.to)
                },
                Operation::Burn(burn) => {
                    &&& carries_burn(entry, burn, item.time)
                    &&& entry.tx_type == "Burn"@
                    &&& entry.tx_value as int == burn.amount
                    &&& entry.tx_fee is None
                    &&& entry.from_account == account_text(burn.from)
                    &&& entry.to_account == "Token Ledger"@
                },
                Operation::Transfer(transfer) => {
                    &&& carries_transfer(entry, transfer, item.time)
                    &&& entry.tx_type == "Transfer"@
                    &&& entry.tx_value as int == transfer.amount
                    &&& match (entry.tx_fee, transfer.fee) {
                        (Some(stored), Some(fee)) => stored as int == fee,
                        (None, None) => true,
                        _ => false,
                    }
                    &&& entry.from_account == account_text(transfer.from)
                    &&& entry.to_account == account_text(transfer.to)
                },
            }
        }),
{
    lemma_each_storable(operations(txs), index);
}

/// Where there is no first failure, no operation fails.
proof fn lemma_each_storable(items: Seq<TimedOperation>, index: int)
    requires
        first_failure(items) is None,
        0 <= index < items.len(),
    ensures
        failure(items[index]) is None,
    decreases items.len(),
{
    if index < items.len() - 1 {
        lemma_each_storable(items.drop_last(), index);
    }
}

/// An operation can be stored exactly when its amount, and its fee if it has one, fit in 128 bits.
pub proof fn law_storable_exactly_when_small(item: TimedOperation)
    ensures
        failure(item) is None <==> match item.operation {
            Operation::Mint(mint) => mint.amount < 0x1_0000_0000_0000_0000_0000_0000_0000_0000,
            Operation::Burn(burn) => burn.amount < 0x1_0000_0000_0000_0000_0000_0000_0000_0000,
            Operation::Transfer(transfer) => transfer.amount
                < 0x1_0000_0000_0000_0000_0000_0000_0000_0000 && (transfer.fee is Some
                ==> transfer.fee->0 < 0x1_0000_0000_0000_0000_0000_0000_0000_0000),
        },
{
}

/// The operations of transactions are those of each transaction in turn: its mint, its burn and
/// its transfer, as far as it holds them, with its time. None is left out, added or moved.
pub proof fn law_operations_in_order(front: Seq<TransactionView>, tx: TransactionView)
    ensures
        operations(Seq::empty()) == Seq::<TimedOperation>::empty(),
        ({
            let earlier = operations(front);
            let all = operations(front.push(tx));
            let burn_at = earlier.len() + if tx.mint is Some { 1int } else { 0int };
            let transfer_at = burn_at + if tx.burn is Some { 1int } else { 0int };
            let end = transfer_at + if tx.transfer is Some { 1int } else { 0int };
            &&& all.len() == end
            &&& all.take(earlier.len() as int) == earlier
            &&& tx.mint is Some ==> all[earlier.len() as int] == (TimedOperation {
                operation: Operation::Mint(tx.mint->0),
                time: tx.timestamp,
            })
            &&& tx.burn is Some ==> all[burn_at] == (TimedOperation {
                operation: Operation::Burn(tx.burn->0),
                time: tx.timestamp,
            })
            &&& tx.transfer is Some ==> all[transfer_at] == (TimedOperation {
                operation: Operation::Transfer(tx.transfer->0),
                time: tx.timestamp,
            })
        }),
{
    assert(front.push(tx).drop_last() =~= front);
    assert(operations(front.push(tx)).take(operations(front).len() as int) =~= operations(front));
}

/// No transactions give no entries.
pub proof fn law_nothing_processed(first: u64)
    ensures
        processed(Seq::empty(), first) == Outcome::Ok(Seq::empty()),
{
    assert(records(operations(Seq::empty()), first) =~= Seq::empty());
}

/// One more transaction leaves the entries before it as they are and adds one entry for each of
/// its operations, the mint before the burn before the transfer, with the operation's data and the
/// block numbers that follow. It fails, with the reason, exactly when one of its amounts or its
/// fee does not fit in 128 bits. A failure before it stays.
pub proof fn law_transaction_appended(
    front: Seq<TransactionView>,
    tx: TransactionView,
    first: u64,
)
    ensures
        match processed(front, first) {
            Err(error) => processed(front.push(tx), first) == Outcome::Err(error),
            Ok(earlier) => {
                let outcome = processed(front.push(tx), first);
                let count = earlier.len() as int;
                let burn_at = count + if tx.mint is Some { 1int } else { 0int };
                let transfer_at = burn_at + if tx.burn is Some { 1int } else { 0int };
                let end = transfer_at + if tx.transfer is Some { 1int } else { 0int };
                if tx.mint is Some && tx.mint->0.amount > u128::MAX {
                    outcome == Outcome::Err(
                        "Can't process archive tx value to u128 (1) : "@
                            + "Nat does not fit in u128"@,
                    )
                } else if tx.burn is Some && tx.burn->0.amount > u128::MAX {
                    outcome == Outcome::Err(
                        "Can't process archive tx value to u128 (2) : "@
                            + "Nat does not fit in u128"@,
                    )
                } else if tx.transfer is Some && tx.transfer->0.fee is Some
                    && tx.transfer->0.fee->0 > u128::MAX {
                    outcome == Outcome::Err(
                        "Can't process transaction fee to u128 : "@ + "Nat does not fit in u128"@,
                    )
                } else if tx.transfer is Some && tx.transfer->0.amount > u128::MAX {
                    outcome == Outcome::Err(
                        "Can't process archive tx value to u128 (3) : "@
                            + "Nat does not fit in u128"@,
                    )
                } else {
                    &&& outcome is Ok
                    &&& outcome->Ok_0.len() == end
                    &&& outcome->Ok_0.take(count) == earlier
                    &&& tx.mint is Some ==> carries_mint(
                        outcome->Ok_0[count],
                        tx.mint->0,
                        tx.timestamp,
                    ) && numbered(outcome->Ok_0[count], first, count)
                    &&& tx.burn is Some ==> carries_burn(
                        outcome->Ok_0[burn_at],
                        tx.burn->0,
                        tx.timestamp,
                    ) && numbered(outcome->Ok_0[burn_at], first, burn_at)
                    &&& tx.transfer is Some ==> carries_transfer(
                        outcome->Ok_0[transfer_at],
                        tx.transfer->0,
                        tx.timestamp,
                    ) && numbered(outcome->Ok_0[transfer_at], first, transfer_at)
                }
            },
        },
{
    let all = front.push(tx);
    assert(all.drop_last() =~= front);
    lemma_stored_concat(operations(front), operations_of(tx), first);
    lemma_transaction_failure(tx);
    if processed(front, first) is Ok && processed(all, first) is Ok {
        let earlier = processed(front, first)->Ok_0;
        assert(processed(all, first)->Ok_0.take(earlier.len() as int) =~= earlier);
        law_operations_in_order(front, tx);
        assert forall|i: int| 0 <= i < operations(all).len() implies failure(
            #[trigger] operations(all)[i],
        ) is None by {
            lemma_each_storable(operations(all), i);
        }
    }
}

/// Storing one transaction fails with the first of its operations that cannot be stored.
proof fn lemma_transaction_failure(tx: TransactionView)
    ensures
        first_failure(operations_of(tx)) == {
            let mint = match tx.mint {
                Some(mint) => mint_failure(mint.amount),
                None => None,
            };
            let burn = match tx.burn {
                Some(burn) => burn_failure(burn.amount),
                None => None,
            };
            let transfer = match tx.transfer {
                Some(transfer) => transfer_failure(transfer.fee, transfer.amount),
                None => None,
            };
            if mint is Some {
                mint
            } else if burn is Some {
                burn
            } else {
                transfer
            }
        },
{
    let (mint, burn, transfer) = (mint_of(tx), burn_of(tx), transfer_of(tx));
    lemma_first_failure_concat(mint + burn, transfer);
    lemma_first_failure_concat(mint, burn);
    lemma_optional_failure(
        match tx.mint {
            Some(mint) => Some(Operation::Mint(mint)),
            None => None,
        },
        tx.timestamp,
    );
    lemma_optional_failure(
        match tx.burn {
            Some(burn) => Some(Operation::Burn(burn)),
            None => None,
        },
        tx.timestamp,
    );
    lemma_optional_failure(
        match tx.transfer {
            Some(transfer) => Some(Operation::Transfer(transfer)),
            None => None,
        },
        tx.timestamp,
    );
}

/// The failure of at most one operation.
proof fn lemma_optional_failure(operation: Option<Operation>, time: u64)
    ensures
        first_failure(optional(operation, time)) == match operation {
            Some(operation) => failure(TimedOperation { operation, time }),
            None => None,
        },
{
    reveal_with_fuel(first_failure, 2);
    assert(optional(operation, time).len() > 0 ==> optional(operation, time).drop_last()
        =~= Seq::<TimedOperation>::empty());
}

} // verus!
