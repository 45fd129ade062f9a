//! Transactions as a ledger reports them, and as they are stored.

use crate::accounts::{Account, AccountView, Principal};
use crate::numbers::Nat;
use crate::views::{option_view, views};
use vstd::prelude::*;

verus! {

/// Tokens created on an account.
pub struct Mint {
    pub to: Account,
    pub amount: Nat,
}

/// Tokens destroyed on an account.
pub struct Burn {
    pub from: Account,
    pub amount: Nat,
}

/// Tokens moved from one account to another.
pub struct Transfer {
    pub to: Account,
    pub from: Account,
    pub fee: Option<Nat>,
    pub amount: Nat,
}

/// A ledger transaction. Usually one of the three operations is present.
pub struct Transaction {
    pub mint: Option<Mint>,
    pub burn: Option<Burn>,
    pub transfer: Option<Transfer>,
    pub timestamp: u64,
}

/// The mathematical counterpart of [`Mint`].
pub struct MintView {
    pub to: AccountView,
    pub amount: nat,
}

/// The mathematical counterpart of [`Burn`].
pub struct BurnView {
    pub from: AccountView,
    pub amount: nat,
}

/// The mathematical counterpart of [`Transfer`].
pub struct TransferView {
    pub to: AccountView,
    pub from: AccountView,
    pub fee: Option<nat>,
    pub amount: nat,
}

/// The mathematical counterpart of [`Transaction`].
pub struct TransactionView {
    pub mint: Option<MintView>,
    pub burn: Option<BurnView>,
    pub transfer: Option<TransferView>,
    pub timestamp: u64,
}

impl View for Mint {
    type V = MintView;

    open spec fn view(&self) -> MintView {
        MintView { to: self.to@, amount: self.amount@ }
    }
}

impl View for Burn {
    type V = BurnView;

    open spec fn view(&self) -> BurnView {
        BurnView { from: self.from@, amount: self.amount@ }
    }
}

impl View for Transfer {
    type V = TransferView;

    open spec fn view(&self) -> TransferView {
        TransferView {
            to: self.to@,
            from: self.from@,
            fee: option_view(self.fee),
            amount: self.amount@,
        }
    }
}

impl View for Transaction {
    type V = TransactionView;

    open spec fn view(&self) -> TransactionView {
        TransactionView {
            mint: option_view(self.mint),
            burn: option_view(self.burn),
            transfer: option_view(self.transfer),
            timestamp: self.timestamp,
        }
    }
}

/// A function of another canister.
pub struct Func {
    pub principal: Principal,
    pub method: String,
}

/// A range of blocks that the ledger has moved to an archive, and how to get them from there.
pub struct ArchivedRange1 {
    pub start: Nat,
    pub length: Nat,
    pub callback: Func,
}

/// The mathematical counterpart of [`ArchivedRange1`].
pub struct ArchivedRangeView {
    pub start: nat,
    pub length: nat,
    pub principal: Seq<u8>,
    pub method: Seq<char>,
}

impl View for ArchivedRange1 {
    type V = ArchivedRangeView;

    open spec fn view(&self) -> ArchivedRangeView {
        ArchivedRangeView {
            start: self.start@,
            length: self.length@,
            principal: self.callback.principal@,
            method: self.callback.method@,
        }
    }
}

/// A ledger's answer to a request for transactions.
pub struct GetTransactionsResponse {
    pub transactions: Vec<Transaction>,
    pub archived_transactions: Vec<ArchivedRange1>,
}

/// The mathematical counterpart of [`GetTransactionsResponse`].
pub struct ResponseView {
    pub transactions: Seq<TransactionView>,
    pub archived_transactions: Seq<ArchivedRangeView>,
}

impl View for GetTransactionsResponse {
    type V = ResponseView;

    open spec fn view(&self) -> ResponseView {
        ResponseView {
            transactions: views(self.transactions@),
            archived_transactions: views(self.archived_transactions@),
        }
    }
}

/// An archive's answer to a request for transactions.
pub struct TransactionRange {
    pub transactions: Vec<Transaction>,
}

impl View for TransactionRange {
    type V = Seq<TransactionView>;

    open spec fn view(&self) -> Seq<TransactionView> {
        views(self.transactions@)
    }
}

/// What a stored transaction did.
pub enum TransactionType {
    Mint,
    Burn,
    Transfer,
}

impl TransactionType {
    /// The stored name of the type.
    pub open spec fn name(self) -> Seq<char> {
        match self {
            TransactionType::Mint => "Mint"@,
            TransactionType::Burn => "Burn"@,
            TransactionType::Transfer => "Transfer"@,
        }
    }

    /// The stored name of the type.
    pub fn to_string(&self) -> (text: String)
        ensures
            text@ == self.name(),
    {
        match self {
            TransactionType::Mint => "Mint".to_owned(),
            TransactionType::Burn => "Burn".to_owned(),
            TransactionType::Transfer => "Transfer".to_owned(),
        }
    }
}

/// A transaction in the form in which it is stored.
#[derive(Clone, Debug, PartialEq, Eq)]
pub struct ProcessedTX {
    pub block: u64,
    pub hash: String,
    pub tx_type: String,
    pub from_account: String,
    pub to_account: String,
    pub tx_value: u128,
    pub tx_fee: Option<u128>,
    pub tx_time: u64,
    pub spender: Option<String>,
}

/// The mathematical counterpart of [`ProcessedTX`].
pub struct ProcessedView {
    pub block: u64,
    pub hash: Seq<char>,
    pub tx_type: Seq<char>,
    pub from_account: Seq<char>,
    pub to_account: Seq<char>,
    pub tx_value: u128,
    pub tx_fee: Option<u128>,
    pub tx_time: u64,
    pub spender: Option<Seq<char>>,
}

impl View for ProcessedTX {
    type V = ProcessedView;

    open spec fn view(&self) -> ProcessedView {
        ProcessedView {
            block: self.block,
            hash: self.hash@,
            tx_type: self.tx_type@,
            from_account: self.from_account@,
            to_account: self.to_account@,
            tx_value: self.tx_value,
            tx_fee: self.tx_fee,
            tx_time: self.tx_time,
            spender: option_view(self.spender),
        }
    }
}

/// The outcome of a step that yields processed transactions or an error text.
pub type Outcome = Result<Seq<ProcessedView>, Seq<char>>;

/// The view of such an outcome.
pub open spec fn outcome_view(result: Result<Vec<ProcessedTX>, String>) -> Outcome {
    match result {
        Ok(transactions) => Ok(views(transactions@)),
        Err(error) => Err(error@),
    }
}

/// The stored names tell the three types apart.
pub proof fn law_type_names()
    ensures
        TransactionType::Mint.name() == "Mint"@,
        TransactionType::Burn.name() == "Burn"@,
        TransactionType::Transfer.name() == "Transfer"@,
        "Mint"@ != "Burn"@,
        "Burn"@ != "Transfer"@,
        "Transfer"@ != "Mint"@,
{
    reveal_strlit("Mint");
    reveal_strlit("Burn");
    reveal_strlit("Transfer");
    assert("Mint"@[0] != "Burn"@[0]);
    assert("Burn"@[0] != "Transfer"@[0]);
    assert("Transfer"@[0] != "Mint"@[0]);
}

/// A transaction's counterpart holds the same operations, with the same accounts, amounts and
/// fee, at the same time.
pub proof fn law_transaction_view(tx: Transaction)
    ensures
        tx@.timestamp == tx.timestamp,
        tx@.mint is Some <==> tx.mint is Some,
        tx.mint is Some ==> tx@.mint->0.to == tx.mint->0.to@ && tx@.mint->0.amount
            == tx.mint->0.amount@,
        tx@.burn is Some <==> tx.burn is Some,
        tx.burn is Some ==> tx@.burn->0.from == tx.burn->0.from@ && tx@.burn->0.amount
            == tx.burn->0.amount@,
        tx@.transfer is Some <==> tx.transfer is Some,
        tx.transfer is Some ==> {
            let (seen, given) = (tx@.transfer->0, tx.transfer->0);
            &&& seen.to == given.to@
            &&& seen.from == given.from@
            &&& seen.amount == given.amount@
            &&& seen.fee is Some <==> given.fee is Some
            &&& given.fee is Some ==> seen.fee->0 == given.fee->0@
        },
{
}

/// A response's counterpart holds the same transactions and archived ranges in the same order.
pub proof fn law_response_view(response: GetTransactionsResponse)
    ensures
        response@.transactions.len() == response.transactions@.len(),
        forall|i: int|
            0 <= i < response.transactions@.len() ==> #[trigger] response@.transactions[i]
                == response.transactions@[i]@,
        response@.archived_transactions.len() == response.archived_transactions@.len(),
        forall|i: int|
            0 <= i < response.archived_transactions@.len()
                ==> #[trigger] response@.archived_transactions[i]
                == response.archived_transactions@[i]@,
{
}

/// The counterpart of an archived range has the same bounds and the same way to get it.
pub proof fn law_archived_range_view(archived: ArchivedRange1)
    ensures
        archived@.start == archived.start@,
        archived@.length == archived.length@,
        archived@.principal == archived.callback.principal@,
        archived@.method == archived.callback.method@,
{
}

/// The counterpart of an archive's answer holds its transactions in the same order.
pub proof fn law_transaction_range_view(range: TransactionRange)
    ensures
        range@.len() == range.transactions@.len(),
        forall|i: int|
            0 <= i < range.transactions@.len() ==> #[trigger] range@[i] == range.transactions@[i]@,
{
}

/// A stored transaction's counterpart has the same fields.
pub proof fn law_processed_view(entry: ProcessedTX)
    ensures
        entry@.block == entry.block,
        entry@.hash == entry.hash@,
        entry@.tx_type == entry.tx_type@,
        entry@.from_account == entry.from_account@,
        entry@.to_account == entry.to_account@,
        entry@.tx_value == entry.tx_value,
        entry@.tx_fee == entry.tx_fee,
        entry@.tx_time == entry.tx_time,
        entry@.spender is Some <==> entry.spender is Some,
        entry.spender is Some ==> entry@.spender->0 == entry.spender->0@,
{
}

/// The counterpart of an outcome holds the same entries in the same order, or the same error.
pub proof fn law_outcome_view(result: Result<Vec<ProcessedTX>, String>)
    ensures
        match result {
            Ok(entries) => {
                &&& outcome_view(result) is Ok
                &&& outcome_view(result)->Ok_0.len() == entries@.len()
                &&& forall|i: int|
                    0 <= i < entries@.len() ==> #[trigger] outcome_view(result)->Ok_0[i]
                        == entries@[i]@
            },
            Err(error) => outcome_view(result) == Outcome::Err(error@),
        },
{
}

} // verus!
