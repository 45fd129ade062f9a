//! Adding a mint by hand, for tokens that were minted before the ledger kept transactions.

use crate::accounts::account_text;
use crate::process::{
    first_failure, minted, operations, operations_of, processed, record, records, Operation,
    TimedOperation,
};
use crate::types::{MintView, Outcome, ProcessedTX, ProcessedView, TransactionType, TransactionView};
use crate::views::views;
use vstd::prelude::*;

verus! {

/// A mint that is to be indexed, by account and by principal, before it is stored.
pub struct PreMint {
    pub transactions: Vec<ProcessedTX>,
}

/// Something to do after indexing.
pub enum PreMintAction {
    /// Count an error and report it as critical.
    ReportError(String),
    /// Store the transactions among the latest blocks.
    StoreBlocks(Vec<ProcessedTX>),
    /// Forget the transactions kept for indexing.
    ClearTemporary,
}

/// The mathematical counterpart of [`PreMintAction`].
pub enum PreMintActionView {
    ReportError(Seq<char>),
    StoreBlocks(Seq<ProcessedView>),
    ClearTemporary,
}

impl View for PreMintAction {
    type V = PreMintActionView;

    open spec fn view(&self) -> PreMintActionView {
        match *self {
            PreMintAction::ReportError(error) => PreMintActionView::ReportError(error@),
            PreMintAction::StoreBlocks(transactions) => PreMintActionView::StoreBlocks(
                views(transactions@),
            ),
            PreMintAction::ClearTemporary => PreMintActionView::ClearTemporary,
        }
    }
}

/// What to do after indexing, in order, and the answer to give in the end.
pub struct PreMintPlan {
    pub actions: Vec<PreMintAction>,
    pub answer: String,
}

/// The mathematical counterpart of [`PreMintPlan`].
pub struct PreMintPlanView {
    pub actions: Seq<PreMintActionView>,
    pub answer: Seq<char>,
}

impl View for PreMintPlan {
    type V = PreMintPlanView;

    open spec fn view(&self) -> PreMintPlanView {
        PreMintPlanView { actions: views(self.actions@), answer: self.answer@ }
    }
}

/// How a failure to index by principal is reported; nothing otherwise.
pub open spec fn principal_report(principal: Result<(), Seq<char>>) -> Seq<PreMintActionView> {
    match principal {
        Ok(_) => Seq::empty(),
        Err(error) => seq![
            PreMintActionView::ReportError(
                "Error processing stx to index (Principal): "@ + error,
            ),
        ],
    }
}

/// What follows indexing: a failure by principal is only reported, and the transactions are
/// stored exactly when indexing by account succeeded.
pub open spec fn pre_mint_plan(
    transactions: Seq<ProcessedView>,
    account: Result<(), Seq<char>>,
    principal: Result<(), Seq<char>>,
) -> PreMintPlanView {
    match account {
        Ok(_) => PreMintPlanView {
            actions: principal_report(principal) + seq![
                PreMintActionView::StoreBlocks(transactions),
                PreMintActionView::ClearTemporary,
            ],
            answer: "Pre-mint transaction added"@,
        },
        Err(error) => {
            let report = "Error processing stx to index: "@ + error;
            PreMintPlanView {
                actions: principal_report(principal) + seq![
                    PreMintActionView::ReportError(report),
                ],
                answer: report,
            }
        },
    }
}

/// The view of the result of indexing.
pub open spec fn index_view(result: Result<(), String>) -> Result<(), Seq<char>> {
    match result {
        Ok(_) => Ok(()),
        Err(error) => Err(error@),
    }
}

/// Makes the mint of `tx_value` to the account with text `to_account`, as block 0 at time 0.
pub fn add_pre_mint_to_ledger(to_account: String, tx_value: u128) -> (result: PreMint)
    ensures
        views(result.transactions@) == seq![minted(to_account@, tx_value as nat, 0, 0)],
        result.transactions@.len() == 1,
        ({
            let entry = result.transactions@[0];
            &&& entry.block == 0
            &&& entry.tx_type@ == "Mint"@
            &&& entry.from_account@ == "Token Ledger"@
            &&& entry.to_account@ == to_account@
            &&& entry.tx_value == tx_value
            &&& entry.tx_fee is None
            &&& entry.tx_time == 0
            &&& entry.hash@ == "no-hash"@
            &&& entry.spender is None
        }),
{
    let mut transactions: Vec<ProcessedTX> = Vec::new();
    transactions.push(
        ProcessedTX {
            block: 0,
            hash: "no-hash".to_owned(),
            tx_type: TransactionType::Mint.to_string(),
            from_account: "Token Ledger".to_owned(),
            to_account,
            tx_value,
            tx_fee: None,
            tx_time: 0,
            spender: None,
        },
    );
    assert(views(transactions@) =~= seq![minted(to_account@, tx_value as nat, 0, 0)]);
    PreMint { transactions }
}

impl PreMint {
    /// Takes the results of indexing the mint by account and by principal.
    pub fn indexed(self, account: Result<(), String>, principal: Result<(), String>) -> (plan:
        PreMintPlan)
        ensures
            plan@ == pre_mint_plan(
                views(self.transactions@),
                index_view(account),
                index_view(principal),
            ),
    {
        let mut actions: Vec<PreMintAction> = Vec::new();
        if let Err(error) = principal {
            let report: String = "Error processing stx to index (Principal): ".to_owned().concat(
                error.as_str(),
            );
            actions.push(PreMintAction::ReportError(report));
        }
        assert(views(actions@) =~= principal_report(index_view(principal)));
        let ghost reported = views(actions@);
        match account {
            Ok(_) => {
                let ghost stored = views(self.transactions@);
                actions.push(PreMintAction::StoreBlocks(self.transactions));
                actions.push(PreMintAction::ClearTemporary);
                assert(views(actions@) =~= reported + seq![
                    PreMintActionView::StoreBlocks(stored),
                    PreMintActionView::ClearTemporary,
                ]);
                PreMintPlan { actions, answer: "Pre-mint transaction added".to_owned() }
            },
            Err(error) => {
                let report: String = "Error processing stx to index: ".to_owned().concat(
                    error.as_str(),
                );
                actions.push(PreMintAction::ReportError(report.clone()));
                assert(views(actions@) =~= reported + seq![
                    PreMintActionView::ReportError(report@),
                ]);
                PreMintPlan { actions, answer: report }
            },
        }
    }
}

/// A mint added by hand is stored as the ledger's own first mint at time 0 would be.
pub proof fn law_pre_mint_like_ledger_mint(mint: MintView)
    requires
        mint.amount <= u128::MAX,
    ensures
        processed(
            seq![TransactionView { mint: Some(mint), burn: None, transfer: None, timestamp: 0 }],
            0,
        ) == Outcome::Ok(seq![minted(account_text(mint.to), mint.amount, 0, 0)]),
{
    reveal_with_fuel(operations, 2);
    reveal_with_fuel(first_failure, 2);
    let tx = TransactionView { mint: Some(mint), burn: None, transfer: None, timestamp: 0 };
    let item = TimedOperation { operation: Operation::Mint(mint), time: 0 };
    assert(seq![tx].drop_last() =~= Seq::empty());
    assert(operations_of(tx) =~= seq![item]);
    assert(operations(seq![tx]) =~= seq![item]);
    assert(seq![item].drop_last() =~= Seq::empty());
    assert(records(seq![item], 0) =~= seq![record(item, 0)]);
}

/// The mint is stored exactly when indexing by account succeeded, whatever indexing by principal
/// gave; otherwise the last report is the answer.
pub proof fn law_pre_mint_stored_if_indexed(
    transactions: Seq<ProcessedView>,
    account: Result<(), Seq<char>>,
    principal: Result<(), Seq<char>>,
)
    ensures
        ({
            let plan = pre_mint_plan(transactions, account, principal);
            &&& plan.actions.contains(PreMintActionView::StoreBlocks(transactions))
                <==> account is Ok
            &&& plan.actions.contains(PreMintActionView::ClearTemporary) <==> account is Ok
            &&& account is Err ==> plan.actions.last() == PreMintActionView::ReportError(
                plan.answer,
            )
        }),
{
    let plan = pre_mint_plan(transactions, account, principal);
    let before = principal_report(principal);
    if account is Ok {
        let first = before.len() as int;
        assert(plan.actions[first] == PreMintActionView::StoreBlocks(transactions));
        assert(plan.actions[first + 1] == PreMintActionView::ClearTemporary);
    }
}

/// A mint added by hand is one entry: the whole value, minted by the ledger to that account, as
/// block 0 at time 0.
pub proof fn law_pre_mint_entry(to_account: Seq<char>, tx_value: u128)
    ensures
        ({
            let entry = minted(to_account, tx_value as nat, 0, 0);
            &&& entry.block == 0
            &&& entry.tx_type == "Mint"@
            &&& entry.from_account == "Token Ledger"@
            &&& entry.to_account == to_account
            &&& entry.tx_value == tx_value
            &&& entry.tx_fee is None
            &&& entry.tx_time == 0
            &&& entry.hash == "no-hash"@
            &&& entry.spender is None
        }),
{
}

/// What follows indexing, in full: a failure by principal is reported first, and does not stop
/// anything. Where indexing by account succeeded, the transactions are stored as they are and the
/// temporary ones forgotten; where it failed, that is reported and is the answer.
pub proof fn law_pre_mint_plan_in_full(
    transactions: Seq<ProcessedView>,
    account: Result<(), Seq<char>>,
    principal: Result<(), Seq<char>>,
)
    ensures
        ({
            let plan = pre_mint_plan(transactions, account, principal);
            let before = if principal is Err { 1int } else { 0int };
            &&& principal is Err ==> plan.actions[0] == PreMintActionView::ReportError(
                "Error processing stx to index (Principal): "@ + principal->Err_0,
            )
            &&& match account {
                Ok(_) => {
                    &&& plan.actions.len() == before + 2
                    &&& plan.actions[before] == PreMintActionView::StoreBlocks(transactions)
                    &&& plan.actions[before + 1] == PreMintActionView::ClearTemporary
                    &&& plan.answer == "Pre-mint transaction added"@
                },
                Err(error) => {
                    &&& plan.actions.len() == before + 1
                    &&& plan.answer == "Error processing stx to index: "@ + error
                    &&& plan.actions[before] == PreMintActionView::ReportError(plan.answer)
                },
            }
        }),
{
}

/// The counterpart of a result of indexing says the same.
pub proof fn law_index_view(result: Result<(), String>)
    ensures
        result is Ok <==> index_view(result) is Ok,
        result is Err ==> index_view(result)->Err_0 == result->Err_0@,
{
}

/// The counterpart of an action says the same.
pub proof fn law_action_view(action: PreMintAction)
    ensures
        match action {
            PreMintAction::ReportError(error) => action@ == PreMintActionView::ReportError(error@),
            PreMintAction::StoreBlocks(transactions) => {
                &&& action@ is StoreBlocks
                &&& action@->StoreBlocks_0.len() == transactions@.len()
                &&& forall|i: int|
                    0 <= i < transactions@.len() ==> #[trigger] action@->StoreBlocks_0[i]
                        == transactions@[i]@
            },
            PreMintAction::ClearTemporary => action@ == PreMintActionView::ClearTemporary,
        },
{
}

} // verus!
