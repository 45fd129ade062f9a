use meme_icrc::accounts::{Account, Principal};
use meme_icrc::numbers::Nat;
use meme_icrc::premint::{add_pre_mint_to_ledger, PreMintAction};
use meme_icrc::process::process_ledger_block_t3;
use meme_icrc::types::{Mint, ProcessedTX, Transaction};

fn expected() -> ProcessedTX {
    ProcessedTX {
        block: 0,
        hash: "no-hash".to_string(),
        tx_type: "Mint".to_string(),
        from_account: "Token Ledger".to_string(),
        to_account: "aaaaa-aa.01".to_string(),
        tx_value: 500,
        tx_fee: None,
        tx_time: 0,
        spender: None,
    }
}

fn describe(actions: Vec<PreMintAction>) -> Vec<String> {
    actions
        .into_iter()
        .map(|action| match action {
            PreMintAction::ReportError(error) => error,
            PreMintAction::StoreBlocks(transactions) => {
                assert_eq!(transactions, vec![expected()]);
                "store".to_string()
            }
            PreMintAction::ClearTemporary => "clear".to_string(),
        })
        .collect()
}

#[test]
fn pre_mint_is_a_mint_in_block_zero() {
    let mint = add_pre_mint_to_ledger("aaaaa-aa.01".to_string(), 500);
    assert_eq!(mint.transactions, vec![expected()]);
}

#[test]
fn indexed_pre_mint_is_stored() {
    let mint = add_pre_mint_to_ledger("aaaaa-aa.01".to_string(), 500);
    let plan = mint.indexed(Ok(()), Ok(()));
    assert_eq!(plan.answer, "Pre-mint transaction added");
    assert_eq!(describe(plan.actions), vec!["store", "clear"]);
}

#[test]
fn failed_principal_index_is_only_reported() {
    let mint = add_pre_mint_to_ledger("aaaaa-aa.01".to_string(), 500);
    let plan = mint.indexed(Ok(()), Err("p".to_string()));
    assert_eq!(plan.answer, "Pre-mint transaction added");
    assert_eq!(
        describe(plan.actions),
        vec!["Error processing stx to index (Principal): p", "store", "clear"]
    );
}

#[test]
fn failed_account_index_stores_nothing() {
    let mint = add_pre_mint_to_ledger("aaaaa-aa.01".to_string(), 500);
    let plan = mint.indexed(Err("a".to_string()), Err("p".to_string()));
    assert_eq!(plan.answer, "Error processing stx to index: a");
    assert_eq!(
        describe(plan.actions),
        vec!["Error processing stx to index (Principal): p", "Error processing stx to index: a"]
    );
}

#[test]
fn pre_mint_is_stored_like_a_mint_of_the_ledger() {
    let owner = match Principal::try_from_bytes(vec![]) {
        Some(owner) => owner,
        None => unreachable!(),
    };
    let tx = Transaction {
        mint: Some(Mint {
            to: Account { owner, subaccount: Some(vec![1]) },
            amount: Nat::from_u64(500),
        }),
        burn: None,
        transfer: None,
        timestamp: 0,
    };
    let mint = add_pre_mint_to_ledger("aaaaa-aa.01".to_string(), 500);
    assert_eq!(process_ledger_block_t3(vec![tx], 0), Ok(mint.transactions));
}
