use meme_icrc::accounts::{Account, Principal};
use meme_icrc::numbers::Nat;
use meme_icrc::process::{burn_record, mint_record, process_ledger_block_t3, transfer_record};
use meme_icrc::types::{Burn, Mint, ProcessedTX, Transaction, Transfer, TransactionType};

fn account(subaccount: u8) -> Account {
    match Principal::try_from_bytes(vec![]) {
        Some(owner) => Account { owner, subaccount: Some(vec![subaccount]) },
        None => unreachable!(),
    }
}

fn too_large() -> Nat {
    Nat { digits: vec![0, 0, 0, 0, 1] }
}

fn empty(timestamp: u64) -> Transaction {
    Transaction { mint: None, burn: None, transfer: None, timestamp }
}

fn mint(amount: u64, timestamp: u64) -> Transaction {
    Transaction {
        mint: Some(Mint { to: account(1), amount: Nat::from_u64(amount) }),
        ..empty(timestamp)
    }
}

fn entry(block: u64, tx_type: &str, from: &str, to: &str, value: u128, fee: Option<u128>, time: u64) -> ProcessedTX {
    ProcessedTX {
        block,
        hash: "no-hash".to_string(),
        tx_type: tx_type.to_string(),
        from_account: from.to_string(),
        to_account: to.to_string(),
        tx_value: value,
        tx_fee: fee,
        tx_time: time,
        spender: None,
    }
}

fn all_three() -> Transaction {
    Transaction {
        mint: Some(Mint { to: account(1), amount: Nat::from_u64(10) }),
        burn: Some(Burn { from: account(2), amount: Nat::from_u64(20) }),
        transfer: Some(Transfer {
            to: account(3),
            from: account(4),
            fee: Some(Nat::from_u64(5)),
            amount: Nat::from_u64(30),
        }),
        timestamp: 99,
    }
}

#[test]
fn type_names() {
    assert_eq!(TransactionType::Mint.to_string(), "Mint");
    assert_eq!(TransactionType::Burn.to_string(), "Burn");
    assert_eq!(TransactionType::Transfer.to_string(), "Transfer");
}

#[test]
fn all_operations_of_a_transaction() {
    let entries = process_ledger_block_t3(vec![all_three()], 7);
    assert_eq!(
        entries,
        Ok(vec![
            entry(7, "Mint", "Token Ledger", "aaaaa-aa.01", 10, None, 99),
            entry(8, "Burn", "aaaaa-aa.02", "Token Ledger", 20, None, 99),
            entry(9, "Transfer", "aaaaa-aa.04", "aaaaa-aa.03", 30, Some(5), 99),
        ])
    );
}

#[test]
fn transactions_without_operations_take_no_block() {
    let entries = process_ledger_block_t3(vec![empty(1), mint(2, 3), empty(4), mint(5, 6)], 100);
    assert_eq!(
        entries,
        Ok(vec![
            entry(100, "Mint", "Token Ledger", "aaaaa-aa.01", 2, None, 3),
            entry(101, "Mint", "Token Ledger", "aaaaa-aa.01", 5, None, 6),
        ])
    );
    assert_eq!(process_ledger_block_t3(vec![], 5), Ok(vec![]));
}

#[test]
fn block_numbers_saturate() {
    match process_ledger_block_t3(vec![mint(1, 1), mint(1, 1), mint(1, 1)], u64::MAX - 1) {
        Ok(entries) => {
            let blocks: Vec<u64> = entries.iter().map(|e| e.block).collect();
            assert_eq!(blocks, vec![u64::MAX - 1, u64::MAX, u64::MAX]);
        }
        Err(error) => panic!("{}", error),
    }
}

#[test]
fn processing_in_parts() {
    let whole = process_ledger_block_t3(vec![all_three(), mint(8, 9)], 40);
    let front = process_ledger_block_t3(vec![all_three()], 40);
    let back = process_ledger_block_t3(vec![mint(8, 9)], 43);
    match (whole, front, back) {
        (Ok(whole), Ok(front), Ok(back)) => assert_eq!(whole, [front, back].concat()),
        _ => panic!("unexpected failure"),
    }
}

#[test]
fn mint_amount_too_large() {
    let mut tx = mint(1, 1);
    tx.mint = Some(Mint { to: account(1), amount: too_large() });
    assert_eq!(
        process_ledger_block_t3(vec![mint(1, 1), tx], 0),
        Err("Can't process archive tx value to u128 (1) : Nat does not fit in u128".to_string())
    );
}

#[test]
fn burn_amount_too_large() {
    let tx = Transaction { burn: Some(Burn { from: account(1), amount: too_large() }), ..empty(1) };
    assert_eq!(
        process_ledger_block_t3(vec![tx], 0),
        Err("Can't process archive tx value to u128 (2) : Nat does not fit in u128".to_string())
    );
}

#[test]
fn transfer_amount_too_large() {
    let transfer =
        Transfer { to: account(1), from: account(2), fee: None, amount: too_large() };
    let tx = Transaction { transfer: Some(transfer), ..empty(1) };
    assert_eq!(
        process_ledger_block_t3(vec![tx], 0),
        Err("Can't process archive tx value to u128 (3) : Nat does not fit in u128".to_string())
    );
}

#[test]
fn transfer_fee_is_looked_at_first() {
    let transfer = Transfer {
        to: account(1),
        from: account(2),
        fee: Some(too_large()),
        amount: too_large(),
    };
    let tx = Transaction { transfer: Some(transfer), ..empty(1) };
    assert_eq!(
        process_ledger_block_t3(vec![tx], 0),
        Err("Can't process transaction fee to u128 : Nat does not fit in u128".to_string())
    );
}

#[test]
fn one_operation_that_cannot_be_stored_fails_all() {
    let bad = || Transaction { burn: Some(Burn { from: account(1), amount: too_large() }), ..empty(1) };
    assert!(process_ledger_block_t3(vec![mint(1, 1), mint(2, 2)], 0).is_ok());
    assert!(process_ledger_block_t3(vec![bad(), mint(1, 1), mint(2, 2)], 0).is_err());
    assert!(process_ledger_block_t3(vec![mint(1, 1), mint(2, 2), bad()], 0).is_err());
}

#[test]
fn first_failure_is_reported() {
    let burn = Transaction { burn: Some(Burn { from: account(1), amount: too_large() }), ..empty(1) };
    let bad_mint = Transaction { mint: Some(Mint { to: account(1), amount: too_large() }), ..empty(1) };
    assert_eq!(
        process_ledger_block_t3(vec![burn, bad_mint], 0),
        Err("Can't process archive tx value to u128 (2) : Nat does not fit in u128".to_string())
    );
}

#[test]
fn records_from_account_texts() {
    assert_eq!(
        mint_record("a".to_string(), Nat::from_u64(1), 2, 3),
        Ok(entry(2, "Mint", "Token Ledger", "a", 1, None, 3))
    );
    assert_eq!(
        burn_record("a".to_string(), Nat::from_u64(1), 2, 3),
        Ok(entry(2, "Burn", "a", "Token Ledger", 1, None, 3))
    );
    assert_eq!(
        transfer_record("a".to_string(), "b".to_string(), None, Nat::from_u64(1), 2, 3),
        Ok(entry(2, "Transfer", "b", "a", 1, None, 3))
    );
}
