use meme_icrc::accounts::{icrc_account_to_string, join_account, Account, Principal, DEFAULT_SUBACCOUNT};

fn principal(bytes: &[u8]) -> Principal {
    match Principal::try_from_bytes(bytes.to_vec()) {
        Some(principal) => principal,
        None => panic!("too many bytes"),
    }
}

#[test]
fn principal_texts() {
    assert_eq!(principal(&[]).to_text(), "aaaaa-aa");
    assert_eq!(principal(&[4]).to_text(), "2vxsx-fae");
    assert_eq!(
        principal(&[0xef, 0xcd, 0xab, 0, 0, 0, 0, 0, 1]).to_text(),
        "2chl6-4hpzw-vqaaa-aaaaa-c"
    );
}

#[test]
fn principal_length_is_limited() {
    assert!(Principal::try_from_bytes(vec![7; 29]).is_some());
    assert!(Principal::try_from_bytes(vec![7; 30]).is_none());
    assert_eq!(principal(&[7; 29]).to_text().len(), 63);
}

#[test]
fn account_with_subaccount() {
    let account = Account { owner: principal(&[4]), subaccount: Some(vec![0, 1, 0x9a, 0xff]) };
    assert_eq!(icrc_account_to_string(account), "2vxsx-fae.00019aff");
}

#[test]
fn account_without_subaccount_is_the_zero_subaccount() {
    let none = icrc_account_to_string(Account { owner: principal(&[]), subaccount: None });
    let zero = icrc_account_to_string(Account { owner: principal(&[]), subaccount: Some(vec![0; 32]) });
    assert_eq!(none, format!("aaaaa-aa.{}", "0".repeat(64)));
    assert_eq!(none, zero);
    assert_eq!(DEFAULT_SUBACCOUNT.len(), 64);
}

#[test]
fn different_accounts_have_different_texts() {
    let a = icrc_account_to_string(Account { owner: principal(&[]), subaccount: Some(vec![1]) });
    let b = icrc_account_to_string(Account { owner: principal(&[]), subaccount: Some(vec![0, 1]) });
    let c = icrc_account_to_string(Account { owner: principal(&[4]), subaccount: Some(vec![1]) });
    assert_ne!(a, b);
    assert_ne!(a, c);
}

#[test]
fn different_principals_have_different_texts() {
    let all = [vec![], vec![0], vec![0, 0], vec![0, 1], vec![1], vec![0; 28], vec![0; 29]];
    for (i, a) in all.iter().enumerate() {
        for (j, b) in all.iter().enumerate() {
            assert_eq!(principal(a).to_text() == principal(b).to_text(), i == j);
        }
    }
}

#[test]
fn joined_account_text() {
    assert_eq!(join_account("owner".to_string(), Some(vec![0x48, 0x69])), "owner.4869");
    assert_eq!(join_account("o".to_string(), Some(vec![])), "o.");
}
