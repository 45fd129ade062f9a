use meme_icrc::calls::{CallRejection, CanisterCall, RejectionCode};
use meme_icrc::download::{t3_download_transactions, DownloadStep};
use meme_icrc::numbers::Nat;
use meme_icrc::runtime::RuntimeState;
use meme_icrc::setup::{
    finish_setup, t3_impl_set_target_canister, DecimalsPending, FeePending, SetTargetArgs,
    SetTargetStep,
};

fn fresh() -> RuntimeState {
    RuntimeState {
        target_ledger: "none".to_string(),
        target_ledger_locked: false,
        ledger_fee: 1,
        ledger_decimals: 2,
        hours_nano: 3,
        days_nano: 4,
        ledger_tip_of_chain: 5,
        next_block: 6,
        is_upto_date: true,
    }
}

fn args() -> SetTargetArgs {
    SetTargetArgs { target_ledger: "aaaaa-aa".to_string(), hourly_size: 24, daily_size: 30 }
}

fn rejected<T>(message: &str) -> Result<T, CallRejection> {
    Err(CallRejection { code: RejectionCode::SysTransient, message: message.to_string() })
}

fn check_plain(call: CanisterCall, method: &str) {
    assert_eq!(call.canister, "aaaaa-aa");
    assert_eq!(call.method, method);
    assert!(call.blocks.is_none());
}

fn begin(runtime: &RuntimeState) -> FeePending {
    match t3_impl_set_target_canister(runtime, args()) {
        SetTargetStep::CallFee { call, pending } => {
            check_plain(call, "icrc1_fee");
            pending
        }
        _ => panic!("expected the call for the fee"),
    }
}

fn fee(pending: FeePending, runtime: &mut RuntimeState, reply: Result<Nat, CallRejection>) -> DecimalsPending {
    match pending.reply(runtime, reply) {
        SetTargetStep::CallDecimals { call, pending } => {
            check_plain(call, "icrc1_decimals");
            pending
        }
        _ => panic!("expected the call for the decimals"),
    }
}

fn answer(step: SetTargetStep) -> Result<String, String> {
    match step {
        SetTargetStep::Return(result) => result,
        _ => panic!("expected an answer"),
    }
}

#[test]
fn setup_succeeds_and_locks() {
    let mut runtime = fresh();
    let pending = begin(&runtime);
    let pending = fee(pending, &mut runtime, Ok(Nat::from_u64(10_000)));
    let step = pending.reply(&mut runtime, Ok(8));
    assert_eq!(answer(step), Ok("Target canister, fee and decimals set".to_string()));
    assert_eq!(runtime.target_ledger, "aaaaa-aa");
    assert!(runtime.target_ledger_locked);
    assert_eq!(runtime.ledger_fee, 10_000);
    assert_eq!(runtime.ledger_decimals, 8);
    assert_eq!(runtime.hours_nano, 86_400_000_000_000);
    assert_eq!(runtime.days_nano, 2_592_000_000_000_000);
    assert_eq!(runtime.ledger_tip_of_chain, 5);
    assert_eq!(runtime.next_block, 6);
    assert!(runtime.is_upto_date);

    match t3_impl_set_target_canister(&runtime, args()) {
        SetTargetStep::Trap(message) => assert_eq!(
            message,
            "Target canister can't be changed after being set. Re-install canister to change."
        ),
        _ => panic!("expected a refusal"),
    }
    match t3_download_transactions(&runtime) {
        DownloadStep::CallTip { call, .. } => check_plain(call, "get_total_tx"),
        _ => panic!("expected the call for the tip"),
    }
}

#[test]
fn fee_too_large_ends_setup() {
    let mut runtime = fresh();
    let pending = begin(&runtime);
    let step = pending.reply(&mut runtime, Ok(Nat { digits: vec![0, 0, 0, 0, 1] }));
    assert_eq!(answer(step), Err("Nat does not fit in u128".to_string()));
    assert!(!runtime.target_ledger_locked);
    assert_eq!(runtime.ledger_fee, 1);
}

#[test]
fn refused_fee_is_reported_after_decimals() {
    let mut runtime = fresh();
    let pending = begin(&runtime);
    let pending = fee(pending, &mut runtime, rejected("busy"));
    let step = pending.reply(&mut runtime, Ok(9));
    assert_eq!(answer(step), Err("[\"Call 1 - SysTransient. busy\"]".to_string()));
    assert_eq!(runtime.ledger_decimals, 9);
    assert_eq!(runtime.ledger_fee, 1);
    assert_eq!(runtime.target_ledger, "none");
    assert!(!runtime.target_ledger_locked);
}

#[test]
fn refused_decimals_are_reported() {
    let mut runtime = fresh();
    let pending = begin(&runtime);
    let pending = fee(pending, &mut runtime, Ok(Nat::from_u64(77)));
    let step = pending.reply(&mut runtime, rejected("no \"such\" method"));
    assert_eq!(
        answer(step),
        Err("[\"Call 2 - SysTransient. no \\\"such\\\" method\"]".to_string())
    );
    assert_eq!(runtime.ledger_fee, 77);
    assert_eq!(runtime.ledger_decimals, 2);
    assert!(!runtime.target_ledger_locked);
    assert_eq!(runtime.hours_nano, 3);
}

#[test]
fn both_refusals_are_reported_in_order() {
    let mut runtime = fresh();
    let pending = begin(&runtime);
    let pending = fee(pending, &mut runtime, rejected("a"));
    let step = pending.reply(&mut runtime, rejected("b"));
    assert_eq!(
        answer(step),
        Err("[\"Call 1 - SysTransient. a\", \"Call 2 - SysTransient. b\"]".to_string())
    );
}

#[test]
fn setup_ends_by_its_errors() {
    let mut runtime = fresh();
    let errors = vec!["x".to_string()];
    assert_eq!(finish_setup(&mut runtime, args(), &errors, "report".to_string()), Err("report".to_string()));
    assert!(!runtime.target_ledger_locked);
    let none: Vec<String> = vec![];
    assert!(finish_setup(&mut runtime, args(), &none, "report".to_string()).is_ok());
    assert!(runtime.target_ledger_locked);
}

#[test]
fn rejection_code_names() {
    let names: Vec<&str> = vec![
        RejectionCode::NoError.as_str(),
        RejectionCode::SysFatal.as_str(),
        RejectionCode::SysTransient.as_str(),
        RejectionCode::DestinationInvalid.as_str(),
        RejectionCode::CanisterReject.as_str(),
        RejectionCode::CanisterError.as_str(),
        RejectionCode::Unknown.as_str(),
    ];
    let codes = vec![
        ic_cdk::api::call::RejectionCode::NoError,
        ic_cdk::api::call::RejectionCode::SysFatal,
        ic_cdk::api::call::RejectionCode::SysTransient,
        ic_cdk::api::call::RejectionCode::DestinationInvalid,
        ic_cdk::api::call::RejectionCode::CanisterReject,
        ic_cdk::api::call::RejectionCode::CanisterError,
        ic_cdk::api::call::RejectionCode::Unknown,
    ];
    for (name, code) in names.iter().zip(codes) {
        assert_eq!(*name, format!("{:?}", code));
    }
}
