use meme_icrc::accounts::{Account, Principal};
use meme_icrc::archive::{archive_reply, archive_request, get_transactions_from_archive_t3};
use meme_icrc::calls::{CallRejection, CanisterCall, RejectionCode};
use meme_icrc::download::{
    get_tip_of_chain_t3, t3_download_transactions, ArchivePending, DownloadStep, LedgerPending,
    TipPending,
};
use meme_icrc::manager::{count_blocks, count_chunks, DownloadLimits};
use meme_icrc::numbers::{nat_to_u64, Nat};
use meme_icrc::runtime::RuntimeState;
use meme_icrc::types::{
    ArchivedRange1, Func, GetTransactionsResponse, Mint, ProcessedTX, Transaction, TransactionRange,
};

fn runtime(next_block: u64) -> RuntimeState {
    RuntimeState {
        target_ledger: "ledger".to_string(),
        target_ledger_locked: true,
        ledger_fee: 0,
        ledger_decimals: 0,
        hours_nano: 0,
        days_nano: 0,
        ledger_tip_of_chain: 0,
        next_block,
        is_upto_date: true,
    }
}

fn limits(total: u32, batch: u32) -> DownloadLimits {
    match DownloadLimits::new(total, batch) {
        Some(limits) => limits,
        None => panic!("empty batch"),
    }
}

fn principal(bytes: &[u8]) -> Principal {
    match Principal::try_from_bytes(bytes.to_vec()) {
        Some(principal) => principal,
        None => unreachable!(),
    }
}

fn mints(count: u64) -> Vec<Transaction> {
    (0..count)
        .map(|i| Transaction {
            mint: Some(Mint {
                to: Account { owner: principal(&[]), subaccount: None },
                amount: Nat::from_u64(i + 1),
            }),
            burn: None,
            transfer: None,
            timestamp: i,
        })
        .collect()
}

fn too_large_mint() -> Transaction {
    Transaction {
        mint: Some(Mint {
            to: Account { owner: principal(&[]), subaccount: None },
            amount: Nat { digits: vec![1, 1, 1, 1, 1] },
        }),
        burn: None,
        transfer: None,
        timestamp: 0,
    }
}

fn archive(start: Nat, length: u64) -> ArchivedRange1 {
    ArchivedRange1 {
        start,
        length: Nat::from_u64(length),
        callback: Func { principal: principal(&[4]), method: "get_archived".to_string() },
    }
}

fn ledger_sends(count: u64) -> Result<GetTransactionsResponse, CallRejection> {
    Ok(GetTransactionsResponse { transactions: mints(count), archived_transactions: vec![] })
}

fn rejected<T>(message: &str) -> Result<T, CallRejection> {
    Err(CallRejection { code: RejectionCode::CanisterError, message: message.to_string() })
}

fn range(call: CanisterCall) -> (u64, u64) {
    match call.blocks {
        Some(blocks) => match (nat_to_u64(blocks.start), nat_to_u64(blocks.length)) {
            (Ok(start), Ok(length)) => (start, length),
            _ => panic!("not a range of blocks"),
        },
        None => panic!("no range of blocks"),
    }
}

fn tip_pending(runtime: &RuntimeState) -> TipPending {
    match t3_download_transactions(runtime) {
        DownloadStep::CallTip { call, pending } => {
            assert_eq!(call.canister, "ledger");
            assert_eq!(call.method, "get_total_tx");
            assert!(call.blocks.is_none());
            pending
        }
        _ => panic!("expected the call for the tip"),
    }
}

fn begin(runtime: &mut RuntimeState, limits: &DownloadLimits, tip: u64) -> DownloadStep {
    tip_pending(runtime).reply(runtime, limits, Ok(Nat::from_u64(tip)))
}

fn expect_ledger(step: DownloadStep, start: u64, length: u64) -> LedgerPending {
    match step {
        DownloadStep::CallLedger { call, pending } => {
            assert_eq!(call.canister, "ledger");
            assert_eq!(call.method, "get_transactions");
            assert_eq!(range(call), (start, length));
            pending
        }
        _ => panic!("expected a request to the ledger"),
    }
}

fn expect_archive(step: DownloadStep, start: u64, length: u64) -> ArchivePending {
    match step {
        DownloadStep::CallArchive { call, pending } => {
            assert_eq!(call.canister, "2vxsx-fae");
            assert_eq!(call.method, "get_archived");
            assert_eq!(range(call), (start, length));
            pending
        }
        _ => panic!("expected a request to an archive"),
    }
}

fn returned(step: DownloadStep) -> Result<Vec<ProcessedTX>, String> {
    match step {
        DownloadStep::Return(result) => result,
        _ => panic!("expected an answer"),
    }
}

fn blocks(result: Result<Vec<ProcessedTX>, String>) -> Vec<u64> {
    match result {
        Ok(entries) => entries.iter().map(|entry| entry.block).collect(),
        Err(error) => panic!("{}", error),
    }
}

fn error(result: Result<Vec<ProcessedTX>, String>) -> String {
    match result {
        Ok(_) => panic!("expected a failure"),
        Err(error) => error,
    }
}

#[test]
fn download_needs_a_target() {
    let mut state = runtime(0);
    state.target_ledger_locked = false;
    match t3_download_transactions(&state) {
        DownloadStep::Trap(message) => assert_eq!(message, "Target Ledger is not yet set!"),
        _ => panic!("expected a refusal"),
    }
}

#[test]
fn limits_need_a_batch() {
    assert!(DownloadLimits::new(1, 0).is_none());
    assert!(DownloadLimits::new(0, 1).is_some());
}

#[test]
fn nothing_to_download() {
    let mut state = runtime(10);
    let step = begin(&mut state, &limits(100, 10), 10);
    assert_eq!(returned(step), Ok(vec![]));
    assert_eq!(state.ledger_tip_of_chain, 10);
    assert!(state.is_upto_date);
}

#[test]
fn refused_tip() {
    let mut state = runtime(0);
    let step = tip_pending(&state).reply(&mut state, &limits(100, 10), rejected("down"));
    assert_eq!(
        error(returned(step)),
        "Error fetching tip of ledger chain Tip of Chain Error - CanisterError. down"
    );
    assert_eq!(state.ledger_tip_of_chain, 0);
    match get_tip_of_chain_t3(Ok(Nat::from_u64(3))) {
        Ok(tip) => assert_eq!(nat_to_u64(tip), Ok(3)),
        Err(_) => panic!("expected the tip"),
    }
}

#[test]
fn tip_too_large() {
    let mut state = runtime(0);
    let huge = Nat { digits: vec![0, 0, 1] };
    let step = tip_pending(&state).reply(&mut state, &limits(100, 10), Ok(huge));
    assert_eq!(
        error(returned(step)),
        "Could not process tip of chain to u64: Nat does not fit in u64"
    );
}

#[test]
fn complete_download_in_chunks() {
    let mut state = runtime(5);
    let step = begin(&mut state, &limits(1000, 10), 30);
    assert_eq!(state.ledger_tip_of_chain, 30);
    assert!(!state.is_upto_date);
    let step = expect_ledger(step, 5, 10).reply(ledger_sends(10));
    let step = expect_ledger(step, 15, 10).reply(ledger_sends(10));
    let step = expect_ledger(step, 25, 5).reply(ledger_sends(5));
    assert_eq!(blocks(returned(step)), (5..30).collect::<Vec<u64>>());
}

#[test]
fn full_chunks_end_with_an_empty_request() {
    let mut state = runtime(0);
    let step = begin(&mut state, &limits(1000, 10), 20);
    let step = expect_ledger(step, 0, 10).reply(ledger_sends(10));
    let step = expect_ledger(step, 10, 10).reply(ledger_sends(10));
    let step = expect_ledger(step, 20, 0).reply(ledger_sends(0));
    assert_eq!(blocks(returned(step)).len(), 20);
}

#[test]
fn download_is_limited() {
    let mut state = runtime(0);
    let step = begin(&mut state, &limits(15, 10), 1_000_000);
    let step = expect_ledger(step, 0, 10).reply(ledger_sends(10));
    let step = expect_ledger(step, 10, 10).reply(ledger_sends(10));
    assert_eq!(blocks(returned(step)), (0..20).collect::<Vec<u64>>());
}

#[test]
fn largest_tip() {
    let mut state = runtime(u64::MAX - 3);
    let step = begin(&mut state, &limits(1000, 2), u64::MAX);
    let step = expect_ledger(step, u64::MAX - 3, 2).reply(ledger_sends(2));
    let step = expect_ledger(step, u64::MAX - 1, 1).reply(ledger_sends(1));
    assert_eq!(blocks(returned(step)), vec![u64::MAX - 3, u64::MAX - 2, u64::MAX - 1]);
}

#[test]
fn no_downloads_allowed() {
    let mut state = runtime(0);
    let step = begin(&mut state, &limits(0, 10), 5);
    assert_eq!(returned(step), Ok(vec![]));
    assert!(!state.is_upto_date);
}

#[test]
fn short_chunks_are_continued() {
    let mut state = runtime(0);
    let step = begin(&mut state, &limits(1000, 10), 15);
    let step = expect_ledger(step, 0, 10).reply(ledger_sends(4));
    let step = expect_ledger(step, 4, 10).reply(ledger_sends(3));
    assert_eq!(blocks(returned(step)), (0..7).collect::<Vec<u64>>());
}

#[test]
fn overrun_is_a_trap() {
    let mut state = runtime(0);
    let step = begin(&mut state, &limits(1000, 10), 15);
    match expect_ledger(step, 0, 10).reply(ledger_sends(16)) {
        DownloadStep::Trap(_) => {}
        _ => panic!("expected a trap"),
    }
}

#[test]
fn overrun_in_the_last_chunk_is_kept() {
    let mut state = runtime(0);
    let step = begin(&mut state, &limits(1000, 10), 5);
    let step = expect_ledger(step, 0, 5).reply(ledger_sends(8));
    assert_eq!(blocks(returned(step)), (0..8).collect::<Vec<u64>>());
}

#[test]
fn refused_chunk() {
    let mut state = runtime(0);
    let step = begin(&mut state, &limits(1000, 10), 5);
    let step = expect_ledger(step, 0, 5).reply(rejected("full"));
    assert_eq!(
        error(returned(step)),
        "Error downloading blocks - Error fetching blocks from ledger (get_transactions) - CanisterError. full"
    );
}

#[test]
fn ledger_transactions_that_cannot_be_stored() {
    let mut state = runtime(0);
    let step = begin(&mut state, &limits(1000, 10), 5);
    let response = GetTransactionsResponse {
        transactions: vec![too_large_mint()],
        archived_transactions: vec![],
    };
    let step = expect_ledger(step, 0, 5).reply(Ok(response));
    assert_eq!(
        error(returned(step)),
        "Error downloading blocks - Error processing ledger blocks (2): Can't process archive tx value to u128 (1) : Nat does not fit in u128"
    );
}

#[test]
fn archives_come_before_the_ledger() {
    let mut state = runtime(0);
    let step = begin(&mut state, &limits(1000, 10), 9);
    let response = GetTransactionsResponse {
        transactions: mints(3),
        archived_transactions: vec![archive(Nat::from_u64(0), 4), archive(Nat::from_u64(4), 2)],
    };
    let step = expect_ledger(step, 0, 9).reply(Ok(response));
    let step = expect_archive(step, 0, 4).reply(Ok(TransactionRange { transactions: mints(4) }));
    let step = expect_archive(step, 4, 2).reply(Ok(TransactionRange { transactions: mints(2) }));
    assert_eq!(blocks(returned(step)), (0..9).collect::<Vec<u64>>());
}

#[test]
fn archives_only() {
    let mut state = runtime(0);
    let step = begin(&mut state, &limits(1000, 10), 9);
    let response = GetTransactionsResponse {
        transactions: vec![],
        archived_transactions: vec![archive(Nat::from_u64(70), 4)],
    };
    let step = expect_ledger(step, 0, 9).reply(Ok(response));
    let step = expect_archive(step, 70, 4).reply(Ok(TransactionRange { transactions: mints(2) }));
    assert_eq!(blocks(returned(step)), vec![70, 71]);
}

#[test]
fn refused_archive_before_ledger_blocks() {
    let mut state = runtime(0);
    let step = begin(&mut state, &limits(1000, 10), 9);
    let response = GetTransactionsResponse {
        transactions: mints(1),
        archived_transactions: vec![archive(Nat::from_u64(0), 4), archive(Nat::from_u64(4), 2)],
    };
    let step = expect_ledger(step, 0, 9).reply(Ok(response));
    let step = expect_archive(step, 0, 4).reply(rejected("gone"));
    assert_eq!(
        error(returned(step)),
        "Error downloading blocks - Error fetching blocks from archive - Error fetching archive blocks (2) - CanisterError. gone"
    );
}

#[test]
fn archive_start_too_large() {
    let mut state = runtime(0);
    let step = begin(&mut state, &limits(1000, 10), 9);
    let response = GetTransactionsResponse {
        transactions: vec![],
        archived_transactions: vec![archive(Nat { digits: vec![0, 0, 1] }, 4)],
    };
    let step = expect_ledger(step, 0, 9).reply(Ok(response));
    assert_eq!(
        error(returned(step)),
        "Error downloading blocks - Error fetching blocks from archive (2) - Can't convert archive.start into u64 value (get_transactions_from_archive_t3) : Nat does not fit in u64"
    );
}

#[test]
fn empty_archives_leave_ledger_blocks_without_number() {
    let mut state = runtime(0);
    let step = begin(&mut state, &limits(1000, 10), 9);
    let response = GetTransactionsResponse {
        transactions: mints(1),
        archived_transactions: vec![archive(Nat::from_u64(0), 4)],
    };
    let step = expect_ledger(step, 0, 9).reply(Ok(response));
    let step = expect_archive(step, 0, 4).reply(Ok(TransactionRange { transactions: vec![] }));
    assert_eq!(
        error(returned(step)),
        "Error downloading blocks - Could not get last archive block downloaded"
    );
}

#[test]
fn ledger_blocks_after_archives_that_cannot_be_stored() {
    let mut state = runtime(0);
    let step = begin(&mut state, &limits(1000, 10), 9);
    let response = GetTransactionsResponse {
        transactions: vec![too_large_mint()],
        archived_transactions: vec![archive(Nat::from_u64(0), 4)],
    };
    let step = expect_ledger(step, 0, 9).reply(Ok(response));
    let step = expect_archive(step, 0, 4).reply(Ok(TransactionRange { transactions: mints(1) }));
    assert_eq!(
        error(returned(step)),
        "Error downloading blocks - Error processing ledger blocks: Can't process archive tx value to u128 (1) : Nat does not fit in u128"
    );
}

#[test]
fn archive_parts() {
    match get_transactions_from_archive_t3(&archive(Nat::from_u64(11), 22)) {
        Ok(request) => {
            assert_eq!(request.master_block, 11);
            assert_eq!(request.call.canister, "2vxsx-fae");
            assert_eq!(range(request.call), (11, 22));
        }
        Err(error) => panic!("{}", error),
    }
    match archive_request("canister".to_string(), &archive(Nat::from_u64(1), 2)) {
        Ok(request) => {
            assert_eq!(request.call.canister, "canister");
            assert_eq!(request.call.method, "get_archived");
        }
        Err(error) => panic!("{}", error),
    }
    let result = archive_reply(11, Ok(TransactionRange { transactions: mints(2) }));
    assert_eq!(blocks(result), vec![11, 12]);
}

#[test]
fn failure_after_successful_chunks() {
    let mut state = runtime(0);
    let step = begin(&mut state, &limits(1000, 10), 25);
    let step = expect_ledger(step, 0, 10).reply(ledger_sends(10));
    let step = expect_ledger(step, 10, 10).reply(rejected("late"));
    assert_eq!(
        error(returned(step)),
        "Error downloading blocks - Error fetching blocks from ledger (get_transactions) - CanisterError. late"
    );
}

#[test]
fn chunks_with_and_without_archives() {
    let mut state = runtime(100);
    let step = begin(&mut state, &limits(1000, 10), 115);
    let response = GetTransactionsResponse {
        transactions: mints(4),
        archived_transactions: vec![archive(Nat::from_u64(100), 6)],
    };
    let step = expect_ledger(step, 100, 10).reply(Ok(response));
    let step = expect_archive(step, 100, 6).reply(Ok(TransactionRange { transactions: mints(6) }));
    let step = expect_ledger(step, 110, 5).reply(ledger_sends(5));
    assert_eq!(blocks(returned(step)), (100..115).collect::<Vec<u64>>());
}

#[test]
fn contiguous_archives_are_downloaded_up_to_the_limit() {
    let mut state = runtime(100);
    let step = begin(&mut state, &limits(20, 10), 500);
    let response = GetTransactionsResponse {
        transactions: vec![],
        archived_transactions: vec![
            archive(Nat::from_u64(100), 7),
            archive(Nat::from_u64(107), 3),
        ],
    };
    let step = expect_ledger(step, 100, 10).reply(Ok(response));
    let step = expect_archive(step, 100, 7).reply(Ok(TransactionRange { transactions: mints(7) }));
    let step = expect_archive(step, 107, 3).reply(Ok(TransactionRange { transactions: mints(3) }));
    let response = GetTransactionsResponse {
        transactions: mints(8),
        archived_transactions: vec![archive(Nat::from_u64(110), 2)],
    };
    let step = expect_ledger(step, 110, 10).reply(Ok(response));
    let step = expect_archive(step, 110, 2).reply(Ok(TransactionRange { transactions: mints(2) }));
    assert_eq!(blocks(returned(step)), (100..120).collect::<Vec<u64>>());
}

#[test]
fn blocks_and_chunks_are_counted() {
    assert_eq!(count_blocks(10, 4), 7);
    assert_eq!(count_blocks(4, 10), 0);
    assert_eq!(count_blocks(u64::MAX, 0), u64::MAX);
    assert_eq!(count_chunks(20, &limits(100, 10)), 2);
    assert_eq!(count_chunks(21, &limits(100, 10)), 3);
    assert_eq!(count_chunks(0, &limits(100, 10)), 0);
}
