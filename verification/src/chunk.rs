//! Downloading one chunk of blocks: from the ledger, and from the archives that it refers to.
//!
//! A chunk starts with the call that [`meme_download_chunk`] makes. The ledger's reply goes to
//! [`ledger_reply`], and each archive's reply to [`ChunkDownload::archive_reply`], until a step
//! is [`ChunkStep::Finished`].

use crate::accounts::principal_text;
use crate::archive::{
    archive_call_view, archive_outcome, archive_reply, get_transactions_from_archive_t3,
    start_failure, ArchiveReplyView, ArchiveRequest,
};
use crate::calls::{
    describe_rejection, rejection_text, BlocksView, CallRejection, CallView, CanisterCall,
    GetBlocksArgs1, RejectionView,
};
use crate::numbers::Nat;
use crate::process::{
    block_number, carries_burn, carries_mint, carries_transfer, law_entry_carries_operation,
    law_nothing_processed, law_processing_in_parts, numbered, operations, process_ledger_block_t3,
    processed, records, Operation,
};
use crate::types::{
    outcome_view, ArchivedRange1, ArchivedRangeView, GetTransactionsResponse, Outcome, ProcessedTX,
    ProcessedView, ResponseView, Transaction, TransactionRange, TransactionView,
};
use crate::views::{result_view, views};
use vstd::prelude::*;

verus! {

/// A ledger's answer, or its refusal.
pub type LedgerReplyView = Result<ResponseView, RejectionView>;

/// A chunk that waits for the reply of an archive.
pub struct ChunkDownload {
    archives: Vec<ArchivedRange1>,
    position: usize,
    master_block: u64,
    transactions: Vec<Transaction>,
    collected: Vec<ProcessedTX>,
}

/// The mathematical counterpart of [`ChunkDownload`].
pub struct ChunkView {
    /// The archived ranges that the ledger named.
    pub archives: Seq<ArchivedRangeView>,
    /// How many of them have been collected.
    pub position: int,
    /// The transactions that the ledger itself sent.
    pub transactions: Seq<TransactionView>,
    /// What the archives gave so far.
    pub collected: Seq<ProcessedView>,
}

impl View for ChunkDownload {
    type V = ChunkView;

    closed spec fn view(&self) -> ChunkView {
        ChunkView {
            archives: views(self.archives@),
            position: self.position as int,
            transactions: views(self.transactions@),
            collected: views(self.collected@),
        }
    }
}

impl ChunkDownload {
    #[verifier::type_invariant]
    spec fn waits_for_archive(&self) -> bool {
        &&& self.position < self.archives@.len()
        &&& self.archives@[self.position as int]@.start == self.master_block
    }
}

/// What to do next for a chunk.
pub enum ChunkStep {
    /// Make a call to an archive and hand its reply to the chunk.
    CallArchive { call: CanisterCall, chunk: ChunkDownload },
    /// The chunk is complete or has failed.
    Finished(Result<Vec<ProcessedTX>, String>),
}

/// The mathematical counterpart of [`ChunkStep`].
pub enum ChunkStepView {
    CallArchive { call: CallView, chunk: ChunkView },
    Finished(Outcome),
}

impl View for ChunkStep {
    type V = ChunkStepView;

    open spec fn view(&self) -> ChunkStepView {
        match *self {
            ChunkStep::CallArchive { call, chunk } => ChunkStepView::CallArchive {
                call: call@,
                chunk: chunk@,
            },
            ChunkStep::Finished(result) => ChunkStepView::Finished(outcome_view(result)),
        }
    }
}

/// The call that asks a ledger for blocks.
pub open spec fn ledger_call_view(ledger: Seq<char>, start: u64, length: u64) -> CallView {
    CallView {
        canister: ledger,
        method: "get_transactions"@,
        blocks: Some(BlocksView { start: start as nat, length: length as nat }),
    }
}

/// How a failed archive is reported; it depends on whether the ledger sent transactions too.
pub open spec fn archive_failure(
    transactions: Seq<TransactionView>,
    error: Seq<char>,
) -> Seq<char> {
    if transactions.len() > 0 {
        "Error fetching blocks from archive - "@ + error
    } else {
        "Error fetching blocks from archive (2) - "@ + error
    }
}

/// What a chunk gives once all archives are collected: what they gave, followed by the ledger's
/// own transactions, numbered from the block after the last collected one.
pub open spec fn chunk_end(
    transactions: Seq<TransactionView>,
    collected: Seq<ProcessedView>,
) -> Outcome {
    if transactions.len() == 0 {
        Ok(collected)
    } else if collected.len() == 0 {
        Err("Could not get last archive block downloaded"@)
    } else {
        match processed(transactions, block_number(collected.last().block, 1)) {
            Ok(later) => Ok(collected + later),
            Err(error) => Err("Error processing ledger blocks: "@ + error),
        }
    }
}

/// What a chunk gives when the ledger names no archive.
pub open spec fn ledger_only(transactions: Seq<TransactionView>, start: u64) -> Outcome {
    match processed(transactions, start) {
        Ok(all) => Ok(all),
        Err(error) => Err("Error processing ledger blocks (2): "@ + error),
    }
}

/// The step of a chunk that has collected the archives before `position`.
pub open spec fn chunk_next(chunk: ChunkView) -> ChunkStepView {
    if chunk.position < chunk.archives.len() {
        let archived = chunk.archives[chunk.position];
        if archived.start > u64::MAX {
            ChunkStepView::Finished(Err(archive_failure(chunk.transactions, start_failure())))
        } else {
            ChunkStepView::CallArchive {
                call: archive_call_view(principal_text(archived.principal), archived),
                chunk,
            }
        }
    } else {
        ChunkStepView::Finished(chunk_end(chunk.transactions, chunk.collected))
    }
}

/// The step that follows the ledger's reply.
pub open spec fn after_ledger(start: u64, reply: LedgerReplyView) -> ChunkStepView {
    match reply {
        Ok(response) => if response.archived_transactions.len() == 0 {
            ChunkStepView::Finished(ledger_only(response.transactions, start))
        } else {
            chunk_next(
                ChunkView {
                    archives: response.archived_transactions,
                    position: 0,
                    transactions: response.transactions,
                    collected: Seq::empty(),
                },
            )
        },
        Err(rejection) => ChunkStepView::Finished(
            Err(
                rejection_text(
                    "Error fetching blocks from ledger (get_transactions) - "@,
                    rejection,
                ),
            ),
        ),
    }
}

/// The step that follows the reply of the archive that a chunk waits for.
pub open spec fn after_archive(chunk: ChunkView, reply: ArchiveReplyView) -> ChunkStepView {
    match archive_outcome(chunk.archives[chunk.position].start as u64, reply) {
        Ok(later) => chunk_next(
            ChunkView {
                position: chunk.position + 1,
                collected: chunk.collected + later,
                ..chunk
            },
        ),
        Err(error) => ChunkStepView::Finished(Err(archive_failure(chunk.transactions, error))),
    }
}

/// Makes the call that asks the ledger for `length` blocks from `start` on.
pub fn meme_download_chunk(start: u64, length: u64, ledger_id: &str) -> (call: CanisterCall)
    ensures
        call@ == ledger_call_view(ledger_id@, start, length),
        call.canister@ == ledger_id@,
        call.method@ == "get_transactions"@,
        call.blocks is Some,
        call.blocks->0.start@ == start,
        call.blocks->0.length@ == length,
{
    CanisterCall {
        canister: ledger_id.to_owned(),
        method: "get_transactions".to_owned(),
        blocks: Some(GetBlocksArgs1 { start: Nat::from_u64(start), length: Nat::from_u64(length) }),
    }
}

/// Reports a failed archive.
fn describe_archive_failure(from_ledger: bool, error: String) -> (text: String)
    ensures
        forall|transactions: Seq<TransactionView>|
            from_ledger == (transactions.len() > 0) ==> text@ == #[trigger] archive_failure(
                transactions,
                error@,
            ),
{
    if from_ledger {
        "Error fetching blocks from archive - ".to_owned().concat(error.as_str())
    } else {
        "Error fetching blocks from archive (2) - ".to_owned().concat(error.as_str())
    }
}

/// Adds the ledger's own transactions to what the archives gave.
fn finish_chunk(transactions: Vec<Transaction>, collected: Vec<ProcessedTX>) -> (result: Result<
    Vec<ProcessedTX>,
    String,
>)
    ensures
        outcome_view(result) == chunk_end(views(transactions@), views(collected@)),
{
    if transactions.is_empty() {
        return Ok(collected);
    }
    if collected.is_empty() {
        return Err("Could not get last archive block downloaded".to_owned());
    }
    let last: usize = collected.len() - 1;
    let next_block: u64 = collected[last].block.saturating_add(1);
    match process_ledger_block_t3(transactions, next_block) {
        Ok(mut later) => {
            let mut all: Vec<ProcessedTX> = collected;
            let ghost expected = views(all@) + views(later@);
            all.append(&mut later);
            assert(views(all@) =~= expected);
            Ok(all)
        },
        Err(error) => Err(
            "Error processing ledger blocks: ".to_owned().concat(error.as_str()),
        ),
    }
}

/// Goes on with a chunk that has collected the archives before `position`.
fn next_step(
    archives: Vec<ArchivedRange1>,
    position: usize,
    transactions: Vec<Transaction>,
    collected: Vec<ProcessedTX>,
) -> (step: ChunkStep)
    requires
        position <= archives@.len(),
    ensures
        step@ == chunk_next(
            ChunkView {
                archives: views(archives@),
                position: position as int,
                transactions: views(transactions@),
                collected: views(collected@),
            },
        ),
{
    if position < archives.len() {
        match get_transactions_from_archive_t3(&archives[position]) {
            Ok(request) => {
                let ArchiveRequest { call, master_block } = request;
                let chunk = ChunkDownload {
                    archives,
                    position,
                    master_block,
                    transactions,
                    collected,
                };
                ChunkStep::CallArchive { call, chunk }
            },
            Err(error) => ChunkStep::Finished(
                Err(describe_archive_failure(!transactions.is_empty(), error)),
            ),
        }
    } else {
        ChunkStep::Finished(finish_chunk(transactions, collected))
    }
}

/// Takes the ledger's reply to the request for blocks from `start` on.
pub fn ledger_reply(start: u64, reply: Result<GetTransactionsResponse, CallRejection>) -> (step:
    ChunkStep)
    ensures
        step@ == after_ledger(start, result_view(reply)),
{
    match reply {
        Ok(response) => {
            let GetTransactionsResponse { transactions, archived_transactions } = response;
            if archived_transactions.is_empty() {
                match process_ledger_block_t3(transactions, start) {
                    Ok(all) => ChunkStep::Finished(Ok(all)),
                    Err(error) => ChunkStep::Finished(
                        Err(
                            "Error processing ledger blocks (2): ".to_owned().concat(
                                error.as_str(),
                            ),
                        ),
                    ),
                }
            } else {
                let collected: Vec<ProcessedTX> = Vec::new();
                assert(views(collected@) =~= Seq::<ProcessedView>::empty());
                next_step(archived_transactions, 0, transactions, collected)
            }
        },
        Err(rejection) => ChunkStep::Finished(
            Err(
                describe_rejection(
                    "Error fetching blocks from ledger (get_transactions) - ",
                    rejection,
                ),
            ),
        ),
    }
}

impl ChunkDownload {
    /// Takes the reply of the archive that the chunk waits for.
    pub fn archive_reply(self, reply: Result<TransactionRange, CallRejection>) -> (step: ChunkStep)
        ensures
            step@ == after_archive(self@, result_view(reply)),
    {
        proof {
            use_type_invariant(&self);
        }
        let ChunkDownload { archives, position, master_block, transactions, collected } = self;
        match archive_reply(master_block, reply) {
            Ok(mut later) => {
                let mut all: Vec<ProcessedTX> = collected;
                let ghost expected = views(all@) + views(later@);
                all.append(&mut later);
                assert(views(all@) =~= expected);
                assert(position < archives.len());
                next_step(archives, position + 1, transactions, all)
            },
            Err(error) => ChunkStep::Finished(
                Err(describe_archive_failure(!transactions.is_empty(), error)),
            ),
        }
    }
}

/// What one archived range gives, for the archive's reply.
pub open spec fn range_outcome(archived: ArchivedRangeView, reply: ArchiveReplyView) -> Outcome {
    if archived.start > u64::MAX {
        Err(start_failure())
    } else {
        archive_outcome(archived.start as u64, reply)
    }
}

/// What a list of archived ranges gives, for the archives' replies: all of it in order, or the
/// first failure.
pub open spec fn gathered(
    archives: Seq<ArchivedRangeView>,
    replies: Seq<ArchiveReplyView>,
) -> Outcome
    decreases archives.len(),
{
    if archives.len() == 0 {
        Ok(Seq::empty())
    } else {
        match gathered(archives.drop_last(), replies.drop_last()) {
            Ok(earlier) => match range_outcome(archives.last(), replies.last()) {
                Ok(later) => Ok(earlier + later),
                Err(error) => Err(error),
            },
            Err(error) => Err(error),
        }
    }
}

/// What a whole chunk gives, for the ledger's response and the archives' replies.
pub open spec fn chunk_outcome(
    start: u64,
    response: ResponseView,
    replies: Seq<ArchiveReplyView>,
) -> Outcome {
    if response.archived_transactions.len() == 0 {
        ledger_only(response.transactions, start)
    } else {
        match gathered(response.archived_transactions, replies) {
            Ok(collected) => chunk_end(response.transactions, collected),
            Err(error) => Err(archive_failure(response.transactions, error)),
        }
    }
}

/// The end of a chunk that takes `step` and then the archives' replies one by one; `None` if it
/// still waits after the last of them.
pub open spec fn chunk_run(step: ChunkStepView, replies: Seq<ArchiveReplyView>) -> Option<Outcome>
    decreases replies.len(),
{
    match step {
        ChunkStepView::Finished(outcome) => Some(outcome),
        ChunkStepView::CallArchive { call, chunk } => if replies.len() == 0 {
            None
        } else {
            chunk_run(after_archive(chunk, replies[0]), replies.drop_first())
        },
    }
}

/// A failure among the first archives is the failure of them all.
proof fn lemma_gathered_failure(
    archives: Seq<ArchivedRangeView>,
    replies: Seq<ArchiveReplyView>,
    count: int,
)
    requires
        0 <= count <= archives.len(),
        archives.len() == replies.len(),
        gathered(archives.take(count), replies.take(count)) is Err,
    ensures
        gathered(archives, replies) == gathered(archives.take(count), replies.take(count)),
    decreases archives.len(),
{
    if count == archives.len() {
        assert(archives.take(count) =~= archives);
        assert(replies.take(count) =~= replies);
    } else {
        assert(archives.drop_last().take(count) =~= archives.take(count));
        assert(replies.drop_last().take(count) =~= replies.take(count));
        lemma_gathered_failure(archives.drop_last(), replies.drop_last(), count);
    }
}

/// The run of a chunk that has collected the archives before its position.
proof fn lemma_chunk_run(chunk: ChunkView, replies: Seq<ArchiveReplyView>)
    requires
        0 <= chunk.position <= chunk.archives.len(),
        chunk.archives.len() == replies.len(),
        gathered(chunk.archives.take(chunk.position), replies.take(chunk.position)) == Outcome::Ok(
            chunk.collected,
        ),
    ensures
        chunk_run(chunk_next(chunk), replies.skip(chunk.position)) == Some(
            match gathered(chunk.archives, replies) {
                Ok(collected) => chunk_end(chunk.transactions, collected),
                Err(error) => Outcome::Err(archive_failure(chunk.transactions, error)),
            },
        ),
    decreases chunk.archives.len() - chunk.position,
{
    reveal_with_fuel(chunk_run, 2);
    let position = chunk.position;
    let archives = chunk.archives;
    if position == archives.len() {
        assert(archives.take(position) =~= archives);
        assert(replies.take(position) =~= replies);
    } else {
        let archived = archives[position];
        assert(archives.take(position + 1).drop_last() =~= archives.take(position));
        assert(replies.take(position + 1).drop_last() =~= replies.take(position));
        assert(archives.take(position + 1).last() == archived);
        assert(replies.take(position + 1).last() == replies[position]);
        let so_far = gathered(archives.take(position + 1), replies.take(position + 1));
        if so_far is Err {
            lemma_gathered_failure(archives, replies, position + 1);
        } else {
            let after = ChunkView {
                position: position + 1,
                collected: so_far->Ok_0,
                ..chunk
            };
            lemma_chunk_run(after, replies);
        }
        if archived.start <= u64::MAX {
            assert(replies.skip(position)[0] == replies[position]);
            assert(replies.skip(position).drop_first() =~= replies.skip(position + 1));
        }
    }
}

/// A chunk that is driven with one reply for each archived range ends with the archives'
/// transactions in order, followed by the ledger's own, or with the first failure.
pub proof fn law_chunk_outcome(
    start: u64,
    response: ResponseView,
    replies: Seq<ArchiveReplyView>,
)
    requires
        replies.len() == response.archived_transactions.len(),
    ensures
        chunk_run(after_ledger(start, Ok(response)), replies) == Some(
            chunk_outcome(start, response, replies),
        ),
{
    if response.archived_transactions.len() > 0 {
        let chunk = ChunkView {
            archives: response.archived_transactions,
            position: 0,
            transactions: response.transactions,
            collected: Seq::empty(),
        };
        assert(replies.skip(0) =~= replies);
        lemma_chunk_run(chunk, replies);
    }
}

/// Where both archives and the ledger give transactions, the ledger's own blocks are numbered
/// from the block after the last archived one.
pub proof fn law_ledger_blocks_follow_archives(
    start: u64,
    response: ResponseView,
    replies: Seq<ArchiveReplyView>,
    index: int,
)
    requires
        response.archived_transactions.len() > 0,
        response.transactions.len() > 0,
        chunk_outcome(start, response, replies) is Ok,
        ({
            let collected = gathered(response.archived_transactions, replies)->Ok_0;
            let all = chunk_outcome(start, response, replies)->Ok_0;
            &&& collected.len() <= index < all.len()
            &&& collected.last().block + 1 + index - collected.len() <= u64::MAX
        }),
    ensures
        ({
            let collected = gathered(response.archived_transactions, replies)->Ok_0;
            let all = chunk_outcome(start, response, replies)->Ok_0;
            &&& collected.len() > 0
            &&& all.take(collected.len() as int) == collected
            &&& all[index].block == collected.last().block + 1 + index - collected.len()
        }),
{
    let collected = gathered(response.archived_transactions, replies)->Ok_0;
    let all = chunk_outcome(start, response, replies)->Ok_0;
    assert(all.take(collected.len() as int) =~= collected);
}

/// Each archived range starts at the block after those that the ranges before it gave.
pub open spec fn contiguous(
    start: u64,
    archives: Seq<ArchivedRangeView>,
    replies: Seq<ArchiveReplyView>,
) -> bool {
    forall|i: int|
        0 <= i < archives.len() ==> (#[trigger] archives[i]).start == start + gathered(
            archives.take(i),
            replies.take(i),
        )->Ok_0.len()
}

/// Contiguous ranges give consecutive block numbers.
proof fn lemma_gathered_numbered(
    start: u64,
    archives: Seq<ArchivedRangeView>,
    replies: Seq<ArchiveReplyView>,
    index: int,
)
    requires
        archives.len() == replies.len(),
        gathered(archives, replies) is Ok,
        contiguous(start, archives, replies),
        0 <= index < gathered(archives, replies)->Ok_0.len(),
        start + index <= u64::MAX,
    ensures
        gathered(archives, replies)->Ok_0[index].block == start + index,
    decreases archives.len(),
{
    let last = archives.len() - 1;
    let front = archives.drop_last();
    let front_replies = replies.drop_last();
    assert(archives.take(last) =~= front);
    assert(replies.take(last) =~= front_replies);
    assert(archives[last].start == start + gathered(front, front_replies)->Ok_0.len());
    if index < gathered(front, front_replies)->Ok_0.len() {
        assert forall|i: int| 0 <= i < front.len() implies (#[trigger] front[i]).start == start
            + gathered(front.take(i), front_replies.take(i))->Ok_0.len() by {
            assert(front[i] == archives[i]);
            assert(front.take(i) =~= archives.take(i));
            assert(front_replies.take(i) =~= replies.take(i));
        }
        lemma_gathered_numbered(start, front, front_replies, index);
    }
}

/// A chunk whose archived ranges follow one another from its first block on carries consecutive
/// block numbers from that block on, through the archives and the ledger.
pub proof fn law_chunk_numbered(
    start: u64,
    response: ResponseView,
    replies: Seq<ArchiveReplyView>,
    index: int,
)
    requires
        replies.len() == response.archived_transactions.len(),
        contiguous(start, response.archived_transactions, replies),
        chunk_outcome(start, response, replies) is Ok,
        0 <= index < chunk_outcome(start, response, replies)->Ok_0.len(),
        start + index <= u64::MAX,
    ensures
        chunk_outcome(start, response, replies)->Ok_0[index].block == start + index,
{
    if response.archived_transactions.len() > 0 {
        let archives = response.archived_transactions;
        let collected = gathered(archives, replies)->Ok_0;
        if index < collected.len() {
            lemma_gathered_numbered(start, archives, replies, index);
        } else {
            lemma_gathered_numbered(start, archives, replies, collected.len() - 1);
        }
    }
}

/// The call that asks a ledger for blocks goes to that ledger and names exactly those blocks.
pub proof fn law_ledger_call(ledger: Seq<char>, start: u64, length: u64)
    ensures
        ({
            let call = ledger_call_view(ledger, start, length);
            &&& call.canister == ledger
            &&& call.method == "get_transactions"@
            &&& call.blocks is Some
            &&& call.blocks->0.start == start
            &&& call.blocks->0.length == length
        }),
{
}

/// A chunk that has archives left asks the next one: the canister and the method that the range
/// names, for exactly the start and the length of the range. It fails exactly when the start is no
/// block number.
pub proof fn law_chunk_asks_next_archive(chunk: ChunkView)
    requires
        0 <= chunk.position < chunk.archives.len(),
    ensures
        ({
            let archived = chunk.archives[chunk.position];
            match chunk_next(chunk) {
                ChunkStepView::CallArchive { call, chunk: same } => {
                    &&& archived.start <= u64::MAX
                    &&& same == chunk
                    &&& call.canister == principal_text(archived.principal)
                    &&& call.method == archived.method
                    &&& call.blocks is Some
                    &&& call.blocks->0.start == archived.start
                    &&& call.blocks->0.length == archived.length
                },
                ChunkStepView::Finished(outcome) => {
                    &&& archived.start > u64::MAX
                    &&& outcome is Err
                    &&& outcome->Err_0 == if chunk.transactions.len() > 0 {
                        "Error fetching blocks from archive - "@
                    } else {
                        "Error fetching blocks from archive (2) - "@
                    } + (
                    "Can't convert archive.start into u64 value (get_transactions_from_archive_t3) : "@
                        + "Nat does not fit in u64"@)
                },
            }
        }),
{
}

/// A response that names archives makes the chunk ask the first of them, with nothing collected;
/// all ranges and the ledger's own transactions are kept.
pub proof fn law_first_archive_asked(start: u64, response: ResponseView)
    requires
        response.archived_transactions.len() > 0,
        response.archived_transactions[0].start <= u64::MAX,
    ensures
        match after_ledger(start, Ok(response)) {
            ChunkStepView::CallArchive { call, chunk } => {
                let archived = response.archived_transactions[0];
                &&& call.canister == principal_text(archived.principal)
                &&& call.method == archived.method
                &&& call.blocks is Some
                &&& call.blocks->0.start == archived.start
                &&& call.blocks->0.length == archived.length
                &&& chunk.archives == response.archived_transactions
                &&& chunk.position == 0
                &&& chunk.transactions == response.transactions
                &&& chunk.collected.len() == 0
            },
            _ => false,
        },
{
}

/// A refusal of the ledger ends the chunk and is reported with its code and message.
pub proof fn law_ledger_refusal_reported(start: u64, rejection: RejectionView)
    ensures
        after_ledger(start, Err(rejection)) == ChunkStepView::Finished(
            Err(
                "Error fetching blocks from ledger (get_transactions) - "@ + rejection.code.name()
                    + ". "@ + rejection.message,
            ),
        ),
{
}

/// A refusal of an archive ends the chunk, whatever was collected, and is reported with its code
/// and message.
pub proof fn law_archive_refusal_reported(chunk: ChunkView, rejection: RejectionView)
    ensures
        after_archive(chunk, Err(rejection)) == ChunkStepView::Finished(
            Err(
                if chunk.transactions.len() > 0 {
                    "Error fetching blocks from archive - "@
                } else {
                    "Error fetching blocks from archive (2) - "@
                } + ("Error fetching archive blocks (2) - "@ + rejection.code.name() + ". "@
                    + rejection.message),
            ),
        ),
{
}

/// Transactions of an archive are numbered from the start of their range and put behind what was
/// collected before; the chunk then asks the next archive. If they cannot be stored, the chunk
/// ends with that failure.
pub proof fn law_archive_collected(chunk: ChunkView, sent: Seq<TransactionView>)
    requires
        0 <= chunk.position,
        chunk.position + 1 < chunk.archives.len(),
        chunk.archives[chunk.position].start <= u64::MAX,
        chunk.archives[chunk.position + 1].start <= u64::MAX,
    ensures
        match processed(sent, chunk.archives[chunk.position].start as u64) {
            Ok(later) => match after_archive(chunk, Ok(sent)) {
                ChunkStepView::CallArchive { call, chunk: next } => {
                    let archived = chunk.archives[chunk.position + 1];
                    &&& call.canister == principal_text(archived.principal)
                    &&& call.method == archived.method
                    &&& call.blocks is Some
                    &&& call.blocks->0.start == archived.start
                    &&& call.blocks->0.length == archived.length
                    &&& next.archives == chunk.archives
                    &&& next.position == chunk.position + 1
                    &&& next.transactions == chunk.transactions
                    &&& next.collected == chunk.collected + later
                },
                _ => false,
            },
            Err(error) => after_archive(chunk, Ok(sent)) == ChunkStepView::Finished(
                Err(
                    if chunk.transactions.len() > 0 {
                        "Error fetching blocks from archive - "@
                    } else {
                        "Error fetching blocks from archive (2) - "@
                    } + error,
                ),
            ),
        },
{
}

/// The replies of archives that all send transactions.
pub open spec fn replies_of(sent: Seq<Seq<TransactionView>>) -> Seq<ArchiveReplyView> {
    Seq::new(sent.len(), |i: int| ArchiveReplyView::Ok(sent[i]))
}

/// Archives whose transactions can all be stored give their entries, one range after the other.
proof fn lemma_gathered_lists(
    archives: Seq<ArchivedRangeView>,
    sent: Seq<Seq<TransactionView>>,
    lists: Seq<Seq<ProcessedView>>,
)
    requires
        archives.len() == sent.len(),
        archives.len() == lists.len(),
        forall|i: int|
            0 <= i < archives.len() ==> (#[trigger] archives[i]).start <= u64::MAX && processed(
                sent[i],
                archives[i].start as u64,
            ) == Outcome::Ok(lists[i]),
    ensures
        gathered(archives, replies_of(sent)) == Outcome::Ok(lists.flatten()),
    decreases archives.len(),
{
    if archives.len() == 0 {
        assert(lists.flatten() =~= Seq::empty());
    } else {
        let front = archives.drop_last();
        assert forall|i: int| 0 <= i < front.len() implies (#[trigger] front[i]).start <= u64::MAX
            && processed(sent.drop_last()[i], front[i].start as u64) == Outcome::Ok(
            lists.drop_last()[i],
        ) by {
            assert(front[i] == archives[i]);
        }
        lemma_gathered_lists(front, sent.drop_last(), lists.drop_last());
        assert(replies_of(sent).drop_last() =~= replies_of(sent.drop_last()));
        let last = archives.len() - 1;
        assert(archives[last].start <= u64::MAX);
        lists.drop_last().lemma_flatten_push(lists.last());
        assert(lists.drop_last().push(lists.last()) =~= lists);
    }
}

/// A chunk with archives, wherever their ranges start, gives the entries of each range, numbered
/// from that range's own start, in the order of the ranges, and behind them the ledger's own
/// transactions, numbered from the block after the last entry. Without any entry from the archives
/// the ledger's transactions cannot be numbered, and the chunk fails.
pub proof fn law_chunk_of_ranges(
    start: u64,
    response: ResponseView,
    sent: Seq<Seq<TransactionView>>,
    lists: Seq<Seq<ProcessedView>>,
)
    requires
        response.archived_transactions.len() > 0,
        response.archived_transactions.len() == sent.len(),
        response.archived_transactions.len() == lists.len(),
        forall|i: int|
            0 <= i < sent.len() ==> (#[trigger] response.archived_transactions[i]).start
                <= u64::MAX && processed(sent[i], response.archived_transactions[i].start as u64)
                == Outcome::Ok(lists[i]),
    ensures
        chunk_run(after_ledger(start, Ok(response)), replies_of(sent)) == Some(
            if response.transactions.len() == 0 {
                Outcome::Ok(lists.flatten())
            } else if lists.flatten().len() == 0 {
                Outcome::Err("Could not get last archive block downloaded"@)
            } else {
                let last = lists.flatten().last().block;
                let next = if last < u64::MAX {
                    (last + 1) as u64
                } else {
                    u64::MAX
                };
                match processed(response.transactions, next) {
                    Ok(later) => Outcome::Ok(lists.flatten() + later),
                    Err(error) => Outcome::Err("Error processing ledger blocks: "@ + error),
                }
            },
        ),
{
    lemma_gathered_lists(response.archived_transactions, sent, lists);
    law_chunk_outcome(start, response, replies_of(sent));
}

/// A chunk without archives gives the ledger's own transactions, numbered from the first block
/// that was asked for.
pub proof fn law_chunk_of_ledger(start: u64, response: ResponseView)
    requires
        response.archived_transactions.len() == 0,
    ensures
        after_ledger(start, Ok(response)) == ChunkStepView::Finished(
            match processed(response.transactions, start) {
                Ok(all) => Outcome::Ok(all),
                Err(error) => Outcome::Err("Error processing ledger blocks (2): "@ + error),
            },
        ),
{
}

/// Ranges that follow one another give what processing all their transactions at once gives.
proof fn lemma_gathered_at_once(
    start: u64,
    archives: Seq<ArchivedRangeView>,
    sent: Seq<Seq<TransactionView>>,
)
    requires
        archives.len() == sent.len(),
        forall|i: int|
            0 <= i < archives.len() ==> (#[trigger] archives[i]).start == start + operations(
                sent.take(i).flatten(),
            ).len() && archives[i].start <= u64::MAX,
        processed(sent.flatten(), start) is Ok,
    ensures
        gathered(archives, replies_of(sent)) == processed(sent.flatten(), start),
    decreases archives.len(),
{
    if archives.len() == 0 {
        assert(sent.flatten() =~= Seq::empty());
        law_nothing_processed(start);
    } else {
        let last = archives.len() - 1;
        let (front, sent_front) = (archives.drop_last(), sent.drop_last());
        assert(sent.take(last) =~= sent_front);
        assert(archives[last].start == start + operations(sent_front.flatten()).len());
        sent_front.lemma_flatten_push(sent.last());
        assert(sent_front.push(sent.last()) =~= sent);
        law_processing_in_parts(sent_front.flatten(), sent.last(), start);
        assert forall|i: int| 0 <= i < front.len() implies (#[trigger] front[i]).start == start
            + operations(sent_front.take(i).flatten()).len() && front[i].start <= u64::MAX by {
            assert(front[i] == archives[i]);
            assert(sent_front.take(i) =~= sent.take(i));
        }
        lemma_gathered_at_once(start, front, sent_front);
        assert(replies_of(sent).drop_last() =~= replies_of(sent_front));
    }
}

/// A chunk whose archived ranges follow one another from its first block on, each from the block
/// after those before it, gives what processing everything that was sent at once gives: the
/// archives' transactions in order, then the ledger's in order. Entry by entry it holds the
/// operations that were sent, in content as in number.
pub proof fn law_chunk_contents(
    start: u64,
    response: ResponseView,
    sent: Seq<Seq<TransactionView>>,
)
    requires
        response.archived_transactions.len() == sent.len(),
        forall|i: int|
            0 <= i < sent.len() ==> (#[trigger] response.archived_transactions[i]).start == start
                + operations(sent.take(i).flatten()).len()
                && response.archived_transactions[i].start <= u64::MAX,
        sent.len() > 0 && response.transactions.len() > 0 ==> operations(sent.flatten()).len() > 0,
        processed(sent.flatten() + response.transactions, start) is Ok,
    ensures
        chunk_run(after_ledger(start, Ok(response)), replies_of(sent)) == Some(
            processed(sent.flatten() + response.transactions, start),
        ),
        processed(sent.flatten() + response.transactions, start) == Outcome::Ok(
            records(operations(sent.flatten() + response.transactions), start),
        ),
{
    let archived = sent.flatten();
    law_processing_in_parts(archived, response.transactions, start);
    law_chunk_outcome(start, response, replies_of(sent));
    if sent.len() == 0 {
        assert(archived + response.transactions =~= response.transactions);
    } else {
        lemma_gathered_at_once(start, response.archived_transactions, sent);
        if response.transactions.len() == 0 {
            assert(archived + response.transactions =~= archived);
        }
    }
}

/// Entry by entry, such a chunk carries the operations that were sent: the `index`-th entry holds
/// the data of the `index`-th operation under the `index`-th block number.
pub proof fn law_chunk_entry(
    start: u64,
    response: ResponseView,
    sent: Seq<Seq<TransactionView>>,
    index: int,
)
    requires
        response.archived_transactions.len() == sent.len(),
        forall|i: int|
            0 <= i < sent.len() ==> (#[trigger] response.archived_transactions[i]).start == start
                + operations(sent.take(i).flatten()).len()
                && response.archived_transactions[i].start <= u64::MAX,
        sent.len() > 0 && response.transactions.len() > 0 ==> operations(sent.flatten()).len() > 0,
        processed(sent.flatten() + response.transactions, start) is Ok,
        0 <= index < operations(sent.flatten() + response.transactions).len(),
    ensures
        match chunk_run(after_ledger(start, Ok(response)), replies_of(sent)) {
            Some(Ok(entries)) => {
                let all = operations(sent.flatten() + response.transactions);
                &&& entries.len() == all.len()
                &&& numbered(entries[index], start, index)
                &&& match all[index].operation {
                    Operation::Mint(mint) => carries_mint(entries[index], mint, all[index].time),
                    Operation::Burn(burn) => carries_burn(entries[index], burn, all[index].time),
                    Operation::Transfer(transfer) => carries_transfer(
                        entries[index],
                        transfer,
                        all[index].time,
                    ),
                }
            },
            _ => false,
        },
{
    law_chunk_contents(start, response, sent);
    law_entry_carries_operation(sent.flatten() + response.transactions, start, index);
}

/// A response that names archives begins with the first of them and with nothing collected.
pub proof fn law_archives_begin(start: u64, response: ResponseView)
    requires
        response.archived_transactions.len() > 0,
    ensures
        after_ledger(start, Ok(response)) == chunk_next(
            ChunkView {
                archives: response.archived_transactions,
                position: 0,
                transactions: response.transactions,
                collected: Seq::empty(),
            },
        ),
{
}

/// An archive's transactions, at whatever place, move the chunk on by one range, with their
/// entries behind those collected before; those that cannot be stored end it with the reason.
pub proof fn law_archive_advances(chunk: ChunkView, sent: Seq<TransactionView>)
    requires
        0 <= chunk.position < chunk.archives.len(),
        chunk.archives[chunk.position].start <= u64::MAX,
    ensures
        after_archive(chunk, Ok(sent)) == match processed(
            sent,
            chunk.archives[chunk.position].start as u64,
        ) {
            Ok(later) => chunk_next(
                ChunkView {
                    archives: chunk.archives,
                    position: chunk.position + 1,
                    transactions: chunk.transactions,
                    collected: chunk.collected + later,
                },
            ),
            Err(error) => ChunkStepView::Finished(
                Err(
                    if chunk.transactions.len() > 0 {
                        "Error fetching blocks from archive - "@
                    } else {
                        "Error fetching blocks from archive (2) - "@
                    } + error,
                ),
            ),
        },
{
}

/// With all archives collected a chunk ends: with what they gave, and behind it the ledger's own
/// transactions from the block after the last one.
pub proof fn law_chunk_ends(chunk: ChunkView)
    requires
        chunk.position == chunk.archives.len(),
    ensures
        chunk_next(chunk) == ChunkStepView::Finished(
            if chunk.transactions.len() == 0 {
                Outcome::Ok(chunk.collected)
            } else if chunk.collected.len() == 0 {
                Outcome::Err("Could not get last archive block downloaded"@)
            } else {
                let last = chunk.collected.last().block;
                let next = if last < u64::MAX {
                    (last + 1) as u64
                } else {
                    u64::MAX
                };
                match processed(chunk.transactions, next) {
                    Ok(later) => Outcome::Ok(chunk.collected + later),
                    Err(error) => Outcome::Err("Error processing ledger blocks: "@ + error),
                }
            },
        ),
{
}

/// The counterpart of a chunk's step says the same.
pub proof fn law_chunk_step_view(step: ChunkStep)
    ensures
        match step {
            ChunkStep::CallArchive { call, chunk } => step@ == (ChunkStepView::CallArchive {
                call: call@,
                chunk: chunk@,
            }),
            ChunkStep::Finished(result) => step@ == ChunkStepView::Finished(outcome_view(result)),
        },
{
}

} // verus!
