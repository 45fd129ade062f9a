//! Downloading new transactions, from the tip of the chain to the stored entries.
//!
//! [`t3_download_transactions`] gives the first step. Each step names a call to make; its reply
//! goes to the pending part of the step, which gives the next one, until a step is
//! [`DownloadStep::Trap`] or [`DownloadStep::Return`].

use crate::archive::{archive_outcome, ArchiveReplyView};
use crate::calls::{
    describe_rejection, plain_call, plain_call_view, rejection_text, CallRejection, CallView,
    CanisterCall, RejectionView,
};
use crate::chunk::{
    after_archive, after_ledger, archive_failure, chunk_next, chunk_outcome, chunk_run, contiguous,
    law_chunk_numbered, law_chunk_outcome, ledger_only, ledger_reply, ChunkDownload, ChunkStep,
    ChunkStepView, ChunkView, LedgerReplyView,
};
use crate::manager::{
    after_chunk, chunk_count, chunk_length, covered, download_manager, joined, law_complete_run,
    law_download_numbered, law_request_exact, law_run_begins, lemma_covered, manager_after,
    manager_init, manager_next, manager_run, max_loops, successes, DownloadLimits, DownloadManager, LimitsView, ManagerStep,
    ManagerStepView, ManagerView,
};
use crate::numbers::{nat_to_u64, too_large_for_u64, Nat};
use crate::process::{
    first_failure, law_processing_in_parts, operations, processed, records,
};
use crate::runtime::{RuntimeState, RuntimeView};
use crate::types::{
    outcome_view, GetTransactionsResponse, Outcome, ProcessedTX, ProcessedView, ResponseView,
    TransactionRange, TransactionView,
};
use crate::views::{result_view, views};
use vstd::prelude::*;

verus! {

/// A download that waits for the tip of the chain.
pub struct TipPending {
    pub ledger: String,
}

/// A download that waits for the ledger's reply to a request for blocks.
pub struct LedgerPending {
    pub start: u64,
    pub manager: DownloadManager,
}

/// A download that waits for an archive's reply.
pub struct ArchivePending {
    pub manager: DownloadManager,
    pub chunk: ChunkDownload,
}

/// What to do next for a download.
pub enum DownloadStep {
    /// Give up, undoing what the current message did.
    Trap(String),
    /// Make the call and hand its reply on.
    CallTip { call: CanisterCall, pending: TipPending },
    CallLedger { call: CanisterCall, pending: LedgerPending },
    CallArchive { call: CanisterCall, pending: ArchivePending },
    /// Answer with this result.
    Return(Result<Vec<ProcessedTX>, String>),
}

/// The mathematical counterpart of [`DownloadStep`].
pub enum DownloadStepView {
    Trap(Seq<char>),
    CallTip { call: CallView, ledger: Seq<char> },
    CallLedger { call: CallView, start: u64, manager: ManagerView },
    CallArchive { call: CallView, manager: ManagerView, chunk: ChunkView },
    Return(Outcome),
}

impl View for DownloadStep {
    type V = DownloadStepView;

    open spec fn view(&self) -> DownloadStepView {
        match *self {
            DownloadStep::Trap(message) => DownloadStepView::Trap(message@),
            DownloadStep::CallTip { call, pending } => DownloadStepView::CallTip {
                call: call@,
                ledger: pending.ledger@,
            },
            DownloadStep::CallLedger { call, pending } => DownloadStepView::CallLedger {
                call: call@,
                start: pending.start,
                manager: pending.manager@,
            },
            DownloadStep::CallArchive { call, pending } => DownloadStepView::CallArchive {
                call: call@,
                manager: pending.manager@,
                chunk: pending.chunk@,
            },
            DownloadStep::Return(result) => DownloadStepView::Return(outcome_view(result)),
        }
    }
}

/// A ledger's answer to the question for the tip of its chain, or its refusal.
pub type TipReplyView = Result<nat, RejectionView>;

/// The first step: refused until the target ledger is set, else the question for the tip.
pub open spec fn download_begin(runtime: RuntimeView) -> DownloadStepView {
    if runtime.target_ledger_locked {
        DownloadStepView::CallTip {
            call: plain_call_view(runtime.target_ledger, "get_total_tx"@),
            ledger: runtime.target_ledger,
        }
    } else {
        DownloadStepView::Trap("Target Ledger is not yet set!"@)
    }
}

/// The tip as a block number, or how the reply is reported.
pub open spec fn tip_outcome(reply: TipReplyView) -> Result<u64, Seq<char>> {
    match reply {
        Ok(tip) => if tip <= u64::MAX {
            Ok(tip as u64)
        } else {
            Err("Could not process tip of chain to u64: "@ + too_large_for_u64())
        },
        Err(rejection) => Err(
            "Error fetching tip of ledger chain "@ + rejection_text(
                "Tip of Chain Error - "@,
                rejection,
            ),
        ),
    }
}

/// A manager's step as a step of the download.
pub open spec fn from_manager(step: ManagerStepView) -> DownloadStepView {
    match step {
        ManagerStepView::FetchChunk { call, start, manager } => DownloadStepView::CallLedger {
            call,
            start,
            manager,
        },
        ManagerStepView::Overrun => DownloadStepView::Trap("attempt to subtract with overflow"@),
        ManagerStepView::Finished(outcome) => DownloadStepView::Return(outcome),
    }
}

/// A chunk's step as a step of the download.
pub open spec fn from_chunk(manager: ManagerView, step: ChunkStepView) -> DownloadStepView {
    match step {
        ChunkStepView::CallArchive { call, chunk } => DownloadStepView::CallArchive {
            call,
            manager,
            chunk,
        },
        ChunkStepView::Finished(outcome) => from_manager(after_chunk(manager, outcome)),
    }
}

/// The state and the step that follow the reply for the tip. The tip is remembered; a run starts
/// if it is past the next block, and else there is nothing to download.
pub open spec fn after_tip(
    runtime: RuntimeView,
    ledger: Seq<char>,
    limits: LimitsView,
    reply: TipReplyView,
) -> (RuntimeView, DownloadStepView) {
    match tip_outcome(reply) {
        Ok(tip) => if tip > runtime.next_block {
            (
                RuntimeView { ledger_tip_of_chain: tip, is_upto_date: false, ..runtime },
                from_manager(manager_next(manager_init(tip, runtime.next_block, ledger, limits))),
            )
        } else {
            (
                RuntimeView { ledger_tip_of_chain: tip, ..runtime },
                DownloadStepView::Return(Ok(Seq::empty())),
            )
        },
        Err(error) => (runtime, DownloadStepView::Return(Err(error))),
    }
}

/// Starts a download.
pub fn t3_download_transactions(runtime: &RuntimeState) -> (step: DownloadStep)
    ensures
        step@ == download_begin(runtime@),
        match step {
            DownloadStep::Trap(message) => !runtime.target_ledger_locked && message@
                == "Target Ledger is not yet set!"@,
            DownloadStep::CallTip { call, pending } => {
                &&& runtime.target_ledger_locked
                &&& pending.ledger@ == runtime.target_ledger@
                &&& call.canister@ == runtime.target_ledger@
                &&& call.method@ == "get_total_tx"@
                &&& call.blocks is None
            },
            _ => false,
        },
{
    if !runtime.target_ledger_locked {
        return DownloadStep::Trap("Target Ledger is not yet set!".to_owned());
    }
    let ledger: String = runtime.target_ledger.clone();
    let call: CanisterCall = plain_call(ledger.as_str(), "get_total_tx");
    DownloadStep::CallTip { call, pending: TipPending { ledger } }
}

/// Takes the ledger's reply to the question for the tip of its chain.
pub fn get_tip_of_chain_t3(reply: Result<Nat, CallRejection>) -> (result: Result<Nat, String>)
    ensures
        match (reply, result) {
            (Ok(tip), Ok(same)) => same == tip,
            (Err(rejection), Err(error)) => error@ == rejection_text(
                "Tip of Chain Error - "@,
                rejection@,
            ),
            _ => false,
        },
{
    match reply {
        Ok(tip) => Ok(tip),
        Err(rejection) => Err(describe_rejection("Tip of Chain Error - ", rejection)),
    }
}

/// Turns a manager's step into a step of the download.
fn manager_step(step: ManagerStep) -> (result: DownloadStep)
    ensures
        result@ == from_manager(step@),
{
    match step {
        ManagerStep::FetchChunk { call, start, manager } => DownloadStep::CallLedger {
            call,
            pending: LedgerPending { start, manager },
        },
        ManagerStep::Overrun => DownloadStep::Trap("attempt to subtract with overflow".to_owned()),
        ManagerStep::Finished(result) => DownloadStep::Return(result),
    }
}

/// Turns a chunk's step into a step of the download.
fn chunk_step(manager: DownloadManager, step: ChunkStep) -> (result: DownloadStep)
    ensures
        result@ == from_chunk(manager@, step@),
{
    match step {
        ChunkStep::CallArchive { call, chunk } => DownloadStep::CallArchive {
            call,
            pending: ArchivePending { manager, chunk },
        },
        ChunkStep::Finished(result) => manager_step(manager.chunk_done(result)),
    }
}

impl TipPending {
    /// Takes the reply for the tip of the chain.
    pub fn reply(
        self,
        runtime: &mut RuntimeState,
        limits: &DownloadLimits,
        reply: Result<Nat, CallRejection>,
    ) -> (step: DownloadStep)
        ensures
            (final(runtime)@, step@) == after_tip(
                old(runtime)@,
                self.ledger@,
                limits@,
                result_view(reply),
            ),
    {
        match get_tip_of_chain_t3(reply) {
            Ok(tip) => match nat_to_u64(tip) {
                Ok(chain_tip) => {
                    runtime.ledger_tip_of_chain = chain_tip;
                    let next_block_needed: u64 = runtime.next_block;
                    if chain_tip > next_block_needed {
                        runtime.is_upto_date = false;
                        manager_step(
                            download_manager(chain_tip, next_block_needed, self.ledger, limits),
                        )
                    } else {
                        let nothing: Vec<ProcessedTX> = Vec::new();
                        assert(views(nothing@) =~= Seq::<ProcessedView>::empty());
                        DownloadStep::Return(Ok(nothing))
                    }
                },
                Err(error) => DownloadStep::Return(
                    Err(
                        "Could not process tip of chain to u64: ".to_owned().concat(
                            error.as_str(),
                        ),
                    ),
                ),
            },
            Err(error) => DownloadStep::Return(
                Err("Error fetching tip of ledger chain ".to_owned().concat(error.as_str())),
            ),
        }
    }
}

impl LedgerPending {
    /// Takes the ledger's reply to the request for blocks.
    pub fn reply(self, reply: Result<GetTransactionsResponse, CallRejection>) -> (step:
        DownloadStep)
        ensures
            step@ == from_chunk(self.manager@, after_ledger(self.start, result_view(reply))),
    {
        chunk_step(self.manager, ledger_reply(self.start, reply))
    }
}

impl ArchivePending {
    /// Takes the archive's reply.
    pub fn reply(self, reply: Result<TransactionRange, CallRejection>) -> (step: DownloadStep)
        ensures
            step@ == from_chunk(self.manager@, after_archive(self.chunk@, result_view(reply))),
    {
        chunk_step(self.manager, self.chunk.archive_reply(reply))
    }
}

/// A reply that a running download waits for.
pub enum DownloadEvent {
    Ledger(LedgerReplyView),
    Archive(ArchiveReplyView),
}

/// The step that a download arrives at when it is at `step` and replies come in; a reply of the
/// wrong kind is not taken.
pub open spec fn download_run(
    step: DownloadStepView,
    events: Seq<DownloadEvent>,
) -> DownloadStepView
    decreases events.len(),
{
    if events.len() == 0 {
        step
    } else {
        match (step, events[0]) {
            (
                DownloadStepView::CallLedger { call, start, manager },
                DownloadEvent::Ledger(reply),
            ) => download_run(
                from_chunk(manager, after_ledger(start, reply)),
                events.drop_first(),
            ),
            (
                DownloadStepView::CallArchive { call, manager, chunk },
                DownloadEvent::Archive(reply),
            ) => download_run(
                from_chunk(manager, after_archive(chunk, reply)),
                events.drop_first(),
            ),
            _ => step,
        }
    }
}

/// Replies of archives as events.
pub open spec fn archive_events(replies: Seq<ArchiveReplyView>) -> Seq<DownloadEvent> {
    Seq::new(replies.len(), |i: int| DownloadEvent::Archive(replies[i]))
}

/// The events of one chunk: the ledger's response and the replies of the archives it names.
pub open spec fn chunk_events(
    response: ResponseView,
    replies: Seq<ArchiveReplyView>,
) -> Seq<DownloadEvent> {
    seq![DownloadEvent::Ledger(Ok(response))] + archive_events(replies)
}

/// A failed chunk ends the download at once.
proof fn lemma_failure_ends(manager: ManagerView, error: Seq<char>, events: Seq<DownloadEvent>)
    ensures
        download_run(from_manager(after_chunk(manager, Err(error))), events)
            == DownloadStepView::Return(Err("Error downloading blocks - "@ + error)),
{
}

/// The archives' part of a chunk, within a download.
proof fn lemma_archives_in_download(
    manager: ManagerView,
    chunk: ChunkView,
    replies: Seq<ArchiveReplyView>,
    rest: Seq<DownloadEvent>,
)
    requires
        0 <= chunk.position <= chunk.archives.len(),
        replies.len() == chunk.archives.len() - chunk.position,
    ensures
        chunk_run(chunk_next(chunk), replies) is Some,
        download_run(
            from_chunk(manager, chunk_next(chunk)),
            archive_events(replies) + rest,
        ) == download_run(
            from_manager(
                after_chunk(manager, chunk_run(chunk_next(chunk), replies)->0),
            ),
            rest,
        ),
    decreases replies.len(),
{
    let step = chunk_next(chunk);
    let events = archive_events(replies) + rest;
    match step {
        ChunkStepView::Finished(outcome) => {
            if chunk.position == chunk.archives.len() {
                assert(events =~= rest);
            } else {
                lemma_failure_ends(manager, outcome->Err_0, events);
                lemma_failure_ends(manager, outcome->Err_0, rest);
            }
        },
        ChunkStepView::CallArchive { call, chunk: same } => {
            assert(same == chunk);
            assert(events[0] == DownloadEvent::Archive(replies[0]));
            assert(events.drop_first() =~= archive_events(replies.drop_first()) + rest);
            match archive_outcome(
                chunk.archives[chunk.position].start as u64,
                replies[0],
            ) {
                Ok(later) => {
                    let after = ChunkView {
                        position: chunk.position + 1,
                        collected: chunk.collected + later,
                        ..chunk
                    };
                    lemma_archives_in_download(manager, after, replies.drop_first(), rest);
                },
                Err(error) => {
                    reveal_with_fuel(chunk_run, 2);
                    let reported = archive_failure(chunk.transactions, error);
                    lemma_failure_ends(manager, reported, events.drop_first());
                    lemma_failure_ends(manager, reported, rest);
                },
            }
        },
    }
}

/// Within a download, the replies to one chunk's requests have the effect of the chunk's outcome.
pub proof fn law_chunk_in_download(
    call: CallView,
    start: u64,
    manager: ManagerView,
    response: ResponseView,
    replies: Seq<ArchiveReplyView>,
    rest: Seq<DownloadEvent>,
)
    requires
        replies.len() == response.archived_transactions.len(),
    ensures
        download_run(
            DownloadStepView::CallLedger { call, start, manager },
            chunk_events(response, replies) + rest,
        ) == download_run(
            from_manager(after_chunk(manager, chunk_outcome(start, response, replies))),
            rest,
        ),
{
    let events = chunk_events(response, replies) + rest;
    assert(events[0] == DownloadEvent::Ledger(Ok(response)));
    assert(events.drop_first() =~= archive_events(replies) + rest);
    if response.archived_transactions.len() == 0 {
        assert(archive_events(replies) + rest =~= rest);
    } else {
        let chunk = ChunkView {
            archives: response.archived_transactions,
            position: 0,
            transactions: response.transactions,
            collected: Seq::empty(),
        };
        law_chunk_outcome(start, response, replies);
        lemma_archives_in_download(manager, chunk, replies, rest);
    }
}

/// The transactions of several responses, one after the other.
pub open spec fn all_transactions(responses: Seq<ResponseView>) -> Seq<TransactionView>
    decreases responses.len(),
{
    if responses.len() == 0 {
        Seq::empty()
    } else {
        all_transactions(responses.drop_last()) + responses.last().transactions
    }
}

/// Responses of a ledger as events.
pub open spec fn ledger_events(responses: Seq<ResponseView>) -> Seq<DownloadEvent> {
    Seq::new(responses.len(), |i: int| DownloadEvent::Ledger(Ok(responses[i])))
}

/// A download that has taken some responses, all their operations stored.
spec fn manager_at(init: ManagerView, responses: Seq<ResponseView>, count: int) -> ManagerView {
    ManagerView {
        done: count,
        downloaded: records(
            operations(all_transactions(responses.take(count))),
            init.next_block,
        ),
        ..init
    }
}

/// A response without archives, to a request that is not past the tip.
spec fn plain_response(init: ManagerView, responses: Seq<ResponseView>, index: int) -> bool {
    &&& responses[index].archived_transactions.len() == 0
    &&& init.next_block + operations(all_transactions(responses.take(index))).len() <= init.tip
}

/// The responses from `count` on finish the download.
#[verifier::spinoff_prover]
proof fn lemma_responses(init: ManagerView, responses: Seq<ResponseView>, count: int)
    requires
        0 <= count <= responses.len(),
        responses.len() == init.chunks,
        first_failure(operations(all_transactions(responses))) is None,
        forall|i: int| 0 <= i < responses.len() ==> #[trigger] plain_response(init, responses, i),
    ensures
        download_run(
            from_manager(manager_next(manager_at(init, responses, count))),
            ledger_events(responses).skip(count),
        ) == DownloadStepView::Return(processed(all_transactions(responses), init.next_block)),
    decreases responses.len() - count,
{
    let events = ledger_events(responses).skip(count);
    if count == responses.len() {
        assert(responses.take(count) =~= responses);
        assert(events.len() == 0);
    } else {
        assert(plain_response(init, responses, count));
        assert(events.drop_first() =~= ledger_events(responses).skip(count + 1));
        lemma_responses(init, responses, count + 1);
        lemma_response_event(init, responses, count, events);
    }
}

/// The event of one response, within a download.
#[verifier::spinoff_prover]
proof fn lemma_response_event(
    init: ManagerView,
    responses: Seq<ResponseView>,
    count: int,
    events: Seq<DownloadEvent>,
)
    requires
        0 <= count < responses.len(),
        count < init.chunks,
        first_failure(operations(all_transactions(responses))) is None,
        responses[count].archived_transactions.len() == 0,
        init.next_block + operations(all_transactions(responses.take(count))).len() <= init.tip,
        events.len() > 0,
        events[0] == DownloadEvent::Ledger(Ok(responses[count])),
    ensures
        download_run(from_manager(manager_next(manager_at(init, responses, count))), events)
            == download_run(
            from_manager(manager_next(manager_at(init, responses, count + 1))),
            events.drop_first(),
        ),
{
    let manager = manager_at(init, responses, count);
    let done = operations(all_transactions(responses.take(count)));
    let start = (init.next_block + done.len()) as u64;
    lemma_response_taken(init, responses, count);
    let now = manager_next(manager);
    assert(now is FetchChunk && now->FetchChunk_start == start && now->FetchChunk_manager
        == manager);
    assert(after_ledger(start, Ok(responses[count])) == ChunkStepView::Finished(
        ledger_only(responses[count].transactions, start),
    ));
}

/// One response whose operations can be stored advances the download.
proof fn lemma_response_taken(init: ManagerView, responses: Seq<ResponseView>, count: int)
    requires
        0 <= count < responses.len(),
        first_failure(operations(all_transactions(responses))) is None,
        init.next_block + operations(all_transactions(responses.take(count))).len() <= init.tip,
    ensures
        ({
            let done = operations(all_transactions(responses.take(count)));
            after_chunk(
                manager_at(init, responses, count),
                ledger_only(
                    responses[count].transactions,
                    (init.next_block + done.len()) as u64,
                ),
            ) == manager_next(manager_at(init, responses, count + 1))
        }),
{
    let done = all_transactions(responses.take(count));
    let now = responses[count].transactions;
    assert(responses.take(count + 1).drop_last() =~= responses.take(count));
    assert(all_transactions(responses.take(count + 1)) == done + now);
    lemma_prefix_storable(responses, count);
    lemma_prefix_storable(responses, count + 1);
    law_processing_in_parts(done, now, init.next_block);
}

/// The first responses of storable ones are storable.
proof fn lemma_prefix_storable(responses: Seq<ResponseView>, count: int)
    requires
        0 <= count <= responses.len(),
        first_failure(operations(all_transactions(responses))) is None,
    ensures
        first_failure(operations(all_transactions(responses.take(count)))) is None,
    decreases responses.len() - count,
{
    if count == responses.len() {
        assert(responses.take(count) =~= responses);
    } else {
        lemma_prefix_storable(responses, count + 1);
        assert(responses.take(count + 1).drop_last() =~= responses.take(count));
        let done = all_transactions(responses.take(count));
        law_processing_in_parts(done, responses[count].transactions, 0);
    }
}

/// A download from a ledger that names no archives returns the operations of all transactions
/// that it sent, in order and under consecutive block numbers from the next block on, if they
/// can all be stored and the ledger sends no more than there is up to the tip.
pub proof fn law_download_returns_all(
    tip: u64,
    next_block: u64,
    ledger: Seq<char>,
    limits: LimitsView,
    responses: Seq<ResponseView>,
)
    requires
        limits.batch > 0,
        responses.len() == chunk_count(tip, next_block, limits),
        first_failure(operations(all_transactions(responses))) is None,
        forall|i: int|
            0 <= i < responses.len() ==> (#[trigger] responses[i]).archived_transactions.len() == 0
                && next_block + operations(all_transactions(responses.take(i))).len() <= tip,
    ensures
        download_run(
            from_manager(manager_next(manager_init(tip, next_block, ledger, limits))),
            ledger_events(responses),
        ) == DownloadStepView::Return(
            Ok(records(operations(all_transactions(responses)), next_block)),
        ),
{
    let init = manager_init(tip, next_block, ledger, limits);
    assert(responses.take(0) =~= Seq::empty());
    assert(records(operations(all_transactions(responses.take(0))), next_block) =~= Seq::empty());
    assert(manager_at(init, responses, 0) == init);
    assert(ledger_events(responses).skip(0) =~= ledger_events(responses));
    assert forall|i: int| 0 <= i < responses.len() implies #[trigger] plain_response(
        init,
        responses,
        i,
    ) by {
        assert(responses[i].archived_transactions.len() == 0);
    }
    lemma_responses(init, responses, 0);
}

/// Until the target ledger is set, a download is refused; afterwards it asks the target ledger,
/// and no other canister, for the tip of its chain.
pub proof fn law_download_needs_target(runtime: RuntimeView)
    ensures
        !runtime.target_ledger_locked ==> download_begin(runtime) == DownloadStepView::Trap(
            "Target Ledger is not yet set!"@,
        ),
        runtime.target_ledger_locked ==> download_begin(runtime) is CallTip && download_begin(
            runtime,
        )->CallTip_call.canister == runtime.target_ledger,
{
}

/// A download with nothing new returns nothing and makes no further call.
pub proof fn law_nothing_to_download(
    runtime: RuntimeView,
    ledger: Seq<char>,
    limits: LimitsView,
    tip: u64,
)
    requires
        tip <= runtime.next_block,
    ensures
        after_tip(runtime, ledger, limits, Ok(tip as nat)) == (
            RuntimeView { ledger_tip_of_chain: tip, ..runtime },
            DownloadStepView::Return(Ok(Seq::empty())),
        ),
{
}

/// The replies to one chunk's requests.
pub struct ChunkReplies {
    pub response: ResponseView,
    pub archives: Seq<ArchiveReplyView>,
}

/// The replies to the requests of several chunks, as events in order.
pub open spec fn all_chunk_events(chunks: Seq<ChunkReplies>) -> Seq<DownloadEvent>
    decreases chunks.len(),
{
    if chunks.len() == 0 {
        Seq::empty()
    } else {
        chunk_events(chunks[0].response, chunks[0].archives) + all_chunk_events(
            chunks.drop_first(),
        )
    }
}

/// The step that a run arrives at when each chunk that it asks for gives the outcome of its
/// replies.
pub open spec fn replied_run(step: ManagerStepView, chunks: Seq<ChunkReplies>) -> ManagerStepView
    decreases chunks.len(),
{
    match step {
        ManagerStepView::FetchChunk { call, start, manager } => if chunks.len() == 0 {
            step
        } else {
            let outcome = chunk_outcome(start, chunks[0].response, chunks[0].archives);
            replied_run(after_chunk(manager, outcome), chunks.drop_first())
        },
        _ => step,
    }
}

/// A download is a run of chunks: driven with all replies to its calls, of the ledger and of the
/// archives, it arrives where the run arrives that is given the chunks' outcomes.
pub proof fn law_download_follows_run(step: ManagerStepView, chunks: Seq<ChunkReplies>)
    requires
        forall|i: int|
            0 <= i < chunks.len() ==> (#[trigger] chunks[i]).archives.len()
                == chunks[i].response.archived_transactions.len(),
    ensures
        download_run(from_manager(step), all_chunk_events(chunks)) == from_manager(
            replied_run(step, chunks),
        ),
    decreases chunks.len(),
{
    if chunks.len() > 0 {
        let rest = chunks.drop_first();
        assert forall|i: int| 0 <= i < rest.len() implies (#[trigger] rest[i]).archives.len()
            == rest[i].response.archived_transactions.len() by {
            assert(rest[i] == chunks[i + 1]);
        }
        match step {
            ManagerStepView::FetchChunk { call, start, manager } => {
                let first = chunks[0];
                law_chunk_in_download(
                    call,
                    start,
                    manager,
                    first.response,
                    first.archives,
                    all_chunk_events(rest),
                );
                let outcome = chunk_outcome(start, first.response, first.archives);
                law_download_follows_run(after_chunk(manager, outcome), rest);
            },
            _ => {},
        }
    }
}

/// The outcomes of the chunks that a run takes, for their replies.
pub open spec fn replied_outcomes(step: ManagerStepView, chunks: Seq<ChunkReplies>) -> Seq<Outcome>
    decreases chunks.len(),
{
    match step {
        ManagerStepView::FetchChunk { call, start, manager } => if chunks.len() == 0 {
            Seq::empty()
        } else {
            let outcome = chunk_outcome(start, chunks[0].response, chunks[0].archives);
            seq![outcome] + replied_outcomes(after_chunk(manager, outcome), chunks.drop_first())
        },
        _ => Seq::empty(),
    }
}

/// A run that is given replies arrives where the run arrives that is given the outcomes of those
/// chunks.
pub proof fn law_replied_run_is_run(step: ManagerStepView, chunks: Seq<ChunkReplies>)
    ensures
        replied_run(step, chunks) == manager_run(step, replied_outcomes(step, chunks)),
    decreases chunks.len(),
{
    match step {
        ManagerStepView::FetchChunk { call, start, manager } => if chunks.len() > 0 {
            let outcome = chunk_outcome(start, chunks[0].response, chunks[0].archives);
            let next = after_chunk(manager, outcome);
            law_replied_run_is_run(next, chunks.drop_first());
            assert(replied_outcomes(step, chunks).drop_first() =~= replied_outcomes(
                next,
                chunks.drop_first(),
            ));
        },
        _ => {},
    }
}

/// The first block of a chunk, when the chunks before it gave what was asked for.
pub open spec fn asked_start(tip: u64, next_block: u64, batch: nat, index: int) -> u64 {
    (next_block + covered(tip, next_block, batch, index)) as u64
}

/// What a chunk gives, for its replies, when the chunks before it gave what was asked for.
pub open spec fn asked_outcome(
    tip: u64,
    next_block: u64,
    batch: nat,
    chunks: Seq<ChunkReplies>,
    index: int,
) -> Outcome {
    chunk_outcome(
        asked_start(tip, next_block, batch, index),
        chunks[index].response,
        chunks[index].archives,
    )
}

/// The replies to a chunk's requests are what was asked for: one for each archived range, the
/// ranges following one another from the first block on, and as many entries as the chunk has
/// blocks.
pub open spec fn gives_what_was_asked(
    tip: u64,
    next_block: u64,
    batch: nat,
    chunks: Seq<ChunkReplies>,
    index: int,
) -> bool {
    let start = asked_start(tip, next_block, batch, index);
    let replies = chunks[index];
    let outcome = asked_outcome(tip, next_block, batch, chunks, index);
    &&& replies.archives.len() == replies.response.archived_transactions.len()
    &&& contiguous(start, replies.response.archived_transactions, replies.archives)
    &&& outcome is Ok
    &&& outcome->Ok_0.len() == chunk_length(tip, start as int, batch)
}

/// The entries of chunks that give what was asked for.
pub open spec fn asked_entries(
    tip: u64,
    next_block: u64,
    batch: nat,
    chunks: Seq<ChunkReplies>,
) -> Seq<Seq<ProcessedView>> {
    Seq::new(
        chunks.len(),
        |i: int| asked_outcome(tip, next_block, batch, chunks, i)->Ok_0,
    )
}

/// The number of blocks covered before a chunk is within the run.
proof fn lemma_asked_start(tip: u64, next_block: u64, batch: nat, index: int)
    requires
        next_block <= tip,
        0 <= index,
    ensures
        0 <= covered(tip, next_block, batch, index) <= tip - next_block,
        asked_start(tip, next_block, batch, index) == next_block + covered(
            tip,
            next_block,
            batch,
            index,
        ),
{
    let b = batch as int;
    assert(index * b >= 0) by (nonlinear_arith)
        requires
            index >= 0,
            b >= 0,
    ;
}

/// Chunks that give what was asked for have these entries as their outcomes.
proof fn lemma_asked_outcomes(init: ManagerView, chunks: Seq<ChunkReplies>, count: int)
    requires
        init.next_block <= init.tip,
        0 <= count <= chunks.len(),
        chunks.len() == init.chunks,
        forall|i: int|
            0 <= i < chunks.len() ==> #[trigger] gives_what_was_asked(
                init.tip,
                init.next_block,
                init.batch,
                chunks,
                i,
            ),
    ensures
        ({
            let entries = asked_entries(init.tip, init.next_block, init.batch, chunks);
            replied_outcomes(
                manager_next(manager_after(init, entries, count)),
                chunks.skip(count),
            ) == successes(entries).skip(count)
        }),
    decreases chunks.len() - count,
{
    let (tip, next_block, batch) = (init.tip, init.next_block, init.batch);
    let entries = asked_entries(tip, next_block, batch, chunks);
    let manager = manager_after(init, entries, count);
    if count == chunks.len() {
        assert(successes(entries).skip(count) =~= Seq::empty());
    } else {
        lemma_entries_covered(tip, next_block, batch, chunks, count);
        lemma_asked_start(tip, next_block, batch, count);
        lemma_asked_outcomes(init, chunks, count + 1);
        assert(gives_what_was_asked(tip, next_block, batch, chunks, count));
        let outcome = asked_outcome(tip, next_block, batch, chunks, count);
        assert(chunks.skip(count)[0] == chunks[count]);
        assert(chunks.skip(count).drop_first() =~= chunks.skip(count + 1));
        assert(outcome == Outcome::Ok(entries[count]));
        lemma_entries_taken(init, entries, count);
        let now = manager_next(manager);
        assert(now->FetchChunk_start == asked_start(tip, next_block, batch, count));
        assert(successes(entries).skip(count) =~= seq![outcome] + successes(entries).skip(
            count + 1,
        ));
    }
}

/// The entries of one chunk take a run one chunk further.
#[verifier::spinoff_prover]
proof fn lemma_entries_taken(init: ManagerView, entries: Seq<Seq<ProcessedView>>, count: int)
    requires
        0 <= count < entries.len(),
        count < init.chunks,
        init.next_block + joined(entries.take(count)).len() <= init.tip,
    ensures
        ({
            let now = manager_next(manager_after(init, entries, count));
            &&& now is FetchChunk
            &&& now->FetchChunk_start == init.next_block + joined(entries.take(count)).len()
            &&& now->FetchChunk_manager == manager_after(init, entries, count)
        }),
        after_chunk(manager_after(init, entries, count), Ok(entries[count])) == manager_next(
            manager_after(init, entries, count + 1),
        ),
{
    assert(entries.take(count + 1).drop_last() =~= entries.take(count));
    assert(entries.take(count + 1).last() == entries[count]);
}

/// The entries of the first chunks are as many as the blocks they cover.
proof fn lemma_entries_covered(
    tip: u64,
    next_block: u64,
    batch: nat,
    chunks: Seq<ChunkReplies>,
    count: int,
)
    requires
        next_block <= tip,
        0 <= count <= chunks.len(),
        forall|i: int|
            0 <= i < chunks.len() ==> #[trigger] gives_what_was_asked(
                tip,
                next_block,
                batch,
                chunks,
                i,
            ),
    ensures
        ({
            let entries = asked_entries(tip, next_block, batch, chunks);
            &&& joined(entries.take(count)).len() == covered(tip, next_block, batch, count)
            &&& forall|i: int|
                0 <= i < entries.len() ==> (#[trigger] entries[i]).len() == chunk_length(
                    tip,
                    next_block + covered(tip, next_block, batch, i),
                    batch,
                )
        }),
{
    let entries = asked_entries(tip, next_block, batch, chunks);
    assert forall|i: int| 0 <= i < entries.len() implies (#[trigger] entries[i]).len()
        == chunk_length(tip, next_block + covered(tip, next_block, batch, i), batch) by {
        assert(gives_what_was_asked(tip, next_block, batch, chunks, i));
        lemma_asked_start(tip, next_block, batch, i);
    }
    lemma_covered(tip, next_block, batch, entries, count);
}

/// A download whose replies, of the ledger and of the archives, give what was asked for returns
/// all blocks up to the tip, or as many as the limits allow: the chunks' entries in order, under
/// consecutive block numbers from the next block on.
pub proof fn law_complete_download(
    runtime: RuntimeView,
    ledger: Seq<char>,
    limits: LimitsView,
    tip: u64,
    chunks: Seq<ChunkReplies>,
)
    requires
        limits.batch > 0,
        tip > runtime.next_block,
        chunks.len() == chunk_count(tip, runtime.next_block, limits),
        forall|i: int|
            0 <= i < chunks.len() ==> #[trigger] gives_what_was_asked(
                tip,
                runtime.next_block,
                limits.batch,
                chunks,
                i,
            ),
    ensures
        ({
            let next_block = runtime.next_block;
            let entries = joined(asked_entries(tip, next_block, limits.batch, chunks));
            &&& download_run(
                after_tip(runtime, ledger, limits, Ok(tip as nat)).1,
                all_chunk_events(chunks),
            ) == DownloadStepView::Return(Ok(entries))
            &&& entries.len() == covered(tip, next_block, limits.batch, max_loops(limits))
            &&& forall|j: int|
                0 <= j < entries.len() ==> (#[trigger] entries[j]).block == next_block + j
        }),
{
    let next_block = runtime.next_block;
    let batch = limits.batch;
    let init = manager_init(tip, next_block, ledger, limits);
    let lists = asked_entries(tip, next_block, batch, chunks);
    let entries = joined(lists);
    lemma_entries_covered(tip, next_block, batch, chunks, 0);
    law_complete_run(tip, next_block, ledger, limits, lists);

    assert(lists.take(0) =~= Seq::empty());
    assert(manager_after(init, lists, 0) == init);
    assert(chunks.skip(0) =~= chunks);
    assert(successes(lists).skip(0) =~= successes(lists));
    lemma_asked_outcomes(init, chunks, 0);
    law_replied_run_is_run(manager_next(init), chunks);
    assert forall|i: int| 0 <= i < chunks.len() implies (#[trigger] chunks[i]).archives.len()
        == chunks[i].response.archived_transactions.len() by {
        assert(gives_what_was_asked(tip, next_block, batch, chunks, i));
    }
    law_download_follows_run(manager_next(init), chunks);

    assert forall|i: int, j: int| 0 <= i < lists.len() && 0 <= j < lists[i].len() implies (
    #[trigger] lists[i][j]).block == next_block + joined(lists.take(i)).len() + j by {
        assert(gives_what_was_asked(tip, next_block, batch, chunks, i));
        lemma_entries_covered(tip, next_block, batch, chunks, i);
        lemma_asked_start(tip, next_block, batch, i);
        law_chunk_numbered(
            asked_start(tip, next_block, batch, i),
            chunks[i].response,
            chunks[i].archives,
            j,
        );
    }
    assert forall|j: int| 0 <= j < entries.len() implies (#[trigger] entries[j]).block
        == next_block + j by {
        law_download_numbered(next_block, lists, j);
    }
}

/// A download that is not refused asks the target ledger, for its number of transactions and for
/// no blocks, and goes on with that ledger.
pub proof fn law_download_first_step(runtime: RuntimeView)
    ensures
        match download_begin(runtime) {
            DownloadStepView::Trap(message) => !runtime.target_ledger_locked && message
                == "Target Ledger is not yet set!"@,
            DownloadStepView::CallTip { call, ledger } => {
                &&& runtime.target_ledger_locked
                &&& call.canister == runtime.target_ledger
                &&& call.method == "get_total_tx"@
                &&& call.blocks is None
                &&& ledger == runtime.target_ledger
            },
            _ => false,
        },
{
}

/// The tip is noted as the ledger told it. Past the next block it starts a run: the state is no
/// longer up to date, and, where the limits allow any block, the ledger is asked for the blocks
/// from the next one on. Nothing else in the state changes.
pub proof fn law_tip_noted(
    runtime: RuntimeView,
    ledger: Seq<char>,
    limits: LimitsView,
    tip: nat,
)
    requires
        tip <= u64::MAX,
        limits.batch > 0,
    ensures
        ({
            let (state, step) = after_tip(runtime, ledger, limits, Ok(tip));
            &&& state.ledger_tip_of_chain as int == tip
            &&& state.is_upto_date == (runtime.is_upto_date && tip <= runtime.next_block)
            &&& state == RuntimeView {
                ledger_tip_of_chain: state.ledger_tip_of_chain,
                is_upto_date: state.is_upto_date,
                ..runtime
            }
            &&& match step {
                DownloadStepView::CallLedger { call, start, manager } => {
                    &&& tip > runtime.next_block
                    &&& limits.total > 0
                    &&& start == runtime.next_block
                    &&& call.canister == ledger
                    &&& call.method == "get_transactions"@
                    &&& call.blocks is Some
                    &&& call.blocks->0.start == runtime.next_block
                    &&& call.blocks->0.length == if tip - runtime.next_block < limits.batch {
                        tip - runtime.next_block
                    } else {
                        limits.batch as int
                    }
                },
                DownloadStepView::Return(outcome) => outcome == Outcome::Ok(Seq::empty()) && (tip
                    <= runtime.next_block || limits.total == 0),
                _ => false,
            }
        }),
{
    law_run_begins(tip as u64, runtime.next_block, ledger, limits);
}

/// A tip that cannot be had, or is no block number, ends the download with the reason and leaves
/// the state as it was.
pub proof fn law_tip_failure(
    runtime: RuntimeView,
    ledger: Seq<char>,
    limits: LimitsView,
    tip: nat,
    rejection: RejectionView,
)
    requires
        tip > u64::MAX,
    ensures
        after_tip(runtime, ledger, limits, Ok(tip)) == (
            runtime,
            DownloadStepView::Return(
                Err("Could not process tip of chain to u64: "@ + "Nat does not fit in u64"@),
            ),
        ),
        after_tip(runtime, ledger, limits, Err(rejection)) == (
            runtime,
            DownloadStepView::Return(
                Err(
                    "Error fetching tip of ledger chain "@ + ("Tip of Chain Error - "@
                        + rejection.code.name() + ". "@ + rejection.message),
                ),
            ),
        ),
{
}

/// A refusal of the ledger, at whatever chunk, ends the download with its code and message.
pub proof fn law_ledger_refusal_returned(
    manager: ManagerView,
    start: u64,
    rejection: RejectionView,
)
    ensures
        from_chunk(manager, after_ledger(start, Err(rejection))) == DownloadStepView::Return(
            Err(
                "Error downloading blocks - "@ + (
                "Error fetching blocks from ledger (get_transactions) - "@ + rejection.code.name()
                    + ". "@ + rejection.message),
            ),
        ),
{
}

/// A refusal of an archive, at whatever chunk, ends the download with its code and message.
pub proof fn law_archive_refusal_returned(
    manager: ManagerView,
    chunk: ChunkView,
    rejection: RejectionView,
)
    ensures
        from_chunk(manager, after_archive(chunk, Err(rejection))) == DownloadStepView::Return(
            Err(
                "Error downloading blocks - "@ + (if chunk.transactions.len() > 0 {
                    "Error fetching blocks from archive - "@
                } else {
                    "Error fetching blocks from archive (2) - "@
                } + ("Error fetching archive blocks (2) - "@ + rejection.code.name() + ". "@
                    + rejection.message)),
            ),
        ),
{
}

/// A chunk's call to an archive is the download's call, with the run kept as it is.
pub proof fn law_archive_call_passed_on(manager: ManagerView, call: CallView, chunk: ChunkView)
    ensures
        from_chunk(manager, ChunkStepView::CallArchive { call, chunk })
            == (DownloadStepView::CallArchive { call, manager, chunk }),
{
}

/// After a chunk that succeeded, the download keeps its entries behind those before. It asks the
/// same ledger for the blocks that follow, is complete when no chunks are left, and gives up where
/// it is past the tip.
pub proof fn law_chunk_taken(manager: ManagerView, entries: Seq<ProcessedView>)
    requires
        0 <= manager.done < manager.chunks,
    ensures
        ({
            let all = manager.downloaded + entries;
            let start = manager.next_block + all.len();
            match from_chunk(manager, ChunkStepView::Finished(Ok(entries))) {
                DownloadStepView::CallLedger { call, start: first, manager: next } => {
                    &&& manager.done + 1 < manager.chunks
                    &&& start <= manager.tip
                    &&& first == start
                    &&& next == ManagerView { done: manager.done + 1, downloaded: all, ..manager }
                    &&& call.canister == manager.ledger
                    &&& call.method == "get_transactions"@
                    &&& call.blocks is Some
                    &&& call.blocks->0.start == start
                    &&& call.blocks->0.length == if manager.tip - start < manager.batch {
                        manager.tip - start
                    } else {
                        manager.batch as int
                    }
                },
                DownloadStepView::Trap(message) => manager.done + 1 < manager.chunks && start
                    > manager.tip && message == "attempt to subtract with overflow"@,
                DownloadStepView::Return(outcome) => manager.done + 1 >= manager.chunks && outcome
                    == Outcome::Ok(all),
                _ => false,
            }
        }),
{
    let all = manager.downloaded + entries;
    law_request_exact(ManagerView { done: manager.done + 1, downloaded: all, ..manager });
}

/// One more chunk's replies take a run one step further.
pub proof fn lemma_replied_snoc(
    step: ManagerStepView,
    chunks: Seq<ChunkReplies>,
    replies: ChunkReplies,
)
    ensures
        replied_run(step, chunks.push(replies)) == match replied_run(step, chunks) {
            ManagerStepView::FetchChunk { call, start, manager } => after_chunk(
                manager,
                chunk_outcome(start, replies.response, replies.archives),
            ),
            end => end,
        },
    decreases chunks.len(),
{
    reveal_with_fuel(replied_run, 2);
    match step {
        ManagerStepView::FetchChunk { call, start, manager } => {
            if chunks.len() > 0 {
                let outcome = chunk_outcome(start, chunks[0].response, chunks[0].archives);
                lemma_replied_snoc(after_chunk(manager, outcome), chunks.drop_first(), replies);
                assert(chunks.push(replies).drop_first() =~= chunks.drop_first().push(replies));
            }
        },
        _ => {},
    }
}

/// A run that has ended takes no more replies.
pub proof fn lemma_replied_ended(step: ManagerStepView, chunks: Seq<ChunkReplies>, count: int)
    requires
        0 <= count <= chunks.len(),
        !(replied_run(step, chunks.take(count)) is FetchChunk),
    ensures
        replied_run(step, chunks) == replied_run(step, chunks.take(count)),
    decreases chunks.len(),
{
    if count == chunks.len() {
        assert(chunks.take(count) =~= chunks);
    } else {
        assert(chunks.drop_last().take(count) =~= chunks.take(count));
        lemma_replied_ended(step, chunks.drop_last(), count);
        lemma_replied_snoc(step, chunks.drop_last(), chunks.last());
        assert(chunks.drop_last().push(chunks.last()) =~= chunks);
    }
}

/// The counterpart of a download's step says the same.
pub proof fn law_download_step_view(step: DownloadStep)
    ensures
        match step {
            DownloadStep::Trap(message) => step@ == DownloadStepView::Trap(message@),
            DownloadStep::CallTip { call, pending } => step@ == (DownloadStepView::CallTip {
                call: call@,
                ledger: pending.ledger@,
            }),
            DownloadStep::CallLedger { call, pending } => step@ == (DownloadStepView::CallLedger {
                call: call@,
                start: pending.start,
                manager: pending.manager@,
            }),
            DownloadStep::CallArchive { call, pending } => step@ == (
            DownloadStepView::CallArchive {
                call: call@,
                manager: pending.manager@,
                chunk: pending.chunk@,
            }),
            DownloadStep::Return(result) => step@ == DownloadStepView::Return(
                outcome_view(result),
            ),
        },
{
}

} // verus!
