//! What a download gives of a chain of blocks, from the first step to the answer.

use crate::calls::CallView;
use crate::chunk::{chunk_outcome, law_chunk_contents, law_chunk_outcome, replies_of};
use crate::download::{
    after_tip, all_chunk_events, download_begin, download_run, from_manager,
    law_download_follows_run, lemma_replied_ended, lemma_replied_snoc, replied_run, ChunkReplies,
    DownloadStepView,
};
use crate::manager::{
    after_chunk, chunk_count, covered, law_request_exact, lemma_covered_amount, manager_init,
    manager_next, LimitsView, ManagerView,
};
use crate::process::{
    carries_burn, carries_mint, carries_transfer, law_nothing_processed, law_operations_in_order,
    law_processing_in_parts, law_transaction_appended, numbered, operations, processed,
};
use crate::runtime::RuntimeView;
use crate::types::{ProcessedView, ResponseView, TransactionView};
use vstd::prelude::*;

verus! {

/// A transaction that is one block: it holds exactly one operation, whose amount and fee fit in
/// 128 bits.
pub open spec fn is_block(tx: TransactionView) -> bool {
    match (tx.mint, tx.burn, tx.transfer) {
        (Some(mint), None, None) => mint.amount <= u128::MAX,
        (None, Some(burn), None) => burn.amount <= u128::MAX,
        (None, None, Some(transfer)) => transfer.amount <= u128::MAX && (transfer.fee is Some
            ==> transfer.fee->0 <= u128::MAX),
        _ => false,
    }
}

/// The transactions of a chain, each one block.
pub open spec fn is_chain(txs: Seq<TransactionView>) -> bool {
    forall|i: int| 0 <= i < txs.len() ==> is_block(#[trigger] txs[i])
}

/// The entry holds the data of the block, whichever operation that is.
pub open spec fn carries_block(entry: ProcessedView, tx: TransactionView) -> bool {
    &&& tx.mint is Some ==> carries_mint(entry, tx.mint->0, tx.timestamp)
    &&& tx.burn is Some ==> carries_burn(entry, tx.burn->0, tx.timestamp)
    &&& tx.transfer is Some ==> carries_transfer(entry, tx.transfer->0, tx.timestamp)
}

/// Blocks are all stored, each as one entry with its data, under consecutive numbers.
pub proof fn law_blocks_stored(txs: Seq<TransactionView>, first: u64)
    requires
        is_chain(txs),
    ensures
        processed(txs, first) is Ok,
        processed(txs, first)->Ok_0.len() == txs.len(),
        operations(txs).len() == txs.len(),
        forall|i: int|
            0 <= i < txs.len() ==> carries_block(
                #[trigger] processed(txs, first)->Ok_0[i],
                txs[i],
            ) && numbered(processed(txs, first)->Ok_0[i], first, i),
    decreases txs.len(),
{
    if txs.len() == 0 {
        assert(txs =~= Seq::empty());
        law_nothing_processed(first);
    } else {
        let front = txs.drop_last();
        let tx = txs.last();
        assert forall|i: int| 0 <= i < front.len() implies is_block(#[trigger] front[i]) by {
            assert(front[i] == txs[i]);
        }
        law_blocks_stored(front, first);
        assert(is_block(txs[txs.len() - 1]));
        assert(front.push(tx) =~= txs);
        law_transaction_appended(front, tx, first);
        law_operations_in_order(front, tx);
        let all = processed(txs, first)->Ok_0;
        let earlier = processed(front, first)->Ok_0;
        assert forall|i: int| 0 <= i < txs.len() implies carries_block(
            #[trigger] all[i],
            txs[i],
        ) && numbered(all[i], first, i) by {
            if i < front.len() {
                assert(all.take(earlier.len() as int)[i] == earlier[i]);
                assert(front[i] == txs[i]);
                assert(carries_block(processed(front, first)->Ok_0[i], front[i]));
            }
        }
    }
}

/// What is sent for one chunk: the ledger's response, and the transactions of each archive that
/// it names.
pub struct ChunkAnswer {
    pub response: ResponseView,
    pub sent: Seq<Seq<TransactionView>>,
}

/// The answer as replies to calls.
pub open spec fn as_replies(answer: ChunkAnswer) -> ChunkReplies {
    ChunkReplies { response: answer.response, archives: replies_of(answer.sent) }
}

/// The answers as replies to calls, in order.
pub open spec fn all_replies(answers: Seq<ChunkAnswer>) -> Seq<ChunkReplies> {
    Seq::new(answers.len(), |i: int| as_replies(answers[i]))
}

/// The answer to a request gives exactly the blocks of the chain that were asked for: the archived
/// ranges follow one another from the first of these blocks on, and the ledger sends the rest.
pub open spec fn gives_blocks(
    call: CallView,
    chain: Seq<TransactionView>,
    answer: ChunkAnswer,
) -> bool {
    let start = call.blocks->0.start as int;
    let end = start + call.blocks->0.length;
    &&& forall|i: int|
        0 <= i < answer.sent.len() ==> (#[trigger] answer.response.archived_transactions[i]).start
            == start + answer.sent.take(i).flatten().len()
    &&& answer.sent.flatten() + answer.response.transactions == chain.subrange(start, end)
    &&& answer.sent.len() > 0 && answer.response.transactions.len() > 0
        ==> answer.sent.flatten().len() > 0
}

/// Each answer gives the blocks that the download asks for at that point.
pub open spec fn gives_asked_blocks(
    step: DownloadStepView,
    chain: Seq<TransactionView>,
    answers: Seq<ChunkAnswer>,
) -> bool {
    forall|i: int|
        0 <= i < answers.len() ==> match download_run(
            step,
            all_chunk_events(all_replies(#[trigger] answers.take(i))),
        ) {
            DownloadStepView::CallLedger { call, start, manager } => gives_blocks(
                call,
                chain,
                answers[i],
            ),
            _ => true,
        }
}

/// A chunk of blocks gives what processing these blocks at once gives.
proof fn lemma_chunk_of_blocks(
    call: CallView,
    chain: Seq<TransactionView>,
    answer: ChunkAnswer,
    start: u64,
)
    requires
        is_chain(chain),
        call.blocks is Some,
        call.blocks->0.start == start,
        start + call.blocks->0.length <= chain.len(),
        start + call.blocks->0.length <= u64::MAX,
        answer.sent.len() == answer.response.archived_transactions.len(),
        gives_blocks(call, chain, answer),
    ensures
        chunk_outcome(start, answer.response, replies_of(answer.sent)) == processed(
            chain.subrange(start as int, start + call.blocks->0.length),
            start,
        ),
{
    let sent = answer.sent;
    let archived = sent.flatten();
    let all = chain.subrange(start as int, start + call.blocks->0.length);
    assert(archived + answer.response.transactions == all);
    assert(is_chain(all));
    law_blocks_stored(all, start);
    assert forall|i: int| 0 <= i < archived.len() implies is_block(#[trigger] archived[i]) by {
        assert(archived[i] == all[i]);
    }
    law_blocks_stored(archived, start);
    assert forall|i: int| 0 <= i < sent.len() implies (
    #[trigger] answer.response.archived_transactions[i]).start == start + operations(
        sent.take(i).flatten(),
    ).len() && answer.response.archived_transactions[i].start <= u64::MAX by {
        let before = sent.take(i).flatten();
        vstd::seq_lib::lemma_flatten_concat(sent.take(i), sent.skip(i));
        assert(sent.take(i) + sent.skip(i) =~= sent);
        assert forall|j: int| 0 <= j < before.len() implies is_block(#[trigger] before[j]) by {
            assert(before[j] == archived[j]);
        }
        law_blocks_stored(before, start);
        assert(before.len() <= all.len());
    }
    law_chunk_contents(start, answer.response, sent);
    law_chunk_outcome(start, answer.response, replies_of(sent));
}

/// The run after some chunks of blocks.
spec fn manager_of_blocks(
    init: ManagerView,
    chain: Seq<TransactionView>,
    count: int,
) -> ManagerView {
    let next = init.next_block as int;
    let end = next + covered(init.tip, init.next_block, init.batch, count);
    ManagerView {
        done: count,
        downloaded: processed(chain.subrange(next, end), init.next_block)->Ok_0,
        ..init
    }
}

/// Chunks of blocks advance a run through the chain.
proof fn lemma_run_of_blocks(
    init: ManagerView,
    chain: Seq<TransactionView>,
    answers: Seq<ChunkAnswer>,
    count: int,
)
    requires
        is_chain(chain),
        init.done == 0,
        init.downloaded.len() == 0,
        init.next_block <= init.tip <= chain.len(),
        0 <= count <= answers.len(),
        count <= init.chunks,
        forall|i: int|
            0 <= i < answers.len() ==> (#[trigger] answers[i]).sent.len()
                == answers[i].response.archived_transactions.len(),
        gives_asked_blocks(from_manager(manager_next(init)), chain, answers),
    ensures
        replied_run(manager_next(init), all_replies(answers.take(count))) == manager_next(
            manager_of_blocks(init, chain, count),
        ),
    decreases count,
{
    let step = manager_next(init);
    let b = init.batch as int;
    let next = init.next_block as int;
    if count == 0 {
        assert(all_replies(answers.take(0)) =~= Seq::empty());
        assert(0 * b == 0) by (nonlinear_arith);
        assert(chain.subrange(next, next) =~= Seq::empty());
        law_nothing_processed(init.next_block);
        assert(init.downloaded =~= Seq::empty());
        assert(manager_of_blocks(init, chain, 0) == init);
    } else {
        let last = count - 1;
        lemma_run_of_blocks(init, chain, answers, last);
        assert(last * b >= 0) by (nonlinear_arith)
            requires
                last >= 0,
                b >= 0,
        ;
        let manager = manager_of_blocks(init, chain, last);
        let now = manager_next(manager);
        let have = covered(init.tip, init.next_block, init.batch, last);
        assert(is_chain(chain.subrange(next, next + have)));
        law_blocks_stored(chain.subrange(next, next + have), init.next_block);
        assert(now is FetchChunk);
        let before = answers.take(last);
        assert forall|i: int| 0 <= i < all_replies(before).len() implies (
        #[trigger] all_replies(before)[i]).archives.len() == all_replies(
            before,
        )[i].response.archived_transactions.len() by {
            assert(before[i] == answers[i]);
        }
        law_download_follows_run(step, all_replies(before));
        assert(gives_blocks(now->FetchChunk_call, chain, answers[last]));
        assert(answers[last].sent.len() == answers[last].response.archived_transactions.len());
        lemma_answer_taken(init, chain, answers[last], last);
        lemma_replied_snoc(step, all_replies(before), as_replies(answers[last]));
        assert(all_replies(before).push(as_replies(answers[last])) =~= all_replies(
            answers.take(count),
        ));
    }
}

/// An answer that gives the blocks asked for takes a run one chunk further through the chain.
proof fn lemma_answer_taken(
    init: ManagerView,
    chain: Seq<TransactionView>,
    answer: ChunkAnswer,
    count: int,
)
    requires
        is_chain(chain),
        init.next_block <= init.tip <= chain.len(),
        0 <= count < init.chunks,
        answer.sent.len() == answer.response.archived_transactions.len(),
        manager_next(manager_of_blocks(init, chain, count)) is FetchChunk,
        gives_blocks(
            manager_next(manager_of_blocks(init, chain, count))->FetchChunk_call,
            chain,
            answer,
        ),
    ensures
        after_chunk(
            manager_of_blocks(init, chain, count),
            chunk_outcome(
                manager_next(manager_of_blocks(init, chain, count))->FetchChunk_start,
                answer.response,
                replies_of(answer.sent),
            ),
        ) == manager_next(manager_of_blocks(init, chain, count + 1)),
{
    let b = init.batch as int;
    let next = init.next_block as int;
    assert(count * b >= 0) by (nonlinear_arith)
        requires
            count >= 0,
            b >= 0,
    ;
    assert((count + 1) * b == count * b + b) by (nonlinear_arith);
    let have = covered(init.tip, init.next_block, init.batch, count);
    let manager = manager_of_blocks(init, chain, count);
    let done = chain.subrange(next, next + have);
    assert(is_chain(done));
    law_blocks_stored(done, init.next_block);
    law_request_exact(manager);
    let now = manager_next(manager);
    let (call, start) = (now->FetchChunk_call, now->FetchChunk_start);
    lemma_chunk_of_blocks(call, chain, answer, start);
    let length = call.blocks->0.length as int;
    let more = chain.subrange(next + have, next + have + length);
    assert(is_chain(more));
    law_blocks_stored(more, start);
    law_processing_in_parts(done, more, init.next_block);
    assert(done + more =~= chain.subrange(next, next + have + length));
    assert(have + length == covered(init.tip, init.next_block, init.batch, count + 1));
}

/// A download of a chain, driven from its first step with the tip and with answers that each give
/// exactly the blocks asked for, from the ledger or from archives, returns the blocks of the chain
/// from the next one on, in order: each with its own data and under its own number. It returns all
/// blocks before the tip, or else at least as many as the limit, and always less than a batch more
/// than the limit.
pub proof fn law_download_of_chain(
    runtime: RuntimeView,
    limits: LimitsView,
    tip: u64,
    chain: Seq<TransactionView>,
    answers: Seq<ChunkAnswer>,
)
    requires
        runtime.target_ledger_locked,
        limits.batch > 0,
        runtime.next_block < tip <= chain.len(),
        is_chain(chain),
        answers.len() >= limits.total || answers.len() > tip - runtime.next_block,
        forall|i: int|
            0 <= i < answers.len() ==> (#[trigger] answers[i]).sent.len()
                == answers[i].response.archived_transactions.len(),
        gives_asked_blocks(
            after_tip(
                runtime,
                download_begin(runtime)->CallTip_ledger,
                limits,
                Ok(tip as nat),
            ).1,
            chain,
            answers,
        ),
    ensures
        match download_run(
            after_tip(
                runtime,
                download_begin(runtime)->CallTip_ledger,
                limits,
                Ok(tip as nat),
            ).1,
            all_chunk_events(all_replies(answers)),
        ) {
            DownloadStepView::Return(Ok(entries)) => {
                let next_block = runtime.next_block;
                &&& entries.len() <= tip - next_block
                &&& entries.len() >= tip - next_block || entries.len() >= limits.total
                &&& entries.len() < limits.total + limits.batch
                &&& forall|j: int|
                    0 <= j < entries.len() ==> (#[trigger] entries[j]).block == next_block + j
                        && carries_block(entries[j], chain[next_block + j])
            },
            _ => false,
        },
{
    let next_block = runtime.next_block;
    let ledger = download_begin(runtime)->CallTip_ledger;
    let init = manager_init(tip, next_block, ledger, limits);
    let step = manager_next(init);
    let count = chunk_count(tip, next_block, limits);
    lemma_covered_amount(tip, next_block, limits);
    lemma_run_of_blocks(init, chain, answers, count);
    assert(all_replies(answers).take(count) =~= all_replies(answers.take(count)));
    lemma_replied_ended(step, all_replies(answers), count);
    assert forall|i: int| 0 <= i < all_replies(answers).len() implies (
    #[trigger] all_replies(answers)[i]).archives.len() == all_replies(
        answers,
    )[i].response.archived_transactions.len() by {
        assert(answers[i].sent.len() == answers[i].response.archived_transactions.len());
    }
    law_download_follows_run(step, all_replies(answers));
    let amount = covered(tip, next_block, limits.batch, count);
    let blocks = chain.subrange(next_block as int, next_block + amount);
    assert(is_chain(blocks));
    law_blocks_stored(blocks, next_block);
    let entries = processed(blocks, next_block)->Ok_0;
    assert forall|j: int| 0 <= j < entries.len() implies (#[trigger] entries[j]).block == next_block
        + j && carries_block(entries[j], chain[next_block + j]) by {
        assert(carries_block(processed(blocks, next_block)->Ok_0[j], blocks[j]));
    }
}

} // verus!
