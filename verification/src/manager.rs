//! Downloading many blocks chunk by chunk.

use crate::calls::{CallView, CanisterCall};
use crate::chunk::{ledger_call_view, meme_download_chunk};
use crate::types::{outcome_view, Outcome, ProcessedTX, ProcessedView};
use crate::views::views;
use vstd::prelude::*;

verus! {

/// How much may be downloaded: in one chunk, and in one run. A chunk holds at least one block.
pub struct DownloadLimits {
    max_total_download: u32,
    max_transaction_batch_size: u32,
}

/// The mathematical counterpart of [`DownloadLimits`].
pub struct LimitsView {
    pub total: nat,
    pub batch: nat,
}

impl View for DownloadLimits {
    type V = LimitsView;

    closed spec fn view(&self) -> LimitsView {
        LimitsView {
            total: self.max_total_download as nat,
            batch: self.max_transaction_batch_size as nat,
        }
    }
}

impl DownloadLimits {
    #[verifier::type_invariant]
    spec fn has_batch(&self) -> bool {
        self.max_transaction_batch_size > 0
    }

    /// The given limits; `None` exactly when a chunk would be empty.
    pub fn new(max_total_download: u32, max_transaction_batch_size: u32) -> (result: Option<
        DownloadLimits,
    >)
        ensures
            match result {
                Some(limits) => max_transaction_batch_size > 0 && limits@ == (LimitsView {
                    total: max_total_download as nat,
                    batch: max_transaction_batch_size as nat,
                }),
                None => max_transaction_batch_size == 0,
            },
    {
        if max_transaction_batch_size > 0 {
            Some(DownloadLimits { max_total_download, max_transaction_batch_size })
        } else {
            None
        }
    }
}

/// The quotient, rounded up.
pub open spec fn ceil_div(number: int, divisor: int) -> int {
    (number + divisor - 1) / divisor
}

/// How many blocks a run has to look at: those from `next_block` up to and with `tip`.
pub open spec fn blocks_needed(tip: u64, next_block: u64) -> int {
    let tip_plus_one: int = if tip == u64::MAX {
        tip as int
    } else {
        tip + 1
    };
    if tip_plus_one > next_block {
        tip_plus_one - next_block
    } else {
        0
    }
}

/// The most chunks that a run may fetch.
pub open spec fn max_loops(limits: LimitsView) -> int {
    ceil_div(limits.total as int, limits.batch as int)
}

/// How many chunks would hold this many blocks.
pub open spec fn chunks_needed(blocks: int, limits: LimitsView) -> int {
    ceil_div(blocks, limits.batch as int)
}

/// How many chunks a run fetches.
pub open spec fn chunk_count(tip: u64, next_block: u64, limits: LimitsView) -> int {
    let needed = chunks_needed(blocks_needed(tip, next_block), limits);
    if needed > max_loops(limits) {
        max_loops(limits)
    } else {
        needed
    }
}

/// A run that waits for a chunk.
pub struct DownloadManager {
    ledger: String,
    tip: u64,
    next_block: u64,
    batch: u32,
    chunks: u32,
    done: u32,
    downloaded: Vec<ProcessedTX>,
}

/// The mathematical counterpart of [`DownloadManager`].
pub struct ManagerView {
    /// The ledger's canister.
    pub ledger: Seq<char>,
    /// The tip of the ledger's chain.
    pub tip: u64,
    /// The first block to download.
    pub next_block: u64,
    /// The most blocks in a chunk.
    pub batch: nat,
    /// How many chunks to fetch, and how many have been fetched.
    pub chunks: int,
    pub done: int,
    /// What they gave.
    pub downloaded: Seq<ProcessedView>,
}

impl View for DownloadManager {
    type V = ManagerView;

    closed spec fn view(&self) -> ManagerView {
        ManagerView {
            ledger: self.ledger@,
            tip: self.tip,
            next_block: self.next_block,
            batch: self.batch as nat,
            chunks: self.chunks as int,
            done: self.done as int,
            downloaded: views(self.downloaded@),
        }
    }
}

impl DownloadManager {
    #[verifier::type_invariant]
    spec fn waits_for_chunk(&self) -> bool {
        self.done < self.chunks
    }
}

/// What to do next for a run.
pub enum ManagerStep {
    /// Ask the ledger for the chunk from `start` on, and hand what it gives to the manager.
    FetchChunk { call: CanisterCall, start: u64, manager: DownloadManager },
    /// The run cannot go on: more blocks came than there are up to the tip.
    Overrun,
    /// The run is complete or has failed.
    Finished(Result<Vec<ProcessedTX>, String>),
}

/// The mathematical counterpart of [`ManagerStep`].
pub enum ManagerStepView {
    FetchChunk { call: CallView, start: u64, manager: ManagerView },
    Overrun,
    Finished(Outcome),
}

impl View for ManagerStep {
    type V = ManagerStepView;

    open spec fn view(&self) -> ManagerStepView {
        match *self {
            ManagerStep::FetchChunk { call, start, manager } => ManagerStepView::FetchChunk {
                call: call@,
                start,
                manager: manager@,
            },
            ManagerStep::Overrun => ManagerStepView::Overrun,
            ManagerStep::Finished(result) => ManagerStepView::Finished(outcome_view(result)),
        }
    }
}

/// The length of a chunk from `start` on: what is left up to the tip, but at most a batch.
pub open spec fn chunk_length(tip: u64, start: int, batch: nat) -> int {
    if tip - start > batch {
        batch as int
    } else {
        tip - start
    }
}

/// The step of a run that has fetched some chunks: fetch the next one from the block after those
/// downloaded, or end.
pub open spec fn manager_next(manager: ManagerView) -> ManagerStepView {
    let start = manager.next_block + manager.downloaded.len();
    if manager.done >= manager.chunks {
        ManagerStepView::Finished(Ok(manager.downloaded))
    } else if start > manager.tip {
        ManagerStepView::Overrun
    } else {
        ManagerStepView::FetchChunk {
            call: ledger_call_view(
                manager.ledger,
                start as u64,
                chunk_length(manager.tip, start, manager.batch) as u64,
            ),
            start: start as u64,
            manager,
        }
    }
}

/// A run at its beginning.
pub open spec fn manager_init(
    tip: u64,
    next_block: u64,
    ledger: Seq<char>,
    limits: LimitsView,
) -> ManagerView {
    ManagerView {
        ledger,
        tip,
        next_block,
        batch: limits.batch,
        chunks: chunk_count(tip, next_block, limits),
        done: 0,
        downloaded: Seq::empty(),
    }
}

/// The step that follows a chunk.
pub open spec fn after_chunk(manager: ManagerView, outcome: Outcome) -> ManagerStepView {
    match outcome {
        Ok(chunk) => manager_next(
            ManagerView {
                done: manager.done + 1,
                downloaded: manager.downloaded + chunk,
                ..manager
            },
        ),
        Err(error) => ManagerStepView::Finished(Err("Error downloading blocks - "@ + error)),
    }
}

/// The quotient of two numbers, rounded up.
fn divide_up(number: u64, divisor: u64) -> (quotient: u64)
    requires
        divisor > 0,
    ensures
        quotient == ceil_div(number as int, divisor as int),
{
    let quotient: u64 = number / divisor;
    let remainder: u64 = number % divisor;
    proof {
        let (n, d, q, r) = (number as int, divisor as int, quotient as int, remainder as int);
        assert(n == q * d + r && 0 <= r < d) by (nonlinear_arith)
            requires
                d > 0,
                n >= 0,
                q == n / d,
                r == n % d,
        ;
        if r == 0 {
            assert((n + d - 1) / d == q) by (nonlinear_arith)
                requires
                    d > 0,
                    n == q * d,
            ;
        } else {
            assert((n + d - 1) / d == q + 1) by (nonlinear_arith)
                requires
                    d > 0,
                    n == q * d + r,
                    0 < r < d,
            ;
            assert(q < n) by (nonlinear_arith)
                requires
                    d > 0,
                    n == q * d + r,
                    0 < r < d,
                    q >= 0,
            ;
        }
    }
    if remainder == 0 {
        quotient
    } else {
        quotient + 1
    }
}

/// Goes on with a run that has fetched `done` chunks.
fn next_step(
    ledger: String,
    tip: u64,
    next_block: u64,
    batch: u32,
    chunks: u32,
    done: u32,
    downloaded: Vec<ProcessedTX>,
) -> (step: ManagerStep)
    ensures
        step@ == manager_next(
            ManagerView {
                ledger: ledger@,
                tip,
                next_block,
                batch: batch as nat,
                chunks: chunks as int,
                done: done as int,
                downloaded: views(downloaded@),
            },
        ),
{
    if done >= chunks {
        return ManagerStep::Finished(Ok(downloaded));
    }
    let completed_this_run: u64 = downloaded.len() as u64;
    if next_block > tip || completed_this_run > tip - next_block {
        return ManagerStep::Overrun;
    }
    let start: u64 = next_block + completed_this_run;
    let remaining: u64 = tip - start;
    let length: u64 = if remaining > batch as u64 {
        batch as u64
    } else {
        remaining
    };
    let call: CanisterCall = meme_download_chunk(start, length, ledger.as_str());
    let manager = DownloadManager { ledger, tip, next_block, batch, chunks, done, downloaded };
    ManagerStep::FetchChunk { call, start, manager }
}

/// How many blocks a run has to look at.
pub fn count_blocks(tip: u64, next_block: u64) -> (blocks: u64)
    ensures
        blocks == blocks_needed(tip, next_block),
        next_block > tip ==> blocks == 0,
        next_block <= tip < u64::MAX ==> blocks == tip + 1 - next_block,
        tip == u64::MAX ==> blocks == tip - next_block,
{
    let tip_plus_one: u64 = tip.saturating_add(1);
    tip_plus_one.saturating_sub(next_block)
}

/// How many chunks would hold this many blocks.
pub fn count_chunks(blocks: u64, limits: &DownloadLimits) -> (chunks: u64)
    ensures
        chunks == chunks_needed(blocks as int, limits@),
        chunks * limits@.batch >= blocks,
        (chunks - 1) * limits@.batch < blocks,
{
    proof {
        use_type_invariant(limits);
        law_counts(0, 0, blocks as int, limits@);
    }
    divide_up(blocks, limits.max_transaction_batch_size as u64)
}

/// Starts a run that downloads the blocks from `next_block` on, up to the tip of the chain or to
/// the limits.
pub fn download_manager(
    tip: u64,
    next_block: u64,
    ledger: String,
    limits: &DownloadLimits,
) -> (step: ManagerStep)
    ensures
        step@ == manager_next(manager_init(tip, next_block, ledger@, limits@)),
{
    proof {
        use_type_invariant(limits);
    }
    let batch: u32 = limits.max_transaction_batch_size;
    let needed: u64 = count_chunks(count_blocks(tip, next_block), limits);
    let loops: u64 = divide_up(limits.max_total_download as u64, batch as u64);
    let chunks: u64 = if needed > loops {
        loops
    } else {
        needed
    };
    assert(loops <= u32::MAX) by {
        lemma_few_loops(limits.max_total_download as int, batch as int);
    }
    let downloaded: Vec<ProcessedTX> = Vec::new();
    assert(views(downloaded@) =~= Seq::<ProcessedView>::empty());
    next_step(ledger, tip, next_block, batch, chunks as u32, 0, downloaded)
}

/// Division does not make a number larger.
proof fn lemma_few_loops(total: int, batch: int)
    requires
        total >= 0,
        batch > 0,
    ensures
        0 <= ceil_div(total, batch) <= total,
{
    assert(0 <= (total + batch - 1) / batch <= total) by (nonlinear_arith)
        requires
            total >= 0,
            batch > 0,
    ;
}

impl DownloadManager {
    /// Takes what the chunk that the run waits for gave.
    pub fn chunk_done(self, result: Result<Vec<ProcessedTX>, String>) -> (step: ManagerStep)
        ensures
            step@ == after_chunk(self@, outcome_view(result)),
    {
        proof {
            use_type_invariant(&self);
        }
        match result {
            Ok(mut chunk) => {
                let DownloadManager { ledger, tip, next_block, batch, chunks, done, downloaded } =
                    self;
                let mut all: Vec<ProcessedTX> = downloaded;
                let ghost expected = views(all@) + views(chunk@);
                all.append(&mut chunk);
                assert(views(all@) =~= expected);
                next_step(ledger, tip, next_block, batch, chunks, done + 1, all)
            },
            Err(error) => ManagerStep::Finished(
                Err("Error downloading blocks - ".to_owned().concat(error.as_str())),
            ),
        }
    }
}

/// The step that a run arrives at when it is at `step` and its chunks give `outcomes`.
pub open spec fn manager_run(step: ManagerStepView, outcomes: Seq<Outcome>) -> ManagerStepView
    decreases outcomes.len(),
{
    match step {
        ManagerStepView::FetchChunk { call, start, manager } => if outcomes.len() == 0 {
            step
        } else {
            manager_run(after_chunk(manager, outcomes[0]), outcomes.drop_first())
        },
        _ => step,
    }
}

/// Chunks, one after the other.
pub open spec fn joined(chunks: Seq<Seq<ProcessedView>>) -> Seq<ProcessedView>
    decreases chunks.len(),
{
    if chunks.len() == 0 {
        Seq::empty()
    } else {
        joined(chunks.drop_last()) + chunks.last()
    }
}

/// The outcomes of chunks that all succeed.
pub open spec fn successes(chunks: Seq<Seq<ProcessedView>>) -> Seq<Outcome> {
    Seq::new(chunks.len(), |i: int| Outcome::Ok(chunks[i]))
}

/// A run before each of its chunks has no more than the blocks up to the tip.
pub open spec fn stays_in_range(
    tip: u64,
    next_block: u64,
    chunks: Seq<Seq<ProcessedView>>,
    count: int,
) -> bool {
    forall|i: int|
        0 <= i < count ==> next_block + (#[trigger] joined(chunks.take(i))).len() <= tip
}

/// A run that has taken some successful chunks.
pub open spec fn manager_after(
    init: ManagerView,
    chunks: Seq<Seq<ProcessedView>>,
    count: int,
) -> ManagerView {
    ManagerView { done: count, downloaded: joined(chunks.take(count)), ..init }
}

/// Successful chunks advance a run one by one.
proof fn lemma_run_successes(
    init: ManagerView,
    chunks: Seq<Seq<ProcessedView>>,
    tail: Seq<Outcome>,
    count: int,
)
    requires
        0 <= count <= chunks.len() <= init.chunks,
        stays_in_range(init.tip, init.next_block, chunks, chunks.len() as int),
    ensures
        manager_run(
            manager_next(manager_after(init, chunks, count)),
            successes(chunks).skip(count) + tail,
        ) == manager_run(manager_next(manager_after(init, chunks, chunks.len() as int)), tail),
    decreases chunks.len() - count,
{
    let outcomes = successes(chunks).skip(count) + tail;
    if count == chunks.len() {
        assert(outcomes =~= tail);
    } else {
        lemma_run_successes(init, chunks, tail, count + 1);
        assert(joined(chunks.take(count)).len() + init.next_block <= init.tip);
        assert(outcomes[0] == Outcome::Ok(chunks[count]));
        assert(outcomes.drop_first() =~= successes(chunks).skip(count + 1) + tail);
        assert(chunks.take(count + 1).drop_last() =~= chunks.take(count));
        assert(chunks.take(count + 1).last() == chunks[count]);
    }
}

/// A run whose chunks all succeed, none of them taking it past the tip before the last, ends
/// with the chunks in order.
pub proof fn law_run_joins_chunks(
    tip: u64,
    next_block: u64,
    ledger: Seq<char>,
    limits: LimitsView,
    chunks: Seq<Seq<ProcessedView>>,
)
    requires
        limits.batch > 0,
        chunks.len() == chunk_count(tip, next_block, limits),
        stays_in_range(tip, next_block, chunks, chunks.len() as int),
    ensures
        manager_run(
            manager_next(manager_init(tip, next_block, ledger, limits)),
            successes(chunks),
        ) == ManagerStepView::Finished(Ok(joined(chunks))),
{
    let init = manager_init(tip, next_block, ledger, limits);
    lemma_run_successes(init, chunks, Seq::empty(), 0);
    assert(chunks.take(0) =~= Seq::empty());
    assert(chunks.take(chunks.len() as int) =~= chunks);
    assert(manager_after(init, chunks, 0) == init);
    assert(successes(chunks).skip(0) + Seq::<Outcome>::empty() =~= successes(chunks));
}

/// A chunk that fails ends the run with its error, whatever was downloaded before.
pub proof fn law_run_stops_at_failure(
    tip: u64,
    next_block: u64,
    ledger: Seq<char>,
    limits: LimitsView,
    chunks: Seq<Seq<ProcessedView>>,
    error: Seq<char>,
)
    requires
        limits.batch > 0,
        chunks.len() < chunk_count(tip, next_block, limits),
        stays_in_range(tip, next_block, chunks, chunks.len() as int + 1),
    ensures
        manager_run(
            manager_next(manager_init(tip, next_block, ledger, limits)),
            successes(chunks) + seq![Outcome::Err(error)],
        ) == ManagerStepView::Finished(Err("Error downloading blocks - "@ + error)),
{
    let init = manager_init(tip, next_block, ledger, limits);
    let tail = seq![Outcome::Err(error)];
    lemma_run_successes(init, chunks, tail, 0);
    assert(chunks.take(0) =~= Seq::empty());
    assert(manager_after(init, chunks, 0) == init);
    assert(successes(chunks).skip(0) + tail =~= successes(chunks) + tail);
    assert(joined(chunks.take(chunks.len() as int)).len() + next_block <= tip);
    reveal_with_fuel(manager_run, 2);
}

/// The number of blocks that chunks of full length have covered after `count` of them.
pub open spec fn covered(tip: u64, next_block: u64, batch: nat, count: int) -> int {
    if tip - next_block < count * batch {
        tip - next_block
    } else {
        count * batch
    }
}

/// A run whose chunks each give exactly the blocks that were asked for ends with all blocks up
/// to the tip, or with as many as the limits allow.
pub proof fn law_complete_run(
    tip: u64,
    next_block: u64,
    ledger: Seq<char>,
    limits: LimitsView,
    chunks: Seq<Seq<ProcessedView>>,
)
    requires
        limits.batch > 0,
        next_block <= tip,
        chunks.len() == chunk_count(tip, next_block, limits),
        forall|i: int|
            0 <= i < chunks.len() ==> (#[trigger] chunks[i]).len() == chunk_length(
                tip,
                next_block + covered(tip, next_block, limits.batch, i),
                limits.batch,
            ),
    ensures
        manager_run(
            manager_next(manager_init(tip, next_block, ledger, limits)),
            successes(chunks),
        ) == ManagerStepView::Finished(Ok(joined(chunks))),
        joined(chunks).len() == covered(tip, next_block, limits.batch, max_loops(limits)),
{
    let batch = limits.batch;
    let total = chunks.len() as int;
    assert forall|i: int| 0 <= i <= total implies (#[trigger] joined(chunks.take(i))).len()
        == covered(tip, next_block, batch, i) by {
        lemma_covered(tip, next_block, batch, chunks, i);
    }
    assert forall|i: int| 0 <= i < total implies next_block + (#[trigger] joined(
        chunks.take(i),
    )).len() <= tip by {
        assert(joined(chunks.take(i)).len() == covered(tip, next_block, batch, i));
    }
    law_run_joins_chunks(tip, next_block, ledger, limits, chunks);
    assert(chunks.take(total) =~= chunks);
    assert(joined(chunks.take(total)).len() == covered(tip, next_block, batch, total));
    if total < max_loops(limits) {
        let needed = blocks_needed(tip, next_block);
        let b = batch as int;
        let loops = max_loops(limits);
        assert(total * b >= needed) by (nonlinear_arith)
            requires
                b > 0,
                total == (needed + b - 1) / b,
        ;
        assert(loops * b >= total * b) by (nonlinear_arith)
            requires
                b > 0,
                loops >= total,
        ;
        assert(needed >= tip - next_block);
    }
}

/// Chunks of the requested lengths cover the blocks from the first one on.
pub proof fn lemma_covered(
    tip: u64,
    next_block: u64,
    batch: nat,
    chunks: Seq<Seq<ProcessedView>>,
    count: int,
)
    requires
        next_block <= tip,
        0 <= count <= chunks.len(),
        forall|i: int|
            0 <= i < chunks.len() ==> (#[trigger] chunks[i]).len() == chunk_length(
                tip,
                next_block + covered(tip, next_block, batch, i),
                batch,
            ),
    ensures
        joined(chunks.take(count)).len() == covered(tip, next_block, batch, count),
    decreases count,
{
    if count > 0 {
        lemma_covered(tip, next_block, batch, chunks, count - 1);
        assert(chunks.take(count).drop_last() =~= chunks.take(count - 1));
        assert(chunks.take(count).last() == chunks[count - 1]);
        let b = batch as int;
        assert(count * b == (count - 1) * b + b) by (nonlinear_arith);
    }
}

/// If the blocks of every chunk are numbered consecutively from the start of that chunk, the
/// whole download is numbered consecutively from its first block.
pub proof fn law_download_numbered(next_block: u64, chunks: Seq<Seq<ProcessedView>>, index: int)
    requires
        forall|i: int, j: int|
            0 <= i < chunks.len() && 0 <= j < chunks[i].len() ==> (#[trigger] chunks[i][j]).block
                == next_block + joined(chunks.take(i)).len() + j,
        0 <= index < joined(chunks).len(),
    ensures
        joined(chunks)[index].block == next_block + index,
    decreases chunks.len(),
{
    let front = chunks.drop_last();
    let last = chunks.len() - 1;
    assert(chunks.take(last) =~= front);
    if index < joined(front).len() {
        assert forall|i: int, j: int| 0 <= i < front.len() && 0 <= j < front[i].len() implies (
        #[trigger] front[i][j]).block == next_block + joined(front.take(i)).len() + j by {
            assert(front[i][j] == chunks[i][j]);
            assert(front.take(i) =~= chunks.take(i));
        }
        law_download_numbered(next_block, front, index);
    } else {
        assert(joined(chunks)[index] == chunks[last][index - joined(front).len()]);
    }
}

/// Every request asks for blocks from the first one not yet downloaded, for at most a batch, and
/// for none past the tip.
pub proof fn law_requests_in_range(manager: ManagerView)
    ensures
        match manager_next(manager) {
            ManagerStepView::FetchChunk { call, start, manager: next } => {
                &&& next == manager
                &&& start == manager.next_block + manager.downloaded.len()
                &&& call.blocks is Some
                &&& call.blocks->0.start == start
                &&& call.blocks->0.length <= manager.batch
                &&& start + call.blocks->0.length <= manager.tip
            },
            _ => true,
        },
{
}

/// A run never begins with an overrun, and begins with a request exactly when there are blocks
/// to look at and the limits allow any.
pub proof fn law_run_begins(tip: u64, next_block: u64, ledger: Seq<char>, limits: LimitsView)
    requires
        limits.batch > 0,
    ensures
        match manager_next(manager_init(tip, next_block, ledger, limits)) {
            ManagerStepView::FetchChunk { call, start, manager } => start == next_block
                && blocks_needed(tip, next_block) > 0 && limits.total > 0,
            ManagerStepView::Overrun => false,
            ManagerStepView::Finished(outcome) => outcome == Outcome::Ok(Seq::empty()) && (
            blocks_needed(tip, next_block) == 0 || limits.total == 0),
        },
{
    lemma_positive_quotient(blocks_needed(tip, next_block), limits.batch as int);
    lemma_positive_quotient(limits.total as int, limits.batch as int);
}

/// A quotient that is rounded up is positive exactly when the number is.
proof fn lemma_positive_quotient(number: int, divisor: int)
    requires
        number >= 0,
        divisor > 0,
    ensures
        ceil_div(number, divisor) > 0 <==> number > 0,
        ceil_div(number, divisor) >= 0,
{
    let quotient = (number + divisor - 1) / divisor;
    assert(quotient > 0 <==> number > 0) by (nonlinear_arith)
        requires
            number >= 0,
            divisor > 0,
            quotient == (number + divisor - 1) / divisor,
    ;
    assert(quotient >= 0) by (nonlinear_arith)
        requires
            number >= 0,
            divisor > 0,
            quotient == (number + divisor - 1) / divisor,
    ;
}

/// A run that has chunks left asks its ledger for blocks from the first one not yet downloaded:
/// as many as are left up to the tip, but no more than a batch. It cannot go on exactly when it is
/// past the tip, and is complete exactly when no chunks are left.
pub proof fn law_request_exact(manager: ManagerView)
    ensures
        ({
            let start = manager.next_block + manager.downloaded.len();
            match manager_next(manager) {
                ManagerStepView::FetchChunk { call, start: first, manager: same } => {
                    &&& manager.done < manager.chunks
                    &&& start <= manager.tip
                    &&& first == start
                    &&& same == manager
                    &&& call.canister == manager.ledger
                    &&& call.method == "get_transactions"@
                    &&& call.blocks is Some
                    &&& call.blocks->0.start == start
                    &&& call.blocks->0.length == if manager.tip - start < manager.batch {
                        manager.tip - start
                    } else {
                        manager.batch as int
                    }
                },
                ManagerStepView::Overrun => manager.done < manager.chunks && start > manager.tip,
                ManagerStepView::Finished(outcome) => manager.done >= manager.chunks && outcome
                    == Outcome::Ok(manager.downloaded),
            }
        }),
{
}

/// A failed chunk ends a run with its error, at whatever point.
pub proof fn law_failed_chunk(manager: ManagerView, error: Seq<char>)
    ensures
        after_chunk(manager, Err(error)) == ManagerStepView::Finished(
            Err("Error downloading blocks - "@ + error),
        ),
{
}

/// Joining chunks is writing them one after the other.
pub proof fn law_joined_in_order(chunks: Seq<Seq<ProcessedView>>)
    ensures
        joined(chunks) == chunks.flatten(),
    decreases chunks.len(),
{
    if chunks.len() > 0 {
        law_joined_in_order(chunks.drop_last());
        chunks.drop_last().lemma_flatten_push(chunks.last());
        assert(chunks.drop_last().push(chunks.last()) =~= chunks);
    }
}

/// A quotient that is rounded up exceeds a count exactly when so many divisors do not reach the
/// number.
proof fn lemma_quotient_exceeds(number: int, divisor: int, count: int)
    requires
        divisor > 0,
    ensures
        count < ceil_div(number, divisor) <==> count * divisor < number,
{
    let quotient = (number + divisor - 1) / divisor;
    assert(quotient * divisor >= number && (quotient - 1) * divisor < number) by (nonlinear_arith)
        requires
            divisor > 0,
            quotient == (number + divisor - 1) / divisor,
    ;
    if count < quotient {
        assert(count * divisor <= (quotient - 1) * divisor) by (nonlinear_arith)
            requires
                divisor > 0,
                count <= quotient - 1,
        ;
    } else {
        assert(count * divisor >= quotient * divisor) by (nonlinear_arith)
            requires
                divisor > 0,
                count >= quotient,
        ;
    }
}

/// The number of blocks up to and with the tip; the largest tip counts one less.
pub open spec fn blocks_ahead(tip: u64, next_block: u64) -> int {
    if tip < u64::MAX {
        tip + 1 - next_block
    } else {
        tip - next_block
    }
}

/// How long a run goes on, whatever its chunks give: after as many successful chunks as `chunks`
/// holds it asks for another one exactly when so many batches reach neither the limit nor the end
/// of the blocks ahead. It then asks for the blocks from the first one not yet downloaded. Else it
/// ends with all chunks in order.
pub proof fn law_run_goes_on(
    tip: u64,
    next_block: u64,
    ledger: Seq<char>,
    limits: LimitsView,
    chunks: Seq<Seq<ProcessedView>>,
)
    requires
        limits.batch > 0,
        chunks.len() > 0 ==> (chunks.len() - 1) * limits.batch < limits.total && (chunks.len() - 1)
            * limits.batch < blocks_ahead(tip, next_block),
        forall|i: int|
            0 <= i < chunks.len() ==> next_block + (#[trigger] chunks.take(i)).flatten().len()
                <= tip,
    ensures
        ({
            let have = chunks.flatten();
            let start = next_block + have.len();
            let batches = chunks.len() * limits.batch;
            match manager_run(
                manager_next(manager_init(tip, next_block, ledger, limits)),
                successes(chunks),
            ) {
                ManagerStepView::FetchChunk { call, start: first, manager } => {
                    &&& batches < limits.total
                    &&& batches < blocks_ahead(tip, next_block)
                    &&& start <= tip
                    &&& first == start
                    &&& manager.downloaded == have
                    &&& call.canister == ledger
                    &&& call.method == "get_transactions"@
                    &&& call.blocks is Some
                    &&& call.blocks->0.start == start
                    &&& call.blocks->0.length == if tip - start < limits.batch {
                        tip - start
                    } else {
                        limits.batch as int
                    }
                },
                ManagerStepView::Overrun => batches < limits.total && batches < blocks_ahead(
                    tip,
                    next_block,
                ) && start > tip,
                ManagerStepView::Finished(outcome) => (batches >= limits.total || batches
                    >= blocks_ahead(tip, next_block)) && outcome == Outcome::Ok(have),
            }
        }),
{
    let init = manager_init(tip, next_block, ledger, limits);
    let count = chunks.len() as int;
    let b = limits.batch as int;
    let needed = blocks_needed(tip, next_block);
    lemma_quotient_exceeds(limits.total as int, b, count);
    lemma_quotient_exceeds(needed, b, count);
    lemma_quotient_exceeds(limits.total as int, b, count - 1);
    lemma_quotient_exceeds(needed, b, count - 1);
    lemma_positive_quotient(limits.total as int, b);
    lemma_positive_quotient(needed, b);
    assert(count * b >= 0) by (nonlinear_arith)
        requires
            count >= 0,
            b > 0,
    ;
    law_joined_in_order(chunks);
    assert forall|i: int| 0 <= i < count implies next_block + (#[trigger] joined(
        chunks.take(i),
    )).len() <= tip by {
        law_joined_in_order(chunks.take(i));
    }
    lemma_run_successes(init, chunks, Seq::empty(), 0);
    assert(chunks.take(0) =~= Seq::empty());
    assert(chunks.take(count) =~= chunks);
    assert(manager_after(init, chunks, 0) == init);
    assert(successes(chunks).skip(0) + Seq::<Outcome>::empty() =~= successes(chunks));
    law_request_exact(manager_after(init, chunks, count));
}

/// Each chunk has as many entries as the request that it answers asked for.
pub open spec fn gives_asked_lengths(
    step: ManagerStepView,
    chunks: Seq<Seq<ProcessedView>>,
) -> bool {
    forall|i: int|
        0 <= i < chunks.len() ==> match manager_run(step, successes(#[trigger] chunks.take(i))) {
            ManagerStepView::FetchChunk { call, start, manager } => call.blocks is Some
                && chunks[i].len() == call.blocks->0.length,
            _ => true,
        }
}

/// The chunks that a run asks for cover the blocks from the first one on, if each gives what was
/// asked for.
proof fn lemma_asked_lengths(init: ManagerView, chunks: Seq<Seq<ProcessedView>>, count: int)
    requires
        init.done == 0,
        init.downloaded.len() == 0,
        init.next_block <= init.tip,
        0 <= count <= chunks.len(),
        count <= init.chunks,
        gives_asked_lengths(manager_next(init), chunks),
    ensures
        manager_run(manager_next(init), successes(chunks.take(count))) == manager_next(
            manager_after(init, chunks, count),
        ),
        joined(chunks.take(count)).len() == covered(init.tip, init.next_block, init.batch, count),
        forall|i: int|
            0 <= i < count ==> (#[trigger] chunks[i]).len() == chunk_length(
                init.tip,
                init.next_block + covered(init.tip, init.next_block, init.batch, i),
                init.batch,
            ),
    decreases count,
{
    let b = init.batch as int;
    if count == 0 {
        assert(chunks.take(0) =~= Seq::empty());
        assert(init.downloaded =~= Seq::empty());
        assert(manager_after(init, chunks, 0) == init);
    } else {
        let last = count - 1;
        lemma_asked_lengths(init, chunks, last);
        let before = chunks.take(last);
        assert(last * b >= 0) by (nonlinear_arith)
            requires
                last >= 0,
                b >= 0,
        ;
        assert(count * b == last * b + b) by (nonlinear_arith)
            requires
                count == last + 1,
        ;
        let manager = manager_after(init, chunks, last);
        assert(manager_next(manager) is FetchChunk);
        assert(manager_run(manager_next(init), successes(before)) is FetchChunk);
        assert(chunks.take(count).drop_last() =~= before);
        assert(chunks.take(count).last() == chunks[last]);
        lemma_run_snoc(manager_next(init), successes(before), Outcome::Ok(chunks[last]));
        assert(successes(before).push(Outcome::Ok(chunks[last])) =~= successes(
            chunks.take(count),
        ));
    }
}

/// One more outcome takes a run one step further.
proof fn lemma_run_snoc(step: ManagerStepView, outcomes: Seq<Outcome>, outcome: Outcome)
    ensures
        manager_run(step, outcomes.push(outcome)) == match manager_run(step, outcomes) {
            ManagerStepView::FetchChunk { call, start, manager } => after_chunk(manager, outcome),
            end => end,
        },
    decreases outcomes.len(),
{
    reveal_with_fuel(manager_run, 2);
    match step {
        ManagerStepView::FetchChunk { call, start, manager } => {
            if outcomes.len() > 0 {
                lemma_run_snoc(
                    after_chunk(manager, outcomes[0]),
                    outcomes.drop_first(),
                    outcome,
                );
                assert(outcomes.push(outcome).drop_first() =~= outcomes.drop_first().push(
                    outcome,
                ));
            }
        },
        _ => {},
    }
}

/// A run that has ended stays ended.
proof fn lemma_run_ended(step: ManagerStepView, outcomes: Seq<Outcome>, count: int)
    requires
        0 <= count <= outcomes.len(),
        !(manager_run(step, outcomes.take(count)) is FetchChunk),
    ensures
        manager_run(step, outcomes) == manager_run(step, outcomes.take(count)),
    decreases outcomes.len(),
{
    if count == outcomes.len() {
        assert(outcomes.take(count) =~= outcomes);
    } else {
        assert(outcomes.drop_last().take(count) =~= outcomes.take(count));
        lemma_run_ended(step, outcomes.drop_last(), count);
        lemma_run_snoc(step, outcomes.drop_last(), outcomes.last());
        assert(outcomes.drop_last().push(outcomes.last()) =~= outcomes);
    }
}

/// How much the chunks of a run cover: all there is, or at least the limit and less than a batch
/// more.
pub proof fn lemma_covered_amount(tip: u64, next_block: u64, limits: LimitsView)
    requires
        limits.batch > 0,
        next_block <= tip,
    ensures
        ({
            let amount = covered(
                tip,
                next_block,
                limits.batch,
                chunk_count(tip, next_block, limits),
            );
            &&& 0 <= amount <= tip - next_block
            &&& amount >= tip - next_block || amount >= limits.total
            &&& amount < limits.total + limits.batch
        }),
        0 <= chunk_count(tip, next_block, limits) <= limits.total,
        chunk_count(tip, next_block, limits) <= tip - next_block + 1,
{
    let b = limits.batch as int;
    let total = limits.total as int;
    let needed = blocks_needed(tip, next_block);
    let loops = max_loops(limits);
    let count = chunk_count(tip, next_block, limits);
    lemma_few_loops(total, b);
    lemma_few_loops(needed, b);
    lemma_quotient_exceeds(total, b, loops);
    lemma_quotient_exceeds(total, b, loops - 1);
    lemma_quotient_exceeds(needed, b, count);
    assert(loops * b == (loops - 1) * b + b) by (nonlinear_arith);
    assert(count * b >= 0) by (nonlinear_arith)
        requires
            count >= 0,
            b > 0,
    ;
    assert(count * b <= loops * b) by (nonlinear_arith)
        requires
            count <= loops,
            b > 0,
    ;
}

/// A run whose chunks each give as many entries as were asked for, and which gets enough of them,
/// ends with these chunks in order. It returns all blocks before the tip, or else at least as many
/// as the limit, and always less than a batch more than the limit.
pub proof fn law_run_amount(
    tip: u64,
    next_block: u64,
    ledger: Seq<char>,
    limits: LimitsView,
    chunks: Seq<Seq<ProcessedView>>,
)
    requires
        limits.batch > 0,
        next_block <= tip,
        chunks.len() >= limits.total || chunks.len() > tip - next_block,
        gives_asked_lengths(
            manager_next(manager_init(tip, next_block, ledger, limits)),
            chunks,
        ),
    ensures
        match manager_run(
            manager_next(manager_init(tip, next_block, ledger, limits)),
            successes(chunks),
        ) {
            ManagerStepView::Finished(Ok(entries)) => {
                &&& entries.len() <= tip - next_block
                &&& entries.len() >= tip - next_block || entries.len() >= limits.total
                &&& entries.len() < limits.total + limits.batch
                &&& exists|count: int|
                    0 <= count <= chunks.len() && entries == (#[trigger] chunks.take(
                        count,
                    )).flatten()
            },
            _ => false,
        },
{
    let init = manager_init(tip, next_block, ledger, limits);
    let count = chunk_count(tip, next_block, limits);
    lemma_covered_amount(tip, next_block, limits);
    lemma_asked_lengths(init, chunks, count);
    assert(successes(chunks).take(count) =~= successes(chunks.take(count)));
    lemma_run_ended(manager_next(init), successes(chunks), count);
    law_joined_in_order(chunks.take(count));
}

/// The blocks that a run has to look at, and the chunks that hold so many blocks.
pub proof fn law_counts(tip: u64, next_block: u64, blocks: int, limits: LimitsView)
    requires
        limits.batch > 0,
        blocks >= 0,
    ensures
        next_block > tip ==> blocks_needed(tip, next_block) == 0,
        next_block <= tip < u64::MAX ==> blocks_needed(tip, next_block) == tip + 1 - next_block,
        tip == u64::MAX ==> blocks_needed(tip, next_block) == tip - next_block,
        chunks_needed(blocks, limits) * limits.batch >= blocks,
        (chunks_needed(blocks, limits) - 1) * limits.batch < blocks,
{
    let b = limits.batch as int;
    lemma_quotient_exceeds(blocks, b, chunks_needed(blocks, limits));
    lemma_quotient_exceeds(blocks, b, chunks_needed(blocks, limits) - 1);
}

/// The counterpart of a run's step says the same.
pub proof fn law_manager_step_view(step: ManagerStep)
    ensures
        match step {
            ManagerStep::FetchChunk { call, start, manager } => step@ == (
            ManagerStepView::FetchChunk { call: call@, start, manager: manager@ }),
            ManagerStep::Overrun => step@ == ManagerStepView::Overrun,
            ManagerStep::Finished(result) => step@ == ManagerStepView::Finished(
                outcome_view(result),
            ),
        },
{
}

} // verus!
