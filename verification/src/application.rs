//! The decisions of the ingestion loop.
//!
//! The loop itself waits on timers, signals and the RPC node, and stands outside the
//! library; it asks these functions where to start and what to do after each batch.

use vstd::prelude::*;

use crate::chain::reader::BatchResult;
use crate::chain::split::{adjacent, tiles};
use crate::error::NoxError;
use crate::state::StateStore;

verus! {

/// The first block to read: the one after the last processed block when the state was
/// restored from a file, the initial block otherwise. Refused with
/// [`NoxError::NoInitialBlock`] when there is no state file and the initial block is 0,
/// so that no event is missed silently.
pub fn determine_start_block(state_store: &StateStore) -> (r: Result<u64, NoxError>)
    requires
        state_store.loaded_from_file() ==> state_store.last_synced() < u64::MAX,
    ensures
        !state_store.loaded_from_file() && state_store.last_synced() == 0 ==> r matches Err(
            NoxError::NoInitialBlock,
        ),
        state_store.loaded_from_file() ==> r == Ok::<u64, NoxError>((state_store.last_synced() + 1) as u64),
        !state_store.loaded_from_file() && state_store.last_synced() != 0 ==> r == Ok::<u64, NoxError>(
            state_store.last_synced(),
        ),
{
    if state_store.get() == 0 && !state_store.was_loaded_from_file() {
        return Err(NoxError::NoInitialBlock);
    }
    if state_store.was_loaded_from_file() {
        Ok(state_store.get() + 1)
    } else {
        Ok(state_store.get())
    }
}

/// Whether the reader must wait for new blocks before reading from `next_block`.
pub fn must_wait_for_blocks(next_block: u64, latest_block: u64) -> (r: bool)
    ensures
        r == (next_block > latest_block),
{
    next_block > latest_block
}

/// The block the loop reads from next, after reading from `next_block` a batch that
/// spans `start..=end`: past the batch's end when it covered blocks, unchanged otherwise.
pub open spec fn next_read(next_block: int, start: u64, end: u64) -> int {
    if end >= start {
        end + 1
    } else {
        next_block
    }
}

/// The block the loop reads from after the batches `batches` (each given as its
/// `(start_block, end_block)`, in the order read), having started at `start`.
pub open spec fn read_position(start: u64, batches: Seq<(u64, u64)>) -> int
    decreases batches.len(),
{
    if batches.len() == 0 {
        start as int
    } else {
        next_read(read_position(start, batches.drop_last()), batches.last().0, batches.last().1)
    }
}

/// The ranges recorded as synced: those of the batches that covered blocks, in order.
pub open spec fn synced_ranges(batches: Seq<(u64, u64)>) -> Seq<(u64, u64)>
    decreases batches.len(),
{
    if batches.len() == 0 {
        Seq::empty()
    } else if batches.last().1 >= batches.last().0 {
        synced_ranges(batches.drop_last()).push(batches.last())
    } else {
        synced_ranges(batches.drop_last())
    }
}

/// Every batch was read from the block the loop stood at: the first from `start`, each
/// later one from where [`progress_after_batch`] left the loop.
pub open spec fn reads_follow(start: u64, batches: Seq<(u64, u64)>) -> bool {
    forall|k: int| 0 <= k < batches.len() ==> #[trigger] batches[k].0 == read_position(start, batches.take(k))
}

/// Over any number of iterations of the ingestion loop started at `start`, the ranges
/// recorded as synced follow each other from `start` up to the block before the one read
/// next, without gap or overlap: no block is skipped, none is read twice.
pub proof fn lemma_reads_cover_without_gaps(start: u64, batches: Seq<(u64, u64)>)
    requires
        reads_follow(start, batches),
    ensures
        synced_ranges(batches).len() == 0 ==> read_position(start, batches) == start,
        synced_ranges(batches).len() > 0 ==> tiles(
            synced_ranges(batches),
            start as int,
            read_position(start, batches) - 1,
        ),
    decreases batches.len(),
{
    if batches.len() > 0 {
        let init = batches.drop_last();
        let b = batches.last();
        assert forall|k: int| 0 <= k < init.len() implies #[trigger] init[k].0 == read_position(start, init.take(k)) by {
            assert(init.take(k) =~= batches.take(k));
            assert(batches[k] == init[k]);
        }
        lemma_reads_cover_without_gaps(start, init);
        assert(batches.take(init.len() as int) =~= init);
        assert(b.0 == read_position(start, init)) by {
            assert(batches[init.len() as int] == b);
        }
        if b.1 >= b.0 {
            let prev = synced_ranges(init);
            let now = prev.push(b);
            assert(synced_ranges(batches) == now);
            if prev.len() > 0 {
                assert forall|i: int| 0 <= i < now.len() - 1 implies #[trigger] adjacent(now, i) by {
                    if i < prev.len() - 1 {
                        assert(adjacent(prev, i));
                    }
                }
                assert forall|i: int| 0 <= i < now.len() implies (#[trigger] now[i]).0 <= now[i].1 by {
                    if i < prev.len() {
                        assert(prev[i].0 <= prev[i].1);
                    }
                }
            }
        }
    }
}

/// What the loop does after a batch was read.
#[derive(Debug)]
pub struct BatchProgress {
    /// The block to record as synced, if the batch covered any block.
    pub synced_to: Option<u64>,
    /// The block to read from next.
    pub next_block: u64,
    /// Whether to wait the poll delay before the next read: the reader is within one
    /// block of the chain head.
    pub needs_delay: bool,
}

/// The progress after `batch` was read from `next_block` while the chain head was
/// `latest_block`: a batch that covered blocks moves the next block past its end; the
/// reader waits only once it has caught up (within one block of the head).
pub fn progress_after_batch(next_block: u64, latest_block: u64, batch: &BatchResult) -> (p: BatchProgress)
    requires
        batch.end_block < u64::MAX,
    ensures
        batch.end_block >= batch.start_block ==> p.synced_to == Some(batch.end_block) && p.next_block
            == batch.end_block + 1,
        p.next_block == next_read(next_block as int, batch.start_block, batch.end_block),
        batch.end_block < batch.start_block ==> p.synced_to is None && p.next_block == next_block,
        p.needs_delay == (latest_block <= batch.end_block + 1),
{
    let (synced_to, next) = if batch.end_block >= batch.start_block {
        (Some(batch.end_block), batch.end_block + 1)
    } else {
        (None, next_block)
    };
    let gap = latest_block.saturating_sub(batch.end_block);
    BatchProgress { synced_to, next_block: next, needs_delay: gap <= 1 }
}

/// A batch that starts at the next block and covers blocks moves the reader forward.
pub proof fn lemma_progress_moves_forward(next_block: u64, latest_block: u64, batch: BatchResult, p: BatchProgress)
    requires
        batch.start_block == next_block,
        batch.end_block >= batch.start_block,
        batch.end_block < u64::MAX,
        p.synced_to == Some(batch.end_block),
        p.next_block == batch.end_block + 1,
    ensures
        p.next_block > next_block,
{
}

} // verus!
