//! Reassembling fetched headers and bodies into blocks, and the strictly
//! ordered submission of one batch of blocks to the chain reader.

use crate::types::{Block, BlockBody, HashWithBlockHeader, SyncError};
use vstd::prelude::*;

verus! {

/// Relies on itertools::zip_eq: pairs the two vectors positionally, in
/// order; the precondition rules out the length mismatch on which zip_eq
/// panics. The closure only picks fields and calls the library's own
/// verified block constructor.
#[verifier::external_body]
fn zip_into_blocks(headers: Vec<HashWithBlockHeader>, bodies: Vec<BlockBody>) -> (r: Vec<Block>)
    requires
        headers@.len() == bodies@.len(),
    ensures
        r@.len() == headers@.len(),
        forall|i: int|
            0 <= i < r@.len() ==> (#[trigger] r@[i]).header == headers@[i].header
                && r@[i].transactions == bodies@[i].transactions,
{
    itertools::zip_eq(headers, bodies)
        .map(|(h, b)| crate::types::make_block(h.header, b.transactions))
        .collect()
}

/// Validates that `bodies` correspond positionally to `headers` — same
/// count, and each body carries the hash of the header at its position —
/// and reassembles the blocks. Any mismatch means the transport broke its
/// alignment promise: the whole batch is refused as a `ProtocolMismatch`
/// rather than zipping unrelated headers and bodies together.
pub fn assemble_blocks(headers: Vec<HashWithBlockHeader>, bodies: Vec<BlockBody>) -> (r: Result<
    Vec<Block>,
    SyncError,
>)
    ensures
        ({
            let ok = headers@.len() == bodies@.len() && (forall|i: int|
                0 <= i < headers@.len() ==> (#[trigger] bodies@[i]).hash == headers@[i].hash);
            &&& (ok ==> {
                &&& r matches Ok(blocks)
                &&& blocks@.len() == headers@.len()
                &&& forall|i: int|
                    0 <= i < blocks@.len() ==> (#[trigger] blocks@[i]).header
                        == headers@[i].header && blocks@[i].transactions
                        == bodies@[i].transactions
            })
            &&& (!ok ==> r == Err::<Vec<Block>, SyncError>(SyncError::ProtocolMismatch))
        }),
{
    if headers.len() != bodies.len() {
        return Err(SyncError::ProtocolMismatch);
    }
    let mut i: usize = 0;
    while i < headers.len()
        invariant
            i <= headers@.len(),
            headers@.len() == bodies@.len(),
            forall|j: int| 0 <= j < i ==> (#[trigger] bodies@[j]).hash == headers@[j].hash,
        decreases headers@.len() - i,
    {
        if bodies[i].hash != headers[i].hash {
            return Err(SyncError::ProtocolMismatch);
        }
        i += 1;
    }
    Ok(zip_into_blocks(headers, bodies))
}

/// What one connect outcome does to a submission batch's cursor: success
/// advances it past the submitted block, failure halts the batch for good.
pub open spec fn outcome_step(next: int, halted: bool, connected: bool) -> (int, bool) {
    if connected {
        (next + 1, halted)
    } else {
        (next, true)
    }
}

/// The cursor and halt flag a fresh batch reaches after receiving
/// `outcomes`, one per connect attempt, in order; outcomes after a halt
/// change nothing, since a halted batch owes no further block.
pub open spec fn cursor_after(outcomes: Seq<bool>) -> (int, bool)
    decreases outcomes.len(),
{
    if outcomes.len() == 0 {
        (0, false)
    } else {
        let prev = cursor_after(outcomes.drop_last());
        if prev.1 {
            prev
        } else {
            outcome_step(prev.0, prev.1, outcomes.last())
        }
    }
}

/// The position of the first failed outcome, or the sequence's length when
/// every outcome succeeded.
pub open spec fn first_failure(outcomes: Seq<bool>) -> int
    decreases outcomes.len(),
{
    if outcomes.len() == 0 {
        0
    } else {
        let f = first_failure(outcomes.drop_last());
        if f < outcomes.len() - 1 {
            f
        } else if outcomes.last() {
            outcomes.len() as int
        } else {
            outcomes.len() - 1
        }
    }
}

/// Law: blocks of a batch are connected strictly in position order, and a
/// block is submitted only if every earlier block connected — after any
/// sequence of outcomes the cursor stands exactly at the first failure
/// (past the whole batch when none failed), and the batch is halted
/// exactly when some outcome failed.
pub proof fn lemma_submission_stops_at_first_failure(outcomes: Seq<bool>)
    ensures
        cursor_after(outcomes).0 == first_failure(outcomes),
        cursor_after(outcomes).1 <==> first_failure(outcomes) < outcomes.len(),
    decreases outcomes.len(),
{
    if outcomes.len() > 0 {
        lemma_submission_stops_at_first_failure(outcomes.drop_last());
    }
}

/// One batch of reassembled blocks on its way to the chain reader.
///
/// Submissions are strictly ordered: the block at the cursor is handed out
/// only after every earlier block of the batch connected successfully,
/// because a block's parent must already be known when it is connected. A
/// failed connect halts the batch: the remaining blocks depend on the
/// failed one and are reported as skipped, never submitted.
pub struct SubmissionBatch {
    blocks: Vec<Block>,
    next: usize,
    halted: bool,
}

impl SubmissionBatch {
    /// The blocks of the batch, in submission order.
    pub closed spec fn blocks(&self) -> Seq<Block> {
        self.blocks@
    }

    /// The position of the next block owed to the chain reader.
    pub closed spec fn cursor(&self) -> int {
        self.next as int
    }

    /// Whether an earlier submission failed, halting the batch.
    pub closed spec fn halted(&self) -> bool {
        self.halted
    }

    /// The batch's invariant: the cursor stays within the batch.
    pub open spec fn wf(&self) -> bool {
        0 <= self.cursor() <= self.blocks().len()
    }

    /// A fresh batch, nothing submitted yet.
    pub fn new(blocks: Vec<Block>) -> (r: Self)
        ensures
            r.wf(),
            r.blocks() == blocks@,
            r.cursor() == 0,
            !r.halted(),
    {
        SubmissionBatch { blocks, next: 0, halted: false }
    }

    /// The next block owed to the chain reader: the block at the cursor,
    /// unless the batch is done or was halted by an earlier failure.
    pub fn next_to_submit(&self) -> (r: Option<Block>)
        requires
            self.wf(),
        ensures
            ({
                if self.halted() || self.cursor() == self.blocks().len() {
                    r is None
                } else {
                    &&& r matches Some(blk)
                    &&& blk.header == self.blocks()[self.cursor()].header
                    &&& blk.transactions@ == self.blocks()[self.cursor()].transactions@
                }
            }),
    {
        if self.halted || self.next == self.blocks.len() {
            return None;
        }
        let b = &self.blocks[self.next];
        let mut transactions: Vec<u64> = Vec::new();
        let mut i: usize = 0;
        while i < b.transactions.len()
            invariant
                i <= b.transactions@.len(),
                transactions@ == b.transactions@.take(i as int),
            decreases b.transactions@.len() - i,
        {
            transactions.push(b.transactions[i]);
            proof {
                assert(transactions@ =~= b.transactions@.take(i + 1));
            }
            i += 1;
        }
        proof {
            assert(b.transactions@.take(b.transactions@.len() as int) =~= b.transactions@);
        }
        Some(Block { header: b.header, transactions })
    }

    /// Records what the chain reader made of the block at the cursor. On
    /// success the cursor advances to the next block; on failure the batch
    /// halts and owes nothing further.
    pub fn record_outcome(&mut self, connected: bool)
        requires
            old(self).wf(),
            !old(self).halted(),
            old(self).cursor() < old(self).blocks().len(),
        ensures
            final(self).wf(),
            final(self).blocks() == old(self).blocks(),
            (final(self).cursor(), final(self).halted()) == outcome_step(
                old(self).cursor(),
                old(self).halted(),
                connected,
            ),
    {
        if connected {
            let len = self.blocks.len();
            assert(self.next < len);
            self.next += 1;
        } else {
            self.halted = true;
        }
    }

    /// How many blocks of the batch were not connected: still pending, or —
    /// once the batch is halted — skipped because their parent failed.
    /// Skipped blocks are reported through this count, never submitted.
    pub fn remaining_count(&self) -> (r: usize)
        requires
            self.wf(),
        ensures
            r == self.blocks().len() - self.cursor(),
    {
        self.blocks.len() - self.next
    }
}

} // verus!
