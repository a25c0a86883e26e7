//! The sync actor's cycle: a state machine from inbound message and shared
//! sync state to next stage and outbound action.
//!
//! The surrounding runtime owns the transport: it subscribes to inbound
//! messages, serializes access to one `SyncActor`, calls the handler
//! matching each message variant, and carries the returned action out —
//! sending a request with a bounded timeout, submitting a block to the
//! chain reader — feeding what comes back in as the next call. A timeout or
//! transport failure is fed in as `handle_step_failed`.
//!
//! One cycle runs at a time (single-flight): an announcement that arrives
//! while a cycle is active only updates the peer table and triggers
//! nothing, so two peers announcing concurrently cannot issue duplicate
//! requests or interleave one peer's headers with another's bodies. A
//! response arriving in the wrong stage is a protocol error that ends the
//! cycle, never the actor.

use crate::downloader::{
    Downloader, HEAD_CT, PeerEntry, any_known, best_idx, planned_numbers, queue_hashes,
    queue_headers, remove_peer, top_known_idx,
};
use crate::pool::{PoolEntry, live_entries};
use crate::submit::{SubmissionBatch, assemble_blocks};
use crate::types::{
    Block, BlockBody, DataType, GetDataByHashMsg, GetHashByNumberMsg, HashWithBlockHeader,
    HashWithNumber, SyncError,
};
use vstd::prelude::*;

verus! {

/// Where one sync cycle stands: which response the actor is awaiting.
pub enum CycleStage {
    /// No cycle is running.
    Idle,
    /// A hash-range request is out to `peer`.
    AwaitingHashBatch { peer: u64 },
    /// A header fetch is out to `peer`.
    AwaitingHeaders { peer: u64 },
    /// A body fetch is out to `peer`; `pending` holds the drained headers
    /// the arriving bodies are positionally aligned with.
    AwaitingBodies { peer: u64, pending: Vec<HashWithBlockHeader> },
    /// Blocks of the reassembled batch are being connected, one at a time.
    Submitting { peer: u64, batch: SubmissionBatch },
}

/// What the runtime must do next on the actor's behalf.
pub enum SyncAction {
    /// Send a hash-range request to `peer`, with a bounded timeout.
    SendHashRequest { peer: u64, request: GetHashByNumberMsg },
    /// Send a header or body fetch to `peer`, with a bounded timeout.
    SendDataRequest { peer: u64, request: GetDataByHashMsg },
    /// Hand this block of the running batch to the chain reader and feed
    /// the outcome back through `handle_connect_result`.
    SubmitBatchBlock { block: Block },
    /// Hand this freshly announced block straight to the chain reader; no
    /// outcome is fed back, the pipeline is not involved.
    SubmitDirect { block: Block },
    /// Report that the current cycle step failed; the cycle has ended.
    ReportError { error: SyncError },
    /// Report that the chain reader rejected the submitted block; the
    /// `skipped` blocks behind it depended on it and were reported failed
    /// rather than submitted.
    ReportConnectFailure { skipped: usize },
}

/// The concurrency boundary around the sync state: one shared instance,
/// one running cycle.
pub struct SyncActor {
    /// The shared sync state the cycle works on.
    pub downloader: Downloader,
    /// Where the running cycle stands.
    pub stage: CycleStage,
}

/// How many of the `len` live entries one drain hands out.
pub open spec fn drain_count(len: nat) -> int {
    if HEAD_CT as int <= len {
        HEAD_CT as int
    } else {
        len as int
    }
}

impl SyncActor {
    /// The actor's invariant: sound sync state, and while submitting, a
    /// batch that still owes its current block.
    pub open spec fn wf(&self) -> bool {
        &&& self.downloader.wf()
        &&& (match self.stage {
            CycleStage::Submitting { peer, batch } => batch.wf() && !batch.halted()
                && batch.cursor() < batch.blocks().len(),
            _ => true,
        })
    }

    /// A fresh, idle actor around empty sync state.
    pub fn new(ttl: u64, cap: usize) -> (r: Self)
        requires
            cap >= 1,
        ensures
            r.wf(),
            r.stage is Idle,
            r.downloader.peers@ == Seq::<PeerEntry>::empty(),
    {
        SyncActor { downloader: Downloader::new(ttl, cap), stage: CycleStage::Idle }
    }

    /// A peer announced its tip. The announcement is always recorded. When
    /// the actor is idle it opens a cycle: if the best-known peer is ahead
    /// of `local_height` — re-queried by the runtime for this round — the
    /// planned hash-range request goes out to that peer. While a cycle is
    /// active the announcement triggers nothing (the single-flight guard):
    /// the running cycle is untouched and no request leaves.
    pub fn handle_announcement(&mut self, peer: u64, tip: HashWithBlockHeader, local_height: u64)
        -> (r: Option<SyncAction>)
        requires
            old(self).wf(),
        ensures
            final(self).wf(),
            final(self).downloader.peers@ == remove_peer(old(self).downloader.peers@, peer).push(
                PeerEntry { peer, tip },
            ),
            final(self).downloader.hash_pool == old(self).downloader.hash_pool,
            final(self).downloader.header_pool == old(self).downloader.header_pool,
            !(old(self).stage is Idle) ==> final(self).stage == old(self).stage && r is None,
            old(self).stage is Idle ==> ({
                let ps = final(self).downloader.peers@;
                let best = ps[best_idx(ps)];
                if best.tip.header.number > local_height {
                    &&& final(self).stage == (CycleStage::AwaitingHashBatch { peer: best.peer })
                    &&& r matches Some(SyncAction::SendHashRequest { peer: p, request })
                    &&& p == best.peer
                    &&& request.numbers@ == planned_numbers(best.tip.header.number)
                } else {
                    &&& final(self).stage is Idle
                    &&& r is None
                }
            }),
    {
        self.downloader.record_peer_announcement(peer, tip);
        let is_idle = match &self.stage {
            CycleStage::Idle => true,
            _ => false,
        };
        if !is_idle {
            return None;
        }
        match self.downloader.plan_hash_request(local_height) {
            Some((best, request)) => {
                self.stage = CycleStage::AwaitingHashBatch { peer: best };
                Some(SyncAction::SendHashRequest { peer: best, request })
            },
            None => None,
        }
    }

    /// The hash-range response arrived: `batch` holds the (hash, number)
    /// pairs, genesis-most first, and `known[i]` reports whether the chain
    /// reader holds `batch[i].hash` locally. The fork point is resolved,
    /// the pairs above it are queued, and the first window of queued hashes
    /// goes out as a header fetch. With no local match the fork lies beyond
    /// the batch and the cycle ends. In any stage but awaiting this
    /// response, the message is a protocol error ending the cycle.
    pub fn handle_hash_batch(&mut self, batch: Vec<HashWithNumber>, known: Vec<bool>, now: u64)
        -> (r: Option<SyncAction>)
        requires
            old(self).wf(),
            known@.len() == batch@.len(),
        ensures
            final(self).wf(),
            final(self).downloader.peers@ == old(self).downloader.peers@,
            final(self).downloader.header_pool == old(self).downloader.header_pool,
            ({
                match old(self).stage {
                    CycleStage::AwaitingHashBatch { peer } => {
                        if any_known(known@) {
                            let t = top_known_idx(known@);
                            let queued = queue_hashes(
                                old(self).downloader.hash_pool@,
                                old(self).downloader.hash_pool.cap(),
                                peer,
                                batch@,
                                t + 1,
                                batch@.len() as int,
                                now,
                            );
                            let live = live_entries(
                                queued,
                                old(self).downloader.hash_pool.ttl(),
                                now,
                            );
                            let n = drain_count(live.len());
                            &&& final(self).downloader.hash_pool@ == live.skip(n)
                            &&& (n == 0 ==> final(self).stage is Idle && r is None)
                            &&& (n > 0 ==> {
                                &&& final(self).stage == (CycleStage::AwaitingHeaders { peer })
                                &&& r matches Some(SyncAction::SendDataRequest { peer: p, request })
                                &&& p == peer
                                &&& request.data_type == DataType::Header
                                &&& request.hashes@ == live.take(n).map_values(
                                    |e: PoolEntry<HashWithNumber>| e.value.hash,
                                )
                            })
                        } else {
                            &&& final(self).downloader.hash_pool == old(self).downloader.hash_pool
                            &&& final(self).stage is Idle
                            &&& r is None
                        }
                    },
                    _ => {
                        &&& final(self).downloader == old(self).downloader
                        &&& final(self).stage is Idle
                        &&& r == Some(
                            SyncAction::ReportError { error: SyncError::ProtocolMismatch },
                        )
                    },
                }
            }),
    {
        let peer = match &self.stage {
            CycleStage::AwaitingHashBatch { peer } => *peer,
            _ => {
                self.stage = CycleStage::Idle;
                return Some(SyncAction::ReportError { error: SyncError::ProtocolMismatch });
            },
        };
        match self.downloader.resolve_ancestor(peer, &batch, &known, now) {
            Some(_ancestor) => {
                match self.downloader.drain_hashes_for_header_request(HEAD_CT as usize, now) {
                    Some(request) => {
                        self.stage = CycleStage::AwaitingHeaders { peer };
                        Some(SyncAction::SendDataRequest { peer, request })
                    },
                    None => {
                        self.stage = CycleStage::Idle;
                        None
                    },
                }
            },
            None => {
                self.stage = CycleStage::Idle;
                None
            },
        }
    }

    /// The header fetch returned. The headers are recorded into the header
    /// pool keyed by their numbers, and the first window of them is drained
    /// back out as a body fetch, remembering the drained headers so the
    /// bodies can be paired with them. In any stage but awaiting headers,
    /// the message is a protocol error ending the cycle.
    pub fn handle_headers(&mut self, headers: Vec<HashWithBlockHeader>, now: u64) -> (r: Option<
        SyncAction,
    >)
        requires
            old(self).wf(),
        ensures
            final(self).wf(),
            final(self).downloader.peers@ == old(self).downloader.peers@,
            final(self).downloader.hash_pool == old(self).downloader.hash_pool,
            ({
                match old(self).stage {
                    CycleStage::AwaitingHeaders { peer } => {
                        let queued = queue_headers(
                            old(self).downloader.header_pool@,
                            old(self).downloader.header_pool.cap(),
                            peer,
                            headers@,
                            headers@.len() as int,
                            now,
                        );
                        let live = live_entries(
                            queued,
                            old(self).downloader.header_pool.ttl(),
                            now,
                        );
                        let n = drain_count(live.len());
                        &&& final(self).downloader.header_pool@ == live.skip(n)
                        &&& (n == 0 ==> final(self).stage is Idle && r is None)
                        &&& (n > 0 ==> {
                            &&& final(self).stage matches CycleStage::AwaitingBodies {
                                peer: p2,
                                pending,
                            }
                            &&& p2 == peer
                            &&& pending@ == live.take(n).map_values(
                                |e: PoolEntry<HashWithBlockHeader>| e.value,
                            )
                            &&& r matches Some(SyncAction::SendDataRequest { peer: p, request })
                            &&& p == peer
                            &&& request.data_type == DataType::Body
                            &&& request.hashes@ == live.take(n).map_values(
                                |e: PoolEntry<HashWithBlockHeader>| e.value.hash,
                            )
                        })
                    },
                    _ => {
                        &&& final(self).downloader == old(self).downloader
                        &&& final(self).stage is Idle
                        &&& r == Some(
                            SyncAction::ReportError { error: SyncError::ProtocolMismatch },
                        )
                    },
                }
            }),
    {
        let peer = match &self.stage {
            CycleStage::AwaitingHeaders { peer } => *peer,
            _ => {
                self.stage = CycleStage::Idle;
                return Some(SyncAction::ReportError { error: SyncError::ProtocolMismatch });
            },
        };
        self.downloader.record_headers(peer, &headers, now);
        match self.downloader.drain_headers_for_body_request(HEAD_CT as usize, now) {
            Some(plan) => {
                self.stage = CycleStage::AwaitingBodies { peer, pending: plan.headers };
                Some(SyncAction::SendDataRequest { peer, request: plan.request })
            },
            None => {
                self.stage = CycleStage::Idle;
                None
            },
        }
    }

    /// The body fetch returned. The bodies are validated against the
    /// pending headers they were requested for — same count, each body
    /// carrying its header's hash — and reassembled into a batch of blocks;
    /// the first block goes out for connection. A mismatch is a protocol
    /// error ending the cycle, as is this message in any stage but awaiting
    /// bodies.
    pub fn handle_bodies(&mut self, bodies: Vec<BlockBody>) -> (r: Option<SyncAction>)
        requires
            old(self).wf(),
        ensures
            final(self).wf(),
            final(self).downloader == old(self).downloader,
            ({
                match old(self).stage {
                    CycleStage::AwaitingBodies { peer, pending } => {
                        let ok = pending@.len() == bodies@.len() && (forall|i: int|
                            0 <= i < pending@.len() ==> (#[trigger] bodies@[i]).hash
                                == pending@[i].hash);
                        &&& (!ok ==> final(self).stage is Idle && r == Some(
                            SyncAction::ReportError { error: SyncError::ProtocolMismatch },
                        ))
                        &&& (ok && pending@.len() == 0 ==> final(self).stage is Idle
                            && r is None)
                        &&& (ok && pending@.len() > 0 ==> {
                            &&& final(self).stage matches CycleStage::Submitting {
                                peer: p2,
                                batch,
                            }
                            &&& p2 == peer
                            &&& batch.cursor() == 0
                            &&& !batch.halted()
                            &&& batch.blocks().len() == pending@.len()
                            &&& (forall|i: int|
                                0 <= i < pending@.len() ==> (#[trigger] batch.blocks()[i]).header
                                    == pending@[i].header && batch.blocks()[i].transactions
                                    == bodies@[i].transactions)
                            &&& r matches Some(SyncAction::SubmitBatchBlock { block })
                            &&& block.header == pending@[0].header
                            &&& block.transactions@ == bodies@[0].transactions@
                        })
                    },
                    _ => {
                        &&& final(self).stage is Idle
                        &&& r == Some(
                            SyncAction::ReportError { error: SyncError::ProtocolMismatch },
                        )
                    },
                }
            }),
    {
        let mut stage = CycleStage::Idle;
        core::mem::swap(&mut stage, &mut self.stage);
        let (peer, pending) = match stage {
            CycleStage::AwaitingBodies { peer, pending } => (peer, pending),
            _ => {
                return Some(SyncAction::ReportError { error: SyncError::ProtocolMismatch });
            },
        };
        match assemble_blocks(pending, bodies) {
            Ok(blocks) => {
                let batch = SubmissionBatch::new(blocks);
                match batch.next_to_submit() {
                    Some(block) => {
                        self.stage = CycleStage::Submitting { peer, batch };
                        Some(SyncAction::SubmitBatchBlock { block })
                    },
                    None => None,
                }
            },
            Err(error) => Some(SyncAction::ReportError { error }),
        }
    }

    /// The chain reader reported on the submitted block. On success the
    /// next block of the batch goes out; when the batch is done the cycle
    /// drains whatever the pools still hold — further queued hashes first,
    /// then further headers — and ends only when both pools yield nothing.
    /// On failure the rest of the batch depended on the rejected block: it
    /// is reported as skipped, never submitted, and the cycle ends. In any
    /// stage but submitting, the message is a protocol error ending the
    /// cycle.
    pub fn handle_connect_result(&mut self, connected: bool, now: u64) -> (r: Option<SyncAction>)
        requires
            old(self).wf(),
        ensures
            final(self).wf(),
            final(self).downloader.peers@ == old(self).downloader.peers@,
            ({
                match old(self).stage {
                    CycleStage::Submitting { peer, batch } => {
                        &&& (!connected ==> {
                            &&& final(self).stage is Idle
                            &&& final(self).downloader == old(self).downloader
                            &&& r matches Some(SyncAction::ReportConnectFailure { skipped })
                            &&& skipped == batch.blocks().len() - batch.cursor() - 1
                        })
                        &&& (connected && batch.cursor() + 1 < batch.blocks().len() ==> {
                            &&& final(self).downloader == old(self).downloader
                            &&& final(self).stage matches CycleStage::Submitting {
                                peer: p2,
                                batch: b2,
                            }
                            &&& p2 == peer
                            &&& b2.blocks() == batch.blocks()
                            &&& b2.cursor() == batch.cursor() + 1
                            &&& !b2.halted()
                            &&& r matches Some(SyncAction::SubmitBatchBlock { block })
                            &&& block.header == batch.blocks()[batch.cursor() + 1].header
                            &&& block.transactions@ == batch.blocks()[batch.cursor()
                                + 1].transactions@
                        })
                        &&& (connected && batch.cursor() + 1 == batch.blocks().len() ==> {
                            let live_h = live_entries(
                                old(self).downloader.hash_pool@,
                                old(self).downloader.hash_pool.ttl(),
                                now,
                            );
                            let n_h = drain_count(live_h.len());
                            &&& final(self).downloader.hash_pool@ == live_h.skip(n_h)
                            &&& (n_h > 0 ==> {
                                &&& final(self).downloader.header_pool == old(
                                    self,
                                ).downloader.header_pool
                                &&& final(self).stage == (CycleStage::AwaitingHeaders { peer })
                                &&& r matches Some(SyncAction::SendDataRequest {
                                    peer: p,
                                    request,
                                })
                                &&& p == peer
                                &&& request.data_type == DataType::Header
                                &&& request.hashes@ == live_h.take(n_h).map_values(
                                    |e: PoolEntry<HashWithNumber>| e.value.hash,
                                )
                            })
                            &&& (n_h == 0 ==> {
                                let live_hd = live_entries(
                                    old(self).downloader.header_pool@,
                                    old(self).downloader.header_pool.ttl(),
                                    now,
                                );
                                let n_hd = drain_count(live_hd.len());
                                &&& final(self).downloader.header_pool@ == live_hd.skip(n_hd)
                                &&& (n_hd > 0 ==> {
                                    &&& final(self).stage matches CycleStage::AwaitingBodies {
                                        peer: p2,
                                        pending,
                                    }
                                    &&& p2 == peer
                                    &&& pending@ == live_hd.take(n_hd).map_values(
                                        |e: PoolEntry<HashWithBlockHeader>| e.value,
                                    )
                                    &&& r matches Some(SyncAction::SendDataRequest {
                                        peer: p,
                                        request,
                                    })
                                    &&& p == peer
                                    &&& request.data_type == DataType::Body
                                    &&& request.hashes@ == live_hd.take(n_hd).map_values(
                                        |e: PoolEntry<HashWithBlockHeader>| e.value.hash,
                                    )
                                })
                                &&& (n_hd == 0 ==> final(self).stage is Idle && r is None)
                            })
                        })
                    },
                    _ => {
                        &&& final(self).downloader == old(self).downloader
                        &&& final(self).stage is Idle
                        &&& r == Some(
                            SyncAction::ReportError { error: SyncError::ProtocolMismatch },
                        )
                    },
                }
            }),
    {
        let mut stage = CycleStage::Idle;
        core::mem::swap(&mut stage, &mut self.stage);
        let (peer, mut batch) = match stage {
            CycleStage::Submitting { peer, batch } => (peer, batch),
            _ => {
                return Some(SyncAction::ReportError { error: SyncError::ProtocolMismatch });
            },
        };
        if !connected {
            batch.record_outcome(false);
            let skipped = batch.remaining_count() - 1;
            return Some(SyncAction::ReportConnectFailure { skipped });
        }
        batch.record_outcome(true);
        match batch.next_to_submit() {
            Some(block) => {
                self.stage = CycleStage::Submitting { peer, batch };
                return Some(SyncAction::SubmitBatchBlock { block });
            },
            None => {},
        }
        match self.downloader.drain_hashes_for_header_request(HEAD_CT as usize, now) {
            Some(request) => {
                self.stage = CycleStage::AwaitingHeaders { peer };
                return Some(SyncAction::SendDataRequest { peer, request });
            },
            None => {},
        }
        match self.downloader.drain_headers_for_body_request(HEAD_CT as usize, now) {
            Some(plan) => {
                self.stage = CycleStage::AwaitingBodies { peer, pending: plan.headers };
                Some(SyncAction::SendDataRequest { peer, request: plan.request })
            },
            None => None,
        }
    }

    /// A freshly minted or gossiped block arrived: it bypasses the pipeline
    /// and goes straight to the chain reader. The running cycle, if any, is
    /// untouched.
    pub fn handle_new_block(&self, block: Block) -> (r: Option<SyncAction>)
        ensures
            ({
                &&& r matches Some(SyncAction::SubmitDirect { block: b })
                &&& b.header == block.header
                &&& b.transactions@ == block.transactions@
            }),
    {
        Some(SyncAction::SubmitDirect { block })
    }

    /// The outstanding request timed out or the transport failed: the cycle
    /// ends with no retry against that peer this cycle. The pools keep what
    /// they hold — their entries expire on their own — and the next
    /// announcement can open a fresh cycle.
    pub fn handle_step_failed(&mut self) -> (r: Option<SyncAction>)
        requires
            old(self).wf(),
        ensures
            final(self).wf(),
            final(self).stage is Idle,
            final(self).downloader == old(self).downloader,
            r is None,
    {
        self.stage = CycleStage::Idle;
        None
    }
}

} // verus!
