//! The sync state: the table of peers and their last-announced tips, the
//! pools of pending hashes and headers, and the pure protocol decisions of
//! one sync exchange — which peer to follow, which numbers to ask for,
//! where the fork point lies, and what to fetch next.
//!
//! Every operation here is a decision over plain values. The collaborators
//! that own the transport and the chain storage act outside: callers pass in
//! what those collaborators reported (the local height, which hashes exist
//! locally) and carry the returned requests out. The local chain height is
//! passed anew on every round, never cached across rounds.

use crate::pool::{
    PoolEntry, TtlPool, has_entry, lemma_pool_insert_len, lemma_pool_insert_present,
    lemma_pool_insert_preserves, live_entries, pool_insert,
};
use crate::types::{
    DataType, GetDataByHashMsg, GetHashByNumberMsg, HashWithBlockHeader, HashWithNumber,
};
use vstd::prelude::*;

verus! {

/// How many block numbers one hash-range request covers, and how many
/// entries one drain hands to a header or body fetch.
pub const HEAD_CT: u64 = 100;

/// One known peer and the tip it last announced. Recency is the position in
/// the peer table: a re-announcing peer moves to the back.
#[derive(Clone, Copy, PartialEq, Eq, Structural, Debug)]
pub struct PeerEntry {
    pub peer: u64,
    pub tip: HashWithBlockHeader,
}

/// No peer appears twice in the table.
pub open spec fn no_dup_peers(s: Seq<PeerEntry>) -> bool {
    forall|i: int, j: int| 0 <= i < j < s.len() ==> (#[trigger] s[i]).peer != (#[trigger] s[j]).peer
}

/// `s` with any entry of `peer` removed, order kept.
pub open spec fn remove_peer(s: Seq<PeerEntry>, peer: u64) -> Seq<PeerEntry>
    decreases s.len(),
{
    if s.len() == 0 {
        Seq::empty()
    } else {
        let init = remove_peer(s.drop_last(), peer);
        if s.last().peer == peer {
            init
        } else {
            init.push(s.last())
        }
    }
}

proof fn lemma_remove_peer_push(s: Seq<PeerEntry>, e: PeerEntry, peer: u64)
    ensures
        remove_peer(s.push(e), peer) == if e.peer == peer {
            remove_peer(s, peer)
        } else {
            remove_peer(s, peer).push(e)
        },
{
    assert(s.push(e).drop_last() =~= s);
    assert(s.push(e).last() == e);
}

proof fn lemma_remove_peer_facts(s: Seq<PeerEntry>, peer: u64)
    ensures
        forall|i: int|
            0 <= i < remove_peer(s, peer).len() ==> s.contains(#[trigger] remove_peer(s, peer)[i]),
        forall|i: int|
            0 <= i < remove_peer(s, peer).len() ==> (#[trigger] remove_peer(s, peer)[i]).peer
                != peer,
        remove_peer(s, peer).len() <= s.len(),
    decreases s.len(),
{
    let r = remove_peer(s, peer);
    if s.len() > 0 {
        let init = s.drop_last();
        let ri = remove_peer(init, peer);
        lemma_remove_peer_facts(init, peer);
        assert forall|i: int| 0 <= i < r.len() implies s.contains(#[trigger] r[i]) && r[i].peer
            != peer by {
            if i < ri.len() {
                assert(r[i] == ri[i]);
                assert(init.contains(ri[i]));
                let i0 = choose|i0: int| 0 <= i0 < init.len() && init[i0] == ri[i];
                assert(s[i0] == r[i]);
            } else {
                assert(r[i] == s.last());
                assert(s[s.len() - 1] == r[i]);
            }
        }
    }
}

proof fn lemma_remove_peer_no_dup(s: Seq<PeerEntry>, peer: u64)
    requires
        no_dup_peers(s),
    ensures
        no_dup_peers(remove_peer(s, peer)),
    decreases s.len(),
{
    if s.len() > 0 {
        let init = s.drop_last();
        assert(no_dup_peers(init)) by {
            assert(forall|i: int| 0 <= i < init.len() ==> init[i] == s[i]);
        }
        lemma_remove_peer_no_dup(init, peer);
        if s.last().peer != peer {
            let ri = remove_peer(init, peer);
            let t = ri.push(s.last());
            lemma_remove_peer_facts(init, peer);
            assert forall|i: int, j: int|
                0 <= i < j < t.len() implies (#[trigger] t[i]).peer != (#[trigger] t[j]).peer by {
                if j == ri.len() {
                    let e = ri[i];
                    assert(init.contains(e));
                    let i0 = choose|i0: int| 0 <= i0 < init.len() && init[i0] == e;
                    assert(s[i0] == e);
                    assert(s[s.len() - 1] == s.last());
                }
            }
        }
    }
}

/// The index of the best peer of a non-empty table: greatest announced
/// height, ties broken towards the most recently announced (the later
/// table position).
pub open spec fn best_idx(s: Seq<PeerEntry>) -> int
    decreases s.len(),
{
    if s.len() <= 1 {
        0
    } else {
        let b = best_idx(s.drop_last());
        if s.last().tip.header.number >= s[b].tip.header.number {
            s.len() - 1
        } else {
            b
        }
    }
}

/// Law: the selected peer carries the strictly greatest announced height
/// among all known peers — no peer announces higher, and any peer that
/// announces the same height announced it no later.
pub proof fn lemma_best_idx_is_max(s: Seq<PeerEntry>)
    requires
        s.len() > 0,
    ensures
        0 <= best_idx(s) < s.len(),
        forall|k: int|
            0 <= k < s.len() ==> (#[trigger] s[k]).tip.header.number
                <= s[best_idx(s)].tip.header.number,
        forall|k: int|
            0 <= k < s.len() && (#[trigger] s[k]).tip.header.number
                == s[best_idx(s)].tip.header.number ==> k <= best_idx(s),
    decreases s.len(),
{
    if s.len() > 1 {
        let init = s.drop_last();
        lemma_best_idx_is_max(init);
        assert(forall|k: int| 0 <= k < init.len() ==> init[k] == s[k]);
        assert(s[s.len() - 1] == s.last());
    }
}

/// The sync state: peer table, pending hash pool, pending header pool.
pub struct Downloader {
    /// Pending (hash, number) pairs awaiting a header fetch, keyed by
    /// (peer, number).
    pub hash_pool: TtlPool<HashWithNumber>,
    /// Fetched headers awaiting a body fetch, keyed by (peer, number).
    pub header_pool: TtlPool<HashWithBlockHeader>,
    /// The known peers and their last-announced tips, oldest first.
    pub peers: Vec<PeerEntry>,
}

impl Downloader {
    /// The state's invariant: both pools well-formed, no peer listed twice.
    pub open spec fn wf(&self) -> bool {
        self.hash_pool.wf() && self.header_pool.wf() && no_dup_peers(self.peers@)
    }

    /// A fresh sync state with empty pools that expire entries older than
    /// `ttl` and hold at most `cap` entries each.
    pub fn new(ttl: u64, cap: usize) -> (r: Self)
        requires
            cap >= 1,
        ensures
            r.wf(),
            r.peers@ == Seq::<PeerEntry>::empty(),
            r.hash_pool@ == Seq::<PoolEntry<HashWithNumber>>::empty(),
            r.header_pool@ == Seq::<PoolEntry<HashWithBlockHeader>>::empty(),
            r.hash_pool.ttl() == ttl,
            r.hash_pool.cap() == cap,
            r.header_pool.ttl() == ttl,
            r.header_pool.cap() == cap,
    {
        Downloader {
            hash_pool: TtlPool::new(ttl, cap),
            header_pool: TtlPool::new(ttl, cap),
            peers: Vec::new(),
        }
    }

    /// Unconditionally overwrites what `peer` last announced; the peer moves
    /// to the back of the table, making it the most recently announced.
    pub fn record_peer_announcement(&mut self, peer: u64, tip: HashWithBlockHeader)
        requires
            old(self).wf(),
        ensures
            final(self).wf(),
            final(self).peers@ == remove_peer(old(self).peers@, peer).push(
                PeerEntry { peer, tip },
            ),
            final(self).hash_pool == old(self).hash_pool,
            final(self).header_pool == old(self).header_pool,
    {
        let ghost s = self.peers@;
        let mut kept: Vec<PeerEntry> = Vec::new();
        let n = self.peers.len();
        let mut i: usize = 0;
        while i < n
            invariant
                i <= n,
                n == self.peers.len(),
                self.peers@ == s,
                kept@ == remove_peer(s.take(i as int), peer),
            decreases n - i,
        {
            let e = self.peers[i];
            proof {
                assert(s.take(i + 1) =~= s.take(i as int).push(s[i as int]));
                lemma_remove_peer_push(s.take(i as int), s[i as int], peer);
            }
            if e.peer != peer {
                kept.push(e);
            }
            i += 1;
        }
        proof {
            assert(s.take(n as int) =~= s);
        }
        kept.push(PeerEntry { peer, tip });
        self.peers = kept;
        proof {
            lemma_remove_peer_no_dup(s, peer);
            lemma_remove_peer_facts(s, peer);
            let r = remove_peer(s, peer);
            let t = r.push(PeerEntry { peer, tip });
            assert forall|i: int, j: int|
                0 <= i < j < t.len() implies (#[trigger] t[i]).peer != (#[trigger] t[j]).peer by {
                if j == r.len() {
                    assert(t[i] == r[i]);
                }
            }
        }
    }

    /// The index of the best peer, per `best_idx`.
    fn best_entry_index(&self) -> (r: usize)
        requires
            self.peers@.len() > 0,
        ensures
            r as int == best_idx(self.peers@),
            r < self.peers@.len(),
    {
        let ghost s = self.peers@;
        let mut best: usize = 0;
        let mut i: usize = 1;
        while i < self.peers.len()
            invariant
                1 <= i <= s.len(),
                s == self.peers@,
                s.len() > 0,
                best < i,
                best as int == best_idx(s.take(i as int)),
            decreases s.len() - i,
        {
            proof {
                assert(s.take(i + 1) =~= s.take(i as int).push(s[i as int]));
                assert(s.take(i + 1).drop_last() =~= s.take(i as int));
                assert(s.take(i + 1).last() == s[i as int]);
                assert(s.take(i as int)[best as int] == s[best as int]);
            }
            if self.peers[i].tip.header.number >= self.peers[best].tip.header.number {
                best = i;
            }
            i += 1;
        }
        proof {
            assert(s.take(s.len() as int) =~= s);
        }
        best
    }

    /// Returns the peer to sync from: the one with the greatest announced
    /// height among all known peers, ties broken by most-recent announcement.
    /// `None` means no peer is known — nothing to sync, not an error.
    pub fn select_best_peer(&self) -> (r: Option<u64>)
        ensures
            self.peers@.len() == 0 <==> r is None,
            self.peers@.len() > 0 ==> r == Some(self.peers@[best_idx(self.peers@)].peer),
    {
        if self.peers.len() == 0 {
            None
        } else {
            let b = self.best_entry_index();
            Some(self.peers[b].peer)
        }
    }

    /// Plans the next hash-range request. If the best peer announces a
    /// height above `local_height` — re-queried by the caller this round,
    /// never cached from an earlier one — the returned request covers the
    /// whole chain up to that height when it is short, and the most recent
    /// `HEAD_CT` numbers ending at it otherwise. `None` means no peer is
    /// ahead: already in sync.
    pub fn plan_hash_request(&self, local_height: u64) -> (r: Option<(u64, GetHashByNumberMsg)>)
        ensures
            ({
                let ps = self.peers@;
                &&& (ps.len() == 0 ==> r is None)
                &&& (ps.len() > 0 ==> {
                    let best = ps[best_idx(ps)];
                    if best.tip.header.number > local_height {
                        &&& r matches Some(p)
                        &&& p.0 == best.peer
                        &&& p.1.numbers@ == planned_numbers(best.tip.header.number)
                    } else {
                        r is None
                    }
                })
            }),
    {
        if self.peers.len() == 0 {
            return None;
        }
        let b = self.best_entry_index();
        let best = self.peers[b];
        let number = best.tip.header.number;
        if local_height >= number {
            return None;
        }
        let mut numbers: Vec<u64> = Vec::new();
        if number < HEAD_CT {
            let mut i: u64 = 0;
            while i < number + 1
                invariant
                    number < HEAD_CT,
                    i <= number + 1,
                    numbers@ == ascending_range(0, i as int),
                decreases number + 1 - i,
            {
                numbers.push(i);
                proof {
                    assert(numbers@ =~= ascending_range(0, i + 1));
                }
                i += 1;
            }
            Some((best.peer, GetHashByNumberMsg { numbers }))
        } else {
            let start = number - HEAD_CT + 1;
            let mut i: u64 = 0;
            while i < HEAD_CT
                invariant
                    number >= HEAD_CT,
                    start == number - HEAD_CT + 1,
                    i <= HEAD_CT,
                    numbers@ == ascending_range(start, i as int),
                decreases HEAD_CT - i,
            {
                numbers.push(start + i);
                proof {
                    assert(numbers@ =~= ascending_range(start, i + 1));
                }
                i += 1;
            }
            Some((best.peer, GetHashByNumberMsg { numbers }))
        }
    }

    /// Resolves the fork point with `peer` from a batch of (hash, number)
    /// pairs, ordered genesis-most first, where `known[i]` reports whether
    /// the chain reader holds `batch[i].hash` locally. Scanning tip-to-
    /// genesis, the highest pair present locally is the most recent common
    /// ancestor; every pair above it is queued for a header fetch, keyed by
    /// (peer, number). When no pair is known locally the fork point lies
    /// further back than the batch reaches: nothing is queued and `None`
    /// says the caller should widen the window on a later round.
    pub fn resolve_ancestor(
        &mut self,
        peer: u64,
        batch: &Vec<HashWithNumber>,
        known: &Vec<bool>,
        now: u64,
    ) -> (r: Option<HashWithNumber>)
        requires
            old(self).wf(),
            known@.len() == batch@.len(),
        ensures
            final(self).wf(),
            final(self).peers@ == old(self).peers@,
            final(self).header_pool == old(self).header_pool,
            final(self).hash_pool.ttl() == old(self).hash_pool.ttl(),
            final(self).hash_pool.cap() == old(self).hash_pool.cap(),
            ({
                if any_known(known@) {
                    let t = top_known_idx(known@);
                    &&& r == Some(batch@[t])
                    &&& final(self).hash_pool@ == queue_hashes(
                        old(self).hash_pool@,
                        old(self).hash_pool.cap(),
                        peer,
                        batch@,
                        t + 1,
                        batch@.len() as int,
                        now,
                    )
                } else {
                    &&& r is None
                    &&& final(self).hash_pool == old(self).hash_pool
                }
            }),
    {
        let n = batch.len();
        let mut i: usize = n;
        while i > 0 && !known[i - 1]
            invariant
                i <= n,
                n == batch@.len(),
                n == known@.len(),
                forall|j: int| i <= j < n ==> !known@[j],
            decreases i,
        {
            i -= 1;
        }
        if i == 0 {
            proof {
                assert(!any_known(known@));
            }
            return None;
        }
        let t = i - 1;
        proof {
            assert(known@[t as int]);
            assert(any_known(known@));
            lemma_top_known_idx_at(known@, t as int);
        }
        let ancestor = batch[t];
        let ghost s0 = self.hash_pool@;
        let ghost cap = self.hash_pool.cap();
        let mut j: usize = t + 1;
        while j < n
            invariant
                t < j <= n,
                n == batch@.len(),
                self.hash_pool.wf(),
                self.hash_pool.ttl() == old(self).hash_pool.ttl(),
                self.hash_pool.cap() == cap,
                self.hash_pool@ == queue_hashes(s0, cap, peer, batch@, t + 1, j as int, now),
                self.header_pool == old(self).header_pool,
                self.peers@ == old(self).peers@,
            decreases n - j,
        {
            let h = batch[j];
            let _ = self.hash_pool.insert(peer, h.number, h, now);
            j += 1;
        }
        Some(ancestor)
    }

    /// Drains up to `max_count` live pending hashes and turns them into a
    /// header fetch, in insertion order; expired entries are discarded on
    /// the way. `None` means the pool yielded nothing.
    pub fn drain_hashes_for_header_request(&mut self, max_count: usize, now: u64) -> (r: Option<
        GetDataByHashMsg,
    >)
        requires
            old(self).wf(),
        ensures
            final(self).wf(),
            final(self).peers@ == old(self).peers@,
            final(self).header_pool == old(self).header_pool,
            final(self).hash_pool.ttl() == old(self).hash_pool.ttl(),
            final(self).hash_pool.cap() == old(self).hash_pool.cap(),
            ({
                let live = live_entries(old(self).hash_pool@, old(self).hash_pool.ttl(), now);
                let n = if max_count as int <= live.len() {
                    max_count as int
                } else {
                    live.len() as int
                };
                &&& final(self).hash_pool@ == live.skip(n)
                &&& (n == 0 ==> r is None)
                &&& (n > 0 ==> {
                    &&& r matches Some(req)
                    &&& req.data_type == DataType::Header
                    &&& req.hashes@ == live.take(n).map_values(
                        |e: PoolEntry<HashWithNumber>| e.value.hash,
                    )
                })
            }),
    {
        let vals = self.hash_pool.take(max_count, now);
        let ghost live = live_entries(old(self).hash_pool@, old(self).hash_pool.ttl(), now);
        let ghost n = if max_count as int <= live.len() {
            max_count as int
        } else {
            live.len() as int
        };
        if vals.len() == 0 {
            return None;
        }
        let mut hashes: Vec<u64> = Vec::new();
        let mut i: usize = 0;
        while i < vals.len()
            invariant
                i <= vals.len(),
                hashes@ == vals@.take(i as int).map_values(|h: HashWithNumber| h.hash),
            decreases vals.len() - i,
        {
            hashes.push(vals[i].hash);
            proof {
                assert(hashes@ =~= vals@.take(i + 1).map_values(|h: HashWithNumber| h.hash));
            }
            i += 1;
        }
        proof {
            assert(vals@.take(vals@.len() as int) =~= vals@);
            assert(hashes@ =~= live.take(n).map_values(|e: PoolEntry<HashWithNumber>| e.value.hash));
        }
        Some(GetDataByHashMsg { hashes, data_type: DataType::Header })
    }

    /// Records headers fetched from `peer` into the header pool, each keyed
    /// by its block number and stamped `now`.
    pub fn record_headers(&mut self, peer: u64, headers: &Vec<HashWithBlockHeader>, now: u64)
        requires
            old(self).wf(),
        ensures
            final(self).wf(),
            final(self).peers@ == old(self).peers@,
            final(self).hash_pool == old(self).hash_pool,
            final(self).header_pool.ttl() == old(self).header_pool.ttl(),
            final(self).header_pool.cap() == old(self).header_pool.cap(),
            final(self).header_pool@ == queue_headers(
                old(self).header_pool@,
                old(self).header_pool.cap(),
                peer,
                headers@,
                headers@.len() as int,
                now,
            ),
    {
        let ghost s0 = self.header_pool@;
        let ghost cap = self.header_pool.cap();
        let mut i: usize = 0;
        while i < headers.len()
            invariant
                i <= headers@.len(),
                self.header_pool.wf(),
                self.header_pool.ttl() == old(self).header_pool.ttl(),
                self.header_pool.cap() == cap,
                self.header_pool@ == queue_headers(s0, cap, peer, headers@, i as int, now),
                self.hash_pool == old(self).hash_pool,
                self.peers@ == old(self).peers@,
            decreases headers@.len() - i,
        {
            let h = headers[i];
            let _ = self.header_pool.insert(peer, h.header.number, h, now);
            i += 1;
        }
    }

    /// Drains up to `max_count` live pending headers and turns them into a
    /// body fetch whose hash list is positionally aligned with the returned
    /// headers, so the arriving bodies can be paired back with them. `None`
    /// means the pool yielded nothing.
    pub fn drain_headers_for_body_request(&mut self, max_count: usize, now: u64) -> (r: Option<
        BodyRequestPlan,
    >)
        requires
            old(self).wf(),
        ensures
            final(self).wf(),
            final(self).peers@ == old(self).peers@,
            final(self).hash_pool == old(self).hash_pool,
            final(self).header_pool.ttl() == old(self).header_pool.ttl(),
            final(self).header_pool.cap() == old(self).header_pool.cap(),
            ({
                let live = live_entries(old(self).header_pool@, old(self).header_pool.ttl(), now);
                let n = if max_count as int <= live.len() {
                    max_count as int
                } else {
                    live.len() as int
                };
                &&& final(self).header_pool@ == live.skip(n)
                &&& (n == 0 ==> r is None)
                &&& (n > 0 ==> {
                    &&& r matches Some(plan)
                    &&& plan.request.data_type == DataType::Body
                    &&& plan.headers@ == live.take(n).map_values(
                        |e: PoolEntry<HashWithBlockHeader>| e.value,
                    )
                    &&& plan.request.hashes@ == live.take(n).map_values(
                        |e: PoolEntry<HashWithBlockHeader>| e.value.hash,
                    )
                })
            }),
    {
        let vals = self.header_pool.take(max_count, now);
        let ghost live = live_entries(old(self).header_pool@, old(self).header_pool.ttl(), now);
        let ghost n = if max_count as int <= live.len() {
            max_count as int
        } else {
            live.len() as int
        };
        if vals.len() == 0 {
            return None;
        }
        let mut hashes: Vec<u64> = Vec::new();
        let mut i: usize = 0;
        while i < vals.len()
            invariant
                i <= vals.len(),
                hashes@ == vals@.take(i as int).map_values(|h: HashWithBlockHeader| h.hash),
            decreases vals.len() - i,
        {
            hashes.push(vals[i].hash);
            proof {
                assert(hashes@ =~= vals@.take(i + 1).map_values(|h: HashWithBlockHeader| h.hash));
            }
            i += 1;
        }
        proof {
            assert(vals@.take(vals@.len() as int) =~= vals@);
            assert(hashes@ =~= live.take(n).map_values(
                |e: PoolEntry<HashWithBlockHeader>| e.value.hash,
            ));
        }
        Some(
            BodyRequestPlan {
                headers: vals,
                request: GetDataByHashMsg { hashes, data_type: DataType::Body },
            },
        )
    }
}

/// A planned body fetch: the drained headers, and the request whose hash
/// list is positionally aligned with them.
pub struct BodyRequestPlan {
    pub headers: Vec<HashWithBlockHeader>,
    pub request: GetDataByHashMsg,
}

/// The header pool after recording the first `upto` of the fetched headers,
/// each keyed by (peer, block number) and stamped `now`.
pub open spec fn queue_headers(
    s: Seq<PoolEntry<HashWithBlockHeader>>,
    cap: usize,
    peer: u64,
    hs: Seq<HashWithBlockHeader>,
    upto: int,
    now: u64,
) -> Seq<PoolEntry<HashWithBlockHeader>>
    decreases upto,
{
    if upto <= 0 {
        s
    } else {
        pool_insert(
            queue_headers(s, cap, peer, hs, upto - 1, now),
            cap,
            peer,
            hs[upto - 1].header.number,
            hs[upto - 1],
            now,
        )
    }
}

/// The block numbers `start, start + 1, ...`, `count` of them.
pub open spec fn ascending_range(start: u64, count: int) -> Seq<u64> {
    Seq::new(count as nat, |i: int| (start + i) as u64)
}

/// The number range a hash request covers for a peer at height `h`: the
/// whole chain up to `h` when it is shorter than the window, the most
/// recent `HEAD_CT` numbers ending at `h` otherwise.
pub open spec fn planned_numbers(h: u64) -> Seq<u64> {
    if h < HEAD_CT {
        ascending_range(0, h + 1)
    } else {
        ascending_range((h - HEAD_CT + 1) as u64, HEAD_CT as int)
    }
}

/// Whether any position of a batch was reported locally known.
pub open spec fn any_known(known: Seq<bool>) -> bool {
    exists|i: int| 0 <= i < known.len() && known[i]
}

/// The highest position of a batch reported locally known.
pub open spec fn top_known_idx(known: Seq<bool>) -> int
    decreases known.len(),
{
    if known.len() == 0 {
        -1
    } else if known.last() {
        known.len() - 1
    } else {
        top_known_idx(known.drop_last())
    }
}

proof fn lemma_top_known_idx_at(known: Seq<bool>, t: int)
    requires
        0 <= t < known.len(),
        known[t],
        forall|j: int| t < j < known.len() ==> !known[j],
    ensures
        top_known_idx(known) == t,
    decreases known.len(),
{
    if t < known.len() - 1 {
        assert(!known.last());
        assert(forall|j: int| 0 <= j < known.len() - 1 ==> known.drop_last()[j] == known[j]);
        lemma_top_known_idx_at(known.drop_last(), t);
    }
}

/// The numbers of a batch strictly ascend: genesis-most first, tip last.
pub open spec fn nums_strictly_ascending(b: Seq<HashWithNumber>) -> bool {
    forall|i: int, j: int|
        0 <= i < j < b.len() ==> (#[trigger] b[i]).number < (#[trigger] b[j]).number
}

/// The hash pool after queuing batch positions `from` up to (excluding)
/// `upto`, each keyed by (peer, number) and stamped `now`.
pub open spec fn queue_hashes(
    s: Seq<PoolEntry<HashWithNumber>>,
    cap: usize,
    peer: u64,
    b: Seq<HashWithNumber>,
    from: int,
    upto: int,
    now: u64,
) -> Seq<PoolEntry<HashWithNumber>>
    decreases upto - from,
{
    if upto <= from {
        s
    } else {
        pool_insert(
            queue_hashes(s, cap, peer, b, from, upto - 1, now),
            cap,
            peer,
            b[upto - 1].number,
            b[upto - 1],
            now,
        )
    }
}

/// Law: with a strictly ascending batch, the resolved ancestor position is
/// the highest-numbered pair reported locally known — no known pair sits
/// higher, and no pair above it was reported known.
pub proof fn lemma_resolved_ancestor_is_highest(b: Seq<HashWithNumber>, known: Seq<bool>)
    requires
        b.len() == known.len(),
        nums_strictly_ascending(b),
        any_known(known),
    ensures
        0 <= top_known_idx(known) < b.len(),
        known[top_known_idx(known)],
        forall|j: int|
            0 <= j < b.len() && known[j] ==> (#[trigger] b[j]).number
                <= b[top_known_idx(known)].number,
        forall|j: int| top_known_idx(known) < j < b.len() ==> !known[j],
{
    lemma_top_known_idx_props(known);
    let t = top_known_idx(known);
    assert forall|j: int|
        0 <= j < b.len() && known[j] implies (#[trigger] b[j]).number <= b[t].number by {
        if j > t {
            assert(!known[j]);
        }
    }
}

proof fn lemma_top_known_idx_props(known: Seq<bool>)
    requires
        any_known(known),
    ensures
        0 <= top_known_idx(known) < known.len(),
        known[top_known_idx(known)],
        forall|j: int| top_known_idx(known) < j < known.len() ==> !known[j],
    decreases known.len(),
{
    if !known.last() {
        let w = choose|i: int| 0 <= i < known.len() && known[i];
        let init = known.drop_last();
        assert(forall|j: int| 0 <= j < init.len() ==> init[j] == known[j]);
        assert(init[w]);
        lemma_top_known_idx_props(init);
    }
}

/// Law: queuing a strictly ascending slice of a batch into a pool with
/// enough room stores every queued pair: each ends up retrievable under
/// (peer, its number), stamped at the call, and the pool grows by at most
/// the number of queued pairs.
pub proof fn lemma_queue_hashes_queues_all(
    s: Seq<PoolEntry<HashWithNumber>>,
    cap: usize,
    peer: u64,
    b: Seq<HashWithNumber>,
    from: int,
    upto: int,
    now: u64,
)
    requires
        cap >= 1,
        0 <= from,
        upto <= b.len(),
        nums_strictly_ascending(b),
        from < upto ==> s.len() + (upto - from) <= cap,
    ensures
        forall|j: int|
            from <= j < upto ==> has_entry(
                queue_hashes(s, cap, peer, b, from, upto, now),
                peer,
                (#[trigger] b[j]).number,
                b[j],
                now,
            ),
        queue_hashes(s, cap, peer, b, from, upto, now).len() <= s.len() + (if upto >= from {
            upto - from
        } else {
            0
        }),
    decreases upto - from,
{
    if upto > from {
        let q = queue_hashes(s, cap, peer, b, from, upto - 1, now);
        lemma_queue_hashes_queues_all(s, cap, peer, b, from, upto - 1, now);
        lemma_pool_insert_len(q, cap, peer, b[upto - 1].number, b[upto - 1], now);
        lemma_pool_insert_present(q, cap, peer, b[upto - 1].number, b[upto - 1], now);
        assert forall|j: int|
            from <= j < upto implies has_entry(
            queue_hashes(s, cap, peer, b, from, upto, now),
            peer,
            (#[trigger] b[j]).number,
            b[j],
            now,
        ) by {
            if j < upto - 1 {
                assert(b[j].number < b[upto - 1].number);
                lemma_pool_insert_preserves(
                    q,
                    cap,
                    peer,
                    b[upto - 1].number,
                    b[upto - 1],
                    now,
                    peer,
                    b[j].number,
                    b[j],
                    now,
                );
            }
        }
    }
}

} // verus!
