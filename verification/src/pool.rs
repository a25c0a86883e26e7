//! The expiring work pool: a per-peer, per-key deduplicated buffer of pending
//! work items with TTL-based expiry, bounded capacity and bounded draining.
//!
//! Entries are kept in insertion order. For a given (peer, key) pair at most
//! one entry is retained: a later insertion overwrites the earlier one, since
//! a later announcement for the same key is the more authoritative. Entries
//! whose age exceeds the pool's TTL are discarded by `take` and `sweep` and
//! are never handed out. When the pool is full, an insertion evicts the
//! oldest entry rather than failing.

use vstd::prelude::*;

verus! {

/// One buffered unit of work: a payload queued by `peer` under the logical
/// key `key`, stamped with the time it entered the pool.
#[derive(Clone, Copy)]
pub struct PoolEntry<T> {
    pub peer: u64,
    pub key: u64,
    pub value: T,
    pub inserted_at: u64,
}

/// An entry is live at `now` when its age does not exceed `ttl`. An entry
/// stamped in the future (clock skew between callers) counts as live.
pub open spec fn entry_live<T>(e: PoolEntry<T>, ttl: u64, now: u64) -> bool {
    now - e.inserted_at <= ttl
}

/// The subsequence of `s` that is live at `now`, in the order of `s`.
pub open spec fn live_entries<T>(s: Seq<PoolEntry<T>>, ttl: u64, now: u64) -> Seq<PoolEntry<T>>
    decreases s.len(),
{
    if s.len() == 0 {
        Seq::empty()
    } else {
        let init = live_entries(s.drop_last(), ttl, now);
        if entry_live(s.last(), ttl, now) {
            init.push(s.last())
        } else {
            init
        }
    }
}

/// `s` with every entry stored under (peer, key) removed, order kept.
pub open spec fn remove_key<T>(s: Seq<PoolEntry<T>>, peer: u64, key: u64) -> Seq<PoolEntry<T>>
    decreases s.len(),
{
    if s.len() == 0 {
        Seq::empty()
    } else {
        let init = remove_key(s.drop_last(), peer, key);
        if s.last().peer == peer && s.last().key == key {
            init
        } else {
            init.push(s.last())
        }
    }
}

/// No two entries of `s` share a (peer, key) pair.
pub open spec fn no_dup_keys<T>(s: Seq<PoolEntry<T>>) -> bool {
    forall|i: int, j: int|
        0 <= i < j < s.len() ==> !(s[i].peer == s[j].peer && s[i].key == s[j].key)
}

proof fn lemma_live_entries_push<T>(s: Seq<PoolEntry<T>>, e: PoolEntry<T>, ttl: u64, now: u64)
    ensures
        live_entries(s.push(e), ttl, now) == if entry_live(e, ttl, now) {
            live_entries(s, ttl, now).push(e)
        } else {
            live_entries(s, ttl, now)
        },
{
    assert(s.push(e).drop_last() =~= s);
    assert(s.push(e).last() == e);
}

proof fn lemma_remove_key_push<T>(s: Seq<PoolEntry<T>>, e: PoolEntry<T>, peer: u64, key: u64)
    ensures
        remove_key(s.push(e), peer, key) == if e.peer == peer && e.key == key {
            remove_key(s, peer, key)
        } else {
            remove_key(s, peer, key).push(e)
        },
{
    assert(s.push(e).drop_last() =~= s);
    assert(s.push(e).last() == e);
}

/// Every live entry comes from the underlying sequence.
proof fn lemma_live_entries_membership<T>(s: Seq<PoolEntry<T>>, ttl: u64, now: u64)
    ensures
        forall|i: int|
            0 <= i < live_entries(s, ttl, now).len() ==> s.contains(
                #[trigger] live_entries(s, ttl, now)[i],
            ),
        live_entries(s, ttl, now).len() <= s.len(),
    decreases s.len(),
{
    let l = live_entries(s, ttl, now);
    if s.len() > 0 {
        let init = s.drop_last();
        let li = live_entries(init, ttl, now);
        lemma_live_entries_membership(init, ttl, now);
        assert forall|i: int| 0 <= i < l.len() implies s.contains(#[trigger] l[i]) by {
            if i < li.len() {
                assert(l[i] == li[i]);
                assert(init.contains(li[i]));
                let i0 = choose|i0: int| 0 <= i0 < init.len() && init[i0] == li[i];
                assert(s[i0] == l[i]);
            } else {
                assert(l[i] == s.last());
                assert(s[s.len() - 1] == l[i]);
            }
        }
    }
}

/// Every entry of `remove_key(s, peer, key)` comes from `s`.
proof fn lemma_remove_key_membership<T>(s: Seq<PoolEntry<T>>, peer: u64, key: u64)
    ensures
        forall|i: int|
            0 <= i < remove_key(s, peer, key).len() ==> s.contains(
                #[trigger] remove_key(s, peer, key)[i],
            ),
        remove_key(s, peer, key).len() <= s.len(),
    decreases s.len(),
{
    let r = remove_key(s, peer, key);
    if s.len() > 0 {
        let init = s.drop_last();
        let ri = remove_key(init, peer, key);
        lemma_remove_key_membership(init, peer, key);
        assert forall|i: int| 0 <= i < r.len() implies s.contains(#[trigger] r[i]) by {
            if i < ri.len() {
                assert(r[i] == ri[i]);
                assert(init.contains(ri[i]));
                let i0 = choose|i0: int| 0 <= i0 < init.len() && init[i0] == ri[i];
                assert(s[i0] == r[i]);
            } else {
                assert(r[i] == s.last());
                assert(s[s.len() - 1] == r[i]);
            }
        }
    }
}

/// No entry survives `remove_key` under the removed (peer, key).
proof fn lemma_remove_key_no_match<T>(s: Seq<PoolEntry<T>>, peer: u64, key: u64)
    ensures
        forall|i: int|
            0 <= i < remove_key(s, peer, key).len() ==> !((#[trigger] remove_key(s, peer, key)[i]).peer
                == peer && remove_key(s, peer, key)[i].key == key),
    decreases s.len(),
{
    let r = remove_key(s, peer, key);
    if s.len() > 0 {
        let init = s.drop_last();
        let ri = remove_key(init, peer, key);
        lemma_remove_key_no_match(init, peer, key);
        assert forall|i: int|
            0 <= i < r.len() implies !((#[trigger] r[i]).peer == peer && r[i].key == key) by {
            if i < ri.len() {
                assert(r[i] == ri[i]);
            } else {
                assert(r[i] == s.last());
            }
        }
    }
}

/// Filtering to the live entries keeps (peer, key) pairs distinct.
proof fn lemma_live_entries_no_dup<T>(s: Seq<PoolEntry<T>>, ttl: u64, now: u64)
    requires
        no_dup_keys(s),
    ensures
        no_dup_keys(live_entries(s, ttl, now)),
    decreases s.len(),
{
    if s.len() > 0 {
        let init = s.drop_last();
        assert(no_dup_keys(init)) by {
            assert(forall|i: int| 0 <= i < init.len() ==> init[i] == s[i]);
        }
        lemma_live_entries_no_dup(init, ttl, now);
        if entry_live(s.last(), ttl, now) {
            let l = live_entries(init, ttl, now);
            let t = l.push(s.last());
            lemma_live_entries_membership(init, ttl, now);
            assert forall|i: int, j: int|
                0 <= i < j < t.len() implies !((#[trigger] t[i]).peer == (#[trigger] t[j]).peer
                && t[i].key == t[j].key) by {
                if j == l.len() {
                    let e = l[i];
                    assert(init.contains(e));
                    let i0 = choose|i0: int| 0 <= i0 < init.len() && init[i0] == e;
                    assert(s[i0] == e);
                    assert(s[s.len() - 1] == s.last());
                }
            }
        }
    }
}

/// Removing a key keeps (peer, key) pairs distinct.
proof fn lemma_remove_key_no_dup<T>(s: Seq<PoolEntry<T>>, peer: u64, key: u64)
    requires
        no_dup_keys(s),
    ensures
        no_dup_keys(remove_key(s, peer, key)),
    decreases s.len(),
{
    if s.len() > 0 {
        let init = s.drop_last();
        assert(no_dup_keys(init)) by {
            assert(forall|i: int| 0 <= i < init.len() ==> init[i] == s[i]);
        }
        lemma_remove_key_no_dup(init, peer, key);
        if !(s.last().peer == peer && s.last().key == key) {
            let r = remove_key(init, peer, key);
            let t = r.push(s.last());
            lemma_remove_key_membership(init, peer, key);
            assert forall|i: int, j: int|
                0 <= i < j < t.len() implies !((#[trigger] t[i]).peer == (#[trigger] t[j]).peer
                && t[i].key == t[j].key) by {
                if j == r.len() {
                    let e = r[i];
                    assert(init.contains(e));
                    let i0 = choose|i0: int| 0 <= i0 < init.len() && init[i0] == e;
                    assert(s[i0] == e);
                    assert(s[s.len() - 1] == s.last());
                }
            }
        }
    }
}

/// The expiring work pool itself.
pub struct TtlPool<T> {
    entries: Vec<PoolEntry<T>>,
    ttl: u64,
    cap: usize,
}

impl<T> View for TtlPool<T> {
    type V = Seq<PoolEntry<T>>;

    closed spec fn view(&self) -> Seq<PoolEntry<T>> {
        self.entries@
    }
}

impl<T> TtlPool<T> {
    /// Maximum age, in the caller's time unit, an entry may reach and still
    /// be handed out.
    pub closed spec fn ttl(&self) -> u64 {
        self.ttl
    }

    /// Maximum number of entries retained at once.
    pub closed spec fn cap(&self) -> usize {
        self.cap
    }

    /// The pool's invariant: distinct (peer, key) pairs, within capacity.
    pub open spec fn wf(&self) -> bool {
        no_dup_keys(self@) && self@.len() <= self.cap() && self.cap() >= 1
    }
}

impl<T: Copy> TtlPool<T> {
    /// An empty pool whose entries expire once older than `ttl` and which
    /// retains at most `cap` entries.
    pub fn new(ttl: u64, cap: usize) -> (r: Self)
        requires
            cap >= 1,
        ensures
            r@ == Seq::<PoolEntry<T>>::empty(),
            r.ttl() == ttl,
            r.cap() == cap,
            r.wf(),
    {
        TtlPool { entries: Vec::new(), ttl, cap }
    }

    /// How many entries the pool holds, live or not.
    pub fn len(&self) -> (r: usize)
        ensures
            r == self@.len(),
    {
        self.entries.len()
    }

    /// Inserts `value` under (peer, key) stamped `now`, overwriting any entry
    /// already stored under that pair. When the pool would outgrow its
    /// capacity, the oldest entry is evicted first; the return value reports
    /// that back-pressure signal.
    pub fn insert(&mut self, peer: u64, key: u64, value: T, now: u64) -> (evicted: bool)
        requires
            old(self).wf(),
        ensures
            final(self).wf(),
            final(self).ttl() == old(self).ttl(),
            final(self).cap() == old(self).cap(),
            final(self)@ == pool_insert(old(self)@, old(self).cap(), peer, key, value, now),
            evicted == (remove_key(old(self)@, peer, key).len() >= old(self).cap()),
    {
        let ghost s = self.entries@;
        let mut kept: Vec<PoolEntry<T>> = Vec::new();
        let n = self.entries.len();
        let mut i: usize = 0;
        while i < n
            invariant
                i <= n,
                n == self.entries.len(),
                self.entries@ == s,
                kept@ == remove_key(s.take(i as int), peer, key),
            decreases n - i,
        {
            let e = self.entries[i];
            proof {
                assert(s.take(i + 1) =~= s.take(i as int).push(s[i as int]));
                lemma_remove_key_push(s.take(i as int), s[i as int], peer, key);
            }
            if !(e.peer == peer && e.key == key) {
                kept.push(e);
            }
            i += 1;
        }
        proof {
            assert(s.take(n as int) =~= s);
        }
        let evicted = kept.len() >= self.cap;
        if evicted {
            proof {
                lemma_remove_key_membership(s, peer, key);
            }
            kept.remove(0);
            proof {
                assert(kept@ =~= remove_key(s, peer, key).skip(1));
            }
        }
        kept.push(PoolEntry { peer, key, value, inserted_at: now });
        self.entries = kept;
        proof {
            lemma_pool_insert_wf(s, self.cap, peer, key, value, now);
        }
        evicted
    }

    /// Removes and returns the values of up to `max_count` live entries, in
    /// insertion order; every expired entry is discarded along the way.
    pub fn take(&mut self, max_count: usize, now: u64) -> (r: Vec<T>)
        requires
            old(self).wf(),
        ensures
            final(self).wf(),
            final(self).ttl() == old(self).ttl(),
            final(self).cap() == old(self).cap(),
            ({
                let live = live_entries(old(self)@, old(self).ttl(), now);
                let n = if max_count as int <= live.len() {
                    max_count as int
                } else {
                    live.len() as int
                };
                r@ == live.take(n).map_values(|e: PoolEntry<T>| e.value) && final(self)@
                    == live.skip(n)
            }),
    {
        let ghost s = self.entries@;
        let ghost live = live_entries(s, self.ttl, now);
        let mut taken: Vec<T> = Vec::new();
        let mut kept: Vec<PoolEntry<T>> = Vec::new();
        let n = self.entries.len();
        let mut i: usize = 0;
        while i < n
            invariant
                i <= n,
                n == self.entries.len(),
                self.entries@ == s,
                ({
                    let live_i = live_entries(s.take(i as int), self.ttl(), now);
                    let n_i = if max_count as int <= live_i.len() {
                        max_count as int
                    } else {
                        live_i.len() as int
                    };
                    taken@ == live_i.take(n_i).map_values(|e: PoolEntry<T>| e.value) && kept@
                        == live_i.skip(n_i) && taken@.len() == n_i
                }),
            decreases n - i,
        {
            let e = self.entries[i];
            let ghost live_i = live_entries(s.take(i as int), self.ttl(), now);
            proof {
                assert(s.take(i + 1) =~= s.take(i as int).push(s[i as int]));
                lemma_live_entries_push(s.take(i as int), s[i as int], self.ttl(), now);
            }
            if now <= e.inserted_at || now - e.inserted_at <= self.ttl {
                assert(entry_live(s[i as int], self.ttl(), now));
                if taken.len() < max_count {
                    taken.push(e.value);
                    proof {
                        assert(live_i.push(s[i as int]).take(live_i.len() as int + 1) =~= live_i.push(
                            s[i as int],
                        ));
                        assert(live_i.push(s[i as int]).map_values(|e: PoolEntry<T>| e.value)
                            =~= live_i.map_values(|e: PoolEntry<T>| e.value).push(
                            s[i as int].value,
                        ));
                        assert(live_i.push(s[i as int]).skip(live_i.len() as int + 1) =~= kept@);
                    }
                } else {
                    kept.push(e);
                    proof {
                        assert(live_i.push(s[i as int]).take(max_count as int) =~= live_i.take(
                            max_count as int,
                        ));
                        assert(live_i.push(s[i as int]).skip(max_count as int) =~= live_i.skip(
                            max_count as int,
                        ).push(s[i as int]));
                    }
                }
            } else {
                assert(!entry_live(s[i as int], self.ttl(), now));
            }
            i += 1;
        }
        proof {
            assert(s.take(n as int) =~= s);
            lemma_live_entries_no_dup(s, self.ttl(), now);
            lemma_live_entries_membership(s, self.ttl(), now);
            let n_f = if max_count as int <= live.len() {
                max_count as int
            } else {
                live.len() as int
            };
            let rest = live.skip(n_f);
            assert forall|i: int, j: int|
                0 <= i < j < rest.len() implies !((#[trigger] rest[i]).peer
                == (#[trigger] rest[j]).peer && rest[i].key == rest[j].key) by {
                assert(rest[i] == live[i + n_f]);
                assert(rest[j] == live[j + n_f]);
            }
        }
        self.entries = kept;
        taken
    }

    /// Discards every expired entry, reclaiming the memory of entries that
    /// were never drained.
    pub fn sweep(&mut self, now: u64)
        requires
            old(self).wf(),
        ensures
            final(self).wf(),
            final(self).ttl() == old(self).ttl(),
            final(self).cap() == old(self).cap(),
            final(self)@ == live_entries(old(self)@, old(self).ttl(), now),
    {
        let _ = self.take(0, now);
        proof {
            assert(final(self)@ =~= live_entries(old(self)@, old(self).ttl(), now));
        }
    }
}

/// What `insert` leaves in the pool: the old entries with the inserted key
/// cleared out, the oldest evicted when the pool is full, and the new entry
/// appended.
pub open spec fn pool_insert<T>(
    s: Seq<PoolEntry<T>>,
    cap: usize,
    peer: u64,
    key: u64,
    value: T,
    now: u64,
) -> Seq<PoolEntry<T>> {
    let cleared = remove_key(s, peer, key);
    let base = if cleared.len() >= cap {
        cleared.skip(1)
    } else {
        cleared
    };
    base.push(PoolEntry { peer, key, value, inserted_at: now })
}

/// The pool invariant survives an insertion.
proof fn lemma_pool_insert_wf<T>(
    s: Seq<PoolEntry<T>>,
    cap: usize,
    peer: u64,
    key: u64,
    value: T,
    now: u64,
)
    requires
        no_dup_keys(s),
        s.len() <= cap,
        cap >= 1,
    ensures
        no_dup_keys(pool_insert(s, cap, peer, key, value, now)),
        pool_insert(s, cap, peer, key, value, now).len() <= cap,
{
    lemma_remove_key_no_dup(s, peer, key);
    lemma_remove_key_no_match(s, peer, key);
    lemma_remove_key_membership(s, peer, key);
    let cleared = remove_key(s, peer, key);
    let off: int = if cleared.len() >= cap {
        1
    } else {
        0
    };
    let base = if cleared.len() >= cap {
        cleared.skip(1)
    } else {
        cleared
    };
    let t = base.push(PoolEntry { peer, key, value, inserted_at: now });
    assert forall|i: int, j: int|
        0 <= i < j < t.len() implies !((#[trigger] t[i]).peer == (#[trigger] t[j]).peer && t[i].key
        == t[j].key) by {
        if j < base.len() {
            assert(t[i] == cleared[i + off]);
            assert(t[j] == cleared[j + off]);
        } else {
            assert(t[i] == cleared[i + off]);
        }
    }
}

/// Law: for all insertions under the same (peer, key), only the most recent
/// entry is retained — after an insertion, every entry stored under that
/// pair is exactly the entry just inserted.
pub proof fn lemma_insert_retains_most_recent<T>(
    s: Seq<PoolEntry<T>>,
    cap: usize,
    peer: u64,
    key: u64,
    value: T,
    now: u64,
)
    requires
        cap >= 1,
    ensures
        ({
            let t = pool_insert(s, cap, peer, key, value, now);
            forall|i: int|
                0 <= i < t.len() && (#[trigger] t[i]).peer == peer && t[i].key == key ==> t[i]
                    == (PoolEntry { peer, key, value, inserted_at: now })
        }),
{
    lemma_remove_key_no_match(s, peer, key);
    let cleared = remove_key(s, peer, key);
    let off: int = if cleared.len() >= cap {
        1
    } else {
        0
    };
    let base = if cleared.len() >= cap {
        cleared.skip(1)
    } else {
        cleared
    };
    let t = base.push(PoolEntry { peer, key, value, inserted_at: now });
    assert forall|i: int|
        0 <= i < t.len() && (#[trigger] t[i]).peer == peer && t[i].key == key implies t[i]
        == (PoolEntry { peer, key, value, inserted_at: now }) by {
        if i < base.len() {
            assert(t[i] == base[i]);
            if cleared.len() >= cap {
                assert(base[i] == cleared.skip(1)[i]);
                assert(cleared.skip(1)[i] == cleared[i + 1]);
            }
            assert(t[i] == cleared[i + off]);
        }
    }
}

/// Whether the pool holds, under (peer, key), exactly `value` stamped `now`.
pub open spec fn has_entry<T>(s: Seq<PoolEntry<T>>, peer: u64, key: u64, value: T, now: u64) -> bool {
    exists|i: int| 0 <= i < s.len() && s[i] == (PoolEntry { peer, key, value, inserted_at: now })
}

proof fn lemma_remove_key_keeps_other<T>(
    s: Seq<PoolEntry<T>>,
    peer: u64,
    key: u64,
    p2: u64,
    k2: u64,
    v2: T,
    t2: u64,
)
    requires
        !(p2 == peer && k2 == key),
        has_entry(s, p2, k2, v2, t2),
    ensures
        has_entry(remove_key(s, peer, key), p2, k2, v2, t2),
    decreases s.len(),
{
    let e2 = PoolEntry { peer: p2, key: k2, value: v2, inserted_at: t2 };
    let i = choose|i: int| 0 <= i < s.len() && s[i] == e2;
    let init = s.drop_last();
    let ri = remove_key(init, peer, key);
    if i == s.len() - 1 {
        assert(s.last() == e2);
        assert(remove_key(s, peer, key)[ri.len() as int] == e2);
    } else {
        assert(init[i] == e2);
        lemma_remove_key_keeps_other(init, peer, key, p2, k2, v2, t2);
        let i1 = choose|i1: int| 0 <= i1 < ri.len() && ri[i1] == e2;
        assert(remove_key(s, peer, key)[i1] == e2);
    }
}

/// Inserting under one key keeps, while the pool has room, every entry
/// stored under any other key.
pub proof fn lemma_pool_insert_preserves<T>(
    s: Seq<PoolEntry<T>>,
    cap: usize,
    peer: u64,
    key: u64,
    value: T,
    now: u64,
    p2: u64,
    k2: u64,
    v2: T,
    t2: u64,
)
    requires
        cap >= 1,
        s.len() < cap,
        !(p2 == peer && k2 == key),
        has_entry(s, p2, k2, v2, t2),
    ensures
        has_entry(pool_insert(s, cap, peer, key, value, now), p2, k2, v2, t2),
{
    lemma_remove_key_keeps_other(s, peer, key, p2, k2, v2, t2);
    lemma_remove_key_membership(s, peer, key);
    let cleared = remove_key(s, peer, key);
    let e2 = PoolEntry { peer: p2, key: k2, value: v2, inserted_at: t2 };
    let i1 = choose|i1: int| 0 <= i1 < cleared.len() && cleared[i1] == e2;
    assert(pool_insert(s, cap, peer, key, value, now)[i1] == e2);
}

/// The inserted entry is present after the insertion.
pub proof fn lemma_pool_insert_present<T>(
    s: Seq<PoolEntry<T>>,
    cap: usize,
    peer: u64,
    key: u64,
    value: T,
    now: u64,
)
    requires
        cap >= 1,
    ensures
        has_entry(pool_insert(s, cap, peer, key, value, now), peer, key, value, now),
{
    let t = pool_insert(s, cap, peer, key, value, now);
    assert(t[t.len() - 1] == (PoolEntry { peer, key, value, inserted_at: now }));
}

/// An insertion grows the pool by at most one entry.
pub proof fn lemma_pool_insert_len<T>(
    s: Seq<PoolEntry<T>>,
    cap: usize,
    peer: u64,
    key: u64,
    value: T,
    now: u64,
)
    requires
        cap >= 1,
    ensures
        pool_insert(s, cap, peer, key, value, now).len() <= s.len() + 1,
{
    lemma_remove_key_membership(s, peer, key);
}

/// Law: one drain returns at most `max_count` values; what it returns it
/// removes, so no surviving entry holds a (peer, key) that was just drained,
/// and no two drained entries share a (peer, key).
pub proof fn lemma_take_bounded_and_removing<T>(
    s: Seq<PoolEntry<T>>,
    ttl: u64,
    now: u64,
    max_count: usize,
)
    requires
        no_dup_keys(s),
    ensures
        ({
            let live = live_entries(s, ttl, now);
            let n = if max_count as int <= live.len() {
                max_count as int
            } else {
                live.len() as int
            };
            live.take(n).len() <= max_count && no_dup_keys(live.take(n)) && forall|i: int, j: int|
                0 <= i < n && 0 <= j < live.skip(n).len() ==> !((#[trigger] live.take(n)[i]).peer
                    == (#[trigger] live.skip(n)[j]).peer && live.take(n)[i].key == live.skip(
                    n,
                )[j].key)
        }),
{
    lemma_live_entries_no_dup(s, ttl, now);
    let live = live_entries(s, ttl, now);
    let n = if max_count as int <= live.len() {
        max_count as int
    } else {
        live.len() as int
    };
    assert(forall|i: int| 0 <= i < n ==> live.take(n)[i] == live[i]);
    assert(forall|j: int| 0 <= j < live.skip(n).len() ==> live.skip(n)[j] == live[j + n]);
}

/// Law: an entry older than the TTL is never handed out — every entry a
/// drain can return is live at the drain.
pub proof fn lemma_take_only_live<T>(s: Seq<PoolEntry<T>>, ttl: u64, now: u64)
    ensures
        forall|i: int|
            0 <= i < live_entries(s, ttl, now).len() ==> now - (#[trigger] live_entries(
                s,
                ttl,
                now,
            )[i]).inserted_at <= ttl,
    decreases s.len(),
{
    let l = live_entries(s, ttl, now);
    if s.len() > 0 {
        let init = s.drop_last();
        let li = live_entries(init, ttl, now);
        lemma_take_only_live(init, ttl, now);
        assert forall|i: int|
            0 <= i < l.len() implies now - (#[trigger] l[i]).inserted_at <= ttl by {
            if i < li.len() {
                assert(l[i] == li[i]);
            } else {
                assert(l[i] == s.last());
            }
        }
    }
}

} // verus!
