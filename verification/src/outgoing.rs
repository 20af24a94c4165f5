//! The outgoing table: correlates the ids of in-flight requests with their
//! pending response slots, evicting entries older than the TTL.
//!
//! The table itself is hashlink's insertion-ordered map, specified here by
//! the sequence of its (message id, start time) entries, oldest first.
use vstd::prelude::*;

use crate::error::Error;
use crate::message::MessageId;

verus! {

/// How long a pending request waits before it is evicted, in milliseconds.
pub const REQUEST_TTL_MS: u64 = 3000;

#[verifier::external_type_specification]
#[verifier::external_body]
#[verifier::reject_recursive_types(K)]
#[verifier::reject_recursive_types(V)]
#[verifier::reject_recursive_types(S)]
pub struct ExLinkedHashMap<K, V, S>(hashlink::LinkedHashMap<K, V, S>);

#[verifier::external_type_specification]
#[verifier::external_body]
pub struct ExDefaultHashBuilder(hashlink::DefaultHashBuilder);

/// The entries of the insertion-ordered map, oldest first, as
/// (message id, start time in milliseconds) pairs.
pub uninterp spec fn queue_entries(
    m: hashlink::LinkedHashMap<u64, u64, hashlink::DefaultHashBuilder>,
) -> Seq<(u64, u64)>;

/// Relies on hashlink::LinkedHashMap::new: a fresh map is empty.
#[verifier::external_body]
fn queue_new() -> (r: hashlink::LinkedHashMap<u64, u64, hashlink::DefaultHashBuilder>)
    ensures
        queue_entries(r) == Seq::<(u64, u64)>::empty(),
{
    hashlink::LinkedHashMap::new()
}

/// Relies on hashlink::LinkedHashMap::insert: a pair with a fresh key is
/// appended at the back of the internal insertion-ordered list.
#[verifier::external_body]
fn queue_insert_fresh(
    m: &mut hashlink::LinkedHashMap<u64, u64, hashlink::DefaultHashBuilder>,
    k: u64,
    v: u64,
)
    requires
        forall|i: int| 0 <= i < queue_entries(*old(m)).len() ==> queue_entries(*old(m))[i].0 != k,
    ensures
        queue_entries(*final(m)) == queue_entries(*old(m)).push((k, v)),
{
    m.insert(k, v);
}

/// Relies on hashlink::LinkedHashMap::front: the oldest entry, if any.
#[verifier::external_body]
fn queue_front(m: &hashlink::LinkedHashMap<u64, u64, hashlink::DefaultHashBuilder>) -> (r: Option<
    (u64, u64),
>)
    ensures
        queue_entries(*m).len() == 0 ==> r is None,
        queue_entries(*m).len() > 0 ==> r == Some(queue_entries(*m)[0]),
{
    m.front().map(|(k, v)| (*k, *v))
}

/// Relies on hashlink::LinkedHashMap::pop_front: removes and returns the
/// oldest entry, keeping the order of the rest.
#[verifier::external_body]
fn queue_pop_front(m: &mut hashlink::LinkedHashMap<u64, u64, hashlink::DefaultHashBuilder>) -> (r:
    Option<(u64, u64)>)
    ensures
        queue_entries(*old(m)).len() == 0 ==> r is None && queue_entries(*final(m))
            == queue_entries(*old(m)),
        queue_entries(*old(m)).len() > 0 ==> r == Some(queue_entries(*old(m))[0]) && queue_entries(
            *final(m),
        ) == queue_entries(*old(m)).drop_first(),
{
    m.pop_front()
}

/// Relies on hashlink::LinkedHashMap::remove: removes the entry with the
/// given key, if present, keeping the order of the others.
#[verifier::external_body]
fn queue_remove(
    m: &mut hashlink::LinkedHashMap<u64, u64, hashlink::DefaultHashBuilder>,
    k: u64,
) -> (r: Option<u64>)
    ensures
        forall|i: int|
            0 <= i < queue_entries(*old(m)).len() && queue_entries(*old(m))[i].0 == k ==> r == Some(
                queue_entries(*old(m))[i].1,
            ) && queue_entries(*final(m)) == queue_entries(*old(m)).remove(i),
        (forall|i: int| 0 <= i < queue_entries(*old(m)).len() ==> queue_entries(*old(m))[i].0 != k)
            ==> r is None && queue_entries(*final(m)) == queue_entries(*old(m)),
{
    m.remove(&k)
}

/// Whether some entry of the table carries the given id.
pub open spec fn has_id(s: Seq<(u64, u64)>, id: u64) -> bool {
    exists|i: int| 0 <= i < s.len() && s[i].0 == id
}

/// No two entries carry the same id (ids are never reused).
pub open spec fn unique_ids(s: Seq<(u64, u64)>) -> bool {
    forall|i: int, j: int| 0 <= i < j < s.len() ==> s[i].0 != s[j].0
}

/// Start times never decrease along the queue: it is FIFO by insertion time.
pub open spec fn starts_ordered(s: Seq<(u64, u64)>) -> bool {
    forall|i: int, j: int| 0 <= i <= j < s.len() ==> s[i].1 <= s[j].1
}

/// Every start time is at most the given instant.
pub open spec fn starts_at_most(s: Seq<(u64, u64)>, now_ms: u64) -> bool {
    forall|i: int| 0 <= i < s.len() ==> s[i].1 <= now_ms
}

/// Drops entries from the front of the queue while their age exceeds the TTL.
pub open spec fn evict_stale(s: Seq<(u64, u64)>, now_ms: u64, ttl_ms: u64) -> Seq<(u64, u64)>
    decreases s.len(),
{
    if s.len() > 0 && now_ms - s[0].1 > ttl_ms {
        evict_stale(s.drop_first(), now_ms, ttl_ms)
    } else {
        s
    }
}

/// The table of in-flight requests: message id to start time, oldest first.
pub struct Outgoing {
    queue: hashlink::LinkedHashMap<u64, u64, hashlink::DefaultHashBuilder>,
    ttl_ms: u64,
}

impl Outgoing {
    /// The pending entries, oldest first.
    pub closed spec fn entries(self) -> Seq<(u64, u64)> {
        queue_entries(self.queue)
    }

    /// The eviction TTL in milliseconds.
    pub closed spec fn ttl(self) -> u64 {
        self.ttl_ms
    }

    /// Ids are unique and the queue is FIFO by insertion time.
    pub open spec fn wf(self) -> bool {
        unique_ids(self.entries()) && starts_ordered(self.entries())
    }

    /// An empty table with the given TTL.
    pub fn new(ttl_ms: u64) -> (r: Self)
        ensures
            r.entries() == Seq::<(u64, u64)>::empty(),
            r.ttl() == ttl_ms,
            r.wf(),
    {
        Outgoing { queue: queue_new(), ttl_ms }
    }

    /// Registers a pending request, then evicts any front entries whose age
    /// exceeds the TTL. Returns the evicted ids, oldest first, so their
    /// waiters can be resolved to *absent*.
    pub fn push(&mut self, request_id: MessageId, now_ms: u64) -> (evicted: Vec<MessageId>)
        requires
            old(self).wf(),
            !has_id(old(self).entries(), request_id.0),
            starts_at_most(old(self).entries(), now_ms),
        ensures
            final(self).wf(),
            final(self).ttl() == old(self).ttl(),
            final(self).entries() == evict_stale(
                old(self).entries().push((request_id.0, now_ms)),
                now_ms,
                old(self).ttl(),
            ),
            starts_at_most(final(self).entries(), now_ms),
            has_id(final(self).entries(), request_id.0),
            evicted@.len() + final(self).entries().len() == old(self).entries().len() + 1,
            forall|i: int|
                0 <= i < evicted@.len() ==> evicted@[i].0 == old(self).entries().push(
                    (request_id.0, now_ms),
                )[i].0,
    {
        let ghost s0 = self.entries().push((request_id.0, now_ms));
        proof {
            assert(starts_at_most(s0, now_ms));
            assert(unique_ids(s0));
            assert(starts_ordered(s0));
            assert(s0.skip(0) =~= s0);
        }
        queue_insert_fresh(&mut self.queue, request_id.0, now_ms);
        let mut evicted: Vec<MessageId> = Vec::new();
        loop
            invariant
                self.ttl_ms == old(self).ttl(),
                evicted@.len() <= s0.len(),
                queue_entries(self.queue) == s0.skip(evicted@.len() as int),
                forall|i: int| 0 <= i < evicted@.len() ==> evicted@[i].0 == s0[i].0,
                evict_stale(s0, now_ms, self.ttl_ms) == evict_stale(
                    s0.skip(evicted@.len() as int),
                    now_ms,
                    self.ttl_ms,
                ),
                starts_at_most(s0, now_ms),
                s0.len() > 0 && s0.last().1 == now_ms,
            ensures
                self.ttl_ms == old(self).ttl(),
                evicted@.len() <= s0.len(),
                forall|i: int| 0 <= i < evicted@.len() ==> evicted@[i].0 == s0[i].0,
                queue_entries(self.queue) == s0.skip(evicted@.len() as int),
                queue_entries(self.queue) == evict_stale(s0, now_ms, self.ttl_ms),
            decreases s0.len() - evicted@.len(),
        {
            let ghost cur = s0.skip(evicted@.len() as int);
            match queue_front(&self.queue) {
                Some((k, started)) => {
                    proof {
                        assert(cur[0] == s0[evicted@.len() as int]);
                        assert(started <= now_ms);
                    }
                    if now_ms - started > self.ttl_ms {
                        proof {
                            assert(cur.drop_first() =~= s0.skip(evicted@.len() as int + 1));
                        }
                        let _ = queue_pop_front(&mut self.queue);
                        evicted.push(MessageId(k));
                    } else {
                        break ;
                    }
                },
                None => {
                    proof {
                        // the freshly pushed entry never grows stale at its own
                        // insertion instant, so the queue cannot drain fully
                        lemma_evict_keeps_fresh_last(s0, now_ms, self.ttl_ms);
                        assert(false);
                    }
                    break ;
                },
            }
        }
        proof {
            let n = evicted@.len() as int;
            lemma_suffix_properties(s0, n);
            lemma_evict_keeps_fresh_last(s0, now_ms, self.ttl_ms);
            let cur = s0.skip(n);
            assert(has_id(self.entries(), request_id.0)) by {
                assert(cur.len() > 0);
                assert(cur[cur.len() - 1] == s0[s0.len() - 1]);
                assert(cur[cur.len() - 1].0 == request_id.0);
            }
        }
        evicted
    }

    /// Consumes the pending entry for a response's correlation id. Fails with
    /// `UnknownCorrelation` when no such entry is pending; an entry is
    /// consumed at most once.
    pub fn complete(&mut self, request_id: MessageId) -> (r: Result<(), Error>)
        requires
            old(self).wf(),
        ensures
            final(self).wf(),
            final(self).ttl() == old(self).ttl(),
            r is Ok <==> has_id(old(self).entries(), request_id.0),
            r is Err ==> r == Err::<(), Error>(Error::UnknownCorrelation) && final(self).entries()
                == old(self).entries(),
            r is Ok ==> !has_id(final(self).entries(), request_id.0) && exists|i: int|
                0 <= i < old(self).entries().len() && old(self).entries()[i].0 == request_id.0
                    && final(self).entries() == old(self).entries().remove(i),
    {
        let ghost s = self.entries();
        match queue_remove(&mut self.queue, request_id.0) {
            Some(_) => {
                proof {
                    if !has_id(s, request_id.0) {
                        assert(queue_entries(self.queue) == s);
                        assert(false);
                    }
                    let i = choose|i: int| 0 <= i < s.len() && s[i].0 == request_id.0;
                    assert(self.entries() == s.remove(i));
                    lemma_remove_unique_id(s, i, request_id.0);
                    lemma_remove_keeps_wf(s, i);
                }
                Ok(())
            },
            None => {
                proof {
                    if has_id(s, request_id.0) {
                        let i = choose|i: int| 0 <= i < s.len() && s[i].0 == request_id.0;
                        assert(queue_entries(self.queue) == s.remove(i));
                        assert(false);
                    }
                }
                Err(Error::UnknownCorrelation)
            },
        }
    }
}

/// Eviction only drops a prefix: what survives is a suffix of the queue.
pub proof fn lemma_evict_stale_is_suffix(s: Seq<(u64, u64)>, now_ms: u64, ttl_ms: u64)
    ensures
        exists|n: int|
            0 <= n <= s.len() && evict_stale(s, now_ms, ttl_ms) == #[trigger] s.skip(n),
    decreases s.len(),
{
    if s.len() > 0 && now_ms - s[0].1 > ttl_ms {
        lemma_evict_stale_is_suffix(s.drop_first(), now_ms, ttl_ms);
        let n = choose|n: int|
            0 <= n <= s.drop_first().len() && evict_stale(s.drop_first(), now_ms, ttl_ms)
                == #[trigger] s.drop_first().skip(n);
        assert(s.drop_first().skip(n) =~= s.skip(n + 1));
    } else {
        assert(s.skip(0) =~= s);
        assert(evict_stale(s, now_ms, ttl_ms) == s.skip(0));
    }
}

/// Eviction never drops an entry inserted at the current instant: the suffix
/// that survives is nonempty and still ends in the freshest entry.
proof fn lemma_evict_keeps_fresh_last(s: Seq<(u64, u64)>, now_ms: u64, ttl_ms: u64)
    requires
        s.len() > 0,
        now_ms - s.last().1 <= ttl_ms,
    ensures
        evict_stale(s, now_ms, ttl_ms).len() > 0,
        evict_stale(s, now_ms, ttl_ms).last() == s.last(),
    decreases s.len(),
{
    if now_ms - s[0].1 > ttl_ms {
        assert(s.len() > 1);
        assert(s.drop_first().last() == s.last());
        lemma_evict_keeps_fresh_last(s.drop_first(), now_ms, ttl_ms);
    }
}

/// A suffix of the queue keeps unique ids, ordered start times, and each of
/// its elements.
proof fn lemma_suffix_properties(s: Seq<(u64, u64)>, n: int)
    requires
        0 <= n <= s.len(),
        unique_ids(s),
        starts_ordered(s),
    ensures
        unique_ids(s.skip(n)),
        starts_ordered(s.skip(n)),
        forall|i: int| 0 <= i < s.len() - n ==> s.skip(n)[i] == s[n + i],
{
    assert forall|i: int| 0 <= i < s.len() - n implies s.skip(n)[i] == s[n + i] by {}
}

/// At-most-once completion: once the entry of an id has been consumed, no
/// entry with that id remains, so a second completion of the same id fails.
pub proof fn lemma_at_most_once_completion(s: Seq<(u64, u64)>, i: int, id: u64)
    requires
        unique_ids(s),
        0 <= i < s.len(),
        s[i].0 == id,
    ensures
        !has_id(s.remove(i), id),
{
    lemma_remove_unique_id(s, i, id);
}

proof fn lemma_remove_unique_id(s: Seq<(u64, u64)>, i: int, id: u64)
    requires
        unique_ids(s),
        0 <= i < s.len(),
        s[i].0 == id,
    ensures
        !has_id(s.remove(i), id),
{
    let t = s.remove(i);
    assert forall|j: int| 0 <= j < t.len() implies t[j].0 != id by {
        if j < i {
            assert(t[j] == s[j]);
        } else {
            assert(t[j] == s[j + 1]);
        }
    }
}

proof fn lemma_remove_keeps_wf(s: Seq<(u64, u64)>, i: int)
    requires
        unique_ids(s),
        starts_ordered(s),
        0 <= i < s.len(),
    ensures
        unique_ids(s.remove(i)),
        starts_ordered(s.remove(i)),
{
    let t = s.remove(i);
    assert forall|j: int, k: int| 0 <= j < k < t.len() implies t[j].0 != t[k].0 by {
        assert(t[j] == if j < i { s[j] } else { s[j + 1] });
        assert(t[k] == if k < i { s[k] } else { s[k + 1] });
    }
    assert forall|j: int, k: int| 0 <= j <= k < t.len() implies t[j].1 <= t[k].1 by {
        assert(t[j] == if j < i { s[j] } else { s[j + 1] });
        assert(t[k] == if k < i { s[k] } else { s[k + 1] });
    }
}

} // verus!
