//! The grow-only counter CRDT: per-node counters, merged by per-node
//! maximum, read as the sum of all counters.
use vstd::prelude::*;

use crate::assoc;
use crate::crdt::Crdt;
use crate::node::NodeId;

verus! {

/// One increment.
pub struct Add {
    pub delta: u64,
}

/// A read: the sum of every node's counter.
pub struct Query {
    pub value: u64,
}

/// The replicated state: each node's own counter.
pub struct State {
    pub counters: Vec<(NodeId, u64)>,
}

/// The grow-only counter.
pub struct GCounter(pub State);

/// Counter entries at the view level, keyed by node-id text.
pub open spec fn entries_of(s: Seq<(NodeId, u64)>) -> Seq<(Seq<char>, u64)> {
    s.map_values(|p: (NodeId, u64)| (p.0@, p.1))
}

/// The join on counters: the larger one wins.
pub open spec fn max_u64() -> spec_fn(u64, u64) -> u64 {
    |a: u64, b: u64|
        if a >= b {
            a
        } else {
            b
        }
}

/// A counter's weight in the queried sum.
pub open spec fn count_weight() -> spec_fn(u64) -> int {
    |v: u64| v as int
}

impl GCounter {
    /// The entries at the view level.
    pub open spec fn entries(self) -> Seq<(Seq<char>, u64)> {
        entries_of(self.0.counters@)
    }

    /// The abstraction: each node's counter, as a map.
    pub open spec fn abs(self) -> Map<Seq<char>, u64> {
        assoc::map_of(self.entries())
    }
}

/// A snapshot's entries at the view level.
pub open spec fn state_entries(st: State) -> Seq<(Seq<char>, u64)> {
    entries_of(st.counters@)
}

/// Finds the entry of a node id, comparing by text.
pub fn find_node<V>(entries: &Vec<(NodeId, V)>, key: &NodeId) -> (r: Option<usize>)
    ensures
        r matches Some(i) ==> i < entries@.len() && entries@[i as int].0@ == key@,
        r is None ==> forall|j: int| 0 <= j < entries@.len() ==> entries@[j].0@ != key@,
{
    let mut i: usize = 0;
    while i < entries.len()
        invariant
            i <= entries.len(),
            forall|j: int| 0 <= j < i ==> entries@[j].0@ != key@,
        decreases entries.len() - i,
    {
        if entries[i].0.eq(key) {
            return Some(i);
        }
        i = i + 1;
    }
    None
}

impl Crdt for GCounter {
    type Add = Add;

    type State = State;

    type Query = Query;

    open spec fn wf(self) -> bool {
        assoc::keys_unique(self.entries())
    }

    open spec fn state_wf(st: State) -> bool {
        assoc::keys_unique(state_entries(st))
    }

    open spec fn add_pre(self, sender: NodeId, add: Add) -> bool {
        self.abs().contains_key(sender@) ==> self.abs()[sender@] + add.delta <= u64::MAX
    }

    open spec fn add_post(self, sender: NodeId, add: Add, post: Self) -> bool {
        post.abs() == (if self.abs().contains_key(sender@) {
            self.abs().insert(sender@, (self.abs()[sender@] + add.delta) as u64)
        } else {
            self.abs().insert(sender@, add.delta)
        })
    }

    open spec fn merge_post(self, other: State, post: Self) -> bool {
        post.abs() == assoc::joined(self.abs(), assoc::map_of(state_entries(other)), max_u64())
    }

    open spec fn query_pre(self) -> bool {
        assoc::sum_by(self.entries(), count_weight()) <= u64::MAX
    }

    open spec fn query_post(self, q: Query) -> bool {
        q.value == assoc::sum_by(self.entries(), count_weight())
    }

    open spec fn state_post(self, st: State) -> bool {
        state_entries(st) == self.entries()
    }

    open spec fn initial_post(r: Self) -> bool {
        r.abs() == Map::<Seq<char>, u64>::empty()
    }

    fn initial() -> (r: Self) {
        let r = GCounter(State { counters: Vec::new() });
        proof {
            assert(r.entries() =~= Seq::<(Seq<char>, u64)>::empty());
        }
        r
    }

    fn add(&mut self, sender: &NodeId, add: Add) {
        let ghost pre = self.entries();
        proof {
            assoc::lemma_map_of_contains(pre, sender@);
        }
        match find_node(&self.0.counters, sender) {
            Some(i) => {
                let cur = self.0.counters[i].1;
                proof {
                    assoc::lemma_map_of_index(pre, i as int);
                    assoc::lemma_map_of_update(pre, i as int, (cur + add.delta) as u64);
                }
                let next = cur + add.delta;
                self.0.counters.set(i, (sender.clone(), next));
                proof {
                    assert(self.entries() =~= pre.update(i as int, (pre[i as int].0, next)));
                }
            },
            None => {
                proof {
                    assert(!assoc::has_key(pre, sender@)) by {
                        if assoc::has_key(pre, sender@) {
                            let j = choose|j: int| 0 <= j < pre.len() && pre[j].0 == sender@;
                        }
                    }
                    assoc::lemma_map_of_push(pre, (sender@, add.delta));
                    assoc::lemma_keys_unique_push(pre, (sender@, add.delta));
                }
                self.0.counters.push((sender.clone(), add.delta));
                proof {
                    assert(self.entries() =~= pre.push((sender@, add.delta)));
                }
            },
        }
    }

    fn merge(&mut self, other: State) {
        let ghost mine0 = self.entries();
        let ghost ov = state_entries(other);
        let ghost j = max_u64();
        let mut i: usize = 0;
        proof {
            assert(ov.skip(0) =~= ov);
        }
        while i < other.counters.len()
            invariant
                i <= other.counters@.len(),
                ov == state_entries(other),
                ov.len() == other.counters@.len(),
                j == max_u64(),
                assoc::keys_unique(self.entries()),
                assoc::merge_entries(mine0, ov, j) == assoc::merge_entries(
                    self.entries(),
                    ov.skip(i as int),
                    j,
                ),
            decreases other.counters@.len() - i,
        {
            let ghost cur = self.entries();
            proof {
                assert(ov.skip(i as int)[0] == ov[i as int]);
                assert(ov.skip(i as int).drop_first() =~= ov.skip(i as int + 1));
                assoc::lemma_merge_entry(cur, ov[i as int], j);
            }
            let entry = &other.counters[i];
            let v = entry.1;
            match find_node(&self.0.counters, &entry.0) {
                Some(idx) => {
                    let cur_v = self.0.counters[idx].1;
                    let nv = if cur_v >= v {
                        cur_v
                    } else {
                        v
                    };
                    proof {
                        assert(assoc::has_key(cur, ov[i as int].0)) by {
                            assert(cur[idx as int].0 == ov[i as int].0);
                        }
                        let jj = choose|jj: int|
                            0 <= jj < cur.len() && cur[jj].0 == ov[i as int].0;
                        assert(jj == idx) by {
                            if jj != idx {
                                assert(cur[jj].0 == cur[idx as int].0);
                            }
                        }
                        assert(nv == j(cur[idx as int].1, ov[i as int].1));
                    }
                    self.0.counters.set(idx, (entry.0.clone(), nv));
                    proof {
                        assert(self.entries() =~= cur.update(idx as int, (ov[i as int].0, nv)));
                        assert(self.entries() == assoc::merge_entry(cur, ov[i as int], j));
                    }
                },
                None => {
                    proof {
                        assert(!assoc::has_key(cur, ov[i as int].0)) by {
                            if assoc::has_key(cur, ov[i as int].0) {
                                let jj = choose|jj: int|
                                    0 <= jj < cur.len() && cur[jj].0 == ov[i as int].0;
                            }
                        }
                    }
                    self.0.counters.push((entry.0.clone(), v));
                    proof {
                        assert(self.entries() =~= cur.push((ov[i as int].0, v)));
                        assert(self.entries() == assoc::merge_entry(cur, ov[i as int], j));
                    }
                },
            }
            i = i + 1;
        }
        proof {
            assert(ov.skip(ov.len() as int) =~= Seq::<(Seq<char>, u64)>::empty());
            assoc::lemma_merge_entries(mine0, ov, j);
        }
    }

    fn query(&self) -> (r: Query) {
        let ghost es = self.entries();
        let ghost w = count_weight();
        let mut total: u64 = 0;
        let mut i: usize = 0;
        proof {
            assert(es.skip(0) =~= es);
            assert forall|k: int| 0 <= k < es.len() implies #[trigger] w(es[k].1) >= 0 by {}
        }
        while i < self.0.counters.len()
            invariant
                i <= self.0.counters@.len(),
                es == self.entries(),
                es.len() == self.0.counters@.len(),
                w == count_weight(),
                assoc::sum_by(es, w) <= u64::MAX,
                forall|k: int| 0 <= k < es.len() ==> #[trigger] w(es[k].1) >= 0,
                total + assoc::sum_by(es.skip(i as int), w) == assoc::sum_by(es, w),
            decreases self.0.counters@.len() - i,
        {
            proof {
                assoc::lemma_sum_by_skip_unfold(es, i as int, w);
                assert forall|k: int|
                    0 <= k < es.skip(i as int + 1).len() implies #[trigger] w(
                    es.skip(i as int + 1)[k].1,
                ) >= 0 by {
                    assert(es.skip(i as int + 1)[k] == es[i as int + 1 + k]);
                }
                assoc::lemma_sum_by_nonneg(es.skip(i as int + 1), w);
                assert(es[i as int].1 == self.0.counters@[i as int].1);
            }
            total = total + self.0.counters[i].1;
            i = i + 1;
        }
        proof {
            assert(es.skip(es.len() as int) =~= Seq::<(Seq<char>, u64)>::empty());
        }
        Query { value: total }
    }

    fn state(&self) -> (r: State) {
        let mut out: Vec<(NodeId, u64)> = Vec::new();
        let mut i: usize = 0;
        while i < self.0.counters.len()
            invariant
                i <= self.0.counters@.len(),
                out@.len() == i,
                forall|k: int| 0 <= k < i ==> #[trigger] out@[k] == self.0.counters@[k],
            decreases self.0.counters@.len() - i,
        {
            let key = self.0.counters[i].0.clone();
            let v = self.0.counters[i].1;
            out.push((key, v));
            i = i + 1;
        }
        let st = State { counters: out };
        proof {
            assert(state_entries(st) =~= self.entries());
        }
        st
    }
}

/// Merging is commutative: two nodes that merge each other's snapshots
/// arrive at the same abstraction.
pub proof fn lemma_merge_commutative(
    a: GCounter,
    b: GCounter,
    sa: State,
    sb: State,
    a2: GCounter,
    b2: GCounter,
)
    requires
        a.wf(),
        b.wf(),
        a.state_post(sa),
        b.state_post(sb),
        a.merge_post(sb, a2),
        b.merge_post(sa, b2),
    ensures
        a2.abs() == b2.abs(),
{
    assert forall|x: u64, y: u64| #[trigger] (max_u64())(x, y) == (max_u64())(y, x) by {}
    assoc::lemma_joined_commutative(a.abs(), b.abs(), max_u64());
}

/// Merging a node's own snapshot changes nothing.
pub proof fn lemma_merge_idempotent(a: GCounter, sa: State, a2: GCounter)
    requires
        a.wf(),
        a.state_post(sa),
        a.merge_post(sa, a2),
    ensures
        a2.abs() == a.abs(),
{
    assert forall|x: u64| #[trigger] (max_u64())(x, x) == x by {}
    assoc::lemma_joined_idempotent(a.abs(), max_u64());
}

/// The read value is determined by the abstraction alone.
pub proof fn lemma_query_agreement(a: GCounter, b: GCounter, qa: Query, qb: Query)
    requires
        a.wf(),
        b.wf(),
        a.abs() == b.abs(),
        a.query_post(qa),
        b.query_post(qb),
    ensures
        qa.value == qb.value,
{
    assoc::lemma_sum_by_map_eq(a.entries(), b.entries(), count_weight());
}

/// Convergence: after two nodes have exchanged states once in each
/// direction, reads on both return the same value.
pub proof fn lemma_convergence(
    a: GCounter,
    b: GCounter,
    sa: State,
    sb: State,
    a2: GCounter,
    b2: GCounter,
    qa: Query,
    qb: Query,
)
    requires
        a.wf(),
        b.wf(),
        a2.wf(),
        b2.wf(),
        a.state_post(sa),
        b.state_post(sb),
        a.merge_post(sb, a2),
        b.merge_post(sa, b2),
        a2.query_post(qa),
        b2.query_post(qb),
    ensures
        qa.value == qb.value,
{
    lemma_merge_commutative(a, b, sa, sb, a2, b2);
    lemma_query_agreement(a2, b2, qa, qb);
}

} // verus!
