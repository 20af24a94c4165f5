//! The positive-negative counter CRDT: per-node pairs of accumulated
//! positive and negative deltas, merged by per-node (max, min), read as the
//! sum of all pairs.
use vstd::prelude::*;

use crate::assoc;
use crate::crdt::Crdt;
use crate::gcounter::find_node;
use crate::node::NodeId;

verus! {

/// One signed increment; a zero delta is a no-op.
pub struct Add {
    pub delta: i64,
}

/// A read: the sum of every node's positive and negative parts.
pub struct Query {
    pub value: i64,
}

/// The replicated state: each node's (positive, negative) accumulators.
pub struct State {
    pub counters: Vec<(NodeId, (i64, i64))>,
}

/// The positive-negative counter.
pub struct PnCounter(pub State);

/// Counter entries at the view level, keyed by node-id text.
pub open spec fn entries_of(s: Seq<(NodeId, (i64, i64))>) -> Seq<(Seq<char>, (i64, i64))> {
    s.map_values(|p: (NodeId, (i64, i64))| (p.0@, p.1))
}

/// The join on pairs: the larger positive part and the smaller negative part.
pub open spec fn max_min() -> spec_fn((i64, i64), (i64, i64)) -> (i64, i64) {
    |x: (i64, i64), y: (i64, i64)|
        (
            if x.0 >= y.0 {
                x.0
            } else {
                y.0
            },
            if x.1 <= y.1 {
                x.1
            } else {
                y.1
            },
        )
}

/// A pair's weight in the queried sum.
pub open spec fn pair_weight() -> spec_fn((i64, i64)) -> int {
    |v: (i64, i64)| v.0 + v.1
}

/// The positive part alone.
pub open spec fn pos_weight() -> spec_fn((i64, i64)) -> int {
    |v: (i64, i64)| v.0 as int
}

/// The negative part alone.
pub open spec fn neg_weight() -> spec_fn((i64, i64)) -> int {
    |v: (i64, i64)| v.1 as int
}

/// Every pair accumulates its sign: the positive part is nonnegative and the
/// negative part nonpositive.
pub open spec fn signs_ok(s: Seq<(Seq<char>, (i64, i64))>) -> bool {
    forall|i: int| 0 <= i < s.len() ==> (#[trigger] s[i].1).0 >= 0 && s[i].1.1 <= 0
}

impl PnCounter {
    /// The entries at the view level.
    pub open spec fn entries(self) -> Seq<(Seq<char>, (i64, i64))> {
        entries_of(self.0.counters@)
    }

    /// The abstraction: each node's pair, as a map.
    pub open spec fn abs(self) -> Map<Seq<char>, (i64, i64)> {
        assoc::map_of(self.entries())
    }
}

/// A snapshot's entries at the view level.
pub open spec fn state_entries(st: State) -> Seq<(Seq<char>, (i64, i64))> {
    entries_of(st.counters@)
}

impl Crdt for PnCounter {
    type Add = Add;

    type State = State;

    type Query = Query;

    open spec fn wf(self) -> bool {
        assoc::keys_unique(self.entries()) && signs_ok(self.entries())
    }

    open spec fn state_wf(st: State) -> bool {
        assoc::keys_unique(state_entries(st)) && signs_ok(state_entries(st))
    }

    open spec fn add_pre(self, sender: NodeId, add: Add) -> bool {
        self.abs().contains_key(sender@) ==> {
            let cur = self.abs()[sender@];
            &&& add.delta > 0 ==> cur.0 + add.delta <= i64::MAX
            &&& add.delta < 0 ==> cur.1 + add.delta >= i64::MIN
        }
    }

    open spec fn add_post(self, sender: NodeId, add: Add, post: Self) -> bool {
        if add.delta == 0 {
            post.abs() == self.abs()
        } else {
            let pos: i64 = if add.delta > 0 {
                add.delta
            } else {
                0
            };
            let neg: i64 = if add.delta < 0 {
                add.delta
            } else {
                0
            };
            post.abs() == (if self.abs().contains_key(sender@) {
                let cur = self.abs()[sender@];
                self.abs().insert(sender@, ((cur.0 + pos) as i64, (cur.1 + neg) as i64))
            } else {
                self.abs().insert(sender@, (pos, neg))
            })
        }
    }

    open spec fn merge_post(self, other: State, post: Self) -> bool {
        post.abs() == assoc::joined(self.abs(), assoc::map_of(state_entries(other)), max_min())
    }

    open spec fn query_pre(self) -> bool {
        assoc::sum_by(self.entries(), pos_weight()) <= i64::MAX && assoc::sum_by(
            self.entries(),
            neg_weight(),
        ) >= i64::MIN
    }

    open spec fn query_post(self, q: Query) -> bool {
        q.value == assoc::sum_by(self.entries(), pair_weight())
    }

    open spec fn state_post(self, st: State) -> bool {
        state_entries(st) == self.entries()
    }

    open spec fn initial_post(r: Self) -> bool {
        r.abs() == Map::<Seq<char>, (i64, i64)>::empty()
    }

    fn initial() -> (r: Self) {
        let r = PnCounter(State { counters: Vec::new() });
        proof {
            assert(r.entries() =~= Seq::<(Seq<char>, (i64, i64))>::empty());
        }
        r
    }

    fn add(&mut self, sender: &NodeId, add: Add) {
        if add.delta == 0 {
            return ;
        }
        let pos: i64 = if add.delta > 0 {
            add.delta
        } else {
            0
        };
        let neg: i64 = if add.delta < 0 {
            add.delta
        } else {
            0
        };
        let ghost pre = self.entries();
        proof {
            assoc::lemma_map_of_contains(pre, sender@);
        }
        match find_node(&self.0.counters, sender) {
            Some(i) => {
                let cur = self.0.counters[i].1;
                proof {
                    assoc::lemma_map_of_index(pre, i as int);
                }
                let next = (cur.0 + pos, cur.1 + neg);
                proof {
                    assoc::lemma_map_of_update(pre, i as int, next);
                }
                self.0.counters.set(i, (sender.clone(), next));
                proof {
                    assert(self.entries() =~= pre.update(i as int, (pre[i as int].0, next)));
                    assert forall|k: int|
                        0 <= k < self.entries().len() implies (#[trigger] self.entries()[k].1).0
                        >= 0 && self.entries()[k].1.1 <= 0 by {
                        if k != i {
                            assert(self.entries()[k] == pre[k]);
                        }
                    }
                }
            },
            None => {
                proof {
                    assert(!assoc::has_key(pre, sender@)) by {
                        if assoc::has_key(pre, sender@) {
                            let j = choose|j: int| 0 <= j < pre.len() && pre[j].0 == sender@;
                        }
                    }
                    assoc::lemma_map_of_push(pre, (sender@, (pos, neg)));
                    assoc::lemma_keys_unique_push(pre, (sender@, (pos, neg)));
                }
                self.0.counters.push((sender.clone(), (pos, neg)));
                proof {
                    assert(self.entries() =~= pre.push((sender@, (pos, neg))));
                    assert forall|k: int|
                        0 <= k < self.entries().len() implies (#[trigger] self.entries()[k].1).0
                        >= 0 && self.entries()[k].1.1 <= 0 by {
                        if k < pre.len() {
                            assert(self.entries()[k] == pre[k]);
                        }
                    }
                }
            },
        }
    }

    fn merge(&mut self, other: State) {
        let ghost mine0 = self.entries();
        let ghost ov = state_entries(other);
        let ghost j = max_min();
        let mut i: usize = 0;
        proof {
            assert(ov.skip(0) =~= ov);
        }
        while i < other.counters.len()
            invariant
                i <= other.counters@.len(),
                ov == state_entries(other),
                ov.len() == other.counters@.len(),
                j == max_min(),
                signs_ok(ov),
                assoc::keys_unique(self.entries()),
                signs_ok(self.entries()),
                assoc::merge_entries(mine0, ov, j) == assoc::merge_entries(
                    self.entries(),
                    ov.skip(i as int),
                    j,
                ),
            decreases other.counters@.len() - i,
        {
            let ghost cur = self.entries();
            proof {
                assert(ov.skip(i as int)[0] == ov[i as int]);
                assert(ov.skip(i as int).drop_first() =~= ov.skip(i as int + 1));
                assoc::lemma_merge_entry(cur, ov[i as int], j);
            }
            let entry = &other.counters[i];
            let v = entry.1;
            proof {
                assert(ov[i as int].1 == v);
            }
            match find_node(&self.0.counters, &entry.0) {
                Some(idx) => {
                    let cur_v = self.0.counters[idx].1;
                    let np = if cur_v.0 >= v.0 {
                        cur_v.0
                    } else {
                        v.0
                    };
                    let nn = if cur_v.1 <= v.1 {
                        cur_v.1
                    } else {
                        v.1
                    };
                    proof {
                        assert(assoc::has_key(cur, ov[i as int].0)) by {
                            assert(cur[idx as int].0 == ov[i as int].0);
                        }
                        let jj = choose|jj: int|
                            0 <= jj < cur.len() && cur[jj].0 == ov[i as int].0;
                        assert(jj == idx) by {
                            if jj != idx {
                                assert(cur[jj].0 == cur[idx as int].0);
                            }
                        }
                        assert((np, nn) == j(cur[idx as int].1, ov[i as int].1));
                    }
                    self.0.counters.set(idx, (entry.0.clone(), (np, nn)));
                    proof {
                        assert(self.entries() =~= cur.update(
                            idx as int,
                            (ov[i as int].0, (np, nn)),
                        ));
                        assert(self.entries() == assoc::merge_entry(cur, ov[i as int], j));
                        assert forall|k: int|
                            0 <= k < self.entries().len() implies (#[trigger] self.entries()[k].1).0
                            >= 0 && self.entries()[k].1.1 <= 0 by {
                            if k != idx {
                                assert(self.entries()[k] == cur[k]);
                            } else {
                                assert(cur[idx as int].1.0 >= 0 && cur[idx as int].1.1 <= 0);
                            }
                        }
                    }
                },
                None => {
                    proof {
                        assert(!assoc::has_key(cur, ov[i as int].0)) by {
                            if assoc::has_key(cur, ov[i as int].0) {
                                let jj = choose|jj: int|
                                    0 <= jj < cur.len() && cur[jj].0 == ov[i as int].0;
                            }
                        }
                    }
                    self.0.counters.push((entry.0.clone(), v));
                    proof {
                        assert(self.entries() =~= cur.push((ov[i as int].0, v)));
                        assert(self.entries() == assoc::merge_entry(cur, ov[i as int], j));
                        assert forall|k: int|
                            0 <= k < self.entries().len() implies (#[trigger] self.entries()[k].1).0
                            >= 0 && self.entries()[k].1.1 <= 0 by {
                            if k < cur.len() {
                                assert(self.entries()[k] == cur[k]);
                            } else {
                                assert(self.entries()[k].1 == ov[i as int].1);
                            }
                        }
                    }
                },
            }
            i = i + 1;
        }
        proof {
            assert(ov.skip(ov.len() as int) =~= Seq::<(Seq<char>, (i64, i64))>::empty());
            assoc::lemma_merge_entries(mine0, ov, j);
        }
    }

    fn query(&self) -> (r: Query) {
        let ghost es = self.entries();
        let ghost wp = pos_weight();
        let ghost wn = neg_weight();
        let mut pos_sum: i64 = 0;
        let mut neg_sum: i64 = 0;
        let mut i: usize = 0;
        proof {
            assert(es.skip(0) =~= es);
            assert forall|k: int|
                0 <= k < es.len() implies #[trigger] wp(es[k].1) >= 0 && wn(es[k].1) <= 0 by {
                assert(es[k].1.0 >= 0 && es[k].1.1 <= 0);
            }
        }
        while i < self.0.counters.len()
            invariant
                i <= self.0.counters@.len(),
                es == self.entries(),
                es.len() == self.0.counters@.len(),
                wp == pos_weight(),
                wn == neg_weight(),
                assoc::sum_by(es, wp) <= i64::MAX,
                assoc::sum_by(es, wn) >= i64::MIN,
                forall|k: int| 0 <= k < es.len() ==> #[trigger] wp(es[k].1) >= 0,
                forall|k: int| 0 <= k < es.len() ==> #[trigger] wn(es[k].1) <= 0,
                pos_sum >= 0,
                neg_sum <= 0,
                pos_sum + assoc::sum_by(es.skip(i as int), wp) == assoc::sum_by(es, wp),
                neg_sum + assoc::sum_by(es.skip(i as int), wn) == assoc::sum_by(es, wn),
            decreases self.0.counters@.len() - i,
        {
            proof {
                assoc::lemma_sum_by_skip_unfold(es, i as int, wp);
                assoc::lemma_sum_by_skip_unfold(es, i as int, wn);
                assert forall|k: int|
                    0 <= k < es.skip(i as int + 1).len() implies #[trigger] wp(
                    es.skip(i as int + 1)[k].1,
                ) >= 0 && wn(es.skip(i as int + 1)[k].1) <= 0 by {
                    assert(es.skip(i as int + 1)[k] == es[i as int + 1 + k]);
                }
                assoc::lemma_sum_by_nonneg(es.skip(i as int + 1), wp);
                assoc::lemma_sum_by_nonpos(es.skip(i as int + 1), wn);
                assert(es[i as int].1 == self.0.counters@[i as int].1);
            }
            let v = self.0.counters[i].1;
            pos_sum = pos_sum + v.0;
            neg_sum = neg_sum + v.1;
            i = i + 1;
        }
        proof {
            assert(es.skip(es.len() as int) =~= Seq::<(Seq<char>, (i64, i64))>::empty());
            assert forall|v: (i64, i64)|
                #[trigger] (pair_weight())(v) == wp(v) + wn(v) by {}
            assoc::lemma_sum_by_linear(es, wp, wn, pair_weight());
        }
        Query { value: pos_sum + neg_sum }
    }

    fn state(&self) -> (r: State) {
        let mut out: Vec<(NodeId, (i64, i64))> = Vec::new();
        let mut i: usize = 0;
        while i < self.0.counters.len()
            invariant
                i <= self.0.counters@.len(),
                out@.len() == i,
                forall|k: int| 0 <= k < i ==> #[trigger] out@[k] == self.0.counters@[k],
            decreases self.0.counters@.len() - i,
        {
            let key = self.0.counters[i].0.clone();
            let v = self.0.counters[i].1;
            out.push((key, v));
            i = i + 1;
        }
        let st = State { counters: out };
        proof {
            assert(state_entries(st) =~= self.entries());
        }
        st
    }
}

/// Merging is commutative: two nodes that merge each other's snapshots
/// arrive at the same abstraction.
pub proof fn lemma_merge_commutative(
    a: PnCounter,
    b: PnCounter,
    sa: State,
    sb: State,
    a2: PnCounter,
    b2: PnCounter,
)
    requires
        a.wf(),
        b.wf(),
        a.state_post(sa),
        b.state_post(sb),
        a.merge_post(sb, a2),
        b.merge_post(sa, b2),
    ensures
        a2.abs() == b2.abs(),
{
    assert forall|x: (i64, i64), y: (i64, i64)|
        #[trigger] (max_min())(x, y) == (max_min())(y, x) by {}
    assoc::lemma_joined_commutative(a.abs(), b.abs(), max_min());
}

/// Merging a node's own snapshot changes nothing.
pub proof fn lemma_merge_idempotent(a: PnCounter, sa: State, a2: PnCounter)
    requires
        a.wf(),
        a.state_post(sa),
        a.merge_post(sa, a2),
    ensures
        a2.abs() == a.abs(),
{
    assert forall|x: (i64, i64)| #[trigger] (max_min())(x, x) == x by {}
    assoc::lemma_joined_idempotent(a.abs(), max_min());
}

/// The read value is determined by the abstraction alone.
pub proof fn lemma_query_agreement(a: PnCounter, b: PnCounter, qa: Query, qb: Query)
    requires
        a.wf(),
        b.wf(),
        a.abs() == b.abs(),
        a.query_post(qa),
        b.query_post(qb),
    ensures
        qa.value == qb.value,
{
    assoc::lemma_sum_by_map_eq(a.entries(), b.entries(), pair_weight());
}

/// Convergence: after two nodes have exchanged states once in each
/// direction, reads on both return the same value.
pub proof fn lemma_convergence(
    a: PnCounter,
    b: PnCounter,
    sa: State,
    sb: State,
    a2: PnCounter,
    b2: PnCounter,
    qa: Query,
    qb: Query,
)
    requires
        a.wf(),
        b.wf(),
        a2.wf(),
        b2.wf(),
        a.state_post(sa),
        b.state_post(sb),
        a.merge_post(sb, a2),
        b.merge_post(sa, b2),
        a2.query_post(qa),
        b2.query_post(qb),
    ensures
        qa.value == qb.value,
{
    lemma_merge_commutative(a, b, sa, sb, a2, b2);
    lemma_query_agreement(a2, b2, qa, qb);
}

} // verus!
