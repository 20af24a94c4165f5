//! The grow-only set CRDT: a set of integers, merged by union, read as the
//! set itself.
use vstd::prelude::*;

use crate::crdt::Crdt;
use crate::node::NodeId;

verus! {

/// One insertion.
pub struct Add {
    pub element: u64,
}

/// The replicated state, which is also what a read returns.
pub struct State {
    pub value: Vec<u64>,
}

/// The grow-only set.
pub struct GSet(pub State);

/// The set a sequence of elements denotes.
pub open spec fn set_of(s: Seq<u64>) -> Set<u64> {
    Set::new(|x: u64| s.contains(x))
}

/// No element repeats.
pub open spec fn elems_unique(s: Seq<u64>) -> bool {
    forall|i: int, j: int| 0 <= i < j < s.len() ==> s[i] != s[j]
}

impl GSet {
    /// The abstraction: the set of observed elements.
    pub open spec fn abs(self) -> Set<u64> {
        set_of(self.0.value@)
    }
}

/// Whether the sequence holds the element.
fn seq_contains(v: &Vec<u64>, x: u64) -> (r: bool)
    ensures
        r == v@.contains(x),
{
    let mut i: usize = 0;
    while i < v.len()
        invariant
            i <= v.len(),
            forall|j: int| 0 <= j < i ==> v@[j] != x,
        decreases v.len() - i,
    {
        if v[i] == x {
            return true;
        }
        i = i + 1;
    }
    proof {
        if v@.contains(x) {
            let j = choose|j: int| 0 <= j < v@.len() && v@[j] == x;
        }
    }
    false
}

/// Inserting one element into a sequence extends its set by that element.
proof fn lemma_set_of_push(s: Seq<u64>, x: u64)
    ensures
        set_of(s.push(x)) == set_of(s).insert(x),
{
    assert forall|y: u64|
        set_of(s.push(x)).contains(y) <==> set_of(s).insert(x).contains(y) by {
        if s.push(x).contains(y) {
            let j = choose|j: int| 0 <= j < s.push(x).len() && #[trigger] s.push(x)[j] == y;
            if j < s.len() {
                assert(s[j] == y);
            }
        }
        if s.contains(y) {
            let j = choose|j: int| 0 <= j < s.len() && #[trigger] s[j] == y;
            assert(s.push(x)[j] == y);
        }
        if y == x {
            assert(s.push(x)[s.len() as int] == y);
        }
    }
    assert(set_of(s.push(x)) =~= set_of(s).insert(x));
}

impl Crdt for GSet {
    type Add = Add;

    type State = State;

    type Query = State;

    open spec fn wf(self) -> bool {
        elems_unique(self.0.value@)
    }

    open spec fn state_wf(st: State) -> bool {
        elems_unique(st.value@)
    }

    open spec fn add_pre(self, sender: NodeId, add: Add) -> bool {
        true
    }

    open spec fn add_post(self, sender: NodeId, add: Add, post: Self) -> bool {
        post.abs() == self.abs().insert(add.element)
    }

    open spec fn merge_post(self, other: State, post: Self) -> bool {
        post.abs() == self.abs().union(set_of(other.value@))
    }

    open spec fn query_pre(self) -> bool {
        true
    }

    open spec fn query_post(self, q: State) -> bool {
        set_of(q.value@) == self.abs()
    }

    open spec fn state_post(self, st: State) -> bool {
        st.value@ == self.0.value@
    }

    open spec fn initial_post(r: Self) -> bool {
        r.abs() == Set::<u64>::empty()
    }

    fn initial() -> (r: Self) {
        let r = GSet(State { value: Vec::new() });
        proof {
            assert(r.abs() =~= Set::<u64>::empty());
        }
        r
    }

    fn add(&mut self, sender: &NodeId, add: Add) {
        if seq_contains(&self.0.value, add.element) {
            proof {
                assert(self.abs() =~= self.abs().insert(add.element));
            }
            return ;
        }
        let ghost pre = self.0.value@;
        self.0.value.push(add.element);
        proof {
            lemma_set_of_push(pre, add.element);
            assert forall|i: int, j: int|
                0 <= i < j < self.0.value@.len() implies self.0.value@[i] != self.0.value@[j] by {
                if j < pre.len() {
                } else {
                    assert(self.0.value@[j] == add.element);
                    assert(self.0.value@[i] == pre[i]);
                    if pre[i] == add.element {
                        assert(pre.contains(add.element));
                    }
                }
            }
        }
    }

    fn merge(&mut self, other: State) {
        let ghost mine0 = self.abs();
        let ghost ov = other.value@;
        let mut i: usize = 0;
        proof {
            assert(mine0.union(set_of(ov.take(0))) =~= mine0) by {
                assert(ov.take(0) =~= Seq::<u64>::empty());
                assert forall|y: u64| !Seq::<u64>::empty().contains(y) by {}
            }
        }
        while i < other.value.len()
            invariant
                i <= other.value@.len(),
                ov == other.value@,
                elems_unique(self.0.value@),
                self.abs() == mine0.union(set_of(ov.take(i as int))),
            decreases other.value@.len() - i,
        {
            let ghost pre = self.0.value@;
            let x = other.value[i];
            if !seq_contains(&self.0.value, x) {
                self.0.value.push(x);
                proof {
                    lemma_set_of_push(pre, x);
                    assert forall|a: int, b: int|
                        0 <= a < b < self.0.value@.len() implies self.0.value@[a]
                        != self.0.value@[b] by {
                        if b < pre.len() {
                        } else {
                            assert(self.0.value@[b] == x);
                            assert(self.0.value@[a] == pre[a]);
                            if pre[a] == x {
                                assert(pre.contains(x));
                            }
                        }
                    }
                }
            } else {
                proof {
                    assert(set_of(pre) =~= set_of(pre).insert(x));
                }
            }
            proof {
                assert(ov.take(i as int + 1).drop_last() =~= ov.take(i as int));
                assert(ov.take(i as int + 1).last() == ov[i as int]);
                assert forall|y: u64|
                    ov.take(i as int + 1).contains(y) <==> ov.take(i as int).contains(y) || y
                        == x by {
                    if ov.take(i as int + 1).contains(y) {
                        let j = choose|j: int|
                            0 <= j < ov.take(i as int + 1).len() && #[trigger] ov.take(
                                i as int + 1,
                            )[j] == y;
                        if j < i as int {
                            assert(ov.take(i as int)[j] == y);
                        }
                    }
                    if ov.take(i as int).contains(y) {
                        let j = choose|j: int|
                            0 <= j < ov.take(i as int).len() && #[trigger] ov.take(i as int)[j]
                                == y;
                        assert(ov.take(i as int + 1)[j] == y);
                    }
                    if y == x {
                        assert(ov.take(i as int + 1)[i as int] == y);
                    }
                }
                assert(self.abs() =~= mine0.union(set_of(ov.take(i as int + 1))));
            }
            i = i + 1;
        }
        proof {
            assert(ov.take(ov.len() as int) =~= ov);
        }
    }

    fn query(&self) -> (r: State) {
        let mut out: Vec<u64> = Vec::new();
        let mut i: usize = 0;
        while i < self.0.value.len()
            invariant
                i <= self.0.value@.len(),
                out@ == self.0.value@.take(i as int),
            decreases self.0.value@.len() - i,
        {
            out.push(self.0.value[i]);
            proof {
                assert(self.0.value@.take(i as int).push(self.0.value@[i as int])
                    =~= self.0.value@.take(i as int + 1));
            }
            i = i + 1;
        }
        proof {
            assert(self.0.value@.take(self.0.value@.len() as int) =~= self.0.value@);
        }
        State { value: out }
    }

    fn state(&self) -> (r: State) {
        let mut out: Vec<u64> = Vec::new();
        let mut i: usize = 0;
        while i < self.0.value.len()
            invariant
                i <= self.0.value@.len(),
                out@ == self.0.value@.take(i as int),
            decreases self.0.value@.len() - i,
        {
            out.push(self.0.value[i]);
            proof {
                assert(self.0.value@.take(i as int).push(self.0.value@[i as int])
                    =~= self.0.value@.take(i as int + 1));
            }
            i = i + 1;
        }
        proof {
            assert(self.0.value@.take(self.0.value@.len() as int) =~= self.0.value@);
        }
        State { value: out }
    }
}

/// Merging is commutative: two nodes that merge each other's snapshots
/// arrive at the same set.
pub proof fn lemma_merge_commutative(
    a: GSet,
    b: GSet,
    sa: State,
    sb: State,
    a2: GSet,
    b2: GSet,
)
    requires
        a.wf(),
        b.wf(),
        a.state_post(sa),
        b.state_post(sb),
        a.merge_post(sb, a2),
        b.merge_post(sa, b2),
    ensures
        a2.abs() == b2.abs(),
{
    assert(a.abs().union(b.abs()) =~= b.abs().union(a.abs()));
}

/// Merging a node's own snapshot changes nothing.
pub proof fn lemma_merge_idempotent(a: GSet, sa: State, a2: GSet)
    requires
        a.wf(),
        a.state_post(sa),
        a.merge_post(sa, a2),
    ensures
        a2.abs() == a.abs(),
{
    assert(a.abs().union(a.abs()) =~= a.abs());
}

/// Convergence: after two nodes have exchanged states once in each
/// direction, reads on both return the same set.
pub proof fn lemma_convergence(
    a: GSet,
    b: GSet,
    sa: State,
    sb: State,
    a2: GSet,
    b2: GSet,
    qa: State,
    qb: State,
)
    requires
        a.wf(),
        b.wf(),
        a2.wf(),
        b2.wf(),
        a.state_post(sa),
        b.state_post(sb),
        a.merge_post(sb, a2),
        b.merge_post(sa, b2),
        a2.query_post(qa),
        b2.query_post(qb),
    ensures
        set_of(qa.value@) == set_of(qb.value@),
{
    lemma_merge_commutative(a, b, sa, sb, a2, b2);
}

} // verus!
