//! The broadcast workload: a grow-only set of observed values, flooded to
//! the neighbors named by the topology, with retries until acknowledgment.
use vstd::prelude::*;

use crate::error::Error;
use crate::gset::elems_unique;
use crate::node::NodeId;
use crate::serve::RequestHandler;

verus! {

/// How many times a value is re-sent to a silent neighbor before giving up.
pub const MAX_BROADCAST_ATTEMPTS: usize = 10;

/// A broadcast request.
pub enum Request {
    Topology { topology: Vec<(NodeId, Vec<NodeId>)> },
    Broadcast { message: u64 },
    Read,
}

/// A broadcast reply.
pub enum Response {
    TopologyOk,
    BroadcastOk,
    ReadOk { messages: Vec<u64> },
}

/// The neighbor list the topology assigns to this node: the first entry
/// under this node's id, if any.
pub open spec fn find_self(t: Seq<(NodeId, Vec<NodeId>)>, me: Seq<char>) -> Option<Seq<NodeId>>
    decreases t.len(),
{
    if t.len() == 0 {
        None
    } else if t[0].0@ == me {
        Some(t[0].1@)
    } else {
        find_self(t.drop_first(), me)
    }
}

/// The ids of a list other than the given one, in order.
pub open spec fn except(list: Seq<NodeId>, me: Seq<char>) -> Seq<NodeId>
    decreases list.len(),
{
    if list.len() == 0 {
        Seq::empty()
    } else if list[0]@ != me {
        seq![list[0]] + except(list.drop_first(), me)
    } else {
        except(list.drop_first(), me)
    }
}

/// The pending gossip of one new value: a retried send for every neighbor
/// except the node the value came from.
pub open spec fn broadcast_targets(
    neighbors: Seq<NodeId>,
    sender: Seq<char>,
    message: u64,
) -> Seq<(NodeId, u64)>
    decreases neighbors.len(),
{
    if neighbors.len() == 0 {
        Seq::empty()
    } else if neighbors[0]@ != sender {
        seq![(neighbors[0], message)] + broadcast_targets(neighbors.drop_first(), sender, message)
    } else {
        broadcast_targets(neighbors.drop_first(), sender, message)
    }
}

/// The flood is complete: every neighbor other than the sender appears in
/// the queued gossip of a newly accepted value.
pub proof fn lemma_broadcast_targets_complete(
    neighbors: Seq<NodeId>,
    sender: Seq<char>,
    message: u64,
    i: int,
)
    requires
        0 <= i < neighbors.len(),
        neighbors[i]@ != sender,
    ensures
        exists|j: int|
            0 <= j < broadcast_targets(neighbors, sender, message).len()
                && #[trigger] broadcast_targets(neighbors, sender, message)[j] == (
            neighbors[i],
            message,
            ),
    decreases neighbors.len(),
{
    let t = broadcast_targets(neighbors, sender, message);
    if i == 0 {
        assert(t[0] == (neighbors[0], message));
    } else {
        lemma_broadcast_targets_complete(neighbors.drop_first(), sender, message, i - 1);
        let rest = broadcast_targets(neighbors.drop_first(), sender, message);
        let j = choose|j: int|
            0 <= j < rest.len() && #[trigger] rest[j] == (neighbors.drop_first()[i - 1], message);
        assert(neighbors.drop_first()[i - 1] == neighbors[i]);
        if neighbors[0]@ != sender {
            assert(t[j + 1] == rest[j]);
        } else {
            assert(t[j] == rest[j]);
        }
    }
}

/// The broadcast workload state: this node's neighbors, the set of observed
/// values, and the queue of retried sends the embedding program must start.
pub struct BroadcastService {
    pub neighbors_except_self: Vec<NodeId>,
    pub messages: Vec<u64>,
    pub outbox: Vec<(NodeId, u64)>,
}

impl BroadcastService {
    /// No observed value repeats.
    pub open spec fn wf(self) -> bool {
        elems_unique(self.messages@)
    }

    /// A service with no neighbors and nothing observed.
    pub fn new() -> (r: Self)
        ensures
            r.wf(),
            r.neighbors_except_self@ == Seq::<NodeId>::empty(),
            r.messages@ == Seq::<u64>::empty(),
            r.outbox@ == Seq::<(NodeId, u64)>::empty(),
    {
        BroadcastService { neighbors_except_self: Vec::new(), messages: Vec::new(), outbox: Vec::new() }
    }

    /// Installs this node's neighbor list from a topology, excluding the node
    /// itself; a topology without an entry for this node is refused.
    pub fn update_topology(&mut self, self_id: &NodeId, topology: Vec<(NodeId, Vec<NodeId>)>) -> (r:
        Result<(), Error>)
        ensures
            final(self).messages@ == old(self).messages@,
            final(self).outbox@ == old(self).outbox@,
            (match find_self(topology@, self_id@) {
                Some(neighbors) => r == Ok::<(), Error>(()) && final(self).neighbors_except_self@
                    == except(neighbors, self_id@),
                None => r == Err::<(), Error>(Error::MissingSelfTopology)
                    && final(self).neighbors_except_self@ == old(self).neighbors_except_self@,
            }),
    {
        let ghost tv = topology@;
        let mut i: usize = 0;
        proof {
            assert(tv.skip(0) =~= tv);
        }
        while i < topology.len()
            invariant
                i <= topology@.len(),
                tv == topology@,
                self.messages@ == old(self).messages@,
                self.outbox@ == old(self).outbox@,
                self.neighbors_except_self@ == old(self).neighbors_except_self@,
                find_self(tv, self_id@) == find_self(tv.skip(i as int), self_id@),
            decreases topology@.len() - i,
        {
            proof {
                assert(tv.skip(i as int)[0] == tv[i as int]);
                assert(tv.skip(i as int).drop_first() =~= tv.skip(i as int + 1));
            }
            if topology[i].0.eq(self_id) {
                let neighbors = &topology[i].1;
                let ghost nv = neighbors@;
                let mut kept: Vec<NodeId> = Vec::new();
                let mut k: usize = 0;
                proof {
                    assert(nv.skip(0) =~= nv);
                    assert(kept@ + except(nv, self_id@) =~= except(nv, self_id@));
                }
                while k < neighbors.len()
                    invariant
                        k <= neighbors@.len(),
                        nv == neighbors@,
                        except(nv, self_id@) == kept@ + except(nv.skip(k as int), self_id@),
                    decreases neighbors@.len() - k,
                {
                    let ghost kept0 = kept@;
                    proof {
                        assert(nv.skip(k as int)[0] == nv[k as int]);
                        assert(nv.skip(k as int).drop_first() =~= nv.skip(k as int + 1));
                    }
                    if !neighbors[k].eq(self_id) {
                        kept.push(neighbors[k].clone());
                        proof {
                            assert(kept0 + (seq![nv[k as int]] + except(
                                nv.skip(k as int + 1),
                                self_id@,
                            )) =~= kept@ + except(nv.skip(k as int + 1), self_id@));
                        }
                    }
                    k = k + 1;
                }
                proof {
                    assert(nv.skip(nv.len() as int) =~= Seq::<NodeId>::empty());
                    assert(kept@ + Seq::<NodeId>::empty() =~= kept@);
                }
                self.neighbors_except_self = kept;
                return Ok(());
            }
            i = i + 1;
        }
        proof {
            assert(tv.skip(tv.len() as int) =~= Seq::<(NodeId, Vec<NodeId>)>::empty());
        }
        Err(Error::MissingSelfTopology)
    }

    /// Accepts one broadcast value: inserts it into the observed set, and for
    /// a value never seen before queues a retried send to every neighbor
    /// other than the sender. A repeated value queues nothing.
    pub fn broadcast(&mut self, sender: &NodeId, message: u64) -> (is_new: bool)
        requires
            old(self).wf(),
        ensures
            final(self).wf(),
            final(self).neighbors_except_self@ == old(self).neighbors_except_self@,
            is_new == !old(self).messages@.contains(message),
            crate::gset::set_of(final(self).messages@) == crate::gset::set_of(
                old(self).messages@,
            ).insert(message),
            !is_new ==> final(self).messages@ == old(self).messages@
                && final(self).outbox@ == old(self).outbox@,
            is_new ==> final(self).outbox@ == old(self).outbox@ + broadcast_targets(
                old(self).neighbors_except_self@,
                sender@,
                message,
            ),
    {
        if contains_value(&self.messages, message) {
            proof {
                assert(crate::gset::set_of(self.messages@) =~= crate::gset::set_of(
                    self.messages@,
                ).insert(message));
            }
            return false;
        }
        let ghost pre = self.messages@;
        self.messages.push(message);
        proof {
            assert forall|a: int, b: int|
                0 <= a < b < self.messages@.len() implies self.messages@[a]
                != self.messages@[b] by {
                if b < pre.len() {
                } else {
                    assert(self.messages@[b] == message);
                    assert(self.messages@[a] == pre[a]);
                    if pre[a] == message {
                        assert(pre.contains(message));
                    }
                }
            }
            assert forall|y: u64|
                crate::gset::set_of(self.messages@).contains(y) <==> crate::gset::set_of(
                    pre,
                ).insert(message).contains(y) by {
                if self.messages@.contains(y) {
                    let j = choose|j: int|
                        0 <= j < self.messages@.len() && #[trigger] self.messages@[j] == y;
                    if j < pre.len() {
                        assert(pre[j] == y);
                    }
                }
                if pre.contains(y) {
                    let j = choose|j: int| 0 <= j < pre.len() && #[trigger] pre[j] == y;
                    assert(self.messages@[j] == y);
                }
                if y == message {
                    assert(self.messages@[pre.len() as int] == y);
                }
            }
            assert(crate::gset::set_of(self.messages@) =~= crate::gset::set_of(pre).insert(
                message,
            ));
        }
        let ghost nv = self.neighbors_except_self@;
        let ghost out0 = self.outbox@;
        let mut k: usize = 0;
        proof {
            assert(nv.skip(0) =~= nv);
            assert(out0 + Seq::<(NodeId, u64)>::empty() =~= out0);
        }
        while k < self.neighbors_except_self.len()
            invariant
                k <= self.neighbors_except_self@.len(),
                nv == self.neighbors_except_self@,
                self.messages@ == old(self).messages@.push(message),
                elems_unique(self.messages@),
                out0 + broadcast_targets(nv, sender@, message) == self.outbox@
                    + broadcast_targets(nv.skip(k as int), sender@, message),
            decreases self.neighbors_except_self@.len() - k,
        {
            let ghost cur = self.outbox@;
            proof {
                assert(nv.skip(k as int)[0] == nv[k as int]);
                assert(nv.skip(k as int).drop_first() =~= nv.skip(k as int + 1));
            }
            if !self.neighbors_except_self[k].eq(sender) {
                let target = self.neighbors_except_self[k].clone();
                self.outbox.push((target, message));
                proof {
                    assert(cur + (seq![(nv[k as int], message)] + broadcast_targets(
                        nv.skip(k as int + 1),
                        sender@,
                        message,
                    )) =~= self.outbox@ + broadcast_targets(
                        nv.skip(k as int + 1),
                        sender@,
                        message,
                    ));
                }
            }
            k = k + 1;
        }
        proof {
            assert(nv.skip(nv.len() as int) =~= Seq::<NodeId>::empty());
            assert(self.outbox@ + Seq::<(NodeId, u64)>::empty() =~= self.outbox@);
        }
        true
    }

    /// Hands the embedding program the next queued retried send, newest
    /// first; it runs each with `MAX_BROADCAST_ATTEMPTS` attempts.
    pub fn pop_outbox(&mut self) -> (r: Option<(NodeId, u64)>)
        ensures
            final(self).messages@ == old(self).messages@,
            final(self).neighbors_except_self@ == old(self).neighbors_except_self@,
            old(self).outbox@.len() == 0 ==> r is None && final(self).outbox@ == old(self).outbox@,
            old(self).outbox@.len() > 0 ==> r == Some(old(self).outbox@.last())
                && final(self).outbox@ == old(self).outbox@.drop_last(),
    {
        self.outbox.pop()
    }
}

/// Whether the sequence holds the value.
fn contains_value(v: &Vec<u64>, x: u64) -> (r: bool)
    ensures
        r == v@.contains(x),
{
    let mut i: usize = 0;
    while i < v.len()
        invariant
            i <= v.len(),
            forall|j: int| 0 <= j < i ==> v@[j] != x,
        decreases v.len() - i,
    {
        if v[i] == x {
            return true;
        }
        i = i + 1;
    }
    proof {
        if v@.contains(x) {
            let j = choose|j: int| 0 <= j < v@.len() && v@[j] == x;
        }
    }
    false
}

impl RequestHandler for BroadcastService {
    type Request = Request;

    type Response = Response;

    open spec fn handle_pre(self, self_id: NodeId, from: NodeId, req: Request) -> bool {
        self.wf()
    }

    open spec fn handle_post(
        self,
        self_id: NodeId,
        from: NodeId,
        req: Request,
        post: Self,
        resp: Result<Option<Response>, Error>,
    ) -> bool {
        match req {
            Request::Topology { topology } => post.messages@ == self.messages@ && post.outbox@
                == self.outbox@ && (match find_self(topology@, self_id@) {
                Some(neighbors) => post.neighbors_except_self@ == except(neighbors, self_id@)
                    && resp == Ok::<Option<Response>, Error>(Some(Response::TopologyOk)),
                None => resp == Err::<Option<Response>, Error>(Error::MissingSelfTopology)
                    && post.neighbors_except_self@ == self.neighbors_except_self@,
            }),
            Request::Broadcast { message } => post.neighbors_except_self@
                == self.neighbors_except_self@ && crate::gset::set_of(post.messages@)
                == crate::gset::set_of(self.messages@).insert(message) && resp == Ok::<
                Option<Response>,
                Error,
            >(Some(Response::BroadcastOk)) && (self.messages@.contains(message) ==> post.outbox@
                == self.outbox@) && (!self.messages@.contains(message) ==> post.outbox@
                == self.outbox@ + broadcast_targets(
                self.neighbors_except_self@,
                from@,
                message,
            )),
            Request::Read => post == self && (resp matches Ok(o) && (o matches Some(
                Response::ReadOk { messages },
            ) && messages@ == self.messages@)),
        }
    }

    fn handle(&mut self, self_id: &NodeId, from: &NodeId, req: Request) -> (r: Result<
        Option<Response>,
        Error,
    >) {
        match req {
            Request::Topology { topology } => {
                match self.update_topology(self_id, topology) {
                    Ok(()) => Ok(Some(Response::TopologyOk)),
                    Err(e) => Err(e),
                }
            },
            Request::Broadcast { message } => {
                let _ = self.broadcast(from, message);
                Ok(Some(Response::BroadcastOk))
            },
            Request::Read => {
                let mut out: Vec<u64> = Vec::new();
                let mut i: usize = 0;
                while i < self.messages.len()
                    invariant
                        i <= self.messages@.len(),
                        out@ == self.messages@.take(i as int),
                    decreases self.messages@.len() - i,
                {
                    out.push(self.messages[i]);
                    proof {
                        assert(self.messages@.take(i as int).push(self.messages@[i as int])
                            =~= self.messages@.take(i as int + 1));
                    }
                    i = i + 1;
                }
                proof {
                    assert(self.messages@.take(self.messages@.len() as int) =~= self.messages@);
                }
                Ok(Some(Response::ReadOk { messages: out }))
            },
        }
    }
}

} // verus!
