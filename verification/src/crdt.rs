//! The generic state-based CRDT service: accepts `add`, `read` and
//! `replicate` requests over any CRDT, and builds the periodic gossip round
//! that sends the local state to every peer.
use vstd::prelude::*;

use crate::client::Client;
use crate::error::Error;
use crate::message::{Message, MessagePayload};
use crate::node::{Node, NodeId};
use crate::serve::RequestHandler;

verus! {

/// How often the replicator gossips local state to the peers, in
/// milliseconds. The first immediate tick is skipped.
pub const REPLICATION_INTERVAL_MS: u64 = 5000;

/// A state-based CRDT. Its replicated state must form a join-semilattice:
/// every implementation pins its operations down with the predicates below
/// and proves, over its own abstraction, that merging is commutative and
/// idempotent.
pub trait Crdt: Sized {
    type Add;

    type State;

    type Query;

    /// The internal invariant of the in-memory state.
    spec fn wf(self) -> bool;

    /// The invariant of a replicated snapshot.
    spec fn state_wf(st: Self::State) -> bool;

    /// When an add is accepted without overflow.
    spec fn add_pre(self, sender: NodeId, add: Self::Add) -> bool;

    /// How an accepted add transforms the state.
    spec fn add_post(self, sender: NodeId, add: Self::Add, post: Self) -> bool;

    /// How merging a peer's snapshot transforms the state.
    spec fn merge_post(self, other: Self::State, post: Self) -> bool;

    /// When the query's aggregate fits its machine type.
    spec fn query_pre(self) -> bool;

    /// What a read observes.
    spec fn query_post(self, q: Self::Query) -> bool;

    /// What a replicated snapshot carries.
    spec fn state_post(self, st: Self::State) -> bool;

    /// The state a node starts with.
    spec fn initial_post(r: Self) -> bool;

    /// The empty initial state.
    fn initial() -> (r: Self)
        ensures
            r.wf(),
            Self::initial_post(r),
    ;

    /// Applies one add issued by `sender`.
    fn add(&mut self, sender: &NodeId, add: Self::Add)
        requires
            old(self).wf(),
            old(self).add_pre(*sender, add),
        ensures
            final(self).wf(),
            old(self).add_post(*sender, add, *final(self)),
    ;

    /// Merges a peer's replicated snapshot into the local state.
    fn merge(&mut self, other: Self::State)
        requires
            old(self).wf(),
            Self::state_wf(other),
        ensures
            final(self).wf(),
            old(self).merge_post(other, *final(self)),
    ;

    /// Answers a read from the local state.
    fn query(&self) -> (r: Self::Query)
        requires
            self.wf(),
            self.query_pre(),
        ensures
            self.query_post(r),
    ;

    /// Snapshots the local state for replication.
    fn state(&self) -> (r: Self::State)
        requires
            self.wf(),
        ensures
            Self::state_wf(r),
            self.state_post(r),
    ;
}

/// A CRDT request: an add, a read, or a peer's replicated state.
pub enum Request<A, S> {
    Add(A),
    Read,
    Replicate(S),
}

/// A CRDT reply; `replicate` is answered with silence.
pub enum Response<Q> {
    AddOk,
    ReadOk(Q),
}

/// The CRDT workload: one CRDT behind the request dispatch.
pub struct CrdtService<C> {
    pub crdt: C,
}

impl<C: Crdt> CrdtService<C> {
    /// A service over the CRDT's initial state.
    pub fn new() -> (r: Self)
        ensures
            r.crdt.wf(),
            C::initial_post(r.crdt),
    {
        CrdtService { crdt: C::initial() }
    }

    /// Builds one gossip round: a fire-and-forget `replicate(state)` frame
    /// for every peer except this node, in roster order.
    pub fn replicate(&self, node: &mut Node) -> (r: Vec<
        Message<MessagePayload<Request<C::Add, C::State>, Response<C::Query>>>,
    >)
        requires
            self.crdt.wf(),
            old(node).next_msg_id() + old(node).ids().len() <= u64::MAX,
        ensures
            final(node).id() == old(node).id(),
            final(node).ids() == old(node).ids(),
            final(node).next_msg_id() == old(node).next_msg_id() + r@.len(),
            r@.map_values(|m: Message<MessagePayload<Request<C::Add, C::State>, Response<C::Query>>>| m.dest@)
                == replicate_targets(old(node).ids(), old(node).id()@),
            forall|i: int|
                0 <= i < r@.len() ==> (#[trigger] r@[i]).src == old(node).id()
                    && r@[i].body.in_reply_to is None && (r@[i].body.payload matches
                    MessagePayload::Request(q) && (q matches Request::Replicate(st)
                    && self.crdt.state_post(st))),
    {
        let ghost ids = node.ids();
        let ghost me = node.id()@;
        let mut out: Vec<Message<MessagePayload<Request<C::Add, C::State>, Response<C::Query>>>> =
            Vec::new();
        let mut i: usize = 0;
        let n = node.node_ids().len();
        proof {
            assert(ids.skip(0) =~= ids);
            assert(out@.map_values(
                |m: Message<MessagePayload<Request<C::Add, C::State>, Response<C::Query>>>| m.dest@,
            ) =~= Seq::<Seq<char>>::empty());
        }
        while i < n
            invariant
                i <= n,
                n == ids.len(),
                self.crdt.wf(),
                node.ids() == ids,
                node.id()@ == me,
                node.id() == old(node).id(),
                node.next_msg_id() == old(node).next_msg_id() + out@.len(),
                out@.len() <= i,
                old(node).next_msg_id() + ids.len() <= u64::MAX,
                replicate_targets(ids, me) == out@.map_values(
                    |m: Message<MessagePayload<Request<C::Add, C::State>, Response<C::Query>>>|
                        m.dest@,
                ) + replicate_targets(ids.skip(i as int), me),
                forall|k: int|
                    0 <= k < out@.len() ==> (#[trigger] out@[k]).src == old(node).id()
                        && out@[k].body.in_reply_to is None && (out@[k].body.payload matches
                        MessagePayload::Request(q) && (q matches Request::Replicate(st)
                        && self.crdt.state_post(st))),
            decreases n - i,
        {
            let ghost dests0 = out@.map_values(
                |m: Message<MessagePayload<Request<C::Add, C::State>, Response<C::Query>>>| m.dest@,
            );
            proof {
                assert(ids.skip(i as int)[0] == ids[i as int]);
                assert(ids.skip(i as int).drop_first() =~= ids.skip(i as int + 1));
            }
            let dest = node.node_ids()[i].clone();
            if !dest.eq(node.node_id()) {
                let state = self.crdt.state();
                let (message, _) = Client::send_no_reply::<
                    Request<C::Add, C::State>,
                    Response<C::Query>,
                >(node, dest, Request::Replicate(state));
                out.push(message);
                proof {
                    assert(out@.map_values(
                        |m: Message<
                            MessagePayload<Request<C::Add, C::State>, Response<C::Query>>,
                        >| m.dest@,
                    ) =~= dests0.push(ids[i as int]@));
                    assert(dests0 + (seq![ids[i as int]@] + replicate_targets(
                        ids.skip(i as int + 1),
                        me,
                    )) =~= dests0.push(ids[i as int]@) + replicate_targets(
                        ids.skip(i as int + 1),
                        me,
                    ));
                }
            }
            i = i + 1;
        }
        proof {
            assert(ids.skip(n as int) =~= Seq::<NodeId>::empty());
            assert(out@.map_values(
                |m: Message<MessagePayload<Request<C::Add, C::State>, Response<C::Query>>>| m.dest@,
            ) + Seq::<Seq<char>>::empty() =~= out@.map_values(
                |m: Message<MessagePayload<Request<C::Add, C::State>, Response<C::Query>>>| m.dest@,
            ));
        }
        out
    }
}

/// The gossip destinations: every roster id other than this node's, in order.
pub open spec fn replicate_targets(ids: Seq<NodeId>, me: Seq<char>) -> Seq<Seq<char>>
    decreases ids.len(),
{
    if ids.len() == 0 {
        Seq::empty()
    } else if ids[0]@ != me {
        seq![ids[0]@] + replicate_targets(ids.drop_first(), me)
    } else {
        replicate_targets(ids.drop_first(), me)
    }
}

impl<C: Crdt> RequestHandler for CrdtService<C> {
    type Request = Request<C::Add, C::State>;

    type Response = Response<C::Query>;

    open spec fn handle_pre(
        self,
        self_id: NodeId,
        from: NodeId,
        req: Request<C::Add, C::State>,
    ) -> bool {
        self.crdt.wf() && match req {
            Request::Add(a) => self.crdt.add_pre(from, a),
            Request::Read => self.crdt.query_pre(),
            Request::Replicate(st) => C::state_wf(st),
        }
    }

    open spec fn handle_post(
        self,
        self_id: NodeId,
        from: NodeId,
        req: Request<C::Add, C::State>,
        post: Self,
        resp: Result<Option<Response<C::Query>>, Error>,
    ) -> bool {
        match req {
            Request::Add(a) => self.crdt.add_post(from, a, post.crdt) && resp == Ok::<
                Option<Response<C::Query>>,
                Error,
            >(Some(Response::<C::Query>::AddOk)),
            Request::Read => post == self && (resp matches Ok(o) && (o matches Some(
                Response::ReadOk(q),
            ) && self.crdt.query_post(q))),
            Request::Replicate(st) => self.crdt.merge_post(st, post.crdt) && resp == Ok::<
                Option<Response<C::Query>>,
                Error,
            >(None),
        }
    }

    fn handle(&mut self, self_id: &NodeId, from: &NodeId, req: Request<C::Add, C::State>) -> (r:
        Result<Option<Response<C::Query>>, Error>) {
        match req {
            Request::Add(a) => {
                self.crdt.add(from, a);
                Ok(Some(Response::AddOk))
            },
            Request::Read => {
                let q = self.crdt.query();
                Ok(Some(Response::ReadOk(q)))
            },
            Request::Replicate(st) => {
                self.crdt.merge(st);
                Ok(None)
            },
        }
    }
}

} // verus!
