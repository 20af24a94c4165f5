//! Node identity and the monotonic message-id allocator.
use vstd::prelude::*;

use crate::message::{Message, MessageBody, MessageId};

verus! {

/// An opaque node identifier. The well-known id `lin-kv` names the external
/// linearizable key-value service.
#[derive(Debug)]
pub struct NodeId(String);

impl View for NodeId {
    type V = Seq<char>;

    closed spec fn view(&self) -> Seq<char> {
        self.0@
    }
}

impl NodeId {
    /// Wraps a raw identifier string.
    pub fn new(id: String) -> (r: NodeId)
        ensures
            r@ == id@,
    {
        NodeId(id)
    }

    /// The raw identifier.
    pub fn as_str(&self) -> (r: &str)
        ensures
            r@ == self@,
    {
        self.0.as_str()
    }

    /// The well-known id of the external linearizable key-value service.
    pub fn lin_kv() -> (r: NodeId)
        ensures
            r@ == "lin-kv"@,
    {
        NodeId("lin-kv".to_owned())
    }
}

impl Clone for NodeId {
    fn clone(&self) -> (r: Self)
        ensures
            r == *self,
    {
        NodeId(self.0.clone())
    }
}

impl PartialEq for NodeId {
    fn eq(&self, other: &Self) -> (r: bool) {
        self.0 == other.0
    }
}

impl vstd::std_specs::cmp::PartialEqSpecImpl for NodeId {
    open spec fn obeys_eq_spec() -> bool {
        true
    }

    open spec fn eq_spec(&self, other: &Self) -> bool {
        self@ == other@
    }
}

/// The strictly increasing message-id counter of one node.
pub struct Autoincrement {
    next: u64,
}

impl Autoincrement {
    /// The id the next allocation will return.
    pub closed spec fn next_id(self) -> u64 {
        self.next
    }

    /// A fresh counter; the first id handed out is 1.
    pub fn new() -> (r: Self)
        ensures
            r.next_id() == 1,
    {
        Autoincrement { next: 1 }
    }

    /// Allocates the next id. Successive allocations return strictly
    /// increasing ids.
    pub fn new_message_id(&mut self) -> (r: MessageId)
        requires
            old(self).next_id() < u64::MAX,
        ensures
            r.0 == old(self).next_id(),
            final(self).next_id() == old(self).next_id() + 1,
    {
        let id = MessageId(self.next);
        self.next = self.next + 1;
        id
    }
}

/// Any two allocations from the same counter, in order, yield strictly
/// increasing message ids: the first allocation returns the counter and
/// advances it, so whatever is allocated later is strictly larger.
pub proof fn lemma_msg_ids_strictly_increase(
    c0: Autoincrement,
    c1: Autoincrement,
    first: MessageId,
    second: MessageId,
)
    requires
        first.0 == c0.next_id(),
        c1.next_id() == c0.next_id() + 1,
        second.0 >= c1.next_id(),
    ensures
        second.0 > first.0,
{
}

/// A node's identity: its own id, the cluster roster, and its id allocator.
/// Created once by the init handshake and used by every component.
pub struct Node {
    node_id: NodeId,
    node_ids: Vec<NodeId>,
    autoincrement: Autoincrement,
}

impl Node {
    /// This node's own id.
    pub closed spec fn id(self) -> NodeId {
        self.node_id
    }

    /// All node ids in the cluster, this node included.
    pub closed spec fn ids(self) -> Seq<NodeId> {
        self.node_ids@
    }

    /// The id the next built message will carry.
    pub closed spec fn next_msg_id(self) -> u64 {
        self.autoincrement.next_id()
    }

    /// A node as the init handshake constructs it.
    pub fn new(node_id: NodeId, node_ids: Vec<NodeId>) -> (r: Self)
        ensures
            r.id() == node_id,
            r.ids() == node_ids@,
            r.next_msg_id() == 1,
    {
        Node { node_id, node_ids, autoincrement: Autoincrement::new() }
    }

    /// This node's own id.
    pub fn node_id(&self) -> (r: &NodeId)
        ensures
            *r == self.id(),
    {
        &self.node_id
    }

    /// The cluster roster.
    pub fn node_ids(&self) -> (r: &Vec<NodeId>)
        ensures
            r@ == self.ids(),
    {
        &self.node_ids
    }

    /// Builds an outbound message: `src` is always this node's id, and the
    /// message carries a freshly allocated, strictly increasing id.
    pub fn build_message_to<P>(
        &mut self,
        dest: NodeId,
        in_reply_to: Option<MessageId>,
        payload: P,
    ) -> (r: (Message<P>, MessageId))
        requires
            old(self).next_msg_id() < u64::MAX,
        ensures
            r.1.0 == old(self).next_msg_id(),
            final(self).next_msg_id() == old(self).next_msg_id() + 1,
            final(self).id() == old(self).id(),
            final(self).ids() == old(self).ids(),
            r.0.src == old(self).id(),
            r.0.dest == dest,
            r.0.body.msg_id == Some(r.1),
            r.0.body.in_reply_to == in_reply_to,
            r.0.body.payload == payload,
    {
        let msg_id = self.autoincrement.new_message_id();
        let message = Message {
            src: self.node_id.clone(),
            dest,
            body: MessageBody { msg_id: Some(msg_id), in_reply_to, payload },
        };
        (message, msg_id)
    }
}

} // verus!
