//! The one-shot bootstrap handshake that yields a node's identity.
use vstd::prelude::*;

use crate::error::Error;
use crate::message::{Message, MessageBody, MessageId};
use crate::node::{Node, NodeId};

verus! {

/// The bootstrap request assigning a node its id and the cluster roster.
pub enum InitRequest {
    Init { node_id: NodeId, node_ids: Vec<NodeId> },
}

/// The bootstrap acknowledgment.
pub enum InitResponse {
    InitOk,
}

/// Processes the single bootstrap request: validates that the frame is
/// addressed to the node it names, constructs the node, and builds the
/// `init_ok` reply correlated to the request. Any deviation fails startup.
pub fn recv_init(received: Message<InitRequest>) -> (r: Result<
    (Node, Message<InitResponse>),
    Error,
>)
    ensures
        (match received.body.payload {
            InitRequest::Init { node_id, node_ids } => {
                &&& received.dest@ != node_id@ ==> r == Err::<
                    (Node, Message<InitResponse>),
                    Error,
                >(Error::InitFailed)
                &&& received.dest@ == node_id@ ==> (r matches Ok(t) && (t.0.id() == node_id
                    && t.0.ids() == node_ids@ && t.0.next_msg_id() == 2 && t.1.src == node_id
                    && t.1.dest == received.src && t.1.body.in_reply_to == received.body.msg_id
                    && t.1.body.msg_id == Some(MessageId(1)) && t.1.body.payload
                    == InitResponse::InitOk))
            },
        }),
{
    let Message { src, dest, body } = received;
    let MessageBody { msg_id, in_reply_to: _, payload } = body;
    let InitRequest::Init { node_id, node_ids } = payload;
    if !dest.eq(&node_id) {
        return Err(Error::InitFailed);
    }
    let mut node = Node::new(node_id, node_ids);
    let (reply, _) = node.build_message_to(src, msg_id, InitResponse::InitOk);
    Ok((node, reply))
}

} // verus!
