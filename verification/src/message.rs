//! Message envelopes: the typed frames every component exchanges.
use vstd::prelude::*;

use crate::node::NodeId;

verus! {

/// A per-node message identifier, allocated from a strictly increasing
/// counter starting at 1. Ids are never reused.
#[derive(Clone, Copy, PartialEq, Eq, Structural, Debug, Hash)]
pub struct MessageId(pub u64);

/// One frame on the wire: source, destination, and a body whose payload
/// fields sit beside the correlation ids.
pub struct Message<P> {
    pub src: NodeId,
    pub dest: NodeId,
    pub body: MessageBody<P>,
}

/// The body of a frame: the sender's message id, the id of the request this
/// frame answers (if it is a response), and the workload payload.
pub struct MessageBody<P> {
    pub msg_id: Option<MessageId>,
    pub in_reply_to: Option<MessageId>,
    pub payload: P,
}

/// The payload of a node that both issues requests and receives responses:
/// an inbound frame decodes to whichever side it belongs to.
pub enum MessagePayload<Req, Res> {
    Request(Req),
    Response(Res),
}

impl<P> Message<P> {
    /// Swaps the payload out of an envelope, keeping every routing field.
    pub fn replace_payload<U>(self, payload: U) -> (r: (P, Message<U>))
        ensures
            r.0 == self.body.payload,
            r.1.src == self.src,
            r.1.dest == self.dest,
            r.1.body.msg_id == self.body.msg_id,
            r.1.body.in_reply_to == self.body.in_reply_to,
            r.1.body.payload == payload,
    {
        let prev = self.body.payload;
        let new = Message {
            src: self.src,
            dest: self.dest,
            body: MessageBody {
                msg_id: self.body.msg_id,
                in_reply_to: self.body.in_reply_to,
                payload,
            },
        };
        (prev, new)
    }

    /// Re-wraps an envelope around a new payload, dropping the old one.
    pub fn with_payload<U>(self, payload: U) -> (r: Message<U>)
        ensures
            r.src == self.src,
            r.dest == self.dest,
            r.body.msg_id == self.body.msg_id,
            r.body.in_reply_to == self.body.in_reply_to,
            r.body.payload == payload,
    {
        let (_, msg) = self.replace_payload(payload);
        msg
    }
}

} // verus!
