//! The service adapter: wraps a workload's request handler, rejecting
//! requests that carry a correlation id and correlating each reply to the
//! request's message id.
use vstd::prelude::*;

use crate::error::Error;
use crate::message::{Message, MessageBody, MessageId};
use crate::node::{Node, NodeId};

verus! {

/// A workload's request handler: from a sender and a request to an optional
/// response. Each implementation pins its behaviour down with its own
/// `handle_pre` / `handle_post` predicates.
pub trait RequestHandler: Sized {
    type Request;

    type Response;

    /// What the handler demands of a request before it runs.
    spec fn handle_pre(self, self_id: NodeId, from: NodeId, req: Self::Request) -> bool;

    /// How one handled request relates the old state, the new state, and the
    /// outcome: a reply payload, silence, or an error for the embedding
    /// program to log.
    spec fn handle_post(
        self,
        self_id: NodeId,
        from: NodeId,
        req: Self::Request,
        post: Self,
        resp: Result<Option<Self::Response>, Error>,
    ) -> bool;

    /// Handles one request from `from`, possibly yielding a reply payload.
    fn handle(&mut self, self_id: &NodeId, from: &NodeId, req: Self::Request) -> (r: Result<
        Option<Self::Response>,
        Error,
    >)
        requires
            old(self).handle_pre(*self_id, *from, req),
        ensures
            old(self).handle_post(*self_id, *from, req, *final(self), r),
    ;
}

/// A service: a request handler behind the adapter that decodes, invokes,
/// and replies with `in_reply_to` set to the request's message id.
pub struct Service<H> {
    handler: H,
}

impl<H: RequestHandler> Service<H> {
    /// The wrapped handler state.
    pub closed spec fn handler_spec(self) -> H {
        self.handler
    }

    /// Wraps a request handler.
    pub fn new(handler: H) -> (r: Self)
        ensures
            r.handler_spec() == handler,
    {
        Service { handler }
    }

    /// Handles one inbound request frame: refuses frames that carry a
    /// correlation id, runs the handler, and builds the correlated reply.
    pub fn handle_message(&mut self, node: &mut Node, message: Message<H::Request>) -> (r: Result<
        Option<Message<H::Response>>,
        Error,
    >)
        requires
            old(node).next_msg_id() < u64::MAX,
            message.body.in_reply_to is None ==> old(self).handler_spec().handle_pre(
                old(node).id(),
                message.src,
                message.body.payload,
            ),
        ensures
            final(node).id() == old(node).id(),
            final(node).ids() == old(node).ids(),
            message.body.in_reply_to is Some ==> r == Err::<Option<Message<H::Response>>, Error>(
                Error::UnexpectedInReplyTo,
            ) && *final(self) == *old(self) && *final(node) == *old(node),
            message.body.in_reply_to is None ==> (match r {
                Err(e) => old(self).handler_spec().handle_post(
                    old(node).id(),
                    message.src,
                    message.body.payload,
                    final(self).handler_spec(),
                    Err(e),
                ) && *final(node) == *old(node),
                Ok(None) => old(self).handler_spec().handle_post(
                    old(node).id(),
                    message.src,
                    message.body.payload,
                    final(self).handler_spec(),
                    Ok(None),
                ) && *final(node) == *old(node),
                Ok(Some(m)) => old(self).handler_spec().handle_post(
                    old(node).id(),
                    message.src,
                    message.body.payload,
                    final(self).handler_spec(),
                    Ok(Some(m.body.payload)),
                ) && m.src == old(node).id() && m.dest == message.src && m.body.in_reply_to
                    == message.body.msg_id && m.body.msg_id == Some(
                    MessageId(old(node).next_msg_id()),
                ) && final(node).next_msg_id() == old(node).next_msg_id() + 1,
            }),
    {
        let Message { src, dest: _, body } = message;
        let MessageBody { msg_id, in_reply_to, payload } = body;
        if in_reply_to.is_some() {
            return Err(Error::UnexpectedInReplyTo);
        }
        match self.handler.handle(node.node_id(), &src, payload) {
            Err(e) => Err(e),
            Ok(None) => Ok(None),
            Ok(Some(resp)) => {
                let (reply, _) = node.build_message_to(src, msg_id, resp);
                Ok(Some(reply))
            },
        }
    }
}

/// Wraps a request handler as a service, as the echo workload does.
pub fn make_service<H: RequestHandler>(handler: H) -> (r: Service<H>)
    ensures
        r.handler_spec() == handler,
{
    Service::new(handler)
}

} // verus!
