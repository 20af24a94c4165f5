//! The echo workload: replies to every `echo` with the identical payload.
use vstd::prelude::*;

use crate::error::Error;
use crate::node::NodeId;
use crate::serve::RequestHandler;

verus! {

/// An `echo` request.
pub enum EchoRequest {
    Echo { echo: String },
}

/// An `echo_ok` response.
pub enum EchoResponse {
    EchoOk { echo: String },
}

/// The echo request handler: stateless, always replies, and returns the
/// request's `echo` payload unchanged.
pub struct EchoHandler;

impl RequestHandler for EchoHandler {
    type Request = EchoRequest;

    type Response = EchoResponse;

    open spec fn handle_pre(self, self_id: NodeId, from: NodeId, req: EchoRequest) -> bool {
        true
    }

    open spec fn handle_post(
        self,
        self_id: NodeId,
        from: NodeId,
        req: EchoRequest,
        post: Self,
        resp: Result<Option<EchoResponse>, Error>,
    ) -> bool {
        match req {
            EchoRequest::Echo { echo } => resp == Ok::<Option<EchoResponse>, Error>(
                Some(EchoResponse::EchoOk { echo }),
            ),
        }
    }

    fn handle(&mut self, self_id: &NodeId, from: &NodeId, req: EchoRequest) -> (r: Result<
        Option<EchoResponse>,
        Error,
    >) {
        let EchoRequest::Echo { echo } = req;
        Ok(Some(EchoResponse::EchoOk { echo }))
    }
}

} // verus!
