//! The echo service: a node of the same testbed family that answers each
//! echo request by returning the same text, tagged with a fresh message id.

use vstd::prelude::*;

use crate::common::MsgId;
use crate::common::MsgIdAble;
use crate::common::Node;
use crate::common::NodeIdable;

verus! {

/// An echo node: bare node identity, no other state.
#[derive(Debug)]
pub struct EchoNode(pub Node);

/// Body of an echo request.
#[derive(Debug, Clone)]
pub struct Echo {
    pub msg_id: MsgId,
    pub echo: String,
}

/// Body of the reply to an echo request.
#[derive(Debug, Clone)]
pub struct EchoResponse {
    pub msg_id: MsgId,
    pub echo: String,
    pub in_reply_to: MsgId,
}

/// Inbound request bodies of the echo service.
#[derive(Debug, Clone)]
pub enum RequestBody {
    Echo(Echo),
}

/// Outbound response bodies of the echo service.
#[derive(Debug, Clone)]
pub enum ResponseBody {
    EchoResponse(EchoResponse),
}

impl NodeIdable for EchoNode {
    open spec fn spec_node_id(&self) -> Seq<char> {
        self.0.id@
    }

    fn node_id(&self) -> (r: &str) {
        self.0.node_id()
    }
}

impl EchoNode {
    /// Answers an echo request by returning the same text under a fresh
    /// message id, in reply to the request's id.
    pub fn handle_request(&mut self, body: &RequestBody) -> (r: Option<ResponseBody>)
        requires
            old(self).0@.next_id < u64::MAX,
        ensures
            final(self).0@.id == old(self).0@.id,
            final(self).0@.peers == old(self).0@.peers,
            final(self).0@.next_id == old(self).0@.next_id + 1,
            (body matches RequestBody::Echo(e) ==> r matches Some(
                ResponseBody::EchoResponse(er),
            ) && er.msg_id == old(self).0@.next_id && er.echo@ == e.echo@ && er.in_reply_to
                == e.msg_id),
    {
        let new_msg_id = self.0.generate_msg_id();
        match body {
            RequestBody::Echo(e) => Some(
                ResponseBody::EchoResponse(
                    EchoResponse { msg_id: new_msg_id, echo: e.echo.clone(), in_reply_to: e.msg_id },
                ),
            ),
        }
    }
}

} // verus!
