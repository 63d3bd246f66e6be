//! The unique-id service: a node of the same testbed family that hands out
//! identifiers no other node ever hands out, by pairing its own node id with
//! a local counter.

use vstd::prelude::*;

use crate::common::MsgId;
use crate::common::MsgIdAble;
use crate::common::Node;
use crate::common::NodeIdable;

verus! {

/// A unique-id node: node identity plus the counter of ids handed out.
#[derive(Debug)]
pub struct UniqueIdNode {
    pub inner_node: Node,
    pub next_id: u64,
}

/// An identifier unique across the network: this node's id paired with a
/// counter value this node uses only once.
#[derive(Debug, Clone)]
pub struct UniqueId {
    pub node: String,
    pub counter: u64,
}

/// Inbound request bodies of the unique-id service.
#[derive(Debug, Clone)]
pub enum RequestBody {
    Generate { msg_id: MsgId },
}

/// Outbound response bodies of the unique-id service.
#[derive(Debug, Clone)]
pub enum ResponseBody {
    Generate { id: UniqueId, msg_id: MsgId, in_reply_to: MsgId },
}

impl NodeIdable for UniqueIdNode {
    open spec fn spec_node_id(&self) -> Seq<char> {
        self.inner_node.id@
    }

    fn node_id(&self) -> (r: &str) {
        self.inner_node.node_id()
    }
}

impl UniqueIdNode {
    /// Answers a generate request with the pair of this node's id and the
    /// next counter value; the counter moves past it, so no id is ever
    /// handed out twice.
    pub fn handle_request(&mut self, body: &RequestBody) -> (r: Option<ResponseBody>)
        requires
            old(self).next_id < u64::MAX,
            old(self).inner_node@.next_id < u64::MAX,
        ensures
            final(self).inner_node@.id == old(self).inner_node@.id,
            final(self).inner_node@.peers == old(self).inner_node@.peers,
            final(self).inner_node@.next_id == old(self).inner_node@.next_id + 1,
            final(self).next_id == old(self).next_id + 1,
            (body matches RequestBody::Generate { msg_id } ==> r matches Some(
                ResponseBody::Generate { id, msg_id: reply_id, in_reply_to },
            ) && id.node@ == old(self).inner_node@.id && id.counter == old(self).next_id
                && reply_id == old(self).inner_node@.next_id && in_reply_to == msg_id),
    {
        let next = self.next_id;
        self.next_id = self.next_id + 1;
        let id = UniqueId { node: self.inner_node.id.clone(), counter: next };
        match body {
            RequestBody::Generate { msg_id } => Some(
                ResponseBody::Generate {
                    id,
                    msg_id: self.inner_node.generate_msg_id(),
                    in_reply_to: *msg_id,
                },
            ),
        }
    }
}

} // verus!
