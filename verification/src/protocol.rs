//! The request/response bodies that the node exchanges with its peers, and
//! their mathematical models. Requests mirror the wire protocol: a broadcast
//! carries a value and the set of peers it has already been offered to, a
//! bulk broadcast carries a batch of such envelopes for one destination, and
//! every request other than an acknowledgment is answered by the matching
//! response body.

use vstd::prelude::*;

use crate::common::MsgId;

verus! {

/// One gossiped value: a per-attempt message id, the value itself, and the
/// peers this value has already been offered to. The latter set only grows as
/// the envelope is re-derived and re-forwarded; it prunes fanout and plays no
/// part in acknowledgment matching.
#[derive(Debug, Clone)]
pub struct Broadcast {
    pub msg_id: MsgId,
    pub message: u64,
    pub already_sent_to: Vec<String>,
}

/// Mathematical value of a broadcast envelope.
#[verifier::ext_equal]
pub struct BroadcastModel {
    pub msg_id: MsgId,
    pub message: u64,
    pub already_sent_to: Seq<Seq<char>>,
}

impl View for Broadcast {
    type V = BroadcastModel;

    open spec fn view(&self) -> BroadcastModel {
        BroadcastModel {
            msg_id: self.msg_id,
            message: self.message,
            already_sent_to: self.already_sent_to.deep_view(),
        }
    }
}

impl DeepView for Broadcast {
    type V = BroadcastModel;

    open spec fn deep_view(&self) -> BroadcastModel {
        self.view()
    }
}

/// One row of a topology request: a node and its immediate peers.
#[derive(Debug, Clone)]
pub struct TopologyEntry {
    pub node: String,
    pub peers: Vec<String>,
}

/// Mathematical value of a topology row.
#[verifier::ext_equal]
pub struct TopologyEntryModel {
    pub node: Seq<char>,
    pub peers: Seq<Seq<char>>,
}

impl View for TopologyEntry {
    type V = TopologyEntryModel;

    open spec fn view(&self) -> TopologyEntryModel {
        TopologyEntryModel { node: self.node@, peers: self.peers.deep_view() }
    }
}

impl DeepView for TopologyEntry {
    type V = TopologyEntryModel;

    open spec fn deep_view(&self) -> TopologyEntryModel {
        self.view()
    }
}

/// Inbound request bodies.
#[derive(Debug, Clone)]
pub enum RequestBody {
    /// Offer of one broadcast value.
    Broadcast(Broadcast),
    /// Offer of a batch of broadcast values for this node.
    BulkBroadcast { broadcasts: Vec<Broadcast> },
    /// Ask for every value this node has received.
    Read { msg_id: MsgId },
    /// The peer map of the whole network, one row per node.
    Topology { msg_id: MsgId, topology: Vec<TopologyEntry> },
    /// A peer confirms one broadcast this node sent it.
    BroadcastOk { msg_id: MsgId, in_reply_to: MsgId },
    /// A peer confirms one bulk broadcast this node sent it.
    BulkBroadcastOk { msg_id: MsgId, in_reply_to: MsgId },
}

/// Mathematical value of a request body.
#[verifier::ext_equal]
pub enum RequestModel {
    Broadcast(BroadcastModel),
    BulkBroadcast { broadcasts: Seq<BroadcastModel> },
    Read { msg_id: MsgId },
    Topology { msg_id: MsgId, topology: Seq<TopologyEntryModel> },
    BroadcastOk { msg_id: MsgId, in_reply_to: MsgId },
    BulkBroadcastOk { msg_id: MsgId, in_reply_to: MsgId },
}

impl View for RequestBody {
    type V = RequestModel;

    open spec fn view(&self) -> RequestModel {
        match self {
            RequestBody::Broadcast(b) => RequestModel::Broadcast(b@),
            RequestBody::BulkBroadcast { broadcasts } => RequestModel::BulkBroadcast {
                broadcasts: broadcasts.deep_view(),
            },
            RequestBody::Read { msg_id } => RequestModel::Read { msg_id: *msg_id },
            RequestBody::Topology { msg_id, topology } => RequestModel::Topology {
                msg_id: *msg_id,
                topology: topology.deep_view(),
            },
            RequestBody::BroadcastOk { msg_id, in_reply_to } => RequestModel::BroadcastOk {
                msg_id: *msg_id,
                in_reply_to: *in_reply_to,
            },
            RequestBody::BulkBroadcastOk { msg_id, in_reply_to } => RequestModel::BulkBroadcastOk {
                msg_id: *msg_id,
                in_reply_to: *in_reply_to,
            },
        }
    }
}

impl DeepView for RequestBody {
    type V = RequestModel;

    open spec fn deep_view(&self) -> RequestModel {
        self.view()
    }
}

/// Outbound response bodies; each mirrors the request it answers.
#[derive(Debug, Clone)]
pub enum ResponseBody {
    Broadcast { msg_id: MsgId, in_reply_to: MsgId },
    BulkBroadcast { msg_id: MsgId, in_reply_to: MsgId },
    Read { msg_id: MsgId, in_reply_to: MsgId, messages: Vec<u64> },
    Topology { msg_id: MsgId, in_reply_to: MsgId },
}

/// Mathematical value of a response body.
#[verifier::ext_equal]
pub enum ResponseModel {
    Broadcast { msg_id: MsgId, in_reply_to: MsgId },
    BulkBroadcast { msg_id: MsgId, in_reply_to: MsgId },
    Read { msg_id: MsgId, in_reply_to: MsgId, messages: Seq<u64> },
    Topology { msg_id: MsgId, in_reply_to: MsgId },
}

impl View for ResponseBody {
    type V = ResponseModel;

    open spec fn view(&self) -> ResponseModel {
        match self {
            ResponseBody::Broadcast { msg_id, in_reply_to } => ResponseModel::Broadcast {
                msg_id: *msg_id,
                in_reply_to: *in_reply_to,
            },
            ResponseBody::BulkBroadcast { msg_id, in_reply_to } => ResponseModel::BulkBroadcast {
                msg_id: *msg_id,
                in_reply_to: *in_reply_to,
            },
            ResponseBody::Read { msg_id, in_reply_to, messages } => ResponseModel::Read {
                msg_id: *msg_id,
                in_reply_to: *in_reply_to,
                messages: messages@,
            },
            ResponseBody::Topology { msg_id, in_reply_to } => ResponseModel::Topology {
                msg_id: *msg_id,
                in_reply_to: *in_reply_to,
            },
        }
    }
}

impl DeepView for ResponseBody {
    type V = ResponseModel;

    open spec fn deep_view(&self) -> ResponseModel {
        self.view()
    }
}

impl Broadcast {
    /// A copy of this envelope, field for field.
    pub fn duplicate(&self) -> (r: Broadcast)
        ensures
            r@ == self@,
    {
        Broadcast {
            msg_id: self.msg_id,
            message: self.message,
            already_sent_to: crate::common::clone_string_vec(&self.already_sent_to),
        }
    }
}

} // verus!
