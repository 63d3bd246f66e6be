//! The request handler: the component that deduplicates inbound broadcast
//! values, answers every request synchronously, and turns what it learns into
//! commands for the gossip engine. It owns the received-values store; once a
//! value is inserted it is never removed.
//!
//! Every request's effect is given by [`handle_step`]: the handler's next
//! state, at most one synchronous reply, and the commands emitted.

use vstd::prelude::*;

use crate::common::clone_string_vec;
use crate::common::contains_u64;
use crate::common::Message;
use crate::common::MsgId;
use crate::common::MsgIdAble;
use crate::common::Node;
use crate::common::NodeIdable;
use crate::common::NodeModel;
use crate::gossip::GossipMsg;
use crate::gossip::GossipMsgModel;
use crate::protocol::BroadcastModel;
use crate::protocol::RequestBody;
use crate::protocol::RequestModel;
use crate::protocol::ResponseBody;
use crate::protocol::ResponseModel;
use crate::protocol::TopologyEntry;
use crate::protocol::TopologyEntryModel;

verus! {

/// The request handler's state: the node's identity and the store of every
/// value this node has received.
#[derive(Debug)]
pub struct RequestHandler {
    pub inner_node: Node,
    pub received_values: Vec<u64>,
}

/// Mathematical value of the handler's state.
#[verifier::ext_equal]
pub struct HandlerModel {
    pub node: NodeModel,
    pub values: Seq<u64>,
}

impl View for RequestHandler {
    type V = HandlerModel;

    open spec fn view(&self) -> HandlerModel {
        HandlerModel { node: self.inner_node@, values: self.received_values@ }
    }
}

impl HandlerModel {
    /// The store holds each value at most once.
    pub open spec fn wf(self) -> bool {
        forall|i: int, j: int|
            0 <= i < j < self.values.len() ==> self.values[i] != self.values[j]
    }
}

/// What one request produces: the handler's next state, at most one
/// synchronous reply, and the commands handed to the gossip engine.
#[verifier::ext_equal]
pub struct HandlerStep {
    pub state: HandlerModel,
    pub reply: Option<ResponseModel>,
    pub cmds: Seq<GossipMsgModel>,
}

/// The handler with its message-id counter moved past one freshly allocated
/// id.
pub open spec fn bump_id(h: HandlerModel) -> HandlerModel {
    HandlerModel {
        node: NodeModel {
            id: h.node.id,
            peers: h.node.peers,
            next_id: (h.node.next_id + 1) as u64,
        },
        values: h.values,
    }
}

/// One broadcast envelope received: a value already in the store changes
/// nothing and emits nothing; a novel value is inserted and emits one gossip
/// command carrying the envelope's already-sent-to set.
pub open spec fn broadcast_step(h: HandlerModel, b: BroadcastModel) -> (
    HandlerModel,
    Seq<GossipMsgModel>,
) {
    if h.values.contains(b.message) {
        (h, Seq::<GossipMsgModel>::empty())
    } else {
        (
            HandlerModel { node: h.node, values: h.values.push(b.message) },
            seq![GossipMsgModel::Gossip { msg: b.message, already_sent_to: b.already_sent_to }],
        )
    }
}

/// A batch of broadcast envelopes received: each is deduplicated and
/// forwarded independently, in order.
pub open spec fn bulk_step(h: HandlerModel, bs: Seq<BroadcastModel>) -> (
    HandlerModel,
    Seq<GossipMsgModel>,
)
    decreases bs.len(),
{
    if bs.len() == 0 {
        (h, Seq::<GossipMsgModel>::empty())
    } else {
        let (h1, c1) = broadcast_step(h, bs[0]);
        let (h2, c2) = bulk_step(h1, bs.skip(1));
        (h2, c1 + c2)
    }
}

/// The message id a bulk acknowledgment refers to: the batch's first
/// envelope, or zero for an empty batch.
pub open spec fn bulk_reply_to(bs: Seq<BroadcastModel>) -> MsgId {
    if bs.len() == 0 {
        0
    } else {
        bs[0].msg_id
    }
}

/// This node's row of a topology request: the peer list of the first entry
/// naming this node, if any.
pub open spec fn own_row(id: Seq<char>, topology: Seq<TopologyEntryModel>) -> Option<
    Seq<Seq<char>>,
>
    decreases topology.len(),
{
    if topology.len() == 0 {
        None
    } else if topology[0].node == id {
        Some(topology[0].peers)
    } else {
        own_row(id, topology.skip(1))
    }
}

/// The command a topology request emits: this node's row forwarded to the
/// gossip engine, or nothing when the request has no row for this node.
pub open spec fn topology_cmds(id: Seq<char>, topology: Seq<TopologyEntryModel>) -> Seq<
    GossipMsgModel,
> {
    match own_row(id, topology) {
        Some(peers) => seq![GossipMsgModel::Topology(peers)],
        None => Seq::<GossipMsgModel>::empty(),
    }
}

/// The effect of one request on the handler: next state, synchronous reply,
/// and commands for the gossip engine. Every request but an acknowledgment is
/// answered with exactly one reply carrying a fresh message id; an
/// acknowledgment is terminal and only retires jobs.
pub open spec fn handle_step(h: HandlerModel, req: RequestModel) -> HandlerStep {
    match req {
        RequestModel::Broadcast(b) => {
            let (h1, cmds) = broadcast_step(h, b);
            HandlerStep {
                state: bump_id(h1),
                reply: Some(
                    ResponseModel::Broadcast { msg_id: h.node.next_id, in_reply_to: b.msg_id },
                ),
                cmds,
            }
        },
        RequestModel::BulkBroadcast { broadcasts } => {
            let (h1, cmds) = bulk_step(h, broadcasts);
            HandlerStep {
                state: bump_id(h1),
                reply: Some(
                    ResponseModel::BulkBroadcast {
                        msg_id: h.node.next_id,
                        in_reply_to: bulk_reply_to(broadcasts),
                    },
                ),
                cmds,
            }
        },
        RequestModel::Read { msg_id } => HandlerStep {
            state: bump_id(h),
            reply: Some(
                ResponseModel::Read {
                    msg_id: h.node.next_id,
                    in_reply_to: msg_id,
                    messages: h.values,
                },
            ),
            cmds: Seq::<GossipMsgModel>::empty(),
        },
        RequestModel::Topology { msg_id, topology } => HandlerStep {
            state: bump_id(h),
            reply: Some(
                ResponseModel::Topology { msg_id: h.node.next_id, in_reply_to: msg_id },
            ),
            cmds: topology_cmds(h.node.id, topology),
        },
        RequestModel::BroadcastOk { in_reply_to, .. } => HandlerStep {
            state: h,
            reply: None,
            cmds: seq![GossipMsgModel::GotResponse(in_reply_to)],
        },
        RequestModel::BulkBroadcastOk { in_reply_to, .. } => HandlerStep {
            state: h,
            reply: None,
            cmds: seq![GossipMsgModel::GotResponse(in_reply_to)],
        },
    }
}

/// Folding one more envelope into a batch agrees with handling it after the
/// batch.
proof fn lemma_bulk_step_snoc(h: HandlerModel, bs: Seq<BroadcastModel>, b: BroadcastModel)
    ensures
        bulk_step(h, bs.push(b)) == ({
            let (h1, c1) = bulk_step(h, bs);
            let (h2, c2) = broadcast_step(h1, b);
            (h2, c1 + c2)
        }),
    decreases bs.len(),
{
    if bs.len() == 0 {
        assert(bs.push(b)[0] == b);
        assert(bs.push(b).skip(1) =~= Seq::<BroadcastModel>::empty());
        let (h1, c1) = broadcast_step(h, b);
        assert(bulk_step(h1, Seq::<BroadcastModel>::empty()) == (
            h1,
            Seq::<GossipMsgModel>::empty(),
        ));
        assert(c1 + Seq::<GossipMsgModel>::empty() =~= Seq::<GossipMsgModel>::empty() + c1);
        assert(bulk_step(h, bs.push(b)).1 =~= ({
            let (h1, c1) = bulk_step(h, bs);
            let (h2, c2) = broadcast_step(h1, b);
            c1 + c2
        }));
    } else {
        assert(bs.push(b)[0] == bs[0]);
        assert(bs.push(b).skip(1) =~= bs.skip(1).push(b));
        let (ha, ca) = broadcast_step(h, bs[0]);
        lemma_bulk_step_snoc(ha, bs.skip(1), b);
        let (hb, cb) = bulk_step(ha, bs.skip(1));
        let (hc, cc) = broadcast_step(hb, b);
        assert(ca + (cb + cc) =~= (ca + cb) + cc);
        assert(bulk_step(h, bs.push(b)).1 =~= (ca + cb) + cc);
    }
}

/// `own_row` is decided at the first entry naming the node.
proof fn lemma_own_row_at(id: Seq<char>, topology: Seq<TopologyEntryModel>, i: int)
    requires
        0 <= i <= topology.len(),
        forall|k: int| 0 <= k < i ==> topology[k].node != id,
        i < topology.len() ==> topology[i].node == id,
    ensures
        own_row(id, topology) == if i < topology.len() {
            Some(topology[i].peers)
        } else {
            None::<Seq<Seq<char>>>
        },
    decreases topology.len(),
{
    if topology.len() == 0 {
    } else if i == 0 {
    } else {
        assert(topology[0].node != id);
        lemma_own_row_at(id, topology.skip(1), i - 1);
    }
}

/// This node's row of a topology request, as the handler looks it up.
#[verifier::loop_isolation(false)]
fn find_own_row(topology: &Vec<TopologyEntry>, id: &String) -> (r: Option<Vec<String>>)
    ensures
        r.deep_view() == own_row(id@, topology.deep_view()),
{
    let n = topology.len();
    let mut i: usize = 0;
    while i < n
        invariant
            i <= n,
            forall|k: int| 0 <= k < i ==> topology.deep_view()[k].node != id@,
        decreases n - i,
    {
        if topology[i].node == *id {
            let peers = clone_string_vec(&topology[i].peers);
            proof {
                assert(topology.deep_view()[i as int].node == id@);
                lemma_own_row_at(id@, topology.deep_view(), i as int);
            }
            return Some(peers);
        }
        i = i + 1;
    }
    proof {
        lemma_own_row_at(id@, topology.deep_view(), n as int);
    }
    None
}

impl NodeIdable for RequestHandler {
    open spec fn spec_node_id(&self) -> Seq<char> {
        self.inner_node.id@
    }

    fn node_id(&self) -> (r: &str) {
        self.inner_node.node_id()
    }
}

impl RequestHandler {
    /// A handler for the given node, with an empty received-values store.
    pub fn new(inner_node: Node) -> (r: Self)
        ensures
            r@.node == inner_node@,
            r@.values == Seq::<u64>::empty(),
            r@.wf(),
    {
        let r = RequestHandler { inner_node, received_values: Vec::new() };
        proof {
            assert(r@.values =~= Seq::<u64>::empty());
        }
        r
    }

    /// Applies one request: mutates the store as [`handle_step`] says, and
    /// returns the synchronous reply and the commands for the gossip engine.
    #[verifier::loop_isolation(false)]
    pub fn handle_request(&mut self, body: &RequestBody) -> (r: (
        Option<ResponseBody>,
        Vec<GossipMsg>,
    ))
        requires
            old(self)@.node.next_id < u64::MAX,
        ensures
            final(self)@ == handle_step(old(self)@, body@).state,
            r.0.deep_view() == handle_step(old(self)@, body@).reply,
            r.1.deep_view() == handle_step(old(self)@, body@).cmds,
            old(self)@.wf() ==> final(self)@.wf(),
    {
        proof {
            if self@.wf() {
                lemma_handle_preserves_wf(self@, body@);
            }
        }
        let ghost h0 = self@;
        match body {
            RequestBody::Broadcast(b) => {
                let mut cmds: Vec<GossipMsg> = Vec::new();
                if !contains_u64(&self.received_values, b.message) {
                    self.received_values.push(b.message);
                    cmds.push(
                        GossipMsg::Gossip {
                            msg: b.message,
                            already_sent_to: clone_string_vec(&b.already_sent_to),
                        },
                    );
                    proof {
                        assert(cmds.deep_view() =~= broadcast_step(h0, b@).1);
                    }
                } else {
                    proof {
                        assert(cmds.deep_view() =~= broadcast_step(h0, b@).1);
                    }
                }
                let id = self.inner_node.generate_msg_id();
                let reply = ResponseBody::Broadcast { msg_id: id, in_reply_to: b.msg_id };
                proof {
                    assert(self@ =~= handle_step(h0, body@).state);
                }
                (Some(reply), cmds)
            },
            RequestBody::BulkBroadcast { broadcasts } => {
                let mut cmds: Vec<GossipMsg> = Vec::new();
                let ghost bs = broadcasts.deep_view();
                let n = broadcasts.len();
                let mut i: usize = 0;
                while i < n
                    invariant
                        i <= n,
                        n == broadcasts@.len(),
                        self.inner_node.id == old(self).inner_node.id,
                        self.inner_node.peers == old(self).inner_node.peers,
                        self.inner_node.ids == old(self).inner_node.ids,
                        self@ == bulk_step(h0, bs.take(i as int)).0,
                        cmds.deep_view() == bulk_step(h0, bs.take(i as int)).1,
                    decreases n - i,
                {
                    let b = &broadcasts[i];
                    proof {
                        assert(bs[i as int] == b@);
                        bs.lemma_take_succ_push(i as int);
                        lemma_bulk_step_snoc(h0, bs.take(i as int), bs[i as int]);
                    }
                    let ghost hmid = self@;
                    let ghost cmds0 = cmds.deep_view();
                    if !contains_u64(&self.received_values, b.message) {
                        self.received_values.push(b.message);
                        cmds.push(
                            GossipMsg::Gossip {
                                msg: b.message,
                                already_sent_to: clone_string_vec(&b.already_sent_to),
                            },
                        );
                        proof {
                            assert(self@ =~= broadcast_step(hmid, bs[i as int]).0);
                            assert(cmds.deep_view() =~= cmds0 + broadcast_step(
                                hmid,
                                bs[i as int],
                            ).1);
                        }
                    } else {
                        proof {
                            assert(self@ =~= broadcast_step(hmid, bs[i as int]).0);
                            assert(cmds.deep_view() =~= cmds0 + broadcast_step(
                                hmid,
                                bs[i as int],
                            ).1);
                        }
                    }
                    i = i + 1;
                }
                proof {
                    bs.lemma_take_len();
                }
                let in_reply_to = if broadcasts.len() == 0 {
                    0
                } else {
                    broadcasts[0].msg_id
                };
                let id = self.inner_node.generate_msg_id();
                let reply = ResponseBody::BulkBroadcast { msg_id: id, in_reply_to };
                proof {
                    assert(self@ =~= handle_step(h0, body@).state);
                }
                (Some(reply), cmds)
            },
            RequestBody::Read { msg_id } => {
                let messages = clone_u64_vec(&self.received_values);
                let id = self.inner_node.generate_msg_id();
                let reply = ResponseBody::Read { msg_id: id, in_reply_to: *msg_id, messages };
                let cmds: Vec<GossipMsg> = Vec::new();
                proof {
                    assert(self@ =~= handle_step(h0, body@).state);
                    assert(cmds.deep_view() =~= handle_step(h0, body@).cmds);
                }
                (Some(reply), cmds)
            },
            RequestBody::Topology { msg_id, topology } => {
                let mut cmds: Vec<GossipMsg> = Vec::new();
                let row = find_own_row(topology, &self.inner_node.id);
                match row {
                    Some(peers) => {
                        cmds.push(GossipMsg::Topology(peers));
                    },
                    None => {},
                }
                let id = self.inner_node.generate_msg_id();
                let reply = ResponseBody::Topology { msg_id: id, in_reply_to: *msg_id };
                proof {
                    assert(self@ =~= handle_step(h0, body@).state);
                    assert(cmds.deep_view() =~= handle_step(h0, body@).cmds);
                }
                (Some(reply), cmds)
            },
            RequestBody::BroadcastOk { in_reply_to, .. } => {
                let mut cmds: Vec<GossipMsg> = Vec::new();
                cmds.push(GossipMsg::GotResponse(*in_reply_to));
                proof {
                    assert(cmds.deep_view() =~= handle_step(h0, body@).cmds);
                }
                (None, cmds)
            },
            RequestBody::BulkBroadcastOk { in_reply_to, .. } => {
                let mut cmds: Vec<GossipMsg> = Vec::new();
                cmds.push(GossipMsg::GotResponse(*in_reply_to));
                proof {
                    assert(cmds.deep_view() =~= handle_step(h0, body@).cmds);
                }
                (None, cmds)
            },
        }
    }

    /// Applies one decoded envelope and wraps the reply, if any, into an
    /// envelope addressed back to the sender.
    pub fn respond_to(&mut self, m: &Message<RequestBody>) -> (r: (
        Option<Message<ResponseBody>>,
        Vec<GossipMsg>,
    ))
        requires
            old(self)@.node.next_id < u64::MAX,
        ensures
            final(self)@ == handle_step(old(self)@, m@.body).state,
            (handle_step(old(self)@, m@.body).reply matches Some(body) ==> r.0 matches Some(out)
                && out@.body == body && out@.dest == m@.src && out@.src == old(self)@.node.id),
            (handle_step(old(self)@, m@.body).reply is None ==> r.0 is None),
            r.1.deep_view() == handle_step(old(self)@, m@.body).cmds,
            old(self)@.wf() ==> final(self)@.wf(),
    {
        let (reply, cmds) = self.handle_request(&m.body);
        match reply {
            Some(body) => {
                proof {
                    lemma_handle_keeps_identity(old(self)@, m@.body);
                }
                let out = Message { body, dest: m.src.clone(), src: self.inner_node.id.clone() };
                (Some(out), cmds)
            },
            None => (None, cmds),
        }
    }
}

/// A copy of a value store, element for element.
#[verifier::loop_isolation(false)]
fn clone_u64_vec(v: &Vec<u64>) -> (r: Vec<u64>)
    ensures
        r@ == v@,
{
    let mut r: Vec<u64> = Vec::new();
    let n = v.len();
    let mut i: usize = 0;
    while i < n
        invariant
            i <= n,
            r@ == v@.take(i as int),
        decreases n - i,
    {
        proof {
            v@.lemma_take_succ_push(i as int);
        }
        r.push(v[i]);
        i = i + 1;
    }
    proof {
        v@.lemma_take_len();
    }
    r
}

/// A distinct store stays distinct when a value not yet in it is pushed.
proof fn lemma_push_distinct(values: Seq<u64>, v: u64)
    requires
        forall|i: int, j: int| 0 <= i < j < values.len() ==> values[i] != values[j],
        !values.contains(v),
    ensures
        forall|i: int, j: int|
            0 <= i < j < values.push(v).len() ==> values.push(v)[i] != values.push(v)[j],
{
    assert forall|i: int, j: int|
        0 <= i < j < values.push(v).len() implies values.push(v)[i] != values.push(v)[j] by {
        if j == values.len() {
            assert(values.push(v)[i] == values[i]);
        }
    }
}

/// A batch preserves distinctness of the store.
proof fn lemma_bulk_step_preserves_wf(h: HandlerModel, bs: Seq<BroadcastModel>)
    requires
        h.wf(),
    ensures
        bulk_step(h, bs).0.wf(),
        bulk_step(h, bs).0.node == h.node,
    decreases bs.len(),
{
    if bs.len() > 0 {
        let (h1, c1) = broadcast_step(h, bs[0]);
        if !h.values.contains(bs[0].message) {
            lemma_push_distinct(h.values, bs[0].message);
        }
        lemma_bulk_step_preserves_wf(h1, bs.skip(1));
    }
}

/// A batch leaves the node's identity, roster and counter alone.
proof fn lemma_bulk_step_keeps_node(h: HandlerModel, bs: Seq<BroadcastModel>)
    ensures
        bulk_step(h, bs).0.node == h.node,
    decreases bs.len(),
{
    if bs.len() > 0 {
        lemma_bulk_step_keeps_node(broadcast_step(h, bs[0]).0, bs.skip(1));
    }
}

/// No request changes the node's identity or peer roster.
pub proof fn lemma_handle_keeps_identity(h: HandlerModel, req: RequestModel)
    ensures
        handle_step(h, req).state.node.id == h.node.id,
        handle_step(h, req).state.node.peers == h.node.peers,
{
    match req {
        RequestModel::BulkBroadcast { broadcasts } => {
            lemma_bulk_step_keeps_node(h, broadcasts);
        },
        _ => {},
    }
}

/// Law: the received-values store never holds a value twice — every request
/// preserves distinctness of the store.
pub proof fn lemma_handle_preserves_wf(h: HandlerModel, req: RequestModel)
    requires
        h.wf(),
    ensures
        handle_step(h, req).state.wf(),
{
    match req {
        RequestModel::Broadcast(b) => {
            if !h.values.contains(b.message) {
                lemma_push_distinct(h.values, b.message);
            }
        },
        RequestModel::BulkBroadcast { broadcasts } => {
            lemma_bulk_step_preserves_wf(h, broadcasts);
        },
        _ => {},
    }
}

/// Law: delivering the same broadcast value twice yields exactly one entry in
/// the store and at most one gossip fan-out: the second delivery changes no
/// value and emits no command.
pub proof fn lemma_idempotent_receipt(h: HandlerModel, b1: BroadcastModel, b2: BroadcastModel)
    requires
        b1.message == b2.message,
    ensures
        ({
            let s1 = handle_step(h, RequestModel::Broadcast(b1));
            let s2 = handle_step(s1.state, RequestModel::Broadcast(b2));
            &&& s2.state.values == s1.state.values
            &&& s2.cmds == Seq::<GossipMsgModel>::empty()
            &&& (!h.values.contains(b1.message) ==> s1.state.values == h.values.push(b1.message)
                && s1.cmds.len() == 1)
            &&& (h.values.contains(b1.message) ==> s1.state.values == h.values && s1.cmds.len()
                == 0)
        }),
{
    let s1 = handle_step(h, RequestModel::Broadcast(b1));
    assert(s1.state.values.contains(b1.message)) by {
        if !h.values.contains(b1.message) {
            assert(h.values.push(b1.message)[h.values.len() as int] == b1.message);
        }
    }
}

} // verus!
