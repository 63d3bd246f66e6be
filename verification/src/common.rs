//! Shared building blocks of the node: message identifiers and the counter
//! that allocates them, the envelope type, node identity, and the one-time
//! initialization exchange that establishes the node's id and peer roster.

use vstd::prelude::*;

verus! {

/// Identifier carried by every message and every reply.
pub type MsgId = u64;

/// Allocator of fresh message identifiers. Identifiers are handed out in
/// increasing order starting from zero and are never reused.
#[derive(Debug)]
pub struct IdGenerator {
    next_id: u64,
}

impl View for IdGenerator {
    type V = u64;

    /// The next identifier this generator will hand out.
    closed spec fn view(&self) -> u64 {
        self.next_id
    }
}

impl IdGenerator {
    /// A generator whose first identifier is zero.
    pub fn new() -> (r: Self)
        ensures
            r@ == 0,
    {
        IdGenerator { next_id: 0 }
    }

    /// The next identifier, without handing it out.
    pub fn peek_next(&self) -> (r: u64)
        ensures
            r == self@,
    {
        self.next_id
    }
}

/// Something that knows this node's identifier.
pub trait NodeIdable {
    /// The node identifier, as a sequence of characters.
    spec fn spec_node_id(&self) -> Seq<char>;

    /// The node identifier.
    fn node_id(&self) -> (r: &str)
        ensures
            r@ == self.spec_node_id(),
    ;
}

/// Something that can allocate fresh message identifiers.
pub trait MsgIdAble {
    /// The next identifier that will be handed out.
    spec fn spec_next_id(&self) -> u64;

    /// Hands out the next identifier and moves the counter past it.
    fn generate_msg_id(&mut self) -> (r: MsgId)
        requires
            old(self).spec_next_id() < u64::MAX,
        ensures
            r == old(self).spec_next_id(),
            final(self).spec_next_id() == old(self).spec_next_id() + 1,
    ;
}

impl MsgIdAble for IdGenerator {
    open spec fn spec_next_id(&self) -> u64 {
        self@
    }

    fn generate_msg_id(&mut self) -> (r: MsgId)
    {
        let id = self.next_id;
        self.next_id = self.next_id + 1;
        id
    }
}

/// One wire envelope: a body, the destination node and the source node.
#[derive(Debug, Clone)]
pub struct Message<Body: Clone> {
    pub body: Body,
    pub dest: String,
    pub src: String,
}

/// Mathematical value of an envelope, over the body's own model.
#[verifier::ext_equal]
pub struct MessageModel<BodyV> {
    pub body: BodyV,
    pub dest: Seq<char>,
    pub src: Seq<char>,
}

impl<Body: View + Clone> View for Message<Body> {
    type V = MessageModel<Body::V>;

    open spec fn view(&self) -> MessageModel<Body::V> {
        MessageModel { body: self.body@, dest: self.dest@, src: self.src@ }
    }
}

impl<Body: DeepView + Clone> DeepView for Message<Body> {
    type V = MessageModel<Body::V>;

    open spec fn deep_view(&self) -> MessageModel<Body::V> {
        MessageModel { body: self.body.deep_view(), dest: self.dest@, src: self.src@ }
    }
}

/// A node's identity: its own id, the roster of peers it gossips to, and its
/// message-id counter.
#[derive(Debug)]
pub struct Node {
    pub id: String,
    pub peers: Vec<String>,
    pub ids: IdGenerator,
}

/// Mathematical value of a node's identity.
#[verifier::ext_equal]
pub struct NodeModel {
    pub id: Seq<char>,
    pub peers: Seq<Seq<char>>,
    pub next_id: u64,
}

impl View for Node {
    type V = NodeModel;

    open spec fn view(&self) -> NodeModel {
        NodeModel { id: self.id@, peers: self.peers.deep_view(), next_id: self.ids@ }
    }
}

impl Node {
    pub fn new(id: String, peers: Vec<String>, ids: IdGenerator) -> (r: Self)
        ensures
            r@ == (NodeModel { id: id@, peers: peers.deep_view(), next_id: ids@ }),
    {
        Node { id, peers, ids }
    }
}

impl NodeIdable for Node {
    open spec fn spec_node_id(&self) -> Seq<char> {
        self.id@
    }

    fn node_id(&self) -> (r: &str) {
        self.id.as_str()
    }
}

impl MsgIdAble for Node {
    open spec fn spec_next_id(&self) -> u64 {
        self.ids@
    }

    fn generate_msg_id(&mut self) -> (r: MsgId)
        ensures
            final(self).id == old(self).id,
            final(self).peers == old(self).peers,
    {
        self.ids.generate_msg_id()
    }
}

/// Body of the substrate's error reply.
#[derive(Debug)]
pub struct ErrorMsg {
    pub code: i64,
    pub in_reply_to: MsgId,
    pub text: String,
}

/// Body of the one-time initialization request: this node's id and the full
/// roster of node ids in the network, this node included.
#[derive(Debug, Clone)]
pub struct Init {
    pub msg_id: MsgId,
    pub node_id: String,
    pub node_ids: Vec<String>,
}

/// Body of the reply to the initialization request.
#[derive(Debug, Clone)]
pub struct InitResponse {
    pub msg_id: MsgId,
    pub in_reply_to: MsgId,
}

impl Init {
    /// The reply acknowledging this initialization request.
    pub fn response(&self, new_msg_id: MsgId) -> (r: InitResponse)
        ensures
            r.msg_id == new_msg_id,
            r.in_reply_to == self.msg_id,
    {
        InitResponse { msg_id: new_msg_id, in_reply_to: self.msg_id }
    }
}

/// Request bodies of the initialization exchange.
#[derive(Debug, Clone)]
pub enum InitBody {
    Init(Init),
}

/// Response bodies of the initialization exchange.
#[derive(Debug, Clone)]
pub enum InitBodyResponse {
    InitResp(InitResponse),
}

impl Node {
    /// Builds the node a decoded initialization request describes, and the
    /// reply acknowledging that request. The node's peer roster is the
    /// request's roster with the node's own id left out, in the given order.
    pub fn init(init: &Init) -> (r: (Node, InitResponse))
        ensures
            r.0@.id == init.node_id@,
            r.0@.peers == init.node_ids.deep_view().filter(
                |p: Seq<char>| p != init.node_id@,
            ),
            r.0@.next_id == 1,
            r.1.msg_id == 0,
            r.1.in_reply_to == init.msg_id,
    {
        let mut peers: Vec<String> = Vec::new();
        let n = init.node_ids.len();
        let ghost pred = |p: Seq<char>| p != init.node_id@;
        let mut i: usize = 0;
        while i < n
            invariant
                n == init.node_ids.len(),
                i <= n,
                pred == (|p: Seq<char>| p != init.node_id@),
                peers.deep_view() == init.node_ids.deep_view().take(i as int).filter(pred),
            decreases n - i,
        {
            let candidate = &init.node_ids[i];
            proof {
                assert(init.node_ids.deep_view()[i as int] == candidate@);
                init.node_ids.deep_view().lemma_take_succ_push(i as int);
                init.node_ids.deep_view().take(i as int).lemma_filter_push(candidate@, pred);
            }
            let ghost prev = peers.deep_view();
            if !(*candidate == init.node_id) {
                peers.push(candidate.clone());
                proof {
                    assert(peers.deep_view() =~= prev.push(init.node_ids.deep_view()[i as int]));
                }
            }
            i = i + 1;
        }
        proof {
            init.node_ids.deep_view().lemma_take_len();
        }
        let mut ids = IdGenerator::new();
        let reply_id = ids.generate_msg_id();
        let reply = init.response(reply_id);
        let node = Node { id: init.node_id.clone(), peers, ids };
        (node, reply)
    }

    /// Answers an initialization request with an acknowledgment that echoes
    /// the request's message id.
    pub fn handle_request(&mut self, m: &InitBody) -> (r: Option<InitBodyResponse>)
        requires
            old(self)@.next_id < u64::MAX,
        ensures
            final(self)@.id == old(self)@.id,
            final(self)@.peers == old(self)@.peers,
            final(self)@.next_id == old(self)@.next_id + 1,
            (m matches InitBody::Init(init) ==> r == Some(
                InitBodyResponse::InitResp(
                    InitResponse { msg_id: old(self)@.next_id, in_reply_to: init.msg_id },
                ),
            )),
    {
        match m {
            InitBody::Init(init) => {
                let id = self.generate_msg_id();
                Some(InitBodyResponse::InitResp(init.response(id)))
            },
        }
    }
}

/// A copy of a roster, element for element.
pub fn clone_string_vec(v: &Vec<String>) -> (r: Vec<String>)
    ensures
        r.deep_view() == v.deep_view(),
        r@.len() == v@.len(),
{
    let mut r: Vec<String> = Vec::new();
    let n = v.len();
    let mut i: usize = 0;
    while i < n
        invariant
            n == v@.len(),
            i <= n,
            r.deep_view() == v.deep_view().take(i as int),
        decreases n - i,
    {
        proof {
            v.deep_view().lemma_take_succ_push(i as int);
        }
        r.push(v[i].clone());
        i = i + 1;
    }
    proof {
        v.deep_view().lemma_take_len();
    }
    r
}

/// Whether a roster holds the given id.
pub fn string_vec_contains(v: &Vec<String>, s: &String) -> (r: bool)
    ensures
        r == v.deep_view().contains(s@),
{
    let n = v.len();
    let mut i: usize = 0;
    while i < n
        invariant
            n == v@.len(),
            i <= n,
            forall|k: int| 0 <= k < i ==> v.deep_view()[k] != s@,
        decreases n - i,
    {
        if v[i] == *s {
            proof {
                assert(v.deep_view()[i as int] == s@);
            }
            return true;
        }
        i = i + 1;
    }
    false
}

/// Whether a store of values holds the given value.
pub fn contains_u64(v: &Vec<u64>, x: u64) -> (r: bool)
    ensures
        r == v@.contains(x),
{
    let n = v.len();
    let mut i: usize = 0;
    while i < n
        invariant
            n == v@.len(),
            i <= n,
            forall|k: int| 0 <= k < i ==> v@[k] != x,
        decreases n - i,
    {
        if v[i] == x {
            return true;
        }
        i = i + 1;
    }
    false
}

} // verus!
