//! Tests of node identity, initialization, message ids, and the echo and
//! unique-id services.

use broadcast_node::common::{
    IdGenerator, Init, InitBody, InitBodyResponse, MsgIdAble, Node, NodeIdable,
};
use broadcast_node::echo;
use broadcast_node::unique;

fn strings(names: &[&str]) -> Vec<String> {
    names.iter().map(|s| s.to_string()).collect()
}

#[test]
fn id_generator_counts_up_from_zero() {
    let mut ids = IdGenerator::new();
    assert_eq!(ids.generate_msg_id(), 0);
    assert_eq!(ids.generate_msg_id(), 1);
    assert_eq!(ids.generate_msg_id(), 2);
}

#[test]
fn node_ids_are_generated_through_the_node() {
    let mut node = Node::new("n1".to_string(), strings(&["n2"]), IdGenerator::new());
    assert_eq!(node.node_id(), "n1");
    assert_eq!(node.generate_msg_id(), 0);
    assert_eq!(node.generate_msg_id(), 1);
}

#[test]
fn init_builds_the_node_and_excludes_self_from_peers() {
    let init = Init {
        msg_id: 5,
        node_id: "n2".to_string(),
        node_ids: strings(&["n1", "n2", "n3"]),
    };
    let (node, reply) = Node::init(&init);
    assert_eq!(node.id, "n2");
    assert_eq!(node.peers, strings(&["n1", "n3"]));
    assert_eq!(reply.msg_id, 0);
    assert_eq!(reply.in_reply_to, 5);
}

#[test]
fn init_response_echoes_the_request_id() {
    let init = Init { msg_id: 41, node_id: "n1".to_string(), node_ids: strings(&["n1"]) };
    let r = init.response(17);
    assert_eq!(r.msg_id, 17);
    assert_eq!(r.in_reply_to, 41);
}

#[test]
fn init_request_is_acknowledged() {
    let mut node = Node::new("n1".to_string(), Vec::new(), IdGenerator::new());
    let body = InitBody::Init(Init {
        msg_id: 3,
        node_id: "n1".to_string(),
        node_ids: strings(&["n1"]),
    });
    let reply = node.handle_request(&body);
    match reply {
        Some(InitBodyResponse::InitResp(r)) => {
            assert_eq!(r.msg_id, 0);
            assert_eq!(r.in_reply_to, 3);
        }
        None => panic!("an init request is answered"),
    }
}

#[test]
fn echo_returns_the_same_text() {
    let node = Node::new("n1".to_string(), Vec::new(), IdGenerator::new());
    let mut echo_node = echo::EchoNode(node);
    let body = echo::RequestBody::Echo(echo::Echo { msg_id: 12, echo: "hello there".to_string() });
    let reply = echo_node.handle_request(&body);
    match reply {
        Some(echo::ResponseBody::EchoResponse(r)) => {
            assert_eq!(r.echo, "hello there");
            assert_eq!(r.in_reply_to, 12);
            assert_eq!(r.msg_id, 0);
        }
        None => panic!("an echo request is answered"),
    }
    assert_eq!(echo_node.node_id(), "n1");
}

#[test]
fn unique_ids_differ_across_requests() {
    let node = Node::new("n1".to_string(), Vec::new(), IdGenerator::new());
    let mut uid_node = unique::UniqueIdNode { inner_node: node, next_id: 0 };
    let r1 = uid_node.handle_request(&unique::RequestBody::Generate { msg_id: 1 });
    let r2 = uid_node.handle_request(&unique::RequestBody::Generate { msg_id: 2 });
    let (id1, reply1, irt1) = match r1 {
        Some(unique::ResponseBody::Generate { id, msg_id, in_reply_to }) => (id, msg_id, in_reply_to),
        None => panic!("a generate request is answered"),
    };
    let (id2, _, irt2) = match r2 {
        Some(unique::ResponseBody::Generate { id, msg_id, in_reply_to }) => (id, msg_id, in_reply_to),
        None => panic!("a generate request is answered"),
    };
    assert_eq!(id1.node, "n1");
    assert_eq!(id2.node, "n1");
    assert_ne!((id1.node.clone(), id1.counter), (id2.node.clone(), id2.counter));
    assert_eq!(reply1, 0);
    assert_eq!(irt1, 1);
    assert_eq!(irt2, 2);
}
