//! Tests of the request handler: deduplication, replies, and the commands it
//! emits for the gossip engine.

use broadcast_node::common::{IdGenerator, Message, Node};
use broadcast_node::gossip::GossipMsg;
use broadcast_node::protocol::{Broadcast, RequestBody, ResponseBody, TopologyEntry};
use broadcast_node::requests::RequestHandler;

fn strings(names: &[&str]) -> Vec<String> {
    names.iter().map(|s| s.to_string()).collect()
}

fn test_handler(id: &str, peers: &[&str]) -> RequestHandler {
    RequestHandler::new(Node::new(id.to_string(), strings(peers), IdGenerator::new()))
}

fn broadcast(msg_id: u64, message: u64) -> RequestBody {
    RequestBody::Broadcast(Broadcast { msg_id, message, already_sent_to: Vec::new() })
}

#[test]
fn read_after_duplicate_injections_returns_each_value_once() {
    let mut h = test_handler("n1", &["n2"]);
    let (r1, c1) = h.handle_request(&broadcast(1, 3));
    let (r2, c2) = h.handle_request(&broadcast(2, 7));
    let (r3, c3) = h.handle_request(&broadcast(3, 3));

    assert!(matches!(r1, Some(ResponseBody::Broadcast { in_reply_to: 1, .. })));
    assert!(matches!(r2, Some(ResponseBody::Broadcast { in_reply_to: 2, .. })));
    assert!(matches!(r3, Some(ResponseBody::Broadcast { in_reply_to: 3, .. })));
    assert_eq!(c1.len(), 1);
    assert_eq!(c2.len(), 1);
    assert!(c3.is_empty(), "a duplicate value must not be re-gossiped");

    let (r4, c4) = h.handle_request(&RequestBody::Read { msg_id: 9 });
    assert!(c4.is_empty());
    match r4 {
        Some(ResponseBody::Read { in_reply_to, mut messages, .. }) => {
            assert_eq!(in_reply_to, 9);
            messages.sort();
            assert_eq!(messages, vec![3, 7]);
        }
        other => panic!("expected a read reply, got {:?}", other),
    }
}

#[test]
fn duplicate_delivery_keeps_one_store_entry() {
    let mut h = test_handler("n1", &[]);
    h.handle_request(&broadcast(1, 5));
    h.handle_request(&broadcast(2, 5));
    assert_eq!(h.received_values, vec![5]);
}

#[test]
fn novel_broadcast_emits_gossip_with_its_already_sent_to_set() {
    let mut h = test_handler("n1", &["n2", "n3"]);
    let body = RequestBody::Broadcast(Broadcast {
        msg_id: 4,
        message: 10,
        already_sent_to: strings(&["n2"]),
    });
    let (reply, cmds) = h.handle_request(&body);
    assert!(matches!(reply, Some(ResponseBody::Broadcast { in_reply_to: 4, .. })));
    assert_eq!(cmds.len(), 1);
    match &cmds[0] {
        GossipMsg::Gossip { msg, already_sent_to } => {
            assert_eq!(*msg, 10);
            assert_eq!(*already_sent_to, strings(&["n2"]));
        }
        other => panic!("expected a gossip command, got {:?}", other),
    }
}

#[test]
fn reply_ids_are_fresh_and_increasing() {
    let mut h = test_handler("n1", &[]);
    let (r1, _) = h.handle_request(&broadcast(1, 3));
    let (r2, _) = h.handle_request(&RequestBody::Read { msg_id: 2 });
    let id1 = match r1 {
        Some(ResponseBody::Broadcast { msg_id, .. }) => msg_id,
        other => panic!("expected a broadcast reply, got {:?}", other),
    };
    let id2 = match r2 {
        Some(ResponseBody::Read { msg_id, .. }) => msg_id,
        other => panic!("expected a read reply, got {:?}", other),
    };
    assert_eq!(id1, 0);
    assert_eq!(id2, 1);
}

#[test]
fn bulk_broadcast_deduplicates_each_envelope_and_acks_once() {
    let mut h = test_handler("n1", &["n2"]);
    let body = RequestBody::BulkBroadcast {
        broadcasts: vec![
            Broadcast { msg_id: 10, message: 3, already_sent_to: Vec::new() },
            Broadcast { msg_id: 11, message: 3, already_sent_to: Vec::new() },
            Broadcast { msg_id: 12, message: 7, already_sent_to: Vec::new() },
        ],
    };
    let (reply, cmds) = h.handle_request(&body);
    assert!(matches!(reply, Some(ResponseBody::BulkBroadcast { in_reply_to: 10, .. })));
    assert_eq!(cmds.len(), 2, "one gossip command per novel value");
    assert_eq!(h.received_values, vec![3, 7]);
}

#[test]
fn empty_bulk_broadcast_is_acknowledged_and_changes_nothing() {
    let mut h = test_handler("n1", &["n2"]);
    let (reply, cmds) = h.handle_request(&RequestBody::BulkBroadcast { broadcasts: Vec::new() });
    assert!(matches!(reply, Some(ResponseBody::BulkBroadcast { in_reply_to: 0, .. })));
    assert!(cmds.is_empty());
    assert!(h.received_values.is_empty());
}

#[test]
fn topology_request_forwards_own_row() {
    let mut h = test_handler("n2", &[]);
    let body = RequestBody::Topology {
        msg_id: 7,
        topology: vec![
            TopologyEntry { node: "n1".to_string(), peers: strings(&["n2"]) },
            TopologyEntry { node: "n2".to_string(), peers: strings(&["n1", "n3"]) },
        ],
    };
    let (reply, cmds) = h.handle_request(&body);
    assert!(matches!(reply, Some(ResponseBody::Topology { in_reply_to: 7, .. })));
    assert_eq!(cmds.len(), 1);
    match &cmds[0] {
        GossipMsg::Topology(peers) => assert_eq!(*peers, strings(&["n1", "n3"])),
        other => panic!("expected a topology command, got {:?}", other),
    }
}

#[test]
fn topology_request_without_own_row_emits_no_command() {
    let mut h = test_handler("n9", &[]);
    let body = RequestBody::Topology {
        msg_id: 7,
        topology: vec![TopologyEntry { node: "n1".to_string(), peers: strings(&["n2"]) }],
    };
    let (reply, cmds) = h.handle_request(&body);
    assert!(matches!(reply, Some(ResponseBody::Topology { in_reply_to: 7, .. })));
    assert!(cmds.is_empty());
}

#[test]
fn acknowledgments_are_terminal_and_retire_jobs() {
    let mut h = test_handler("n1", &[]);
    let (reply, cmds) = h.handle_request(&RequestBody::BroadcastOk { msg_id: 50, in_reply_to: 5 });
    assert!(reply.is_none(), "acknowledgments get no reply");
    assert!(matches!(cmds.as_slice(), [GossipMsg::GotResponse(5)]));

    let (reply, cmds) =
        h.handle_request(&RequestBody::BulkBroadcastOk { msg_id: 51, in_reply_to: 8 });
    assert!(reply.is_none());
    assert!(matches!(cmds.as_slice(), [GossipMsg::GotResponse(8)]));
}

#[test]
fn respond_to_addresses_the_reply_back_to_the_sender() {
    let mut h = test_handler("n1", &[]);
    let m = Message { body: broadcast(1, 3), dest: "n1".to_string(), src: "c0".to_string() };
    let (reply, cmds) = h.respond_to(&m);
    let out = reply.expect("a broadcast request is answered");
    assert_eq!(out.dest, "c0");
    assert_eq!(out.src, "n1");
    assert!(matches!(out.body, ResponseBody::Broadcast { in_reply_to: 1, .. }));
    assert_eq!(cmds.len(), 1);
}

#[test]
fn acknowledgment_envelope_gets_no_reply_envelope() {
    let mut h = test_handler("n1", &[]);
    let m = Message {
        body: RequestBody::BroadcastOk { msg_id: 9, in_reply_to: 2 },
        dest: "n1".to_string(),
        src: "n2".to_string(),
    };
    let (reply, cmds) = h.respond_to(&m);
    assert!(reply.is_none());
    assert_eq!(cmds.len(), 1);
}
