//! End-to-end tests: requests flowing through the handler into the gossip
//! engine and out again as wire envelopes, the way the node runs them.

use broadcast_node::common::{IdGenerator, Node};
use broadcast_node::gossip::{GossipManager, FIRST_DELAY_MS};
use broadcast_node::protocol::{Broadcast, RequestBody};
use broadcast_node::requests::RequestHandler;

fn strings(names: &[&str]) -> Vec<String> {
    names.iter().map(|s| s.to_string()).collect()
}

#[test]
fn injected_value_is_gossiped_to_every_peer_until_acknowledged() {
    let node = Node::new("n1".to_string(), strings(&["n2", "n3"]), IdGenerator::new());
    let mut mgr = GossipManager::new(&node);
    let mut handler = RequestHandler::new(node);

    // a client injects value 42
    let (reply, cmds) = handler.handle_request(&RequestBody::Broadcast(Broadcast {
        msg_id: 1,
        message: 42,
        already_sent_to: Vec::new(),
    }));
    assert!(reply.is_some());

    // the engine consumes the command and schedules a job per peer
    let mut now = 0;
    for cmd in cmds {
        mgr.handle_gossip(cmd, now);
    }
    assert_eq!(mgr.to_gossip.len(), 2);

    // nothing is due before the first delay
    assert!(mgr.tick(now).is_empty());

    // once due, each peer gets one bulk message carrying the value
    now += FIRST_DELAY_MS + 1000;
    let out = mgr.tick(now);
    assert_eq!(out.len(), 2);
    let mut dests: Vec<String> = out.iter().map(|m| m.dest.clone()).collect();
    dests.sort();
    assert_eq!(dests, strings(&["n2", "n3"]));
    let mut sent_ids = Vec::new();
    for m in &out {
        match &m.body {
            RequestBody::BulkBroadcast { broadcasts } => {
                assert_eq!(broadcasts.len(), 1);
                assert_eq!(broadcasts[0].message, 42);
                sent_ids.push(broadcasts[0].msg_id);
            }
            other => panic!("expected a bulk broadcast, got {:?}", other),
        }
    }

    // one peer acknowledges; only its job is retired
    let (no_reply, acks) = handler.handle_request(&RequestBody::BroadcastOk {
        msg_id: 90,
        in_reply_to: sent_ids[0],
    });
    assert!(no_reply.is_none());
    for cmd in acks {
        mgr.handle_gossip(cmd, now);
    }
    let pending: usize = mgr.to_gossip.iter().map(|q| q.jobs.len()).sum();
    assert_eq!(pending, 1);

    // the unacknowledged peer keeps being retried
    let next_due = mgr.to_gossip.iter().flat_map(|q| q.jobs.iter()).map(|j| j.run_at).max();
    let out = mgr.tick(next_due.unwrap());
    assert_eq!(out.len(), 1);
}

#[test]
fn duplicate_injection_causes_no_second_fanout() {
    let node = Node::new("n1".to_string(), strings(&["n2"]), IdGenerator::new());
    let mut mgr = GossipManager::new(&node);
    let mut handler = RequestHandler::new(node);

    let b = |msg_id| {
        RequestBody::Broadcast(Broadcast { msg_id, message: 9, already_sent_to: Vec::new() })
    };
    let (_, cmds1) = handler.handle_request(&b(1));
    for cmd in cmds1 {
        mgr.handle_gossip(cmd, 0);
    }
    let jobs_after_first: usize = mgr.to_gossip.iter().map(|q| q.jobs.len()).sum();

    let (_, cmds2) = handler.handle_request(&b(2));
    assert!(cmds2.is_empty());
    let jobs_after_second: usize = mgr.to_gossip.iter().map(|q| q.jobs.len()).sum();
    assert_eq!(jobs_after_first, jobs_after_second);
}

#[test]
fn received_bulk_broadcast_is_not_forwarded_back_to_its_senders() {
    // peer n2 gossips value 5 to us and says n2 and n3 were already offered it
    let node = Node::new("n1".to_string(), strings(&["n2", "n3", "n4"]), IdGenerator::new());
    let mut mgr = GossipManager::new(&node);
    let mut handler = RequestHandler::new(node);

    let (reply, cmds) = handler.handle_request(&RequestBody::BulkBroadcast {
        broadcasts: vec![Broadcast {
            msg_id: 77,
            message: 5,
            already_sent_to: strings(&["n2", "n3"]),
        }],
    });
    assert!(reply.is_some());
    for cmd in cmds {
        mgr.handle_gossip(cmd, 0);
    }
    let dests: Vec<&str> = mgr.to_gossip.iter().map(|q| q.dest.as_str()).collect();
    assert_eq!(dests, vec!["n4"]);
    // the forwarded envelope says every peer has now been offered the value
    assert_eq!(
        mgr.to_gossip[0].jobs[0].broadcast.already_sent_to,
        strings(&["n2", "n3", "n4"])
    );
}
