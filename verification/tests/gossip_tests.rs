//! Tests of the gossip engine: fanout, retirement, batching and scheduling.

use broadcast_node::common::{IdGenerator, Node};
use broadcast_node::gossip::{
    backoff, sat_add, DestQueue, GossipManager, GossipMsg, Job, FIRST_DELAY_MS, JITTER_BOUND_MS,
    MAX_BACKOFF_MS, RETRY_UNIT_MS,
};
use broadcast_node::protocol::{Broadcast, RequestBody};

fn strings(names: &[&str]) -> Vec<String> {
    names.iter().map(|s| s.to_string()).collect()
}

fn test_node(id: &str, peers: &[&str]) -> Node {
    Node::new(id.to_string(), strings(peers), IdGenerator::new())
}

fn job(msg_id: u64, message: u64, dest: &str, run_at: u64, attempts: u64) -> Job {
    Job {
        broadcast: Broadcast { msg_id, message, already_sent_to: Vec::new() },
        dest: dest.to_string(),
        run_at,
        attempts,
    }
}

#[test]
fn fanout_excludes_already_sent_peers() {
    let node = test_node("n1", &["a", "b", "c"]);
    let mut mgr = GossipManager::new(&node);
    mgr.enqueue_gossip(42, &strings(&["b"]), 0, 0);

    let dests: Vec<&str> = mgr.to_gossip.iter().map(|q| q.dest.as_str()).collect();
    assert_eq!(dests, vec!["a", "c"]);
    for q in &mgr.to_gossip {
        assert_eq!(q.jobs.len(), 1);
        let j = &q.jobs[0];
        assert_eq!(j.broadcast.message, 42);
        assert_eq!(j.attempts, 0);
        assert_eq!(j.run_at, FIRST_DELAY_MS);
        assert_eq!(j.broadcast.already_sent_to, strings(&["b", "a", "c"]));
    }
    assert_eq!(mgr.to_gossip[0].jobs[0].broadcast.msg_id, 0);
    assert_eq!(mgr.to_gossip[1].jobs[0].broadcast.msg_id, 1);
}

#[test]
fn fanout_to_no_one_when_all_peers_offered() {
    let node = test_node("n1", &["a", "b"]);
    let mut mgr = GossipManager::new(&node);
    mgr.enqueue_gossip(7, &strings(&["a", "b"]), 0, 0);
    assert!(mgr.to_gossip.is_empty());
}

#[test]
fn gossip_command_schedules_with_jitter_in_range() {
    let node = test_node("n1", &["a"]);
    let mut mgr = GossipManager::new(&node);
    let now = 100;
    mgr.handle_gossip(GossipMsg::Gossip { msg: 9, already_sent_to: Vec::new() }, now);
    assert_eq!(mgr.to_gossip.len(), 1);
    let run_at = mgr.to_gossip[0].jobs[0].run_at;
    assert!(run_at >= now + FIRST_DELAY_MS);
    assert!(run_at < now + FIRST_DELAY_MS + JITTER_BOUND_MS);
}

#[test]
fn acknowledgment_retires_exactly_the_matching_job() {
    let node = test_node("n1", &["p1", "p2"]);
    let mut mgr = GossipManager::new(&node);
    mgr.to_gossip.push(DestQueue { dest: "p1".to_string(), jobs: vec![job(5, 11, "p1", 0, 0)] });
    mgr.to_gossip.push(DestQueue { dest: "p2".to_string(), jobs: vec![job(7, 22, "p2", 0, 0)] });

    mgr.handle_gossip(GossipMsg::GotResponse(5), 0);

    assert_eq!(mgr.to_gossip.len(), 2);
    assert_eq!(mgr.to_gossip[0].dest, "p1");
    assert!(mgr.to_gossip[0].jobs.is_empty());
    assert_eq!(mgr.to_gossip[1].dest, "p2");
    assert_eq!(mgr.to_gossip[1].jobs.len(), 1);
    assert_eq!(mgr.to_gossip[1].jobs[0].broadcast.msg_id, 7);
    assert_eq!(mgr.to_gossip[1].jobs[0].run_at, 0);
}

#[test]
fn unknown_acknowledgment_is_a_no_op() {
    let node = test_node("n1", &["p1"]);
    let mut mgr = GossipManager::new(&node);
    mgr.to_gossip.push(DestQueue { dest: "p1".to_string(), jobs: vec![job(5, 11, "p1", 3, 1)] });

    mgr.handle_gossip(GossipMsg::GotResponse(999), 0);

    assert_eq!(mgr.to_gossip.len(), 1);
    assert_eq!(mgr.to_gossip[0].jobs.len(), 1);
    assert_eq!(mgr.to_gossip[0].jobs[0].broadcast.msg_id, 5);
    assert_eq!(mgr.to_gossip[0].jobs[0].run_at, 3);
    assert_eq!(mgr.to_gossip[0].jobs[0].attempts, 1);
}

#[test]
fn topology_update_after_bootstrap_is_discarded() {
    let node = test_node("n1", &["a", "b"]);
    let mut mgr = GossipManager::new(&node);
    mgr.handle_gossip(GossipMsg::Topology(strings(&["z"])), 0);
    assert_eq!(mgr.topology, strings(&["a", "b"]));
}

#[test]
fn due_jobs_are_batched_into_one_bulk_message() {
    let node = test_node("n1", &["p1", "p2"]);
    let mut mgr = GossipManager::new(&node);
    mgr.to_gossip.push(DestQueue {
        dest: "p1".to_string(),
        jobs: vec![job(1, 11, "p1", 700, 0), job(2, 22, "p1", 900, 0), job(3, 33, "p1", 100, 0)],
    });

    let out = mgr.tick(1000);

    assert_eq!(out.len(), 1);
    let m = &out[0];
    assert_eq!(m.dest, "p1");
    assert_eq!(m.src, "n1");
    match &m.body {
        RequestBody::BulkBroadcast { broadcasts } => {
            let ids: Vec<u64> = broadcasts.iter().map(|b| b.msg_id).collect();
            assert_eq!(ids, vec![1, 2, 3]);
            let values: Vec<u64> = broadcasts.iter().map(|b| b.message).collect();
            assert_eq!(values, vec![11, 22, 33]);
        }
        other => panic!("expected a bulk broadcast, got {:?}", other),
    }
    // all three attempt counters move together, and all are rescheduled
    for j in &mgr.to_gossip[0].jobs {
        assert_eq!(j.attempts, 1);
        assert_eq!(j.run_at, 1000 + RETRY_UNIT_MS);
    }
}

#[test]
fn queue_with_one_due_job_is_sent_whole() {
    let node = test_node("n1", &["p1"]);
    let mut mgr = GossipManager::new(&node);
    // one job due, one not: the whole queue is retransmitted in one message
    mgr.to_gossip.push(DestQueue {
        dest: "p1".to_string(),
        jobs: vec![job(1, 11, "p1", 50, 0), job(2, 22, "p1", 5000, 0)],
    });

    let out = mgr.tick(100);

    assert_eq!(out.len(), 1);
    match &out[0].body {
        RequestBody::BulkBroadcast { broadcasts } => assert_eq!(broadcasts.len(), 2),
        other => panic!("expected a bulk broadcast, got {:?}", other),
    }
    assert_eq!(mgr.to_gossip[0].jobs[0].attempts, 1);
    assert_eq!(mgr.to_gossip[0].jobs[1].attempts, 1);
}

#[test]
fn tick_before_any_job_is_due_sends_nothing() {
    let node = test_node("n1", &["p1"]);
    let mut mgr = GossipManager::new(&node);
    mgr.to_gossip.push(DestQueue { dest: "p1".to_string(), jobs: vec![job(1, 11, "p1", 700, 0)] });

    let out = mgr.tick(100);

    assert!(out.is_empty());
    assert_eq!(mgr.to_gossip[0].jobs[0].attempts, 0);
    assert_eq!(mgr.to_gossip[0].jobs[0].run_at, 700);
}

#[test]
fn backoff_grows_linearly_and_is_capped() {
    assert_eq!(backoff(0), 0);
    assert_eq!(backoff(1), RETRY_UNIT_MS);
    assert_eq!(backoff(3), 3 * RETRY_UNIT_MS);
    assert_eq!(backoff(60), MAX_BACKOFF_MS);
    assert_eq!(backoff(1000), MAX_BACKOFF_MS);
    assert_eq!(backoff(u64::MAX), MAX_BACKOFF_MS);
}

#[test]
fn saturating_addition_stops_at_the_top() {
    assert_eq!(sat_add(1, 2), 3);
    assert_eq!(sat_add(u64::MAX, 1), u64::MAX);
    assert_eq!(sat_add(u64::MAX - 3, 10), u64::MAX);
}

#[test]
fn record_attempt_reschedules_with_backoff() {
    let mut j = job(1, 11, "p1", 0, 0);
    j.record_attempt(500);
    assert_eq!(j.attempts, 1);
    assert_eq!(j.run_at, 500 + RETRY_UNIT_MS);
    j.record_attempt(10_000);
    assert_eq!(j.attempts, 2);
    assert_eq!(j.run_at, 10_000 + 2 * RETRY_UNIT_MS);
}

#[test]
fn repeated_gossip_for_same_destination_shares_one_queue() {
    let node = test_node("n1", &["a"]);
    let mut mgr = GossipManager::new(&node);
    mgr.enqueue_gossip(1, &Vec::new(), 0, 0);
    mgr.enqueue_gossip(2, &Vec::new(), 0, 0);
    assert_eq!(mgr.to_gossip.len(), 1);
    assert_eq!(mgr.to_gossip[0].jobs.len(), 2);
    let values: Vec<u64> = mgr.to_gossip[0].jobs.iter().map(|j| j.broadcast.message).collect();
    assert_eq!(values, vec![1, 2]);
    // message ids keep counting across rounds
    assert_eq!(mgr.to_gossip[0].jobs[0].broadcast.msg_id, 0);
    assert_eq!(mgr.to_gossip[0].jobs[1].broadcast.msg_id, 1);
}

#[test]
fn engine_retries_until_acknowledged() {
    let node = test_node("n1", &["a"]);
    let mut mgr = GossipManager::new(&node);
    mgr.enqueue_gossip(5, &Vec::new(), 0, 0);

    // first attempt at 700, rescheduled to 700 + n*1000 after n attempts
    let mut now = FIRST_DELAY_MS;
    for round in 1..4u64 {
        let out = mgr.tick(now);
        assert_eq!(out.len(), 1, "round {round} should retransmit");
        assert_eq!(mgr.to_gossip[0].jobs[0].attempts, round);
        now = mgr.to_gossip[0].jobs[0].run_at;
    }

    let msg_id = mgr.to_gossip[0].jobs[0].broadcast.msg_id;
    mgr.handle_gossip(GossipMsg::GotResponse(msg_id), now);
    assert!(mgr.to_gossip[0].jobs.is_empty());
    let out = mgr.tick(now + 100_000);
    assert!(out.is_empty());
}
