//! The gossip engine: the component that owns a per-destination queue of
//! pending broadcasts, schedules retransmission with jittered backoff,
//! batches every pending value for a peer into a single outbound message,
//! and retires entries when the peer acknowledges them.
//!
//! The engine is driven from outside by two entry points: [`GossipManager::handle_gossip`]
//! consumes one command, and [`GossipManager::tick`] performs one pass of the
//! retransmission schedule, returning the envelopes to put on the wire. The
//! caller supplies the current time in milliseconds, so the schedule itself
//! is fully specified: every transition is stated against the spec-level step
//! functions below.

use vstd::prelude::*;

use rand::Rng;

use crate::common::clone_string_vec;
use crate::common::string_vec_contains;
use crate::common::IdGenerator;
use crate::common::Message;
use crate::common::MessageModel;
use crate::common::MsgId;
use crate::common::MsgIdAble;
use crate::common::Node;
use crate::protocol::Broadcast;
use crate::protocol::BroadcastModel;
use crate::protocol::RequestBody;
use crate::protocol::RequestModel;

verus! {

/// Base delay before the first transmission attempt of a fresh job.
pub const FIRST_DELAY_MS: u64 = 700;

/// Exclusive upper bound of the random jitter added to the first schedule.
/// The jitter desynchronizes simultaneous fan-out across nodes.
pub const JITTER_BOUND_MS: u64 = 1000;

/// Unit of the linear backoff: each recorded attempt pushes the next attempt
/// this much further out.
pub const RETRY_UNIT_MS: u64 = 1000;

/// Ceiling of the backoff delay, so that queue growth stays bounded under a
/// permanent partition.
pub const MAX_BACKOFF_MS: u64 = 60000;

/// Addition on u64 that stops at the largest value instead of wrapping.
pub open spec fn sat_add64(a: u64, b: u64) -> u64 {
    if a + b > u64::MAX {
        u64::MAX
    } else {
        (a + b) as u64
    }
}

/// Exec counterpart of [`sat_add64`].
pub fn sat_add(a: u64, b: u64) -> (r: u64)
    ensures
        r == sat_add64(a, b),
{
    if a > u64::MAX - b {
        u64::MAX
    } else {
        a + b
    }
}

/// The delay after the given number of recorded attempts: linear in the
/// attempt count, capped at [`MAX_BACKOFF_MS`].
pub open spec fn backoff_ms(attempts: u64) -> u64 {
    if attempts * RETRY_UNIT_MS > MAX_BACKOFF_MS {
        MAX_BACKOFF_MS
    } else {
        (attempts * RETRY_UNIT_MS) as u64
    }
}

/// Exec counterpart of [`backoff_ms`].
pub fn backoff(attempts: u64) -> (r: u64)
    ensures
        r == backoff_ms(attempts),
{
    if attempts > MAX_BACKOFF_MS / RETRY_UNIT_MS {
        MAX_BACKOFF_MS
    } else {
        attempts * RETRY_UNIT_MS
    }
}

/// One pending retransmission obligation: a broadcast envelope owed to one
/// destination, with its retry schedule.
#[derive(Debug)]
pub struct Job {
    pub broadcast: Broadcast,
    pub dest: String,
    pub run_at: u64,
    pub attempts: u64,
}

/// Mathematical value of a pending job.
#[verifier::ext_equal]
pub struct JobModel {
    pub broadcast: BroadcastModel,
    pub dest: Seq<char>,
    pub run_at: u64,
    pub attempts: u64,
}

impl View for Job {
    type V = JobModel;

    open spec fn view(&self) -> JobModel {
        JobModel {
            broadcast: self.broadcast@,
            dest: self.dest@,
            run_at: self.run_at,
            attempts: self.attempts,
        }
    }
}

impl DeepView for Job {
    type V = JobModel;

    open spec fn deep_view(&self) -> JobModel {
        self.view()
    }
}

/// A retransmitted job: one more attempt on record, and the next attempt
/// pushed out by the backoff delay.
pub open spec fn bump_job(j: JobModel, now_ms: u64) -> JobModel {
    let attempts = sat_add64(j.attempts, 1);
    JobModel {
        broadcast: j.broadcast,
        dest: j.dest,
        run_at: sat_add64(now_ms, backoff_ms(attempts)),
        attempts,
    }
}

impl Job {
    /// Records one more transmission attempt and reschedules the job.
    pub fn record_attempt(&mut self, now_ms: u64)
        ensures
            final(self)@ == bump_job(old(self)@, now_ms),
    {
        self.attempts = sat_add(self.attempts, 1);
        self.run_at = sat_add(now_ms, backoff(self.attempts));
    }
}

/// The jobs pending for one destination, in order of creation.
#[derive(Debug)]
pub struct DestQueue {
    pub dest: String,
    pub jobs: Vec<Job>,
}

/// Mathematical value of one destination's queue.
#[verifier::ext_equal]
pub struct QueueModel {
    pub dest: Seq<char>,
    pub jobs: Seq<JobModel>,
}

impl View for DestQueue {
    type V = QueueModel;

    open spec fn view(&self) -> QueueModel {
        QueueModel { dest: self.dest@, jobs: self.jobs.deep_view() }
    }
}

impl DeepView for DestQueue {
    type V = QueueModel;

    open spec fn deep_view(&self) -> QueueModel {
        self.view()
    }
}

/// Commands the gossip engine consumes.
#[derive(Debug)]
pub enum GossipMsg {
    /// A novel value to disseminate, with the peers it has already been
    /// offered to.
    Gossip { msg: u64, already_sent_to: Vec<String> },
    /// A topology update received after bootstrap.
    Topology(Vec<String>),
    /// A peer acknowledged the broadcast sent under this message id.
    GotResponse(MsgId),
}

/// Mathematical value of a gossip command.
#[verifier::ext_equal]
pub enum GossipMsgModel {
    Gossip { msg: u64, already_sent_to: Seq<Seq<char>> },
    Topology(Seq<Seq<char>>),
    GotResponse(MsgId),
}

impl View for GossipMsg {
    type V = GossipMsgModel;

    open spec fn view(&self) -> GossipMsgModel {
        match self {
            GossipMsg::Gossip { msg, already_sent_to } => GossipMsgModel::Gossip {
                msg: *msg,
                already_sent_to: already_sent_to.deep_view(),
            },
            GossipMsg::Topology(peers) => GossipMsgModel::Topology(peers.deep_view()),
            GossipMsg::GotResponse(id) => GossipMsgModel::GotResponse(*id),
        }
    }
}

impl DeepView for GossipMsg {
    type V = GossipMsgModel;

    open spec fn deep_view(&self) -> GossipMsgModel {
        self.view()
    }
}

/// The gossip engine's state: this node's id, the peers it gossips to, its
/// message-id counter, and the pending jobs grouped by destination.
#[derive(Debug)]
pub struct GossipManager {
    pub node_id: String,
    pub topology: Vec<String>,
    pub ids: IdGenerator,
    pub to_gossip: Vec<DestQueue>,
}

/// Mathematical value of the engine's state.
#[verifier::ext_equal]
pub struct GossipModel {
    pub node_id: Seq<char>,
    pub topology: Seq<Seq<char>>,
    pub next_id: u64,
    pub queues: Seq<QueueModel>,
}

impl View for GossipManager {
    type V = GossipModel;

    open spec fn view(&self) -> GossipModel {
        GossipModel {
            node_id: self.node_id@,
            topology: self.topology.deep_view(),
            next_id: self.ids@,
            queues: self.to_gossip.deep_view(),
        }
    }
}

/// Destinations are queue keys: no two queues serve the same destination.
pub open spec fn distinct_dests(queues: Seq<QueueModel>) -> bool {
    forall|k1: int, k2: int|
        0 <= k1 < k2 < queues.len() ==> queues[k1].dest != queues[k2].dest
}

impl GossipModel {
    /// Well-formedness of the engine's state.
    pub open spec fn wf(self) -> bool {
        distinct_dests(self.queues)
    }
}

/// The destinations one gossip round forwards a value to: the peers that have
/// not already been offered it, in roster order.
pub open spec fn fanout(topology: Seq<Seq<char>>, already_sent_to: Seq<Seq<char>>) -> Seq<
    Seq<char>,
> {
    topology.filter(|d: Seq<char>| !already_sent_to.contains(d))
}

/// The fresh job created for one fanout destination.
pub open spec fn gossip_job(
    dest: Seq<char>,
    msg_id: MsgId,
    value: u64,
    already_sent_to: Seq<Seq<char>>,
    run_at: u64,
) -> JobModel {
    JobModel {
        broadcast: BroadcastModel { msg_id, message: value, already_sent_to },
        dest,
        run_at,
        attempts: 0,
    }
}

/// The jobs of one gossip round: one per fanout destination, with message ids
/// allocated in fanout order starting at `base_id`.
pub open spec fn gossip_jobs(
    fanout_set: Seq<Seq<char>>,
    base_id: MsgId,
    value: u64,
    already_sent_to: Seq<Seq<char>>,
    run_at: u64,
) -> Seq<JobModel> {
    Seq::new(
        fanout_set.len(),
        |i: int| gossip_job(fanout_set[i], (base_id + i) as u64, value, already_sent_to, run_at),
    )
}

/// A job filed under its destination: appended to that destination's queue,
/// or opening a new queue at the end if the destination has none yet.
pub open spec fn enqueue_job(queues: Seq<QueueModel>, job: JobModel) -> Seq<QueueModel>
    decreases queues.len(),
{
    if queues.len() == 0 {
        seq![QueueModel { dest: job.dest, jobs: seq![job] }]
    } else if queues[0].dest == job.dest {
        seq![QueueModel { dest: queues[0].dest, jobs: queues[0].jobs.push(job) }] + queues.skip(1)
    } else {
        seq![queues[0]] + enqueue_job(queues.skip(1), job)
    }
}

/// All the given jobs filed in order.
pub open spec fn enqueue_jobs(queues: Seq<QueueModel>, jobs: Seq<JobModel>) -> Seq<QueueModel>
    decreases jobs.len(),
{
    if jobs.len() == 0 {
        queues
    } else {
        enqueue_jobs(enqueue_job(queues, jobs[0]), jobs.skip(1))
    }
}

/// One whole gossip round: compute the fanout, extend the already-sent-to set
/// by it, and file one fresh job per fanout destination, all scheduled at
/// `now + FIRST_DELAY_MS + jitter`.
pub open spec fn gossip_step(
    m: GossipModel,
    value: u64,
    already_sent_to: Seq<Seq<char>>,
    now_ms: u64,
    jitter_ms: u64,
) -> GossipModel {
    let fo = fanout(m.topology, already_sent_to);
    let full = already_sent_to + fo;
    let run_at = sat_add64(now_ms, sat_add64(FIRST_DELAY_MS, jitter_ms));
    GossipModel {
        node_id: m.node_id,
        topology: m.topology,
        next_id: (m.next_id + fo.len()) as u64,
        queues: enqueue_jobs(m.queues, gossip_jobs(fo, m.next_id, value, full, run_at)),
    }
}

/// The jobs that survive an acknowledgment of `id`: exactly those whose
/// envelope carries a different message id.
pub open spec fn retire_jobs(jobs: Seq<JobModel>, id: MsgId) -> Seq<JobModel> {
    jobs.filter(|j: JobModel| j.broadcast.msg_id != id)
}

/// An acknowledgment applied to the whole state: every queue keeps exactly
/// its jobs whose message id differs from the acknowledged one.
pub open spec fn retire_step(m: GossipModel, id: MsgId) -> GossipModel {
    GossipModel {
        queues: m.queues.map_values(
            |q: QueueModel| QueueModel { dest: q.dest, jobs: retire_jobs(q.jobs, id) },
        ),
        ..m
    }
}

/// Whether a queue holds a job whose attempt time has come.
pub open spec fn queue_due(q: QueueModel, now_ms: u64) -> bool {
    exists|i: int| 0 <= i < q.jobs.len() && q.jobs[i].run_at <= now_ms
}

/// A whole queue retransmitted: every job records one more attempt.
pub open spec fn bump_queue(q: QueueModel, now_ms: u64) -> QueueModel {
    QueueModel { dest: q.dest, jobs: q.jobs.map_values(|j: JobModel| bump_job(j, now_ms)) }
}

/// The one outbound message a due queue contributes: every pending envelope
/// for that destination, batched.
pub open spec fn bulk_message(node_id: Seq<char>, q: QueueModel) -> MessageModel<RequestModel> {
    MessageModel {
        body: RequestModel::BulkBroadcast {
            broadcasts: q.jobs.map_values(|j: JobModel| j.broadcast),
        },
        dest: q.dest,
        src: node_id,
    }
}

/// The queues after one scheduled tick: every due queue is retransmitted
/// whole; the others are untouched.
pub open spec fn tick_queues(queues: Seq<QueueModel>, now_ms: u64) -> Seq<QueueModel> {
    queues.map_values(
        |q: QueueModel|
            if queue_due(q, now_ms) {
                bump_queue(q, now_ms)
            } else {
                q
            },
    )
}

/// The predicate picking the queues that are due at the given time.
pub open spec fn due_pred(now_ms: u64) -> spec_fn(QueueModel) -> bool {
    |q: QueueModel| queue_due(q, now_ms)
}

/// The function batching one queue into its outbound message.
pub open spec fn bulk_fn(node_id: Seq<char>) -> spec_fn(QueueModel) -> MessageModel<
    RequestModel,
> {
    |q: QueueModel| bulk_message(node_id, q)
}

/// The predicate picking the messages addressed to one destination.
pub open spec fn dest_pred(dest: Seq<char>) -> spec_fn(MessageModel<RequestModel>) -> bool {
    |mm: MessageModel<RequestModel>| mm.dest == dest
}

/// The messages one scheduled tick emits: one bulk message per due queue, in
/// queue order.
pub open spec fn tick_messages(m: GossipModel, now_ms: u64) -> Seq<MessageModel<RequestModel>> {
    m.queues.filter(due_pred(now_ms)).map_values(bulk_fn(m.node_id))
}

/// Filing a job whose destination owns the queue at index `i` updates exactly
/// that queue.
proof fn lemma_enqueue_job_found(queues: Seq<QueueModel>, job: JobModel, i: int)
    requires
        0 <= i < queues.len(),
        queues[i].dest == job.dest,
        forall|k: int| 0 <= k < i ==> queues[k].dest != job.dest,
    ensures
        enqueue_job(queues, job) == queues.update(
            i,
            QueueModel { dest: queues[i].dest, jobs: queues[i].jobs.push(job) },
        ),
    decreases i,
{
    if i == 0 {
        assert(enqueue_job(queues, job) =~= queues.update(
            0,
            QueueModel { dest: queues[0].dest, jobs: queues[0].jobs.push(job) },
        ));
    } else {
        lemma_enqueue_job_found(queues.skip(1), job, i - 1);
        assert(seq![queues[0]] + queues.skip(1).update(
            i - 1,
            QueueModel { dest: queues[i].dest, jobs: queues[i].jobs.push(job) },
        ) =~= queues.update(i, QueueModel { dest: queues[i].dest, jobs: queues[i].jobs.push(job) }));
    }
}

/// Filing a job whose destination owns no queue yet opens a new queue at the
/// end.
proof fn lemma_enqueue_job_missing(queues: Seq<QueueModel>, job: JobModel)
    requires
        forall|k: int| 0 <= k < queues.len() ==> queues[k].dest != job.dest,
    ensures
        enqueue_job(queues, job) == queues.push(QueueModel { dest: job.dest, jobs: seq![job] }),
    decreases queues.len(),
{
    if queues.len() == 0 {
        assert(enqueue_job(queues, job) =~= queues.push(
            QueueModel { dest: job.dest, jobs: seq![job] },
        ));
    } else {
        lemma_enqueue_job_missing(queues.skip(1), job);
        assert(seq![queues[0]] + queues.skip(1).push(
            QueueModel { dest: job.dest, jobs: seq![job] },
        ) =~= queues.push(QueueModel { dest: job.dest, jobs: seq![job] }));
    }
}

/// Filing jobs one after another agrees with filing them as a batch.
proof fn lemma_enqueue_jobs_snoc(queues: Seq<QueueModel>, jobs: Seq<JobModel>, job: JobModel)
    ensures
        enqueue_jobs(queues, jobs.push(job)) == enqueue_job(enqueue_jobs(queues, jobs), job),
    decreases jobs.len(),
{
    if jobs.len() == 0 {
        assert(jobs.push(job)[0] == job);
        assert(jobs.push(job).skip(1) =~= Seq::<JobModel>::empty());
        assert(enqueue_jobs(queues, jobs.push(job)) == enqueue_jobs(
            enqueue_job(queues, job),
            Seq::<JobModel>::empty(),
        ));
        assert(enqueue_jobs(enqueue_job(queues, job), Seq::<JobModel>::empty()) == enqueue_job(
            queues,
            job,
        ));
    } else {
        assert(jobs.push(job)[0] == jobs[0]);
        assert(jobs.push(job).skip(1) =~= jobs.skip(1).push(job));
        lemma_enqueue_jobs_snoc(enqueue_job(queues, jobs[0]), jobs.skip(1), job);
    }
}

/// Appends a job to its destination's queue, opening the queue if the
/// destination has none yet.
#[verifier::loop_isolation(false)]
fn file_job(queues: &mut Vec<DestQueue>, job: Job)
    ensures
        final(queues).deep_view() == enqueue_job(old(queues).deep_view(), job@),
{
    let ghost q0 = queues.deep_view();
    let n = queues.len();
    let mut i: usize = 0;
    while i < n
        invariant
            i <= n,
            n == queues@.len(),
            queues.deep_view() == q0,
            forall|k: int| 0 <= k < i ==> q0[k].dest != job@.dest,
        decreases n - i,
    {
        if queues[i].dest == job.dest {
            proof {
                assert(q0[i as int].dest == queues[i as int]@.dest);
            }
            let mut entry = queues.remove(i);
            entry.jobs.push(job);
            proof {
                assert(entry@ =~= (QueueModel { dest: q0[i as int].dest, jobs: q0[i as int].jobs.push(job@) }));
            }
            queues.insert(i, entry);
            proof {
                lemma_enqueue_job_found(q0, job@, i as int);
                assert(queues.deep_view() =~= q0.update(
                    i as int,
                    QueueModel { dest: q0[i as int].dest, jobs: q0[i as int].jobs.push(job@) },
                ));
            }
            return;
        }
        i = i + 1;
    }
    let dest = job.dest.clone();
    let mut jobs: Vec<Job> = Vec::new();
    let ghost jm = job@;
    jobs.push(job);
    let entry = DestQueue { dest, jobs };
    proof {
        assert(entry@ =~= (QueueModel { dest: jm.dest, jobs: seq![jm] }));
    }
    queues.push(entry);
    proof {
        lemma_enqueue_job_missing(q0, jm);
        assert(queues.deep_view() =~= q0.push(QueueModel { dest: jm.dest, jobs: seq![jm] }));
    }
}

/// Returns a jitter sample below [`JITTER_BOUND_MS`].
///
/// Relies on rand's `Rng::gen_range`, which returns a sample within the given
/// range (here `0..JITTER_BOUND_MS`). The sample is random, so nothing more
/// is assumed of it.
#[verifier::external_body]
fn gen_jitter() -> (r: u64)
    ensures
        r < JITTER_BOUND_MS,
{
    rand::thread_rng().gen_range(0..JITTER_BOUND_MS)
}

impl GossipManager {
    /// An engine for the given node: its id and peer roster, a fresh
    /// message-id counter, and no pending jobs. Message ids allocated here
    /// need only be unique among pending jobs, so the engine owns its own
    /// counter.
    pub fn new(node: &Node) -> (r: Self)
        ensures
            r@.node_id == node@.id,
            r@.topology == node@.peers,
            r@.next_id == 0,
            r@.queues == Seq::<QueueModel>::empty(),
            r@.wf(),
    {
        let r = GossipManager {
            node_id: node.id.clone(),
            topology: clone_string_vec(&node.peers),
            ids: IdGenerator::new(),
            to_gossip: Vec::new(),
        };
        proof {
            assert(r@.queues =~= Seq::<QueueModel>::empty());
        }
        r
    }

    /// One gossip round for a value, with the jitter sample given by the
    /// caller: computes the fanout, files one fresh job per fanout
    /// destination, and leaves everything else untouched.
    #[verifier::loop_isolation(false)]
    pub fn enqueue_gossip(
        &mut self,
        msg: u64,
        already_sent_to: &Vec<String>,
        now_ms: u64,
        jitter_ms: u64,
    )
        requires
            old(self)@.next_id + old(self)@.topology.len() <= u64::MAX,
        ensures
            final(self)@ == gossip_step(
                old(self)@,
                msg,
                already_sent_to.deep_view(),
                now_ms,
                jitter_ms,
            ),
            old(self)@.wf() ==> final(self)@.wf(),
    {
        proof {
            if self@.wf() {
                lemma_gossip_step_preserves_wf(
                    self@,
                    msg,
                    already_sent_to.deep_view(),
                    now_ms,
                    jitter_ms,
                );
            }
        }
        let ghost m0 = self@;
        let ghost ast = already_sent_to.deep_view();
        let ghost pred = |d: Seq<char>| !ast.contains(d);

        let mut targets: Vec<String> = Vec::new();
        let tn = self.topology.len();
        let mut i: usize = 0;
        while i < tn
            invariant
                i <= tn,
                targets.deep_view() == m0.topology.take(i as int).filter(pred),
            decreases tn - i,
        {
            let t = &self.topology[i];
            proof {
                assert(m0.topology[i as int] == t@);
                m0.topology.lemma_take_succ_push(i as int);
                m0.topology.take(i as int).lemma_filter_push(t@, pred);
            }
            let ghost prev = targets.deep_view();
            if !string_vec_contains(already_sent_to, t) {
                targets.push(t.clone());
                proof {
                    assert(targets.deep_view() =~= prev.push(t@));
                }
            }
            i = i + 1;
        }
        proof {
            m0.topology.lemma_take_len();
            assert(targets.deep_view() == fanout(m0.topology, ast));
            m0.topology.lemma_filter_len(pred);
        }

        let mut full = clone_string_vec(already_sent_to);
        let mut extra = clone_string_vec(&targets);
        full.append(&mut extra);
        proof {
            assert(full.deep_view() =~= ast + targets.deep_view());
        }

        let run_at = sat_add(now_ms, sat_add(FIRST_DELAY_MS, jitter_ms));
        let ghost jobs = gossip_jobs(
            targets.deep_view(),
            m0.next_id,
            msg,
            full.deep_view(),
            run_at,
        );

        let kn = targets.len();
        let mut k: usize = 0;
        while k < kn
            invariant
                k <= kn,
                self.node_id == old(self).node_id,
                self.topology == old(self).topology,
                self.ids@ == m0.next_id + k,
                self.to_gossip.deep_view() == enqueue_jobs(m0.queues, jobs.take(k as int)),
            decreases kn - k,
        {
            let id = self.ids.generate_msg_id();
            let dest = targets[k].clone();
            let b = Broadcast { msg_id: id, message: msg, already_sent_to: clone_string_vec(&full) };
            let job = Job { broadcast: b, dest, run_at, attempts: 0 };
            proof {
                assert(job@ =~= jobs[k as int]);
                jobs.lemma_take_succ_push(k as int);
                lemma_enqueue_jobs_snoc(m0.queues, jobs.take(k as int), jobs[k as int]);
            }
            file_job(&mut self.to_gossip, job);
            k = k + 1;
        }
        proof {
            jobs.lemma_take_len();
            assert(self@ =~= gossip_step(m0, msg, ast, now_ms, jitter_ms));
        }
    }

    /// Retires every job whose envelope was sent under the acknowledged
    /// message id; every other job stays, in order.
    #[verifier::loop_isolation(false)]
    pub fn retire(&mut self, in_response_to: MsgId)
        ensures
            final(self)@ == retire_step(old(self)@, in_response_to),
            old(self)@.wf() ==> final(self)@.wf(),
    {
        proof {
            if self@.wf() {
                lemma_retire_step_preserves_wf(self@, in_response_to);
            }
        }
        let ghost m0 = self@;
        let ghost pred = |j: JobModel| j.broadcast.msg_id != in_response_to;
        let n = self.to_gossip.len();
        let mut i: usize = 0;
        while i < n
            invariant
                i <= n,
                self.node_id == old(self).node_id,
                self.topology == old(self).topology,
                self.ids == old(self).ids,
                self.to_gossip@.len() == n,
                forall|k: int|
                    i <= k < n ==> self.to_gossip.deep_view()[k] == m0.queues[k],
                forall|k: int|
                    0 <= k < i ==> self.to_gossip.deep_view()[k] == (QueueModel {
                        dest: m0.queues[k].dest,
                        jobs: retire_jobs(m0.queues[k].jobs, in_response_to),
                    }),
            decreases n - i,
        {
            let ghost pre = self.to_gossip.deep_view();
            let mut entry = self.to_gossip.remove(i);
            let ghost q0 = entry@;
            let mut kept: Vec<Job> = Vec::new();
            let jn = entry.jobs.len();
            let mut j: usize = 0;
            while j < jn
                invariant
                    j <= jn,
                    entry@ == q0,
                    jn == entry.jobs@.len(),
                    kept.deep_view() == q0.jobs.take(j as int).filter(pred),
                decreases jn - j,
            {
                proof {
                    assert(q0.jobs[j as int] == entry.jobs[j as int]@);
                    q0.jobs.lemma_take_succ_push(j as int);
                    q0.jobs.take(j as int).lemma_filter_push(q0.jobs[j as int], pred);
                }
                let ghost prev = kept.deep_view();
                if entry.jobs[j].broadcast.msg_id != in_response_to {
                    let copy = entry.jobs[j].duplicate();
                    kept.push(copy);
                    proof {
                        assert(kept.deep_view() =~= prev.push(q0.jobs[j as int]));
                    }
                }
                j = j + 1;
            }
            proof {
                q0.jobs.lemma_take_len();
            }
            entry.jobs = kept;
            proof {
                assert(entry@ =~= (QueueModel {
                    dest: q0.dest,
                    jobs: retire_jobs(q0.jobs, in_response_to),
                }));
            }
            self.to_gossip.insert(i, entry);
            proof {
                assert(self.to_gossip.deep_view() =~= pre.update(
                    i as int,
                    QueueModel { dest: q0.dest, jobs: retire_jobs(q0.jobs, in_response_to) },
                ));
            }
            i = i + 1;
        }
        proof {
            assert(self@.queues =~= retire_step(m0, in_response_to).queues);
            assert(self@ =~= retire_step(m0, in_response_to));
        }
    }

    /// Consumes one gossip command at the given time.
    ///
    /// A `Gossip` command runs one gossip round with a fresh random jitter; a
    /// `GotResponse` command retires the acknowledged jobs. A topology update
    /// received after bootstrap is deliberately discarded: the bootstrap
    /// roster stays authoritative for fanout.
    pub fn handle_gossip(&mut self, cmd: GossipMsg, now_ms: u64)
        requires
            cmd matches GossipMsg::Gossip { .. } ==> old(self)@.next_id + old(
                self,
            )@.topology.len() <= u64::MAX,
        ensures
            (cmd matches GossipMsg::Gossip { msg, already_sent_to } ==> exists|jit: u64|
                jit < JITTER_BOUND_MS && final(self)@ == gossip_step(
                    old(self)@,
                    msg,
                    already_sent_to.deep_view(),
                    now_ms,
                    jit,
                )),
            (cmd matches GossipMsg::Topology(peers) ==> final(self)@ == old(self)@),
            (cmd matches GossipMsg::GotResponse(id) ==> final(self)@ == retire_step(
                old(self)@,
                id,
            )),
            old(self)@.wf() ==> final(self)@.wf(),
    {
        match cmd {
            GossipMsg::Gossip { msg, already_sent_to } => {
                let jitter = gen_jitter();
                self.enqueue_gossip(msg, &already_sent_to, now_ms, jitter);
                proof {
                    assert(jitter < JITTER_BOUND_MS && self@ == gossip_step(
                        old(self)@,
                        msg,
                        already_sent_to.deep_view(),
                        now_ms,
                        jitter,
                    ));
                }
            },
            GossipMsg::Topology(_peers) => {},
            GossipMsg::GotResponse(id) => {
                self.retire(id);
            },
        }
    }
}

impl DestQueue {
    /// Whether any job of this queue has reached its attempt time.
    #[verifier::loop_isolation(false)]
    pub fn is_due(&self, now_ms: u64) -> (r: bool)
        ensures
            r == queue_due(self@, now_ms),
    {
        let n = self.jobs.len();
        let mut i: usize = 0;
        while i < n
            invariant
                i <= n,
                forall|k: int| 0 <= k < i ==> self.jobs.deep_view()[k].run_at > now_ms,
            decreases n - i,
        {
            if self.jobs[i].run_at <= now_ms {
                proof {
                    assert(self@.jobs[i as int].run_at <= now_ms);
                }
                return true;
            }
            i = i + 1;
        }
        false
    }
}

impl GossipManager {
    /// One pass of the retransmission schedule: every queue holding a job
    /// whose attempt time has come is sent whole, as one bulk message to its
    /// destination, and every job of that queue records the attempt and is
    /// rescheduled. Queues with no due job are untouched, and so is
    /// everything else.
    #[verifier::loop_isolation(false)]
    pub fn tick(&mut self, now_ms: u64) -> (out: Vec<Message<RequestBody>>)
        ensures
            final(self)@.node_id == old(self)@.node_id,
            final(self)@.topology == old(self)@.topology,
            final(self)@.next_id == old(self)@.next_id,
            final(self)@.queues == tick_queues(old(self)@.queues, now_ms),
            out.deep_view() == tick_messages(old(self)@, now_ms),
            old(self)@.wf() ==> final(self)@.wf(),
    {
        proof {
            if self@.wf() {
                lemma_tick_preserves_wf(self@.queues, now_ms);
            }
        }
        let ghost m0 = self@;
        let ghost duep = due_pred(now_ms);
        let ghost bulkf = bulk_fn(m0.node_id);
        let mut out: Vec<Message<RequestBody>> = Vec::new();
        let n = self.to_gossip.len();
        let mut i: usize = 0;
        while i < n
            invariant
                i <= n,
                n == self.to_gossip@.len(),
                self.node_id == old(self).node_id,
                self.topology == old(self).topology,
                self.ids@ == m0.next_id,
                forall|k: int| i <= k < n ==> self.to_gossip.deep_view()[k] == m0.queues[k],
                forall|k: int|
                    0 <= k < i ==> self.to_gossip.deep_view()[k] == (if queue_due(
                        m0.queues[k],
                        now_ms,
                    ) {
                        bump_queue(m0.queues[k], now_ms)
                    } else {
                        m0.queues[k]
                    }),
                out.deep_view() == m0.queues.take(i as int).filter(duep).map_values(bulkf),
            decreases n - i,
        {
            proof {
                m0.queues.lemma_take_succ_push(i as int);
                m0.queues.take(i as int).lemma_filter_push(m0.queues[i as int], duep);
            }
            let due = self.to_gossip[i].is_due(now_ms);
            if due {
                let ghost pre = self.to_gossip.deep_view();
                let mut entry = self.to_gossip.remove(i);
                let ghost q0 = entry@;
                let mut broadcasts: Vec<Broadcast> = Vec::new();
                let mut bumped: Vec<Job> = Vec::new();
                let jn = entry.jobs.len();
                let mut j: usize = 0;
                while j < jn
                    invariant
                        j <= jn,
                        jn == entry.jobs@.len(),
                        entry@ == q0,
                        broadcasts.deep_view() == q0.jobs.take(j as int).map_values(
                            |jm: JobModel| jm.broadcast,
                        ),
                        bumped.deep_view() == q0.jobs.take(j as int).map_values(
                            |jm: JobModel| bump_job(jm, now_ms),
                        ),
                    decreases jn - j,
                {
                    proof {
                        assert(q0.jobs[j as int] == entry.jobs[j as int]@);
                        q0.jobs.lemma_take_succ_push(j as int);
                        q0.jobs.take(j as int).lemma_push_map_commute(
                            |jm: JobModel| jm.broadcast,
                            q0.jobs[j as int],
                        );
                        q0.jobs.take(j as int).lemma_push_map_commute(
                            |jm: JobModel| bump_job(jm, now_ms),
                            q0.jobs[j as int],
                        );
                    }
                    let b = entry.jobs[j].broadcast.duplicate();
                    broadcasts.push(b);
                    let mut nj = entry.jobs[j].duplicate();
                    nj.record_attempt(now_ms);
                    bumped.push(nj);
                    j = j + 1;
                }
                proof {
                    q0.jobs.lemma_take_len();
                }
                let m = Message {
                    body: RequestBody::BulkBroadcast { broadcasts },
                    dest: entry.dest.clone(),
                    src: self.node_id.clone(),
                };
                proof {
                    assert(m.deep_view() =~= bulk_message(m0.node_id, q0));
                    m0.queues.take(i as int).filter(duep).lemma_push_map_commute(
                        bulkf,
                        m0.queues[i as int],
                    );
                }
                let ghost out0 = out.deep_view();
                out.push(m);
                proof {
                    assert(out.deep_view() =~= out0.push(bulk_message(m0.node_id, q0)));
                }
                entry.jobs = bumped;
                proof {
                    assert(entry@ =~= bump_queue(q0, now_ms));
                }
                self.to_gossip.insert(i, entry);
                proof {
                    assert(self.to_gossip.deep_view() =~= pre.update(
                        i as int,
                        bump_queue(q0, now_ms),
                    ));
                }
            }
            i = i + 1;
        }
        proof {
            m0.queues.lemma_take_len();
            assert(self@.queues =~= tick_queues(m0.queues, now_ms));
            assert(out.deep_view() == tick_messages(m0, now_ms));
        }
        out
    }
}

impl Job {
    /// A copy of this job, field for field.
    pub fn duplicate(&self) -> (r: Job)
        ensures
            r@ == self@,
    {
        Job {
            broadcast: self.broadcast.duplicate(),
            dest: self.dest.clone(),
            run_at: self.run_at,
            attempts: self.attempts,
        }
    }
}

/// Law: a gossip round forwards a value exactly to the peers that have not
/// already been offered it — a destination is in the fanout if and only if it
/// is a peer and is not in the already-sent-to set.
pub proof fn lemma_fanout_exclusion(
    topology: Seq<Seq<char>>,
    already_sent_to: Seq<Seq<char>>,
    dest: Seq<char>,
)
    ensures
        fanout(topology, already_sent_to).contains(dest) <==> (topology.contains(dest)
            && !already_sent_to.contains(dest)),
{
    let pred = |d: Seq<char>| !already_sent_to.contains(d);
    if fanout(topology, already_sent_to).contains(dest) {
        let i = choose|i: int|
            0 <= i < fanout(topology, already_sent_to).len() && fanout(topology, already_sent_to)[i]
                == dest;
        topology.lemma_filter_pred(pred, i);
        topology.lemma_filter_contains_rev(pred, dest);
    }
    if topology.contains(dest) && !already_sent_to.contains(dest) {
        let i = choose|i: int| 0 <= i < topology.len() && topology[i] == dest;
        topology.lemma_filter_contains(pred, i);
    }
}

/// Law: an acknowledgment retires exactly the jobs sent under its message id.
/// The queue count and every destination are kept, and a job survives in its
/// queue if and only if it was pending there and carries a different id.
pub proof fn lemma_retire_exact(m: GossipModel, id: MsgId, k: int, j: JobModel)
    requires
        0 <= k < m.queues.len(),
    ensures
        retire_step(m, id).queues.len() == m.queues.len(),
        retire_step(m, id).queues[k].dest == m.queues[k].dest,
        retire_step(m, id).queues[k].jobs.contains(j) <==> (m.queues[k].jobs.contains(j)
            && j.broadcast.msg_id != id),
{
    let pred = |jm: JobModel| jm.broadcast.msg_id != id;
    let jobs = m.queues[k].jobs;
    if jobs.filter(pred).contains(j) {
        let i = choose|i: int| 0 <= i < jobs.filter(pred).len() && jobs.filter(pred)[i] == j;
        jobs.lemma_filter_pred(pred, i);
        jobs.lemma_filter_contains_rev(pred, j);
    }
    if jobs.contains(j) && pred(j) {
        let i = choose|i: int| 0 <= i < jobs.len() && jobs[i] == j;
        jobs.lemma_filter_contains(pred, i);
    }
}

/// A filter that keeps every element returns the sequence unchanged.
proof fn lemma_filter_all<A>(s: Seq<A>, pred: spec_fn(A) -> bool)
    requires
        forall|i: int| 0 <= i < s.len() ==> pred(#[trigger] s[i]),
    ensures
        s.filter(pred) == s,
    decreases s.len(),
{
    reveal(Seq::filter);
    if s.len() > 0 {
        lemma_filter_all(s.drop_last(), pred);
        assert(s.drop_last().push(s.last()) =~= s);
    }
}

/// Law: an acknowledgment that matches no pending job changes nothing.
pub proof fn lemma_retire_unknown(m: GossipModel, id: MsgId)
    requires
        forall|k: int, i: int|
            0 <= k < m.queues.len() && 0 <= i < m.queues[k].jobs.len()
                ==> #[trigger] m.queues[k].jobs[i].broadcast.msg_id != id,
    ensures
        retire_step(m, id) == m,
{
    let pred = |jm: JobModel| jm.broadcast.msg_id != id;
    assert forall|k: int| 0 <= k < m.queues.len() implies retire_step(m, id).queues[k]
        == m.queues[k] by {
        lemma_filter_all(m.queues[k].jobs, pred);
        assert(retire_step(m, id).queues[k] =~= m.queues[k]);
    }
    assert(retire_step(m, id).queues =~= m.queues);
    assert(retire_step(m, id) =~= m);
}

/// Law (toward convergence): a scheduled tick never drops a job. Every queue
/// keeps its length, its destination, and every job's envelope; only the
/// attempt count and the schedule move.
pub proof fn lemma_tick_preserves_jobs(queues: Seq<QueueModel>, now_ms: u64, k: int)
    requires
        0 <= k < queues.len(),
    ensures
        tick_queues(queues, now_ms).len() == queues.len(),
        tick_queues(queues, now_ms)[k].dest == queues[k].dest,
        tick_queues(queues, now_ms)[k].jobs.len() == queues[k].jobs.len(),
        forall|i: int|
            0 <= i < queues[k].jobs.len() ==> #[trigger] tick_queues(queues, now_ms)[k].jobs[i].broadcast
                == queues[k].jobs[i].broadcast && tick_queues(queues, now_ms)[k].jobs[i].dest
                == queues[k].jobs[i].dest,
{
}

/// Filing one job keeps destinations distinct.
pub proof fn lemma_enqueue_job_preserves_wf(queues: Seq<QueueModel>, job: JobModel)
    requires
        distinct_dests(queues),
    ensures
        distinct_dests(enqueue_job(queues, job)),
{
    if exists|k: int| 0 <= k < queues.len() && queues[k].dest == job.dest {
        let k = choose|k: int| 0 <= k < queues.len() && queues[k].dest == job.dest;
        assert(forall|k2: int| 0 <= k2 < k ==> queues[k2].dest != job.dest);
        lemma_enqueue_job_found(queues, job, k);
    } else {
        lemma_enqueue_job_missing(queues, job);
    }
}

/// Filing any batch of jobs keeps destinations distinct.
pub proof fn lemma_enqueue_jobs_preserves_wf(queues: Seq<QueueModel>, jobs: Seq<JobModel>)
    requires
        distinct_dests(queues),
    ensures
        distinct_dests(enqueue_jobs(queues, jobs)),
    decreases jobs.len(),
{
    if jobs.len() > 0 {
        lemma_enqueue_job_preserves_wf(queues, jobs[0]);
        lemma_enqueue_jobs_preserves_wf(enqueue_job(queues, jobs[0]), jobs.skip(1));
    }
}

/// Law: a gossip round keeps destinations distinct.
pub proof fn lemma_gossip_step_preserves_wf(
    m: GossipModel,
    value: u64,
    already_sent_to: Seq<Seq<char>>,
    now_ms: u64,
    jitter_ms: u64,
)
    requires
        m.wf(),
    ensures
        gossip_step(m, value, already_sent_to, now_ms, jitter_ms).wf(),
{
    let fo = fanout(m.topology, already_sent_to);
    let full = already_sent_to + fo;
    let run_at = sat_add64(now_ms, sat_add64(FIRST_DELAY_MS, jitter_ms));
    lemma_enqueue_jobs_preserves_wf(m.queues, gossip_jobs(fo, m.next_id, value, full, run_at));
}

/// Law: an acknowledgment keeps destinations distinct.
pub proof fn lemma_retire_step_preserves_wf(m: GossipModel, id: MsgId)
    requires
        m.wf(),
    ensures
        retire_step(m, id).wf(),
{
}

/// Law: a scheduled tick keeps destinations distinct.
pub proof fn lemma_tick_preserves_wf(queues: Seq<QueueModel>, now_ms: u64)
    requires
        distinct_dests(queues),
    ensures
        distinct_dests(tick_queues(queues, now_ms)),
{
}

/// No queue serves the destination: a tick emits no message for it.
proof fn lemma_no_bulk_for_dest(
    queues: Seq<QueueModel>,
    node_id: Seq<char>,
    now_ms: u64,
    dest: Seq<char>,
)
    requires
        forall|k: int| 0 <= k < queues.len() ==> queues[k].dest != dest,
    ensures
        queues.filter(due_pred(now_ms)).map_values(bulk_fn(node_id)).filter(dest_pred(dest))
            == Seq::<MessageModel<RequestModel>>::empty(),
    decreases queues.len(),
{
    reveal(Seq::filter);
    if queues.len() == 0 {
        assert(queues.filter(due_pred(now_ms)).map_values(bulk_fn(node_id)).filter(
            dest_pred(dest),
        ) =~= Seq::<MessageModel<RequestModel>>::empty());
    } else {
        let dl = queues.drop_last();
        let last = queues.last();
        lemma_no_bulk_for_dest(dl, node_id, now_ms, dest);
        assert(dl.push(last) =~= queues);
        dl.lemma_filter_push(last, due_pred(now_ms));
        if queue_due(last, now_ms) {
            dl.filter(due_pred(now_ms)).lemma_push_map_commute(bulk_fn(node_id), last);
            dl.filter(due_pred(now_ms)).map_values(bulk_fn(node_id)).lemma_filter_push(
                bulk_message(node_id, last),
                dest_pred(dest),
            );
        }
    }
}

/// The one due queue for a destination contributes exactly one message: the
/// bulk of all its envelopes.
proof fn lemma_bulk_for_dest(queues: Seq<QueueModel>, node_id: Seq<char>, now_ms: u64, k: int)
    requires
        distinct_dests(queues),
        0 <= k < queues.len(),
        queue_due(queues[k], now_ms),
    ensures
        queues.filter(due_pred(now_ms)).map_values(bulk_fn(node_id)).filter(
            dest_pred(queues[k].dest),
        ) == seq![bulk_message(node_id, queues[k])],
    decreases queues.len(),
{
    let d = queues[k].dest;
    let dl = queues.drop_last();
    let last = queues.last();
    assert(dl.push(last) =~= queues);
    dl.lemma_filter_push(last, due_pred(now_ms));
    if k == queues.len() - 1 {
        lemma_no_bulk_for_dest(dl, node_id, now_ms, d);
        dl.filter(due_pred(now_ms)).lemma_push_map_commute(bulk_fn(node_id), last);
        dl.filter(due_pred(now_ms)).map_values(bulk_fn(node_id)).lemma_filter_push(
            bulk_message(node_id, last),
            dest_pred(d),
        );
        assert(Seq::<MessageModel<RequestModel>>::empty().push(bulk_message(node_id, last))
            =~= seq![bulk_message(node_id, last)]);
    } else {
        lemma_bulk_for_dest(dl, node_id, now_ms, k);
        assert(last.dest != d);
        if queue_due(last, now_ms) {
            dl.filter(due_pred(now_ms)).lemma_push_map_commute(bulk_fn(node_id), last);
            dl.filter(due_pred(now_ms)).map_values(bulk_fn(node_id)).lemma_filter_push(
                bulk_message(node_id, last),
                dest_pred(d),
            );
        }
    }
}

/// Filing one job disturbs no queue already filed: every queue keeps its
/// destination and its jobs, in order, and at most gains the new job at its
/// end.
proof fn lemma_enqueue_job_extends(queues: Seq<QueueModel>, job: JobModel)
    ensures
        enqueue_job(queues, job).len() >= queues.len(),
        forall|k: int|
            0 <= k < queues.len() ==> #[trigger] enqueue_job(queues, job)[k].dest
                == queues[k].dest && queues[k].jobs.is_prefix_of(enqueue_job(queues, job)[k].jobs),
    decreases queues.len(),
{
    if queues.len() == 0 {
    } else if queues[0].dest == job.dest {
        assert forall|k: int| 0 <= k < queues.len() implies #[trigger] enqueue_job(queues, job)[k].dest
            == queues[k].dest && queues[k].jobs.is_prefix_of(enqueue_job(queues, job)[k].jobs) by {
            if k == 0 {
                assert(queues[0].jobs =~= queues[0].jobs.push(job).subrange(
                    0,
                    queues[0].jobs.len() as int,
                ));
            } else {
                assert(enqueue_job(queues, job)[k] == queues[k]);
                assert(queues[k].jobs =~= queues[k].jobs.subrange(0, queues[k].jobs.len() as int));
            }
        }
    } else {
        lemma_enqueue_job_extends(queues.skip(1), job);
        assert forall|k: int| 0 <= k < queues.len() implies #[trigger] enqueue_job(queues, job)[k].dest
            == queues[k].dest && queues[k].jobs.is_prefix_of(enqueue_job(queues, job)[k].jobs) by {
            if k == 0 {
                assert(enqueue_job(queues, job)[0] == queues[0]);
                assert(queues[0].jobs =~= queues[0].jobs.subrange(0, queues[0].jobs.len() as int));
            } else {
                assert(enqueue_job(queues, job)[k] == enqueue_job(queues.skip(1), job)[k - 1]);
                assert(queues[k] == queues.skip(1)[k - 1]);
            }
        }
    }
}

/// Filing a batch of jobs disturbs no queue already filed.
proof fn lemma_enqueue_jobs_extends(queues: Seq<QueueModel>, jobs: Seq<JobModel>)
    ensures
        enqueue_jobs(queues, jobs).len() >= queues.len(),
        forall|k: int|
            0 <= k < queues.len() ==> #[trigger] enqueue_jobs(queues, jobs)[k].dest
                == queues[k].dest && queues[k].jobs.is_prefix_of(
                enqueue_jobs(queues, jobs)[k].jobs,
            ),
    decreases jobs.len(),
{
    if jobs.len() == 0 {
        assert forall|k: int| 0 <= k < queues.len() implies queues[k].jobs.is_prefix_of(
            #[trigger] enqueue_jobs(queues, jobs)[k].jobs,
        ) by {
            assert(queues[k].jobs =~= queues[k].jobs.subrange(0, queues[k].jobs.len() as int));
        }
    } else {
        let mid = enqueue_job(queues, jobs[0]);
        lemma_enqueue_job_extends(queues, jobs[0]);
        lemma_enqueue_jobs_extends(mid, jobs.skip(1));
        assert forall|k: int| 0 <= k < queues.len() implies queues[k].jobs.is_prefix_of(
            #[trigger] enqueue_jobs(queues, jobs)[k].jobs,
        ) by {
            let a = queues[k].jobs;
            let b = mid[k].jobs;
            let c = enqueue_jobs(queues, jobs)[k].jobs;
            assert(enqueue_jobs(queues, jobs) == enqueue_jobs(mid, jobs.skip(1)));
            assert(enqueue_job(queues, jobs[0])[k].dest == queues[k].dest);
            assert(enqueue_jobs(mid, jobs.skip(1))[k].dest == mid[k].dest);
            assert(a =~= b.subrange(0, a.len() as int));
            assert(b =~= c.subrange(0, b.len() as int));
            assert(a =~= c.subrange(0, a.len() as int));
        }
    }
}

/// Law (toward convergence): a gossip round never drops a pending job — every
/// queue keeps its destination and its jobs, in order, and at most gains
/// fresh jobs; retirement is the engine's only way to lose one.
pub proof fn lemma_gossip_never_drops(
    m: GossipModel,
    value: u64,
    already_sent_to: Seq<Seq<char>>,
    now_ms: u64,
    jitter_ms: u64,
)
    ensures
        gossip_step(m, value, already_sent_to, now_ms, jitter_ms).queues.len()
            >= m.queues.len(),
        forall|k: int|
            0 <= k < m.queues.len() ==> #[trigger] gossip_step(
                m,
                value,
                already_sent_to,
                now_ms,
                jitter_ms,
            ).queues[k].dest == m.queues[k].dest && m.queues[k].jobs.is_prefix_of(
                gossip_step(m, value, already_sent_to, now_ms, jitter_ms).queues[k].jobs,
            ),
{
    let fo = fanout(m.topology, already_sent_to);
    let full = already_sent_to + fo;
    let run_at = sat_add64(now_ms, sat_add64(FIRST_DELAY_MS, jitter_ms));
    lemma_enqueue_jobs_extends(m.queues, gossip_jobs(fo, m.next_id, value, full, run_at));
}

/// Law: when jobs for one destination are simultaneously due, one scheduled
/// tick emits exactly one message to that destination — the bulk of every
/// envelope pending for it — and all of that queue's jobs record the attempt
/// together.
pub proof fn lemma_batching(m: GossipModel, now_ms: u64, k: int)
    requires
        m.wf(),
        0 <= k < m.queues.len(),
        queue_due(m.queues[k], now_ms),
    ensures
        tick_messages(m, now_ms).filter(dest_pred(m.queues[k].dest)) == seq![
            bulk_message(m.node_id, m.queues[k]),
        ],
        (bulk_message(m.node_id, m.queues[k]).body matches RequestModel::BulkBroadcast {
            broadcasts,
        } ==> broadcasts.len() == m.queues[k].jobs.len() && forall|i: int|
            0 <= i < m.queues[k].jobs.len() ==> #[trigger] broadcasts[i]
                == m.queues[k].jobs[i].broadcast),
        tick_queues(m.queues, now_ms)[k].jobs.len() == m.queues[k].jobs.len(),
        forall|i: int|
            0 <= i < m.queues[k].jobs.len() ==> #[trigger] tick_queues(m.queues, now_ms)[k].jobs[i].attempts
                == sat_add64(m.queues[k].jobs[i].attempts, 1),
{
    lemma_bulk_for_dest(m.queues, m.node_id, now_ms, k);
}

} // verus!
