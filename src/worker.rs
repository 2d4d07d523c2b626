//! The decisions of the worker source: a session with a remote coordinator that
//! advertises capacity, hands out assigned jobs, forwards their results, drains
//! on a quit signal and reconnects, with backoff, when the connection drops.
use vstd::prelude::*;

verus! {

/// Where a coordinator session stands.
#[derive(Clone, Copy, Debug, PartialEq, Eq, Structural)]
pub enum WorkerPhase {
    /// The first connection is being made; nothing may be yielded yet.
    Connecting,
    /// Connected: jobs are accepted and results forwarded.
    Ready,
    /// Quit was asked for: no new jobs; those in flight may still finish.
    Draining,
    /// The connection dropped; a new one is being tried.
    Reconnecting,
    /// Terminal: nothing more is yielded.
    Closed,
}

/// How often and how fast a dropped connection is tried again.
#[derive(Clone, Copy, Debug, PartialEq, Eq, Structural)]
pub struct RetryPolicy {
    /// The number of reconnection attempts before the loss is terminal.
    pub max_attempts: u32,
    /// The wait before the first attempt, in milliseconds.
    pub base_delay_ms: u64,
    /// The longest wait between attempts, in milliseconds.
    pub max_delay_ms: u64,
}

/// What the connection, the driver or a timer reports to the session.
#[derive(Clone, Copy, Debug, PartialEq, Eq, Structural)]
pub enum WorkerEvent {
    /// The first connection is established.
    Connected,
    /// The first connection could not be established.
    ConnectFailed,
    /// The coordinator assigned a job.
    Assigned { job_id: u64 },
    /// The callback of a job was invoked with its response.
    Completed { job_id: u64 },
    /// The driver sent a quit signal.
    Quit,
    /// The connection dropped.
    ConnectionLost,
    /// A reconnection attempt succeeded.
    ReconnectSucceeded,
    /// A reconnection attempt failed.
    ReconnectFailed,
    /// The draining grace period is over.
    GraceElapsed,
}

/// What the session asks the connection or the stream to do.
#[derive(Clone, Copy, Debug, PartialEq, Eq, Structural)]
pub enum WorkerAction {
    /// Advertise this total capacity to the coordinator.
    Advertise { total: u64 },
    /// Yield the job as a stream item, with a callback that reports its result.
    Dispatch { job_id: u64 },
    /// Refuse the assignment: no free slot, already held, or draining.
    RejectJob { job_id: u64 },
    /// Send the job's result to the coordinator; its slot is free again.
    SendResult { job_id: u64 },
    /// A result for a job that is not in flight (answered already, or dropped).
    StaleResponse { job_id: u64 },
    /// The job's result can no longer reach the coordinator: report it failed.
    DropJob { job_id: u64 },
    /// Tell the coordinator that this worker is going away.
    SendGoodbye,
    /// Wait this long, then try to reconnect.
    ScheduleReconnect { delay_ms: u64 },
    /// End the stream without error.
    EndStream,
    /// End the stream with a terminal error: reconnection gave up.
    EndWithError,
    /// Fail construction of the source: the coordinator was unreachable.
    FailConstruction,
}

/// The mathematical state of a session.
pub struct WorkerState {
    pub phase: WorkerPhase,
    pub capacity: u64,
    pub in_flight: Seq<u64>,
    pub attempts: u32,
    pub draining: bool,
    pub policy: RetryPolicy,
}

/// A session with the coordinator.
pub struct WorkerSession {
    pub phase: WorkerPhase,
    /// The total number of job slots advertised.
    pub capacity: u64,
    /// The jobs dispatched and not yet answered, each once.
    pub in_flight: Vec<u64>,
    /// Reconnection attempts that failed since the connection dropped.
    pub attempts: u32,
    /// Whether a quit signal has been received.
    pub draining: bool,
    pub policy: RetryPolicy,
}

impl View for WorkerSession {
    type V = WorkerState;

    open spec fn view(&self) -> WorkerState {
        WorkerState {
            phase: self.phase,
            capacity: self.capacity,
            in_flight: self.in_flight@,
            attempts: self.attempts,
            draining: self.draining,
            policy: self.policy,
        }
    }
}

/// The session's invariant: never more jobs in flight than slots, each job once,
/// a reconnecting session still has attempts left, and only a session that was
/// asked to quit is draining.
pub open spec fn worker_wf(s: WorkerState) -> bool {
    &&& s.in_flight.len() <= s.capacity
    &&& s.in_flight.no_duplicates()
    &&& s.phase == WorkerPhase::Reconnecting ==> s.attempts < s.policy.max_attempts
    &&& s.phase == WorkerPhase::Draining ==> s.draining
    &&& (s.phase == WorkerPhase::Connecting || s.phase == WorkerPhase::Ready) ==> !s.draining
}

/// The wait before the reconnection attempt that follows `failed` failures:
/// the base delay, doubled at each failure, never above the maximum.
pub open spec fn backoff_delay(p: RetryPolicy, failed: nat) -> nat
    decreases failed,
{
    if failed == 0 {
        if p.base_delay_ms <= p.max_delay_ms {
            p.base_delay_ms as nat
        } else {
            p.max_delay_ms as nat
        }
    } else {
        let d = 2 * backoff_delay(p, (failed - 1) as nat);
        if d <= p.max_delay_ms {
            d
        } else {
            p.max_delay_ms as nat
        }
    }
}

/// `s` without the job `id`, in the same order.
pub open spec fn without(s: Seq<u64>, id: u64) -> Seq<u64>
    decreases s.len(),
{
    if s.len() == 0 {
        s
    } else {
        let rest = without(s.drop_last(), id);
        if s.last() == id {
            rest
        } else {
            rest.push(s.last())
        }
    }
}

/// One `DropJob` for each job of `jobs`, in order.
pub open spec fn drops(jobs: Seq<u64>) -> Seq<WorkerAction> {
    Seq::new(jobs.len(), |i: int| WorkerAction::DropJob { job_id: jobs[i] })
}

/// A job's callback was invoked: forward its result if it is in flight, and
/// close a draining session once nothing is left in flight.
pub open spec fn complete_job(s: WorkerState, id: u64) -> (WorkerState, Seq<WorkerAction>) {
    if !s.in_flight.contains(id) {
        (s, seq![WorkerAction::StaleResponse { job_id: id }])
    } else {
        let rest = without(s.in_flight, id);
        if s.phase == WorkerPhase::Draining && rest.len() == 0 {
            (
                WorkerState { phase: WorkerPhase::Closed, in_flight: rest, ..s },
                seq![WorkerAction::SendResult { job_id: id }, WorkerAction::EndStream],
            )
        } else {
            (WorkerState { in_flight: rest, ..s }, seq![WorkerAction::SendResult { job_id: id }])
        }
    }
}

/// The connection dropped: the jobs in flight are reported failed, then a
/// reconnection is scheduled, or the stream ends with an error when the policy
/// allows no attempt.
pub open spec fn lose_connection(s: WorkerState) -> (WorkerState, Seq<WorkerAction>) {
    if s.policy.max_attempts == 0 {
        (
            WorkerState { phase: WorkerPhase::Closed, in_flight: Seq::empty(), ..s },
            drops(s.in_flight).push(WorkerAction::EndWithError),
        )
    } else {
        (
            WorkerState {
                phase: WorkerPhase::Reconnecting,
                in_flight: Seq::empty(),
                attempts: 0,
                ..s
            },
            drops(s.in_flight).push(
                WorkerAction::ScheduleReconnect { delay_ms: backoff_delay(s.policy, 0) as u64 },
            ),
        )
    }
}

/// The next state of a session and what it does, for one event.
pub open spec fn worker_next(s: WorkerState, e: WorkerEvent) -> (WorkerState, Seq<WorkerAction>) {
    match s.phase {
        WorkerPhase::Connecting => match e {
            WorkerEvent::Connected => (
                WorkerState { phase: WorkerPhase::Ready, ..s },
                seq![WorkerAction::Advertise { total: s.capacity }],
            ),
            WorkerEvent::ConnectFailed => (
                WorkerState { phase: WorkerPhase::Closed, ..s },
                seq![WorkerAction::FailConstruction],
            ),
            WorkerEvent::Quit => (
                WorkerState { phase: WorkerPhase::Closed, draining: true, ..s },
                seq![WorkerAction::EndStream],
            ),
            _ => (s, Seq::empty()),
        },
        WorkerPhase::Ready => match e {
            WorkerEvent::Assigned { job_id } => {
                if s.in_flight.contains(job_id) || s.in_flight.len() >= s.capacity {
                    (s, seq![WorkerAction::RejectJob { job_id }])
                } else {
                    (
                        WorkerState { in_flight: s.in_flight.push(job_id), ..s },
                        seq![WorkerAction::Dispatch { job_id }],
                    )
                }
            },
            WorkerEvent::Completed { job_id } => complete_job(s, job_id),
            WorkerEvent::Quit => {
                if s.in_flight.len() == 0 {
                    (
                        WorkerState { phase: WorkerPhase::Closed, draining: true, ..s },
                        seq![WorkerAction::SendGoodbye, WorkerAction::EndStream],
                    )
                } else {
                    (
                        WorkerState { phase: WorkerPhase::Draining, draining: true, ..s },
                        seq![WorkerAction::SendGoodbye],
                    )
                }
            },
            WorkerEvent::ConnectionLost => lose_connection(s),
            _ => (s, Seq::empty()),
        },
        WorkerPhase::Draining => match e {
            WorkerEvent::Assigned { job_id } => (s, seq![WorkerAction::RejectJob { job_id }]),
            WorkerEvent::Completed { job_id } => complete_job(s, job_id),
            WorkerEvent::ConnectionLost => lose_connection(s),
            WorkerEvent::GraceElapsed => (
                WorkerState { phase: WorkerPhase::Closed, in_flight: Seq::empty(), ..s },
                drops(s.in_flight).push(WorkerAction::EndStream),
            ),
            _ => (s, Seq::empty()),
        },
        WorkerPhase::Reconnecting => match e {
            WorkerEvent::ReconnectSucceeded => {
                if s.draining {
                    (
                        WorkerState { phase: WorkerPhase::Closed, attempts: 0, ..s },
                        seq![WorkerAction::SendGoodbye, WorkerAction::EndStream],
                    )
                } else {
                    (
                        WorkerState { phase: WorkerPhase::Ready, attempts: 0, ..s },
                        seq![WorkerAction::Advertise { total: s.capacity }],
                    )
                }
            },
            WorkerEvent::ReconnectFailed => {
                if s.attempts + 1 >= s.policy.max_attempts {
                    (
                        WorkerState { phase: WorkerPhase::Closed, ..s },
                        seq![WorkerAction::EndWithError],
                    )
                } else {
                    (
                        WorkerState { attempts: (s.attempts + 1) as u32, ..s },
                        seq![
                            WorkerAction::ScheduleReconnect {
                                delay_ms: backoff_delay(s.policy, (s.attempts + 1) as nat) as u64,
                            },
                        ],
                    )
                }
            },
            WorkerEvent::Completed { job_id } => complete_job(s, job_id),
            WorkerEvent::Quit => (
                WorkerState { phase: WorkerPhase::Closed, draining: true, ..s },
                seq![WorkerAction::EndStream],
            ),
            _ => (s, Seq::empty()),
        },
        WorkerPhase::Closed => (s, Seq::empty()),
    }
}

/// Taking a job out keeps the others, in order, each as often as before.
pub proof fn lemma_without(s: Seq<u64>, id: u64)
    ensures
        without(s, id).len() <= s.len(),
        forall|x: u64| #[trigger] without(s, id).contains(x) <==> (s.contains(x) && x != id),
        s.no_duplicates() ==> without(s, id).no_duplicates(),
        s.contains(id) && s.no_duplicates() ==> without(s, id).len() == s.len() - 1,
        !s.contains(id) ==> without(s, id) == s,
    decreases s.len(),
{
    if s.len() > 0 {
        let front = s.drop_last();
        lemma_without(front, id);
        assert forall|x: u64| s.contains(x) <==> (front.contains(x) || x == s.last()) by {
            if s.contains(x) {
                let k = choose|k: int| 0 <= k < s.len() && s[k] == x;
                if k < s.len() - 1 {
                    assert(front[k] == x);
                }
            }
            if front.contains(x) {
                let k = choose|k: int| 0 <= k < front.len() && front[k] == x;
                assert(s[k] == x);
            }
            if x == s.last() {
                assert(s[s.len() - 1] == x);
            }
        }
        if s.no_duplicates() {
            assert(front.no_duplicates()) by {
                assert forall|i: int, j: int|
                    0 <= i < front.len() && 0 <= j < front.len() && i != j implies front[i]
                    != front[j] by {
                    assert(front[i] == s[i] && front[j] == s[j]);
                }
            }
            assert(!front.contains(s.last())) by {
                if front.contains(s.last()) {
                    let k = choose|k: int| 0 <= k < front.len() && front[k] == s.last();
                    assert(s[k] == s[s.len() - 1]);
                }
            }
        }
        let rest = without(front, id);
        if !s.contains(id) {
            assert(!front.contains(id));
            assert(rest.push(s.last()) =~= s);
        }
        if s.last() != id {
            assert forall|x: u64| rest.push(s.last()).contains(x) <==> (rest.contains(x) || x
                == s.last()) by {
                if rest.push(s.last()).contains(x) {
                    let k = choose|k: int|
                        0 <= k < rest.push(s.last()).len() && rest.push(s.last())[k] == x;
                    if k < rest.len() {
                        assert(rest[k] == x);
                    }
                }
                if rest.contains(x) {
                    let k = choose|k: int| 0 <= k < rest.len() && rest[k] == x;
                    assert(rest.push(s.last())[k] == x);
                }
                if x == s.last() {
                    assert(rest.push(s.last())[rest.len() as int] == x);
                }
            }
            if s.no_duplicates() {
                assert(rest.push(s.last()).no_duplicates()) by {
                    let r = rest.push(s.last());
                    assert forall|i: int, j: int|
                        0 <= i < r.len() && 0 <= j < r.len() && i != j implies r[i] != r[j] by {
                        if i < rest.len() && j < rest.len() {
                            assert(r[i] == rest[i] && r[j] == rest[j]);
                        } else if i < rest.len() {
                            assert(rest.contains(r[i]));
                        } else if j < rest.len() {
                            assert(rest.contains(r[j]));
                        }
                    }
                }
            }
        }
        assert forall|x: u64| #[trigger] without(s, id).contains(x) <==> (s.contains(x) && x
            != id) by {
            assert(rest.contains(x) <==> (front.contains(x) && x != id));
        }
    }
}

/// Whether the job `id` is in `jobs`.
pub(crate) fn holds_job(jobs: &Vec<u64>, id: u64) -> (r: bool)
    ensures
        r == jobs@.contains(id),
{
    let mut i: usize = 0;
    while i < jobs.len()
        invariant
            i <= jobs@.len(),
            forall|k: int| 0 <= k < i ==> jobs@[k] != id,
        decreases jobs@.len() - i,
    {
        if jobs[i] == id {
            assert(jobs@[i as int] == id);
            return true;
        }
        i = i + 1;
    }
    false
}

/// The jobs of `jobs` but `id`, in order.
pub(crate) fn jobs_without(jobs: &Vec<u64>, id: u64) -> (r: Vec<u64>)
    ensures
        r@ == without(jobs@, id),
{
    let mut r: Vec<u64> = Vec::new();
    let mut i: usize = 0;
    while i < jobs.len()
        invariant
            i <= jobs@.len(),
            r@ == without(jobs@.take(i as int), id),
        decreases jobs@.len() - i,
    {
        assert(jobs@.take(i as int + 1).drop_last() =~= jobs@.take(i as int));
        if jobs[i] != id {
            r.push(jobs[i]);
        }
        i = i + 1;
    }
    assert(jobs@.take(i as int) =~= jobs@);
    r
}

/// One `DropJob` per job, in order.
fn drop_all(jobs: &Vec<u64>) -> (r: Vec<WorkerAction>)
    ensures
        r@ == drops(jobs@),
{
    let mut r: Vec<WorkerAction> = Vec::new();
    let mut i: usize = 0;
    while i < jobs.len()
        invariant
            i <= jobs@.len(),
            r@ =~= drops(jobs@.take(i as int)),
        decreases jobs@.len() - i,
    {
        r.push(WorkerAction::DropJob { job_id: jobs[i] });
        i = i + 1;
        assert(r@ =~= drops(jobs@.take(i as int)));
    }
    assert(jobs@.take(i as int) =~= jobs@);
    r
}

/// The wait before the attempt that follows `failed` failed attempts.
pub fn backoff(p: RetryPolicy, failed: u32) -> (d: u64)
    ensures
        d as nat == backoff_delay(p, failed as nat),
{
    let mut d: u64 = if p.base_delay_ms <= p.max_delay_ms {
        p.base_delay_ms
    } else {
        p.max_delay_ms
    };
    let mut k: u32 = 0;
    while k < failed
        invariant
            k <= failed,
            d as nat == backoff_delay(p, k as nat),
            d <= p.max_delay_ms,
        decreases failed - k,
    {
        d = if d <= p.max_delay_ms - d {
            d + d
        } else {
            p.max_delay_ms
        };
        k = k + 1;
    }
    d
}

/// The final state and all actions of a session that takes `es` in order.
pub open spec fn worker_run(s: WorkerState, es: Seq<WorkerEvent>) -> (WorkerState, Seq<WorkerAction>)
    decreases es.len(),
{
    if es.len() == 0 {
        (s, Seq::empty())
    } else {
        let (mid, acts) = worker_run(s, es.drop_last());
        let (next, more) = worker_next(mid, es.last());
        (next, acts + more)
    }
}

/// Whether an action ends the stream, with or without error.
pub open spec fn ends_stream(a: WorkerAction) -> bool {
    a == WorkerAction::EndStream || a == WorkerAction::EndWithError
}

/// Whether an action hands a job to the stream.
pub open spec fn yields_job(a: WorkerAction) -> bool {
    a is Dispatch
}

/// `k` failed reconnection attempts in a row.
pub open spec fn failures(k: nat) -> Seq<WorkerEvent> {
    Seq::new(k, |i: int| WorkerEvent::ReconnectFailed)
}

/// Taking `a` and then `b` is taking `a + b`.
pub proof fn lemma_worker_run_concat(s: WorkerState, a: Seq<WorkerEvent>, b: Seq<WorkerEvent>)
    ensures
        worker_run(s, a + b) == (worker_run(worker_run(s, a).0, b).0, worker_run(s, a).1
            + worker_run(worker_run(s, a).0, b).1),
    decreases b.len(),
{
    if b.len() == 0 {
        assert(a + b =~= a);
        assert(worker_run(s, a).1 + Seq::<WorkerAction>::empty() =~= worker_run(s, a).1);
    } else {
        assert((a + b).drop_last() =~= a + b.drop_last());
        assert((a + b).last() == b.last());
        lemma_worker_run_concat(s, a, b.drop_last());
        let mid = worker_run(s, a).0;
        let inner = worker_run(mid, b.drop_last());
        let more = worker_next(inner.0, b.last()).1;
        assert(worker_run(s, a).1 + inner.1 + more =~= worker_run(s, a).1 + (inner.1 + more));
    }
}

/// One event taken alone.
pub proof fn lemma_worker_run_one(s: WorkerState, e: WorkerEvent)
    ensures
        worker_run(s, seq![e]) == worker_next(s, e),
{
    assert(seq![e].drop_last() =~= Seq::<WorkerEvent>::empty());
    assert(worker_run(s, Seq::<WorkerEvent>::empty()) == (s, Seq::<WorkerAction>::empty()));
    assert(Seq::<WorkerAction>::empty() + worker_next(s, e).1 =~= worker_next(s, e).1);
}

/// While attempts remain, failed reconnections only schedule further attempts.
pub proof fn lemma_failures_within_budget(s: WorkerState, k: nat)
    requires
        s.phase == WorkerPhase::Reconnecting,
        s.in_flight.len() == 0,
        s.attempts + k < s.policy.max_attempts,
    ensures
        worker_run(s, failures(k)).0 == (WorkerState { attempts: (s.attempts + k) as u32, ..s }),
        worker_run(s, failures(k)).1.len() == k,
        forall|i: int|
            0 <= i < k ==> #[trigger] worker_run(s, failures(k)).1[i] is ScheduleReconnect,
    decreases k,
{
    if k > 0 {
        assert(failures(k).drop_last() =~= failures((k - 1) as nat));
        lemma_failures_within_budget(s, (k - 1) as nat);
    } else {
        assert(failures(k) =~= Seq::<WorkerEvent>::empty());
    }
}

/// Closing a stream while idle: a quit signal with no job in flight says goodbye
/// to the coordinator and ends the stream at once, with no job dropped.
pub proof fn lemma_quit_when_idle(s: WorkerState)
    requires
        s.phase == WorkerPhase::Ready,
        s.in_flight.len() == 0,
    ensures
        worker_next(s, WorkerEvent::Quit) == (
            WorkerState { phase: WorkerPhase::Closed, draining: true, ..s },
            seq![WorkerAction::SendGoodbye, WorkerAction::EndStream],
        ),
{
}

/// Draining ends the stream once the last job in flight has been answered, and
/// that job's result is still sent.
pub proof fn lemma_drain_ends_with_last_result(s: WorkerState, id: u64)
    requires
        worker_wf(s),
        s.phase == WorkerPhase::Draining,
        s.in_flight == seq![id],
    ensures
        worker_next(s, WorkerEvent::Completed { job_id: id }) == (
            WorkerState { phase: WorkerPhase::Closed, in_flight: Seq::<u64>::empty(), ..s },
            seq![WorkerAction::SendResult { job_id: id }, WorkerAction::EndStream],
        ),
{
    assert(s.in_flight[0] == id);
    lemma_without(s.in_flight, id);
    assert(without(s.in_flight, id) =~= Seq::<u64>::empty());
}

/// A dropped connection that comes back after `k` failed attempts, fewer than
/// the policy allows, leaves the session ready for jobs again: the capacity is
/// advertised anew and the stream is not ended.
pub proof fn lemma_reconnect_within_budget(s: WorkerState, k: nat)
    requires
        worker_wf(s),
        s.phase == WorkerPhase::Ready,
        k < s.policy.max_attempts,
    ensures
        ({
            let es = seq![WorkerEvent::ConnectionLost] + failures(k) + seq![
                WorkerEvent::ReconnectSucceeded,
            ];
            let (last, acts) = worker_run(s, es);
            &&& last == (WorkerState {
                phase: WorkerPhase::Ready,
                in_flight: Seq::empty(),
                attempts: 0,
                ..s
            })
            &&& acts.last() == WorkerAction::Advertise { total: s.capacity }
            &&& forall|i: int| 0 <= i < acts.len() ==> !ends_stream(#[trigger] acts[i])
        }),
{
    let lost = seq![WorkerEvent::ConnectionLost];
    let back = seq![WorkerEvent::ReconnectSucceeded];
    lemma_worker_run_concat(s, lost + failures(k), back);
    lemma_worker_run_concat(s, lost, failures(k));
    lemma_worker_run_one(s, WorkerEvent::ConnectionLost);
    let s1 = worker_run(s, lost).0;
    lemma_failures_within_budget(s1, k);
    let s2 = worker_run(s, lost + failures(k)).0;
    lemma_worker_run_one(s2, WorkerEvent::ReconnectSucceeded);
    let acts = worker_run(s, lost + failures(k) + back).1;
    let a1 = worker_run(s, lost).1;
    let a2 = worker_run(s1, failures(k)).1;
    assert forall|i: int| 0 <= i < acts.len() implies !ends_stream(#[trigger] acts[i]) by {
        let d = drops(s.in_flight);
        if i < a1.len() {
            assert(acts[i] == a1[i]);
            if i < d.len() {
                assert(a1[i] == d[i]);
            }
        } else if i < a1.len() + a2.len() {
            assert(acts[i] == a2[i - a1.len()]);
        } else {
            assert(acts[i] == WorkerAction::Advertise { total: s.capacity });
        }
    }
}

/// A dropped connection whose every reconnection attempt fails ends the stream
/// with a terminal error once the policy's attempts are spent.
pub proof fn lemma_reconnect_budget_spent(s: WorkerState)
    requires
        worker_wf(s),
        s.phase == WorkerPhase::Ready,
    ensures
        ({
            let es = seq![WorkerEvent::ConnectionLost] + failures(s.policy.max_attempts as nat);
            let (last, acts) = worker_run(s, es);
            &&& last.phase == WorkerPhase::Closed
            &&& acts.last() == WorkerAction::EndWithError
        }),
{
    let lost = seq![WorkerEvent::ConnectionLost];
    let m = s.policy.max_attempts as nat;
    lemma_worker_run_one(s, WorkerEvent::ConnectionLost);
    if m == 0 {
        assert(lost + failures(m) =~= lost);
    } else {
        let f = failures((m - 1) as nat);
        assert(failures(m) =~= f + seq![WorkerEvent::ReconnectFailed]);
        assert(lost + failures(m) =~= (lost + f) + seq![WorkerEvent::ReconnectFailed]);
        lemma_worker_run_concat(s, lost + f, seq![WorkerEvent::ReconnectFailed]);
        lemma_worker_run_concat(s, lost, f);
        let s1 = worker_run(s, lost).0;
        lemma_failures_within_budget(s1, (m - 1) as nat);
        let s2 = worker_run(s, lost + f).0;
        lemma_worker_run_one(s2, WorkerEvent::ReconnectFailed);
    }
}

/// Nothing is handed to the stream before the connection is up, nor after the
/// session has closed; and a connecting session is ready only once connected.
pub proof fn lemma_no_job_unless_connected(s: WorkerState, e: WorkerEvent)
    requires
        s.phase == WorkerPhase::Connecting || s.phase == WorkerPhase::Closed,
    ensures
        forall|i: int|
            0 <= i < worker_next(s, e).1.len() ==> !yields_job(#[trigger] worker_next(s, e).1[i]),
        worker_next(s, e).0.phase == WorkerPhase::Ready ==> s.phase == WorkerPhase::Connecting
            && e == WorkerEvent::Connected,
{
}

impl WorkerSession {
    /// A session about to make its first connection, advertising `capacity` slots.
    pub fn new(capacity: u64, policy: RetryPolicy) -> (s: WorkerSession)
        ensures
            s@ == (WorkerState {
                phase: WorkerPhase::Connecting,
                capacity,
                in_flight: Seq::empty(),
                attempts: 0,
                draining: false,
                policy,
            }),
            worker_wf(s@),
    {
        WorkerSession {
            phase: WorkerPhase::Connecting,
            capacity,
            in_flight: Vec::new(),
            attempts: 0,
            draining: false,
            policy,
        }
    }

    /// The number of jobs dispatched and not yet answered.
    pub fn in_flight_count(&self) -> (n: usize)
        ensures
            n == self@.in_flight.len(),
    {
        self.in_flight.len()
    }

    fn complete(&mut self, id: u64) -> (acts: Vec<WorkerAction>)
        requires
            worker_wf(old(self)@),
        ensures
            (final(self)@, acts@) == complete_job(old(self)@, id),
            worker_wf(final(self)@),
    {
        if !holds_job(&self.in_flight, id) {
            return vec![WorkerAction::StaleResponse { job_id: id }];
        }
        proof {
            lemma_without(self.in_flight@, id);
        }
        self.in_flight = jobs_without(&self.in_flight, id);
        if self.phase == WorkerPhase::Draining && self.in_flight.len() == 0 {
            self.phase = WorkerPhase::Closed;
            vec![WorkerAction::SendResult { job_id: id }, WorkerAction::EndStream]
        } else {
            vec![WorkerAction::SendResult { job_id: id }]
        }
    }

    fn lose(&mut self) -> (acts: Vec<WorkerAction>)
        requires
            worker_wf(old(self)@),
        ensures
            (final(self)@, acts@) == lose_connection(old(self)@),
            worker_wf(final(self)@),
    {
        let mut acts = drop_all(&self.in_flight);
        self.in_flight = Vec::new();
        if self.policy.max_attempts == 0 {
            self.phase = WorkerPhase::Closed;
            acts.push(WorkerAction::EndWithError);
        } else {
            self.phase = WorkerPhase::Reconnecting;
            self.attempts = 0;
            let delay_ms = backoff(self.policy, 0);
            acts.push(WorkerAction::ScheduleReconnect { delay_ms });
        }
        acts
    }

    /// Takes one event and returns what to do, in order.
    pub fn step(&mut self, e: WorkerEvent) -> (acts: Vec<WorkerAction>)
        requires
            worker_wf(old(self)@),
        ensures
            (final(self)@, acts@) == worker_next(old(self)@, e),
            worker_wf(final(self)@),
    {
        match self.phase {
            WorkerPhase::Connecting => match e {
                WorkerEvent::Connected => {
                    self.phase = WorkerPhase::Ready;
                    vec![WorkerAction::Advertise { total: self.capacity }]
                },
                WorkerEvent::ConnectFailed => {
                    self.phase = WorkerPhase::Closed;
                    vec![WorkerAction::FailConstruction]
                },
                WorkerEvent::Quit => {
                    self.phase = WorkerPhase::Closed;
                    self.draining = true;
                    vec![WorkerAction::EndStream]
                },
                _ => Vec::new(),
            },
            WorkerPhase::Ready => match e {
                WorkerEvent::Assigned { job_id } => {
                    if holds_job(&self.in_flight, job_id) || self.in_flight.len() as u64
                        >= self.capacity {
                        vec![WorkerAction::RejectJob { job_id }]
                    } else {
                        self.in_flight.push(job_id);
                        proof {
                            assert forall|i: int, j: int|
                                0 <= i < self.in_flight@.len() && 0 <= j < self.in_flight@.len()
                                    && i != j implies self.in_flight@[i]
                                != self.in_flight@[j] by {
                                if i < old(self).in_flight@.len() && j
                                    < old(self).in_flight@.len() {
                                    assert(self.in_flight@[i] == old(self).in_flight@[i]);
                                    assert(self.in_flight@[j] == old(self).in_flight@[j]);
                                } else if i < old(self).in_flight@.len() {
                                    assert(old(self).in_flight@.contains(self.in_flight@[i]));
                                } else if j < old(self).in_flight@.len() {
                                    assert(old(self).in_flight@.contains(self.in_flight@[j]));
                                }
                            }
                        }
                        vec![WorkerAction::Dispatch { job_id }]
                    }
                },
                WorkerEvent::Completed { job_id } => self.complete(job_id),
                WorkerEvent::Quit => {
                    self.draining = true;
                    if self.in_flight.len() == 0 {
                        self.phase = WorkerPhase::Closed;
                        vec![WorkerAction::SendGoodbye, WorkerAction::EndStream]
                    } else {
                        self.phase = WorkerPhase::Draining;
                        vec![WorkerAction::SendGoodbye]
                    }
                },
                WorkerEvent::ConnectionLost => self.lose(),
                _ => Vec::new(),
            },
            WorkerPhase::Draining => match e {
                WorkerEvent::Assigned { job_id } => vec![WorkerAction::RejectJob { job_id }],
                WorkerEvent::Completed { job_id } => self.complete(job_id),
                WorkerEvent::ConnectionLost => self.lose(),
                WorkerEvent::GraceElapsed => {
                    let mut acts = drop_all(&self.in_flight);
                    self.in_flight = Vec::new();
                    self.phase = WorkerPhase::Closed;
                    acts.push(WorkerAction::EndStream);
                    acts
                },
                _ => Vec::new(),
            },
            WorkerPhase::Reconnecting => match e {
                WorkerEvent::ReconnectSucceeded => {
                    self.attempts = 0;
                    if self.draining {
                        self.phase = WorkerPhase::Closed;
                        vec![WorkerAction::SendGoodbye, WorkerAction::EndStream]
                    } else {
                        self.phase = WorkerPhase::Ready;
                        vec![WorkerAction::Advertise { total: self.capacity }]
                    }
                },
                WorkerEvent::ReconnectFailed => {
                    if self.attempts + 1 >= self.policy.max_attempts {
                        self.phase = WorkerPhase::Closed;
                        vec![WorkerAction::EndWithError]
                    } else {
                        self.attempts = self.attempts + 1;
                        let delay_ms = backoff(self.policy, self.attempts);
                        vec![WorkerAction::ScheduleReconnect { delay_ms }]
                    }
                },
                WorkerEvent::Completed { job_id } => self.complete(job_id),
                WorkerEvent::Quit => {
                    self.phase = WorkerPhase::Closed;
                    self.draining = true;
                    vec![WorkerAction::EndStream]
                },
                _ => Vec::new(),
            },
            WorkerPhase::Closed => Vec::new(),
        }
    }

    /// Takes each event of `es` in order and returns all actions, in order.
    pub fn run(&mut self, es: &Vec<WorkerEvent>) -> (acts: Vec<WorkerAction>)
        requires
            worker_wf(old(self)@),
        ensures
            (final(self)@, acts@) == worker_run(old(self)@, es@),
            worker_wf(final(self)@),
    {
        let ghost s0 = self@;
        let mut acts: Vec<WorkerAction> = Vec::new();
        let mut i: usize = 0;
        while i < es.len()
            invariant
                i <= es@.len(),
                worker_wf(self@),
                (self@, acts@) == worker_run(s0, es@.take(i as int)),
            decreases es@.len() - i,
        {
            assert(es@.take(i as int + 1).drop_last() =~= es@.take(i as int));
            let mut more = self.step(es[i]);
            acts.append(&mut more);
            i = i + 1;
        }
        assert(es@.take(i as int) =~= es@);
        acts
    }
}

} // verus!
