use vstd::prelude::*;

verus! {

/// Lifecycle of a job: `Available -> Running -> {Completed | Available | DeadLettered}`.
#[derive(Debug, Clone, Copy, PartialEq, Eq, Structural)]
pub enum JobState {
    Available,
    Running,
    Completed,
    DeadLettered,
}

/// One unit of schedulable work with durable state. Times are milliseconds.
#[derive(Debug)]
pub struct Job {
    pub id: u64,
    pub state: JobState,
    pub queue_name: String,
    pub shard_id: u64,
    pub priority: i64,
    pub scheduled_at: u64,
    pub payload: Vec<u8>,
    pub metadata: Option<String>,
    pub lease_id: Option<u64>,
    pub lease_expires_at: Option<u64>,
    pub attempt_count: u32,
    pub max_attempts: u32,
    pub last_error: Option<String>,
    pub transitioned_at: u64,
}

/// The mathematical value of a `Job`.
pub struct JobView {
    pub id: u64,
    pub state: JobState,
    pub queue_name: Seq<char>,
    pub shard_id: u64,
    pub priority: i64,
    pub scheduled_at: u64,
    pub payload: Seq<u8>,
    pub metadata: Option<Seq<char>>,
    pub lease_id: Option<u64>,
    pub lease_expires_at: Option<u64>,
    pub attempt_count: u32,
    pub max_attempts: u32,
    pub last_error: Option<Seq<char>>,
    pub transitioned_at: u64,
}

pub open spec fn opt_str_view(s: Option<String>) -> Option<Seq<char>> {
    match s {
        Some(v) => Some(v@),
        None => None,
    }
}

impl View for Job {
    type V = JobView;

    open spec fn view(&self) -> JobView {
        JobView {
            id: self.id,
            state: self.state,
            queue_name: self.queue_name@,
            shard_id: self.shard_id,
            priority: self.priority,
            scheduled_at: self.scheduled_at,
            payload: self.payload@,
            metadata: opt_str_view(self.metadata),
            lease_id: self.lease_id,
            lease_expires_at: self.lease_expires_at,
            attempt_count: self.attempt_count,
            max_attempts: self.max_attempts,
            last_error: opt_str_view(self.last_error),
            transitioned_at: self.transitioned_at,
        }
    }
}

pub(crate) fn copy_opt_string(s: &Option<String>) -> (r: Option<String>)
    ensures
        opt_str_view(r) == opt_str_view(*s),
{
    match s {
        Some(v) => Some(v.clone()),
        None => None,
    }
}

impl Job {
    /// A copy of this job record.
    pub fn duplicate(&self) -> (r: Job)
        ensures
            r@ == self@,
    {
        let payload = self.payload.clone();
        assert(payload@ =~= self.payload@);
        Job {
            id: self.id,
            state: self.state,
            queue_name: self.queue_name.clone(),
            shard_id: self.shard_id,
            priority: self.priority,
            scheduled_at: self.scheduled_at,
            payload,
            metadata: copy_opt_string(&self.metadata),
            lease_id: self.lease_id,
            lease_expires_at: self.lease_expires_at,
            attempt_count: self.attempt_count,
            max_attempts: self.max_attempts,
            last_error: copy_opt_string(&self.last_error),
            transitioned_at: self.transitioned_at,
        }
    }
}

/// Producer-supplied fields of a job to create.
#[derive(Debug)]
pub struct JobInit {
    pub queue_name: String,
    pub priority: i64,
    pub scheduled_at: u64,
    pub payload: Vec<u8>,
    pub metadata: Option<String>,
    pub max_attempts: u32,
}

pub struct JobInitView {
    pub queue_name: Seq<char>,
    pub priority: i64,
    pub scheduled_at: u64,
    pub payload: Seq<u8>,
    pub metadata: Option<Seq<char>>,
    pub max_attempts: u32,
}

impl View for JobInit {
    type V = JobInitView;

    open spec fn view(&self) -> JobInitView {
        JobInitView {
            queue_name: self.queue_name@,
            priority: self.priority,
            scheduled_at: self.scheduled_at,
            payload: self.payload@,
            metadata: opt_str_view(self.metadata),
            max_attempts: self.max_attempts,
        }
    }
}

/// A partial update of a job, applied only under the caller's current lease.
#[derive(Debug)]
pub struct JobUpdate {
    pub id: u64,
    pub lease_id: u64,
    pub priority: Option<i64>,
    pub payload: Option<Vec<u8>>,
    pub metadata: Option<String>,
}

/// Outcome of a bulk insert: how many rows went in, and their ids in input order.
#[derive(Debug)]
pub struct BulkInsertResult {
    pub inserted: usize,
    pub ids: Vec<u64>,
}

// ---------------------------------------------------------------------------
// Transitions of a single job, as mathematical functions.
// ---------------------------------------------------------------------------

/// Invariant of one job record.
pub open spec fn job_wf(j: JobView) -> bool {
    &&& 1 <= j.max_attempts
    &&& j.attempt_count <= j.max_attempts
    &&& (j.state == JobState::Running) == (j.lease_id is Some)
    &&& (j.lease_id is Some) == (j.lease_expires_at is Some)
    &&& (j.state == JobState::Available ==> j.attempt_count < j.max_attempts)
    &&& (j.state == JobState::Running ==> j.attempt_count >= 1)
}

/// `a` is claimed no later than `b`: by priority, then scheduled time, then creation order.
pub open spec fn key_le(a: JobView, b: JobView) -> bool {
    ||| a.priority < b.priority
    ||| (a.priority == b.priority && a.scheduled_at < b.scheduled_at)
    ||| (a.priority == b.priority && a.scheduled_at == b.scheduled_at && a.id <= b.id)
}

/// The job may be leased now by a worker of `shard` polling `queue`.
pub open spec fn eligible(j: JobView, shard: u64, queue: Seq<char>, now: u64) -> bool {
    &&& j.state == JobState::Available
    &&& j.shard_id == shard
    &&& j.queue_name == queue
    &&& j.scheduled_at <= now
}

/// The caller holding `lease` currently owns the job.
pub open spec fn holds_lease(j: JobView, lease: u64) -> bool {
    j.state == JobState::Running && j.lease_id == Some(lease)
}

/// Entering `Running` under a fresh lease.
pub open spec fn leased(j: JobView, lease: u64, expires: u64) -> JobView {
    JobView {
        state: JobState::Running,
        lease_id: Some(lease),
        lease_expires_at: Some(expires),
        attempt_count: (j.attempt_count + 1) as u32,
        ..j
    }
}

/// `Running -> Completed`.
pub open spec fn completed(j: JobView, now: u64) -> JobView {
    JobView {
        state: JobState::Completed,
        lease_id: None,
        lease_expires_at: None,
        transitioned_at: now,
        ..j
    }
}

/// Retirement into the dead-letter queue.
pub open spec fn dead_lettered(j: JobView, detail: Seq<char>, dlq: Seq<char>, now: u64) -> JobView {
    JobView {
        state: JobState::DeadLettered,
        queue_name: dlq,
        lease_id: None,
        lease_expires_at: None,
        last_error: Some(detail),
        transitioned_at: now,
        ..j
    }
}

/// Back to `Available`, not before `at`.
pub open spec fn requeued(j: JobView, at: u64, detail: Option<Seq<char>>, now: u64) -> JobView {
    JobView {
        state: JobState::Available,
        scheduled_at: at,
        lease_id: None,
        lease_expires_at: None,
        last_error: detail,
        transitioned_at: now,
    ..j
    }
}

/// A reported failure: retried while attempts remain, dead-lettered after.
pub open spec fn failed(j: JobView, detail: Seq<char>, at: u64, dlq: Seq<char>, now: u64) -> JobView {
    if j.attempt_count < j.max_attempts {
        requeued(j, at, Some(detail), now)
    } else {
        dead_lettered(j, detail, dlq, now)
    }
}

} // verus!
