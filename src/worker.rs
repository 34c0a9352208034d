use vstd::prelude::*;

use crate::error::QueueError;
use crate::manager::{after_complete, after_fail, after_renew, dequeue_post, guard_result, renew_result, QueueManager};
use crate::types::Job;

verus! {

/// Handle of one processing unit: leases jobs of its shard, renews and settles them.
/// The shard id is fixed when the worker is built.
pub struct Worker {
    shard: u64,
    lease_duration_ms: u64,
}

impl Worker {
    /// The shard this worker serves.
    pub closed spec fn shard_spec(&self) -> u64 {
        self.shard
    }

    /// The lease duration this worker asks for.
    pub closed spec fn lease_ms(&self) -> u64 {
        self.lease_duration_ms
    }

    pub fn new(shard: u64, lease_duration_ms: u64) -> (r: Worker)
        ensures
            r.shard_spec() == shard,
            r.lease_ms() == lease_duration_ms,
    {
        Worker { shard, lease_duration_ms }
    }

    /// The shard assigned at startup; no store round trip.
    pub fn shard_id(&self) -> (r: u64)
        ensures
            r == self.shard_spec(),
    {
        self.shard
    }

    /// Leases up to `batch_size` due jobs of `queue_name` on this worker's shard, for the
    /// default lease duration.
    pub fn poll(&self, mgr: &mut QueueManager, queue_name: &String, batch_size: usize, now: u64) -> (r: Vec<Job>)
        requires
            old(mgr).wf(),
            now + self.lease_ms() <= u64::MAX,
            batch_size <= old(mgr).leases_left(),
        ensures
            final(mgr).wf(),
            final(mgr).same_settings(old(mgr)),
            dequeue_post(
                old(mgr).table(),
                final(mgr).table(),
                old(mgr).first_free_lease(),
                self.shard_spec(),
                queue_name@,
                batch_size as nat,
                self.lease_ms(),
                now,
                r@.map_values(|j: Job| j@),
            ),
    {
        mgr.dequeue(self.shard, queue_name, batch_size, self.lease_duration_ms, now)
    }

    /// Extends a held lease by the default duration; `LeaseExpired` once the job is no
    /// longer this worker's.
    pub fn heartbeat(&self, mgr: &mut QueueManager, job_id: u64, lease_id: u64, now: u64) -> (r: Result<u64, QueueError>)
        requires
            old(mgr).wf(),
            now + self.lease_ms() <= u64::MAX,
        ensures
            final(mgr).wf(),
            final(mgr).same_counters(old(mgr)),
            r == renew_result(old(mgr).table(), job_id, lease_id, self.lease_ms(), now),
            final(mgr).table() == after_renew(old(mgr).table(), job_id, lease_id, self.lease_ms(), now),
    {
        mgr.renew_lease(job_id, lease_id, self.lease_duration_ms, now)
    }

    pub fn complete(&self, mgr: &mut QueueManager, job_id: u64, lease_id: u64, now: u64) -> (r: Result<(), QueueError>)
        requires
            old(mgr).wf(),
        ensures
            final(mgr).wf(),
            final(mgr).same_counters(old(mgr)),
            r == guard_result(old(mgr).table(), job_id, lease_id),
            final(mgr).table() == after_complete(old(mgr).table(), job_id, lease_id, now),
    {
        mgr.complete(job_id, lease_id, now)
    }

    pub fn fail(
        &self,
        mgr: &mut QueueManager,
        job_id: u64,
        lease_id: u64,
        error_detail: String,
        retry_after: Option<u64>,
        now: u64,
    ) -> (r: Result<(), QueueError>)
        requires
            old(mgr).wf(),
            retry_after is Some ==> now + retry_after->0 <= u64::MAX,
        ensures
            final(mgr).wf(),
            final(mgr).same_counters(old(mgr)),
            r == guard_result(old(mgr).table(), job_id, lease_id),
            final(mgr).table() == after_fail(old(mgr).table(), job_id, lease_id, error_detail@, retry_after, now),
    {
        mgr.fail(job_id, lease_id, error_detail, retry_after, now)
    }
}

} // verus!
