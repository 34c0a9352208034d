use vstd::prelude::*;

use crate::config::ManagerConfig;
use crate::error::QueueError;
use crate::types::{
    BulkInsertResult, completed, dead_lettered, eligible, failed, holds_lease, job_wf, key_le, leased, requeued,
    Job, JobInit, JobInitView, JobState, JobUpdate, JobView,
};
use crate::DEAD_LETTER_QUEUE;

verus! {

/// A partition of the job space, addressed by its id.
#[derive(Debug, Clone, Copy, PartialEq, Eq, Structural)]
pub struct Shard {
    pub id: u64,
}

/// Owner of the job table: every lifecycle change of a job goes through it.
pub struct QueueManager {
    jobs: Vec<Job>,
    shards: Vec<u64>,
    tolerance: u64,
    next_id: u64,
    next_lease: u64,
}

// ---------------------------------------------------------------------------
// The job table as a sequence of job values.
// ---------------------------------------------------------------------------

/// No two jobs of the table share an id.
pub open spec fn ids_unique(t: Seq<JobView>) -> bool {
    forall|i: int, j: int| 0 <= i < t.len() && 0 <= j < t.len() && i != j ==> t[i].id != t[j].id
}

/// Position of the job with the given id, if there is one.
pub open spec fn lookup(t: Seq<JobView>, id: u64) -> Option<int> {
    if exists|i: int| 0 <= i < t.len() && t[i].id == id {
        Some(choose|i: int| 0 <= i < t.len() && t[i].id == id)
    } else {
        None
    }
}

/// Outcome of the lease guard of `complete` and `fail`: the job's position, or the error.
pub open spec fn lease_check(t: Seq<JobView>, id: u64, lease: u64) -> Result<int, QueueError> {
    match lookup(t, id) {
        None => Err(QueueError::NotFound),
        Some(i) => if holds_lease(t[i], lease) {
            Ok(i)
        } else {
            Err(QueueError::LeaseMismatch)
        },
    }
}

/// The table after `complete(id, lease)` at time `now`.
pub open spec fn after_complete(t: Seq<JobView>, id: u64, lease: u64, now: u64) -> Seq<JobView> {
    match lease_check(t, id, lease) {
        Ok(i) => t.update(i, completed(t[i], now)),
        Err(_) => t,
    }
}

/// When a failed job may run again: `now + retry_after` (or `now`), never earlier than before.
pub open spec fn retry_at(j: JobView, retry_after: Option<u64>, now: u64) -> u64 {
    let target: int = match retry_after {
        Some(d) => now + d,
        None => now as int,
    };
    if j.scheduled_at >= target {
        j.scheduled_at
    } else {
        target as u64
    }
}

/// The table after `fail(id, lease, detail, retry_after)` at time `now`.
pub open spec fn after_fail(
    t: Seq<JobView>,
    id: u64,
    lease: u64,
    detail: Seq<char>,
    retry_after: Option<u64>,
    now: u64,
) -> Seq<JobView> {
    match lease_check(t, id, lease) {
        Ok(i) => t.update(
            i,
            failed(t[i], detail, retry_at(t[i], retry_after, now), DEAD_LETTER_QUEUE@, now),
        ),
        Err(_) => t,
    }
}

/// The result of an operation guarded by `lease_check`.
pub open spec fn guard_result(t: Seq<JobView>, id: u64, lease: u64) -> Result<(), QueueError> {
    match lease_check(t, id, lease) {
        Ok(_) => Ok(()),
        Err(e) => Err(e),
    }
}

/// A producer's request is well formed at time `now`.
pub open spec fn valid_init(init: JobInitView, now: u64, tolerance: u64) -> bool {
    &&& init.queue_name.len() > 0
    &&& init.queue_name != DEAD_LETTER_QUEUE@
    &&& init.max_attempts >= 1
    &&& now <= init.scheduled_at + tolerance
}

/// The record of a newly created job.
pub open spec fn created(init: JobInitView, id: u64, shard: u64, now: u64) -> JobView {
    JobView {
        id,
        state: JobState::Available,
        queue_name: init.queue_name,
        shard_id: shard,
        priority: init.priority,
        scheduled_at: init.scheduled_at,
        payload: init.payload,
        metadata: init.metadata,
        lease_id: None,
        lease_expires_at: None,
        attempt_count: 0,
        max_attempts: init.max_attempts,
        last_error: None,
        transitioned_at: now,
    }
}

/// The job with its lease extended to `expires`.
pub open spec fn renewed(j: JobView, expires: u64) -> JobView {
    JobView { lease_expires_at: Some(expires), ..j }
}

/// The new deadline of a renewed lease: `now + duration`, never earlier than before.
pub open spec fn renewal_deadline(j: JobView, duration: u64, now: u64) -> u64 {
    let old_deadline = match j.lease_expires_at {
        Some(e) => e,
        None => 0,
    };
    if old_deadline >= now + duration {
        old_deadline
    } else {
        (now + duration) as u64
    }
}

/// Outcome of a lease renewal: the new deadline, or the error.
pub open spec fn renew_result(t: Seq<JobView>, id: u64, lease: u64, duration: u64, now: u64) -> Result<u64, QueueError> {
    match lookup(t, id) {
        None => Err(QueueError::NotFound),
        Some(i) => if holds_lease(t[i], lease) {
            Ok(renewal_deadline(t[i], duration, now))
        } else {
            Err(QueueError::LeaseExpired)
        },
    }
}

/// The table after a lease renewal.
pub open spec fn after_renew(t: Seq<JobView>, id: u64, lease: u64, duration: u64, now: u64) -> Seq<JobView> {
    match renew_result(t, id, lease, duration, now) {
        Ok(e) => t.update(lookup(t, id)->0, renewed(t[lookup(t, id)->0], e)),
        Err(_) => t,
    }
}

/// The lease is held and has not lapsed at `now`.
pub open spec fn lease_live(j: JobView, lease: u64, now: u64) -> bool {
    &&& holds_lease(j, lease)
    &&& match j.lease_expires_at {
        Some(e) => e >= now,
        None => false,
    }
}

/// The job with the fields that the update carries replaced.
pub open spec fn applied(j: JobView, u: JobUpdate) -> JobView {
    JobView {
        priority: match u.priority {
            Some(p) => p,
            None => j.priority,
        },
        payload: match u.payload {
            Some(p) => p@,
            None => j.payload,
        },
        metadata: match u.metadata {
            Some(m) => Some(m@),
            None => j.metadata,
        },
        ..j
    }
}

/// Outcome of `update`.
pub open spec fn update_result(t: Seq<JobView>, u: JobUpdate, now: u64) -> Result<(), QueueError> {
    match lookup(t, u.id) {
        None => Err(QueueError::NotFound),
        Some(i) => if lease_live(t[i], u.lease_id, now) {
            Ok(())
        } else {
            Err(QueueError::LeaseExpired)
        },
    }
}

/// The table after `update`.
pub open spec fn after_update(t: Seq<JobView>, u: JobUpdate, now: u64) -> Seq<JobView> {
    match update_result(t, u, now) {
        Ok(_) => t.update(lookup(t, u.id)->0, applied(t[lookup(t, u.id)->0], u)),
        Err(_) => t,
    }
}

/// Every job is well formed, ids are unique and below `next_id`, and leases are below `next_lease`.
pub open spec fn table_wf(t: Seq<JobView>, next_id: u64, next_lease: u64) -> bool {
    &&& ids_unique(t)
    &&& forall|i: int| 0 <= i < t.len() ==> #[trigger] job_wf(t[i])
    &&& forall|i: int| 0 <= i < t.len() ==> (#[trigger] t[i]).id < next_id
    &&& forall|i: int| 0 <= i < t.len() && (#[trigger] t[i]).lease_id is Some ==> t[i].lease_id->0 < next_lease
}

/// Replacing one job by a well-formed record with the same id and an old lease keeps the table well formed.
proof fn lemma_table_wf_update(t: Seq<JobView>, next_id: u64, next_lease: u64, i: int, v: JobView)
    requires
        table_wf(t, next_id, next_lease),
        0 <= i < t.len(),
        job_wf(v),
        v.id == t[i].id,
        v.lease_id is Some ==> v.lease_id->0 < next_lease,
    ensures
        table_wf(t.update(i, v), next_id, next_lease),
{
    let u = t.update(i, v);
    assert forall|a: int, b: int| 0 <= a < u.len() && 0 <= b < u.len() && a != b implies u[a].id != u[b].id by {
        assert(u[a].id == t[a].id && u[b].id == t[b].id);
    }
}

proof fn lemma_table_wf_more_leases(t: Seq<JobView>, next_id: u64, a: u64, b: u64)
    requires
        table_wf(t, next_id, a),
        a <= b,
    ensures
        table_wf(t, next_id, b),
{
}

/// Dequeue stamps a job: it was eligible, and is now running under a lease
/// handed out in this call, until `expires`.
pub open spec fn is_claim(
    o: JobView,
    n: JobView,
    shard: u64,
    queue: Seq<char>,
    now: u64,
    expires: u64,
    first_lease: u64,
) -> bool {
    &&& eligible(o, shard, queue, now)
    &&& n.lease_id is Some
    &&& n.lease_id->0 >= first_lease
    &&& n == leased(o, n.lease_id->0, expires)
}

/// What `dequeue` does, except that it claims as many as it may: jobs change only
/// by being claimed, every claimed job precedes every eligible one left behind,
/// and the result holds each claimed job once, in claim order.
pub open spec fn claims_ordered(
    old_t: Seq<JobView>,
    new_t: Seq<JobView>,
    first_lease: u64,
    shard: u64,
    queue: Seq<char>,
    max_count: nat,
    expires: u64,
    now: u64,
    r: Seq<JobView>,
) -> bool {
    &&& new_t.len() == old_t.len()
    &&& forall|i: int|
        0 <= i < old_t.len() ==> new_t[i] == old_t[i]
            || is_claim(old_t[i], #[trigger] new_t[i], shard, queue, now, expires, first_lease)
    &&& forall|i: int, j: int|
        0 <= i < old_t.len() && 0 <= j < old_t.len()
            && is_claim(old_t[i], #[trigger] new_t[i], shard, queue, now, expires, first_lease)
            && eligible(old_t[j], shard, queue, now) && #[trigger] new_t[j] == old_t[j]
            ==> key_le(old_t[i], old_t[j])
    &&& r.len() <= max_count
    &&& forall|k: int| #![trigger r[k]]
        0 <= k < r.len() ==> r[k].state == JobState::Running && exists|i: int|
            0 <= i < old_t.len() && is_claim(old_t[i], new_t[i], shard, queue, now, expires, first_lease)
                && r[k] == #[trigger] new_t[i]
    &&& forall|i: int|
        0 <= i < old_t.len() && is_claim(old_t[i], #[trigger] new_t[i], shard, queue, now, expires, first_lease)
            ==> exists|k: int| 0 <= k < r.len() && #[trigger] r[k] == new_t[i]
    &&& forall|k1: int, k2: int| 0 <= k1 < k2 < r.len() ==> key_le(#[trigger] r[k1], #[trigger] r[k2])
        && r[k1].id != r[k2].id
}

/// What `dequeue(shard, queue, max_count, lease_duration)` at time `now` does to the
/// table, with `r` the jobs it returns: the claims are ordered, and it claims
/// `max_count` jobs unless no eligible job is left.
pub open spec fn dequeue_post(
    old_t: Seq<JobView>,
    new_t: Seq<JobView>,
    first_lease: u64,
    shard: u64,
    queue: Seq<char>,
    max_count: nat,
    lease_duration: u64,
    now: u64,
    r: Seq<JobView>,
) -> bool {
    let expires = (now + lease_duration) as u64;
    &&& claims_ordered(old_t, new_t, first_lease, shard, queue, max_count, expires, now, r)
    &&& r.len() < max_count ==> forall|j: int|
        0 <= j < old_t.len() ==> !(eligible(old_t[j], shard, queue, now) && #[trigger] new_t[j] == old_t[j])
}

/// Exec form of `key_le`.
fn key_before(a: &Job, b: &Job) -> (r: bool)
    ensures
        r == key_le(a@, b@),
{
    a.priority < b.priority || (a.priority == b.priority && a.scheduled_at < b.scheduled_at) || (
    a.priority == b.priority && a.scheduled_at == b.scheduled_at && a.id <= b.id)
}

/// Exec form of `eligible`.
fn is_eligible(j: &Job, shard: u64, queue: &String, now: u64) -> (r: bool)
    ensures
        r == eligible(j@, shard, queue@, now),
{
    j.state == JobState::Available && j.shard_id == shard && j.scheduled_at <= now && j.queue_name.eq(queue)
}

/// One claim of `dequeue`: the claimed positions and the result stay in step.
proof fn lemma_claim_indices(
    old_t: Seq<JobView>,
    cur: Seq<JobView>,
    first: u64,
    shard_id: u64,
    queue: Seq<char>,
    max_count: nat,
    expires: u64,
    now: u64,
    out_before: Seq<JobView>,
    old_idxs: Seq<int>,
    mi: int,
    lease: u64,
)
    requires
        ids_unique(old_t),
        claims_ordered(old_t, cur, first, shard_id, queue, max_count, expires, now, out_before),
        out_before.len() < max_count,
        old_idxs.len() == out_before.len(),
        forall|k: int| 0 <= k < old_idxs.len() ==> 0 <= #[trigger] old_idxs[k] < old_t.len()
            && is_claim(old_t[old_idxs[k]], cur[old_idxs[k]], shard_id, queue, now, expires, first)
            && out_before[k] == cur[old_idxs[k]],
        0 <= mi < cur.len(),
        eligible(cur[mi], shard_id, queue, now),
        forall|k: int| 0 <= k < cur.len() && eligible(cur[k], shard_id, queue, now) ==> key_le(cur[mi], cur[k]),
        lease >= first,
    ensures ({
        let jv = leased(old_t[mi], lease, expires);
        let nt = cur.update(mi, jv);
        let rv = out_before.push(jv);
        let idxs = old_idxs.push(mi);
        &&& cur[mi] == old_t[mi]
        &&& forall|k: int| 0 <= k < idxs.len() ==> 0 <= #[trigger] idxs[k] < old_t.len()
            && is_claim(old_t[idxs[k]], nt[idxs[k]], shard_id, queue, now, expires, first)
            && rv[k] == nt[idxs[k]]
    }),
{
    let jv = leased(old_t[mi], lease, expires);
    let nt = cur.update(mi, jv);
    let rv = out_before.push(jv);
    let idxs = old_idxs.push(mi);
    assert(cur[mi] == old_t[mi]);
    assert forall|k: int| 0 <= k < idxs.len() implies 0 <= #[trigger] idxs[k] < old_t.len()
        && is_claim(old_t[idxs[k]], nt[idxs[k]], shard_id, queue, now, expires, first)
        && rv[k] == nt[idxs[k]] by {
        if k < idxs.len() - 1 {
            assert(idxs[k] == old_idxs[k]);
            assert(idxs[k] != mi);
        }
    }
}

/// One claim of `dequeue`: the table changes only by ordered claims.
proof fn lemma_claim_table(
    old_t: Seq<JobView>,
    cur: Seq<JobView>,
    first: u64,
    shard_id: u64,
    queue: Seq<char>,
    max_count: nat,
    expires: u64,
    now: u64,
    out_before: Seq<JobView>,
    old_idxs: Seq<int>,
    mi: int,
    lease: u64,
)
    requires
        ids_unique(old_t),
        claims_ordered(old_t, cur, first, shard_id, queue, max_count, expires, now, out_before),
        out_before.len() < max_count,
        old_idxs.len() == out_before.len(),
        forall|k: int| 0 <= k < old_idxs.len() ==> 0 <= #[trigger] old_idxs[k] < old_t.len()
            && is_claim(old_t[old_idxs[k]], cur[old_idxs[k]], shard_id, queue, now, expires, first)
            && out_before[k] == cur[old_idxs[k]],
        0 <= mi < cur.len(),
        eligible(cur[mi], shard_id, queue, now),
        forall|k: int| 0 <= k < cur.len() && eligible(cur[k], shard_id, queue, now) ==> key_le(cur[mi], cur[k]),
        lease >= first,
    ensures ({
        let jv = leased(old_t[mi], lease, expires);
        let nt = cur.update(mi, jv);
        let rv = out_before.push(jv);
        let idxs = old_idxs.push(mi);
        &&& nt.len() == old_t.len()
        &&& forall|i: int|
            0 <= i < old_t.len() ==> nt[i] == old_t[i]
                || is_claim(old_t[i], #[trigger] nt[i], shard_id, queue, now, expires, first)
        &&& forall|i: int, j: int|
            0 <= i < old_t.len() && 0 <= j < old_t.len()
                && is_claim(old_t[i], #[trigger] nt[i], shard_id, queue, now, expires, first)
                && eligible(old_t[j], shard_id, queue, now) && #[trigger] nt[j] == old_t[j]
                ==> key_le(old_t[i], old_t[j])
    }),
{
    let jv = leased(old_t[mi], lease, expires);
    let nt = cur.update(mi, jv);
    let rv = out_before.push(jv);
    let idxs = old_idxs.push(mi);
    assert(cur[mi] == old_t[mi]);
    assert(nt[mi] != old_t[mi]);
    assert forall|i: int| 0 <= i < old_t.len() implies nt[i] == old_t[i]
        || is_claim(old_t[i], #[trigger] nt[i], shard_id, queue, now, expires, first) by {
        if i != mi {
            assert(nt[i] == cur[i]);
        }
    }
    assert forall|i: int, jj: int|
        0 <= i < old_t.len() && 0 <= jj < old_t.len()
            && is_claim(old_t[i], #[trigger] nt[i], shard_id, queue, now, expires, first)
            && eligible(old_t[jj], shard_id, queue, now) && #[trigger] nt[jj] == old_t[jj]
        implies key_le(old_t[i], old_t[jj]) by {
        assert(jj != mi);
        assert(nt[jj] == cur[jj]);
        assert(eligible(cur[jj], shard_id, queue, now));
        if i != mi {
            assert(nt[i] == cur[i]);
            assert(is_claim(old_t[i], cur[i], shard_id, queue, now, expires, first));
        }
    }
}

/// One claim of `dequeue`: the result holds each claimed job once, in claim order.
proof fn lemma_claim_result(
    old_t: Seq<JobView>,
    cur: Seq<JobView>,
    first: u64,
    shard_id: u64,
    queue: Seq<char>,
    max_count: nat,
    expires: u64,
    now: u64,
    out_before: Seq<JobView>,
    old_idxs: Seq<int>,
    mi: int,
    lease: u64,
)
    requires
        ids_unique(old_t),
        claims_ordered(old_t, cur, first, shard_id, queue, max_count, expires, now, out_before),
        out_before.len() < max_count,
        old_idxs.len() == out_before.len(),
        forall|k: int| 0 <= k < old_idxs.len() ==> 0 <= #[trigger] old_idxs[k] < old_t.len()
            && is_claim(old_t[old_idxs[k]], cur[old_idxs[k]], shard_id, queue, now, expires, first)
            && out_before[k] == cur[old_idxs[k]],
        0 <= mi < cur.len(),
        eligible(cur[mi], shard_id, queue, now),
        forall|k: int| 0 <= k < cur.len() && eligible(cur[k], shard_id, queue, now) ==> key_le(cur[mi], cur[k]),
        lease >= first,
    ensures ({
        let jv = leased(old_t[mi], lease, expires);
        let nt = cur.update(mi, jv);
        let rv = out_before.push(jv);
        let idxs = old_idxs.push(mi);
        &&& forall|k: int| #![trigger rv[k]]
            0 <= k < rv.len() ==> rv[k].state == JobState::Running && exists|i: int|
                0 <= i < old_t.len() && is_claim(old_t[i], nt[i], shard_id, queue, now, expires, first)
                    && rv[k] == #[trigger] nt[i]
        &&& forall|i: int|
            0 <= i < old_t.len() && is_claim(old_t[i], #[trigger] nt[i], shard_id, queue, now, expires, first)
                ==> exists|k: int| 0 <= k < rv.len() && #[trigger] rv[k] == nt[i]
        &&& forall|k1: int, k2: int| 0 <= k1 < k2 < rv.len() ==> key_le(#[trigger] rv[k1], #[trigger] rv[k2])
            && rv[k1].id != rv[k2].id
    }),
{
    let jv = leased(old_t[mi], lease, expires);
    let nt = cur.update(mi, jv);
    let rv = out_before.push(jv);
    let idxs = old_idxs.push(mi);
    assert(cur[mi] == old_t[mi]);
    lemma_claim_indices(old_t, cur, first, shard_id, queue, max_count, expires, now, out_before, old_idxs, mi, lease);
    lemma_claim_table(old_t, cur, first, shard_id, queue, max_count, expires, now, out_before, old_idxs, mi, lease);
    assert forall|k: int| #![trigger rv[k]] 0 <= k < rv.len() implies rv[k].state == JobState::Running && exists|i: int|
        0 <= i < old_t.len() && is_claim(old_t[i], nt[i], shard_id, queue, now, expires, first)
            && rv[k] == #[trigger] nt[i] by {
        let w = idxs[k];
        assert(0 <= w < old_t.len() && is_claim(old_t[w], nt[w], shard_id, queue, now, expires, first) && rv[k] == nt[w]);
        assert(exists|i: int| 0 <= i < old_t.len() && is_claim(old_t[i], nt[i], shard_id, queue, now, expires, first)
            && rv[k] == #[trigger] nt[i]);
    }
    assert forall|i: int|
        0 <= i < old_t.len() && is_claim(old_t[i], #[trigger] nt[i], shard_id, queue, now, expires, first)
        implies exists|k: int| 0 <= k < rv.len() && #[trigger] rv[k] == nt[i] by {
        if i == mi {
            assert(rv[rv.len() - 1] == nt[i]);
        } else {
            assert(nt[i] == cur[i]);
            assert(is_claim(old_t[i], cur[i], shard_id, queue, now, expires, first));
            let k = choose|k: int| 0 <= k < out_before.len() && #[trigger] out_before[k] == cur[i];
            assert(rv[k] == nt[i]);
        }
    }
    assert forall|k1: int, k2: int| 0 <= k1 < k2 < rv.len() implies key_le(#[trigger] rv[k1], #[trigger] rv[k2])
        && rv[k1].id != rv[k2].id by {
        if k2 == rv.len() - 1 {
            let i1 = idxs[k1];
            assert(i1 != mi);
            assert(rv[k1] == out_before[k1]);
            assert(out_before[k1] == cur[i1]);
            assert(is_claim(old_t[i1], cur[i1], shard_id, queue, now, expires, first));
            assert(cur[mi] == old_t[mi]);
            assert(key_le(old_t[i1], old_t[mi]));
            assert(old_t[i1].id != old_t[mi].id);
        } else {
            assert(rv[k1] == out_before[k1]);
            assert(rv[k2] == out_before[k2]);
        }
    }
}

/// One claim of `dequeue` keeps its claims ordered.
proof fn lemma_claim_step(
    old_t: Seq<JobView>,
    cur: Seq<JobView>,
    first: u64,
    shard_id: u64,
    queue: Seq<char>,
    max_count: nat,
    expires: u64,
    now: u64,
    out_before: Seq<JobView>,
    old_idxs: Seq<int>,
    mi: int,
    lease: u64,
)
    requires
        ids_unique(old_t),
        claims_ordered(old_t, cur, first, shard_id, queue, max_count, expires, now, out_before),
        out_before.len() < max_count,
        old_idxs.len() == out_before.len(),
        forall|k: int| 0 <= k < old_idxs.len() ==> 0 <= #[trigger] old_idxs[k] < old_t.len()
            && is_claim(old_t[old_idxs[k]], cur[old_idxs[k]], shard_id, queue, now, expires, first)
            && out_before[k] == cur[old_idxs[k]],
        0 <= mi < cur.len(),
        eligible(cur[mi], shard_id, queue, now),
        forall|k: int| 0 <= k < cur.len() && eligible(cur[k], shard_id, queue, now) ==> key_le(cur[mi], cur[k]),
        lease >= first,
    ensures ({
        let jv = leased(old_t[mi], lease, expires);
        let nt = cur.update(mi, jv);
        let rv = out_before.push(jv);
        let idxs = old_idxs.push(mi);
        &&& cur[mi] == old_t[mi]
        &&& claims_ordered(old_t, nt, first, shard_id, queue, max_count, expires, now, rv)
        &&& forall|k: int| 0 <= k < idxs.len() ==> 0 <= #[trigger] idxs[k] < old_t.len()
            && is_claim(old_t[idxs[k]], nt[idxs[k]], shard_id, queue, now, expires, first)
            && rv[k] == nt[idxs[k]]
    }),
{
    lemma_claim_indices(old_t, cur, first, shard_id, queue, max_count, expires, now, out_before, old_idxs, mi, lease);
    lemma_claim_table(old_t, cur, first, shard_id, queue, max_count, expires, now, out_before, old_idxs, mi, lease);
    lemma_claim_result(old_t, cur, first, shard_id, queue, max_count, expires, now, out_before, old_idxs, mi, lease);
    let jv = leased(old_t[mi], lease, expires);
    let rv = out_before.push(jv);
    assert(rv.len() <= max_count);
}

/// Appending a well-formed job whose id is `next_id` keeps the table well formed, with the next id after it.
proof fn lemma_table_wf_push(t: Seq<JobView>, next_id: u64, next_lease: u64, v: JobView)
    requires
        table_wf(t, next_id, next_lease),
        job_wf(v),
        v.id == next_id,
        next_id < u64::MAX,
        v.lease_id is None,
    ensures
        table_wf(t.push(v), (next_id + 1) as u64, next_lease),
{
    let u = t.push(v);
    assert forall|i: int| 0 <= i < u.len() implies #[trigger] job_wf(u[i]) && u[i].id < next_id + 1 by {
        if i < t.len() {
            assert(u[i] == t[i]);
        }
    }
    assert forall|a: int, b: int| 0 <= a < u.len() && 0 <= b < u.len() && a != b implies u[a].id != u[b].id by {
        if a < t.len() {
            assert(u[a] == t[a]);
        }
        if b < t.len() {
            assert(u[b] == t[b]);
        }
    }
    assert forall|i: int| 0 <= i < u.len() && (#[trigger] u[i]).lease_id is Some implies u[i].lease_id->0 < next_lease by {
        assert(u[i] == t[i]);
    }
}

/// Appending a well-formed job whose id no job of the table has keeps the table well formed.
proof fn lemma_table_wf_push_fresh(t: Seq<JobView>, next_id: u64, next_lease: u64, v: JobView)
    requires
        table_wf(t, next_id, next_lease),
        job_wf(v),
        v.id < next_id,
        v.lease_id is Some ==> v.lease_id->0 < next_lease,
        forall|k: int| 0 <= k < t.len() ==> #[trigger] t[k].id != v.id,
    ensures
        table_wf(t.push(v), next_id, next_lease),
{
    let u = t.push(v);
    assert forall|i: int| 0 <= i < u.len() implies #[trigger] job_wf(u[i]) && u[i].id < next_id
        && (u[i].lease_id is Some ==> u[i].lease_id->0 < next_lease) by {
        if i < t.len() {
            assert(u[i] == t[i]);
        }
    }
    assert forall|a: int, b: int| 0 <= a < u.len() && 0 <= b < u.len() && a != b implies u[a].id != u[b].id by {
        if a < t.len() {
            assert(u[a] == t[a]);
        }
        if b < t.len() {
            assert(u[b] == t[b]);
        }
    }
}

/// Exec form of `valid_init`.
fn is_valid_init(init: &JobInit, now: u64, tolerance: u64) -> (r: bool)
    ensures
        r == valid_init(init@, now, tolerance),
{
    let dlq = String::from_str(DEAD_LETTER_QUEUE);
    let timely = now <= tolerance || now - tolerance <= init.scheduled_at;
    !init.queue_name.as_str().is_empty() && !init.queue_name.eq(&dlq) && init.max_attempts >= 1 && timely
}

/// `last_error` of a job that the janitor dead-letters.
pub const LEASE_EXPIRED_ERROR: &'static str = "lease expired, retries exhausted";

/// The job is running under a lease that lapsed before `now`.
pub open spec fn lease_lapsed(j: JobView, now: u64) -> bool {
    &&& j.state == JobState::Running
    &&& j.lease_expires_at is Some
    &&& j.lease_expires_at->0 < now
}

/// The janitor's treatment of one job at `now`: a job whose lease lapsed becomes
/// `Available` again, due at once, while attempts remain, and is dead-lettered after.
pub open spec fn reclaimed(j: JobView, now: u64) -> JobView {
    if lease_lapsed(j, now) {
        if j.attempt_count < j.max_attempts {
            requeued(j, if j.scheduled_at >= now { j.scheduled_at } else { now }, j.last_error, now)
        } else {
            dead_lettered(j, LEASE_EXPIRED_ERROR@, DEAD_LETTER_QUEUE@, now)
        }
    } else {
        j
    }
}

/// The table after lease reclamation at `now`.
pub open spec fn after_reclaim(t: Seq<JobView>, now: u64) -> Seq<JobView> {
    Seq::new(t.len(), |i: int| reclaimed(t[i], now))
}

/// The job is past its retention window at `now`: completed more than `completed_ms` ago,
/// or dead-lettered more than `dead_ms` ago when dead letters are pruned at all.
pub open spec fn expired_record(j: JobView, now: u64, completed_ms: u64, dead_ms: Option<u64>) -> bool {
    ||| (j.state == JobState::Completed && j.transitioned_at + completed_ms < now)
    ||| (j.state == JobState::DeadLettered && dead_ms is Some && j.transitioned_at + dead_ms->0 < now)
}

/// The table after the retention sweep.
pub open spec fn after_purge(t: Seq<JobView>, now: u64, completed_ms: u64, dead_ms: Option<u64>) -> Seq<JobView> {
    t.filter(retained(now, completed_ms, dead_ms))
}

/// The records that the retention sweep keeps.
pub open spec fn retained(now: u64, completed_ms: u64, dead_ms: Option<u64>) -> spec_fn(JobView) -> bool {
    |j: JobView| !expired_record(j, now, completed_ms, dead_ms)
}

/// The records of one queue.
pub open spec fn of_queue(queue: Seq<char>) -> spec_fn(JobView) -> bool {
    |j: JobView| j.queue_name == queue
}

/// The jobs of one queue, in table order.
pub open spec fn in_queue(t: Seq<JobView>, queue: Seq<char>) -> Seq<JobView> {
    t.filter(of_queue(queue))
}

fn is_expired_record(j: &Job, now: u64, completed_ms: u64, dead_ms: Option<u64>) -> (r: bool)
    ensures
        r == expired_record(j@, now, completed_ms, dead_ms),
{
    let done = j.state == JobState::Completed && now > completed_ms && j.transitioned_at < now - completed_ms;
    let dead = match dead_ms {
        Some(d) => j.state == JobState::DeadLettered && now > d && j.transitioned_at < now - d,
        None => false,
    };
    done || dead
}

impl QueueManager {
    /// The job table.
    pub closed spec fn table(&self) -> Seq<JobView> {
        self.jobs@.map_values(|j: Job| j@)
    }

    /// How far in the past a new job may be scheduled.
    pub closed spec fn tolerance(&self) -> u64 {
        self.tolerance
    }

    /// The shard that a job with this id is created into.
    pub closed spec fn shard_for(&self, id: u64) -> u64 {
        self.shards@[(id % (self.shards@.len() as u64)) as int]
    }

    /// How many more job ids can be handed out.
    pub closed spec fn ids_left(&self) -> nat {
        (u64::MAX - self.next_id) as nat
    }

    /// How many more lease tokens can be handed out.
    pub closed spec fn leases_left(&self) -> nat {
        (u64::MAX - self.next_lease) as nat
    }

    /// The lease token that the next claim receives.
    pub closed spec fn first_free_lease(&self) -> u64 {
        self.next_lease
    }

    /// The shard registry.
    pub closed spec fn shard_ids(&self) -> Seq<u64> {
        self.shards@
    }

    /// The manager's invariant.
    pub closed spec fn wf(&self) -> bool {
        &&& self.shards@.len() >= 1
        &&& table_wf(self.table(), self.next_id, self.next_lease)
    }

    /// Both managers have the same shard registry and settings.
    pub open spec fn same_settings(&self, o: &QueueManager) -> bool {
        &&& self.shard_ids() == o.shard_ids()
        &&& self.tolerance() == o.tolerance()
    }

    /// Only the table may differ between the two managers.
    pub open spec fn same_counters(&self, o: &QueueManager) -> bool {
        &&& self.same_settings(o)
        &&& self.ids_left() == o.ids_left()
        &&& self.leases_left() == o.leases_left()
    }

    proof fn lemma_table(&self)
        ensures
            self.table().len() == self.jobs@.len(),
            forall|i: int| 0 <= i < self.jobs@.len() ==> #[trigger] self.table()[i] == self.jobs@[i]@,
    {
    }

    /// An empty manager over the configured shards.
    pub fn new(config: ManagerConfig) -> (r: Result<QueueManager, QueueError>)
        ensures
            config.shards@.len() == 0 <==> r == Err::<QueueManager, QueueError>(QueueError::ValidationError),
            r is Ok ==> {
                let m = r->Ok_0;
                &&& m.wf()
                &&& m.table() == Seq::<JobView>::empty()
                &&& m.shard_ids() == config.shards@
                &&& m.tolerance() == config.schedule_tolerance_ms
                &&& m.ids_left() == u64::MAX as nat
                &&& m.leases_left() == u64::MAX as nat
            },
    {
        if config.shards.len() == 0 {
            return Err(QueueError::ValidationError);
        }
        let m = QueueManager {
            jobs: Vec::new(),
            shards: config.shards,
            tolerance: config.schedule_tolerance_ms,
            next_id: 0,
            next_lease: 0,
        };
        assert(m.table() =~= Seq::<JobView>::empty());
        Ok(m)
    }

    /// Position of the job with this id.
    fn find_index(&self, id: u64) -> (r: Option<usize>)
        requires
            self.wf(),
        ensures
            r is Some <==> lookup(self.table(), id) is Some,
            r is Some ==> lookup(self.table(), id) == Some(r->0 as int) && (r->0 as int) < self.table().len(),
    {
        proof { self.lemma_table(); }
        let mut i: usize = 0;
        while i < self.jobs.len()
            invariant
                self.wf(),
                i <= self.jobs@.len(),
                forall|k: int| 0 <= k < i ==> self.table()[k].id != id,
            decreases self.jobs@.len() - i,
        {
            if self.jobs[i].id == id {
                proof {
                    let t = self.table();
                    assert(0 <= i < t.len() && t[i as int].id == id);
                    let c = choose|k: int| 0 <= k < t.len() && t[k].id == id;
                    assert(t[c].id == t[i as int].id);
                    assert(c == i as int);
                }
                return Some(i);
            }
            i += 1;
        }
        None
    }

    fn replace_job(&mut self, i: usize, j: Job)
        requires
            i < old(self).jobs@.len(),
        ensures
            final(self).table() == old(self).table().update(i as int, j@),
            final(self).same_counters(old(self)),
    {
        self.jobs.set(i, j);
        assert(self.table() =~= old(self).table().update(i as int, j@));
    }

    /// Whether the job at `i` is running under `lease`.
    fn holds_at(&self, i: usize, lease: u64) -> (r: bool)
        requires
            i < self.jobs@.len(),
        ensures
            r == holds_lease(self.table()[i as int], lease),
    {
        proof { self.lemma_table(); }
        match self.jobs[i].lease_id {
            Some(l) => l == lease && self.jobs[i].state == JobState::Running,
            None => false,
        }
    }

    /// Marks a running job `Completed`. Fails with `NotFound` if there is no such job and
    /// with `LeaseMismatch` unless the caller holds its current lease.
    pub fn complete(&mut self, job_id: u64, lease_id: u64, now: u64) -> (r: Result<(), QueueError>)
        requires
            old(self).wf(),
        ensures
            final(self).wf(),
            final(self).same_counters(old(self)),
            r == guard_result(old(self).table(), job_id, lease_id),
            final(self).table() == after_complete(old(self).table(), job_id, lease_id, now),
    {
        proof { self.lemma_table(); }
        let i = match self.find_index(job_id) {
            Some(i) => i,
            None => return Err(QueueError::NotFound),
        };
        if !self.holds_at(i, lease_id) {
            return Err(QueueError::LeaseMismatch);
        }
        let mut j = self.jobs[i].duplicate();
        j.state = JobState::Completed;
        j.lease_id = None;
        j.lease_expires_at = None;
        j.transitioned_at = now;
        self.replace_job(i, j);
        proof {
            self.lemma_table();
            assert(j@ == completed(old(self).table()[i as int], now));
            assert(job_wf(old(self).table()[i as int]));
            lemma_table_wf_update(old(self).table(), self.next_id, self.next_lease, i as int, j@);
            assert(forall|k: int| 0 <= k < self.jobs@.len() ==> #[trigger] self.jobs@[k]@ == self.table()[k]);
        }
        Ok(())
    }

    /// Reports a failed attempt. The job goes back to `Available`, not before
    /// `now + retry_after`, while attempts remain, and to the dead-letter queue after.
    /// Fails as `complete` does.
    pub fn fail(
        &mut self,
        job_id: u64,
        lease_id: u64,
        error_detail: String,
        retry_after: Option<u64>,
        now: u64,
    ) -> (r: Result<(), QueueError>)
        requires
            old(self).wf(),
            retry_after is Some ==> now + retry_after->0 <= u64::MAX,
        ensures
            final(self).wf(),
            final(self).same_counters(old(self)),
            r == guard_result(old(self).table(), job_id, lease_id),
            final(self).table() == after_fail(old(self).table(), job_id, lease_id, error_detail@, retry_after, now),
    {
        proof { self.lemma_table(); }
        let i = match self.find_index(job_id) {
            Some(i) => i,
            None => return Err(QueueError::NotFound),
        };
        if !self.holds_at(i, lease_id) {
            return Err(QueueError::LeaseMismatch);
        }
        let mut j = self.jobs[i].duplicate();
        let target: u64 = match retry_after {
            Some(d) => now + d,
            None => now,
        };
        j.lease_id = None;
        j.lease_expires_at = None;
        j.last_error = Some(error_detail);
        j.transitioned_at = now;
        if j.attempt_count < j.max_attempts {
            j.state = JobState::Available;
            if j.scheduled_at < target {
                j.scheduled_at = target;
            }
        } else {
            j.state = JobState::DeadLettered;
            j.queue_name = String::from_str(DEAD_LETTER_QUEUE);
        }
        self.replace_job(i, j);
        proof {
            self.lemma_table();
            let o = old(self).table()[i as int];
            let at = retry_at(o, retry_after, now);
            if o.attempt_count < o.max_attempts {
                assert(j@ == requeued(o, at, Some(error_detail@), now));
            } else {
                assert(j@.queue_name == DEAD_LETTER_QUEUE@);
                assert(j@ == dead_lettered(o, error_detail@, DEAD_LETTER_QUEUE@, now));
            }
            assert(job_wf(old(self).table()[i as int]));
            lemma_table_wf_update(old(self).table(), self.next_id, self.next_lease, i as int, j@);
            assert(forall|k: int| 0 <= k < self.jobs@.len() ==> #[trigger] self.jobs@[k]@ == self.table()[k]);
        }
        Ok(())
    }

    /// Extends a held lease to `now + duration` and returns the new deadline. Fails with
    /// `NotFound` if there is no such job and with `LeaseExpired` if the lease is no longer held.
    pub fn renew_lease(&mut self, job_id: u64, lease_id: u64, duration: u64, now: u64) -> (r: Result<u64, QueueError>)
        requires
            old(self).wf(),
            now + duration <= u64::MAX,
        ensures
            final(self).wf(),
            final(self).same_counters(old(self)),
            r == renew_result(old(self).table(), job_id, lease_id, duration, now),
            final(self).table() == after_renew(old(self).table(), job_id, lease_id, duration, now),
    {
        proof { self.lemma_table(); }
        let i = match self.find_index(job_id) {
            Some(i) => i,
            None => return Err(QueueError::NotFound),
        };
        if !self.holds_at(i, lease_id) {
            return Err(QueueError::LeaseExpired);
        }
        let mut j = self.jobs[i].duplicate();
        let mut deadline: u64 = now + duration;
        match j.lease_expires_at {
            Some(e) => {
                if e >= deadline {
                    deadline = e;
                }
            },
            None => {},
        }
        j.lease_expires_at = Some(deadline);
        self.replace_job(i, j);
        proof {
            self.lemma_table();
            assert(j@ == renewed(old(self).table()[i as int], deadline));
            assert(job_wf(old(self).table()[i as int]));
            lemma_table_wf_update(old(self).table(), self.next_id, self.next_lease, i as int, j@);
        }
        Ok(deadline)
    }

    /// Applies a partial update to a job whose lease the caller holds and which has not
    /// lapsed at `now`. Fails with `NotFound` if there is no such job, with `LeaseExpired` otherwise.
    pub fn update(&mut self, upd: JobUpdate, now: u64) -> (r: Result<(), QueueError>)
        requires
            old(self).wf(),
        ensures
            final(self).wf(),
            final(self).same_counters(old(self)),
            r == update_result(old(self).table(), upd, now),
            final(self).table() == after_update(old(self).table(), upd, now),
    {
        proof { self.lemma_table(); }
        let ghost u = upd;
        let i = match self.find_index(upd.id) {
            Some(i) => i,
            None => return Err(QueueError::NotFound),
        };
        if !self.holds_at(i, upd.lease_id) {
            return Err(QueueError::LeaseExpired);
        }
        let live = match self.jobs[i].lease_expires_at {
            Some(e) => e >= now,
            None => false,
        };
        if !live {
            return Err(QueueError::LeaseExpired);
        }
        let mut j = self.jobs[i].duplicate();
        let JobUpdate { id: _, lease_id: _, priority, payload, metadata } = upd;
        match priority {
            Some(p) => { j.priority = p; },
            None => {},
        }
        match payload {
            Some(p) => { j.payload = p; },
            None => {},
        }
        match metadata {
            Some(m) => { j.metadata = Some(m); },
            None => {},
        }
        self.replace_job(i, j);
        proof {
            self.lemma_table();
            assert(j@ == applied(old(self).table()[i as int], u));
            assert(job_wf(old(self).table()[i as int]));
            lemma_table_wf_update(old(self).table(), self.next_id, self.next_lease, i as int, j@);
            assert(forall|k: int| 0 <= k < self.jobs@.len() ==> #[trigger] self.jobs@[k]@ == self.table()[k]);
        }
        Ok(())
    }

    /// Position of the first eligible job in claim order.
    fn next_eligible(&self, shard: u64, queue: &String, now: u64) -> (r: Option<usize>)
        requires
            self.wf(),
        ensures
            r is Some ==> {
                let t = self.table();
                let b = r->0 as int;
                &&& b < t.len()
                &&& eligible(t[b], shard, queue@, now)
                &&& forall|k: int| 0 <= k < t.len() && eligible(t[k], shard, queue@, now) ==> key_le(t[b], t[k])
            },
            r is None ==> forall|k: int| 0 <= k < self.table().len() ==> !eligible(#[trigger] self.table()[k], shard, queue@, now),
    {
        proof { self.lemma_table(); }
        let mut best: Option<usize> = None;
        let mut i: usize = 0;
        while i < self.jobs.len()
            invariant
                self.wf(),
                i <= self.jobs@.len(),
                self.table().len() == self.jobs@.len(),
                forall|k: int| 0 <= k < self.jobs@.len() ==> #[trigger] self.table()[k] == self.jobs@[k]@,
                best is Some ==> {
                    let t = self.table();
                    let b = best->0 as int;
                    &&& b < i
                    &&& eligible(t[b], shard, queue@, now)
                    &&& forall|k: int| 0 <= k < i && eligible(t[k], shard, queue@, now) ==> key_le(t[b], t[k])
                },
                best is None ==> forall|k: int| 0 <= k < i ==> !eligible(#[trigger] self.table()[k], shard, queue@, now),
            decreases self.jobs@.len() - i,
        {
            if is_eligible(&self.jobs[i], shard, queue, now) {
                match best {
                    None => {
                        best = Some(i);
                    },
                    Some(b) => {
                        if key_before(&self.jobs[i], &self.jobs[b]) {
                            best = Some(i);
                        }
                    },
                }
            }
            i += 1;
        }
        best
    }

    /// Atomically claims up to `max_count` jobs of `queue` on `shard` that are
    /// `Available` and due at `now`, in order of priority, scheduled time and creation;
    /// each enters `Running` under a fresh lease until `now + lease_duration`.
    /// Returns the claimed records; none if nothing is eligible.
    pub fn dequeue(
        &mut self,
        shard_id: u64,
        queue_name: &String,
        max_count: usize,
        lease_duration: u64,
        now: u64,
    ) -> (r: Vec<Job>)
        requires
            old(self).wf(),
            now + lease_duration <= u64::MAX,
            max_count <= old(self).leases_left(),
        ensures
            final(self).wf(),
            final(self).same_settings(old(self)),
            final(self).ids_left() == old(self).ids_left(),
            final(self).leases_left() + r@.len() == old(self).leases_left(),
            dequeue_post(
                old(self).table(),
                final(self).table(),
                old(self).first_free_lease(),
                shard_id,
                queue_name@,
                max_count as nat,
                lease_duration,
                now,
                r@.map_values(|j: Job| j@),
            ),
    {
        let expires: u64 = now + lease_duration;
        let ghost old_t = self.table();
        let ghost first = self.next_lease;
        let ghost mut idxs: Seq<int> = Seq::empty();
        let mut out: Vec<Job> = Vec::new();
        while out.len() < max_count
            invariant
                self.wf(),
                self.same_settings(old(self)),
                self.next_id == old(self).next_id,
                old_t == old(self).table(),
                ids_unique(old_t),
                first == old(self).next_lease,
                self.next_lease == first + out@.len(),
                first + max_count <= u64::MAX,
                expires == now + lease_duration,
                out@.len() <= max_count,
                idxs.len() == out@.len(),
                claims_ordered(old_t, self.table(), first, shard_id, queue_name@, max_count as nat, expires, now,
                    out@.map_values(|j: Job| j@)),
                forall|k: int| 0 <= k < idxs.len() ==> 0 <= #[trigger] idxs[k] < old_t.len()
                    && is_claim(old_t[idxs[k]], self.table()[idxs[k]], shard_id, queue_name@, now, expires, first)
                    && out@[k]@ == self.table()[idxs[k]],
            ensures
                self.wf(),
                self.same_settings(old(self)),
                self.next_id == old(self).next_id,
                self.next_lease == first + out@.len(),
                claims_ordered(old_t, self.table(), first, shard_id, queue_name@, max_count as nat, expires, now,
                    out@.map_values(|j: Job| j@)),
                out@.len() < max_count ==> forall|j: int|
                    0 <= j < old_t.len() ==> !(eligible(old_t[j], shard_id, queue_name@, now)
                        && #[trigger] self.table()[j] == old_t[j]),
            decreases max_count - out@.len(),
        {
            let m = match self.next_eligible(shard_id, queue_name, now) {
                Some(m) => m,
                None => {
                    proof {
                        let c = self.table();
                        assert forall|j: int| 0 <= j < old_t.len() implies !(eligible(old_t[j], shard_id, queue_name@, now)
                            && #[trigger] c[j] == old_t[j]) by {
                            if c[j] == old_t[j] {
                                assert(!eligible(c[j], shard_id, queue_name@, now));
                            }
                        }
                    }
                    break;
                },
            };
            proof { self.lemma_table(); }
            let lease: u64 = self.next_lease;
            let mut j = self.jobs[m].duplicate();
            let ghost cur = self.table();
            let ghost out_before = out@.map_values(|j: Job| j@);
            proof { assert(job_wf(cur[m as int])); }
            j.state = JobState::Running;
            j.lease_id = Some(lease);
            j.lease_expires_at = Some(expires);
            j.attempt_count = j.attempt_count + 1;
            out.push(j.duplicate());
            self.replace_job(m, j);
            self.next_lease = lease + 1;
            proof {
                lemma_table_wf_more_leases(cur, self.next_id, lease, self.next_lease);
                lemma_table_wf_update(cur, self.next_id, self.next_lease, m as int, j@);
                let nt = self.table();
                let mi = m as int;
                // the picked job was eligible and untouched, hence an original eligible job
                assert(cur[mi] == old_t[mi]);
                assert(is_claim(old_t[mi], nt[mi], shard_id, queue_name@, now, expires, first));
                let old_idxs = idxs;
                idxs = idxs.push(mi);
                let rv = out@.map_values(|j: Job| j@);
                assert(rv == out_before.push(j@));
                assert(j@ == leased(old_t[mi], lease, expires));
                assert(nt == cur.update(mi, j@));
                lemma_claim_step(old_t, cur, first, shard_id, queue_name@, max_count as nat, expires, now,
                    out_before, old_idxs, mi, lease);
                assert forall|k: int| 0 <= k < idxs.len() implies 0 <= #[trigger] idxs[k] < old_t.len()
                    && is_claim(old_t[idxs[k]], nt[idxs[k]], shard_id, queue_name@, now, expires, first)
                    && out@[k]@ == nt[idxs[k]] by {
                    assert(out@[k]@ == rv[k]);
                }
            }
        }
        proof {
            self.lemma_table();
        }
        out
    }

    /// Appends a job built from a valid request and returns its id.
    fn insert_job(&mut self, init: &JobInit, now: u64) -> (r: u64)
        requires
            old(self).wf(),
            old(self).ids_left() >= 1,
            valid_init(init@, now, old(self).tolerance()),
        ensures
            final(self).wf(),
            final(self).same_settings(old(self)),
            final(self).next_lease == old(self).next_lease,
            final(self).next_id == old(self).next_id + 1,
            r == old(self).next_id,
            old(self).shard_ids().contains(old(self).shard_for(r)),
            forall|i: int| 0 <= i < old(self).table().len() ==> old(self).table()[i].id < r,
            final(self).table() == old(self).table().push(created(init@, r, old(self).shard_for(r), now)),
    {
        let id = self.next_id;
        let shard = self.shards[(id % (self.shards.len() as u64)) as usize];
        let payload = init.payload.clone();
        assert(payload@ =~= init.payload@);
        let job = Job {
            id,
            state: JobState::Available,
            queue_name: init.queue_name.clone(),
            shard_id: shard,
            priority: init.priority,
            scheduled_at: init.scheduled_at,
            payload,
            metadata: crate::types::copy_opt_string(&init.metadata),
            lease_id: None,
            lease_expires_at: None,
            attempt_count: 0,
            max_attempts: init.max_attempts,
            last_error: None,
            transitioned_at: now,
        };
        let ghost t0 = self.table();
        proof {
            let ix = (id % (self.shards@.len() as u64)) as int;
            assert(0 <= ix < self.shards@.len());
            assert(self.shard_ids()[ix] == self.shard_for(id));
            assert(job@ == created(init@, id, self.shard_for(id), now));
            lemma_table_wf_push(t0, id, self.next_lease, job@);
        }
        self.jobs.push(job);
        self.next_id = id + 1;
        assert(self.table() =~= t0.push(created(init@, id, old(self).shard_for(id), now)));
        id
    }

    /// Creates one `Available` job with no attempts and returns its id. Fails with
    /// `ValidationError` if the queue name is empty or reserved, `max_attempts` is zero,
    /// or `scheduled_at` lies further in the past than the configured tolerance.
    pub fn create(&mut self, init: JobInit, now: u64) -> (r: Result<u64, QueueError>)
        requires
            old(self).wf(),
            old(self).ids_left() >= 1,
        ensures
            final(self).wf(),
            final(self).same_settings(old(self)),
            final(self).leases_left() == old(self).leases_left(),
            valid_init(init@, now, old(self).tolerance()) <==> r is Ok,
            r is Err ==> r == Err::<u64, QueueError>(QueueError::ValidationError)
                && final(self).table() == old(self).table()
                && final(self).ids_left() == old(self).ids_left(),
            r is Ok ==> {
                let id = r->Ok_0;
                &&& forall|i: int| 0 <= i < old(self).table().len() ==> old(self).table()[i].id < id
                &&& old(self).shard_ids().contains(old(self).shard_for(id))
                &&& final(self).table() == old(self).table().push(created(init@, id, old(self).shard_for(id), now))
                &&& final(self).ids_left() + 1 == old(self).ids_left()
            },
    {
        if !is_valid_init(&init, now, self.tolerance) {
            return Err(QueueError::ValidationError);
        }
        Ok(self.insert_job(&init, now))
    }

    /// Creates a batch of jobs as one operation: either every request is valid and all are
    /// inserted, with their ids in input order, or none is and the call fails with
    /// `ValidationError`.
    pub fn create_bulk(&mut self, inits: Vec<JobInit>, now: u64) -> (r: Result<BulkInsertResult, QueueError>)
        requires
            old(self).wf(),
            inits@.len() <= old(self).ids_left(),
        ensures
            final(self).wf(),
            final(self).same_settings(old(self)),
            final(self).leases_left() == old(self).leases_left(),
            (forall|k: int| 0 <= k < inits@.len() ==> valid_init(#[trigger] inits@[k]@, now, old(self).tolerance()))
                <==> r is Ok,
            r is Err ==> r == Err::<BulkInsertResult, QueueError>(QueueError::ValidationError)
                && final(self).table() == old(self).table()
                && final(self).ids_left() == old(self).ids_left(),
            r is Ok ==> {
                let res = r->Ok_0;
                let n = inits@.len();
                let t0 = old(self).table();
                let t1 = final(self).table();
                &&& res.inserted == n
                &&& res.ids@.len() == n
                &&& t1.len() == t0.len() + n
                &&& t1.subrange(0, t0.len() as int) == t0
                &&& forall|k: int| 0 <= k < n ==> #[trigger] t1[t0.len() + k]
                    == created(inits@[k]@, res.ids@[k], old(self).shard_for(res.ids@[k]), now)
                &&& forall|k: int, i: int| 0 <= k < n && 0 <= i < t0.len() ==> #[trigger] t0[i].id < #[trigger] res.ids@[k]
                &&& forall|k: int| 0 <= k < n ==> old(self).shard_ids().contains(old(self).shard_for(#[trigger] res.ids@[k]))
                &&& forall|k1: int, k2: int| 0 <= k1 < k2 < n ==> #[trigger] res.ids@[k1] < #[trigger] res.ids@[k2]
                &&& final(self).ids_left() + n == old(self).ids_left()
            },
    {
        let mut k: usize = 0;
        while k < inits.len()
            invariant
                self.wf(),
                self.table() == old(self).table(),
                self.same_counters(old(self)),
                k <= inits@.len(),
                forall|q: int| 0 <= q < k ==> valid_init(#[trigger] inits@[q]@, now, self.tolerance()),
            decreases inits@.len() - k,
        {
            if !is_valid_init(&inits[k], now, self.tolerance) {
                return Err(QueueError::ValidationError);
            }
            k += 1;
        }
        let ghost t0 = self.table();
        let mut ids: Vec<u64> = Vec::new();
        let mut k: usize = 0;
        while k < inits.len()
            invariant
                self.wf(),
                self.same_settings(old(self)),
                self.next_lease == old(self).next_lease,
                t0 == old(self).table(),
                k <= inits@.len(),
                inits@.len() <= old(self).ids_left(),
                self.next_id == old(self).next_id + k,
                ids@.len() == k,
                forall|q: int| 0 <= q < inits@.len() ==> valid_init(#[trigger] inits@[q]@, now, self.tolerance()),
                forall|q: int| 0 <= q < k ==> #[trigger] ids@[q] == old(self).next_id + q,
                forall|q: int| 0 <= q < k ==> old(self).shard_ids().contains(old(self).shard_for(#[trigger] ids@[q])),
                self.table().len() == t0.len() + k,
                self.table().subrange(0, t0.len() as int) == t0,
                forall|q: int| 0 <= q < k ==> #[trigger] self.table()[t0.len() + q]
                    == created(inits@[q]@, ids@[q], old(self).shard_for(ids@[q]), now),
            decreases inits@.len() - k,
        {
            let ghost before = self.table();
            let id = self.insert_job(&inits[k], now);
            ids.push(id);
            proof {
                let after = self.table();
                assert(after.subrange(0, t0.len() as int) =~= before.subrange(0, t0.len() as int));
                assert forall|q: int| 0 <= q < k + 1 implies #[trigger] after[t0.len() + q]
                    == created(inits@[q]@, ids@[q], old(self).shard_for(ids@[q]), now) by {
                    if q < k {
                        assert(after[t0.len() + q] == before[t0.len() + q]);
                    }
                }
            }
            k += 1;
        }
        proof {
            assert forall|q: int, i: int| 0 <= q < inits@.len() && 0 <= i < t0.len() implies #[trigger] t0[i].id < #[trigger] ids@[q] by {
                assert(old(self).table()[i].id < old(self).next_id);
            }
        }
        Ok(BulkInsertResult { inserted: k, ids })
    }

    /// Returns every job whose lease lapsed before `now` to `Available`, due at once,
    /// or to the dead-letter queue once its attempts are spent.
    pub fn reclaim_expired(&mut self, now: u64)
        requires
            old(self).wf(),
        ensures
            final(self).wf(),
            final(self).same_counters(old(self)),
            final(self).table() == after_reclaim(old(self).table(), now),
    {
        let ghost t0 = self.table();
        let mut i: usize = 0;
        while i < self.jobs.len()
            invariant
                self.wf(),
                self.same_counters(old(self)),
                t0 == old(self).table(),
                i <= self.table().len(),
                self.table().len() == t0.len(),
                forall|k: int| 0 <= k < i ==> #[trigger] self.table()[k] == reclaimed(t0[k], now),
                forall|k: int| i <= k < t0.len() ==> #[trigger] self.table()[k] == t0[k],
            decreases t0.len() - i,
        {
            proof { self.lemma_table(); }
            let lapsed = match self.jobs[i].lease_expires_at {
                Some(e) => self.jobs[i].state == JobState::Running && e < now,
                None => false,
            };
            if lapsed {
                let ghost before = self.table();
                let mut j = self.jobs[i].duplicate();
                proof { assert(job_wf(before[i as int])); }
                j.lease_id = None;
                j.lease_expires_at = None;
                j.transitioned_at = now;
                if j.attempt_count < j.max_attempts {
                    j.state = JobState::Available;
                    if j.scheduled_at < now {
                        j.scheduled_at = now;
                    }
                } else {
                    j.state = JobState::DeadLettered;
                    j.queue_name = String::from_str(DEAD_LETTER_QUEUE);
                    j.last_error = Some(String::from_str(LEASE_EXPIRED_ERROR));
                }
                self.replace_job(i, j);
                proof {
                    assert(j@ == reclaimed(t0[i as int], now));
                    lemma_table_wf_update(before, self.next_id, self.next_lease, i as int, j@);
                }
            }
            i += 1;
        }
        assert(self.table() =~= after_reclaim(t0, now));
    }

    /// Deletes completed jobs older than `completed_ms` and, if `dead_ms` is given,
    /// dead-lettered jobs older than that.
    pub fn purge_expired(&mut self, now: u64, completed_ms: u64, dead_ms: Option<u64>)
        requires
            old(self).wf(),
        ensures
            final(self).wf(),
            final(self).same_counters(old(self)),
            final(self).table() == after_purge(old(self).table(), now, completed_ms, dead_ms),
    {
        let ghost t0 = self.table();
        let ghost mut src: Seq<int> = Seq::empty();
        let mut kept: Vec<Job> = Vec::new();
        let mut i: usize = 0;
        proof { self.lemma_table(); }
        while i < self.jobs.len()
            invariant
                self.wf(),
                t0 == self.table(),
                i <= t0.len(),
                t0.len() == self.jobs@.len(),
                forall|k: int| 0 <= k < self.jobs@.len() ==> #[trigger] t0[k] == self.jobs@[k]@,
                kept@.map_values(|j: Job| j@) == t0.subrange(0, i as int).filter(retained(now, completed_ms, dead_ms)),
                src.len() == kept@.len(),
                forall|k: int| 0 <= k < src.len() ==> 0 <= #[trigger] src[k] < i && kept@[k]@ == t0[src[k]],
                table_wf(kept@.map_values(|j: Job| j@), self.next_id, self.next_lease),
            decreases t0.len() - i,
        {
            let ghost kv = kept@.map_values(|j: Job| j@);
            proof {
                assert(t0[i as int] == self.jobs@[i as int]@);
                assert(t0.subrange(0, i + 1) =~= t0.subrange(0, i as int).push(t0[i as int]));
                t0.subrange(0, i as int).lemma_filter_push(t0[i as int], retained(now, completed_ms, dead_ms));
            }
            let drop_it = is_expired_record(&self.jobs[i], now, completed_ms, dead_ms);
            if !drop_it {
                let d = self.jobs[i].duplicate();
                kept.push(d);
                proof {
                    let nv = kept@.map_values(|j: Job| j@);
                    let v = t0[i as int];
                    assert(nv =~= kv.push(v));
                    assert(retained(now, completed_ms, dead_ms)(v));
                    assert(nv == t0.subrange(0, i + 1).filter(retained(now, completed_ms, dead_ms)));
                    assert(job_wf(v));
                    assert(v.id < self.next_id);
                    assert forall|k: int| 0 <= k < kv.len() implies #[trigger] kv[k].id != v.id by {
                        assert(kv[k] == kept@[k]@);
                        assert(kv[k] == t0[src[k]]);
                    }
                    lemma_table_wf_push_fresh(kv, self.next_id, self.next_lease, v);
                    src = src.push(i as int);
                }
            } else {
                proof {
                    let nv = kept@.map_values(|j: Job| j@);
                    assert(nv =~= kv);
                    assert(!retained(now, completed_ms, dead_ms)(t0[i as int]));
                    assert(nv == t0.subrange(0, i + 1).filter(retained(now, completed_ms, dead_ms)));
                }
            }
            i += 1;
        }
        self.jobs = kept;
        proof {
            assert(t0.subrange(0, t0.len() as int) =~= t0);
        }
    }

    /// The jobs of one queue, in table order. With the reserved dead-letter name, the
    /// dead-lettered jobs.
    pub fn list_queue(&self, queue_name: &String) -> (r: Vec<Job>)
        requires
            self.wf(),
        ensures
            r@.map_values(|j: Job| j@) == in_queue(self.table(), queue_name@),
    {
        let ghost t0 = self.table();
        let mut out: Vec<Job> = Vec::new();
        let mut i: usize = 0;
        proof { self.lemma_table(); }
        while i < self.jobs.len()
            invariant
                t0 == self.table(),
                i <= t0.len(),
                t0.len() == self.jobs@.len(),
                forall|k: int| 0 <= k < self.jobs@.len() ==> #[trigger] t0[k] == self.jobs@[k]@,
                out@.map_values(|j: Job| j@) == t0.subrange(0, i as int).filter(of_queue(queue_name@)),
            decreases t0.len() - i,
        {
            let ghost ov = out@.map_values(|j: Job| j@);
            proof {
                assert(t0[i as int] == self.jobs@[i as int]@);
                assert(t0.subrange(0, i + 1) =~= t0.subrange(0, i as int).push(t0[i as int]));
                t0.subrange(0, i as int).lemma_filter_push(t0[i as int], of_queue(queue_name@));
            }
            if self.jobs[i].queue_name.eq(queue_name) {
                let d = self.jobs[i].duplicate();
                out.push(d);
                proof {
                    let nv = out@.map_values(|j: Job| j@);
                    assert(nv =~= ov.push(t0[i as int]));
                    assert(of_queue(queue_name@)(t0[i as int]));
                    assert(nv == t0.subrange(0, i + 1).filter(of_queue(queue_name@)));
                }
            } else {
                proof {
                    let nv = out@.map_values(|j: Job| j@);
                    assert(nv =~= ov);
                    assert(!of_queue(queue_name@)(t0[i as int]));
                    assert(nv == t0.subrange(0, i + 1).filter(of_queue(queue_name@)));
                }
            }
            i += 1;
        }
        proof { assert(t0.subrange(0, t0.len() as int) =~= t0); }
        out
    }

    /// The dead-lettered jobs.
    pub fn dead_letters(&self) -> (r: Vec<Job>)
        requires
            self.wf(),
        ensures
            r@.map_values(|j: Job| j@) == in_queue(self.table(), DEAD_LETTER_QUEUE@),
    {
        let dlq = String::from_str(DEAD_LETTER_QUEUE);
        self.list_queue(&dlq)
    }

    /// Whether the registry holds this shard.
    fn registry_has(&self, shard: u64) -> (r: bool)
        ensures
            r == self.shard_ids().contains(shard),
    {
        let mut i: usize = 0;
        while i < self.shards.len()
            invariant
                i <= self.shards@.len(),
                forall|k: int| 0 <= k < i ==> self.shards@[k] != shard,
            decreases self.shards@.len() - i,
        {
            if self.shards[i] == shard {
                return true;
            }
            i += 1;
        }
        false
    }

    /// Registry refresh: appends each discovered shard that the registry does not hold yet,
    /// keeping the shards it has, in their order.
    pub fn refresh_shards(&mut self, discovered: &Vec<u64>)
        requires
            old(self).wf(),
        ensures
            final(self).wf(),
            final(self).table() == old(self).table(),
            final(self).tolerance() == old(self).tolerance(),
            final(self).ids_left() == old(self).ids_left(),
            final(self).leases_left() == old(self).leases_left(),
            final(self).shard_ids().len() >= old(self).shard_ids().len(),
            final(self).shard_ids().subrange(0, old(self).shard_ids().len() as int) == old(self).shard_ids(),
            forall|s: u64| #[trigger] final(self).shard_ids().contains(s)
                <==> (old(self).shard_ids().contains(s) || discovered@.contains(s)),
    {
        let mut i: usize = 0;
        while i < discovered.len()
            invariant
                self.wf(),
                self.table() == old(self).table(),
                self.tolerance == old(self).tolerance,
                self.next_id == old(self).next_id,
                self.next_lease == old(self).next_lease,
                i <= discovered@.len(),
                self.shards@.len() >= old(self).shards@.len(),
                self.shards@.subrange(0, old(self).shards@.len() as int) == old(self).shards@,
                forall|s: u64| #[trigger] self.shards@.contains(s)
                    <==> (old(self).shards@.contains(s) || discovered@.subrange(0, i as int).contains(s)),
            decreases discovered@.len() - i,
        {
            let d = discovered[i];
            let ghost before = self.shards@;
            proof {
                assert(forall|s: u64| #[trigger] before.contains(s)
                    <==> (old(self).shards@.contains(s) || discovered@.subrange(0, i as int).contains(s)));
            }
            let known = self.registry_has(d);
            if !known {
                self.shards.push(d);
                proof {
                    assert(self.shards@ == before.push(d));
                    assert(self.shards@.subrange(0, old(self).shards@.len() as int) =~= before.subrange(0, old(self).shards@.len() as int));
                    assert(self.table() =~= old(self).table());
                }
            }
            proof {
                let pre = discovered@.subrange(0, i as int);
                let post = discovered@.subrange(0, i + 1);
                assert(post =~= pre.push(d));
                assert forall|s: u64| #[trigger] self.shards@.contains(s)
                    <==> (old(self).shards@.contains(s) || post.contains(s)) by {
                    assert(before.contains(s) == (old(self).shards@.contains(s) || pre.contains(s)));
                    if post.contains(s) && !pre.contains(s) {
                        let w = choose|w: int| 0 <= w < post.len() && post[w] == s;
                        assert(w == i as int);
                        assert(s == d);
                        if known {
                            assert(before.contains(d));
                        } else {
                            assert(self.shards@[before.len() as int] == d);
                        }
                    }
                    if pre.contains(s) {
                        let w = choose|w: int| 0 <= w < pre.len() && pre[w] == s;
                        assert(post[w] == s);
                    }
                    if self.shards@.contains(s) && !before.contains(s) {
                        assert(s == d);
                        assert(post[i as int] == d);
                    }
                    if before.contains(s) {
                        let w = choose|w: int| 0 <= w < before.len() && before[w] == s;
                        assert(self.shards@[w] == s);
                    }
                }
            }
            i += 1;
        }
        proof {
            assert(discovered@.subrange(0, discovered@.len() as int) =~= discovered@);
        }
    }

    /// The shard registry.
    pub fn list_shards(&self) -> (r: Vec<Shard>)
        ensures
            r@.len() == self.shard_ids().len(),
            forall|k: int| 0 <= k < r@.len() ==> #[trigger] r@[k].id == self.shard_ids()[k],
    {
        let mut out: Vec<Shard> = Vec::new();
        let mut i: usize = 0;
        while i < self.shards.len()
            invariant
                i <= self.shards@.len(),
                out@.len() == i,
                forall|k: int| 0 <= k < i ==> #[trigger] out@[k].id == self.shards@[k],
            decreases self.shards@.len() - i,
        {
            out.push(Shard { id: self.shards[i] });
            i += 1;
        }
        out
    }

    /// The record of a job, if it exists.
    pub fn get_job(&self, id: u64) -> (r: Option<Job>)
        requires
            self.wf(),
        ensures
            match lookup(self.table(), id) {
                Some(i) => r is Some && r->0@ == self.table()[i],
                None => r is None,
            },
    {
        proof { self.lemma_table(); }
        match self.find_index(id) {
            Some(i) => Some(self.jobs[i].duplicate()),
            None => None,
        }
    }
}

} // verus!
