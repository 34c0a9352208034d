use vstd::prelude::*;

use crate::error::QueueError;
use crate::manager::{
    after_complete, dequeue_post, guard_result, ids_unique, is_claim, lease_lapsed, reclaimed, retry_at,
};
use crate::types::{completed, failed, job_wf, leased, JobState, JobView};
use crate::DEAD_LETTER_QUEUE;

verus! {

/// Two successive `dequeue` calls never hand out the same job: no job id is in both results.
pub proof fn dequeue_exclusive(
    t0: Seq<JobView>,
    t1: Seq<JobView>,
    t2: Seq<JobView>,
    lease1: u64,
    lease2: u64,
    shard1: u64,
    shard2: u64,
    queue1: Seq<char>,
    queue2: Seq<char>,
    max1: nat,
    max2: nat,
    duration1: u64,
    duration2: u64,
    now1: u64,
    now2: u64,
    r1: Seq<JobView>,
    r2: Seq<JobView>,
)
    requires
        ids_unique(t0),
        dequeue_post(t0, t1, lease1, shard1, queue1, max1, duration1, now1, r1),
        dequeue_post(t1, t2, lease2, shard2, queue2, max2, duration2, now2, r2),
    ensures
        forall|a: int, b: int| 0 <= a < r1.len() && 0 <= b < r2.len() ==> #[trigger] r1[a].id != #[trigger] r2[b].id,
{
    let e1 = (now1 + duration1) as u64;
    let e2 = (now2 + duration2) as u64;
    assert forall|x: int, y: int| 0 <= x < t1.len() && 0 <= y < t1.len() && x != y implies t1[x].id != t1[y].id by {
        assert(t1[x] == t0[x] || is_claim(t0[x], t1[x], shard1, queue1, now1, e1, lease1));
        assert(t1[y] == t0[y] || is_claim(t0[y], t1[y], shard1, queue1, now1, e1, lease1));
    }
    assert forall|a: int, b: int| 0 <= a < r1.len() && 0 <= b < r2.len() implies #[trigger] r1[a].id != #[trigger] r2[b].id by {
        let i = choose|i: int| 0 <= i < t0.len() && is_claim(t0[i], t1[i], shard1, queue1, now1, e1, lease1)
            && r1[a] == #[trigger] t1[i];
        let j = choose|j: int| 0 <= j < t1.len() && is_claim(t1[j], t2[j], shard2, queue2, now2, e2, lease2)
            && r2[b] == #[trigger] t2[j];
        assert(t1[i].state == JobState::Running);
        assert(t1[j].state == JobState::Available);
        assert(t2[j].id == t1[j].id);
    }
}

/// Once a `dequeue` call returns fewer jobs than it asked for, a second call for the same
/// shard, queue and time returns none: together they claim as many as were eligible or asked.
pub proof fn dequeue_drains(
    t0: Seq<JobView>,
    t1: Seq<JobView>,
    t2: Seq<JobView>,
    lease1: u64,
    lease2: u64,
    shard: u64,
    queue: Seq<char>,
    max1: nat,
    max2: nat,
    duration1: u64,
    duration2: u64,
    now: u64,
    r1: Seq<JobView>,
    r2: Seq<JobView>,
)
    requires
        dequeue_post(t0, t1, lease1, shard, queue, max1, duration1, now, r1),
        dequeue_post(t1, t2, lease2, shard, queue, max2, duration2, now, r2),
        r1.len() < max1,
    ensures
        r2.len() == 0,
{
    let e1 = (now + duration1) as u64;
    let e2 = (now + duration2) as u64;
    if r2.len() > 0 {
        assert(r2[0].state == JobState::Running);
        let j = choose|j: int| 0 <= j < t1.len() && is_claim(t1[j], t2[j], shard, queue, now, e2, lease2)
            && r2[0] == #[trigger] t2[j];
        assert(t1[j] == t0[j] || is_claim(t0[j], t1[j], shard, queue, now, e1, lease1));
    }
}

/// `attempt_count` grows by one when a job enters `Running` and is kept by every other transition.
pub proof fn attempts_count_running_entries(
    j: JobView,
    lease: u64,
    expires: u64,
    detail: Seq<char>,
    at: u64,
    now: u64,
)
    requires
        job_wf(j),
    ensures
        j.state == JobState::Available ==> leased(j, lease, expires).attempt_count == j.attempt_count + 1,
        completed(j, now).attempt_count == j.attempt_count,
        failed(j, detail, at, DEAD_LETTER_QUEUE@, now).attempt_count == j.attempt_count,
        reclaimed(j, now).attempt_count == j.attempt_count,
{
}

/// A retry or a reclamation never moves a job's `scheduled_at` back.
pub proof fn schedule_never_moves_back(j: JobView, detail: Seq<char>, retry_after: Option<u64>, now: u64)
    requires
        retry_after is Some ==> now + retry_after->0 <= u64::MAX,
    ensures
        failed(j, detail, retry_at(j, retry_after, now), DEAD_LETTER_QUEUE@, now).scheduled_at >= j.scheduled_at,
        reclaimed(j, now).scheduled_at >= j.scheduled_at,
{
}

/// A job that is leased and then fails, again and again.
pub open spec fn run_and_fail(j: JobView, n: nat, lease: u64, detail: Seq<char>, now: u64) -> JobView
    decreases n,
{
    if n == 0 {
        j
    } else {
        let p = run_and_fail(j, (n - 1) as nat, lease, detail, now);
        failed(leased(p, lease, now), detail, now, DEAD_LETTER_QUEUE@, now)
    }
}

proof fn lemma_retries_before_budget(j: JobView, n: nat, lease: u64, detail: Seq<char>, now: u64)
    requires
        j.state == JobState::Available,
        j.attempt_count == 0,
        n < j.max_attempts,
    ensures
        run_and_fail(j, n, lease, detail, now).state == JobState::Available,
        run_and_fail(j, n, lease, detail, now).attempt_count == n,
        run_and_fail(j, n, lease, detail, now).max_attempts == j.max_attempts,
    decreases n,
{
    if n > 0 {
        lemma_retries_before_budget(j, (n - 1) as nat, lease, detail, now);
    }
}

/// A new job with a budget of `k` attempts returns to `Available` after each of its first
/// `k - 1` failures and is dead-lettered on the `k`-th.
pub proof fn retry_budget_exhausted(j: JobView, lease: u64, detail: Seq<char>, now: u64)
    requires
        j.state == JobState::Available,
        j.attempt_count == 0,
        j.max_attempts >= 1,
    ensures
        forall|n: nat| n < j.max_attempts ==> (#[trigger] run_and_fail(j, n, lease, detail, now)).state == JobState::Available,
        run_and_fail(j, j.max_attempts as nat, lease, detail, now).state == JobState::DeadLettered,
{
    assert forall|n: nat| n < j.max_attempts implies (#[trigger] run_and_fail(j, n, lease, detail, now)).state == JobState::Available by {
        lemma_retries_before_budget(j, n, lease, detail, now);
    }
    lemma_retries_before_budget(j, (j.max_attempts - 1) as nat, lease, detail, now);
}

/// A job whose lease lapsed leaves `Running` in one janitor pass: it is `Available` or
/// `DeadLettered`, with no lease.
pub proof fn lapsed_lease_reclaimed(j: JobView, now: u64)
    requires
        job_wf(j),
        lease_lapsed(j, now),
    ensures
        reclaimed(j, now).state == JobState::Available || reclaimed(j, now).state == JobState::DeadLettered,
        reclaimed(j, now).lease_id is None,
{
}

/// Completing a job twice with the same lease succeeds once; the second call fails with
/// `LeaseMismatch`.
pub proof fn complete_succeeds_once(t: Seq<JobView>, id: u64, lease: u64, now1: u64)
    requires
        ids_unique(t),
        guard_result(t, id, lease) is Ok,
    ensures
        guard_result(after_complete(t, id, lease, now1), id, lease) == Err::<(), QueueError>(QueueError::LeaseMismatch),
{
    let i = choose|i: int| 0 <= i < t.len() && t[i].id == id;
    let t1 = after_complete(t, id, lease, now1);
    assert(t1 == t.update(i, completed(t[i], now1)));
    assert(t1[i].id == id);
    let c = choose|c: int| 0 <= c < t1.len() && t1[c].id == id;
    assert(t1[c].id == t[c].id);
}

} // verus!
