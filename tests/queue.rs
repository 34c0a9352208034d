use cyclotron_core::{
    Janitor, JobInit, JobState, JobUpdate, ManagerConfig, PoolConfig, QueueError, QueueManager, Worker,
    DEAD_LETTER_QUEUE, SHARD_ID_KEY, GetOutcome, S3Impl,
};

fn manager() -> QueueManager {
    QueueManager::new(ManagerConfig { shards: vec![7], schedule_tolerance_ms: 1000 }).unwrap()
}

fn init(queue: &str, priority: i64, scheduled_at: u64, max_attempts: u32) -> JobInit {
    JobInit {
        queue_name: queue.to_string(),
        priority,
        scheduled_at,
        payload: vec![1, 2, 3],
        metadata: None,
        max_attempts,
    }
}

fn q(s: &str) -> String {
    s.to_string()
}

#[test]
fn new_rejects_empty_shard_set() {
    let r = QueueManager::new(ManagerConfig { shards: vec![], schedule_tolerance_ms: 0 });
    assert!(matches!(r, Err(QueueError::ValidationError)));
}

#[test]
fn create_sets_initial_fields() {
    let mut m = manager();
    let id = m.create(init("emails", 0, 100, 3), 100).unwrap();
    let j = m.get_job(id).unwrap();
    assert_eq!(j.state, JobState::Available);
    assert_eq!(j.attempt_count, 0);
    assert_eq!(j.shard_id, 7);
    assert_eq!(j.queue_name, "emails");
    assert_eq!(j.payload, vec![1, 2, 3]);
    assert_eq!(j.lease_id, None);
}

#[test]
fn create_validation_errors() {
    let mut m = manager();
    assert_eq!(m.create(init("", 0, 100, 3), 100), Err(QueueError::ValidationError));
    assert_eq!(m.create(init("emails", 0, 100, 0), 100), Err(QueueError::ValidationError));
    assert_eq!(m.create(init(DEAD_LETTER_QUEUE, 0, 100, 1), 100), Err(QueueError::ValidationError));
    // more than the tolerance in the past
    assert_eq!(m.create(init("emails", 0, 100, 1), 1101), Err(QueueError::ValidationError));
    // exactly at the tolerance, and "now", are fine
    assert!(m.create(init("emails", 0, 100, 1), 1100).is_ok());
    assert!(m.create(init("emails", 0, 1100, 1), 1100).is_ok());
}

#[test]
fn bulk_insert_returns_ids_in_order() {
    let mut m = manager();
    let r = m.create_bulk(vec![init("a", 0, 0, 1), init("b", 0, 0, 1), init("c", 0, 0, 1)], 0).unwrap();
    assert_eq!(r.inserted, 3);
    assert_eq!(r.ids.len(), 3);
    assert_eq!(m.get_job(r.ids[0]).unwrap().queue_name, "a");
    assert_eq!(m.get_job(r.ids[1]).unwrap().queue_name, "b");
    assert_eq!(m.get_job(r.ids[2]).unwrap().queue_name, "c");
    assert!(r.ids[0] < r.ids[1] && r.ids[1] < r.ids[2]);
    let later = m.create(init("d", 0, 0, 1), 0).unwrap();
    assert!(later > r.ids[2]);
}

#[test]
fn bulk_insert_is_all_or_nothing() {
    let mut m = manager();
    let batch = vec![init("a", 0, 0, 1), init("a", 0, 0, 1), init("a", 0, 0, 0), init("a", 0, 0, 1)];
    assert!(matches!(m.create_bulk(batch, 0), Err(QueueError::ValidationError)));
    assert_eq!(m.list_queue(&q("a")).len(), 0);
    assert_eq!(m.dequeue(7, &q("a"), 10, 100, 0).len(), 0);
}

#[test]
fn dequeue_orders_by_priority_schedule_and_creation() {
    let mut m = manager();
    let a = m.create(init("q", 5, 10, 1), 10).unwrap();
    let b = m.create(init("q", 1, 20, 1), 10).unwrap();
    let c = m.create(init("q", 1, 10, 1), 10).unwrap();
    let d = m.create(init("q", 1, 10, 1), 10).unwrap();
    let got: Vec<u64> = m.dequeue(7, &q("q"), 10, 100, 50).iter().map(|j| j.id).collect();
    assert_eq!(got, vec![c, d, b, a]);
}

#[test]
fn dequeue_skips_future_other_queue_and_other_shard() {
    let mut m = manager();
    m.create(init("q", 0, 500, 1), 0).unwrap();
    m.create(init("other", 0, 0, 1), 0).unwrap();
    assert!(m.dequeue(7, &q("q"), 10, 100, 100).is_empty());
    assert!(m.dequeue(8, &q("other"), 10, 100, 100).is_empty());
    let got = m.dequeue(7, &q("q"), 10, 100, 500);
    assert_eq!(got.len(), 1);
}

#[test]
fn dequeue_stamps_lease() {
    let mut m = manager();
    let id = m.create(init("q", 0, 0, 2), 0).unwrap();
    let got = m.dequeue(7, &q("q"), 1, 30, 10);
    assert_eq!(got.len(), 1);
    assert_eq!(got[0].id, id);
    assert_eq!(got[0].state, JobState::Running);
    assert_eq!(got[0].lease_expires_at, Some(40));
    assert!(got[0].lease_id.is_some());
    assert_eq!(got[0].attempt_count, 1);
    assert_eq!(m.get_job(id).unwrap().state, JobState::Running);
}

#[test]
fn concurrent_claimers_never_share_a_job() {
    let mut m = manager();
    for _ in 0..5 {
        m.create(init("q", 0, 0, 1), 0).unwrap();
    }
    let mut seen: Vec<u64> = Vec::new();
    let mut total = 0;
    for _ in 0..4 {
        let got = m.dequeue(7, &q("q"), 2, 100, 1);
        total += got.len();
        for j in got {
            assert!(!seen.contains(&j.id));
            seen.push(j.id);
        }
    }
    // min(available = 5, requested = 8)
    assert_eq!(total, 5);
}

#[test]
fn complete_twice_fails_second_time() {
    let mut m = manager();
    let id = m.create(init("q", 0, 0, 1), 0).unwrap();
    let j = m.dequeue(7, &q("q"), 1, 100, 0).pop().unwrap();
    let lease = j.lease_id.unwrap();
    assert_eq!(m.complete(id, lease, 5), Ok(()));
    assert_eq!(m.complete(id, lease, 6), Err(QueueError::LeaseMismatch));
    assert_eq!(m.get_job(id).unwrap().state, JobState::Completed);
    assert_eq!(m.complete(999, lease, 6), Err(QueueError::NotFound));
}

#[test]
fn complete_with_wrong_lease_is_mismatch() {
    let mut m = manager();
    let id = m.create(init("q", 0, 0, 1), 0).unwrap();
    let j = m.dequeue(7, &q("q"), 1, 100, 0).pop().unwrap();
    assert_eq!(m.complete(id, j.lease_id.unwrap() + 1, 5), Err(QueueError::LeaseMismatch));
    assert_eq!(m.get_job(id).unwrap().state, JobState::Running);
}

#[test]
fn fail_with_single_attempt_dead_letters() {
    let mut m = manager();
    let w = Worker::new(7, 100);
    let id = m.create(init("work", 0, 0, 1), 0).unwrap();
    let got = w.poll(&mut m, &q("work"), 1, 0);
    assert_eq!(got[0].state, JobState::Running);
    let lease = got[0].lease_id.unwrap();
    assert_eq!(w.fail(&mut m, id, lease, q("boom"), None, 5), Ok(()));
    let j = m.get_job(id).unwrap();
    assert_eq!(j.state, JobState::DeadLettered);
    assert_eq!(j.attempt_count, 1);
    assert_eq!(j.last_error, Some(q("boom")));
    let dead = m.dead_letters();
    assert_eq!(dead.len(), 1);
    assert_eq!(dead[0].id, id);
    assert!(w.poll(&mut m, &q("work"), 10, 100).is_empty());
}

#[test]
fn retries_until_budget_then_dead_letters() {
    let mut m = manager();
    let id = m.create(init("q", 0, 0, 3), 0).unwrap();
    let mut now = 0;
    for attempt in 1..=3u32 {
        let j = m.dequeue(7, &q("q"), 1, 100, now).pop().unwrap();
        assert_eq!(j.attempt_count, attempt);
        m.fail(id, j.lease_id.unwrap(), q("err"), Some(10), now).unwrap();
        let after = m.get_job(id).unwrap();
        if attempt < 3 {
            assert_eq!(after.state, JobState::Available);
            assert_eq!(after.scheduled_at, now + 10);
        } else {
            assert_eq!(after.state, JobState::DeadLettered);
            assert_eq!(after.queue_name, DEAD_LETTER_QUEUE);
        }
        now += 10;
    }
}

#[test]
fn retry_is_not_due_before_retry_after() {
    let mut m = manager();
    let id = m.create(init("q", 0, 0, 2), 0).unwrap();
    let j = m.dequeue(7, &q("q"), 1, 100, 0).pop().unwrap();
    m.fail(id, j.lease_id.unwrap(), q("err"), Some(50), 10).unwrap();
    assert!(m.dequeue(7, &q("q"), 1, 100, 59).is_empty());
    assert_eq!(m.dequeue(7, &q("q"), 1, 100, 60).len(), 1);
}

#[test]
fn janitor_reclaims_lapsed_lease() {
    let mut m = manager();
    let id = m.create(init("q", 0, 0, 2), 0).unwrap();
    let j = m.dequeue(7, &q("q"), 1, 30, 0).pop().unwrap();
    let janitor = Janitor::new(1000, None);
    janitor.run_once(&mut m, 30, &vec![]);
    assert_eq!(m.get_job(id).unwrap().state, JobState::Running);
    let shards = janitor.run_once(&mut m, 31, &vec![7]);
    assert_eq!(shards.len(), 1);
    assert_eq!(shards[0].id, 7);
    let after = m.get_job(id).unwrap();
    assert_eq!(after.state, JobState::Available);
    assert_eq!(after.lease_id, None);
    assert_eq!(after.scheduled_at, 31);
    assert_eq!(m.complete(id, j.lease_id.unwrap(), 32), Err(QueueError::LeaseMismatch));
    let again = m.dequeue(7, &q("q"), 1, 30, 31).pop().unwrap();
    assert_eq!(again.attempt_count, 2);
    janitor.run_once(&mut m, 100, &vec![]);
    let dead = m.get_job(id).unwrap();
    assert_eq!(dead.state, JobState::DeadLettered);
    assert_eq!(dead.last_error, Some(q("lease expired, retries exhausted")));
}

#[test]
fn janitor_purges_old_completed_jobs() {
    let mut m = manager();
    let keep = m.create(init("q", 0, 0, 1), 0).unwrap();
    let done = m.create(init("q", 1, 0, 1), 0).unwrap();
    let j = m.dequeue(7, &q("q"), 2, 100, 0);
    assert_eq!(j[1].id, done);
    m.complete(done, j[1].lease_id.unwrap(), 10).unwrap();
    let janitor = Janitor::new(50, None);
    janitor.run_once(&mut m, 60, &vec![]);
    assert!(m.get_job(done).is_some());
    janitor.run_once(&mut m, 61, &vec![]);
    assert!(m.get_job(done).is_none());
    assert!(m.get_job(keep).is_some());
}

#[test]
fn heartbeat_extends_and_fails_after_reclaim() {
    let mut m = manager();
    let w = Worker::new(7, 100);
    let id = m.create(init("q", 0, 0, 2), 0).unwrap();
    let j = w.poll(&mut m, &q("q"), 1, 0).pop().unwrap();
    let lease = j.lease_id.unwrap();
    assert_eq!(w.heartbeat(&mut m, id, lease, 50), Ok(150));
    assert_eq!(m.get_job(id).unwrap().lease_expires_at, Some(150));
    Janitor::new(10, None).run_once(&mut m, 151, &vec![]);
    assert_eq!(w.heartbeat(&mut m, id, lease, 152), Err(QueueError::LeaseExpired));
    assert_eq!(w.heartbeat(&mut m, 999, lease, 152), Err(QueueError::NotFound));
    assert_eq!(w.shard_id(), 7);
}

#[test]
fn update_applies_under_live_lease_only() {
    let mut m = manager();
    let id = m.create(init("q", 0, 0, 2), 0).unwrap();
    let j = m.dequeue(7, &q("q"), 1, 100, 0).pop().unwrap();
    let lease = j.lease_id.unwrap();
    let upd = JobUpdate { id, lease_id: lease, priority: Some(9), payload: Some(vec![4]), metadata: Some(q("m")) };
    assert_eq!(m.update(upd, 50), Ok(()));
    let after = m.get_job(id).unwrap();
    assert_eq!(after.priority, 9);
    assert_eq!(after.payload, vec![4]);
    assert_eq!(after.metadata, Some(q("m")));
    let late = JobUpdate { id, lease_id: lease, priority: Some(1), payload: None, metadata: None };
    assert_eq!(m.update(late, 101), Err(QueueError::LeaseExpired));
    let missing = JobUpdate { id: 999, lease_id: lease, priority: None, payload: None, metadata: None };
    assert_eq!(m.update(missing, 50), Err(QueueError::NotFound));
}

#[test]
fn attempt_count_only_grows_on_running_entry() {
    let mut m = manager();
    let id = m.create(init("q", 0, 0, 5), 0).unwrap();
    assert_eq!(m.get_job(id).unwrap().attempt_count, 0);
    let j = m.dequeue(7, &q("q"), 1, 100, 0).pop().unwrap();
    assert_eq!(j.attempt_count, 1);
    m.renew_lease(id, j.lease_id.unwrap(), 10, 5).unwrap();
    assert_eq!(m.get_job(id).unwrap().attempt_count, 1);
    m.fail(id, j.lease_id.unwrap(), q("e"), None, 6).unwrap();
    assert_eq!(m.get_job(id).unwrap().attempt_count, 1);
    let j2 = m.dequeue(7, &q("q"), 1, 100, 6).pop().unwrap();
    assert_eq!(j2.attempt_count, 2);
    m.complete(id, j2.lease_id.unwrap(), 7).unwrap();
    assert_eq!(m.get_job(id).unwrap().attempt_count, 2);
}

#[test]
fn shards_and_constants() {
    let m = QueueManager::new(ManagerConfig { shards: vec![3, 4], schedule_tolerance_ms: 0 }).unwrap();
    let s = m.list_shards();
    assert_eq!(s.len(), 2);
    assert_eq!(s[0].id, 3);
    assert_eq!(s[1].id, 4);
    assert_eq!(SHARD_ID_KEY, "shard_id");
    assert_eq!(QueueError::LeaseMismatch.label(), "lease_mismatch");
    assert!(PoolConfig { max_connections: 1, connect_timeout_ms: 10, idle_timeout_ms: 10 }.is_valid());
    assert!(!PoolConfig { max_connections: 0, connect_timeout_ms: 10, idle_timeout_ms: 10 }.is_valid());
}

#[test]
fn janitor_refresh_picks_up_new_shards() {
    let mut m = QueueManager::new(ManagerConfig { shards: vec![3, 4], schedule_tolerance_ms: 0 }).unwrap();
    let shards = Janitor::new(10, None).run_once(&mut m, 0, &vec![4, 9, 9, 2]);
    let ids: Vec<u64> = shards.iter().map(|s| s.id).collect();
    assert_eq!(ids, vec![3, 4, 9, 2]);
    let listed: Vec<u64> = m.list_shards().iter().map(|s| s.id).collect();
    assert_eq!(listed, vec![3, 4, 9, 2]);
}

#[test]
fn dequeue_returns_each_job_once() {
    let mut m = manager();
    let a = m.create(init("q", 0, 0, 1), 0).unwrap();
    let b = m.create(init("q", 0, 0, 1), 0).unwrap();
    let got: Vec<u64> = m.dequeue(7, &q("q"), 2, 10, 0).iter().map(|j| j.id).collect();
    assert_eq!(got, vec![a, b]);
}

#[test]
fn get_outcomes_are_settled() {
    assert_eq!(S3Impl::finish_get(GetOutcome::Collected(vec![5, 6])).unwrap(), vec![5, 6]);
    assert!(S3Impl::finish_put(Ok(())).is_ok());
}
