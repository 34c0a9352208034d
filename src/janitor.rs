use vstd::prelude::*;

use crate::manager::{after_purge, after_reclaim, QueueManager, Shard};

verus! {

/// The background sweeper: reclaims lapsed leases and prunes old records.
/// Each pass depends only on the table and the time.
pub struct Janitor {
    /// Age after which completed jobs are deleted.
    pub completed_retention_ms: u64,
    /// Age after which dead-lettered jobs are deleted; kept forever when absent.
    pub dead_letter_retention_ms: Option<u64>,
}

impl Janitor {
    pub fn new(completed_retention_ms: u64, dead_letter_retention_ms: Option<u64>) -> (r: Janitor)
        ensures
            r.completed_retention_ms == completed_retention_ms,
            r.dead_letter_retention_ms == dead_letter_retention_ms,
    {
        Janitor { completed_retention_ms, dead_letter_retention_ms }
    }

    /// One sweep at `now`: lease reclamation, the retention sweep, then the registry
    /// refresh with the shards `discovered` in the store. Returns the refreshed registry.
    pub fn run_once(&self, mgr: &mut QueueManager, now: u64, discovered: &Vec<u64>) -> (r: Vec<Shard>)
        requires
            old(mgr).wf(),
        ensures
            final(mgr).wf(),
            final(mgr).tolerance() == old(mgr).tolerance(),
            final(mgr).ids_left() == old(mgr).ids_left(),
            final(mgr).leases_left() == old(mgr).leases_left(),
            final(mgr).table() == after_purge(
                after_reclaim(old(mgr).table(), now),
                now,
                self.completed_retention_ms,
                self.dead_letter_retention_ms,
            ),
            final(mgr).shard_ids().subrange(0, old(mgr).shard_ids().len() as int) == old(mgr).shard_ids(),
            forall|s: u64| #[trigger] final(mgr).shard_ids().contains(s)
                <==> (old(mgr).shard_ids().contains(s) || discovered@.contains(s)),
            r@.len() == final(mgr).shard_ids().len(),
            forall|k: int| 0 <= k < r@.len() ==> #[trigger] r@[k].id == final(mgr).shard_ids()[k],
    {
        mgr.reclaim_expired(now);
        mgr.purge_expired(now, self.completed_retention_ms, self.dead_letter_retention_ms);
        mgr.refresh_shards(discovered);
        mgr.list_shards()
    }
}

} // verus!
