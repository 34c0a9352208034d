use vstd::prelude::*;

verus! {

/// Settings of the backing store's connection pool. Durations are milliseconds.
#[derive(Debug, Clone, Copy, PartialEq, Eq, Structural)]
pub struct PoolConfig {
    pub max_connections: u32,
    pub connect_timeout_ms: u64,
    pub idle_timeout_ms: u64,
}

impl PoolConfig {
    /// A pool can hand out a connection only if it may open at least one.
    pub fn is_valid(&self) -> (r: bool)
        ensures
            r == (self.max_connections >= 1),
    {
        self.max_connections >= 1
    }
}

/// Settings of a queue manager.
#[derive(Debug)]
pub struct ManagerConfig {
    /// The shards this manager creates jobs into; at least one.
    pub shards: Vec<u64>,
    /// How far in the past (milliseconds) a new job's `scheduled_at` may lie.
    pub schedule_tolerance_ms: u64,
}

} // verus!
