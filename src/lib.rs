use vstd::prelude::*;

mod error;
mod types;
mod config;
mod manager;
pub use manager::{QueueManager, Shard};
mod worker;
pub use worker::Worker;
mod janitor;
pub use janitor::Janitor;
pub mod theorems;
mod object_store;
pub use object_store::{GetOutcome, ObjectStoreError, S3Impl};
pub use config::{ManagerConfig, PoolConfig};
pub use types::{BulkInsertResult, Job, JobInit, JobState, JobUpdate};
pub use error::QueueError;

verus! {

/// Metadata key under which a worker reports its assigned shard.
pub const SHARD_ID_KEY: &'static str = "shard_id";

/// Reserved queue that holds dead-lettered jobs; ordinary workers never poll it.
pub const DEAD_LETTER_QUEUE: &'static str = "_cyclotron_dead_letter";

} // verus!
