//! Snapshots of zone configurations: building an archive of them, committing
//! it only when it differs from the latest one, and pruning old snapshots.

pub mod archive;
pub mod commit;
pub mod config;
pub mod fingerprint;
pub mod naming;
pub mod order;
pub mod pipeline;
pub mod retention;
pub mod store;
pub mod trusted;
pub mod zones;
