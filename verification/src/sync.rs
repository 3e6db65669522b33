//! Backup of usage to a git repository, and merging of the machines found there.
//!
//! Each machine publishes its own aggregate snapshot. A machine only ever rewrites its own file,
//! so that publishing is idempotent and merging is free of conflicts: it adds up the rows of all
//! machines.

pub mod agreement;
pub mod amounts;
pub mod laws;
pub mod merge;
pub mod naming;
pub mod publish;
pub mod repo;
pub mod report;
pub mod sequence;
pub mod snapshot;
