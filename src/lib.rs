//! Dependency-aware scheduling of workload start and deletion, and the
//! command-channel handle of a running workload.

pub mod objects;
pub mod parameter_storage;
pub mod dependency_manager;
pub mod workload;
