//! Holograms: filesystem paths that run a command and hand its output to
//! whoever opens them. This library holds the daemon's logic: path
//! resolution, the control protocol's wire formats, the registry of live
//! holograms, the persisted configuration, and the task lifecycle.

pub mod config;
pub mod daemon;
pub mod path;
pub mod protocol;
pub mod registry;
pub mod task;
