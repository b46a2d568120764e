//! Verified core of two host-runtime extensions: a directed-graph library and
//! a bridge that forwards structured log records into the host's logging
//! facility.

pub mod async_logger;
pub mod delimiter;
pub mod graph;
pub mod level;
pub mod queue;
pub mod record;
pub mod registry;
pub mod shortest_path;
pub mod sync_logger;
pub mod worker;
