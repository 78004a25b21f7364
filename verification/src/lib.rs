//! Core of a load-generation harness for a hierarchical, session-based
//! coordination service: it drives many concurrent workers that create
//! nodes under a shared root for a fixed window, then reports the final
//! child count and throughput.
//!
//! The wire protocol, session handling and real I/O live outside this
//! library; here stand the parts worth proving: unique name allocation,
//! the worker and orchestrator decision logic, a model of the service's
//! node lifecycle (ephemeral nodes vanish with their session, sequential
//! nodes get strictly increasing suffixes), and the metrics arithmetic.

pub mod errors;
pub mod mode;
pub mod metrics;
pub mod names;
pub mod orchestrator;
pub mod service;
pub mod worker;
