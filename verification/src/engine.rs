//! The recovery engine's own logic: scan strategies, job state, the carving
//! plan of a scan, and where recovered files are written.

pub mod job;
pub mod pipeline;
pub mod recovery;
pub mod strategies;
