//! Verified core of a data-recovery toolkit: format validators and the
//! signature catalog of a file carver, file-system and partition-table
//! parsers, and the recovery engine's bookkeeping.

pub mod bytes;
pub mod carve;
pub mod checksum;
pub mod cloud;
pub mod commands;
pub mod config;
pub mod devices;
pub mod engine;
pub mod error;
pub mod filesystem;
pub mod partition;
pub mod storage;
pub mod strings;
pub mod types;
