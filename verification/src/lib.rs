//! An asynchronous logging core: records are formatted once, queued through a
//! multi-producer channel, and written by a single consumer to a size- or
//! time-rotated log file, with archival packing and retention policies.

pub mod appender;
pub mod date;
pub mod error;
pub mod fast_log;
pub mod filter;
pub mod formats;
pub mod plugin;
pub mod runtime;
pub mod strutil;
