//! An in-memory key-value cache with zstd-compressed values, together with
//! the line-based text protocol that drives it: a command parser with key
//! validation, a store keyed by strings, and the per-request dispatch that
//! turns one protocol line into one response line.

pub mod api;
pub mod api_log;
pub mod cache;
pub mod cluster;
pub mod hydrogen_cli;
pub mod laws;
pub mod text;
