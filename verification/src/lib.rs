//! An in-memory key-value store with time-to-live expiration, eviction sweeps,
//! snapshot encoding and glob-style key enumeration.

pub mod command;
pub mod config;
pub mod http;
pub mod storage;
pub mod utils;
