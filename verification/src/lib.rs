//! A segmented, resumable download engine: planning, per-segment worker state
//! machines, shared progress and resume state.

pub mod cli;
pub mod config;
pub mod cookies;
pub mod coordinator;
pub mod http;
pub mod job;
pub mod plan;
pub mod probe;
pub mod text;
pub mod trace;
pub mod worker;
