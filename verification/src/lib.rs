//! Verified core of a multi-host ping monitor.
pub mod clock;
pub mod config;
pub mod host_task;
pub mod number;
pub mod ping;
pub mod report;
pub mod sample;
pub mod stats;
pub mod table;
pub mod text;
pub mod web_state;
