//! Verified core of a single-host system monitor: bounded sample history,
//! collector-output parsers, terminal-safety scrubbing, service and tab
//! state logic, anomaly-card assembly and the session-file framing.

pub mod ring;
pub mod text;
pub mod app;
pub mod keys;
pub mod clock;
pub mod collector;
pub mod gpu;
pub mod insights;
pub mod model;
pub mod proc_bandwidth;
pub mod proc_gpu;
pub mod proc_memory;
pub mod recording;
pub mod sanitize;
pub mod services;
pub mod tabs;
pub mod sort;
