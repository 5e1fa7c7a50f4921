//! A load balancer for JSON-RPC endpoints: which endpoint a request goes to, how endpoints are
//! rate-limited, checked, cooled down and configured, and how requests and replies are judged.
//!
//! The library decides and keeps state. Reading clocks and files, talking to the network and
//! running tasks is up to its callers, who hand in what they read and do what they are told.

pub mod balancer;
pub mod config;
pub mod config_reloader;
pub mod endpoint;
pub mod forwarder;
pub mod laws;
pub mod limiter;
pub mod order;
pub mod rpc;
pub mod scan;
pub mod shutdown;
pub mod smoothing;
pub mod status;
pub mod strategy;
pub mod text;
pub mod utils;

pub use utils::{cooldown, health};
