//! The gateway process: what its configuration makes of each listener, and
//! the decisions that its loops take.

pub mod accept;
pub mod boot;
pub mod config;
pub mod metrics;
pub mod mode;
pub mod quic;
pub mod reload;
pub mod upstream;
