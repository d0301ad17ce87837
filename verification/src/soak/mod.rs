//! The soak harness: load shapes, origin behaviour, measurement and verdicts.

pub mod backends;
pub mod bench;
pub mod bench_run;
pub mod calls;
pub mod chaos;
pub mod child;
pub mod config_gen;
pub mod config_lines;
pub mod frames;
pub mod grpc;
pub mod loadgen;
pub mod metrics;
pub mod procstat;
pub mod relay;
pub mod sampler;
pub mod scenario;
pub mod timeseries;
pub mod tunnel;
