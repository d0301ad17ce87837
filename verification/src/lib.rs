//! A load-balancing gateway: node selection for connections and requests,
//! sticky routing and session tables, the decisions of the gateway process,
//! and the harness that soaks and benchmarks it.

pub mod chance;
pub mod gateway;
pub mod headers;
pub mod l4;
pub mod l7;
pub mod net;
pub mod node;
pub mod ring;
pub mod rotation;
pub mod sample;
pub mod session;
pub mod soak;
pub mod sticky;
pub mod store;
pub mod text;
pub mod xdp;
