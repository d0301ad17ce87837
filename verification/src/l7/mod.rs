//! HTTP balancers: a node per request.

pub mod consistent_hash;
pub mod least_response_time;
pub mod random;
pub mod round_robin;
