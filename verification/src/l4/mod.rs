//! Layer-4 balancers: a node per connection.

pub mod consistent_hash;
pub mod least_connection;
pub mod least_load;
pub mod random;
pub mod round_robin;
pub mod weighted_round_robin;
