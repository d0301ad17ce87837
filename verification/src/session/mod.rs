//! Session persistence: which node a returning client goes back to.

pub mod consistent_hash;
pub mod four_tuple;
pub mod source_ip;
