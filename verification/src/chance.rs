//! Random choices.

use vstd::prelude::*;
use crate::node::{Node, online};

verus! {

/// `rand::RngExt::random_range` on the thread's generator: some number in the
/// given range. Nothing is said about which.
#[verifier::external_body]
pub(crate) fn random_range(low: u64, high: u64) -> (r: u64)
    requires
        low <= high,
    ensures
        low <= r <= high,
{
    rand::RngExt::random_range(&mut rand::rng(), low..=high)
}

/// The online node at position `at`, counting online nodes only.
pub fn online_at(nodes: &Vec<Node>, at: usize) -> (r: Option<Node>)
    ensures
        r == if at < online(nodes@).len() {
            Some(online(nodes@)[at as int])
        } else {
            None
        },
{
    let candidates = crate::node::online_of(nodes);
    if at < candidates.len() {
        Some(candidates[at].clone())
    } else {
        None
    }
}

/// Some online node, each of them possible; none when no node is online.
pub fn random_online(nodes: &Vec<Node>) -> (r: Option<Node>)
    ensures
        match r {
            Some(node) => online(nodes@).contains(node),
            None => online(nodes@).len() == 0,
        },
{
    let candidates = crate::node::online_of(nodes);
    if candidates.len() == 0 {
        return None;
    }
    let at: usize = random_range(0, candidates.len() as u64 - 1) as usize;
    let r = online_at(nodes, at);
    assert(online(nodes@).contains(online(nodes@)[at as int]));
    r
}

/// Whatever position comes up, the node is registered and online.
pub proof fn law_choice_is_online(nodes: Seq<Node>, at: int)
    requires
        0 <= at < online(nodes).len(),
    ensures
        online(nodes)[at].online(),
        nodes.contains(online(nodes)[at]),
{
    broadcast use vstd::seq_lib::group_filter_ensures;

    let pick = online(nodes)[at];
    assert(online(nodes).contains(pick));
    nodes.lemma_filter_contains_rev(|n: Node| n.online(), pick);
}

/// `ring::rand::SecureRandom::fill` with the system's generator, on fresh
/// bytes: their number is the one asked for. Nothing is said about which they
/// are; should the system refuse, they are zero.
#[verifier::external_body]
pub(crate) fn random_bytes(len: usize) -> (bytes: Vec<u8>)
    ensures
        bytes@.len() == len,
{
    let mut bytes = vec![0u8; len];
    let _ = ring::rand::SecureRandom::fill(&ring::rand::SystemRandom::new(), &mut bytes);
    bytes
}

/// The length of a QUIC connection id.
pub const CONNECTION_ID_LEN: usize = 20;

/// A fresh connection id.
pub fn random_cid() -> (cid: Vec<u8>)
    ensures
        cid@.len() == CONNECTION_ID_LEN,
{
    random_bytes(CONNECTION_ID_LEN)
}

} // verus!
