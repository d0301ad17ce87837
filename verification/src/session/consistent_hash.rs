//! Stateless persistence: the hash ring maps a client address (without its
//! port) to a node, so nothing is stored per session.

use vstd::prelude::*;
use vstd::utf8::encode_utf8;
use crate::node::{Node, NodeState, updated, without};
use crate::ring::{HashRing, claimed, law_lookup_online, law_stable_mapping, live, looks_up, murmur3_x64_128_digest, serves, text_hash, well_owned};

verus! {

/// Consistent-hash session persistence.
#[derive(Debug)]
pub struct ConsistentHashPersistence {
    ring: HashRing,
}

impl ConsistentHashPersistence {
    /// The ring points, each with the id of its node.
    pub closed spec fn points(&self) -> Map<u128, Seq<char>> {
        self.ring.points()
    }

    /// The registered nodes.
    pub closed spec fn nodes(&self) -> Seq<Node> {
        self.ring.nodes()
    }

    /// Every point belongs to a registered node that claims it.
    pub open spec fn wf(&self) -> bool {
        well_owned(self.points(), self.nodes())
    }

    /// An empty ring.
    pub fn new() -> (r: Self)
        ensures
            r.points() == Map::<u128, Seq<char>>::empty(),
            r.nodes() == Seq::<Node>::empty(),
            r.wf(),
    {
        ConsistentHashPersistence { ring: HashRing::new() }
    }

    /// Adds a node to the ring.
    pub fn add_node(&mut self, node: Node)
        ensures
            final(self).points() == old(self).points().union_prefer_right(
                claimed(node.id@).mk_map(|h: u128| node.id@),
            ),
            final(self).nodes() == old(self).nodes().push(node),
            old(self).wf() ==> final(self).wf(),
    {
        self.ring.add_node(node);
    }

    /// Removes a node from the ring.
    pub fn remove_node(&mut self, node_id: &str)
        ensures
            final(self).points() == old(self).points().remove_keys(claimed(node_id@)),
            final(self).nodes() == without(old(self).nodes(), node_id@),
            old(self).wf() ==> final(self).wf(),
    {
        self.ring.remove_node(node_id);
    }

    /// Records the load and the state of every node called `node_id`.
    pub fn update_node(&mut self, node_id: &str, active_connections: u64, state: NodeState)
        ensures
            final(self).points() == old(self).points(),
            final(self).nodes() == updated(old(self).nodes(), node_id@, active_connections, state),
            old(self).wf() ==> final(self).wf(),
    {
        self.ring.update_node(node_id, active_connections, state);
    }

    /// The id of the node that a client address maps to.
    pub fn get(&self, ip: &str) -> (r: Option<String>)
        ensures
            exists|found: Option<Node>| #[trigger]
                looks_up(self.points(), self.nodes(), text_hash(ip@), found) && match r {
                    Some(id) => found matches Some(n) && id@ == n.id@,
                    None => found is None,
                },
    {
        let found = self.ring.node_for(ip);
        let ghost witness = found;
        assert(looks_up(self.points(), self.nodes(), text_hash(ip@), witness));
        match found {
            Some(node) => Some(node.id),
            None => None,
        }
    }

    /// Nothing is stored per session.
    pub fn put(&mut self, ip: &str, value: String)
        ensures
            *final(self) == *old(self),
    {
    }

    /// Nothing is stored per session.
    pub fn remove(&mut self, ip: &str)
        ensures
            *final(self) == *old(self),
    {
    }

    /// The number of nodes on the ring, not of sessions.
    pub fn len(&self) -> (n: usize)
        ensures
            n == self.nodes().len(),
    {
        self.ring.len()
    }

    /// Whether no node is on the ring.
    pub fn is_empty(&self) -> (r: bool)
        ensures
            r == (self.nodes().len() == 0),
    {
        self.ring.len() == 0
    }
}

impl Default for ConsistentHashPersistence {
    fn default() -> (r: Self)
        ensures
            r.points() == Map::<u128, Seq<char>>::empty(),
            r.nodes() == Seq::<Node>::empty(),
            r.wf(),
    {
        Self::new()
    }
}

/// The stateless table maps a client address to the id of the online node at its
/// Murmur3 hash. The same address always finds the same id, whatever was stored
/// or removed, and it finds none only where no point serves.
pub proof fn law_address_finds_its_node(
    s: &mut ConsistentHashPersistence,
    other: &str,
    value: String,
    ip: &str,
    a: Option<String>,
    b: Option<String>,
)
    requires
        call_ensures(ConsistentHashPersistence::get, (old(s), ip), a),
        call_ensures(ConsistentHashPersistence::put, (s, other, value), ()),
        call_ensures(ConsistentHashPersistence::get, (final(s), ip), b),
    ensures
        a is None <==> b is None,
        a is Some ==> a->0@ == b->0@,
        a is None <==> forall|p: u128| !#[trigger] serves(old(s).points(), old(s).nodes(), p),
        a matches Some(id) ==> exists|found: Option<Node>|
            {
                &&& #[trigger] looks_up(
                    old(s).points(),
                    old(s).nodes(),
                    murmur3_x64_128_digest(encode_utf8(ip@), 0),
                    found,
                )
                &&& found matches Some(n)
                &&& n.id@ == id@
                &&& n.state == NodeState::Online
            },
{
    let points = old(s).points();
    let nodes = old(s).nodes();
    let hash = text_hash(ip@);
    let f = choose|found: Option<Node>| #[trigger]
        looks_up(points, nodes, hash, found) && match a {
            Some(id) => found matches Some(n) && id@ == n.id@,
            None => found is None,
        };
    let g = choose|found: Option<Node>| #[trigger]
        looks_up(points, nodes, hash, found) && match b {
            Some(id) => found matches Some(n) && id@ == n.id@,
            None => found is None,
        };
    law_stable_mapping(points, nodes, hash, f, g);
    law_lookup_online(points, nodes, hash, f);
    assert forall|q: u128| #[trigger] serves(points, nodes, q) == live(points, nodes, q) by {}
    if a is None {
        assert forall|p: u128| !#[trigger] serves(points, nodes, p) by {
            assert(!live(points, nodes, p));
        }
    } else {
        let p = choose|p: u128| #[trigger] live(points, nodes, p);
        assert(serves(points, nodes, p));
        assert(looks_up(points, nodes, hash, f));
    }
}

} // verus!
