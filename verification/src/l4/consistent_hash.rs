//! Consistent hashing: a client socket address maps to the node of the first
//! live ring point clockwise from its hash.

use vstd::prelude::*;
use vstd::utf8::encode_utf8;
use crate::node::{Error, L4Request, L4Response, LoadBalancer, Node, NodeState};
use crate::ring::{HashRing, claimed, in_reach, law_lookup_fails_only_without_nodes, law_lookup_online, law_stable_mapping, looks_up, murmur3_x64_128_digest, text_hash, well_owned};

verus! {

/// Consistent-hash L4 balancer.
#[derive(Debug)]
pub struct ConsistentHashBalancer {
    ring: HashRing,
}

impl ConsistentHashBalancer {
    /// The ring points, each with the id of its node.
    pub closed spec fn points(&self) -> Map<u128, Seq<char>> {
        self.ring.points()
    }

    /// A balancer with an empty ring.
    pub fn new() -> (r: Self)
        ensures
            r.points() == Map::<u128, Seq<char>>::empty(),
            r.node_list() == Seq::<Node>::empty(),
            r.wf(),
    {
        ConsistentHashBalancer { ring: HashRing::new() }
    }

    /// The node for a key whose hash is `hash`.
    pub fn select_hash(&self, hash: u128) -> (r: Result<L4Response, Error>)
        ensures
            looks_up(
                self.points(),
                self.node_list(),
                hash,
                match r {
                    Ok(resp) => Some(resp.node),
                    Err(_) => None,
                },
            ),
    {
        match self.ring.lookup(hash) {
            Some(node) => Ok(L4Response { node }),
            None => Err(Error::NoHealthyBackend),
        }
    }
}

impl Default for ConsistentHashBalancer {
    fn default() -> (r: Self)
        ensures
            r.points() == Map::<u128, Seq<char>>::empty(),
            r.node_list() == Seq::<Node>::empty(),
            r.wf(),
    {
        Self::new()
    }
}

impl LoadBalancer<L4Request, L4Response> for ConsistentHashBalancer {
    open spec fn wf(&self) -> bool {
        well_owned(self.points(), self.node_list())
    }

    closed spec fn node_list(&self) -> Seq<Node> {
        self.ring.nodes()
    }

    open spec fn fits(&self) -> bool {
        true
    }

    open spec fn may_select(
        &self,
        request: &L4Request,
        after: &Self,
        outcome: Result<L4Response, Error>,
    ) -> bool {
        &&& after.points() == self.points()
        &&& looks_up(
            self.points(),
            self.node_list(),
            text_hash(request.client_addr@),
            match outcome {
                Ok(resp) => Some(resp.node),
                Err(_) => None,
            },
        )
    }

    fn select(&mut self, request: &L4Request) -> (r: Result<L4Response, Error>) {
        let hash = crate::ring::murmur3_hash(request.client_addr.as_str().as_bytes());
        self.select_hash(hash)
    }

    fn add_node(&mut self, node: Node)
        ensures
            final(self).points() == old(self).points().union_prefer_right(
                claimed(node.id@).mk_map(|h: u128| node.id@),
            ),
    {
        self.ring.add_node(node);
    }

    fn remove_node(&mut self, node_id: &str)
        ensures
            final(self).points() == old(self).points().remove_keys(claimed(node_id@)),
    {
        self.ring.remove_node(node_id);
    }

    fn update_node(&mut self, node_id: &str, active_connections: u64, state: NodeState)
        ensures
            final(self).points() == old(self).points(),
    {
        self.ring.update_node(node_id, active_connections, state);
    }

    fn online_nodes(&self) -> (r: Vec<Node>) {
        self.ring.online_nodes()
    }

    fn all_nodes(&self) -> (r: Vec<Node>) {
        self.ring.all_nodes()
    }

    fn get_node(&self, node_id: &str) -> (r: Option<Node>) {
        self.ring.get_node(node_id)
    }
}

/// Connections from the same address get the same node, which is online. A
/// connection is turned away only when no node is online.
pub proof fn law_same_client_same_node(
    start: ConsistentHashBalancer,
    first: L4Request,
    mid: ConsistentHashBalancer,
    a: Result<L4Response, Error>,
    second: L4Request,
    end: ConsistentHashBalancer,
    b: Result<L4Response, Error>,
)
    requires
        start.may_select(&first, &mid, a),
        mid.node_list() == start.node_list(),
        mid.may_select(&second, &end, b),
        first.client_addr@ == second.client_addr@,
    ensures
        match (a, b) {
            (Ok(x), Ok(y)) => {
                &&& x.node == y.node
                &&& x.node.online()
                &&& start.node_list().contains(x.node)
            },
            (Err(_), Err(_)) => true,
            _ => false,
        },
        in_reach(start.points(), start.node_list()) ==> (a is Err
            <==> forall|k: int|
            0 <= k < start.node_list().len() ==> !(#[trigger] start.node_list()[k]).online()),
{
    let hash = text_hash(first.client_addr@);
    let x = match a {
        Ok(resp) => Some(resp.node),
        Err(_) => None,
    };
    let y = match b {
        Ok(resp) => Some(resp.node),
        Err(_) => None,
    };
    law_stable_mapping(start.points(), start.node_list(), hash, x, y);
    law_lookup_online(start.points(), start.node_list(), hash, x);
    if in_reach(start.points(), start.node_list()) {
        law_lookup_fails_only_without_nodes(start.points(), start.node_list(), hash, x);
    }
}

/// A connection goes to the node at the Murmur3 hash of the text of its client
/// address, port included.
pub proof fn law_client_goes_by_its_address(
    start: ConsistentHashBalancer,
    request: L4Request,
    end: ConsistentHashBalancer,
    outcome: Result<L4Response, Error>,
    at: u128,
    direct: Result<L4Response, Error>,
)
    requires
        start.may_select(&request, &end, outcome),
        at == murmur3_x64_128_digest(encode_utf8(request.client_addr@), 0),
        call_ensures(ConsistentHashBalancer::select_hash, (&start, at), direct),
    ensures
        outcome is Err <==> direct is Err,
        outcome is Ok ==> outcome->Ok_0.node == direct->Ok_0.node && outcome->Ok_0.node.state
            == NodeState::Online,
        end.points() == start.points(),
{
    let x = match outcome {
        Ok(resp) => Some(resp.node),
        Err(_) => None,
    };
    let y = match direct {
        Ok(resp) => Some(resp.node),
        Err(_) => None,
    };
    law_stable_mapping(start.points(), start.node_list(), at, x, y);
    law_lookup_online(start.points(), start.node_list(), at, x);
}

} // verus!
