//! Round-robin: the online nodes in turn.

use vstd::prelude::*;
use crate::node::{Error, L4Request, L4Response, LoadBalancer, Node, NodeState, online};
use crate::rotation::{hands_over, next_index, turn};

verus! {

/// Round-robin L4 balancer.
#[derive(Debug)]
pub struct RoundRobinBalancer {
    nodes: Vec<Node>,
    index: usize,
}

impl RoundRobinBalancer {
    /// A balancer without nodes.
    pub fn new() -> (r: Self)
        ensures
            r.node_list() == Seq::<Node>::empty(),
            r.counter() == 0,
    {
        RoundRobinBalancer { nodes: Vec::new(), index: 0 }
    }

    /// How many selections were made, modulo the range of `usize`.
    pub closed spec fn counter(&self) -> usize {
        self.index
    }
}

impl Default for RoundRobinBalancer {
    fn default() -> (r: Self)
        ensures
            r.node_list() == Seq::<Node>::empty(),
            r.counter() == 0,
    {
        Self::new()
    }
}

impl LoadBalancer<L4Request, L4Response> for RoundRobinBalancer {
    open spec fn wf(&self) -> bool {
        true
    }

    closed spec fn node_list(&self) -> Seq<Node> {
        self.nodes@
    }

    open spec fn fits(&self) -> bool {
        true
    }

    open spec fn may_select(
        &self,
        request: &L4Request,
        after: &Self,
        outcome: Result<L4Response, Error>,
    ) -> bool {
        let candidates = online(self.node_list());
        match outcome {
            Ok(resp) => {
                &&& candidates.len() > 0
                &&& resp.node == candidates[turn(self.counter(), candidates.len())]
                &&& after.counter() == next_index(self.counter())
            },
            Err(Error::NoHealthyBackend) => candidates.len() == 0 && after.counter()
                == self.counter(),
        }
    }

    fn select(&mut self, request: &L4Request) -> (r: Result<L4Response, Error>) {
        match crate::rotation::rotate(&self.nodes, &mut self.index) {
            Some(node) => Ok(L4Response { node }),
            None => Err(Error::NoHealthyBackend),
        }
    }

    fn add_node(&mut self, node: Node)
        ensures
            final(self).counter() == old(self).counter(),
    {
        self.nodes.push(node);
    }

    fn remove_node(&mut self, node_id: &str)
        ensures
            final(self).counter() == old(self).counter(),
    {
        crate::node::drop_node(&mut self.nodes, node_id);
    }

    fn update_node(&mut self, node_id: &str, active_connections: u64, state: NodeState)
        ensures
            final(self).counter() == old(self).counter(),
    {
        crate::node::update_nodes(&mut self.nodes, node_id, active_connections, state);
    }

    fn online_nodes(&self) -> (r: Vec<Node>) {
        crate::node::online_of(&self.nodes)
    }

    fn all_nodes(&self) -> (r: Vec<Node>) {
        crate::node::all_of(&self.nodes)
    }

    fn get_node(&self, node_id: &str) -> (r: Option<Node>) {
        crate::node::find_of(&self.nodes, node_id)
    }
}

/// Connections go round: a client after another gets the online node after the
/// other's, and after the last one the first again. A fresh balancer starts with
/// the first. A client is turned away exactly when no node is online.
pub proof fn law_rotation_advances(
    start: RoundRobinBalancer,
    first: L4Request,
    mid: RoundRobinBalancer,
    a: Result<L4Response, Error>,
    second: L4Request,
    end: RoundRobinBalancer,
    b: Result<L4Response, Error>,
)
    requires
        start.may_select(&first, &mid, a),
        mid.node_list() == start.node_list(),
        mid.may_select(&second, &end, b),
        start.counter() < usize::MAX,
    ensures
        a is Err <==> forall|k: int|
            0 <= k < start.node_list().len() ==> (#[trigger] start.node_list()[k]).state
                == NodeState::Offline,
        a is Err <==> b is Err,
        a is Ok ==> exists|p: int| #[trigger]
            hands_over(online(start.node_list()), p, a->Ok_0.node, b->Ok_0.node),
        a is Ok && start.counter() == 0 ==> a->Ok_0.node == online(start.node_list())[0],
        forall|r: RoundRobinBalancer| #[trigger] call_ensures(RoundRobinBalancer::new, (), r) ==> r.counter() == 0,
{
    let nodes = start.node_list();
    let up = online(nodes);
    if nodes.len() > 0 {
        crate::node::law_online_list(nodes, nodes[0]);
    } else {
        assert(up =~= Seq::<Node>::empty()) by {
            reveal(Seq::filter);
        }
    }
    if up.len() > 0 {
        let n = up.len() as int;
        let c = start.counter() as int;
        let p = c % n;
        crate::rotation::lemma_next_mod(c, n);
        assert(hands_over(up, p, a->Ok_0.node, b->Ok_0.node));
        if start.counter() == 0 {
            assert(0int % n == 0) by (nonlinear_arith)
                requires
                    n > 0,
            ;
        }
    }
}

} // verus!
