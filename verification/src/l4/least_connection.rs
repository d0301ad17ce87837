//! Least connections: the online node with the fewest active connections.

use vstd::prelude::*;
use crate::node::{Error, L4Request, L4Response, LoadBalancer, Node, NodeState, online};

verus! {

/// Least-connection L4 balancer.
#[derive(Debug)]
pub struct LeastConnectionBalancer {
    nodes: Vec<Node>,
}

/// Whether position `i` is the first online node with the fewest connections.
pub open spec fn least_connected(nodes: Seq<Node>, i: int) -> bool {
    &&& 0 <= i < nodes.len()
    &&& nodes[i].online()
    &&& forall|j: int|
        0 <= j < nodes.len() && (#[trigger] nodes[j]).online() ==> nodes[i].active_connections
            <= nodes[j].active_connections
    &&& forall|j: int|
        0 <= j < i && (#[trigger] nodes[j]).online() ==> nodes[i].active_connections
            < nodes[j].active_connections
}

impl LeastConnectionBalancer {
    /// A balancer without nodes.
    pub fn new() -> (r: Self)
        ensures
            r.node_list() == Seq::<Node>::empty(),
    {
        LeastConnectionBalancer { nodes: Vec::new() }
    }
}

impl Default for LeastConnectionBalancer {
    fn default() -> (r: Self)
        ensures
            r.node_list() == Seq::<Node>::empty(),
    {
        Self::new()
    }
}

impl LoadBalancer<L4Request, L4Response> for LeastConnectionBalancer {
    open spec fn wf(&self) -> bool {
        true
    }

    closed spec fn node_list(&self) -> Seq<Node> {
        self.nodes@
    }

    open spec fn fits(&self) -> bool {
        true
    }

    open spec fn may_select(
        &self,
        request: &L4Request,
        after: &Self,
        outcome: Result<L4Response, Error>,
    ) -> bool {
        let nodes = self.node_list();
        match outcome {
            Ok(resp) => exists|i: int| #[trigger]
                least_connected(nodes, i) && resp.node == nodes[i],
            Err(Error::NoHealthyBackend) => forall|j: int|
                0 <= j < nodes.len() ==> !(#[trigger] nodes[j]).online(),
        }
    }

    fn select(&mut self, request: &L4Request) -> (r: Result<L4Response, Error>) {
        let mut best: Option<usize> = None;
        let mut i: usize = 0;
        while i < self.nodes.len()
            invariant
                i <= self.nodes@.len(),
                self.nodes@ == old(self).nodes@,
                match best {
                    Some(b) => b < i && least_connected(self.nodes@.take(i as int), b as int),
                    None => forall|j: int| 0 <= j < i ==> !(#[trigger] self.nodes@[j]).online(),
                },
            decreases self.nodes@.len() - i,
        {
            let ghost seen = self.nodes@.take(i as int);
            let ghost next = self.nodes@.take(i + 1);
            assert(forall|j: int| 0 <= j < i ==> next[j] == seen[j]);
            if self.nodes[i].is_online() {
                match best {
                    None => {
                        best = Some(i);
                        assert(least_connected(next, i as int));
                    },
                    Some(b) => {
                        assert(seen[b as int].online());
                        if self.nodes[i].active_connections < self.nodes[b].active_connections {
                            best = Some(i);
                            assert(least_connected(next, i as int));
                        } else {
                            assert(least_connected(next, b as int));
                        }
                    },
                }
            } else {
                match best {
                    Some(b) => {
                        assert(least_connected(next, b as int));
                    },
                    None => {},
                }
            }
            i += 1;
        }
        assert(self.nodes@.take(self.nodes@.len() as int) =~= self.nodes@);
        match best {
            Some(b) => {
                assert(least_connected(self.nodes@, b as int));
                Ok(L4Response { node: self.nodes[b].clone() })
            },
            None => Err(Error::NoHealthyBackend),
        }
    }

    fn add_node(&mut self, node: Node) {
        self.nodes.push(node);
    }

    fn remove_node(&mut self, node_id: &str) {
        crate::node::drop_node(&mut self.nodes, node_id);
    }

    fn update_node(&mut self, node_id: &str, active_connections: u64, state: NodeState) {
        crate::node::update_nodes(&mut self.nodes, node_id, active_connections, state);
    }

    fn online_nodes(&self) -> (r: Vec<Node>) {
        crate::node::online_of(&self.nodes)
    }

    fn all_nodes(&self) -> (r: Vec<Node>) {
        crate::node::all_of(&self.nodes)
    }

    fn get_node(&self, node_id: &str) -> (r: Option<Node>) {
        crate::node::find_of(&self.nodes, node_id)
    }
}

/// What least connection is about: no online node has fewer connections than the
/// picked one, and of those with as few the one registered first is picked. A
/// client is turned away exactly when no node is online.
pub proof fn law_fewest_connections_win(
    start: LeastConnectionBalancer,
    request: L4Request,
    end: LeastConnectionBalancer,
    outcome: Result<L4Response, Error>,
)
    requires
        start.may_select(&request, &end, outcome),
    ensures
        outcome is Err <==> forall|k: int|
            0 <= k < start.node_list().len() ==> (#[trigger] start.node_list()[k]).state
                == NodeState::Offline,
        outcome matches Ok(got) ==> got.node.state == NodeState::Online && exists|i: int|
            {
                &&& 0 <= i < start.node_list().len()
                &&& #[trigger] start.node_list()[i] == got.node
                &&& forall|j: int|
                    0 <= j < start.node_list().len() && (#[trigger] start.node_list()[j]).state
                        == NodeState::Online ==> start.node_list()[j].active_connections
                        >= got.node.active_connections
                &&& forall|j: int|
                    0 <= j < i && (#[trigger] start.node_list()[j]).state == NodeState::Online
                        ==> start.node_list()[j].active_connections > got.node.active_connections
            },
{
    let nodes = start.node_list();
    if outcome is Ok {
        let got = outcome->Ok_0;
        let i = choose|i: int| #[trigger] least_connected(nodes, i) && got.node == nodes[i];
        assert(nodes[i] == got.node);
    } else {
        assert forall|k: int| 0 <= k < nodes.len() implies (#[trigger] nodes[k]).state
            == NodeState::Offline by {
            assert(!nodes[k].online());
        }
    }
}

} // verus!
