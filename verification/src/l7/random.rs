//! Random choice: any of the online nodes.

use vstd::prelude::*;
use crate::node::{Error, HttpRequest, HttpResponse, LoadBalancer, Node, NodeState, online};

verus! {

/// Random HTTP balancer.
#[derive(Debug)]
pub struct HttpRandomBalancer {
    nodes: Vec<Node>,
}

impl HttpRandomBalancer {
    /// A balancer without nodes.
    pub fn new() -> (r: Self)
        ensures
            r.node_list() == Seq::<Node>::empty(),
    {
        HttpRandomBalancer { nodes: Vec::new() }
    }

    /// The node for the random position `at` among the online nodes.
    pub fn select_at(&self, at: usize) -> (r: Result<HttpResponse, Error>)
        ensures
            match r {
                Ok(resp) => at < online(self.node_list()).len() && resp.node == online(
                    self.node_list(),
                )[at as int] && resp.headers_to_add@.len() == 0,
                Err(Error::NoHealthyBackend) => at >= online(self.node_list()).len(),
            },
    {
        match crate::chance::online_at(&self.nodes, at) {
            Some(node) => Ok(HttpResponse { node, headers_to_add: Vec::new() }),
            None => Err(Error::NoHealthyBackend),
        }
    }
}

impl Default for HttpRandomBalancer {
    fn default() -> (r: Self)
        ensures
            r.node_list() == Seq::<Node>::empty(),
    {
        Self::new()
    }
}

impl LoadBalancer<HttpRequest, HttpResponse> for HttpRandomBalancer {
    open spec fn wf(&self) -> bool {
        true
    }

    closed spec fn node_list(&self) -> Seq<Node> {
        self.nodes@
    }

    open spec fn fits(&self) -> bool {
        true
    }

    open spec fn may_select(
        &self,
        request: &HttpRequest,
        after: &Self,
        outcome: Result<HttpResponse, Error>,
    ) -> bool {
        match outcome {
            Ok(resp) => online(self.node_list()).contains(resp.node) && resp.headers_to_add@.len() == 0,
            Err(Error::NoHealthyBackend) => online(self.node_list()).len() == 0,
        }
    }

    fn select(&mut self, request: &HttpRequest) -> (r: Result<HttpResponse, Error>) {
        match crate::chance::random_online(&self.nodes) {
            Some(node) => Ok(HttpResponse { node, headers_to_add: Vec::new() }),
            None => Err(Error::NoHealthyBackend),
        }
    }

    fn add_node(&mut self, node: Node) {
        self.nodes.push(node);
    }

    fn remove_node(&mut self, node_id: &str) {
        crate::node::drop_node(&mut self.nodes, node_id);
    }

    fn update_node(&mut self, node_id: &str, active_connections: u64, state: NodeState) {
        crate::node::update_nodes(&mut self.nodes, node_id, active_connections, state);
    }

    fn online_nodes(&self) -> (r: Vec<Node>) {
        crate::node::online_of(&self.nodes)
    }

    fn all_nodes(&self) -> (r: Vec<Node>) {
        crate::node::all_of(&self.nodes)
    }

    fn get_node(&self, node_id: &str) -> (r: Option<Node>) {
        crate::node::find_of(&self.nodes, node_id)
    }
}

/// A drawn node is registered and online, and every online node can be drawn: by
/// the number of online nodes before it. A client is turned away exactly when no
/// node is online.
pub proof fn law_any_online_node_can_be_drawn(
    lb: HttpRandomBalancer,
    k: int,
    at: usize,
    r: Result<HttpResponse, Error>,
    request: HttpRequest,
    end: HttpRandomBalancer,
    drawn: Result<HttpResponse, Error>,
)
    requires
        0 <= k < lb.node_list().len(),
        lb.node_list()[k].state == NodeState::Online,
        at == online(lb.node_list().take(k)).len(),
        call_ensures(HttpRandomBalancer::select_at, (&lb, at), r),
        lb.may_select(&request, &end, drawn),
    ensures
        r matches Ok(got) && got.node == lb.node_list()[k],
        drawn matches Ok(got) && got.node.state == NodeState::Online && lb.node_list().contains(
            got.node,
        ),
{
    let nodes = lb.node_list();
    crate::node::lemma_online_at(nodes, k);
    crate::node::law_online_list(nodes, nodes[k]);
    if drawn is Ok {
        let got = drawn->Ok_0.node;
        let i = choose|i: int| 0 <= i < online(nodes).len() && online(nodes)[i] == got;
        assert(nodes.contains(online(nodes)[i]));
    }
}

/// Without an online node there is nothing to draw.
pub proof fn law_nothing_to_draw(
    lb: HttpRandomBalancer,
    request: HttpRequest,
    end: HttpRandomBalancer,
    drawn: Result<HttpResponse, Error>,
)
    requires
        lb.may_select(&request, &end, drawn),
        forall|k: int|
            0 <= k < lb.node_list().len() ==> (#[trigger] lb.node_list()[k]).state
                == NodeState::Offline,
    ensures
        drawn is Err,
{
    let nodes = lb.node_list();
    if drawn is Ok {
        let got = drawn->Ok_0.node;
        let i = choose|i: int| 0 <= i < online(nodes).len() && online(nodes)[i] == got;
        if nodes.len() > 0 {
            crate::node::law_online_list(nodes, nodes[0]);
        } else {
            reveal(Seq::filter);
        }
    }
}

} // verus!
