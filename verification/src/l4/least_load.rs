//! Least load: the online node with the lowest share of its connection limit
//! in use, `active_connections / max_connections`. Ties go to the node with
//! fewer connections. A node without a limit has no load.

use vstd::prelude::*;
use crate::node::{Error, L4Request, L4Response, LoadBalancer, Node, NodeState, online};

verus! {

/// Least-load L4 balancer.
#[derive(Debug)]
pub struct LeastLoadBalancer {
    nodes: Vec<Node>,
}

/// The limit that the load of a node is measured against, if it has one.
pub open spec fn limit(n: Node) -> Option<u64> {
    match n.max_connections {
        Some(max) => if max > 0 {
            Some(max)
        } else {
            None
        },
        None => None,
    }
}

/// The load of a node as a fraction: numerator and denominator.
pub open spec fn load(n: Node) -> (nat, nat) {
    match limit(n) {
        Some(max) => (n.active_connections as nat, max as nat),
        None => (0, 1),
    }
}

/// Whether the fraction `a` is smaller than the fraction `b`.
pub open spec fn fraction_lt(a: (nat, nat), b: (nat, nat)) -> bool {
    a.0 * b.1 < b.0 * a.1
}

/// Whether `a` ranks before `b`: a lower load, or the same load with fewer
/// connections.
pub open spec fn less_loaded(a: Node, b: Node) -> bool {
    ||| fraction_lt(load(a), load(b))
    ||| !fraction_lt(load(b), load(a)) && a.active_connections < b.active_connections
}

/// Whether position `i` is the first online node that none ranks before.
pub open spec fn least_loaded(nodes: Seq<Node>, i: int) -> bool {
    &&& 0 <= i < nodes.len()
    &&& nodes[i].online()
    &&& forall|j: int|
        0 <= j < nodes.len() && (#[trigger] nodes[j]).online() ==> !less_loaded(nodes[j], nodes[i])
    &&& forall|j: int|
        0 <= j < i && (#[trigger] nodes[j]).online() ==> less_loaded(nodes[i], nodes[j])
}

/// The load of a node as a fraction.
fn load_pct(n: &Node) -> (r: (u64, u64))
    ensures
        load(*n) == (r.0 as nat, r.1 as nat),
        r.1 > 0,
{
    match n.max_connections {
        Some(max) => if max > 0 {
            (n.active_connections, max)
        } else {
            (0, 1)
        },
        None => (0, 1),
    }
}

fn ranks_before(a: &Node, b: &Node) -> (r: bool)
    ensures
        r == less_loaded(*a, *b),
{
    let la = load_pct(a);
    let lb = load_pct(b);
    assert(la.0 * lb.1 <= u128::MAX && lb.0 * la.1 <= u128::MAX) by (nonlinear_arith)
        requires
            la.0 <= u64::MAX,
            la.1 <= u64::MAX,
            lb.0 <= u64::MAX,
            lb.1 <= u64::MAX,
    ;
    let x: u128 = la.0 as u128 * lb.1 as u128;
    let y: u128 = lb.0 as u128 * la.1 as u128;
    x < y || (x == y && a.active_connections < b.active_connections)
}

/// Of two different ranks exactly one is the lower, and ranks are transitive.
proof fn lemma_rank_order(a: Node, b: Node, c: Node)
    ensures
        !less_loaded(a, a),
        less_loaded(a, b) ==> !less_loaded(b, a),
        less_loaded(a, b) && !less_loaded(c, b) ==> less_loaded(a, c),
        !less_loaded(b, a) && !less_loaded(c, b) ==> !less_loaded(c, a),
{
    let (an, ad) = load(a);
    let (bn, bd) = load(b);
    let (cn, cd) = load(c);
    assert(ad > 0 && bd > 0 && cd > 0);
    lemma_fractions(an, ad, bn, bd, cn, cd);
    lemma_fractions(an, ad, cn, cd, bn, bd);
    lemma_fractions(bn, bd, an, ad, cn, cd);
    lemma_fractions(bn, bd, cn, cd, an, ad);
    lemma_fractions(cn, cd, an, ad, bn, bd);
    lemma_fractions(cn, cd, bn, bd, an, ad);
}

proof fn lemma_fractions(an: nat, ad: nat, bn: nat, bd: nat, cn: nat, cd: nat)
    requires
        ad > 0,
        bd > 0,
        cd > 0,
    ensures
        an * bd <= bn * ad && bn * cd <= cn * bd ==> an * cd <= cn * ad,
        an * bd < bn * ad && bn * cd <= cn * bd ==> an * cd < cn * ad,
        an * bd <= bn * ad && bn * cd < cn * bd ==> an * cd < cn * ad,
{
    if an * bd <= bn * ad && bn * cd <= cn * bd {
        assert(an * cd <= cn * ad) by (nonlinear_arith)
            requires
                an * bd <= bn * ad,
                bn * cd <= cn * bd,
                ad > 0,
                bd > 0,
                cd > 0,
        {
            assert((an * bd) * cd <= (bn * ad) * cd);
            assert((bn * cd) * ad <= (cn * bd) * ad);
            assert((an * cd) * bd <= (cn * ad) * bd);
        }
    }
    if an * bd < bn * ad && bn * cd <= cn * bd {
        assert(an * cd < cn * ad) by (nonlinear_arith)
            requires
                an * bd < bn * ad,
                bn * cd <= cn * bd,
                ad > 0,
                bd > 0,
                cd > 0,
        {
            assert((an * bd) * cd < (bn * ad) * cd);
            assert((bn * cd) * ad <= (cn * bd) * ad);
            assert((an * cd) * bd < (cn * ad) * bd);
        }
    }
    if an * bd <= bn * ad && bn * cd < cn * bd {
        assert(an * cd < cn * ad) by (nonlinear_arith)
            requires
                an * bd <= bn * ad,
                bn * cd < cn * bd,
                ad > 0,
                bd > 0,
                cd > 0,
        {
            assert((an * bd) * cd <= (bn * ad) * cd);
            assert((bn * cd) * ad < (cn * bd) * ad);
            assert((an * cd) * bd < (cn * ad) * bd);
        }
    }
}

impl LeastLoadBalancer {
    /// A balancer without nodes.
    pub fn new() -> (r: Self)
        ensures
            r.node_list() == Seq::<Node>::empty(),
    {
        LeastLoadBalancer { nodes: Vec::new() }
    }
}

impl Default for LeastLoadBalancer {
    fn default() -> (r: Self)
        ensures
            r.node_list() == Seq::<Node>::empty(),
    {
        Self::new()
    }
}

impl LoadBalancer<L4Request, L4Response> for LeastLoadBalancer {
    open spec fn wf(&self) -> bool {
        true
    }

    closed spec fn node_list(&self) -> Seq<Node> {
        self.nodes@
    }

    open spec fn fits(&self) -> bool {
        true
    }

    open spec fn may_select(
        &self,
        request: &L4Request,
        after: &Self,
        outcome: Result<L4Response, Error>,
    ) -> bool {
        let nodes = self.node_list();
        match outcome {
            Ok(resp) => exists|i: int| #[trigger]
                least_loaded(nodes, i) && resp.node == nodes[i],
            Err(Error::NoHealthyBackend) => forall|j: int|
                0 <= j < nodes.len() ==> !(#[trigger] nodes[j]).online(),
        }
    }

    fn select(&mut self, request: &L4Request) -> (r: Result<L4Response, Error>) {
        let mut best: Option<usize> = None;
        let mut i: usize = 0;
        while i < self.nodes.len()
            invariant
                i <= self.nodes@.len(),
                self.nodes@ == old(self).nodes@,
                match best {
                    Some(b) => b < i && least_loaded(self.nodes@.take(i as int), b as int),
                    None => forall|j: int| 0 <= j < i ==> !(#[trigger] self.nodes@[j]).online(),
                },
            decreases self.nodes@.len() - i,
        {
            let ghost seen = self.nodes@.take(i as int);
            let ghost next = self.nodes@.take(i + 1);
            assert(forall|j: int| 0 <= j < i ==> next[j] == seen[j]);
            if self.nodes[i].is_online() {
                match best {
                    None => {
                        best = Some(i);
                        proof {
                            let mine = self.nodes@[i as int];
                            lemma_rank_order(mine, mine, mine);
                            assert(least_loaded(next, i as int));
                        }
                    },
                    Some(b) => {
                        assert(seen[b as int].online());
                        let ghost mine = self.nodes@[i as int];
                        let ghost top = self.nodes@[b as int];
                        if ranks_before(&self.nodes[i], &self.nodes[b]) {
                            best = Some(i);
                            proof {
                                lemma_rank_order(mine, top, top);
                                assert forall|j: int| 0 <= j < i && (#[trigger] next[j]).online() implies
                                    less_loaded(mine, next[j]) && !less_loaded(next[j], mine) by {
                                    assert(seen[j].online());
                                    lemma_rank_order(mine, top, next[j]);
                                    lemma_rank_order(mine, next[j], next[j]);
                                }
                                assert(least_loaded(next, i as int));
                            }
                        } else {
                            assert(least_loaded(next, b as int));
                        }
                    },
                }
            } else {
                match best {
                    Some(b) => {
                        assert(least_loaded(next, b as int));
                    },
                    None => {},
                }
            }
            i += 1;
        }
        assert(self.nodes@.take(self.nodes@.len() as int) =~= self.nodes@);
        match best {
            Some(b) => {
                assert(least_loaded(self.nodes@, b as int));
                Ok(L4Response { node: self.nodes[b].clone() })
            },
            None => Err(Error::NoHealthyBackend),
        }
    }

    fn add_node(&mut self, node: Node) {
        self.nodes.push(node);
    }

    fn remove_node(&mut self, node_id: &str) {
        crate::node::drop_node(&mut self.nodes, node_id);
    }

    fn update_node(&mut self, node_id: &str, active_connections: u64, state: NodeState) {
        crate::node::update_nodes(&mut self.nodes, node_id, active_connections, state);
    }

    fn online_nodes(&self) -> (r: Vec<Node>) {
        crate::node::online_of(&self.nodes)
    }

    fn all_nodes(&self) -> (r: Vec<Node>) {
        crate::node::all_of(&self.nodes)
    }

    fn get_node(&self, node_id: &str) -> (r: Option<Node>) {
        crate::node::find_of(&self.nodes, node_id)
    }
}

/// What least load is about: no other online node uses a smaller share of its
/// limit than the picked one. Shares `x / m` and `y / n` are compared as `x * n`
/// and `y * m`. Of nodes with equal shares, and so of nodes with equal limits,
/// the one with the fewest connections is picked. A node without a limit, or
/// with a limit of zero, uses no share, and next to one only an idle node can be
/// picked.
pub proof fn law_lowest_share_is_picked(
    start: LeastLoadBalancer,
    request: L4Request,
    end: LeastLoadBalancer,
    got: L4Response,
    k: int,
)
    requires
        start.may_select(&request, &end, Ok(got)),
        0 <= k < start.node_list().len(),
        start.node_list()[k].online(),
    ensures
        got.node.online(),
        start.node_list().contains(got.node),
        ({
            let other = start.node_list()[k];
            let x = got.node.active_connections as int;
            let y = other.active_connections as int;
            match (got.node.max_connections, other.max_connections) {
                (Some(m), Some(n)) => {
                    &&& m > 0 && n > 0 ==> x * n <= y * m && (x * n == y * m ==> x <= y)
                    &&& m > 0 && m == n ==> x <= y
                    &&& m > 0 && n == 0 ==> x == 0
                    &&& m == 0 && n == 0 ==> x <= y
                    &&& m == 0 && n > 0 && y == 0 ==> x == 0
                },
                (Some(m), None) => if m > 0 {
                    x == 0
                } else {
                    x <= y
                },
                (None, Some(n)) => {
                    &&& n == 0 ==> x <= y
                    &&& n > 0 && y == 0 ==> x == 0
                },
                (None, None) => x <= y,
            }
        }),
{
    let nodes = start.node_list();
    let i = choose|i: int| #[trigger] least_loaded(nodes, i) && got.node == nodes[i];
    let a = nodes[i];
    let b = nodes[k];
    assert(!less_loaded(b, a));
    let x = a.active_connections as int;
    let y = b.active_connections as int;
    assert(y * 1 == y && 0 * 1 == 0 && x * 1 == x);
    match (a.max_connections, b.max_connections) {
        (Some(m), Some(n)) => {
            let m = m as int;
            let n = n as int;
            assert(0 * m == 0 && 0 * n == 0);
            if m > 0 && m == n {
                assert(x <= y) by (nonlinear_arith)
                    requires
                        x * n <= y * m,
                        m == n,
                        m > 0,
                ;
            }
        },
        (Some(m), None) => {
            assert(0 * (m as int) == 0);
        },
        (None, Some(n)) => {
            assert(0 * (n as int) == 0);
        },
        (None, None) => {},
    }
}

/// A connection is turned away exactly when no node is online, and of nodes that
/// none is preferred to, the one registered first is picked.
pub proof fn law_least_load_serves(
    start: LeastLoadBalancer,
    request: L4Request,
    end: LeastLoadBalancer,
    outcome: Result<L4Response, Error>,
)
    requires
        start.may_select(&request, &end, outcome),
    ensures
        outcome is Err <==> forall|k: int|
            0 <= k < start.node_list().len() ==> !(#[trigger] start.node_list()[k]).online(),
        outcome matches Ok(got) ==> exists|i: int|
            0 <= i < start.node_list().len() && #[trigger] start.node_list()[i] == got.node
                && forall|j: int|
                0 <= j < i && (#[trigger] start.node_list()[j]).online()
                    && start.node_list()[j].max_connections == got.node.max_connections
                    ==> got.node.active_connections < start.node_list()[j].active_connections,
{
    let nodes = start.node_list();
    if outcome is Ok {
        let got = outcome->Ok_0;
        let i = choose|i: int| #[trigger] least_loaded(nodes, i) && got.node == nodes[i];
        assert(nodes[i] == got.node);
        assert forall|j: int|
            0 <= j < i && (#[trigger] nodes[j]).online() && nodes[j].max_connections
                == got.node.max_connections implies got.node.active_connections
            < nodes[j].active_connections by {
            let a = nodes[i];
            let b = nodes[j];
            assert(less_loaded(a, b));
            let x = a.active_connections as int;
            let y = b.active_connections as int;
            match a.max_connections {
                Some(m) => {
                    let m = m as int;
                    if m > 0 && x >= y {
                        assert(y * m <= x * m) by (nonlinear_arith)
                            requires
                                y <= x,
                                m > 0,
                        ;
                    }
                },
                None => {},
            }
        }
    }
}

} // verus!
