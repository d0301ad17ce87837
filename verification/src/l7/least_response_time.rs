//! Least response time: the online node with the lowest moving average of its
//! response times, once every node has enough samples.
//!
//! 1. All nodes cold: round-robin, to gather data.
//! 2. Some nodes cold: the cold ones in turn, so that they gather samples.
//! 3. All nodes warm: the lowest average.
//!
//! An average is a double-precision bit pattern. Computing the next one needs
//! floating point, which the caller does; the library keeps and compares them.

use dashmap::DashMap;
use vstd::prelude::*;
use crate::node::{Error, HttpRequest, HttpResponse, LoadBalancer, Node, NodeState, online};
use crate::rotation::{hands_over, lemma_next_mod, next_index, turn};
use crate::sample::{less, magnitude, place};
use crate::store::latency_entries;

verus! {

/// Samples from which a node is warm.
pub const COLD_THRESHOLD: u64 = 10;

/// The default smoothing factor, one half, as a bit pattern.
pub const DEFAULT_ALPHA: u64 = 0x3fe0_0000_0000_0000;

/// The response-time state of one node.
#[derive(Debug, Clone, Copy, PartialEq, Eq, Structural)]
pub struct NodeEwma {
    pub ewma_bits: u64,
    pub sample_count: u64,
}

impl NodeEwma {
    /// No samples, and a zero average.
    pub fn new() -> (r: Self)
        ensures
            r == (NodeEwma { ewma_bits: 0, sample_count: 0 }),
    {
        NodeEwma { ewma_bits: 0, sample_count: 0 }
    }

    /// How many samples were recorded.
    pub fn samples(&self) -> (n: u64)
        ensures
            n == self.sample_count,
    {
        self.sample_count
    }

    /// Whether enough samples were recorded to trust the average.
    pub fn is_warm(&self) -> (r: bool)
        ensures
            r == (self.sample_count >= COLD_THRESHOLD),
    {
        self.sample_count >= COLD_THRESHOLD
    }

    /// Whether the next sample becomes the average as it is, instead of being
    /// blended into it: the average is still zero.
    pub fn takes_sample_whole(&self) -> (r: bool)
        ensures
            r == (magnitude(self.ewma_bits) == 0),
    {
        self.ewma_bits == 0 || self.ewma_bits == crate::sample::SIGN
    }

    /// Records a sample whose blended average is `ewma_bits`.
    pub fn update(&mut self, ewma_bits: u64)
        ensures
            *final(self) == (NodeEwma {
                ewma_bits,
                sample_count: if old(self).sample_count == u64::MAX {
                    0
                } else {
                    (old(self).sample_count + 1) as u64
                },
            }),
    {
        self.sample_count = self.sample_count.wrapping_add(1);
        self.ewma_bits = ewma_bits;
    }
}

/// Least-response-time HTTP balancer.
pub struct EwmaBalancer {
    nodes: Vec<Node>,
    ewma_state: DashMap<String, (u64, u64)>,
    alpha: u64,
    rr_index: usize,
}

/// Whether a node is warm.
pub open spec fn warm(state: Map<Seq<char>, (u64, u64)>, n: Node) -> bool {
    state.contains_key(n.id@) && state[n.id@].1 >= COLD_THRESHOLD
}

/// The cold ones among some nodes, in order.
pub open spec fn cold(state: Map<Seq<char>, (u64, u64)>, nodes: Seq<Node>) -> Seq<Node> {
    nodes.filter(|n: Node| !warm(state, n))
}

/// Whether position `i` is the first with the lowest average.
pub open spec fn fastest(state: Map<Seq<char>, (u64, u64)>, nodes: Seq<Node>, i: int) -> bool {
    &&& 0 <= i < nodes.len()
    &&& forall|j: int|
        0 <= j < nodes.len() ==> place(state[nodes[i].id@].0) <= place(
            state[(#[trigger] nodes[j]).id@].0,
        )
    &&& forall|j: int|
        0 <= j < i ==> place(state[nodes[i].id@].0) < place(state[(#[trigger] nodes[j]).id@].0)
}

impl EwmaBalancer {
    /// The tracked averages and sample counts, by node id.
    pub closed spec fn tracked_nodes(&self) -> Map<Seq<char>, (u64, u64)> {
        latency_entries(self.ewma_state)
    }

    /// The round-robin counter.
    pub closed spec fn counter(&self) -> usize {
        self.rr_index
    }

    /// The smoothing factor.
    pub closed spec fn factor(&self) -> u64 {
        self.alpha
    }

    /// A balancer without nodes and with the default smoothing factor.
    pub fn new() -> (r: Self)
        ensures
            r.node_list() == Seq::<Node>::empty(),
            r.tracked_nodes() == Map::<Seq<char>, (u64, u64)>::empty(),
            r.counter() == 0,
            r.factor() == DEFAULT_ALPHA,
    {
        Self::with_alpha(DEFAULT_ALPHA)
    }

    /// A balancer without nodes.
    pub fn with_alpha(alpha: u64) -> (r: Self)
        ensures
            r.node_list() == Seq::<Node>::empty(),
            r.tracked_nodes() == Map::<Seq<char>, (u64, u64)>::empty(),
            r.counter() == 0,
            r.factor() == alpha,
    {
        let r = EwmaBalancer {
            nodes: Vec::new(),
            ewma_state: crate::store::new_latencies(),
            alpha,
            rr_index: 0,
        };
        assert(r.tracked_nodes() =~= Map::<Seq<char>, (u64, u64)>::empty());
        r
    }

    /// The smoothing factor.
    pub fn alpha(&self) -> (r: u64)
        ensures
            r == self.factor(),
    {
        self.alpha
    }

    /// The state of a node, if it is tracked.
    pub fn state_of(&self, node_id: &str) -> (r: Option<NodeEwma>)
        ensures
            match r {
                Some(s) => self.tracked_nodes().contains_key(node_id@) && self.tracked_nodes()[node_id@] == (
                    s.ewma_bits,
                    s.sample_count,
                ),
                None => !self.tracked_nodes().contains_key(node_id@),
            },
    {
        match crate::store::latencies_get(&self.ewma_state, node_id) {
            Some(e) => Some(NodeEwma { ewma_bits: e.0, sample_count: e.1 }),
            None => None,
        }
    }

    /// Records a sample for a node that is tracked; `ewma_bits` is the average
    /// with the sample blended in.
    pub fn record_response_time(&mut self, node_id: &str, ewma_bits: u64)
        ensures
            final(self).node_list() == old(self).node_list(),
            final(self).counter() == old(self).counter(),
            final(self).factor() == old(self).factor(),
            final(self).tracked_nodes() == if old(self).tracked_nodes().contains_key(node_id@) {
                let n = old(self).tracked_nodes()[node_id@].1;
                old(self).tracked_nodes().insert(
                    node_id@,
                    (ewma_bits, if n == u64::MAX { 0 } else { (n + 1) as u64 }),
                )
            } else {
                old(self).tracked_nodes()
            },
    {
        match self.state_of(node_id) {
            Some(s) => {
                let mut state = s;
                state.update(ewma_bits);
                crate::store::latencies_insert(
                    &mut self.ewma_state,
                    node_id.to_owned(),
                    (state.ewma_bits, state.sample_count),
                );
            },
            None => {},
        }
    }

    /// The average of a node, as a bit pattern, if it is tracked.
    pub fn get_ewma(&self, node_id: &str) -> (r: Option<u64>)
        ensures
            r == if self.tracked_nodes().contains_key(node_id@) {
                Some(self.tracked_nodes()[node_id@].0)
            } else {
                None
            },
    {
        match self.state_of(node_id) {
            Some(s) => Some(s.ewma_bits),
            None => None,
        }
    }

    /// The number of samples of a node, if it is tracked.
    pub fn get_sample_count(&self, node_id: &str) -> (r: Option<u64>)
        ensures
            r == if self.tracked_nodes().contains_key(node_id@) {
                Some(self.tracked_nodes()[node_id@].1)
            } else {
                None
            },
    {
        match self.state_of(node_id) {
            Some(s) => Some(s.samples()),
            None => None,
        }
    }

    fn is_warm(&self, node: &Node) -> (r: bool)
        ensures
            r == warm(self.tracked_nodes(), *node),
    {
        match self.state_of(&node.id) {
            Some(s) => s.is_warm(),
            None => false,
        }
    }

    fn cold_of(&self, nodes: &Vec<Node>) -> (out: Vec<Node>)
        ensures
            out@ == cold(self.tracked_nodes(), nodes@),
    {
        let mut out: Vec<Node> = Vec::new();
        let mut i: usize = 0;
        proof {
            reveal(Seq::filter);
        }
        while i < nodes.len()
            invariant
                i <= nodes@.len(),
                out@ == cold(self.tracked_nodes(), nodes@.take(i as int)),
            decreases nodes@.len() - i,
        {
            reveal(Seq::filter);
            assert(nodes@.take(i + 1).drop_last() =~= nodes@.take(i as int));
            if !self.is_warm(&nodes[i]) {
                out.push(nodes[i].clone());
            }
            i += 1;
        }
        assert(nodes@.take(nodes@.len() as int) =~= nodes@);
        out
    }

    fn average_of(&self, node: &Node) -> (bits: u64)
        requires
            self.tracked_nodes().contains_key(node.id@),
        ensures
            bits == self.tracked_nodes()[node.id@].0,
    {
        match self.get_ewma(&node.id) {
            Some(bits) => bits,
            None => 0,
        }
    }

    fn fastest_of(&self, nodes: &Vec<Node>) -> (i: usize)
        requires
            nodes@.len() > 0,
            forall|j: int| 0 <= j < nodes@.len() ==> warm(self.tracked_nodes(), #[trigger] nodes@[j]),
        ensures
            fastest(self.tracked_nodes(), nodes@, i as int),
    {
        let mut best: usize = 0;
        assert(warm(self.tracked_nodes(), nodes@[0]));
        let mut lowest: u64 = self.average_of(&nodes[0]);
        let mut i: usize = 1;
        while i < nodes.len()
            invariant
                1 <= i <= nodes@.len(),
                best < i,
                forall|j: int|
                    0 <= j < nodes@.len() ==> warm(self.tracked_nodes(), #[trigger] nodes@[j]),
                lowest == self.tracked_nodes()[nodes@[best as int].id@].0,
                forall|j: int|
                    0 <= j < i ==> place(lowest) <= place(
                        self.tracked_nodes()[(#[trigger] nodes@[j]).id@].0,
                    ),
                forall|j: int|
                    0 <= j < best ==> place(lowest) < place(
                        self.tracked_nodes()[(#[trigger] nodes@[j]).id@].0,
                    ),
            decreases nodes@.len() - i,
        {
            assert(warm(self.tracked_nodes(), nodes@[i as int]));
            let mine: u64 = self.average_of(&nodes[i]);
            if less(mine, lowest) {
                best = i;
                lowest = mine;
            }
            i += 1;
        }
        best
    }
}

impl Default for EwmaBalancer {
    fn default() -> (r: Self)
        ensures
            r.node_list() == Seq::<Node>::empty(),
            r.tracked_nodes() == Map::<Seq<char>, (u64, u64)>::empty(),
            r.counter() == 0,
            r.factor() == DEFAULT_ALPHA,
    {
        Self::new()
    }
}

impl LoadBalancer<HttpRequest, HttpResponse> for EwmaBalancer {
    open spec fn wf(&self) -> bool {
        true
    }

    closed spec fn node_list(&self) -> Seq<Node> {
        self.nodes@
    }

    open spec fn fits(&self) -> bool {
        true
    }

    open spec fn may_select(
        &self,
        request: &HttpRequest,
        after: &Self,
        outcome: Result<HttpResponse, Error>,
    ) -> bool {
        let candidates = online(self.node_list());
        let chilly = cold(self.tracked_nodes(), candidates);
        &&& after.tracked_nodes() == self.tracked_nodes()
        &&& after.factor() == self.factor()
        &&& match outcome {
            Ok(resp) => {
                &&& candidates.len() > 0
                &&& resp.headers_to_add@.len() == 0
                &&& if chilly.len() > 0 {
                    // With every node cold, the cold ones are the online ones.
                    &&& resp.node == chilly[turn(self.counter(), chilly.len())]
                    &&& after.counter() == next_index(self.counter())
                } else {
                    &&& exists|i: int| #[trigger]
                        fastest(self.tracked_nodes(), candidates, i) && resp.node == candidates[i]
                    &&& after.counter() == self.counter()
                }
            },
            Err(Error::NoHealthyBackend) => candidates.len() == 0 && after.counter()
                == self.counter(),
        }
    }

    fn select(&mut self, request: &HttpRequest) -> (r: Result<HttpResponse, Error>) {
        let candidates = crate::node::online_of(&self.nodes);
        if candidates.len() == 0 {
            return Err(Error::NoHealthyBackend);
        }
        let chilly = self.cold_of(&candidates);
        let node: Node;
        if chilly.len() > 0 {
            let at: usize = self.rr_index % chilly.len();
            self.rr_index = self.rr_index.wrapping_add(1);
            node = chilly[at].clone();
        } else {
            proof {
                let state = self.tracked_nodes();
                assert forall|j: int| 0 <= j < candidates@.len() implies warm(
                    state,
                    #[trigger] candidates@[j],
                ) by {
                    if !warm(state, candidates@[j]) {
                        candidates@.lemma_filter_contains(|n: Node| !warm(state, n), j);
                        assert(cold(state, candidates@).contains(candidates@[j]));
                    }
                }
            }
            let at: usize = self.fastest_of(&candidates);
            node = candidates[at].clone();
        }
        Ok(HttpResponse { node, headers_to_add: Vec::new() })
    }

    fn add_node(&mut self, node: Node)
        ensures
            final(self).tracked_nodes() == old(self).tracked_nodes().insert(node.id@, (0u64, 0u64)),
            final(self).counter() == old(self).counter(),
            final(self).factor() == old(self).factor(),
    {
        let fresh = NodeEwma::new();
        crate::store::latencies_insert(
            &mut self.ewma_state,
            node.id.clone(),
            (fresh.ewma_bits, fresh.sample_count),
        );
        self.nodes.push(node);
    }

    fn remove_node(&mut self, node_id: &str)
        ensures
            final(self).tracked_nodes() == old(self).tracked_nodes().remove(node_id@),
            final(self).counter() == old(self).counter(),
            final(self).factor() == old(self).factor(),
    {
        crate::store::latencies_remove(&mut self.ewma_state, node_id);
        crate::node::drop_node(&mut self.nodes, node_id);
    }

    fn update_node(&mut self, node_id: &str, active_connections: u64, state: NodeState)
        ensures
            final(self).tracked_nodes() == old(self).tracked_nodes(),
            final(self).counter() == old(self).counter(),
            final(self).factor() == old(self).factor(),
    {
        crate::node::update_nodes(&mut self.nodes, node_id, active_connections, state);
    }

    fn online_nodes(&self) -> (r: Vec<Node>) {
        crate::node::online_of(&self.nodes)
    }

    fn all_nodes(&self) -> (r: Vec<Node>) {
        crate::node::all_of(&self.nodes)
    }

    fn get_node(&self, node_id: &str) -> (r: Option<Node>) {
        crate::node::find_of(&self.nodes, node_id)
    }
}

/// As long as every node is cold, the selection is plain round-robin over the
/// online nodes.
pub proof fn law_all_cold_is_round_robin(state: Map<Seq<char>, (u64, u64)>, nodes: Seq<Node>)
    requires
        forall|j: int| 0 <= j < nodes.len() ==> !warm(state, #[trigger] nodes[j]),
    ensures
        cold(state, nodes) == nodes,
    decreases nodes.len(),
{
    reveal(Seq::filter);
    if nodes.len() > 0 {
        let init = nodes.drop_last();
        assert forall|j: int| 0 <= j < init.len() implies !warm(state, #[trigger] init[j]) by {
            assert(init[j] == nodes[j]);
        }
        law_all_cold_is_round_robin(state, init);
        assert(!warm(state, nodes[nodes.len() - 1]));
        assert(init.push(nodes.last()) =~= nodes);
    } else {
        assert(cold(state, nodes) =~= nodes);
    }
}

proof fn lemma_cold(state: Map<Seq<char>, (u64, u64)>, nodes: Seq<Node>)
    ensures
        forall|k: int| 0 <= k < cold(state, nodes).len() ==> !warm(state, #[trigger] cold(state, nodes)[k])
            && nodes.contains(cold(state, nodes)[k]),
        forall|i: int|
            0 <= i < nodes.len() && !warm(state, #[trigger] nodes[i]) ==> cold(state, nodes).len() > 0,
    decreases nodes.len(),
{
    reveal(Seq::filter);
    if nodes.len() > 0 {
        let init = nodes.drop_last();
        lemma_cold(state, init);
        let all = cold(state, nodes);
        let before = cold(state, init);
        assert forall|k: int| 0 <= k < all.len() implies !warm(state, #[trigger] all[k])
            && nodes.contains(all[k]) by {
            if k < before.len() {
                assert(all[k] == before[k]);
                let i = choose|i: int| 0 <= i < init.len() && init[i] == before[k];
                assert(nodes[i] == all[k]);
            } else {
                assert(nodes[nodes.len() - 1] == all[k]);
            }
        }
        assert forall|i: int| 0 <= i < nodes.len() && !warm(state, #[trigger] nodes[i]) implies all.len()
            > 0 by {
            if i < init.len() {
                assert(init[i] == nodes[i]);
            }
        }
    }
}

/// Whether fewer than ten response times of a node are known.
pub open spec fn hardly_known(state: Map<Seq<char>, (u64, u64)>, id: Seq<char>) -> bool {
    !state.contains_key(id) || state[id].1 < 10
}

/// What least response time is about. As long as some online node is hardly
/// known, such a node is picked. Once all are known, none answers faster on
/// average than the picked one. A request is turned away exactly when no node is
/// online. Averages are held as the bits of doubles that are not negative, which
/// compare as integers do.
pub proof fn law_fastest_answers(
    start: EwmaBalancer,
    request: HttpRequest,
    end: EwmaBalancer,
    outcome: Result<HttpResponse, Error>,
    k: int,
)
    requires
        start.may_select(&request, &end, outcome),
    ensures
        outcome is Err <==> forall|j: int|
            0 <= j < start.node_list().len() ==> (#[trigger] start.node_list()[j]).state
                == NodeState::Offline,
        outcome matches Ok(got) ==> {
            let other = start.node_list()[k];
            let known = start.tracked_nodes();
            &&& got.node.state == NodeState::Online
            &&& start.node_list().contains(got.node)
            &&& got.headers_to_add@.len() == 0
            &&& 0 <= k < start.node_list().len() && other.state == NodeState::Online ==> {
                &&& hardly_known(known, other.id@) ==> hardly_known(known, got.node.id@)
                &&& !hardly_known(known, got.node.id@) && known[got.node.id@].0 < 0x8000_0000_0000_0000
                    && known[other.id@].0 < 0x8000_0000_0000_0000 ==> known[got.node.id@].0
                    <= known[other.id@].0
            }
        },
        end.tracked_nodes() == start.tracked_nodes(),
{
    let nodes = start.node_list();
    let state = start.tracked_nodes();
    let up = online(nodes);
    let chilly = cold(state, up);
    if nodes.len() > 0 {
        crate::node::law_online_list(nodes, nodes[0]);
    } else {
        reveal(Seq::filter);
    }
    lemma_cold(state, up);
    if outcome is Ok {
        let got = outcome->Ok_0;
        if chilly.len() > 0 {
            let p = turn(start.counter(), chilly.len());
            assert(0 <= p < chilly.len()) by (nonlinear_arith)
                requires
                    p == (start.counter() as int) % (chilly.len() as int),
                    chilly.len() > 0,
            ;
            assert(chilly[p] == got.node);
            let q = choose|q: int| 0 <= q < up.len() && up[q] == got.node;
            assert(nodes.contains(up[q]));
        } else {
            let i = choose|i: int| #[trigger] fastest(state, up, i) && got.node == up[i];
            assert(nodes.contains(up[i]));
            assert(warm(state, up[i]));
            if 0 <= k < nodes.len() && nodes[k].state == NodeState::Online {
                let other = nodes[k];
                assert(up.contains(other));
                let j = choose|j: int| 0 <= j < up.len() && up[j] == other;
                assert(warm(state, up[j]));
                assert(place(state[up[i].id@].0) <= place(state[up[j].id@].0));
            }
        }
        if 0 <= k < nodes.len() && nodes[k].state == NodeState::Online && hardly_known(
            state,
            nodes[k].id@,
        ) {
            assert(up.contains(nodes[k]));
            let j = choose|j: int| 0 <= j < up.len() && up[j] == nodes[k];
            assert(!warm(state, up[j]));
        }
    }
}

/// A response time counts for its node alone: it raises the number of samples by
/// one and replaces the average, and a node that is not registered is not
/// tracked. A registered node starts without samples.
pub proof fn law_a_sample_counts_once(
    s: &mut EwmaBalancer,
    id: &str,
    bits: u64,
    other: &str,
    average: Option<u64>,
    samples: Option<u64>,
    before: Option<u64>,
    untouched: Option<u64>,
    was: Option<u64>,
)
    requires
        call_ensures(EwmaBalancer::record_response_time, (s, id, bits), ()),
        call_ensures(EwmaBalancer::get_sample_count, (old(s), id), before),
        call_ensures(EwmaBalancer::get_ewma, (final(s), id), average),
        call_ensures(EwmaBalancer::get_sample_count, (final(s), id), samples),
        call_ensures(EwmaBalancer::get_ewma, (old(s), other), was),
        call_ensures(EwmaBalancer::get_ewma, (final(s), other), untouched),
    ensures
        before is None ==> average is None && samples is None,
        before is Some && before->0 < u64::MAX ==> average == Some(bits) && samples == Some(
            (before->0 + 1) as u64,
        ),
        other@ != id@ ==> untouched == was,
        final(s).node_list() == old(s).node_list(),
{
}

/// Which nodes are still to be measured: one more node is, at the end, exactly
/// when fewer than ten answers of it are known.
pub proof fn law_cold_list(state: Map<Seq<char>, (u64, u64)>, nodes: Seq<Node>, n: Node)
    ensures
        cold(state, Seq::<Node>::empty()) == Seq::<Node>::empty(),
        hardly_known(state, n.id@) ==> cold(state, nodes.push(n)) == cold(state, nodes).push(n),
        !hardly_known(state, n.id@) ==> cold(state, nodes.push(n)) == cold(state, nodes),
{
    reveal(Seq::filter);
    assert(nodes.push(n).drop_last() =~= nodes);
}

/// Nodes that are still to be measured take turns: of two requests that follow one
/// another the second goes to the node after the first one's, and to the first
/// behind the last. (The count of requests starts again at its largest value,
/// where this holds only if the nodes divide it.)
pub proof fn law_cold_nodes_take_turns(
    start: EwmaBalancer,
    first: HttpRequest,
    mid: EwmaBalancer,
    a: HttpResponse,
    second: HttpRequest,
    end: EwmaBalancer,
    b: HttpResponse,
)
    requires
        start.may_select(&first, &mid, Ok(a)),
        mid.node_list() == start.node_list(),
        mid.may_select(&second, &end, Ok(b)),
        cold(start.tracked_nodes(), online(start.node_list())).len() > 0,
        start.counter() < usize::MAX,
    ensures
        exists|p: int| #[trigger]
            hands_over(
                cold(start.tracked_nodes(), online(start.node_list())),
                p,
                a.node,
                b.node,
            ),
{
    let chilly = cold(start.tracked_nodes(), online(start.node_list()));
    let n = chilly.len();
    let c = start.counter();
    lemma_next_mod(c as int, n as int);
    let p = turn(c, n);
    assert(hands_over(chilly, p, a.node, b.node));
}

/// Of nodes that answer equally fast the one registered first is picked: every
/// online node before it, once all are known, answers more slowly on average.
pub proof fn law_first_of_the_fastest(
    start: EwmaBalancer,
    request: HttpRequest,
    end: EwmaBalancer,
    got: HttpResponse,
)
    requires
        start.may_select(&request, &end, Ok(got)),
        forall|k: int|
            0 <= k < start.node_list().len() ==> !hardly_known(
                start.tracked_nodes(),
                (#[trigger] start.node_list()[k]).id@,
            ),
    ensures
        exists|i: int|
            {
                &&& 0 <= i < online(start.node_list()).len()
                &&& #[trigger] online(start.node_list())[i] == got.node
                &&& forall|j: int|
                    0 <= j < i ==> place(
                        start.tracked_nodes()[(#[trigger] online(start.node_list())[j]).id@].0,
                    ) > place(start.tracked_nodes()[got.node.id@].0)
            },
        end.counter() == start.counter(),
{
    let nodes = start.node_list();
    let state = start.tracked_nodes();
    let up = online(nodes);
    let chilly = cold(state, up);
    if nodes.len() > 0 {
        crate::node::law_online_list(nodes, nodes[0]);
    } else {
        reveal(Seq::filter);
    }
    lemma_cold(state, up);
    if chilly.len() > 0 {
        let c = chilly[0];
        assert(chilly.contains(c));
        let q = choose|q: int| 0 <= q < up.len() && up[q] == c;
        assert(nodes.contains(up[q]));
        let k = choose|k: int| 0 <= k < nodes.len() && nodes[k] == c;
        assert(!hardly_known(state, nodes[k].id@));
    }
    let i = choose|i: int| #[trigger] fastest(state, up, i) && got.node == up[i];
    assert(up[i] == got.node);
}

/// What is known of one node: an answer replaces the average and counts once; ten
/// make it known; and without an average an answer is taken whole.
pub proof fn law_known_after_ten(
    s: &mut NodeEwma,
    bits: u64,
    fresh: NodeEwma,
    known: bool,
    whole: bool,
    n: u64,
)
    requires
        call_ensures(NodeEwma::update, (s, bits), ()),
        call_ensures(NodeEwma::new, (), fresh),
        call_ensures(NodeEwma::is_warm, (final(s),), known),
        call_ensures(NodeEwma::takes_sample_whole, (final(s),), whole),
        call_ensures(NodeEwma::samples, (final(s),), n),
        old(s).sample_count < u64::MAX,
    ensures
        final(s).ewma_bits == bits,
        n == old(s).sample_count + 1,
        known <==> n >= 10,
        whole <==> bits == 0 || bits == 0x8000_0000_0000_0000,
        fresh.sample_count == 0,
        fresh.ewma_bits == 0,
{
}

/// A balancer starts without nodes and without averages; its factor is a half
/// unless another one is given.
pub proof fn law_new_balancer(r: EwmaBalancer, s: EwmaBalancer, given: u64, a: u64, b: u64)
    requires
        call_ensures(EwmaBalancer::new, (), r),
        call_ensures(EwmaBalancer::with_alpha, (given,), s),
        call_ensures(EwmaBalancer::alpha, (&r,), a),
        call_ensures(EwmaBalancer::alpha, (&s,), b),
    ensures
        a == 0x3fe0_0000_0000_0000,
        b == given,
        r.node_list().len() == 0,
        s.node_list().len() == 0,
        r.tracked_nodes().dom() =~= Set::<Seq<char>>::empty(),
        s.tracked_nodes().dom() =~= Set::<Seq<char>>::empty(),
{
}

/// What is known of a node that comes and goes: nothing yet of one that is added,
/// nothing any more of one that is removed; of the others what was known.
pub proof fn law_nodes_come_and_go(
    a: &mut EwmaBalancer,
    node: Node,
    b: &mut EwmaBalancer,
    gone: &str,
    own: &str,
    count: Option<u64>,
    left: Option<u64>,
    other: &str,
    before: Option<u64>,
    after: Option<u64>,
)
    requires
        call_ensures(
            <EwmaBalancer as LoadBalancer<HttpRequest, HttpResponse>>::add_node,
            (a, node),
            (),
        ),
        call_ensures(
            <EwmaBalancer as LoadBalancer<HttpRequest, HttpResponse>>::remove_node,
            (b, gone),
            (),
        ),
        own@ == node.id@,
        call_ensures(EwmaBalancer::get_sample_count, (final(a), own), count),
        call_ensures(EwmaBalancer::get_sample_count, (final(b), gone), left),
        call_ensures(EwmaBalancer::get_ewma, (old(a), other), before),
        call_ensures(EwmaBalancer::get_ewma, (final(a), other), after),
    ensures
        count == Some(0u64),
        left is None,
        other@ != node.id@ ==> before == after,
{
}

} // verus!
