//! Smooth weighted round-robin.
//!
//! Requests interleave according to the node weights: the weights {5,1,1}
//! yield A,A,B,A,C,A,A rather than A,A,A,A,A,B,C.

use vstd::prelude::*;
use crate::node::{
    Error, L4Request, L4Response, LoadBalancer, Node, NodeState, online, updated, without,
};
use crate::text::same;

verus! {

/// A node with its place in the rotation.
#[derive(Debug)]
pub struct WeightedNode {
    pub node: Node,
    pub current_weight: i64,
    pub effective_weight: i64,
}

impl WeightedNode {
    /// Whether the node takes part in a selection.
    pub open spec fn eligible(self) -> bool {
        self.node.online() && self.effective_weight > 0
    }

    /// What the node gains at the start of a selection.
    pub open spec fn gain(self) -> int {
        if self.eligible() {
            self.effective_weight as int
        } else {
            0
        }
    }

    /// The current weight after that gain.
    pub open spec fn raised(self) -> int {
        self.current_weight + self.gain()
    }

    fn takes_part(&self) -> (r: bool)
        ensures
            r == self.eligible(),
    {
        self.node.is_online() && self.effective_weight > 0
    }
}

/// The sum of the effective weights of the eligible nodes.
pub open spec fn total_weight(state: Seq<WeightedNode>) -> int
    decreases state.len(),
{
    if state.len() == 0 {
        0
    } else {
        total_weight(state.drop_last()) + state.last().gain()
    }
}

/// Whether position `i` wins a selection: its raised weight is the highest
/// among the eligible nodes, and no earlier one has the same.
pub open spec fn wins(state: Seq<WeightedNode>, i: int) -> bool {
    &&& 0 <= i < state.len()
    &&& state[i].eligible()
    &&& forall|j: int|
        0 <= j < state.len() && (#[trigger] state[j]).eligible() ==> state[j].raised()
            <= state[i].raised()
    &&& forall|j: int|
        0 <= j < i && (#[trigger] state[j]).eligible() ==> state[j].raised() < state[i].raised()
}

/// The current weight of position `j` after position `i` won.
pub open spec fn settled(state: Seq<WeightedNode>, i: int, j: int) -> int {
    if j == i {
        state[j].raised() - total_weight(state)
    } else {
        state[j].raised()
    }
}

/// Whether `after` is what the win of position `i` makes of `before`: every
/// eligible node gains its weight and the winner pays the total.
pub open spec fn step(before: Seq<WeightedNode>, i: int, after: Seq<WeightedNode>) -> bool {
    &&& after.len() == before.len()
    &&& forall|j: int|
        0 <= j < before.len() ==> {
            &&& (#[trigger] after[j]).node == before[j].node
            &&& after[j].effective_weight == before[j].effective_weight
            &&& after[j].current_weight == settled(before, i, j)
        }
}

/// Smooth weighted round-robin balancer.
#[derive(Debug)]
pub struct WeightedRoundRobinBalancer {
    state: Vec<WeightedNode>,
}

impl View for WeightedRoundRobinBalancer {
    type V = Seq<WeightedNode>;

    closed spec fn view(&self) -> Seq<WeightedNode> {
        self.state@
    }
}

/// The nodes of a rotation.
pub open spec fn nodes_of(state: Seq<WeightedNode>) -> Seq<Node> {
    state.map_values(|w: WeightedNode| w.node)
}

/// The rotation without the nodes called `id`.
pub open spec fn rotation_without(state: Seq<WeightedNode>, id: Seq<char>) -> Seq<WeightedNode> {
    state.filter(|w: WeightedNode| w.node.id@ != id)
}

/// The first position whose node is called `id`, or the length.
pub open spec fn first_called(state: Seq<WeightedNode>, id: Seq<char>) -> int
    decreases state.len(),
{
    if state.len() == 0 || state[0].node.id@ == id {
        0
    } else {
        1 + first_called(state.skip(1), id)
    }
}

proof fn lemma_total_bound(state: Seq<WeightedNode>, i: int)
    requires
        0 <= i <= state.len(),
    ensures
        0 <= total_weight(state.take(i)) <= total_weight(state),
    decreases state.len() + state.len() - i,
{
    if i < state.len() {
        lemma_total_bound(state, i + 1);
        assert(state.take(i + 1).drop_last() =~= state.take(i));
        lemma_total_nonneg(state.take(i));
    } else {
        assert(state.take(i) =~= state);
        lemma_total_nonneg(state);
    }
}

proof fn lemma_total_nonneg(state: Seq<WeightedNode>)
    ensures
        0 <= total_weight(state),
    decreases state.len(),
{
    if state.len() > 0 {
        lemma_total_nonneg(state.drop_last());
    }
}

proof fn lemma_nodes_without(state: Seq<WeightedNode>, id: Seq<char>)
    ensures
        nodes_of(rotation_without(state, id)) == without(nodes_of(state), id),
    decreases state.len(),
{
    reveal(Seq::filter);
    if state.len() > 0 {
        let init = state.drop_last();
        lemma_nodes_without(init, id);
        assert(nodes_of(state).drop_last() =~= nodes_of(init));
        if state.last().node.id@ != id {
            assert(nodes_of(rotation_without(state, id)) =~= nodes_of(
                rotation_without(init, id),
            ).push(state.last().node));
        }
        assert(nodes_of(rotation_without(state, id)) =~= without(nodes_of(state), id));
    } else {
        assert(nodes_of(rotation_without(state, id)) =~= without(nodes_of(state), id));
    }
}

impl WeightedRoundRobinBalancer {
    /// A balancer without nodes.
    pub fn new() -> (r: Self)
        ensures
            r@ == Seq::<WeightedNode>::empty(),
    {
        WeightedRoundRobinBalancer { state: Vec::new() }
    }

    /// Sets the effective weight of the first node called `node_id`, if any.
    pub fn set_weight(&mut self, node_id: &str, weight: i64)
        ensures
            final(self)@ == if first_called(old(self)@, node_id@) < old(self)@.len() {
                let k = first_called(old(self)@, node_id@);
                old(self)@.update(k, WeightedNode { effective_weight: weight, ..old(self)@[k] })
            } else {
                old(self)@
            },
    {
        let mut i: usize = 0;
        let n: usize = self.state.len();
        assert(self.state@.skip(0) =~= self.state@);
        while i < n && !same(&self.state[i].node.id, node_id)
            invariant
                i <= n == self.state@.len(),
                self.state@ == old(self).state@,
                first_called(self.state@, node_id@) == i + first_called(
                    self.state@.skip(i as int),
                    node_id@,
                ),
            decreases n - i,
        {
            assert(self.state@.skip(i as int).skip(1) =~= self.state@.skip(i + 1));
            i += 1;
        }
        if i < n {
            self.state[i].effective_weight = weight;
        }
    }

    /// The index of the winner of the next selection, if any node is eligible.
    fn winner(&self) -> (r: Option<usize>)
        requires
            forall|j: int|
                0 <= j < self@.len() && (#[trigger] self@[j]).eligible() ==> self@[j].raised()
                    <= i64::MAX,
        ensures
            match r {
                Some(i) => wins(self@, i as int),
                None => forall|j: int| 0 <= j < self@.len() ==> !(#[trigger] self@[j]).eligible(),
            },
    {
        let mut best: Option<usize> = None;
        let mut i: usize = 0;
        while i < self.state.len()
            invariant
                i <= self.state@.len(),
                self.state@ == self@,
                forall|j: int|
                    0 <= j < self@.len() && (#[trigger] self@[j]).eligible() ==> self@[j].raised()
                        <= i64::MAX,
                match best {
                    Some(b) => {
                        &&& b < i
                        &&& self@[b as int].eligible()
                        &&& forall|j: int|
                            0 <= j < i && (#[trigger] self@[j]).eligible() ==> self@[j].raised()
                                <= self@[b as int].raised()
                        &&& forall|j: int|
                            0 <= j < b && (#[trigger] self@[j]).eligible() ==> self@[j].raised()
                                < self@[b as int].raised()
                    },
                    None => forall|j: int| 0 <= j < i ==> !(#[trigger] self@[j]).eligible(),
                },
            decreases self.state@.len() - i,
        {
            if self.state[i].takes_part() {
                assert(self@[i as int].eligible());
                let mine: i64 = self.state[i].current_weight + self.state[i].effective_weight;
                match best {
                    None => {
                        best = Some(i);
                    },
                    Some(b) => {
                        assert(self@[b as int].eligible());
                        let top: i64 = self.state[b].current_weight + self.state[b].effective_weight;
                        if mine > top {
                            best = Some(i);
                        }
                    },
                }
            }
            i += 1;
        }
        best
    }
}

impl Default for WeightedRoundRobinBalancer {
    fn default() -> (r: Self)
        ensures
            r@ == Seq::<WeightedNode>::empty(),
    {
        Self::new()
    }
}

impl LoadBalancer<L4Request, L4Response> for WeightedRoundRobinBalancer {
    open spec fn wf(&self) -> bool {
        true
    }

    open spec fn node_list(&self) -> Seq<Node> {
        nodes_of(self@)
    }

    /// Every raised weight, the total, and the winner's weight once it has
    /// paid the total are 64-bit integers.
    open spec fn fits(&self) -> bool {
        &&& total_weight(self@) <= i64::MAX
        &&& forall|j: int|
            0 <= j < self@.len() && (#[trigger] self@[j]).eligible() ==> {
                &&& self@[j].raised() <= i64::MAX
                &&& i64::MIN <= self@[j].raised() - total_weight(self@)
            }
    }

    open spec fn may_select(
        &self,
        request: &L4Request,
        after: &Self,
        outcome: Result<L4Response, Error>,
    ) -> bool {
        match outcome {
            Ok(resp) => exists|i: int| #[trigger]
                wins(self@, i) && resp.node == self@[i].node && step(self@, i, after@),
            Err(Error::NoHealthyBackend) => {
                &&& forall|j: int| 0 <= j < self@.len() ==> !(#[trigger] self@[j]).eligible()
                &&& after@ == self@
            },
        }
    }

    fn select(&mut self, request: &L4Request) -> (r: Result<L4Response, Error>) {
        let ghost before = self@;
        let best: usize = match self.winner() {
            None => {
                return Err(Error::NoHealthyBackend);
            },
            Some(b) => b,
        };
        let n: usize = self.state.len();
        let mut total: i64 = 0;
        let mut i: usize = 0;
        while i < n
            invariant
                i <= n == self.state@.len(),
                before.len() == n,
                total_weight(before) <= i64::MAX,
                total == total_weight(before.take(i as int)),
                forall|j: int|
                    0 <= j < n && (#[trigger] before[j]).eligible() ==> before[j].raised() <= i64::MAX,
                forall|j: int|
                    0 <= j < n ==> {
                        &&& (#[trigger] self.state@[j]).node == before[j].node
                        &&& self.state@[j].effective_weight == before[j].effective_weight
                        &&& self.state@[j].current_weight == (if j < i {
                            before[j].raised()
                        } else {
                            before[j].current_weight as int
                        })
                    },
            decreases n - i,
        {
            proof {
                assert(before.take(i + 1).drop_last() =~= before.take(i as int));
                lemma_total_bound(before, i + 1);
            }
            if self.state[i].takes_part() {
                assert(before[i as int].eligible());
                let w: i64 = self.state[i].effective_weight;
                total = total + w;
                let c: i64 = self.state[i].current_weight;
                self.state[i].current_weight = c + w;
            }
            i += 1;
        }
        proof {
            assert(before.take(n as int) =~= before);
            lemma_total_nonneg(before);
            assert(before[best as int].eligible());
        }
        let c: i64 = self.state[best].current_weight;
        self.state[best].current_weight = c - total;
        proof {
            assert(step(before, best as int, self@));
            assert(self.node_list() =~= nodes_of(before));
        }
        Ok(L4Response { node: self.state[best].node.clone() })
    }

    fn add_node(&mut self, node: Node)
        ensures
            final(self)@ == old(self)@.push(
                WeightedNode { node, current_weight: 0, effective_weight: node.weight as i64 },
            ),
    {
        let weight: i64 = node.weight as i64;
        self.state.push(WeightedNode { node, current_weight: 0, effective_weight: weight });
        assert(self.node_list() =~= old(self).node_list().push(node));
    }

    fn remove_node(&mut self, node_id: &str)
        ensures
            final(self)@ == rotation_without(old(self)@, node_id@),
    {
        let mut out: Vec<WeightedNode> = Vec::new();
        let mut i: usize = 0;
        proof {
            reveal(Seq::filter);
            lemma_nodes_without(self@, node_id@);
        }
        while i < self.state.len()
            invariant
                i <= self.state@.len(),
                self.state@ == old(self)@,
                out@ == rotation_without(self.state@.take(i as int), node_id@),
            decreases self.state@.len() - i,
        {
            reveal(Seq::filter);
            assert(self.state@.take(i + 1).drop_last() =~= self.state@.take(i as int));
            if !same(&self.state[i].node.id, node_id) {
                out.push(
                    WeightedNode {
                        node: self.state[i].node.clone(),
                        current_weight: self.state[i].current_weight,
                        effective_weight: self.state[i].effective_weight,
                    },
                );
            }
            i += 1;
        }
        assert(self.state@.take(self.state@.len() as int) =~= self.state@);
        self.state = out;
    }

    fn update_node(&mut self, node_id: &str, active_connections: u64, state: NodeState)
        ensures
            final(self)@ == old(self)@.map_values(
                |w: WeightedNode|
                    if w.node.id@ == node_id@ {
                        WeightedNode { node: w.node.with_status(active_connections, state), ..w }
                    } else {
                        w
                    },
            ),
    {
        let n: usize = self.state.len();
        let mut i: usize = 0;
        while i < n
            invariant
                i <= n == self.state@.len(),
                old(self)@.len() == n,
                forall|j: int|
                    0 <= j < n ==> (#[trigger] self.state@[j]) == (if j < i && old(
                        self,
                    )@[j].node.id@ == node_id@ {
                        WeightedNode {
                            node: old(self)@[j].node.with_status(active_connections, state),
                            ..old(self)@[j]
                        }
                    } else {
                        old(self)@[j]
                    }),
            decreases n - i,
        {
            if same(&self.state[i].node.id, node_id) {
                let mut node = self.state[i].node.clone();
                node.active_connections = active_connections;
                node.state = state;
                self.state[i].node = node;
            }
            i += 1;
        }
        proof {
            assert(self@ =~= old(self)@.map_values(
                |w: WeightedNode|
                    if w.node.id@ == node_id@ {
                        WeightedNode { node: w.node.with_status(active_connections, state), ..w }
                    } else {
                        w
                    },
            ));
            assert(self.node_list() =~= updated(
                old(self).node_list(),
                node_id@,
                active_connections,
                state,
            ));
        }
    }

    fn online_nodes(&self) -> (r: Vec<Node>) {
        crate::node::online_of(&self.all_nodes())
    }

    fn all_nodes(&self) -> (r: Vec<Node>) {
        let mut out: Vec<Node> = Vec::new();
        let mut i: usize = 0;
        while i < self.state.len()
            invariant
                i <= self.state@.len(),
                self.state@ == self@,
                out@ == nodes_of(self@).take(i as int),
            decreases self.state@.len() - i,
        {
            out.push(self.state[i].node.clone());
            i += 1;
        }
        assert(nodes_of(self@).take(self@.len() as int) =~= nodes_of(self@));
        out
    }

    fn get_node(&self, node_id: &str) -> (r: Option<Node>) {
        crate::node::find_of(&self.all_nodes(), node_id)
    }
}

// ---------------------------------------------------------------------------
// The distribution over a full cycle
// ---------------------------------------------------------------------------

/// How often `j` occurs among the winners.
pub open spec fn count(winners: Seq<int>, j: int) -> nat
    decreases winners.len(),
{
    if winners.len() == 0 {
        0
    } else {
        count(winners.drop_last(), j) + if winners.last() == j {
            1nat
        } else {
            0nat
        }
    }
}

/// The sum of `f` over `0..n`.
spec fn sum_to(f: spec_fn(int) -> int, n: nat) -> int
    decreases n,
{
    if n == 0 {
        0
    } else {
        sum_to(f, (n - 1) as nat) + f(n - 1)
    }
}

proof fn lemma_sum_bump(f: spec_fn(int) -> int, g: spec_fn(int) -> int, n: nat, i: int, d: int)
    requires
        0 <= i < n,
        forall|j: int| 0 <= j < n ==> #[trigger] g(j) == f(j) + if j == i {
            d
        } else {
            0
        },
    ensures
        sum_to(g, n) == sum_to(f, n) + d,
    decreases n,
{
    let m = (n - 1) as nat;
    if i == m {
        lemma_sum_same(f, g, m);
    } else {
        lemma_sum_bump(f, g, m, i, d);
    }
    assert(g(m as int) == f(m as int) + if m == i { d } else { 0 });
}

proof fn lemma_sum_same(f: spec_fn(int) -> int, g: spec_fn(int) -> int, n: nat)
    requires
        forall|j: int| 0 <= j < n ==> #[trigger] g(j) == f(j),
    ensures
        sum_to(g, n) == sum_to(f, n),
    decreases n,
{
    if n > 0 {
        lemma_sum_same(f, g, (n - 1) as nat);
        assert(g(n - 1) == f(n - 1));
    }
}

proof fn lemma_sum_le(f: spec_fn(int) -> int, g: spec_fn(int) -> int, n: nat)
    requires
        forall|j: int| 0 <= j < n ==> #[trigger] f(j) <= g(j),
    ensures
        sum_to(f, n) <= sum_to(g, n),
        sum_to(f, n) == sum_to(g, n) ==> forall|j: int| 0 <= j < n ==> #[trigger] f(j) == g(j),
    decreases n,
{
    if n > 0 {
        lemma_sum_le(f, g, (n - 1) as nat);
        assert(f(n - 1) <= g(n - 1));
    }
}

proof fn lemma_sum_counts(winners: Seq<int>, n: nat)
    requires
        forall|k: int| 0 <= k < winners.len() ==> 0 <= #[trigger] winners[k] < n,
    ensures
        sum_to(|j: int| count(winners, j) as int, n) == winners.len(),
    decreases winners.len(),
{
    let f = |j: int| count(winners, j) as int;
    if winners.len() == 0 {
        lemma_sum_zero(f, n);
    } else {
        let init = winners.drop_last();
        let g = |j: int| count(init, j) as int;
        assert forall|k: int| 0 <= k < init.len() implies 0 <= #[trigger] init[k] < n by {
            assert(init[k] == winners[k]);
        }
        lemma_sum_counts(init, n);
        assert(0 <= winners[winners.len() - 1] < n);
        lemma_sum_bump(g, f, n, winners.last(), 1);
    }
}

proof fn lemma_sum_zero(f: spec_fn(int) -> int, n: nat)
    requires
        forall|j: int| 0 <= j < n ==> #[trigger] f(j) == 0,
    ensures
        sum_to(f, n) == 0,
    decreases n,
{
    if n > 0 {
        lemma_sum_zero(f, (n - 1) as nat);
        assert(f(n - 1) == 0);
    }
}

proof fn lemma_sum_gains(state: Seq<WeightedNode>, n: nat)
    requires
        n <= state.len(),
    ensures
        sum_to(|j: int| state[j].gain(), n) == total_weight(state.take(n as int)),
    decreases n,
{
    if n > 0 {
        lemma_sum_gains(state, (n - 1) as nat);
        assert(state.take(n as int).drop_last() =~= state.take(n - 1));
    }
}

/// What a node of `first` still holds after `k` selections with these winners.
spec fn account(first: Seq<WeightedNode>, winners: Seq<int>, k: int, j: int) -> int {
    k * first[j].gain() - total_weight(first) * count(winners.take(k), j)
}

spec fn is_trace(trace: Seq<Seq<WeightedNode>>, winners: Seq<int>) -> bool {
    &&& trace.len() == winners.len() + 1
    &&& forall|j: int| 0 <= j < trace[0].len() ==> (#[trigger] trace[0][j]).current_weight == 0
    &&& forall|k: int|
        0 <= k < winners.len() ==> wins(trace[k], #[trigger] winners[k]) && step(
            trace[k],
            winners[k],
            trace[k + 1],
        )
}

proof fn lemma_trace(trace: Seq<Seq<WeightedNode>>, winners: Seq<int>, k: int)
    requires
        is_trace(trace, winners),
        0 <= k <= winners.len(),
    ensures
        trace[k].len() == trace[0].len(),
        total_weight(trace[k]) == total_weight(trace[0]),
        forall|j: int|
            0 <= j < trace[0].len() ==> {
                &&& (#[trigger] trace[k][j]).node == trace[0][j].node
                &&& trace[k][j].effective_weight == trace[0][j].effective_weight
                &&& trace[k][j].current_weight == account(trace[0], winners, k, j)
                &&& trace[k][j].current_weight > -total_weight(trace[0]) || winners.len() == 0
            },
    decreases k,
{
    let first = trace[0];
    let t = total_weight(first);
    lemma_total_nonneg(first);
    if winners.len() > 0 {
        assert(wins(first, winners[0]));
        lemma_total_eligible(first);
    }
    if k == 0 {
        assert(winners.take(0) =~= Seq::<int>::empty());
        assert forall|j: int| 0 <= j < first.len() implies account(first, winners, 0, j) == 0 by {
            assert(0 * first[j].gain() == 0);
            assert(t * 0 == 0);
        }
    } else {
        lemma_trace(trace, winners, k - 1);
        let before = trace[k - 1];
        let after = trace[k];
        let w = winners[k - 1];
        assert(wins(before, w) && step(before, w, after));
        let n = first.len();
        assert(forall|j: int| 0 <= j < n ==> (#[trigger] before[j]).gain() == first[j].gain());
        assert(winners.take(k).drop_last() =~= winners.take(k - 1));
        // The raised weights sum to the total, so the winner's is positive.
        let held = |j: int| account(first, winners, k - 1, j);
        let raised = |j: int| before[j].raised();
        let gains = |j: int| first[j].gain();
        assert forall|i: int| 0 <= i < winners.len() implies 0 <= #[trigger] winners[i] < n by {
            lemma_shape(trace, winners, i);
            assert(wins(trace[i], winners[i]));
        }
        lemma_account_sum(first, winners, k - 1);
        lemma_sum_gains(first, n);
        assert(first.take(n as int) =~= first);
        lemma_sum_split(held, gains, raised, n);
        assert(sum_to(raised, n) == t);
        assert(before[w].raised() > 0) by {
            if before[w].raised() <= 0 {
                let zero = |j: int| 0int;
                assert forall|j: int| 0 <= j < n implies #[trigger] raised(j) <= zero(j) by {
                    if before[j].eligible() {
                        assert(before[j].raised() <= before[w].raised());
                    } else {
                        lemma_idle(trace, winners, k - 1, j);
                        assert(account(first, winners, k - 1, j) == 0);
                    }
                }
                lemma_sum_le(raised, zero, n);
                lemma_sum_zero(zero, n);
            }
        }
        lemma_same_total(first, after);
        lemma_same_total(first, before);
        assert forall|j: int| 0 <= j < n implies {
            &&& (#[trigger] after[j]).current_weight == account(first, winners, k, j)
            &&& after[j].current_weight > -t
        } by {
            assert(after[j].current_weight == settled(before, w, j));
            let g = first[j].gain();
            let c = count(winners.take(k - 1), j);
            assert(before[j].current_weight == (k - 1) * g - t * c);
            assert((k - 1) * g + g == k * g) by (nonlinear_arith);
            if j == w {
                assert(count(winners.take(k), j) == c + 1);
                assert(t * (c + 1) == t * c + t) by (nonlinear_arith);
            } else {
                assert(count(winners.take(k), j) == c);
                assert(before[j].current_weight > -t);
            }
        }
    }
}

proof fn lemma_same_total(a: Seq<WeightedNode>, b: Seq<WeightedNode>)
    requires
        a.len() == b.len(),
        forall|j: int|
            0 <= j < a.len() ==> (#[trigger] b[j]).node == a[j].node && b[j].effective_weight
                == a[j].effective_weight,
    ensures
        total_weight(b) == total_weight(a),
    decreases a.len(),
{
    if a.len() > 0 {
        assert forall|j: int| 0 <= j < a.len() - 1 implies (#[trigger] b.drop_last()[j]).node
            == a.drop_last()[j].node && b.drop_last()[j].effective_weight
            == a.drop_last()[j].effective_weight by {
            assert(b.drop_last()[j] == b[j]);
        }
        lemma_same_total(a.drop_last(), b.drop_last());
        assert(b[b.len() - 1].gain() == a[a.len() - 1].gain());
    }
}

proof fn lemma_sum_split(
    f: spec_fn(int) -> int,
    g: spec_fn(int) -> int,
    h: spec_fn(int) -> int,
    n: nat,
)
    requires
        forall|j: int| 0 <= j < n ==> #[trigger] h(j) == f(j) + g(j),
    ensures
        sum_to(h, n) == sum_to(f, n) + sum_to(g, n),
    decreases n,
{
    if n > 0 {
        lemma_sum_split(f, g, h, (n - 1) as nat);
        assert(h(n - 1) == f(n - 1) + g(n - 1));
    }
}

/// A node that takes no part never wins and keeps a zero account.
proof fn lemma_idle(trace: Seq<Seq<WeightedNode>>, winners: Seq<int>, k: int, j: int)
    requires
        is_trace(trace, winners),
        0 <= k <= winners.len(),
        0 <= j < trace[0].len(),
        !trace[0][j].eligible(),
    ensures
        count(winners.take(k), j) == 0,
        account(trace[0], winners, k, j) == 0,
    decreases k,
{
    if k > 0 {
        lemma_idle(trace, winners, k - 1, j);
        lemma_shape(trace, winners, k - 1);
        assert(winners.take(k).drop_last() =~= winners.take(k - 1));
        assert(wins(trace[k - 1], winners[k - 1]));
        assert(trace[k - 1][j].node == trace[0][j].node);
    }
    let t = total_weight(trace[0]);
    assert(t * 0 == 0);
    assert(k * 0 == 0);
}

/// Selections change nothing but the current weights.
proof fn lemma_shape(trace: Seq<Seq<WeightedNode>>, winners: Seq<int>, k: int)
    requires
        is_trace(trace, winners),
        0 <= k <= winners.len(),
    ensures
        trace[k].len() == trace[0].len(),
        forall|j: int|
            0 <= j < trace[0].len() ==> (#[trigger] trace[k][j]).node == trace[0][j].node
                && trace[k][j].effective_weight == trace[0][j].effective_weight,
    decreases k,
{
    if k > 0 {
        lemma_shape(trace, winners, k - 1);
        assert(step(trace[k - 1], winners[k - 1], trace[k])) by {
            assert(wins(trace[k - 1], winners[k - 1]));
        }
    }
}

proof fn lemma_account_sum(first: Seq<WeightedNode>, winners: Seq<int>, k: int)
    requires
        0 <= k <= winners.len(),
        forall|i: int| 0 <= i < winners.len() ==> 0 <= #[trigger] winners[i] < first.len(),
    ensures
        sum_to(|j: int| account(first, winners, k, j), first.len()) == 0,
{
    let t = total_weight(first);
    let n = first.len();
    let part = winners.take(k);
    let f = |j: int| account(first, winners, k, j);
    let a = |j: int| k * first[j].gain();
    let b = |j: int| -(t * count(part, j));
    assert forall|j: int| 0 <= j < n implies #[trigger] f(j) == a(j) + b(j) by {}
    lemma_sum_split(a, b, f, n);
    lemma_sum_scale(|j: int| first[j].gain(), a, n, k);
    lemma_sum_gains(first, n);
    assert(first.take(n as int) =~= first);
    let c = |j: int| count(part, j) as int;
    assert forall|j: int| 0 <= j < n implies #[trigger] b(j) == (-t) * c(j) by {
        assert(-(t * count(part, j)) == (-t) * count(part, j)) by (nonlinear_arith);
    }
    lemma_sum_scale(c, b, n, -t);
    assert forall|i: int| 0 <= i < part.len() implies 0 <= #[trigger] part[i] < n by {
        assert(part[i] == winners[i]);
    }
    lemma_sum_counts(part, n);
    assert(k * t + (-t) * k == 0) by (nonlinear_arith);
}

proof fn lemma_sum_scale(f: spec_fn(int) -> int, g: spec_fn(int) -> int, n: nat, m: int)
    requires
        forall|j: int| 0 <= j < n ==> #[trigger] g(j) == m * f(j),
    ensures
        sum_to(g, n) == m * sum_to(f, n),
    decreases n,
{
    if n > 0 {
        lemma_sum_scale(f, g, (n - 1) as nat, m);
        let s = sum_to(f, (n - 1) as nat);
        assert(g(n - 1) == m * f(n - 1));
        let x = f(n - 1);
        assert(m * (s + x) == m * s + m * x) by (nonlinear_arith);
    } else {
        assert(m * 0 == 0);
    }
}

/// Over one full cycle of a fresh rotation (as many selections as the eligible
/// weights sum to) every node is selected exactly as often as its effective
/// weight says, nodes that take no part never, and the rotation ends where it
/// began.
pub proof fn law_full_cycle(trace: Seq<Seq<WeightedNode>>, winners: Seq<int>)
    requires
        trace.len() == winners.len() + 1,
        winners.len() == total_weight(trace[0]),
        forall|j: int| 0 <= j < trace[0].len() ==> (#[trigger] trace[0][j]).current_weight == 0,
        forall|k: int|
            0 <= k < winners.len() ==> wins(trace[k], #[trigger] winners[k]) && step(
                trace[k],
                winners[k],
                trace[k + 1],
            ),
    ensures
        forall|j: int| 0 <= j < trace[0].len() ==> count(winners, j) == (#[trigger] trace[0][j]).gain(),
        trace.last() == trace[0],
{
    let first = trace[0];
    let t = total_weight(first);
    let n = first.len();
    let k = winners.len() as int;
    lemma_trace(trace, winners, k);
    assert(winners.take(k) =~= winners);
    assert forall|i: int| 0 <= i < winners.len() implies 0 <= #[trigger] winners[i] < n by {
        lemma_shape(trace, winners, i);
        assert(wins(trace[i], winners[i]));
    }
    lemma_sum_counts(winners, n);
    lemma_sum_gains(first, n);
    assert(first.take(n as int) =~= first);
    let c = |j: int| count(winners, j) as int;
    let g = |j: int| first[j].gain();
    assert forall|j: int| 0 <= j < n implies #[trigger] c(j) <= g(j) by {
        assert(trace[k][j].current_weight == account(first, winners, k, j));
        let cj = c(j);
        let gj = g(j);
        if t > 0 {
            assert(t * gj - t * cj > -t);
            assert(cj <= gj) by (nonlinear_arith)
                requires
                    t * gj - t * cj > -t,
                    t > 0,
            ;
        }
    }
    lemma_sum_le(c, g, n);
    assert forall|j: int| 0 <= j < n implies count(winners, j) == (#[trigger] first[j]).gain() by {
        assert(c(j) == g(j));
    }
    assert forall|j: int| 0 <= j < n implies trace[k][j] == first[j] by {
        let gj = g(j);
        assert(c(j) == g(j));
        assert(trace[k][j].current_weight == t * gj - t * gj);
    }
    assert(trace.last() =~= trace[0]);
}

/// How many of the outcomes are the node of this id.
pub open spec fn times_returned(outcomes: Seq<Result<L4Response, Error>>, id: Seq<char>) -> nat
    decreases outcomes.len(),
{
    if outcomes.len() == 0 {
        0
    } else {
        times_returned(outcomes.drop_last(), id) + match outcomes.last() {
            Ok(resp) => if resp.node.id@ == id {
                1nat
            } else {
                0nat
            },
            Err(_) => 0nat,
        }
    }
}

/// Whether these are the outcomes of one call of `select` after the other, with
/// nothing in between.
pub open spec fn consecutive(
    balancers: Seq<WeightedRoundRobinBalancer>,
    requests: Seq<L4Request>,
    outcomes: Seq<Result<L4Response, Error>>,
) -> bool {
    &&& requests.len() == outcomes.len()
    &&& balancers.len() == outcomes.len() + 1
    &&& forall|k: int|
        0 <= k < outcomes.len() ==> balancers[k].may_select(
            &requests[k],
            &balancers[k + 1],
            #[trigger] outcomes[k],
        )
}

/// The weights of the nodes of an id that take part, together.
pub open spec fn gain_of(state: Seq<WeightedNode>, id: Seq<char>) -> int
    decreases state.len(),
{
    if state.len() == 0 {
        0
    } else {
        gain_of(state.drop_last(), id) + if state.last().node.id@ == id {
            state.last().gain()
        } else {
            0
        }
    }
}

/// Whether no other node has the id of this one.
pub open spec fn only_one(state: Seq<WeightedNode>, j: int) -> bool {
    forall|i: int|
        0 <= i < state.len() && i != j ==> (#[trigger] state[i]).node.id@ != state[j].node.id@
}

proof fn lemma_gain_of_one(state: Seq<WeightedNode>, j: int)
    requires
        0 <= j < state.len(),
        only_one(state, j),
    ensures
        gain_of(state, state[j].node.id@) == state[j].gain(),
    decreases state.len(),
{
    let init = state.drop_last();
    let id = state[j].node.id@;
    if j < init.len() {
        assert(state[state.len() - 1].node.id@ != id);
        assert forall|i: int| 0 <= i < init.len() && i != j implies (#[trigger] init[i]).node.id@
            != init[j].node.id@ by {
            assert(init[i] == state[i]);
        }
        lemma_gain_of_one(init, j);
    } else {
        assert forall|i: int| 0 <= i < init.len() implies (#[trigger] init[i]).node.id@ != id by {
            assert(init[i] == state[i]);
        }
        lemma_no_gain(init, id);
    }
}

proof fn lemma_no_gain(state: Seq<WeightedNode>, id: Seq<char>)
    requires
        forall|i: int| 0 <= i < state.len() ==> (#[trigger] state[i]).node.id@ != id,
    ensures
        gain_of(state, id) == 0,
    decreases state.len(),
{
    if state.len() > 0 {
        let init = state.drop_last();
        assert forall|i: int| 0 <= i < init.len() implies (#[trigger] init[i]).node.id@ != id by {
            assert(init[i] == state[i]);
        }
        lemma_no_gain(init, id);
        assert(state[state.len() - 1].node.id@ != id);
    }
}

/// Calls follow the weights. From a fresh rotation, each node is returned by
/// exactly as many of the first calls as its weight says (nodes of one id, as
/// their weights together say), where the first calls
/// are as many as the weights of the nodes that take part sum to; and the calls
/// after them return the same nodes in the same order. Every call succeeds as
/// long as some node takes part, and none does otherwise.
pub proof fn law_calls_follow_weights(
    balancers: Seq<WeightedRoundRobinBalancer>,
    requests: Seq<L4Request>,
    outcomes: Seq<Result<L4Response, Error>>,
)
    requires
        consecutive(balancers, requests, outcomes),
        forall|j: int|
            0 <= j < balancers[0]@.len() ==> (#[trigger] balancers[0]@[j]).current_weight == 0,
    ensures
        ({
            let first = balancers[0]@;
            let cycle = total_weight(first);
            &&& forall|k: int|
                0 <= k < outcomes.len() ==> ((#[trigger] outcomes[k]) is Ok <==> cycle > 0)
            &&& cycle > 0 <==> exists|j: int| 0 <= j < first.len() && (#[trigger] first[j]).eligible()
            &&& 0 < cycle <= outcomes.len() ==> forall|j: int|
                0 <= j < first.len() ==> times_returned(
                    outcomes.take(cycle),
                    (#[trigger] first[j]).node.id@,
                ) == gain_of(first, first[j].node.id@) && (only_one(first, j) ==> gain_of(
                    first,
                    first[j].node.id@,
                ) == first[j].gain())
            &&& cycle > 0 ==> forall|k: int|
                0 <= k && k + cycle < outcomes.len() ==> (#[trigger] outcomes[k])->Ok_0.node
                    == outcomes[k + cycle]->Ok_0.node
        }),
{
    let first = balancers[0]@;
    let t = total_weight(first);
    let n = outcomes.len() as int;
    lemma_total_nonneg(first);
    lemma_total_eligible(first);
    let trace = balancers.map_values(|b: WeightedRoundRobinBalancer| b@);
    assert forall|k: int| 0 <= k <= n implies same_shape(first, #[trigger] trace[k]) && total_weight(
        trace[k],
    ) == t by {
        lemma_call_shape(balancers, requests, outcomes, k);
        lemma_same_total(first, trace[k]);
    }
    assert forall|k: int| 0 <= k < n implies ((#[trigger] outcomes[k]) is Ok <==> t > 0) by {
        assert(balancers[k].may_select(&requests[k], &balancers[k + 1], outcomes[k]));
        assert(same_shape(first, trace[k]));
        lemma_total_eligible(trace[k]);
        lemma_total_nonneg(trace[k]);
    }
    if t > 0 {
        let winners = Seq::new(n as nat, |k: int| winner_of(balancers[k]@, balancers[k + 1]@, outcomes[k]));
        assert forall|k: int| 0 <= k < n implies wins(trace[k], #[trigger] winners[k]) && step(
            trace[k],
            winners[k],
            trace[k + 1],
        ) && outcomes[k]->Ok_0.node == first[winners[k]].node by {
            assert(balancers[k].may_select(&requests[k], &balancers[k + 1], outcomes[k]));
            assert(outcomes[k] is Ok);
            let resp = outcomes[k]->Ok_0;
            let i = choose|i: int| #[trigger]
                wins(balancers[k]@, i) && resp.node == balancers[k]@[i].node && step(
                    balancers[k]@,
                    i,
                    balancers[k + 1]@,
                );
            assert(won(balancers[k]@, balancers[k + 1]@, outcomes[k], i));
            assert(won(balancers[k]@, balancers[k + 1]@, outcomes[k], winners[k]));
            assert(same_shape(first, trace[k]));
        }
        if t <= n {
            let head = trace.take(t + 1);
            let lead = winners.take(t);
            assert forall|k: int| 0 <= k < lead.len() implies wins(head[k], #[trigger] lead[k]) && step(
                head[k],
                lead[k],
                head[k + 1],
            ) by {
                assert(lead[k] == winners[k]);
                assert(head[k] == trace[k] && head[k + 1] == trace[k + 1]);
            }
            assert(head[0] == first);
            law_full_cycle(head, lead);
            assert(head.last() == trace[t]);
            let calls = outcomes.take(t);
            assert forall|k: int| 0 <= k < lead.len() implies calls[k] is Ok && calls[k]->Ok_0.node
                == first[#[trigger] lead[k]].node && 0 <= lead[k] < first.len() by {
                assert(lead[k] == winners[k]);
                assert(calls[k] == outcomes[k]);
                assert(wins(trace[k], winners[k]));
                assert(same_shape(first, trace[k]));
            }
            assert forall|j: int| 0 <= j < first.len() implies times_returned(
                calls,
                (#[trigger] first[j]).node.id@,
            ) == gain_of(first, first[j].node.id@) && (only_one(first, j) ==> gain_of(
                first,
                first[j].node.id@,
            ) == first[j].gain()) by {
                if only_one(first, j) {
                    lemma_gain_of_one(first, j);
                }
                let id = first[j].node.id@;
                lemma_times_returned(first, lead, calls, id);
                let f = |i: int| if first[i].node.id@ == id {
                    count(lead, i) as int
                } else {
                    0
                };
                let g = |i: int| if first[i].node.id@ == id {
                    first[i].gain()
                } else {
                    0
                };
                assert forall|i: int| 0 <= i < first.len() implies #[trigger] g(i) == f(i) by {
                    assert(count(lead, i) == head[0][i].gain());
                }
                lemma_sum_same(f, g, first.len());
                lemma_sum_gain_of(first, id, first.len());
                assert(first.take(first.len() as int) =~= first);
            }
            assert forall|k: int| 0 <= k && k + t < n implies (#[trigger] outcomes[k])->Ok_0.node
                == outcomes[k + t]->Ok_0.node by {
                lemma_cycle_repeats(trace, winners, t, k);
                assert(wins(trace[k], winners[k]));
                assert(wins(trace[k + t], winners[k + t]));
            }
        }
    }
}

/// Whether two rotations differ in nothing but the current weights.
spec fn same_shape(a: Seq<WeightedNode>, b: Seq<WeightedNode>) -> bool {
    &&& a.len() == b.len()
    &&& forall|j: int|
        0 <= j < a.len() ==> (#[trigger] b[j]).node == a[j].node && b[j].effective_weight
            == a[j].effective_weight
}

spec fn won(
    before: Seq<WeightedNode>,
    after: Seq<WeightedNode>,
    outcome: Result<L4Response, Error>,
    i: int,
) -> bool {
    &&& wins(before, i)
    &&& outcome->Ok_0.node == before[i].node
    &&& step(before, i, after)
}

spec fn winner_of(
    before: Seq<WeightedNode>,
    after: Seq<WeightedNode>,
    outcome: Result<L4Response, Error>,
) -> int {
    choose|i: int| won(before, after, outcome, i)
}

proof fn lemma_call_shape(
    balancers: Seq<WeightedRoundRobinBalancer>,
    requests: Seq<L4Request>,
    outcomes: Seq<Result<L4Response, Error>>,
    k: int,
)
    requires
        consecutive(balancers, requests, outcomes),
        0 <= k <= outcomes.len(),
    ensures
        same_shape(balancers[0]@, balancers[k]@),
    decreases k,
{
    if k > 0 {
        lemma_call_shape(balancers, requests, outcomes, k - 1);
        assert(balancers[k - 1].may_select(&requests[k - 1], &balancers[k - 1 + 1], outcomes[k - 1]));
    }
}

proof fn lemma_total_eligible(state: Seq<WeightedNode>)
    ensures
        total_weight(state) > 0 <==> exists|j: int|
            0 <= j < state.len() && (#[trigger] state[j]).eligible(),
    decreases state.len(),
{
    if state.len() > 0 {
        let init = state.drop_last();
        lemma_total_eligible(init);
        lemma_total_nonneg(init);
        assert(state[state.len() - 1] == state.last());
        if total_weight(init) > 0 {
            let j = choose|j: int| 0 <= j < init.len() && (#[trigger] init[j]).eligible();
            assert(state[j] == init[j]);
        }
        if exists|j: int| 0 <= j < state.len() && (#[trigger] state[j]).eligible() {
            let j = choose|j: int| 0 <= j < state.len() && (#[trigger] state[j]).eligible();
            if j < init.len() {
                assert(init[j] == state[j]);
            }
        }
    }
}

proof fn lemma_sum_gain_of(state: Seq<WeightedNode>, id: Seq<char>, n: nat)
    requires
        n <= state.len(),
    ensures
        sum_to(
            |i: int|
                if state[i].node.id@ == id {
                    state[i].gain()
                } else {
                    0
                },
            n,
        ) == gain_of(state.take(n as int), id),
    decreases n,
{
    if n > 0 {
        lemma_sum_gain_of(state, id, (n - 1) as nat);
        assert(state.take(n as int).drop_last() =~= state.take(n - 1));
    }
}

proof fn lemma_times_returned(
    first: Seq<WeightedNode>,
    winners: Seq<int>,
    calls: Seq<Result<L4Response, Error>>,
    id: Seq<char>,
)
    requires
        calls.len() == winners.len(),
        forall|k: int|
            0 <= k < winners.len() ==> calls[k] is Ok && calls[k]->Ok_0.node == first[
                #[trigger] winners[k]].node && 0 <= winners[k] < first.len(),
    ensures
        times_returned(calls, id) == sum_to(
            |i: int|
                if first[i].node.id@ == id {
                    count(winners, i) as int
                } else {
                    0
                },
            first.len(),
        ),
    decreases winners.len(),
{
    let f = |i: int| if first[i].node.id@ == id {
        count(winners, i) as int
    } else {
        0
    };
    if winners.len() > 0 {
        let w = winners.drop_last();
        let c = calls.drop_last();
        assert forall|k: int| 0 <= k < w.len() implies c[k] is Ok && c[k]->Ok_0.node == first[
            #[trigger] w[k]].node && 0 <= w[k] < first.len() by {
            assert(w[k] == winners[k]);
            assert(c[k] == calls[k]);
        }
        lemma_times_returned(first, w, c, id);
        let g = |i: int| if first[i].node.id@ == id {
            count(w, i) as int
        } else {
            0
        };
        let last = winners[winners.len() - 1];
        assert(calls[winners.len() - 1]->Ok_0.node == first[last].node);
        if first[last].node.id@ == id {
            lemma_sum_bump(g, f, first.len(), last, 1);
        } else {
            lemma_sum_same(g, f, first.len());
        }
    } else {
        lemma_sum_zero(f, first.len());
    }
}

/// There is one winner, and one rotation after it.
proof fn lemma_one_winner(state: Seq<WeightedNode>, a: int, b: int)
    requires
        wins(state, a),
        wins(state, b),
    ensures
        a == b,
{
    assert(state[a].eligible() && state[b].eligible());
}

proof fn lemma_cycle_repeats(trace: Seq<Seq<WeightedNode>>, winners: Seq<int>, t: int, k: int)
    requires
        trace.len() == winners.len() + 1,
        forall|i: int|
            0 <= i < winners.len() ==> wins(trace[i], #[trigger] winners[i]) && step(
                trace[i],
                winners[i],
                trace[i + 1],
            ),
        0 < t,
        0 <= k,
        k + t < winners.len(),
        trace[t] == trace[0],
    ensures
        trace[k + t] == trace[k],
        winners[k + t] == winners[k],
    decreases k,
{
    if k > 0 {
        lemma_cycle_repeats(trace, winners, t, k - 1);
        let a = trace[k];
        let b = trace[k + t];
        assert(wins(trace[k - 1], winners[k - 1]) && step(trace[k - 1], winners[k - 1], trace[k - 1 + 1]));
        assert(wins(trace[k - 1 + t], winners[k - 1 + t]) && step(
            trace[k - 1 + t],
            winners[k - 1 + t],
            trace[k - 1 + t + 1],
        ));
        assert forall|j: int| 0 <= j < a.len() implies a[j] == b[j] by {
            assert(a[j].node == b[j].node);
        }
        assert(a =~= b);
    }
    assert(wins(trace[k], winners[k]));
    assert(wins(trace[k + t], winners[k + t]));
    lemma_one_winner(trace[k], winners[k], winners[k + t]);
}

/// A fresh rotation stays within its integers for ever: however many calls there
/// were, the next one fits, as long as the total weight times the number of
/// nodes and one more is a 64-bit integer.
pub proof fn law_fresh_rotation_fits(
    balancers: Seq<WeightedRoundRobinBalancer>,
    requests: Seq<L4Request>,
    outcomes: Seq<Result<L4Response, Error>>,
    k: int,
)
    requires
        consecutive(balancers, requests, outcomes),
        0 <= k <= outcomes.len(),
        forall|j: int|
            0 <= j < balancers[0]@.len() ==> (#[trigger] balancers[0]@[j]).current_weight == 0,
        (balancers[0]@.len() + 1) * total_weight(balancers[0]@) <= i64::MAX,
    ensures
        balancers[k].fits(),
{
    let first = balancers[0]@;
    let t = total_weight(first);
    let n = first.len();
    lemma_total_nonneg(first);
    lemma_total_eligible(first);
    let trace = balancers.map_values(|b: WeightedRoundRobinBalancer| b@).take(k + 1);
    assert forall|i: int| 0 <= i <= k implies same_shape(first, #[trigger] trace[i]) && total_weight(
        trace[i],
    ) == t by {
        lemma_call_shape(balancers, requests, outcomes, i);
        lemma_same_total(first, trace[i]);
    }
    let state = trace[k];
    assert(state == balancers[k]@);
    assert((n + 1) * t >= t) by (nonlinear_arith)
        requires
            t >= 0,
            n >= 0,
    ;
    if t > 0 {
        let winners = Seq::new(k as nat, |i: int| winner_of(balancers[i]@, balancers[i + 1]@, outcomes[i]));
        assert forall|i: int| 0 <= i < k implies wins(trace[i], #[trigger] winners[i]) && step(
            trace[i],
            winners[i],
            trace[i + 1],
        ) by {
            assert(balancers[i].may_select(&requests[i], &balancers[i + 1], outcomes[i]));
            assert(same_shape(first, trace[i]));
            lemma_total_eligible(trace[i]);
            assert(outcomes[i] is Ok);
            let resp = outcomes[i]->Ok_0;
            let w = choose|w: int| #[trigger]
                wins(balancers[i]@, w) && resp.node == balancers[i]@[w].node && step(
                    balancers[i]@,
                    w,
                    balancers[i + 1]@,
                );
            assert(won(balancers[i]@, balancers[i + 1]@, outcomes[i], w));
            assert(won(balancers[i]@, balancers[i + 1]@, outcomes[i], winners[i]));
        }
        assert(trace[0] == first);
        assert(is_trace(trace, winners));
        lemma_trace(trace, winners, k);
        assert forall|i: int| 0 <= i < winners.len() implies 0 <= #[trigger] winners[i] < n by {
            lemma_shape(trace, winners, i);
            assert(wins(trace[i], winners[i]));
        }
        lemma_account_sum(first, winners, k);
        assert forall|j: int| 0 <= j < n implies -t <= (#[trigger] state[j]).current_weight <= n * t by {
            let f = |j: int| account(first, winners, k, j);
            assert forall|i: int| 0 <= i < n implies #[trigger] f(i) >= -t by {
                assert(f(i) == state[i].current_weight);
                assert(k == 0 ==> state[i].current_weight == first[i].current_weight);
            }
            lemma_one_of_sum(f, n, j, t);
            assert(f(j) == state[j].current_weight);
        }
        assert((n + 1) * t == n * t + t && (n > 0 ==> n * t >= t)) by (nonlinear_arith)
            requires
                t > 0,
        ;
        assert forall|j: int| 0 <= j < state.len() && (#[trigger] state[j]).eligible() implies state[j].raised()
            <= i64::MAX && i64::MIN <= state[j].raised() - t by {
            lemma_gain_below_total(state, j);
        }
    }
}

/// Of numbers that sum to zero and are all above `-t`, none is above `n * t`.
proof fn lemma_one_of_sum(f: spec_fn(int) -> int, n: nat, j: int, t: int)
    requires
        0 <= j < n,
        t > 0,
        sum_to(f, n) == 0,
        forall|i: int| 0 <= i < n ==> #[trigger] f(i) >= -t,
    ensures
        f(j) <= n * t,
{
    let low = |i: int| if i == j {
        f(j)
    } else {
        -t
    };
    let flat = |i: int| -t;
    lemma_sum_le(low, f, n);
    let ones = |i: int| 1int;
    lemma_sum_scale(ones, flat, n, -t);
    lemma_sum_ones(ones, n);
    lemma_sum_bump(flat, low, n, j, f(j) + t);
    assert((-t) * n == -(n * t)) by (nonlinear_arith);
}

proof fn lemma_sum_ones(f: spec_fn(int) -> int, n: nat)
    requires
        forall|j: int| 0 <= j < n ==> #[trigger] f(j) == 1,
    ensures
        sum_to(f, n) == n,
    decreases n,
{
    if n > 0 {
        lemma_sum_ones(f, (n - 1) as nat);
        assert(f(n - 1) == 1);
    }
}

proof fn lemma_gain_below_total(state: Seq<WeightedNode>, j: int)
    requires
        0 <= j < state.len(),
    ensures
        0 <= state[j].gain() <= total_weight(state),
    decreases state.len(),
{
    let init = state.drop_last();
    lemma_total_nonneg(init);
    if j < init.len() {
        lemma_gain_below_total(init, j);
        assert(init[j] == state[j]);
    }
}

/// The weights of all nodes, together.
pub open spec fn weight_sum(state: Seq<WeightedNode>) -> int
    decreases state.len(),
{
    if state.len() == 0 {
        0
    } else {
        weight_sum(state.drop_last()) + state.last().effective_weight
    }
}

proof fn lemma_weight_sum(state: Seq<WeightedNode>)
    requires
        forall|j: int|
            0 <= j < state.len() ==> (#[trigger] state[j]).node.state == NodeState::Online
                && state[j].effective_weight > 0,
    ensures
        weight_sum(state) == total_weight(state),
    decreases state.len(),
{
    if state.len() > 0 {
        let init = state.drop_last();
        assert forall|j: int| 0 <= j < init.len() implies (#[trigger] init[j]).node.state
            == NodeState::Online && init[j].effective_weight > 0 by {
            assert(init[j] == state[j]);
        }
        lemma_weight_sum(init);
        assert(state[state.len() - 1].effective_weight > 0);
    }
}

proof fn lemma_share(
    balancers: Seq<WeightedRoundRobinBalancer>,
    requests: Seq<L4Request>,
    outcomes: Seq<Result<L4Response, Error>>,
    k: int,
    j: int,
)
    requires
        consecutive(balancers, requests, outcomes),
        forall|i: int|
            0 <= i < balancers[0]@.len() ==> (#[trigger] balancers[0]@[i]).current_weight == 0,
        0 <= j < balancers[0]@.len(),
        balancers[0]@[j].eligible(),
        only_one(balancers[0]@, j),
        total_weight(balancers[0]@) > 0,
        0 <= k <= outcomes.len(),
        forall|i: int| 0 <= i < outcomes.len() ==> (#[trigger] outcomes[i]) is Ok,
    ensures
        k * balancers[0]@[j].effective_weight - total_weight(balancers[0]@) * times_returned(
            outcomes.take(k),
            balancers[0]@[j].node.id@,
        ) > -total_weight(balancers[0]@),
{
    let first = balancers[0]@;
    let id = first[j].node.id@;
    let n = first.len();
    let t = total_weight(first);
    let trace = balancers.map_values(|b: WeightedRoundRobinBalancer| b@).take(k + 1);
    assert forall|i: int| 0 <= i <= k implies same_shape(first, #[trigger] trace[i]) && total_weight(
        trace[i],
    ) == t by {
        lemma_call_shape(balancers, requests, outcomes, i);
        lemma_same_total(first, trace[i]);
    }
    let winners = Seq::new(k as nat, |i: int| winner_of(balancers[i]@, balancers[i + 1]@, outcomes[i]));
    let calls = outcomes.take(k);
    assert forall|i: int| 0 <= i < k implies wins(trace[i], #[trigger] winners[i]) && step(
        trace[i],
        winners[i],
        trace[i + 1],
    ) && calls[i] is Ok && calls[i]->Ok_0.node == first[winners[i]].node && 0 <= winners[i] < n by {
        assert(balancers[i].may_select(&requests[i], &balancers[i + 1], outcomes[i]));
        assert(same_shape(first, trace[i]));
        assert(outcomes[i] is Ok);
        let resp = outcomes[i]->Ok_0;
        let w = choose|w: int| #[trigger]
            wins(balancers[i]@, w) && resp.node == balancers[i]@[w].node && step(
                balancers[i]@,
                w,
                balancers[i + 1]@,
            );
        assert(won(balancers[i]@, balancers[i + 1]@, outcomes[i], w));
        assert(won(balancers[i]@, balancers[i + 1]@, outcomes[i], winners[i]));
        assert(calls[i] == outcomes[i]);
    }
    assert(trace[0] == first);
    assert(is_trace(trace, winners));
    lemma_trace(trace, winners, k);
    assert(winners.take(k) =~= winners);
    let c = count(winners, j) as int;
    let weight = first[j].effective_weight as int;
    assert(trace[k][j].current_weight == account(first, winners, k, j));
    assert(account(first, winners, k, j) == k * weight - t * c);
    lemma_times_returned(first, winners, calls, id);
    let f = |i: int| if first[i].node.id@ == id {
        count(winners, i) as int
    } else {
        0
    };
    let zero = |i: int| 0int;
    lemma_sum_zero(zero, n);
    assert forall|i: int| 0 <= i < n implies #[trigger] f(i) == zero(i) + if i == j {
        c
    } else {
        0
    } by {
        if i != j {
            assert(first[i].node.id@ != first[j].node.id@);
        }
    }
    lemma_sum_bump(zero, f, n, j, c);
    assert(times_returned(calls, id) == c);
    if k > 0 {
        assert(k * weight - t * c > -t);
    } else {
        assert(winners =~= Seq::<int>::empty());
        assert(0 * weight == 0);
    }
}

/// What the law on calls says of one call and one node.
proof fn lemma_calls_at(
    balancers: Seq<WeightedRoundRobinBalancer>,
    requests: Seq<L4Request>,
    outcomes: Seq<Result<L4Response, Error>>,
    k: int,
    j: int,
)
    requires
        consecutive(balancers, requests, outcomes),
        forall|i: int|
            0 <= i < balancers[0]@.len() ==> (#[trigger] balancers[0]@[i]).current_weight == 0,
        0 <= j < balancers[0]@.len(),
        only_one(balancers[0]@, j),
        0 <= k <= outcomes.len(),
        total_weight(balancers[0]@) > 0,
    ensures
        forall|i: int| 0 <= i < outcomes.len() ==> (#[trigger] outcomes[i]) is Ok,
        ({
            let t = total_weight(balancers[0]@);
            &&& k == t ==> times_returned(outcomes.take(k), balancers[0]@[j].node.id@)
                == balancers[0]@[j].gain()
            &&& k + t < outcomes.len() ==> outcomes[k]->Ok_0.node == outcomes[k + t]->Ok_0.node
        }),
{
    law_calls_follow_weights(balancers, requests, outcomes);
}

/// Weights share the calls, and share them evenly. With all nodes online and of
/// positive weight, every call of a fresh balancer succeeds. After any number of
/// calls no node is a whole turn ahead of its share, which is the number of calls
/// times its weight over the sum of the weights. After as many calls as that sum,
/// each node was returned exactly as often as its weight says, and then the same
/// order comes again.
pub proof fn law_weights_share_the_calls(
    balancers: Seq<WeightedRoundRobinBalancer>,
    requests: Seq<L4Request>,
    outcomes: Seq<Result<L4Response, Error>>,
    k: int,
    j: int,
)
    requires
        consecutive(balancers, requests, outcomes),
        forall|i: int|
            0 <= i < balancers[0]@.len() ==> {
                &&& (#[trigger] balancers[0]@[i]).current_weight == 0
                &&& balancers[0]@[i].effective_weight > 0
                &&& balancers[0]@[i].node.state == NodeState::Online
            },
        forall|a: int, b: int|
            0 <= a < balancers[0]@.len() && 0 <= b < balancers[0]@.len() && a != b ==> (
            #[trigger] balancers[0]@[a]).node.id@ != (#[trigger] balancers[0]@[b]).node.id@,
        0 <= j < balancers[0]@.len(),
        0 <= k <= outcomes.len(),
    ensures
        ({
            let weight = balancers[0]@[j].effective_weight as int;
            let sum = weight_sum(balancers[0]@);
            let times = times_returned(outcomes.take(k), balancers[0]@[j].node.id@) as int;
            &&& forall|i: int| 0 <= i < outcomes.len() ==> (#[trigger] outcomes[i]) is Ok
            &&& sum >= weight
            &&& sum * (times - 1) < k * weight
            &&& k == sum ==> times == weight
            &&& k + sum < outcomes.len() ==> outcomes[k]->Ok_0.node == outcomes[k + sum]->Ok_0.node
        }),
{
    let first = balancers[0]@;
    let id = first[j].node.id@;
    let n = first.len();
    lemma_weight_sum(first);
    let t = total_weight(first);
    lemma_total_nonneg(first);
    lemma_total_eligible(first);
    lemma_gain_below_total(first, j);
    assert(first[j].eligible());
    assert(only_one(first, j));
    lemma_calls_at(balancers, requests, outcomes, k, j);
    let weight = first[j].effective_weight as int;
    let c = times_returned(outcomes.take(k), id) as int;
    lemma_share(balancers, requests, outcomes, k, j);
    assert(t * (c - 1) == t * c - t) by (nonlinear_arith);
}

/// A node joins the rotation with its configured weight and without credit, and
/// behind the others, whose places do not change.
pub proof fn law_registered_weight(s: &mut WeightedRoundRobinBalancer, node: Node, i: int)
    requires
        call_ensures(
            <WeightedRoundRobinBalancer as LoadBalancer<L4Request, L4Response>>::add_node,
            (s, node),
            (),
        ),
    ensures
        final(s)@.len() == old(s)@.len() + 1,
        final(s)@.last().node == node,
        final(s)@.last().effective_weight == node.weight,
        final(s)@.last().current_weight == 0,
        0 <= i < old(s)@.len() ==> final(s)@[i] == old(s)@[i],
{
}

/// A new weight goes to the first node of the id and to no other, and keeps the
/// credit that the node has.
pub proof fn law_new_weight(s: &mut WeightedRoundRobinBalancer, id: &str, weight: i64, k: int, i: int)
    requires
        call_ensures(WeightedRoundRobinBalancer::set_weight, (s, id, weight), ()),
        0 <= k < old(s)@.len(),
        old(s)@[k].node.id@ == id@,
        forall|j: int| 0 <= j < k ==> (#[trigger] old(s)@[j]).node.id@ != id@,
        0 <= i < old(s)@.len(),
    ensures
        final(s)@.len() == old(s)@.len(),
        final(s)@[i].node == old(s)@[i].node,
        final(s)@[i].current_weight == old(s)@[i].current_weight,
        final(s)@[i].effective_weight == if i == k {
            weight
        } else {
            old(s)@[i].effective_weight
        },
{
    lemma_first_called(old(s)@, id@, k);
}

proof fn lemma_first_called(state: Seq<WeightedNode>, id: Seq<char>, k: int)
    requires
        0 <= k < state.len(),
        state[k].node.id@ == id,
        forall|j: int| 0 <= j < k ==> (#[trigger] state[j]).node.id@ != id,
    ensures
        first_called(state, id) == k,
    decreases k,
{
    if k > 0 {
        assert(state[0].node.id@ != id);
        let rest = state.skip(1);
        assert forall|j: int| 0 <= j < k - 1 implies (#[trigger] rest[j]).node.id@ != id by {
            assert(rest[j] == state[j + 1]);
        }
        lemma_first_called(rest, id, k - 1);
    }
}

/// Whether a node takes part in the rotation: it is online and has a weight.
pub open spec fn in_rotation(w: WeightedNode) -> bool {
    w.node.state == NodeState::Online && w.effective_weight > 0
}

/// What one selection does: every node in the rotation is raised by its weight;
/// the one that then stands highest is picked, the one registered first among
/// equals, and pays what all of them together were raised by. The others keep
/// what they have. Nothing is picked exactly when no node takes part.
pub proof fn law_highest_is_picked(
    start: WeightedRoundRobinBalancer,
    request: L4Request,
    end: WeightedRoundRobinBalancer,
    outcome: Result<L4Response, Error>,
)
    requires
        start.may_select(&request, &end, outcome),
    ensures
        outcome is Err <==> forall|j: int| 0 <= j < start@.len() ==> !in_rotation(#[trigger] start@[j]),
        outcome is Err ==> end@ == start@,
        outcome is Ok ==> end@.len() == start@.len() && exists|i: int|
            {
                &&& 0 <= i < start@.len()
                &&& in_rotation(#[trigger] start@[i])
                &&& start@[i].node == outcome->Ok_0.node
                &&& end@[i].current_weight == start@[i].current_weight + start@[i].effective_weight
                    - total_weight(start@)
                &&& forall|j: int|
                    0 <= j < start@.len() && in_rotation(#[trigger] start@[j]) ==> {
                        &&& start@[j].current_weight + start@[j].effective_weight
                            <= start@[i].current_weight + start@[i].effective_weight
                        &&& j < i ==> start@[j].current_weight + start@[j].effective_weight
                            < start@[i].current_weight + start@[i].effective_weight
                        &&& j != i ==> end@[j].current_weight == start@[j].current_weight
                            + start@[j].effective_weight
                    }
            },
        outcome is Ok ==> forall|j: int|
            0 <= j < start@.len() ==> {
                &&& (#[trigger] end@[j]).node == start@[j].node
                &&& end@[j].effective_weight == start@[j].effective_weight
                &&& !in_rotation(start@[j]) ==> end@[j].current_weight == start@[j].current_weight
            },
{
    let before = start@;
    assert forall|j: int| 0 <= j < before.len() implies in_rotation(#[trigger] before[j])
        == before[j].eligible() by {}
    if outcome is Ok {
        let got = outcome->Ok_0;
        let i = choose|i: int| #[trigger]
            wins(before, i) && got.node == before[i].node && step(before, i, end@);
        assert(in_rotation(before[i]));
        assert(end@[i].current_weight == settled(before, i, i));
        assert forall|j: int| 0 <= j < before.len() && in_rotation(#[trigger] before[j]) && j
            != i implies end@[j].current_weight == before[j].current_weight
            + before[j].effective_weight by {
            assert(end@[j].current_weight == settled(before, i, j));
        }
        assert forall|j: int| 0 <= j < before.len() implies {
            &&& (#[trigger] end@[j]).node == before[j].node
            &&& end@[j].effective_weight == before[j].effective_weight
            &&& !in_rotation(before[j]) ==> end@[j].current_weight == before[j].current_weight
        } by {
            assert(end@[j].current_weight == settled(before, i, j));
        }
        assert forall|j: int| 0 <= j < before.len() && in_rotation(#[trigger] before[j]) implies {
            &&& before[j].current_weight + before[j].effective_weight <= before[i].current_weight
                + before[i].effective_weight
            &&& j < i ==> before[j].current_weight + before[j].effective_weight
                < before[i].current_weight + before[i].effective_weight
        } by {
            assert(before[j].eligible());
        }
    }
}

/// What the nodes of a rotation are raised by together: one more node adds its
/// weight exactly when it takes part.
pub proof fn law_total_weight(state: Seq<WeightedNode>, w: WeightedNode)
    ensures
        total_weight(Seq::<WeightedNode>::empty()) == 0,
        in_rotation(w) ==> total_weight(state.push(w)) == total_weight(state) + w.effective_weight,
        !in_rotation(w) ==> total_weight(state.push(w)) == total_weight(state),
{
    assert(state.push(w).drop_last() =~= state);
}

} // verus!
