//! Backend nodes, the requests they serve, and the interface that every load
//! balancer offers.

use vstd::prelude::*;
use crate::text::same;

verus! {

/// Whether a node takes traffic.
#[derive(Clone, Copy, PartialEq, Eq, Structural, Debug)]
pub enum NodeState {
    Online,
    Offline,
}

/// A backend node: its identity, its limits and its current load.
#[derive(Debug)]
pub struct Node {
    pub id: String,
    pub address: String,
    pub weight: u32,
    pub max_connections: Option<u64>,
    pub active_connections: u64,
    pub state: NodeState,
}

impl Clone for Node {
    fn clone(&self) -> (r: Self)
        ensures
            r == *self,
    {
        Node {
            id: self.id.clone(),
            address: self.address.clone(),
            weight: self.weight,
            max_connections: self.max_connections,
            active_connections: self.active_connections,
            state: self.state,
        }
    }
}

impl Node {
    /// An online node with no active connections.
    pub fn new(id: String, address: String, weight: u32, max_connections: Option<u64>) -> (r: Self)
        ensures
            r.id == id,
            r.address == address,
            r.weight == weight,
            r.max_connections == max_connections,
            r.active_connections == 0,
            r.state == NodeState::Online,
    {
        Node { id, address, weight, max_connections, active_connections: 0, state: NodeState::Online }
    }

    /// Whether the node takes traffic.
    pub open spec fn online(self) -> bool {
        self.state == NodeState::Online
    }

    /// Whether the node takes traffic.
    pub fn is_online(&self) -> (r: bool)
        ensures
            r == self.online(),
    {
        match self.state {
            NodeState::Online => true,
            NodeState::Offline => false,
        }
    }

    /// The node with another load and state.
    pub open spec fn with_status(self, active_connections: u64, state: NodeState) -> Node {
        Node { active_connections, state, ..self }
    }
}

/// Why no node could be selected.
#[derive(Clone, Copy, PartialEq, Eq, Structural, Debug)]
pub enum Error {
    /// No node is registered, or none of them is online.
    NoHealthyBackend,
}

/// A connection to balance: the client's socket address, as text.
#[derive(Debug)]
pub struct L4Request {
    pub client_addr: String,
}

/// The node chosen for a connection.
#[derive(Debug)]
pub struct L4Response {
    pub node: Node,
}

/// An HTTP request to balance. `client_ip` is the client's address without
/// its port, as text.
#[derive(Debug)]
pub struct HttpRequest {
    pub client_ip: String,
    pub host: Option<String>,
    pub path: String,
    pub headers: Vec<(String, String)>,
}

/// The node chosen for an HTTP request, with response headers to add.
#[derive(Debug)]
pub struct HttpResponse {
    pub node: Node,
    pub headers_to_add: Vec<(String, String)>,
}

// ---------------------------------------------------------------------------
// Node lists
// ---------------------------------------------------------------------------

/// The online nodes, in registration order.
pub open spec fn online(nodes: Seq<Node>) -> Seq<Node> {
    nodes.filter(|n: Node| n.online())
}

/// The nodes whose id is not `id`, in registration order.
pub open spec fn without(nodes: Seq<Node>, id: Seq<char>) -> Seq<Node> {
    nodes.filter(|n: Node| n.id@ != id)
}

/// The first node whose id is `id`.
pub open spec fn find_node(nodes: Seq<Node>, id: Seq<char>) -> Option<Node>
    decreases nodes.len(),
{
    if nodes.len() == 0 {
        None
    } else if nodes[0].id@ == id {
        Some(nodes[0])
    } else {
        find_node(nodes.skip(1), id)
    }
}

/// The nodes after every node called `id` took a new load and state.
pub open spec fn updated(
    nodes: Seq<Node>,
    id: Seq<char>,
    active_connections: u64,
    state: NodeState,
) -> Seq<Node> {
    nodes.map_values(
        |n: Node|
            if n.id@ == id {
                n.with_status(active_connections, state)
            } else {
                n
            },
    )
}

/// What is left without an id are nodes of the list with another id.
pub proof fn lemma_without(nodes: Seq<Node>, id: Seq<char>, k: int)
    requires
        0 <= k < without(nodes, id).len(),
    ensures
        without(nodes, id)[k].id@ != id,
        nodes.contains(without(nodes, id)[k]),
    decreases nodes.len(),
{
    reveal(Seq::filter);
    if nodes.len() > 0 {
        let init = nodes.drop_last();
        let rest = without(init, id);
        if k < rest.len() {
            lemma_without(init, id, k);
            let j = choose|j: int| 0 <= j < init.len() && init[j] == rest[k];
            assert(nodes[j] == rest[k]);
        } else {
            assert(nodes[nodes.len() - 1] == without(nodes, id)[k]);
        }
    }
}

/// `find_node` finds a node of the list with that id, and misses none.
pub proof fn lemma_find_node(nodes: Seq<Node>, id: Seq<char>)
    ensures
        match find_node(nodes, id) {
            Some(n) => n.id@ == id && nodes.contains(n),
            None => forall|i: int| 0 <= i < nodes.len() ==> (#[trigger] nodes[i]).id@ != id,
        },
    decreases nodes.len(),
{
    if nodes.len() > 0 && nodes[0].id@ != id {
        lemma_find_node(nodes.skip(1), id);
        match find_node(nodes.skip(1), id) {
            Some(n) => {
                let j = choose|j: int| 0 <= j < nodes.skip(1).len() && nodes.skip(1)[j] == n;
                assert(nodes[j + 1] == n);
            },
            None => {
                assert forall|i: int| 0 <= i < nodes.len() implies (#[trigger] nodes[i]).id@ != id by {
                    if i > 0 {
                        assert(nodes.skip(1)[i - 1] == nodes[i]);
                    }
                }
            },
        }
    } else if nodes.len() > 0 {
        assert(nodes.contains(nodes[0]));
    }
}

/// Appending a node shows it to a search that found nothing before.
pub proof fn lemma_find_node_push(nodes: Seq<Node>, node: Node, id: Seq<char>)
    ensures
        find_node(nodes.push(node), id) == match find_node(nodes, id) {
            Some(n) => Some(n),
            None => if node.id@ == id {
                Some(node)
            } else {
                None
            },
        },
    decreases nodes.len(),
{
    if nodes.len() == 0 {
        reveal_with_fuel(find_node, 2);
        assert(nodes.push(node).skip(1) =~= Seq::<Node>::empty());
    } else {
        assert(nodes.push(node).skip(1) =~= nodes.skip(1).push(node));
        lemma_find_node_push(nodes.skip(1), node, id);
    }
}

/// A search for one id does not depend on nodes with another id.
pub proof fn lemma_find_node_without(nodes: Seq<Node>, gone: Seq<char>, id: Seq<char>)
    ensures
        find_node(without(nodes, gone), id) == if id == gone {
            None
        } else {
            find_node(nodes, id)
        },
    decreases nodes.len(),
{
    reveal(Seq::filter);
    let keep = |n: Node| n.id@ != gone;
    if nodes.len() == 0 {
    } else {
        let init = nodes.drop_last();
        let last = nodes.last();
        lemma_find_node_without(init, gone, id);
        assert(nodes =~= init.push(last));
        lemma_find_node_push(init, last, id);
        if keep(last) {
            assert(without(nodes, gone) == without(init, gone).push(last));
            lemma_find_node_push(without(init, gone), last, id);
        } else {
            assert(without(nodes, gone) == without(init, gone));
        }
    }
}

/// Clones of the online nodes.
pub fn online_of(nodes: &Vec<Node>) -> (out: Vec<Node>)
    ensures
        out@ == online(nodes@),
{
    reveal(Seq::filter);
    let mut out: Vec<Node> = Vec::new();
    let mut i: usize = 0;
    while i < nodes.len()
        invariant
            i <= nodes@.len(),
            out@ == online(nodes@.take(i as int)),
        decreases nodes@.len() - i,
    {
        reveal(Seq::filter);
        assert(nodes@.take(i + 1).drop_last() =~= nodes@.take(i as int));
        if nodes[i].is_online() {
            out.push(nodes[i].clone());
        }
        i += 1;
    }
    assert(nodes@.take(nodes@.len() as int) =~= nodes@);
    out
}

/// Clones of all nodes.
pub fn all_of(nodes: &Vec<Node>) -> (out: Vec<Node>)
    ensures
        out@ == nodes@,
{
    let mut out: Vec<Node> = Vec::new();
    let mut i: usize = 0;
    while i < nodes.len()
        invariant
            i <= nodes@.len(),
            out@ == nodes@.take(i as int),
        decreases nodes@.len() - i,
    {
        out.push(nodes[i].clone());
        i += 1;
    }
    out
}

/// The position of the first node called `id`, or the length of the list.
pub fn position_of(nodes: &Vec<Node>, id: &str) -> (i: usize)
    ensures
        i <= nodes@.len(),
        forall|j: int| 0 <= j < i ==> (#[trigger] nodes@[j]).id@ != id@,
        match find_node(nodes@, id@) {
            Some(n) => i < nodes@.len() && nodes@[i as int] == n && n.id@ == id@,
            None => i == nodes@.len(),
        },
{
    let mut i: usize = 0;
    assert(nodes@.skip(0) =~= nodes@);
    while i < nodes.len() && !same(&nodes[i].id, id)
        invariant
            i <= nodes@.len(),
            forall|j: int| 0 <= j < i ==> (#[trigger] nodes@[j]).id@ != id@,
            find_node(nodes@, id@) == find_node(nodes@.skip(i as int), id@),
        decreases nodes@.len() - i,
    {
        assert(nodes@.skip(i as int).skip(1) =~= nodes@.skip(i + 1));
        i += 1;
    }
    i
}

/// A clone of the first node called `id`.
pub fn find_of(nodes: &Vec<Node>, id: &str) -> (r: Option<Node>)
    ensures
        r == find_node(nodes@, id@),
{
    let i = position_of(nodes, id);
    if i < nodes.len() {
        Some(nodes[i].clone())
    } else {
        None
    }
}

/// Drops every node called `id`.
pub fn drop_node(nodes: &mut Vec<Node>, id: &str)
    ensures
        final(nodes)@ == without(old(nodes)@, id@),
{
    let mut out: Vec<Node> = Vec::new();
    let mut i: usize = 0;
    proof {
        reveal(Seq::filter);
    }
    while i < nodes.len()
        invariant
            i <= nodes@.len(),
            nodes@ == old(nodes)@,
            out@ == without(nodes@.take(i as int), id@),
        decreases nodes@.len() - i,
    {
        reveal(Seq::filter);
        assert(nodes@.take(i + 1).drop_last() =~= nodes@.take(i as int));
        if !same(&nodes[i].id, id) {
            out.push(nodes[i].clone());
        }
        i += 1;
    }
    assert(nodes@.take(nodes@.len() as int) =~= nodes@);
    *nodes = out;
}

/// Gives every node called `id` a new load and state.
pub fn update_nodes(nodes: &mut Vec<Node>, id: &str, active_connections: u64, state: NodeState)
    ensures
        final(nodes)@ == updated(old(nodes)@, id@, active_connections, state),
{
    let mut out: Vec<Node> = Vec::new();
    let mut i: usize = 0;
    while i < nodes.len()
        invariant
            i <= nodes@.len(),
            nodes@ == old(nodes)@,
            out@ == updated(nodes@.take(i as int), id@, active_connections, state),
        decreases nodes@.len() - i,
    {
        let mut node = nodes[i].clone();
        if same(&node.id, id) {
            node.active_connections = active_connections;
            node.state = state;
        }
        out.push(node);
        assert(out@ =~= updated(nodes@.take(i + 1), id@, active_connections, state));
        i += 1;
    }
    assert(nodes@.take(nodes@.len() as int) =~= nodes@);
    *nodes = out;
}

// ---------------------------------------------------------------------------
// The balancer interface
// ---------------------------------------------------------------------------

/// A load balancer: a list of nodes and a rule that picks one per request.
pub trait LoadBalancer<Req, Resp>: Sized {
    /// The internal invariant.
    spec fn wf(&self) -> bool;

    /// The registered nodes, in registration order.
    spec fn node_list(&self) -> Seq<Node>;

    /// Whether the arithmetic of the next selection stays within its integers.
    spec fn fits(&self) -> bool;

    /// What a selection for `request` may return, and in which state it may
    /// leave the balancer.
    spec fn may_select(&self, request: &Req, after: &Self, outcome: Result<Resp, Error>) -> bool;

    /// Picks a node for a request.
    fn select(&mut self, request: &Req) -> (r: Result<Resp, Error>)
        requires
            old(self).wf(),
            old(self).fits(),
        ensures
            final(self).wf(),
            final(self).node_list() == old(self).node_list(),
            old(self).may_select(request, final(self), r),
    ;

    /// Registers a node.
    fn add_node(&mut self, node: Node)
        requires
            old(self).wf(),
        ensures
            final(self).wf(),
            final(self).node_list() == old(self).node_list().push(node),
    ;

    /// Removes every node called `node_id`.
    fn remove_node(&mut self, node_id: &str)
        requires
            old(self).wf(),
        ensures
            final(self).wf(),
            final(self).node_list() == without(old(self).node_list(), node_id@),
    ;

    /// Records the load and the state of every node called `node_id`.
    fn update_node(&mut self, node_id: &str, active_connections: u64, state: NodeState)
        requires
            old(self).wf(),
        ensures
            final(self).wf(),
            final(self).node_list() == updated(
                old(self).node_list(),
                node_id@,
                active_connections,
                state,
            ),
    ;

    /// The online nodes, in registration order.
    fn online_nodes(&self) -> (r: Vec<Node>)
        requires
            self.wf(),
        ensures
            r@ == online(self.node_list()),
    ;

    /// All nodes, in registration order.
    fn all_nodes(&self) -> (r: Vec<Node>)
        requires
            self.wf(),
        ensures
            r@ == self.node_list(),
    ;

    /// The first node called `node_id`.
    fn get_node(&self, node_id: &str) -> (r: Option<Node>)
        requires
            self.wf(),
        ensures
            r == find_node(self.node_list(), node_id@),
    ;
}

/// Which nodes take traffic: those whose state is online, in the order in which
/// they were registered, and no others. This says of every list how one more
/// node changes what is online.
pub proof fn law_online_list(nodes: Seq<Node>, n: Node)
    ensures
        online(Seq::<Node>::empty()) == Seq::<Node>::empty(),
        n.state == NodeState::Online ==> online(nodes.push(n)) == online(nodes).push(n),
        n.state == NodeState::Offline ==> online(nodes.push(n)) == online(nodes),
        forall|k: int| 0 <= k < online(nodes).len() ==> (#[trigger] online(nodes)[k]).state == NodeState::Online,
        online(nodes).len() <= nodes.len(),
        online(nodes).len() == 0 <==> forall|i: int|
            0 <= i < nodes.len() ==> (#[trigger] nodes[i]).state == NodeState::Offline,
        forall|i: int|
            0 <= i < nodes.len() && (#[trigger] nodes[i]).state == NodeState::Online ==> online(
                nodes,
            ).contains(nodes[i]),
        forall|k: int|
            0 <= k < online(nodes).len() ==> nodes.contains(#[trigger] online(nodes)[k]),
{
    reveal(Seq::filter);
    assert(nodes.push(n).drop_last() =~= nodes);
    lemma_online(nodes);
}

proof fn lemma_online(nodes: Seq<Node>)
    ensures
        forall|k: int| 0 <= k < online(nodes).len() ==> (#[trigger] online(nodes)[k]).state == NodeState::Online,
        online(nodes).len() <= nodes.len(),
        online(nodes).len() == 0 <==> forall|i: int|
            0 <= i < nodes.len() ==> (#[trigger] nodes[i]).state == NodeState::Offline,
        forall|i: int|
            0 <= i < nodes.len() && (#[trigger] nodes[i]).state == NodeState::Online ==> online(
                nodes,
            ).contains(nodes[i]),
        forall|k: int|
            0 <= k < online(nodes).len() ==> nodes.contains(#[trigger] online(nodes)[k]),
    decreases nodes.len(),
{
    reveal(Seq::filter);
    if nodes.len() > 0 {
        let init = nodes.drop_last();
        let last = nodes.last();
        lemma_online(init);
        assert(last.state == NodeState::Online || last.state == NodeState::Offline);
        let all = online(nodes);
        let before = online(init);
        assert forall|i: int|
            0 <= i < nodes.len() && (#[trigger] nodes[i]).state == NodeState::Online implies all.contains(
            nodes[i],
        ) by {
            if i < init.len() {
                assert(init[i] == nodes[i]);
                let k = choose|k: int| 0 <= k < before.len() && before[k] == init[i];
                assert(all[k] == nodes[i]);
            } else {
                assert(all[before.len() as int] == nodes[i]);
            }
        }
        assert forall|k: int| 0 <= k < all.len() implies nodes.contains(#[trigger] all[k]) by {
            if k < before.len() {
                assert(before[k] == all[k]);
                let i = choose|i: int| 0 <= i < init.len() && init[i] == before[k];
                assert(nodes[i] == all[k]);
            } else {
                assert(nodes[nodes.len() - 1] == all[k]);
            }
        }
        if all.len() == 0 {
            assert forall|i: int| 0 <= i < nodes.len() implies (#[trigger] nodes[i]).state
                == NodeState::Offline by {
                if i < init.len() {
                    assert(init[i] == nodes[i]);
                }
            }
        }
        if forall|i: int| 0 <= i < nodes.len() ==> (#[trigger] nodes[i]).state == NodeState::Offline {
            assert(nodes[nodes.len() - 1].state == NodeState::Offline);
            assert forall|i: int| 0 <= i < init.len() implies (#[trigger] init[i]).state
                == NodeState::Offline by {
                assert(nodes[i].state == NodeState::Offline);
            }
        }
    }
}

/// An online node stands among the online ones behind those before it.
pub proof fn lemma_online_at(nodes: Seq<Node>, k: int)
    requires
        0 <= k < nodes.len(),
        nodes[k].online(),
    ensures
        online(nodes.take(k)).len() < online(nodes).len(),
        online(nodes)[online(nodes.take(k)).len() as int] == nodes[k],
    decreases nodes.len(),
{
    reveal(Seq::filter);
    let init = nodes.drop_last();
    if k < init.len() {
        lemma_online_at(init, k);
        assert(init.take(k) =~= nodes.take(k));
    } else {
        assert(nodes.take(k) =~= init);
    }
}

/// What registering, removing and updating do to a list: a removal takes every
/// node of the id and none else, an update changes the load and the state of
/// every node of the id and nothing else, and a node is found by its id, the
/// first one where several have it.
pub proof fn law_node_lists(
    nodes: Seq<Node>,
    id: Seq<char>,
    active_connections: u64,
    state: NodeState,
    k: int,
)
    requires
        0 <= k < nodes.len(),
    ensures
        nodes[k].id@ != id ==> without(nodes, id).contains(nodes[k]),
        forall|j: int| 0 <= j < without(nodes, id).len() ==> (#[trigger] without(nodes, id)[j]).id@ != id,
        updated(nodes, id, active_connections, state).len() == nodes.len(),
        ({
            let n = updated(nodes, id, active_connections, state)[k];
            &&& n.id == nodes[k].id
            &&& n.address == nodes[k].address
            &&& n.weight == nodes[k].weight
            &&& n.max_connections == nodes[k].max_connections
            &&& nodes[k].id@ == id ==> n.active_connections == active_connections && n.state == state
            &&& nodes[k].id@ != id ==> n.active_connections == nodes[k].active_connections && n.state
                == nodes[k].state
        }),
        nodes[k].id@ == id && (forall|j: int| 0 <= j < k ==> (#[trigger] nodes[j]).id@ != id)
            ==> find_node(nodes, id) == Some(nodes[k]),
        (forall|j: int| 0 <= j < nodes.len() ==> (#[trigger] nodes[j]).id@ != id) ==> find_node(
            nodes,
            id,
        ) is None,
{
    lemma_without_keeps(nodes, id, k);
    if nodes[k].id@ == id && forall|j: int| 0 <= j < k ==> (#[trigger] nodes[j]).id@ != id {
        lemma_found_at(nodes, id, k);
    }
    if forall|j: int| 0 <= j < nodes.len() ==> (#[trigger] nodes[j]).id@ != id {
        lemma_not_found(nodes, id);
    }
}

proof fn lemma_without_keeps(nodes: Seq<Node>, id: Seq<char>, k: int)
    requires
        0 <= k < nodes.len(),
    ensures
        nodes[k].id@ != id ==> without(nodes, id).contains(nodes[k]),
        forall|j: int| 0 <= j < without(nodes, id).len() ==> (#[trigger] without(nodes, id)[j]).id@ != id,
    decreases nodes.len(),
{
    reveal(Seq::filter);
    let init = nodes.drop_last();
    let all = without(nodes, id);
    let before = without(init, id);
    if init.len() > 0 {
        lemma_without_keeps(
            init,
            id,
            if k < init.len() {
                k
            } else {
                0
            },
        );
    }
    if nodes[k].id@ != id {
        if k < init.len() {
            assert(init[k] == nodes[k]);
            let j = choose|j: int| 0 <= j < before.len() && before[j] == init[k];
            assert(all[j] == nodes[k]);
        } else {
            assert(all[before.len() as int] == nodes[k]);
        }
    }
}

proof fn lemma_found_at(nodes: Seq<Node>, id: Seq<char>, k: int)
    requires
        0 <= k < nodes.len(),
        nodes[k].id@ == id,
        forall|j: int| 0 <= j < k ==> (#[trigger] nodes[j]).id@ != id,
    ensures
        find_node(nodes, id) == Some(nodes[k]),
    decreases k,
{
    if k > 0 {
        assert(nodes[0].id@ != id);
        let rest = nodes.skip(1);
        assert forall|j: int| 0 <= j < k - 1 implies (#[trigger] rest[j]).id@ != id by {
            assert(rest[j] == nodes[j + 1]);
        }
        lemma_found_at(rest, id, k - 1);
    }
}

proof fn lemma_not_found(nodes: Seq<Node>, id: Seq<char>)
    requires
        forall|j: int| 0 <= j < nodes.len() ==> (#[trigger] nodes[j]).id@ != id,
    ensures
        find_node(nodes, id) is None,
    decreases nodes.len(),
{
    if nodes.len() > 0 {
        assert(nodes[0].id@ != id);
        let rest = nodes.skip(1);
        assert forall|j: int| 0 <= j < rest.len() implies (#[trigger] rest[j]).id@ != id by {
            assert(rest[j] == nodes[j + 1]);
        }
        lemma_not_found(rest, id);
    }
}

/// A fresh node is online and idle, and only the state of a node decides whether
/// it takes traffic.
pub proof fn law_node_state(
    id: String,
    address: String,
    weight: u32,
    max_connections: Option<u64>,
    n: Node,
    r: bool,
)
    requires
        call_ensures(Node::new, (id, address, weight, max_connections), n),
        call_ensures(Node::is_online, (&n,), r),
    ensures
        r,
        n.state == NodeState::Online,
        n.active_connections == 0,
        n.id@ == id@,
        n.address@ == address@,
        n.weight == weight,
        n.max_connections == max_connections,
        forall|m: Node, b: bool| #[trigger]
            call_ensures(Node::is_online, (&m,), b) ==> b == (m.state == NodeState::Online),
{
}

/// Removing a name from a list takes out every node that has it and keeps the
/// others in their order: this says of every list how one more node changes what
/// is left.
pub proof fn law_removed_by_name(nodes: Seq<Node>, id: Seq<char>, n: Node)
    ensures
        without(Seq::<Node>::empty(), id) == Seq::<Node>::empty(),
        n.id@ != id ==> without(nodes.push(n), id) == without(nodes, id).push(n),
        n.id@ == id ==> without(nodes.push(n), id) == without(nodes, id),
{
    reveal(Seq::filter);
    assert(nodes.push(n).drop_last() =~= nodes);
}

} // verus!
