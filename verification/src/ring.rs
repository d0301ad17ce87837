//! A consistent-hash ring: every node owns a fixed number of points, and a key
//! goes to the node of the first live point clockwise from the key's hash.

use std::collections::BTreeMap;
use vstd::prelude::*;
use vstd::utf8::encode_utf8;
use crate::node::{Node, NodeState, find_node, online, updated, without};
use crate::text::{decimal, push_decimal};

verus! {

/// Points that each node owns on the ring.
pub const VIRTUAL_NODES: u64 = 150;

// ---------------------------------------------------------------------------
// Hashing
// ---------------------------------------------------------------------------

/// The Murmur3 x64 128-bit hash of a byte string under a seed.
pub uninterp spec fn murmur3_x64_128_digest(data: Seq<u8>, seed: u32) -> u128;

/// `murmur3::murmur3_x64_128` over an in-memory cursor: reading memory cannot
/// fail, so there always is a hash, and it depends on the bytes and the seed
/// alone. What the hash is for given bytes is left unsaid.
#[verifier::external_body]
fn murmur3_x64_128(data: &[u8], seed: u32) -> (r: Option<u128>)
    ensures
        r == Some(murmur3_x64_128_digest(data@, seed)),
{
    murmur3::murmur3_x64_128(&mut std::io::Cursor::new(data), seed).ok()
}

/// The hash of a text: of its UTF-8 bytes, with seed zero.
pub open spec fn text_hash(text: Seq<char>) -> u128 {
    murmur3_x64_128_digest(encode_utf8(text), 0)
}

/// Hashes a byte string; zero stands in for a hash that could not be had.
pub fn murmur3_hash(data: &[u8]) -> (h: u128)
    ensures
        h == murmur3_x64_128_digest(data@, 0),
{
    match murmur3_x64_128(data, 0) {
        Some(h) => h,
        None => 0,
    }
}

/// The text whose hash is the `i`-th point of a node.
pub open spec fn vnode_key(id: Seq<char>, i: nat) -> Seq<char> {
    id + "-vnode-"@ + decimal(i)
}

/// The `i`-th point of a node.
pub open spec fn vnode_point(id: Seq<char>, i: nat) -> u128 {
    text_hash(vnode_key(id, i))
}

fn vnode_hash(id: &str, i: u64) -> (h: u128)
    ensures
        h == vnode_point(id@, i as nat),
{
    let mut key: String = id.to_owned();
    key.append("-vnode-");
    push_decimal(&mut key, i);
    murmur3_hash(key.as_str().as_bytes())
}

/// The points that a node claims on the ring, up to the `n`-th.
pub open spec fn claims(id: Seq<char>, n: nat) -> Set<u128> {
    Set::new(|h: u128| exists|i: nat| i < n && #[trigger] vnode_point(id, i) == h)
}

/// All points that a node claims.
pub open spec fn claimed(id: Seq<char>) -> Set<u128> {
    claims(id, VIRTUAL_NODES as nat)
}

// ---------------------------------------------------------------------------
// Walking the ring
// ---------------------------------------------------------------------------

/// The distance from `from` to `to`, walking clockwise.
pub open spec fn clockwise(from: u128, to: u128) -> int {
    if to >= from {
        to - from
    } else {
        to - from + u128::MAX + 1
    }
}

/// Whether `p` is a point whose node is registered and online.
pub open spec fn live(points: Map<u128, Seq<char>>, nodes: Seq<Node>, p: u128) -> bool {
    &&& points.contains_key(p)
    &&& match find_node(nodes, points[p]) {
        Some(n) => n.online(),
        None => false,
    }
}

/// Whether `p` is the first live point clockwise from `hash`.
pub open spec fn nearest(
    points: Map<u128, Seq<char>>,
    nodes: Seq<Node>,
    hash: u128,
    p: u128,
) -> bool {
    &&& live(points, nodes, p)
    &&& forall|q: u128| #[trigger]
        live(points, nodes, q) ==> clockwise(hash, p) <= clockwise(hash, q)
}

/// Whether `found` is what a lookup of `hash` gives.
pub open spec fn looks_up(
    points: Map<u128, Seq<char>>,
    nodes: Seq<Node>,
    hash: u128,
    found: Option<Node>,
) -> bool {
    match found {
        Some(node) => exists|p: u128| #[trigger]
            nearest(points, nodes, hash, p) && find_node(nodes, points[p]) == Some(node),
        None => forall|p: u128| !#[trigger] live(points, nodes, p),
    }
}

/// Whether every point belongs to a registered node that claims it.
pub open spec fn well_owned(points: Map<u128, Seq<char>>, nodes: Seq<Node>) -> bool {
    forall|p: u128| #[trigger]
        points.contains_key(p) ==> claimed(points[p]).contains(p) && find_node(nodes, points[p]) is Some
}

/// A hash ring with the nodes that it was built from.
#[derive(Debug)]
pub struct HashRing {
    points: BTreeMap<u128, String>,
    nodes: Vec<Node>,
}

/// What vstd needs to know about `u128` keys to specify an ordered map.
proof fn lemma_u128_keys()
    ensures
        vstd::laws_cmp::obeys_cmp::<u128>(),
        vstd::std_specs::btree::key_obeys_cmp_spec::<u128>(),
{
    broadcast use vstd::laws_cmp::group_laws_cmp;
    broadcast use vstd::std_specs::btree::axiom_key_obeys_cmp_spec_meaning;

    assert(vstd::laws_cmp::obeys_cmp::<u128>());
}

proof fn lemma_increasing(s: Seq<u128>)
    requires
        vstd::std_specs::btree::increasing_seq(s),
    ensures
        forall|i: int, j: int| 0 <= i < j < s.len() ==> s[i] < s[j],
{
    broadcast use vstd::std_specs::btree::axiom_increasing_seq_meaning;

    lemma_u128_keys();
    assert forall|i: int, j: int| 0 <= i < j < s.len() implies s[i] < s[j] by {
        assert(vstd::std_specs::cmp::OrdSpec::cmp_spec(&s[i], &s[j]) is Less);
    }
}

impl HashRing {
    /// The points, each with the id of its node.
    pub closed spec fn points(&self) -> Map<u128, Seq<char>> {
        self.points@.map_values(|id: String| id@)
    }

    /// The registered nodes, in registration order.
    pub closed spec fn nodes(&self) -> Seq<Node> {
        self.nodes@
    }

    /// Every point belongs to a registered node that claims it.
    pub open spec fn wf(&self) -> bool {
        well_owned(self.points(), self.nodes())
    }

    /// A ring without points or nodes.
    pub fn new() -> (r: Self)
        ensures
            r.points() == Map::<u128, Seq<char>>::empty(),
            r.nodes() == Seq::<Node>::empty(),
            r.wf(),
    {
        let r = HashRing { points: BTreeMap::new(), nodes: Vec::new() };
        assert(r.points() =~= Map::<u128, Seq<char>>::empty());
        r
    }

    /// Gives the point `hash` to the node called `id`.
    pub fn insert_point(&mut self, hash: u128, id: &str)
        ensures
            final(self).points() == old(self).points().insert(hash, id@),
            final(self).nodes() == old(self).nodes(),
    {
        proof {
            lemma_u128_keys();
        }
        self.points.insert(hash, id.to_owned());
        assert(self.points() =~= old(self).points().insert(hash, id@));
    }

    /// Takes the point `hash` off the ring.
    pub fn remove_point(&mut self, hash: u128)
        ensures
            final(self).points() == old(self).points().remove(hash),
            final(self).nodes() == old(self).nodes(),
    {
        broadcast use vstd::std_specs::btree::group_btree_axioms;

        proof {
            lemma_u128_keys();
        }
        self.points.remove(&hash);
        assert(self.points() =~= old(self).points().remove(hash));
    }

    /// Registers a node and gives it all the points that it claims.
    pub fn add_node(&mut self, node: Node)
        ensures
            final(self).points() == old(self).points().union_prefer_right(
                claimed(node.id@).mk_map(|h: u128| node.id@),
            ),
            final(self).nodes() == old(self).nodes().push(node),
            old(self).wf() ==> final(self).wf(),
    {
        let ghost id = node.id@;
        let ghost before = self.points();
        assert(before =~= before.union_prefer_right(claims(id, 0).mk_map(|h: u128| id)));
        let mut i: u64 = 0;
        while i < VIRTUAL_NODES
            invariant
                i <= VIRTUAL_NODES,
                id == node.id@,
                self.points() == before.union_prefer_right(claims(id, i as nat).mk_map(|h: u128| id)),
                self.nodes() == old(self).nodes(),
            decreases VIRTUAL_NODES - i,
        {
            let h = vnode_hash(&node.id, i);
            self.insert_point(h, &node.id);
            proof {
                lemma_claims_step(id, i as nat);
                assert(self.points() =~= before.union_prefer_right(
                    claims(id, (i + 1) as nat).mk_map(|h: u128| id),
                ));
            }
            i += 1;
        }
        proof {
            if old(self).wf() {
                lemma_add_well_owned(before, old(self).nodes(), node);
            }
        }
        self.nodes.push(node);
    }

    /// Removes every node called `id` and all the points that it claims.
    pub fn remove_node(&mut self, id: &str)
        ensures
            final(self).points() == old(self).points().remove_keys(claimed(id@)),
            final(self).nodes() == without(old(self).nodes(), id@),
            old(self).wf() ==> final(self).wf(),
    {
        let ghost before = self.points();
        assert(before =~= before.remove_keys(claims(id@, 0)));
        let mut i: u64 = 0;
        while i < VIRTUAL_NODES
            invariant
                i <= VIRTUAL_NODES,
                self.points() == before.remove_keys(claims(id@, i as nat)),
                self.nodes() == old(self).nodes(),
            decreases VIRTUAL_NODES - i,
        {
            let h = vnode_hash(id, i);
            self.remove_point(h);
            proof {
                lemma_claims_step(id@, i as nat);
                assert(self.points() =~= before.remove_keys(claims(id@, (i + 1) as nat)));
            }
            i += 1;
        }
        proof {
            if old(self).wf() {
                lemma_remove_well_owned(before, old(self).nodes(), id@);
            }
        }
        crate::node::drop_node(&mut self.nodes, id);
    }

    /// Records the load and the state of every node called `id`.
    pub fn update_node(&mut self, id: &str, active_connections: u64, state: NodeState)
        ensures
            final(self).points() == old(self).points(),
            final(self).nodes() == updated(old(self).nodes(), id@, active_connections, state),
            old(self).wf() ==> final(self).wf(),
    {
        proof {
            if old(self).wf() {
                lemma_update_well_owned(self.points(), self.nodes(), id@, active_connections, state);
            }
        }
        crate::node::update_nodes(&mut self.nodes, id, active_connections, state);
    }

    fn live_node(&self, id: &String) -> (r: Option<Node>)
        ensures
            r == match find_node(self.nodes(), id@) {
                Some(n) => if n.online() {
                    Some(n)
                } else {
                    None
                },
                None => None,
            },
    {
        let k = crate::node::position_of(&self.nodes, id);
        if k < self.nodes.len() && self.nodes[k].is_online() {
            Some(self.nodes[k].clone())
        } else {
            None
        }
    }

    /// The first live node clockwise from `hash`, among the points at or after
    /// `hash` when `upper`, else among those before it.
    fn walk(&self, hash: u128, upper: bool) -> (r: Option<Node>)
        ensures
            match r {
                Some(node) => exists|p: u128|
                    {
                        &&& #[trigger] live(self.points(), self.nodes(), p)
                        &&& (p >= hash) == upper
                        &&& find_node(self.nodes(), self.points()[p]) == Some(node)
                        &&& forall|q: u128| #[trigger]
                            live(self.points(), self.nodes(), q) && (q >= hash) == upper ==> p <= q
                    },
                None => forall|q: u128| #[trigger]
                    live(self.points(), self.nodes(), q) ==> (q >= hash) != upper,
            },
    {
        broadcast use vstd::std_specs::btree::group_btree_axioms;

        proof {
            lemma_u128_keys();
        }
        for kv in it: self.points.iter()
            invariant
                it.seq() == vstd::std_specs::iter::IteratorSpec::remaining(
                    &vstd::std_specs::btree::spec_btree_map_iter(&self.points),
                ),
                vstd::std_specs::btree::increasing_seq(
                    it.seq().map_values(|kv: (&u128, &String)| *kv.0),
                ),
                forall|j: int|
                    0 <= j < it.index() ==> !live(
                        self.points(),
                        self.nodes(),
                        *(#[trigger] it.seq()[j]).0,
                    ) || (*it.seq()[j].0 >= hash) != upper,
        {
            let ghost all = it.seq();
            let ghost keys = all.map_values(|kv: (&u128, &String)| *kv.0);
            let ghost at = it.index();
            proof {
                lemma_increasing(keys);
                assert(kv == all[at as int]);
                assert(self.points@.contains_key(*all[at as int].0));
                assert(self.points@[*all[at as int].0] == *all[at as int].1);
            }
            if (*kv.0 >= hash) == upper {
                match self.live_node(kv.1) {
                    Some(node) => {
                        proof {
                            let p = *kv.0;
                            assert(live(self.points(), self.nodes(), p));
                            assert forall|q: u128| #[trigger]
                                live(self.points(), self.nodes(), q) && (q >= hash)
                                    == upper implies p <= q by {
                                assert(self.points@.contains_key(q));
                                assert(all.contains((&q, &self.points@[q])));
                                let j = choose|j: int|
                                    0 <= j < all.len() && all[j] == (&q, &self.points@[q]);
                                assert(keys[j] == q);
                                assert(keys[at as int] == p);
                                if j < at {
                                    assert(!live(self.points(), self.nodes(), *all[j].0) || (
                                    *all[j].0 >= hash) != upper);
                                }
                            }
                        }
                        return Some(node);
                    },
                    None => {},
                }
            }
        }
        proof {
            let all = vstd::std_specs::iter::IteratorSpec::remaining(
                    &vstd::std_specs::btree::spec_btree_map_iter(&self.points),
                );
            assert forall|q: u128| #[trigger]
                live(self.points(), self.nodes(), q) implies (q >= hash) != upper by {
                assert(self.points@.contains_key(q));
                assert(all.contains((&q, &self.points@[q])));
                let j = choose|j: int| 0 <= j < all.len() && all[j] == (&q, &self.points@[q]);
                assert(*all[j].0 == q);
            }
        }
        None
    }

    /// The node of the first live point clockwise from `hash`.
    pub fn lookup(&self, hash: u128) -> (r: Option<Node>)
        ensures
            looks_up(self.points(), self.nodes(), hash, r),
    {
        let ghost points = self.points();
        let ghost nodes = self.nodes();
        match self.walk(hash, true) {
            Some(node) => {
                proof {
                    let p = choose|p: u128|
                        {
                            &&& #[trigger] live(points, nodes, p)
                            &&& p >= hash
                            &&& find_node(nodes, points[p]) == Some(node)
                            &&& forall|q: u128| #[trigger]
                                live(points, nodes, q) && q >= hash ==> p <= q
                        };
                    assert(nearest(points, nodes, hash, p));
                }
                Some(node)
            },
            None => match self.walk(hash, false) {
                Some(node) => {
                    proof {
                        let p = choose|p: u128|
                            {
                                &&& #[trigger] live(points, nodes, p)
                                &&& p < hash
                                &&& find_node(nodes, points[p]) == Some(node)
                                &&& forall|q: u128| #[trigger]
                                    live(points, nodes, q) && q < hash ==> p <= q
                            };
                        assert(nearest(points, nodes, hash, p));
                    }
                    Some(node)
                },
                None => None,
            },
        }
    }

    /// The node that owns a text key.
    pub fn node_for(&self, key: &str) -> (r: Option<Node>)
        ensures
            looks_up(self.points(), self.nodes(), text_hash(key@), r),
    {
        self.lookup(murmur3_hash(key.as_bytes()))
    }

    /// How many nodes are registered.
    pub fn len(&self) -> (n: usize)
        ensures
            n == self.nodes().len(),
    {
        self.nodes.len()
    }

    /// The online nodes, in registration order.
    pub fn online_nodes(&self) -> (r: Vec<Node>)
        ensures
            r@ == online(self.nodes()),
    {
        crate::node::online_of(&self.nodes)
    }

    /// All nodes, in registration order.
    pub fn all_nodes(&self) -> (r: Vec<Node>)
        ensures
            r@ == self.nodes(),
    {
        crate::node::all_of(&self.nodes)
    }

    /// The first node called `id`.
    pub fn get_node(&self, id: &str) -> (r: Option<Node>)
        ensures
            r == find_node(self.nodes(), id@),
    {
        crate::node::find_of(&self.nodes, id)
    }
}

proof fn lemma_claims_step(id: Seq<char>, n: nat)
    ensures
        claims(id, n + 1) == claims(id, n).insert(vnode_point(id, n)),
{
    assert forall|h: u128| claims(id, n + 1).contains(h) == claims(id, n).insert(
        vnode_point(id, n),
    ).contains(h) by {
        if claims(id, n).contains(h) {
            let i = choose|i: nat| i < n && #[trigger] vnode_point(id, i) == h;
            assert(i < n + 1 && vnode_point(id, i) == h);
        }
        if claims(id, n + 1).contains(h) && h != vnode_point(id, n) {
            let i = choose|i: nat| i < n + 1 && #[trigger] vnode_point(id, i) == h;
            assert(i < n && vnode_point(id, i) == h);
        }
    }
    assert(claims(id, n + 1) =~= claims(id, n).insert(vnode_point(id, n)));
}

proof fn lemma_add_well_owned(points: Map<u128, Seq<char>>, nodes: Seq<Node>, node: Node)
    requires
        well_owned(points, nodes),
    ensures
        well_owned(
            points.union_prefer_right(claimed(node.id@).mk_map(|h: u128| node.id@)),
            nodes.push(node),
        ),
{
    let points2 = points.union_prefer_right(claimed(node.id@).mk_map(|h: u128| node.id@));
    assert forall|p: u128| #[trigger] points2.contains_key(p) implies claimed(points2[p]).contains(p)
        && find_node(nodes.push(node), points2[p]) is Some by {
        crate::node::lemma_find_node_push(nodes, node, points2[p]);
        if !claimed(node.id@).contains(p) {
            assert(points.contains_key(p));
        }
    }
}

proof fn lemma_remove_well_owned(points: Map<u128, Seq<char>>, nodes: Seq<Node>, gone: Seq<char>)
    requires
        well_owned(points, nodes),
    ensures
        well_owned(points.remove_keys(claimed(gone)), without(nodes, gone)),
{
    let points2 = points.remove_keys(claimed(gone));
    assert forall|p: u128| #[trigger] points2.contains_key(p) implies claimed(points2[p]).contains(p)
        && find_node(without(nodes, gone), points2[p]) is Some by {
        assert(points.contains_key(p));
        crate::node::lemma_find_node_without(nodes, gone, points[p]);
    }
}

proof fn lemma_update_well_owned(
    points: Map<u128, Seq<char>>,
    nodes: Seq<Node>,
    id: Seq<char>,
    active_connections: u64,
    state: NodeState,
)
    requires
        well_owned(points, nodes),
    ensures
        well_owned(points, updated(nodes, id, active_connections, state)),
{
    let nodes2 = updated(nodes, id, active_connections, state);
    assert forall|p: u128| #[trigger] points.contains_key(p) implies claimed(points[p]).contains(p)
        && find_node(nodes2, points[p]) is Some by {
        crate::node::lemma_find_node(nodes, points[p]);
        crate::node::lemma_find_node(nodes2, points[p]);
        let n = find_node(nodes, points[p])->0;
        let k = choose|k: int| 0 <= k < nodes.len() && nodes[k] == n;
        assert(nodes2[k].id@ == points[p]);
    }
}

// ---------------------------------------------------------------------------
// Laws
// ---------------------------------------------------------------------------

/// A key has one node: whatever two lookups of one hash on one ring found,
/// they found the same.
pub proof fn law_stable_mapping(
    points: Map<u128, Seq<char>>,
    nodes: Seq<Node>,
    hash: u128,
    a: Option<Node>,
    b: Option<Node>,
)
    requires
        looks_up(points, nodes, hash, a),
        looks_up(points, nodes, hash, b),
    ensures
        a == b,
{
    if a is Some {
        let p = choose|p: u128| #[trigger]
            nearest(points, nodes, hash, p) && find_node(nodes, points[p]) == a;
        assert(live(points, nodes, p));
        if b is Some {
            let q = choose|q: u128| #[trigger]
                nearest(points, nodes, hash, q) && find_node(nodes, points[q]) == b;
            assert(live(points, nodes, q));
            assert(clockwise(hash, p) == clockwise(hash, q));
            assert(p == q);
        }
    } else if b is Some {
        let q = choose|q: u128| #[trigger]
            nearest(points, nodes, hash, q) && find_node(nodes, points[q]) == b;
        assert(live(points, nodes, q));
    }
}

/// A lookup finds a registered online node whenever some point is live.
pub proof fn law_lookup_online(
    points: Map<u128, Seq<char>>,
    nodes: Seq<Node>,
    hash: u128,
    found: Option<Node>,
)
    requires
        looks_up(points, nodes, hash, found),
    ensures
        found is Some <==> exists|p: u128| #[trigger] live(points, nodes, p),
        found matches Some(n) ==> n.online() && nodes.contains(n),
{
    if found is Some {
        let p = choose|p: u128| #[trigger]
            nearest(points, nodes, hash, p) && find_node(nodes, points[p]) == found;
        assert(live(points, nodes, p));
        crate::node::lemma_find_node(nodes, points[p]);
    }
}

/// Removing a node disturbs only its own keys: a key that went to another node,
/// or to none, stays where it is. The removed id must not collide with another
/// one, at least not at the point that the key goes to.
pub proof fn law_remove_keeps_others(
    points: Map<u128, Seq<char>>,
    nodes: Seq<Node>,
    gone: Seq<char>,
    hash: u128,
    before: Option<Node>,
    after: Option<Node>,
)
    requires
        well_owned(points, nodes),
        no_collision(nodes, gone) || forall|p: u128| #[trigger]
            nearest(points, nodes, hash, p) ==> !claimed(gone).contains(p),
        looks_up(points, nodes, hash, before),
        before matches Some(n) ==> n.id@ != gone,
        looks_up(points.remove_keys(claimed(gone)), without(nodes, gone), hash, after),
    ensures
        after == before,
{
    let points2 = points.remove_keys(claimed(gone));
    let nodes2 = without(nodes, gone);
    assert forall|q: u128| #[trigger] live(points2, nodes2, q) implies live(points, nodes, q) by {
        crate::node::lemma_find_node_without(nodes, gone, points2[q]);
    }
    if before is Some {
        let p = choose|p: u128| #[trigger]
            nearest(points, nodes, hash, p) && find_node(nodes, points[p]) == before;
        assert(live(points, nodes, p));
        crate::node::lemma_find_node(nodes, points[p]);
        let k = choose|k: int| 0 <= k < nodes.len() && nodes[k] == before->0;
        assert(claimed(nodes[k].id@).contains(p));
        assert(!claimed(gone).contains(p));
        crate::node::lemma_find_node_without(nodes, gone, points[p]);
        assert(live(points2, nodes2, p));
        assert(nearest(points2, nodes2, hash, p));
        law_stable_mapping(points2, nodes2, hash, before, after);
    } else if after is Some {
        let q = choose|q: u128| #[trigger]
            nearest(points2, nodes2, hash, q) && find_node(nodes2, points2[q]) == after;
        assert(live(points2, nodes2, q));
    }
}

/// Adding an online node under a fresh id moves keys to that node alone:
/// every key keeps its node or goes to the new one.
pub proof fn law_add_moves_only_to_new(
    points: Map<u128, Seq<char>>,
    nodes: Seq<Node>,
    node: Node,
    hash: u128,
    before: Option<Node>,
    after: Option<Node>,
)
    requires
        node.online(),
        find_node(nodes, node.id@) is None,
        looks_up(points, nodes, hash, before),
        looks_up(
            points.union_prefer_right(claimed(node.id@).mk_map(|h: u128| node.id@)),
            nodes.push(node),
            hash,
            after,
        ),
    ensures
        after == before || after == Some(node),
{
    let id = node.id@;
    let points2 = points.union_prefer_right(claimed(id).mk_map(|h: u128| id));
    let nodes2 = nodes.push(node);
    assert forall|x: Seq<char>| find_node(nodes2, x) == (if x == id {
        Some(node)
    } else {
        #[trigger] find_node(nodes, x)
    }) by {
        crate::node::lemma_find_node_push(nodes, node, x);
    }
    if before is Some {
        let p = choose|p: u128| #[trigger]
            nearest(points, nodes, hash, p) && find_node(nodes, points[p]) == before;
        assert(live(points, nodes, p));
        assert(find_node(nodes2, points2[p]) is Some);
        assert(live(points2, nodes2, p));
    }
    if after is Some {
        let q = choose|q: u128| #[trigger]
            nearest(points2, nodes2, hash, q) && find_node(nodes2, points2[q]) == after;
        assert(live(points2, nodes2, q));
        if points2[q] != id {
            assert(points.contains_key(q) && points2[q] == points[q]);
            assert(find_node(nodes, points[q]) == after);
            assert(live(points, nodes, q));
            assert(before is Some);
            let p = choose|p: u128| #[trigger]
                nearest(points, nodes, hash, p) && find_node(nodes, points[p]) == before;
            assert(clockwise(hash, p) == clockwise(hash, q));
            assert(p == q);
        } else {
            assert(find_node(nodes2, id) == Some(node)) by {
                crate::node::lemma_find_node_push(nodes, node, id);
            }
        }
    }
}

/// Whether every registered node owns all the points that it claims.
pub open spec fn owns_all(points: Map<u128, Seq<char>>, nodes: Seq<Node>) -> bool {
    forall|k: int, h: u128|
        0 <= k < nodes.len() && #[trigger] claimed(nodes[k].id@).contains(h) ==> points.contains_key(h)
            && points[h] == nodes[k].id@
}

/// Whether the points of an id collide with those of no other node.
pub open spec fn no_collision(nodes: Seq<Node>, id: Seq<char>) -> bool {
    forall|k: int|
        0 <= k < nodes.len() && nodes[k].id@ != id ==> claimed((#[trigger] nodes[k]).id@).disjoint(
            claimed(id),
        )
}

/// Whether no two nodes have the same id.
pub open spec fn distinct_ids(nodes: Seq<Node>) -> bool {
    forall|i: int, j: int|
        0 <= i < nodes.len() && 0 <= j < nodes.len() && i != j ==> (#[trigger] nodes[i]).id@ != (
        #[trigger] nodes[j]).id@
}

/// Every node owns its points, whatever is registered, removed and updated, as
/// long as no two ids collide.
pub proof fn law_nodes_own_their_points(
    points: Map<u128, Seq<char>>,
    nodes: Seq<Node>,
    node: Node,
    id: Seq<char>,
    active_connections: u64,
    state: NodeState,
)
    requires
        owns_all(points, nodes),
    ensures
        owns_all(Map::<u128, Seq<char>>::empty(), Seq::<Node>::empty()),
        no_collision(nodes, node.id@) ==> owns_all(
            points.union_prefer_right(claimed(node.id@).mk_map(|h: u128| node.id@)),
            nodes.push(node),
        ),
        no_collision(nodes, id) ==> owns_all(
            points.remove_keys(claimed(id)),
            without(nodes, id),
        ),
        owns_all(points, updated(nodes, id, active_connections, state)),
{
    if no_collision(nodes, node.id@) {
        let after = points.union_prefer_right(claimed(node.id@).mk_map(|h: u128| node.id@));
        let all = nodes.push(node);
        assert forall|k: int, h: u128|
            0 <= k < all.len() && #[trigger] claimed(all[k].id@).contains(h) implies after.contains_key(h)
            && after[h] == all[k].id@ by {
            if k < nodes.len() {
                assert(all[k] == nodes[k]);
                assert(claimed(nodes[k].id@).contains(h));
            }
        }
    }
    if no_collision(nodes, id) {
        let after = points.remove_keys(claimed(id));
        let rest = without(nodes, id);
        assert forall|k: int, h: u128|
            0 <= k < rest.len() && #[trigger] claimed(rest[k].id@).contains(h) implies after.contains_key(
            h,
        ) && after[h] == rest[k].id@ by {
            crate::node::lemma_without(nodes, id, k);
            let j = choose|j: int| 0 <= j < nodes.len() && nodes[j] == rest[k];
            assert(claimed(nodes[j].id@).contains(h));
            assert(!claimed(id).contains(h));
        }
    }
    let changed = updated(nodes, id, active_connections, state);
    assert forall|k: int, h: u128|
        0 <= k < changed.len() && #[trigger] claimed(changed[k].id@).contains(h) implies points.contains_key(
        h,
    ) && points[h] == changed[k].id@ by {
        assert(changed[k].id == nodes[k].id);
        assert(claimed(nodes[k].id@).contains(h));
    }
}

/// Whether every online node can be found: the first node of its id is online,
/// and some point is left to that id.
pub open spec fn in_reach(points: Map<u128, Seq<char>>, nodes: Seq<Node>) -> bool {
    forall|k: int|
        0 <= k < nodes.len() && (#[trigger] nodes[k]).online() ==> {
            &&& find_node(nodes, nodes[k].id@) matches Some(n)
            &&& n.online()
            &&& exists|p: u128| #[trigger] points.contains_key(p) && points[p] == nodes[k].id@
        }
}

/// Nodes with different ids that own their points can all be found.
pub proof fn law_owners_are_in_reach(points: Map<u128, Seq<char>>, nodes: Seq<Node>)
    requires
        owns_all(points, nodes),
        distinct_ids(nodes),
    ensures
        in_reach(points, nodes),
{
    assert forall|k: int| 0 <= k < nodes.len() && (#[trigger] nodes[k]).online() implies {
        &&& find_node(nodes, nodes[k].id@) matches Some(n)
        &&& n.online()
        &&& exists|p: u128| #[trigger] points.contains_key(p) && points[p] == nodes[k].id@
    } by {
        let id = nodes[k].id@;
        let h = vnode_point(id, 0);
        assert(claimed(id).contains(h));
        assert(points.contains_key(h) && points[h] == id);
        crate::node::lemma_find_node(nodes, id);
        let n = find_node(nodes, id)->0;
        let j = choose|j: int| 0 <= j < nodes.len() && nodes[j] == n;
        if j != k {
            assert(nodes[j].id@ != nodes[k].id@);
        }
    }
}

/// A lookup fails only when no node is online.
pub proof fn law_lookup_fails_only_without_nodes(
    points: Map<u128, Seq<char>>,
    nodes: Seq<Node>,
    hash: u128,
    found: Option<Node>,
)
    requires
        in_reach(points, nodes),
        looks_up(points, nodes, hash, found),
    ensures
        found is None <==> forall|k: int| 0 <= k < nodes.len() ==> !(#[trigger] nodes[k]).online(),
{
    law_lookup_online(points, nodes, hash, found);
    if found is Some {
        let n = found->0;
        let k = choose|k: int| 0 <= k < nodes.len() && nodes[k] == n;
        assert(nodes[k].online());
    } else {
        assert forall|k: int| 0 <= k < nodes.len() implies !(#[trigger] nodes[k]).online() by {
            if nodes[k].online() {
                let p = choose|p: u128| #[trigger] points.contains_key(p) && points[p] == nodes[k].id@;
                assert(live(points, nodes, p));
            }
        }
    }
}

/// Whether the point `p` is taken and the first node of its id is online.
pub open spec fn serves(points: Map<u128, Seq<char>>, nodes: Seq<Node>, p: u128) -> bool {
    points.contains_key(p) && find_node(nodes, points[p]) is Some && find_node(
        nodes,
        points[p],
    )->0.state == NodeState::Online
}

/// Which node a hash goes to: the one of the lowest serving point that is not
/// below the hash, and where there is none, of the lowest serving point of all.
pub proof fn law_lookup_goes_up_and_round(ring: HashRing, hash: u128, r: Option<Node>)
    requires
        call_ensures(HashRing::lookup, (&ring, hash), r),
    ensures
        r is None <==> forall|q: u128| !#[trigger] serves(ring.points(), ring.nodes(), q),
        r matches Some(node) ==> node.state == NodeState::Online && exists|p: u128|
            {
                &&& #[trigger] serves(ring.points(), ring.nodes(), p)
                &&& find_node(ring.nodes(), ring.points()[p]) == Some(node)
                &&& forall|q: u128| #[trigger]
                    serves(ring.points(), ring.nodes(), q) && q >= hash ==> hash <= p <= q
                &&& p < hash ==> forall|q: u128| #[trigger]
                    serves(ring.points(), ring.nodes(), q) ==> p <= q
            },
{
    let points = ring.points();
    let nodes = ring.nodes();
    assert forall|q: u128| #[trigger] serves(points, nodes, q) == live(points, nodes, q) by {}
    if r is Some {
        let node = r->0;
        let p = choose|p: u128| #[trigger]
            nearest(points, nodes, hash, p) && find_node(nodes, points[p]) == Some(node);
        assert(serves(points, nodes, p));
        assert forall|q: u128| #[trigger] serves(points, nodes, q) && q >= hash implies hash <= p <= q by {
            assert(live(points, nodes, q));
            assert(clockwise(hash, p) <= clockwise(hash, q));
        }
        if p < hash {
            assert forall|q: u128| #[trigger] serves(points, nodes, q) implies p <= q by {
                assert(live(points, nodes, q));
                assert(clockwise(hash, p) <= clockwise(hash, q));
            }
        }
    } else {
        assert forall|q: u128| !#[trigger] serves(points, nodes, q) by {
            assert(!live(points, nodes, q));
        }
    }
}

/// The Murmur3 hash of an id with `-vnode-` and a number behind it.
pub open spec fn mark_of(id: Seq<char>, i: nat) -> u128 {
    murmur3_x64_128_digest(encode_utf8(id + "-vnode-"@ + decimal(i)), 0)
}

/// Which points a node takes: the Murmur3 hashes, under seed zero, of its id with
/// `-vnode-` and each of the numbers from 0 to 149 behind it. Registering a node
/// gives it exactly these; removing an id frees exactly these.
pub proof fn law_points_of_a_node(
    s: &mut HashRing,
    node: Node,
    t: &mut HashRing,
    gone: &str,
    i: nat,
    p: u128,
)
    requires
        call_ensures(HashRing::add_node, (s, node), ()),
        call_ensures(HashRing::remove_node, (t, gone), ()),
    ensures
        i < 150 ==> final(s).points().contains_key(mark_of(node.id@, i)) && final(s).points()[mark_of(
            node.id@,
            i,
        )] == node.id@,
        (forall|j: nat| j < 150 ==> #[trigger] mark_of(node.id@, j) != p) ==> {
            &&& final(s).points().contains_key(p) <==> old(s).points().contains_key(p)
            &&& old(s).points().contains_key(p) ==> final(s).points()[p] == old(s).points()[p]
        },
        i < 150 ==> !final(t).points().contains_key(mark_of(gone@, i)),
        (forall|j: nat| j < 150 ==> #[trigger] mark_of(gone@, j) != p) ==> {
            &&& final(t).points().contains_key(p) <==> old(t).points().contains_key(p)
            &&& old(t).points().contains_key(p) ==> final(t).points()[p] == old(t).points()[p]
        },
        final(s).nodes() == old(s).nodes().push(node),
        forall|k: int|
            0 <= k < final(t).nodes().len() ==> (#[trigger] final(t).nodes()[k]).id@ != gone@,
{
    if i < 150 {
        assert(vnode_point(node.id@, i) == mark_of(node.id@, i));
        assert(claimed(node.id@).contains(mark_of(node.id@, i)));
        assert(vnode_point(gone@, i) == mark_of(gone@, i));
        assert(claimed(gone@).contains(mark_of(gone@, i)));
    }
    if forall|j: nat| j < 150 ==> #[trigger] mark_of(node.id@, j) != p {
        if claimed(node.id@).contains(p) {
            let k = choose|k: nat| k < 150 && #[trigger] vnode_point(node.id@, k) == p;
            assert(mark_of(node.id@, k) == p);
        }
    }
    if forall|j: nat| j < 150 ==> #[trigger] mark_of(gone@, j) != p {
        if claimed(gone@).contains(p) {
            let k = choose|k: nat| k < 150 && #[trigger] vnode_point(gone@, k) == p;
            assert(mark_of(gone@, k) == p);
        }
    }
    let nodes = old(t).nodes();
    if nodes.len() > 0 {
        crate::node::law_node_lists(nodes, gone@, 0, NodeState::Online, 0);
    } else {
        reveal(Seq::filter);
    }
}

/// A text key goes to the node at the Murmur3 hash of its UTF-8 bytes.
pub proof fn law_key_goes_by_its_hash(ring: HashRing, key: &str, r: Option<Node>, at: u128, s: Option<Node>)
    requires
        call_ensures(HashRing::node_for, (&ring, key), r),
        at == murmur3_x64_128_digest(encode_utf8(key@), 0),
        call_ensures(HashRing::lookup, (&ring, at), s),
    ensures
        r == s,
{
    law_stable_mapping(ring.points(), ring.nodes(), at, r, s);
}

} // verus!
