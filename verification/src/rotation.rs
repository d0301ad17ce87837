//! Round-robin over the online nodes, shared by the L4 and the HTTP balancer.

use vstd::prelude::*;
use crate::node::{Node, online};

verus! {

/// The position that the counter `index` selects among `n` nodes.
pub open spec fn turn(index: usize, n: nat) -> int {
    (index as int) % (n as int)
}

/// What follows `index`: the counter wraps at the end of its range.
pub open spec fn next_index(index: usize) -> usize {
    if index == usize::MAX {
        0
    } else {
        (index + 1) as usize
    }
}

/// The node that the counter selects, and the counter after it. Without an
/// online node nothing is selected and the counter stands still.
pub fn rotate(nodes: &Vec<Node>, index: &mut usize) -> (r: Option<Node>)
    ensures
        match r {
            Some(node) => {
                &&& online(nodes@).len() > 0
                &&& node == online(nodes@)[turn(*old(index), online(nodes@).len())]
                &&& *final(index) == next_index(*old(index))
            },
            None => online(nodes@).len() == 0 && *final(index) == *old(index),
        },
{
    let candidates = crate::node::online_of(nodes);
    if candidates.len() == 0 {
        return None;
    }
    let at: usize = *index % candidates.len();
    *index = index.wrapping_add(1);
    Some(candidates[at].clone())
}

/// Whether one node stands at position `p` and the other at the next position,
/// which after the last one is the first.
pub open spec fn hands_over(nodes: Seq<Node>, p: int, one: Node, other: Node) -> bool {
    &&& 0 <= p < nodes.len()
    &&& one == nodes[p]
    &&& other == nodes[if p + 1 < nodes.len() {
        p + 1
    } else {
        0
    }]
}

/// The counter after `k` turns from `index`.
pub open spec fn index_after(index: usize, k: int) -> usize {
    ((index + k) % (usize::MAX + 1)) as usize
}

/// Round-robin is fair: in as many consecutive turns as there are nodes, each
/// position comes up in exactly one of them. If the counter wraps on the way,
/// that holds when the number of nodes divides its range.
pub proof fn law_every_node_once(index: usize, n: nat, position: int)
    requires
        n > 0,
        0 <= position < n,
        index + n <= usize::MAX + 1 || (usize::MAX + 1) % (n as int) == 0,
    ensures
        index_after(index, 0) == index,
        forall|k: int|
            0 <= k ==> #[trigger] index_after(index, k + 1) == next_index(index_after(index, k)),
        exists|k: int|
            0 <= k < n && #[trigger] turn(index_after(index, k), n) == position,
        forall|k: int, l: int|
            0 <= k < n && 0 <= l < n && #[trigger] turn(index_after(index, k), n) == #[trigger] turn(
                index_after(index, l),
                n,
            ) ==> k == l,
{
    let c = index as int;
    let m = n as int;
    let range = usize::MAX + 1;
    assert forall|k: int| 0 <= k implies #[trigger] index_after(index, k + 1) == next_index(
        index_after(index, k),
    ) by {
        lemma_next_mod(c + k, range);
    }
    assert forall|k: int| 0 <= k < n implies #[trigger] turn(index_after(index, k), n) == (c + k) % m by {
        if c + k >= range {
            lemma_mod_of_multiple(c + k, m, range);
        } else {
            vstd::arithmetic::div_mod::lemma_small_mod((c + k) as nat, range as nat);
        }
    }
    vstd::arithmetic::div_mod::lemma_small_mod(c as nat, range as nat);
    let r = c % m;
    let k = if position >= r {
        position - r
    } else {
        position - r + m
    };
    vstd::arithmetic::div_mod::lemma_fundamental_div_mod(c, m);
    let q = c / m;
    if position >= r {
        assert(c + k == q * m + position) by (nonlinear_arith)
            requires
                c == m * q + r,
                k == position - r,
        ;
        vstd::arithmetic::div_mod::lemma_fundamental_div_mod_converse(c + k, m, q, position);
    } else {
        assert(c + k == (q + 1) * m + position) by (nonlinear_arith)
            requires
                c == m * q + r,
                k == position - r + m,
        ;
        vstd::arithmetic::div_mod::lemma_fundamental_div_mod_converse(c + k, m, q + 1, position);
    }
    assert(turn(index_after(index, k), n) == position);
    assert forall|k: int, l: int|
        0 <= k < n && 0 <= l < n && #[trigger] turn(index_after(index, k), n) == #[trigger] turn(
            index_after(index, l),
            n,
        ) implies k == l by {
        let a = c + k;
        let b = c + l;
        vstd::arithmetic::div_mod::lemma_fundamental_div_mod(a, m);
        vstd::arithmetic::div_mod::lemma_fundamental_div_mod(b, m);
        let qa = a / m;
        let qb = b / m;
        assert(a - b == m * (qa - qb)) by (nonlinear_arith)
            requires
                a == m * qa + a % m,
                b == m * qb + b % m,
                a % m == b % m,
        ;
        let d = qa - qb;
        assert(d == 0) by (nonlinear_arith)
            requires
                -m < m * d < m,
                m > 0,
        ;
        assert(m * 0 == 0);
    }
}

/// What follows a remainder: one more, or zero after the last.
pub proof fn lemma_next_mod(x: int, range: int)
    requires
        range > 0,
        0 <= x,
    ensures
        (x + 1) % range == if x % range == range - 1 {
            0
        } else {
            x % range + 1
        },
{
    let q = x / range;
    let r = x % range;
    vstd::arithmetic::div_mod::lemma_fundamental_div_mod(x, range);
    assert(range * q == q * range) by (nonlinear_arith);
    if r == range - 1 {
        assert((q + 1) * range == q * range + range) by (nonlinear_arith);
        vstd::arithmetic::div_mod::lemma_fundamental_div_mod_converse(x + 1, range, q + 1, 0);
    } else {
        vstd::arithmetic::div_mod::lemma_fundamental_div_mod_converse(x + 1, range, q, r + 1);
    }
}

/// The remainder by `m` survives the remainder by a multiple of `m`.
proof fn lemma_mod_of_multiple(x: int, m: int, range: int)
    requires
        m > 0,
        range > 0,
        range % m == 0,
    ensures
        (x % range) % m == x % m,
{
    let q = x / range;
    let r = x % range;
    let f = range / m;
    vstd::arithmetic::div_mod::lemma_fundamental_div_mod(x, range);
    vstd::arithmetic::div_mod::lemma_fundamental_div_mod(range, m);
    vstd::arithmetic::div_mod::lemma_fundamental_div_mod(r, m);
    let g = r / m;
    assert(x == (f * q + g) * m + r % m) by (nonlinear_arith)
        requires
            x == range * q + r,
            range == m * f,
            r == m * g + r % m,
    ;
    vstd::arithmetic::div_mod::lemma_fundamental_div_mod_converse(x, m, f * q + g, r % m);
}

} // verus!
