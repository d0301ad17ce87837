//! The concurrent maps that hold sessions and response-time state, and the
//! eviction pass over them.
//!
//! `DashMap` changes through shared references; here it is only ever changed
//! through an exclusive one, so its contents are a plain map.

use dashmap::DashMap;
use vstd::prelude::*;

verus! {

/// `dashmap::DashMap`: a hash map with sharded locks.
#[verifier::external_type_specification]
#[verifier::external_body]
#[verifier::reject_recursive_types(K)]
#[verifier::reject_recursive_types(V)]
#[verifier::reject_recursive_types(S)]
pub struct ExDashMap<K, V, S>(DashMap<K, V, S>);

// ---------------------------------------------------------------------------
// Eviction
// ---------------------------------------------------------------------------

/// One eviction pass: how many entries may go, how many went, and which are
/// eligible (the expired ones, or all).
#[derive(Debug, Clone, Copy, PartialEq, Eq, Structural)]
pub struct Evictor {
    pub quota: usize,
    pub evicted: usize,
    pub only_expired: bool,
    pub now: u128,
}

impl Evictor {
    /// Whether an entry with this expiry may go in this pass.
    pub open spec fn eligible(self, expires_at: u128) -> bool {
        !self.only_expired || self.now >= expires_at
    }

    /// Whether the pass evicts an entry with this expiry when it meets it.
    pub open spec fn evicts(self, expires_at: u128) -> bool {
        self.evicted < self.quota && self.eligible(expires_at)
    }

    /// The pass after it met an entry with this expiry.
    pub open spec fn after(self, expires_at: u128) -> Evictor {
        if self.evicts(expires_at) {
            Evictor { evicted: (self.evicted + 1) as usize, ..self }
        } else {
            self
        }
    }

    /// Meets one entry; says whether to keep it.
    pub fn keep(&mut self, expires_at: u128) -> (r: bool)
        ensures
            r == !old(self).evicts(expires_at),
            *final(self) == old(self).after(expires_at),
    {
        if self.evicted >= self.quota {
            return true;
        }
        if !self.only_expired || self.now >= expires_at {
            self.evicted = self.evicted + 1;
            return false;
        }
        true
    }
}

/// Whether `order` visits every key of a map exactly once.
pub open spec fn visits<K>(order: Seq<K>, keys: Set<K>) -> bool {
    order.no_duplicates() && order.to_set() == keys
}

/// The pass after it met the entries of `order`.
pub open spec fn pass_after<K>(
    m: Map<K, (Seq<char>, u128)>,
    order: Seq<K>,
    pass: Evictor,
) -> Evictor
    decreases order.len(),
{
    if order.len() == 0 {
        pass
    } else {
        pass_after(m, order.drop_last(), pass).after(m[order.last()].1)
    }
}

/// What is left of `m` after the pass met the entries of `order`.
pub open spec fn swept<K>(
    m: Map<K, (Seq<char>, u128)>,
    order: Seq<K>,
    pass: Evictor,
) -> Map<K, (Seq<char>, u128)>
    decreases order.len(),
{
    if order.len() == 0 {
        m
    } else {
        let before = swept(m, order.drop_last(), pass);
        if pass_after(m, order.drop_last(), pass).evicts(m[order.last()].1) {
            before.remove(order.last())
        } else {
            before
        }
    }
}

/// Whether a pass over `before` may leave `after` and end as `end`, evicting
/// exactly `gone`: eligible entries only, at most the quota, and all of the
/// eligible ones when the quota was not used up.
pub open spec fn pass_result<K>(
    before: Map<K, (Seq<char>, u128)>,
    pass: Evictor,
    after: Map<K, (Seq<char>, u128)>,
    end: Evictor,
    gone: Set<K>,
) -> bool {
    &&& gone.finite()
    &&& gone.subset_of(before.dom())
    &&& after == before.remove_keys(gone)
    &&& end == (Evictor { evicted: end.evicted, ..pass })
    &&& end.evicted == pass.evicted + gone.len()
    &&& pass.evicted <= pass.quota ==> end.evicted <= pass.quota
    &&& forall|k: K| #[trigger] gone.contains(k) ==> pass.eligible(before[k].1)
    &&& end.evicted < pass.quota ==> forall|k: K| #[trigger]
        before.contains_key(k) && pass.eligible(before[k].1) ==> gone.contains(k)
}

proof fn lemma_sweep_prefix<K>(
    m: Map<K, (Seq<char>, u128)>,
    order: Seq<K>,
    pass: Evictor,
) -> (gone: Set<K>)
    requires
        order.no_duplicates(),
        order.to_set().subset_of(m.dom()),
        pass.evicted <= pass.quota,
    ensures
        gone.finite(),
        gone.subset_of(order.to_set()),
        swept(m, order, pass) == m.remove_keys(gone),
        pass_after(m, order, pass) == (Evictor {
            evicted: pass_after(m, order, pass).evicted,
            ..pass
        }),
        pass_after(m, order, pass).evicted == pass.evicted + gone.len(),
        pass_after(m, order, pass).evicted <= pass.quota,
        forall|k: K| #[trigger] gone.contains(k) ==> pass.eligible(m[k].1),
        pass_after(m, order, pass).evicted < pass.quota ==> forall|k: K| #[trigger]
            order.to_set().contains(k) && pass.eligible(m[k].1) ==> gone.contains(k),
    decreases order.len(),
{
    if order.len() == 0 {
        assert(m.remove_keys(Set::<K>::empty()) =~= m);
        Set::<K>::empty()
    } else {
        let init = order.drop_last();
        let last = order.last();
        assert(init.no_duplicates()) by {
            assert forall|i: int, j: int| 0 <= i < init.len() && 0 <= j < init.len() && i != j implies init[i]
                != init[j] by {
                assert(init[i] == order[i] && init[j] == order[j]);
            }
        }
        assert forall|k: K| init.to_set().contains(k) implies order.to_set().contains(k) by {
            let i = choose|i: int| 0 <= i < init.len() && init[i] == k;
            assert(order[i] == k);
        }
        assert(!init.contains(last)) by {
            if init.contains(last) {
                let i = choose|i: int| 0 <= i < init.len() && init[i] == last;
                assert(order[i] == order[order.len() - 1]);
            }
        }
        assert(order.contains(last)) by {
            assert(order[order.len() - 1] == last);
        }
        assert forall|k: K| order.to_set().contains(k) && k != last implies init.to_set().contains(k) by {
            let i = choose|i: int| 0 <= i < order.len() && order[i] == k;
            assert(init[i] == k);
        }
        let before = lemma_sweep_prefix(m, init, pass);
        let mid = pass_after(m, init, pass);
        assert(!before.contains(last));
        if mid.evicts(m[last].1) {
            let gone = before.insert(last);
            assert(m.remove_keys(before).remove(last) =~= m.remove_keys(gone));
            gone
        } else {
            before
        }
    }
}

/// What a full pass does, whatever order the entries came in.
pub proof fn lemma_sweep<K>(
    m: Map<K, (Seq<char>, u128)>,
    order: Seq<K>,
    pass: Evictor,
) -> (gone: Set<K>)
    requires
        visits(order, m.dom()),
        pass.evicted <= pass.quota,
    ensures
        pass_result(m, pass, swept(m, order, pass), pass_after(m, order, pass), gone),
{
    let gone = lemma_sweep_prefix(m, order, pass);
    assert forall|k: K| #[trigger] m.contains_key(k) implies order.to_set().contains(k) by {
        assert(m.dom().contains(k));
    }
    gone
}

/// How many entries one eviction removes: a tenth of the capacity, and at least
/// one where there is a capacity at all.
pub open spec fn eviction_quota(max_entries: nat) -> nat {
    if 0 < max_entries < 10 {
        1
    } else {
        max_entries / 10
    }
}

/// How many entries one eviction removes.
pub fn eviction_size(max_entries: usize) -> (n: usize)
    ensures
        n == eviction_quota(max_entries as nat),
{
    if 0 < max_entries && max_entries < 10 {
        1
    } else {
        max_entries / 10
    }
}

/// Whether `gone` is what an eviction of `quota` entries at `now` may remove:
/// that many entries, or all there are, and expired ones before any other.
pub open spec fn evictable<K>(
    m: Map<K, (Seq<char>, u128)>,
    quota: nat,
    now: u128,
    gone: Set<K>,
) -> bool {
    &&& gone.finite()
    &&& gone.subset_of(m.dom())
    &&& gone.len() == if quota <= m.dom().len() {
        quota
    } else {
        m.dom().len()
    }
    &&& {
        ||| forall|k: K| #[trigger] gone.contains(k) ==> now >= m[k].1
        ||| forall|k: K| #[trigger] m.contains_key(k) && now >= m[k].1 ==> gone.contains(k)
    }
}

/// Whether `after` is `before` once an entry was put at `now` under a
/// capacity: room is made first when the store is full, then the entry is
/// stored with its expiry.
pub open spec fn put_result<K>(
    before: Map<K, (Seq<char>, u128)>,
    max_entries: nat,
    now: u128,
    ttl: u128,
    key: K,
    value: Seq<char>,
    after: Map<K, (Seq<char>, u128)>,
) -> bool {
    let entry = (value, (now + ttl) as u128);
    if before.dom().len() < max_entries {
        after == before.insert(key, entry)
    } else {
        exists|gone: Set<K>| #[trigger]
            evictable(before, eviction_quota(max_entries), now, gone) && after == before.remove_keys(
                gone,
            ).insert(key, entry)
    }
}

/// The entry that a read at `now` sees: one that has not expired.
pub open spec fn fresh<K>(
    m: Map<K, (Seq<char>, u128)>,
    key: K,
    now: u128,
) -> Option<Seq<char>> {
    if m.contains_key(key) && now < m[key].1 {
        Some(m[key].0)
    } else {
        None
    }
}

/// The two passes of an eviction together: expired entries first, then any.
pub proof fn lemma_two_passes<K>(
    m: Map<K, (Seq<char>, u128)>,
    first: Evictor,
    mid: Map<K, (Seq<char>, u128)>,
    end: Evictor,
    gone1: Set<K>,
    second: Evictor,
    after: Map<K, (Seq<char>, u128)>,
    end2: Evictor,
    gone2: Set<K>,
)
    requires
        m.dom().finite(),
        first.evicted == 0,
        first.only_expired,
        pass_result(m, first, mid, end, gone1),
        end.evicted < first.quota ==> {
            &&& second.evicted == 0
            &&& !second.only_expired
            &&& second.quota == first.quota - end.evicted
            &&& pass_result(mid, second, after, end2, gone2)
        },
        end.evicted >= first.quota ==> after == mid && gone2 == Set::<K>::empty(),
    ensures
        evictable(m, first.quota as nat, first.now, gone1.union(gone2)),
        after == m.remove_keys(gone1.union(gone2)),
{
    let gone = gone1.union(gone2);
    assert(gone1.disjoint(gone2)) by {
        assert forall|k: K| gone1.contains(k) && gone2.contains(k) implies false by {
            assert(mid.contains_key(k));
        }
    }
    vstd::set_lib::lemma_set_disjoint_lens(gone1, gone2);
    assert(gone.subset_of(m.dom())) by {
        assert forall|k: K| gone2.contains(k) implies m.dom().contains(k) by {
            assert(mid.dom().contains(k));
        }
    }
    vstd::set_lib::lemma_len_subset(gone, m.dom());
    if end.evicted >= first.quota {
        assert(gone =~= gone1);
        assert(after =~= m.remove_keys(gone));
        assert(end.evicted == first.quota);
    } else {
        assert(after =~= m.remove_keys(gone));
        assert forall|k: K| #[trigger] m.contains_key(k) && first.now >= m[k].1 implies gone.contains(
            k,
        ) by {
            assert(first.eligible(m[k].1));
            assert(gone1.contains(k));
        }
        if end2.evicted < second.quota {
            assert forall|k: K| m.dom().contains(k) implies gone.contains(k) by {
                if !gone1.contains(k) {
                    assert(mid.contains_key(k));
                    assert(second.eligible(mid[k].1));
                }
            }
            assert(gone =~= m.dom());
        }
    }
}

/// A put leaves the capacity intact and stores its entry: whatever the
/// capacity, a store that was not over it is not over it afterwards. (Without
/// any capacity, at zero, there is no room for the entry itself.)
pub proof fn law_put_keeps_capacity<K>(
    before: Map<K, (Seq<char>, u128)>,
    max_entries: nat,
    now: u128,
    ttl: u128,
    key: K,
    value: Seq<char>,
    after: Map<K, (Seq<char>, u128)>,
)
    requires
        put_result(before, max_entries, now, ttl, key, value, after),
        before.dom().finite(),
        before.dom().len() <= max_entries,
        max_entries >= 1,
    ensures
        after.dom().finite(),
        after.dom().len() <= max_entries,
        after.contains_key(key),
        after[key] == (value, (now + ttl) as u128),
{
    if before.dom().len() < max_entries {
        assert(after.dom() =~= before.dom().insert(key));
    } else {
        let entry = (value, (now + ttl) as u128);
        let gone = choose|gone: Set<K>| #[trigger]
            evictable(before, eviction_quota(max_entries), now, gone) && after == before.remove_keys(
                gone,
            ).insert(key, entry);
        assert(after.dom() =~= before.dom().difference(gone).insert(key));
        vstd::set_lib::lemma_len_difference(before.dom(), gone);
        assert(before.dom().difference(gone).len() == before.dom().len() - gone.len()) by {
            assert(before.dom() =~= gone.union(before.dom().difference(gone)));
            vstd::set_lib::lemma_set_disjoint_lens(gone, before.dom().difference(gone));
        }
    }
}

/// A read before the expiry gives back what was put, and one after it gives
/// nothing.
pub proof fn law_put_then_get<K>(
    before: Map<K, (Seq<char>, u128)>,
    max_entries: nat,
    put_at: u128,
    ttl: u128,
    key: K,
    value: Seq<char>,
    after: Map<K, (Seq<char>, u128)>,
    now: u128,
)
    requires
        put_result(before, max_entries, put_at, ttl, key, value, after),
        put_at + ttl <= u128::MAX,
    ensures
        now < put_at + ttl ==> fresh(after, key, now) == Some(value),
        now >= put_at + ttl ==> fresh(after, key, now) is None,
{
}

/// A put that finds room changes no other entry.
pub proof fn law_put_keeps_others<K>(
    before: Map<K, (Seq<char>, u128)>,
    max_entries: nat,
    now: u128,
    ttl: u128,
    key: K,
    value: Seq<char>,
    after: Map<K, (Seq<char>, u128)>,
    other: K,
    at: u128,
)
    requires
        put_result(before, max_entries, now, ttl, key, value, after),
        before.dom().len() < max_entries,
        other != key,
    ensures
        fresh(after, other, at) == fresh(before, other, at),
{
}

// ---------------------------------------------------------------------------
// Sessions by subnet
// ---------------------------------------------------------------------------

/// What a map from subnets to sessions holds: value and expiry by subnet.
pub uninterp spec fn subnet_entries(m: DashMap<String, (String, u128)>) -> Map<
    Seq<char>,
    (Seq<char>, u128),
>;

/// `DashMap::new` makes an empty map.
#[verifier::external_body]
pub(crate) fn new_subnets() -> (m: DashMap<String, (String, u128)>)
    ensures
        subnet_entries(m).is_empty(),
{
    DashMap::new()
}

/// `DashMap::len` counts the entries.
#[verifier::external_body]
pub(crate) fn subnets_len(m: &DashMap<String, (String, u128)>) -> (n: usize)
    ensures
        n == subnet_entries(*m).dom().len(),
{
    m.len()
}

/// `DashMap::get` finds the entry of a key; a copy of it is handed out.
#[verifier::external_body]
pub(crate) fn subnets_get(m: &DashMap<String, (String, u128)>, key: &str) -> (r: Option<
    (String, u128),
>)
    ensures
        match r {
            Some(e) => subnet_entries(*m).contains_key(key@) && subnet_entries(*m)[key@] == (e.0@, e.1),
            None => !subnet_entries(*m).contains_key(key@),
        },
{
    m.get(key).map(|e| (e.0.clone(), e.1))
}

/// `DashMap::insert` stores an entry in place of one under the same key.
#[verifier::external_body]
pub(crate) fn subnets_insert(
    m: &mut DashMap<String, (String, u128)>,
    key: String,
    value: String,
    expires_at: u128,
)
    ensures
        subnet_entries(*final(m)) == subnet_entries(*old(m)).insert(key@, (value@, expires_at)),
{
    m.insert(key, (value, expires_at));
}

/// `DashMap::remove` drops the entry of a key.
#[verifier::external_body]
pub(crate) fn subnets_remove(m: &mut DashMap<String, (String, u128)>, key: &str)
    ensures
        subnet_entries(*final(m)) == subnet_entries(*old(m)).remove(key@),
{
    m.remove(key);
}

/// `DashMap::retain` calls the predicate once on every entry, in an order of
/// its own, and drops those it refuses.
#[verifier::external_body]
pub(crate) fn subnets_retain(m: &mut DashMap<String, (String, u128)>, pass: &mut Evictor)
    ensures
        exists|order: Seq<Seq<char>>| #[trigger]
            visits(order, subnet_entries(*old(m)).dom()) && subnet_entries(*final(m)) == swept(
                subnet_entries(*old(m)),
                order,
                *old(pass),
            ) && *final(pass) == pass_after(subnet_entries(*old(m)), order, *old(pass)),
{
    m.retain(|_, e| pass.keep(e.1));
}

// ---------------------------------------------------------------------------
// Sessions by connection
// ---------------------------------------------------------------------------

/// A socket address as integers: whether it is IPv6, the groups of its
/// address, port, flow label and scope.
pub type AddrKey = (bool, (u16, u16, u16, u16, u16, u16, u16, u16), u16, u32, u32);

/// The two ends of a connection.
pub type PairKey = (AddrKey, AddrKey);

/// What a map from connections to sessions holds: value and expiry by
/// connection.
pub uninterp spec fn pair_entries(m: DashMap<PairKey, (String, u128)>) -> Map<
    PairKey,
    (Seq<char>, u128),
>;

/// `DashMap::new` makes an empty map.
#[verifier::external_body]
pub(crate) fn new_pairs() -> (m: DashMap<PairKey, (String, u128)>)
    ensures
        pair_entries(m).is_empty(),
{
    DashMap::new()
}

/// `DashMap::len` counts the entries.
#[verifier::external_body]
pub(crate) fn pairs_len(m: &DashMap<PairKey, (String, u128)>) -> (n: usize)
    ensures
        n == pair_entries(*m).dom().len(),
{
    m.len()
}

/// `DashMap::get` finds the entry of a key; a copy of it is handed out.
#[verifier::external_body]
pub(crate) fn pairs_get(m: &DashMap<PairKey, (String, u128)>, key: PairKey) -> (r: Option<
    (String, u128),
>)
    ensures
        match r {
            Some(e) => pair_entries(*m).contains_key(key) && pair_entries(*m)[key] == (e.0@, e.1),
            None => !pair_entries(*m).contains_key(key),
        },
{
    m.get(&key).map(|e| (e.0.clone(), e.1))
}

/// `DashMap::insert` stores an entry in place of one under the same key.
#[verifier::external_body]
pub(crate) fn pairs_insert(
    m: &mut DashMap<PairKey, (String, u128)>,
    key: PairKey,
    value: String,
    expires_at: u128,
)
    ensures
        pair_entries(*final(m)) == pair_entries(*old(m)).insert(key, (value@, expires_at)),
{
    m.insert(key, (value, expires_at));
}

/// `DashMap::remove` drops the entry of a key.
#[verifier::external_body]
pub(crate) fn pairs_remove(m: &mut DashMap<PairKey, (String, u128)>, key: PairKey)
    ensures
        pair_entries(*final(m)) == pair_entries(*old(m)).remove(key),
{
    m.remove(&key);
}

/// `DashMap::retain` calls the predicate once on every entry, in an order of
/// its own, and drops those it refuses.
#[verifier::external_body]
pub(crate) fn pairs_retain(m: &mut DashMap<PairKey, (String, u128)>, pass: &mut Evictor)
    ensures
        exists|order: Seq<PairKey>| #[trigger]
            visits(order, pair_entries(*old(m)).dom()) && pair_entries(*final(m)) == swept(
                pair_entries(*old(m)),
                order,
                *old(pass),
            ) && *final(pass) == pass_after(pair_entries(*old(m)), order, *old(pass)),
{
    m.retain(|_, e| pass.keep(e.1));
}

// ---------------------------------------------------------------------------
// Response times by node
// ---------------------------------------------------------------------------

/// What a map of response-time state holds: the average, as a bit pattern, and
/// the number of samples, by node id.
pub uninterp spec fn latency_entries(m: DashMap<String, (u64, u64)>) -> Map<Seq<char>, (u64, u64)>;

/// `DashMap::new` makes an empty map.
#[verifier::external_body]
pub(crate) fn new_latencies() -> (m: DashMap<String, (u64, u64)>)
    ensures
        latency_entries(m).is_empty(),
{
    DashMap::new()
}

/// `DashMap::get` finds the entry of a key; a copy of it is handed out.
#[verifier::external_body]
pub(crate) fn latencies_get(m: &DashMap<String, (u64, u64)>, key: &str) -> (r: Option<(u64, u64)>)
    ensures
        match r {
            Some(e) => latency_entries(*m).contains_key(key@) && latency_entries(*m)[key@] == e,
            None => !latency_entries(*m).contains_key(key@),
        },
{
    m.get(key).map(|e| *e)
}

/// `DashMap::insert` stores an entry in place of one under the same key.
#[verifier::external_body]
pub(crate) fn latencies_insert(m: &mut DashMap<String, (u64, u64)>, key: String, value: (u64, u64))
    ensures
        latency_entries(*final(m)) == latency_entries(*old(m)).insert(key@, value),
{
    m.insert(key, value);
}

/// `DashMap::remove` drops the entry of a key.
#[verifier::external_body]
pub(crate) fn latencies_remove(m: &mut DashMap<String, (u64, u64)>, key: &str)
    ensures
        latency_entries(*final(m)) == latency_entries(*old(m)).remove(key@),
{
    m.remove(key);
}

/// What a full table drops: only entries that it had, as many as its quota says,
/// and none that still counts while one that is over stays.
pub proof fn law_full_table_drops<K>(
    before: Map<K, (Seq<char>, u128)>,
    max_entries: nat,
    now: u128,
    ttl: u128,
    key: K,
    value: Seq<char>,
    after: Map<K, (Seq<char>, u128)>,
)
    requires
        put_result(before, max_entries, now, ttl, key, value, after),
        before.dom().finite(),
    ensures
        before.dom().len() <= after.dom().len() + max_entries / 10 + 1,
        before.dom().len() < max_entries ==> forall|k: K| #[trigger]
            before.contains_key(k) ==> after.contains_key(k),
        forall|j: K| #[trigger]
            after.contains_key(j) && j != key ==> before.contains_key(j) && after[j] == before[j],
        forall|k: K, j: K|
            #![trigger before.contains_key(k), after.contains_key(j)]
            before.contains_key(k) && now < before[k].1 && !after.contains_key(k)
                && after.contains_key(j) && j != key ==> now < after[j].1,
{
    let entry = (value, (now + ttl) as u128);
    if before.dom().len() < max_entries {
        assert(after.dom() =~= before.dom().insert(key));
    } else {
        let quota = eviction_quota(max_entries);
        let gone = choose|gone: Set<K>| #[trigger]
            evictable(before, quota, now, gone) && after == before.remove_keys(gone).insert(key, entry);
        let left = before.dom().difference(gone);
        vstd::set_lib::lemma_len_difference(before.dom(), gone);
        assert(before.remove_keys(gone).dom() =~= left);
        assert(after.dom() =~= left.insert(key));
        assert(before.dom().len() <= left.len() + gone.len()) by {
            vstd::set_lib::lemma_len_union(left, gone);
            assert(left.union(gone) =~= before.dom());
        }
        assert forall|k: K, j: K|
            #![trigger before.contains_key(k), after.contains_key(j)]
            before.contains_key(k) && now < before[k].1 && !after.contains_key(k)
                && after.contains_key(j) && j != key implies now < after[j].1 by {
            assert(gone.contains(k));
            if now >= before[j].1 {
                assert(!gone.contains(j));
                assert(before.contains_key(j));
            }
        }
    }
}

/// That an eviction took some keys out and put one in.
pub open spec fn took_out<K>(
    before: Map<K, (Seq<char>, u128)>,
    after: Map<K, (Seq<char>, u128)>,
    key: K,
    gone: Set<K>,
) -> bool {
    &&& gone.finite()
    &&& gone.subset_of(before.dom())
    &&& after.dom() =~= before.dom().difference(gone).insert(key)
}

/// How many entries a full table drops for a new one: a tenth of its capacity,
/// and one of a table that holds fewer than ten; as many as there are where there
/// are fewer.
pub proof fn law_a_tenth_is_dropped<K>(
    before: Map<K, (Seq<char>, u128)>,
    max_entries: nat,
    now: u128,
    ttl: u128,
    key: K,
    value: Seq<char>,
    after: Map<K, (Seq<char>, u128)>,
)
    requires
        put_result(before, max_entries, now, ttl, key, value, after),
        before.dom().len() >= max_entries,
    ensures
        max_entries >= 10 ==> exists|gone: Set<K>| #[trigger]
            took_out(before, after, key, gone) && gone.len() == max_entries / 10,
        0 < max_entries < 10 ==> exists|gone: Set<K>| #[trigger]
            took_out(before, after, key, gone) && gone.len() == 1,
{
    let gone = choose|gone: Set<K>| #[trigger]
        evictable(before, eviction_quota(max_entries), now, gone) && after == before.remove_keys(
            gone,
        ).insert(key, (value, (now + ttl) as u128));
    assert(took_out(before, after, key, gone));
}

/// What one entry comes to in an eviction: it goes exactly while entries are still
/// owed and it is one that may go, which is any of them once the expired ones do
/// not suffice.
pub proof fn law_one_eviction(s: &mut Evictor, expires_at: u128, kept: bool, max_entries: usize, n: usize)
    requires
        call_ensures(Evictor::keep, (s, expires_at), kept),
        call_ensures(eviction_size, (max_entries,), n),
    ensures
        kept <==> old(s).evicted >= old(s).quota || (old(s).only_expired && old(s).now < expires_at),
        kept ==> final(s).evicted == old(s).evicted,
        !kept ==> final(s).evicted == old(s).evicted + 1,
        final(s).quota == old(s).quota,
        final(s).only_expired == old(s).only_expired,
        final(s).now == old(s).now,
        max_entries == 0 ==> n == 0,
        0 < max_entries < 10 ==> n == 1,
        max_entries >= 10 ==> 10 * n <= max_entries < 10 * n + 10,
{
}

} // verus!
