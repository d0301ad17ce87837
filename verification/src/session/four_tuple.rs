//! Persistence by connection: source and destination address together.

use dashmap::DashMap;
use vstd::prelude::*;
use crate::net::{FourTuple, SocketAddr};
use crate::store::{law_full_table_drops, law_put_keeps_capacity, law_put_keeps_others, law_put_then_get, 
    pair_entries, Evictor, eviction_quota, evictable, fresh, put_result, lemma_sweep, lemma_two_passes, AddrKey, PairKey,
};

verus! {

/// Default lifetime of a session: one hour, in nanoseconds.
pub const DEFAULT_TTL: u128 = 3_600_000_000_000;

/// Default capacity.
pub const DEFAULT_MAX_ENTRIES: usize = 500_000;

/// A socket address as integers.
pub open spec fn addr_key(a: SocketAddr) -> AddrKey {
    match a {
        SocketAddr::V4 { octets, port } => (
            false,
            (octets@[0] as u16, octets@[1] as u16, octets@[2] as u16, octets@[3] as u16, 0u16, 0u16, 0u16, 0u16),
            port,
            0u32,
            0u32,
        ),
        SocketAddr::V6 { groups, port, flowinfo, scope_id } => (
            true,
            (groups@[0], groups@[1], groups@[2], groups@[3], groups@[4], groups@[5], groups@[6], groups@[7]),
            port,
            flowinfo,
            scope_id,
        ),
    }
}

/// The two ends of a connection as integers.
pub open spec fn pair_key(t: FourTuple) -> PairKey {
    (addr_key(t.src_addr), addr_key(t.dst_addr))
}

fn addr_key_of(a: &SocketAddr) -> (k: AddrKey)
    ensures
        k == addr_key(*a),
{
    match a {
        SocketAddr::V4 { octets, port } => (
            false,
            (octets[0] as u16, octets[1] as u16, octets[2] as u16, octets[3] as u16, 0u16, 0u16, 0u16, 0u16),
            *port,
            0u32,
            0u32,
        ),
        SocketAddr::V6 { groups, port, flowinfo, scope_id } => (
            true,
            (groups[0], groups[1], groups[2], groups[3], groups[4], groups[5], groups[6], groups[7]),
            *port,
            *flowinfo,
            *scope_id,
        ),
    }
}

fn pair_key_of(t: &FourTuple) -> (k: PairKey)
    ensures
        k == pair_key(*t),
{
    (addr_key_of(&t.src_addr), addr_key_of(&t.dst_addr))
}

/// Session persistence by connection.
/// Times are nanoseconds on one monotonic clock.
pub struct FourTuplePersistence {
    store: DashMap<PairKey, (String, u128)>,
    ttl: u128,
    max_entries: usize,
}

impl FourTuplePersistence {
    /// The sessions: node id and expiry.
    pub closed spec fn entries(&self) -> Map<PairKey, (Seq<char>, u128)> {
        pair_entries(self.store)
    }

    /// The lifetime of a session.
    pub closed spec fn lifetime(&self) -> u128 {
        self.ttl
    }

    /// The capacity.
    pub closed spec fn capacity(&self) -> usize {
        self.max_entries
    }

    /// The store holds finitely many sessions.
    pub open spec fn wf(&self) -> bool {
        self.entries().dom().finite()
    }

    /// An empty store with the default lifetime and capacity.
    pub fn new() -> (r: Self)
        ensures
            r.wf(),
            r.entries() == Map::<PairKey, (Seq<char>, u128)>::empty(),
            r.lifetime() == DEFAULT_TTL,
            r.capacity() == DEFAULT_MAX_ENTRIES,
    {
        Self::with_config(DEFAULT_TTL, DEFAULT_MAX_ENTRIES)
    }

    /// An empty store.
    pub fn with_config(ttl: u128, max_entries: usize) -> (r: Self)
        ensures
            r.wf(),
            r.entries() == Map::<PairKey, (Seq<char>, u128)>::empty(),
            r.lifetime() == ttl,
            r.capacity() == max_entries,
    {
        let r = FourTuplePersistence { store: crate::store::new_pairs(), ttl, max_entries };
        assert(r.entries() =~= Map::<PairKey, (Seq<char>, u128)>::empty());
        r
    }

    /// The node that a connection goes back to. A session that has expired is
    /// dropped.
    pub fn get(&mut self, key: &FourTuple, now: u128) -> (r: Option<String>)
        requires
            old(self).wf(),
        ensures
            final(self).wf(),
            final(self).lifetime() == old(self).lifetime(),
            final(self).capacity() == old(self).capacity(),
            match r {
                Some(id) => fresh(old(self).entries(), pair_key(*key), now) == Some(id@),
                None => fresh(old(self).entries(), pair_key(*key), now) is None,
            },
            final(self).entries() == if r is Some {
                old(self).entries()
            } else {
                old(self).entries().remove(pair_key(*key))
            },
    {
        let k = pair_key_of(key);
        match crate::store::pairs_get(&self.store, k) {
            None => {
                assert(self.entries() =~= old(self).entries().remove(pair_key(*key)));
                None
            },
            Some(e) => {
                if now >= e.1 {
                    crate::store::pairs_remove(&mut self.store, k);
                    None
                } else {
                    Some(e.0)
                }
            },
        }
    }

    /// Makes room for one session: a tenth of the capacity goes, at least
    /// one session, expired ones first.
    fn evict(&mut self, now: u128)
        requires
            old(self).wf(),
        ensures
            final(self).wf(),
            final(self).lifetime() == old(self).lifetime(),
            final(self).capacity() == old(self).capacity(),
            exists|gone: Set<PairKey>| #[trigger]
                evictable(old(self).entries(), eviction_quota(old(self).capacity() as nat), now, gone)
                    && final(self).entries() == old(self).entries().remove_keys(gone),
    {
        let ghost m = self.entries();
        let quota: usize = crate::store::eviction_size(self.max_entries);
        let mut first = Evictor { quota, evicted: 0, only_expired: true, now };
        let ghost first0 = first;
        crate::store::pairs_retain(&mut self.store, &mut first);
        let ghost mid = self.entries();
        let ghost gone1: Set<PairKey>;
        proof {
            let order = choose|order: Seq<PairKey>| #[trigger]
                crate::store::visits(order, m.dom()) && mid == crate::store::swept(m, order, first0)
                    && first == crate::store::pass_after(m, order, first0);
            gone1 = lemma_sweep(m, order, first0);
        }
        if first.evicted < quota {
            let mut second = Evictor {
                quota: quota - first.evicted,
                evicted: 0,
                only_expired: false,
                now,
            };
            let ghost second0 = second;
            crate::store::pairs_retain(&mut self.store, &mut second);
            proof {
                let after = self.entries();
                let order = choose|order: Seq<PairKey>| #[trigger]
                    crate::store::visits(order, mid.dom()) && after == crate::store::swept(
                        mid,
                        order,
                        second0,
                    ) && second == crate::store::pass_after(mid, order, second0);
                let gone2 = lemma_sweep(mid, order, second0);
                lemma_two_passes(m, first0, mid, first, gone1, second0, after, second, gone2);
                assert(evictable(m, eviction_quota(old(self).capacity() as nat), now, gone1.union(gone2)));
                assert(after.dom() =~= m.dom().difference(gone1.union(gone2)));
            }
        } else {
            proof {
                let none = Set::<PairKey>::empty();
                lemma_two_passes(m, first0, mid, first, gone1, first0, mid, first0, none);
                assert(evictable(m, eviction_quota(old(self).capacity() as nat), now, gone1.union(none)));
                assert(mid.dom() =~= m.dom().difference(gone1.union(none)));
            }
        }
    }

    /// Remembers the node of a connection, making room first when the store is
    /// full.
    pub fn put(&mut self, key: &FourTuple, value: String, now: u128)
        requires
            old(self).wf(),
            now + old(self).lifetime() <= u128::MAX,
        ensures
            final(self).wf(),
            final(self).lifetime() == old(self).lifetime(),
            final(self).capacity() == old(self).capacity(),
            put_result(
                old(self).entries(),
                old(self).capacity() as nat,
                now,
                old(self).lifetime(),
                pair_key(*key),
                value@,
                final(self).entries(),
            ),
    {
        let k = pair_key_of(key);
        if crate::store::pairs_len(&self.store) >= self.max_entries {
            self.evict(now);
        }
        let ghost room = self.entries();
        let expires_at: u128 = now + self.ttl;
        crate::store::pairs_insert(&mut self.store, k, value, expires_at);
        assert(self.entries().dom() =~= room.dom().insert(pair_key(*key)));
    }

    /// Forgets the node of a connection.
    pub fn remove(&mut self, key: &FourTuple)
        requires
            old(self).wf(),
        ensures
            final(self).wf(),
            final(self).lifetime() == old(self).lifetime(),
            final(self).capacity() == old(self).capacity(),
            final(self).entries() == old(self).entries().remove(pair_key(*key)),
    {
        let k = pair_key_of(key);
        crate::store::pairs_remove(&mut self.store, k);
    }

    /// How many sessions are stored, expired ones included.
    pub fn len(&self) -> (n: usize)
        ensures
            n == self.entries().dom().len(),
    {
        crate::store::pairs_len(&self.store)
    }

    /// Whether no session is stored.
    pub fn is_empty(&self) -> (r: bool)
        ensures
            r == (self.entries().dom().len() == 0),
    {
        crate::store::pairs_len(&self.store) == 0
    }
}

impl Default for FourTuplePersistence {
    fn default() -> (r: Self)
        ensures
            r.wf(),
            r.entries() == Map::<PairKey, (Seq<char>, u128)>::empty(),
            r.lifetime() == DEFAULT_TTL,
            r.capacity() == DEFAULT_MAX_ENTRIES,
    {
        Self::new()
    }
}

/// Connections share a session only when both ends are the same.
pub proof fn law_connections(a: FourTuple, b: FourTuple)
    ensures
        pair_key(a) == pair_key(b) <==> a == b,
{
    lemma_addr_key(a.src_addr, b.src_addr);
    lemma_addr_key(a.dst_addr, b.dst_addr);
}

proof fn lemma_addr_key(a: SocketAddr, b: SocketAddr)
    ensures
        addr_key(a) == addr_key(b) <==> a == b,
{
    if addr_key(a) == addr_key(b) {
        match (a, b) {
            (SocketAddr::V4 { octets: x, .. }, SocketAddr::V4 { octets: y, .. }) => {
                assert(x@ =~= y@);
                assert(x =~= y);
            },
            (SocketAddr::V6 { groups: x, .. }, SocketAddr::V6 { groups: y, .. }) => {
                assert(x@ =~= y@);
                assert(x =~= y);
            },
            _ => {},
        }
    }
}

/// Whether two connections have the same ends.
pub open spec fn same_connection(a: FourTuple, b: FourTuple) -> bool {
    a.src_addr == b.src_addr && a.dst_addr == b.dst_addr
}

/// A client comes back to its node. What was stored for a client is what a
/// lookup finds, for every client of the same connection, until its lifetime is over;
/// then it finds nothing. The lifetime starts with the last store. A client of
/// another connection does not see it, and finds what it found before as long as the
/// table is not full.
pub proof fn law_session_is_kept(
    s: &mut FourTuplePersistence,
    a: FourTuple,
    value: String,
    put_at: u128,
    t: &mut FourTuplePersistence,
    b: FourTuple,
    now: u128,
    r: Option<String>,
)
    requires
        call_ensures(FourTuplePersistence::put, (s, &a, value, put_at), ()),
        put_at + old(s).lifetime() <= u128::MAX,
        *old(t) == *final(s),
        call_ensures(FourTuplePersistence::get, (t, &b, now), r),
    ensures
        same_connection(a, b) && now < put_at + old(s).lifetime() ==> (r matches Some(v) && v@ == value@),
        same_connection(a, b) && now >= put_at + old(s).lifetime() ==> r is None,
        !same_connection(a, b) && old(s).entries().dom().len() < old(s).capacity() ==> match r {
            Some(v) => old(s).entries().contains_key(pair_key(b)) && old(s).entries()[pair_key(b)].0 == v@
                && now < old(s).entries()[pair_key(b)].1,
            None => !old(s).entries().contains_key(pair_key(b)) || now >= old(s).entries()[pair_key(b)].1,
        },
        final(t).lifetime() == old(s).lifetime(),
        final(t).capacity() == old(s).capacity(),
{
    law_connections(a, b);
    let before = old(s).entries();
    let after = final(s).entries();
    law_put_then_get(
        before,
        old(s).capacity() as nat,
        put_at,
        old(s).lifetime(),
        pair_key(a),
        value@,
        after,
        now,
    );
    if !same_connection(a, b) && before.dom().len() < old(s).capacity() {
        law_put_keeps_others(
            before,
            old(s).capacity() as nat,
            put_at,
            old(s).lifetime(),
            pair_key(a),
            value@,
            after,
            pair_key(b),
            now,
        );
    }
}

/// A table with room for anything keeps its capacity. When it is full it drops
/// entries that are over before any that is not, and no more than a tenth of its
/// capacity, or one where that is less than one.
pub proof fn law_table_keeps_its_capacity(
    s: &mut FourTuplePersistence,
    a: FourTuple,
    value: String,
    now: u128,
    n: usize,
)
    requires
        call_ensures(FourTuplePersistence::put, (s, &a, value, now), ()),
        old(s).wf(),
        old(s).entries().dom().len() <= old(s).capacity(),
        old(s).capacity() >= 1,
        call_ensures(FourTuplePersistence::len, (final(s),), n),
    ensures
        n <= old(s).capacity(),
        old(s).entries().dom().len() <= n + old(s).capacity() / 10 + 1,
        old(s).entries().dom().len() < old(s).capacity() ==> forall|k: PairKey| #[trigger]
            old(s).entries().contains_key(k) ==> final(s).entries().contains_key(k),
        forall|k: PairKey, j: PairKey|
            #![trigger old(s).entries().contains_key(k), final(s).entries().contains_key(j)]
            old(s).entries().contains_key(k) && now < old(s).entries()[k].1 && !final(s).entries().contains_key(k) && final(s).entries().contains_key(j) && j != pair_key(a)
                ==> now < final(s).entries()[j].1,
{
    let before = old(s).entries();
    let after = final(s).entries();
    let cap = old(s).capacity() as nat;
    law_put_keeps_capacity(before, cap, now, old(s).lifetime(), pair_key(a), value@, after);
    law_full_table_drops(before, cap, now, old(s).lifetime(), pair_key(a), value@, after);
}

/// What was removed is not found any more.
pub proof fn law_removed_session_is_gone(
    s: &mut FourTuplePersistence,
    a: FourTuple,
    t: &mut FourTuplePersistence,
    b: FourTuple,
    now: u128,
    r: Option<String>,
)
    requires
        call_ensures(FourTuplePersistence::remove, (s, &a), ()),
        *old(t) == *final(s),
        call_ensures(FourTuplePersistence::get, (t, &b, now), r),
    ensures
        same_connection(a, b) ==> r is None,
        !same_connection(a, b) ==> match r {
            Some(v) => old(s).entries().contains_key(pair_key(b)) && old(s).entries()[pair_key(b)].0 == v@
                && now < old(s).entries()[pair_key(b)].1,
            None => !old(s).entries().contains_key(pair_key(b)) || now >= old(s).entries()[pair_key(b)].1,
        },
{
    law_connections(a, b);
}

/// A table by default keeps a session for an hour.
pub proof fn law_default_table(r: FourTuplePersistence, n: usize)
    requires
        call_ensures(FourTuplePersistence::new, (), r),
        call_ensures(FourTuplePersistence::len, (&r,), n),
    ensures
        r.lifetime() == 60 * 60 * 1_000_000_000,
        r.capacity() == 500_000,
        n == 0,
{
}

/// An entry that is asked for too late is forgotten: whoever asks again, at any
/// time, gets none. Asking changes nothing of any other entry, and nothing of one
/// that is still good.
pub proof fn law_late_entry_is_forgotten(
    s: &mut FourTuplePersistence,
    a: FourTuple,
    now: u128,
    r: Option<String>,
    t: &mut FourTuplePersistence,
    b: FourTuple,
    again: u128,
    x: Option<String>,
    u: &mut FourTuplePersistence,
    y: Option<String>,
)
    requires
        call_ensures(FourTuplePersistence::get, (s, &a, now), r),
        *old(t) == *final(s),
        call_ensures(FourTuplePersistence::get, (t, &b, again), x),
        *old(u) == *old(s),
        call_ensures(FourTuplePersistence::get, (u, &b, again), y),
    ensures
        same_connection(a, b) && r is None ==> x is None,
        !same_connection(a, b) || r is Some ==> (x is Some <==> y is Some) && (x is Some ==> x->0@ == y->0@),
{
    law_connections(a, b);
}

} // verus!
