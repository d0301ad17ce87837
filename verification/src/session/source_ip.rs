//! Persistence by source address: clients of one subnet (/24 for IPv4, /48 for
//! IPv6) go back to the same node.

use dashmap::DashMap;
use vstd::prelude::*;
use crate::net::IpAddr;
use crate::text::{decimal, hexadecimal, push_decimal, push_hexadecimal};
use crate::store::{law_full_table_drops, law_put_keeps_capacity, law_put_keeps_others, law_put_then_get, 
    subnet_entries, Evictor, eviction_quota, evictable, fresh, put_result, lemma_sweep, lemma_two_passes,
};

verus! {

/// Default lifetime of a session: one hour, in nanoseconds.
pub const DEFAULT_TTL: u128 = 3_600_000_000_000;

/// Default capacity.
pub const DEFAULT_MAX_ENTRIES: usize = 100_000;

/// The subnet of an address, as text.
pub open spec fn subnet(ip: IpAddr) -> Seq<char> {
    match ip {
        IpAddr::V4(o) => decimal(o@[0] as nat) + "."@ + decimal(o@[1] as nat) + "."@ + decimal(
            o@[2] as nat,
        ) + ".0/24"@,
        IpAddr::V6(s) => hexadecimal(s@[0] as nat) + ":"@ + hexadecimal(s@[1] as nat) + ":"@
            + hexadecimal(s@[2] as nat) + "::/48"@,
    }
}

/// The subnet of an address, as text.
pub fn mask_ip(ip: &IpAddr) -> (out: String)
    ensures
        out@ == subnet(*ip),
{
    let mut out = String::new();
    match ip {
        IpAddr::V4(o) => {
            push_decimal(&mut out, o[0] as u64);
            out.append(".");
            push_decimal(&mut out, o[1] as u64);
            out.append(".");
            push_decimal(&mut out, o[2] as u64);
            out.append(".0/24");
            assert(Seq::<char>::empty() + decimal(o@[0] as nat) =~= decimal(o@[0] as nat));
        },
        IpAddr::V6(s) => {
            push_hexadecimal(&mut out, s[0] as u64);
            out.append(":");
            push_hexadecimal(&mut out, s[1] as u64);
            out.append(":");
            push_hexadecimal(&mut out, s[2] as u64);
            out.append("::/48");
            assert(Seq::<char>::empty() + hexadecimal(s@[0] as nat) =~= hexadecimal(s@[0] as nat));
        },
    }
    out
}

/// Session persistence by source subnet.
/// Times are nanoseconds on one monotonic clock.
pub struct SourceIpPersistence {
    store: DashMap<String, (String, u128)>,
    ttl: u128,
    max_entries: usize,
}

impl SourceIpPersistence {
    /// The sessions: node id and expiry.
    pub closed spec fn entries(&self) -> Map<Seq<char>, (Seq<char>, u128)> {
        subnet_entries(self.store)
    }

    /// The lifetime of a session.
    pub closed spec fn lifetime(&self) -> u128 {
        self.ttl
    }

    /// The capacity.
    pub closed spec fn capacity(&self) -> usize {
        self.max_entries
    }

    /// The store holds finitely many sessions.
    pub open spec fn wf(&self) -> bool {
        self.entries().dom().finite()
    }

    /// An empty store with the default lifetime and capacity.
    pub fn new() -> (r: Self)
        ensures
            r.wf(),
            r.entries() == Map::<Seq<char>, (Seq<char>, u128)>::empty(),
            r.lifetime() == DEFAULT_TTL,
            r.capacity() == DEFAULT_MAX_ENTRIES,
    {
        Self::with_config(DEFAULT_TTL, DEFAULT_MAX_ENTRIES)
    }

    /// An empty store.
    pub fn with_config(ttl: u128, max_entries: usize) -> (r: Self)
        ensures
            r.wf(),
            r.entries() == Map::<Seq<char>, (Seq<char>, u128)>::empty(),
            r.lifetime() == ttl,
            r.capacity() == max_entries,
    {
        let r = SourceIpPersistence { store: crate::store::new_subnets(), ttl, max_entries };
        assert(r.entries() =~= Map::<Seq<char>, (Seq<char>, u128)>::empty());
        r
    }

    /// The node that a client goes back to. A session that has expired is
    /// dropped.
    pub fn get(&mut self, key: &IpAddr, now: u128) -> (r: Option<String>)
        requires
            old(self).wf(),
        ensures
            final(self).wf(),
            final(self).lifetime() == old(self).lifetime(),
            final(self).capacity() == old(self).capacity(),
            match r {
                Some(id) => fresh(old(self).entries(), subnet(*key), now) == Some(id@),
                None => fresh(old(self).entries(), subnet(*key), now) is None,
            },
            final(self).entries() == if r is Some {
                old(self).entries()
            } else {
                old(self).entries().remove(subnet(*key))
            },
    {
        let k = mask_ip(key);
        match crate::store::subnets_get(&self.store, &k) {
            None => {
                assert(self.entries() =~= old(self).entries().remove(subnet(*key)));
                None
            },
            Some(e) => {
                if now >= e.1 {
                    crate::store::subnets_remove(&mut self.store, &k);
                    None
                } else {
                    Some(e.0)
                }
            },
        }
    }

    /// Makes room for one session: a tenth of the capacity goes, at least
    /// one session, expired ones first.
    fn evict(&mut self, now: u128)
        requires
            old(self).wf(),
        ensures
            final(self).wf(),
            final(self).lifetime() == old(self).lifetime(),
            final(self).capacity() == old(self).capacity(),
            exists|gone: Set<Seq<char>>| #[trigger]
                evictable(old(self).entries(), eviction_quota(old(self).capacity() as nat), now, gone)
                    && final(self).entries() == old(self).entries().remove_keys(gone),
    {
        let ghost m = self.entries();
        let quota: usize = crate::store::eviction_size(self.max_entries);
        let mut first = Evictor { quota, evicted: 0, only_expired: true, now };
        let ghost first0 = first;
        crate::store::subnets_retain(&mut self.store, &mut first);
        let ghost mid = self.entries();
        let ghost gone1: Set<Seq<char>>;
        proof {
            let order = choose|order: Seq<Seq<char>>| #[trigger]
                crate::store::visits(order, m.dom()) && mid == crate::store::swept(m, order, first0)
                    && first == crate::store::pass_after(m, order, first0);
            gone1 = lemma_sweep(m, order, first0);
        }
        if first.evicted < quota {
            let mut second = Evictor {
                quota: quota - first.evicted,
                evicted: 0,
                only_expired: false,
                now,
            };
            let ghost second0 = second;
            crate::store::subnets_retain(&mut self.store, &mut second);
            proof {
                let after = self.entries();
                let order = choose|order: Seq<Seq<char>>| #[trigger]
                    crate::store::visits(order, mid.dom()) && after == crate::store::swept(
                        mid,
                        order,
                        second0,
                    ) && second == crate::store::pass_after(mid, order, second0);
                let gone2 = lemma_sweep(mid, order, second0);
                lemma_two_passes(m, first0, mid, first, gone1, second0, after, second, gone2);
                assert(evictable(m, eviction_quota(old(self).capacity() as nat), now, gone1.union(gone2)));
                assert(after.dom() =~= m.dom().difference(gone1.union(gone2)));
            }
        } else {
            proof {
                let none = Set::<Seq<char>>::empty();
                lemma_two_passes(m, first0, mid, first, gone1, first0, mid, first0, none);
                assert(evictable(m, eviction_quota(old(self).capacity() as nat), now, gone1.union(none)));
                assert(mid.dom() =~= m.dom().difference(gone1.union(none)));
            }
        }
    }

    /// Remembers the node of a client, making room first when the store is
    /// full.
    pub fn put(&mut self, key: &IpAddr, value: String, now: u128)
        requires
            old(self).wf(),
            now + old(self).lifetime() <= u128::MAX,
        ensures
            final(self).wf(),
            final(self).lifetime() == old(self).lifetime(),
            final(self).capacity() == old(self).capacity(),
            put_result(
                old(self).entries(),
                old(self).capacity() as nat,
                now,
                old(self).lifetime(),
                subnet(*key),
                value@,
                final(self).entries(),
            ),
    {
        let k = mask_ip(key);
        if crate::store::subnets_len(&self.store) >= self.max_entries {
            self.evict(now);
        }
        let ghost room = self.entries();
        let expires_at: u128 = now + self.ttl;
        crate::store::subnets_insert(&mut self.store, k, value, expires_at);
        assert(self.entries().dom() =~= room.dom().insert(subnet(*key)));
    }

    /// Forgets the node of a client.
    pub fn remove(&mut self, key: &IpAddr)
        requires
            old(self).wf(),
        ensures
            final(self).wf(),
            final(self).lifetime() == old(self).lifetime(),
            final(self).capacity() == old(self).capacity(),
            final(self).entries() == old(self).entries().remove(subnet(*key)),
    {
        let k = mask_ip(key);
        crate::store::subnets_remove(&mut self.store, &k);
    }

    /// How many sessions are stored, expired ones included.
    pub fn len(&self) -> (n: usize)
        ensures
            n == self.entries().dom().len(),
    {
        crate::store::subnets_len(&self.store)
    }

    /// Whether no session is stored.
    pub fn is_empty(&self) -> (r: bool)
        ensures
            r == (self.entries().dom().len() == 0),
    {
        crate::store::subnets_len(&self.store) == 0
    }
}

impl Default for SourceIpPersistence {
    fn default() -> (r: Self)
        ensures
            r.wf(),
            r.entries() == Map::<Seq<char>, (Seq<char>, u128)>::empty(),
            r.lifetime() == DEFAULT_TTL,
            r.capacity() == DEFAULT_MAX_ENTRIES,
    {
        Self::new()
    }
}

/// Clients of one subnet share a session, and those of different subnets
/// never do.
pub proof fn law_subnets(a: IpAddr, b: IpAddr)
    ensures
        subnet(a) == subnet(b) <==> match (a, b) {
            (IpAddr::V4(x), IpAddr::V4(y)) => x@[0] == y@[0] && x@[1] == y@[1] && x@[2] == y@[2],
            (IpAddr::V6(x), IpAddr::V6(y)) => x@[0] == y@[0] && x@[1] == y@[1] && x@[2] == y@[2],
            _ => false,
        },
{
    reveal_strlit(".");
    reveal_strlit(":");
    reveal_strlit(".0/24");
    reveal_strlit("::/48");
    let dot = "."@;
    let colon = ":"@;
    assert(dot =~= seq!['.']);
    assert(colon =~= seq![':']);
    match (a, b) {
        (IpAddr::V4(x), IpAddr::V4(y)) => {
            if subnet(a) == subnet(b) {
                let ta = ".0/24"@;
                crate::text::lemma_digits(x@[0] as nat, 10);
                crate::text::lemma_digits(x@[1] as nat, 10);
                crate::text::lemma_digits(x@[2] as nat, 10);
                crate::text::lemma_digits(y@[0] as nat, 10);
                crate::text::lemma_digits(y@[1] as nat, 10);
                crate::text::lemma_digits(y@[2] as nat, 10);
                lemma_three_fields(
                    decimal(x@[0] as nat), decimal(x@[1] as nat), decimal(x@[2] as nat),
                    decimal(y@[0] as nat), decimal(y@[1] as nat), decimal(y@[2] as nat),
                    '.', dot, ta,
                );
            }
        },
        (IpAddr::V6(x), IpAddr::V6(y)) => {
            if subnet(a) == subnet(b) {
                let ta = "::/48"@;
                crate::text::lemma_digits(x@[0] as nat, 16);
                crate::text::lemma_digits(x@[1] as nat, 16);
                crate::text::lemma_digits(x@[2] as nat, 16);
                crate::text::lemma_digits(y@[0] as nat, 16);
                crate::text::lemma_digits(y@[1] as nat, 16);
                crate::text::lemma_digits(y@[2] as nat, 16);
                lemma_three_fields(
                    hexadecimal(x@[0] as nat), hexadecimal(x@[1] as nat), hexadecimal(x@[2] as nat),
                    hexadecimal(y@[0] as nat), hexadecimal(y@[1] as nat), hexadecimal(y@[2] as nat),
                    ':', colon, ta,
                );
            }
        },
        (IpAddr::V4(x), IpAddr::V6(y)) => {
            lemma_families(x, y);
        },
        (IpAddr::V6(x), IpAddr::V4(y)) => {
            lemma_families(y, x);
        },
    }
}

/// Three fields without the separator are determined by their joined text.
proof fn lemma_three_fields(
    x0: Seq<char>, x1: Seq<char>, x2: Seq<char>,
    y0: Seq<char>, y1: Seq<char>, y2: Seq<char>,
    c: char, sep: Seq<char>, tail: Seq<char>,
)
    requires
        sep == seq![c],
        tail.len() > 0,
        tail[0] == c,
        !x0.contains(c), !x1.contains(c), !x2.contains(c),
        !y0.contains(c), !y1.contains(c), !y2.contains(c),
        x0 + sep + x1 + sep + x2 + tail == y0 + sep + y1 + sep + y2 + tail,
    ensures
        x0 == y0,
        x1 == y1,
        x2 == y2,
{
    let rx1 = x2 + tail;
    let ry1 = y2 + tail;
    let rx0 = x1 + sep + x2 + tail;
    let ry0 = y1 + sep + y2 + tail;
    assert(x0 + sep + x1 + sep + x2 + tail =~= x0 + sep + rx0);
    assert(y0 + sep + y1 + sep + y2 + tail =~= y0 + sep + ry0);
    crate::text::lemma_first_field(x0, y0, c, rx0, ry0);
    assert(rx0 =~= x1 + sep + rx1);
    assert(ry0 =~= y1 + sep + ry1);
    crate::text::lemma_first_field(x1, y1, c, rx1, ry1);
    assert(x2 + tail =~= x2 + sep + tail.skip(1));
    assert(y2 + tail =~= y2 + sep + tail.skip(1));
    crate::text::lemma_first_field(x2, y2, c, tail.skip(1), tail.skip(1));
}

/// The subnet texts of the two address families differ.
proof fn lemma_families(x: [u8; 4], y: [u16; 8])
    ensures
        subnet(IpAddr::V4(x)) != subnet(IpAddr::V6(y)),
{
    reveal_strlit(".");
    reveal_strlit(":");
    reveal_strlit(".0/24");
    reveal_strlit("::/48");
    let four = subnet(IpAddr::V4(x));
    let six = subnet(IpAddr::V6(y));
    assert(six[six.len() - 1] == '8');
    assert(four[four.len() - 1] == '4');
}

/// Whether two addresses are of one network: IPv4 addresses that differ in the
/// last octet alone, IPv6 addresses that agree in the first three groups.
pub open spec fn same_network(a: IpAddr, b: IpAddr) -> bool {
    match (a, b) {
        (IpAddr::V4(x), IpAddr::V4(y)) => x@[0] == y@[0] && x@[1] == y@[1] && x@[2] == y@[2],
        (IpAddr::V6(x), IpAddr::V6(y)) => x@[0] == y@[0] && x@[1] == y@[1] && x@[2] == y@[2],
        _ => false,
    }
}

/// A client comes back to its node. What was stored for a client is what a
/// lookup finds, for every client of the same network, until its lifetime is over;
/// then it finds nothing. The lifetime starts with the last store. A client of
/// another network does not see it, and finds what it found before as long as the
/// table is not full.
pub proof fn law_session_is_kept(
    s: &mut SourceIpPersistence,
    a: IpAddr,
    value: String,
    put_at: u128,
    t: &mut SourceIpPersistence,
    b: IpAddr,
    now: u128,
    r: Option<String>,
)
    requires
        call_ensures(SourceIpPersistence::put, (s, &a, value, put_at), ()),
        put_at + old(s).lifetime() <= u128::MAX,
        *old(t) == *final(s),
        call_ensures(SourceIpPersistence::get, (t, &b, now), r),
    ensures
        same_network(a, b) && now < put_at + old(s).lifetime() ==> (r matches Some(v) && v@ == value@),
        same_network(a, b) && now >= put_at + old(s).lifetime() ==> r is None,
        !same_network(a, b) && old(s).entries().dom().len() < old(s).capacity() ==> match r {
            Some(v) => old(s).entries().contains_key(subnet(b)) && old(s).entries()[subnet(b)].0 == v@
                && now < old(s).entries()[subnet(b)].1,
            None => !old(s).entries().contains_key(subnet(b)) || now >= old(s).entries()[subnet(b)].1,
        },
        final(t).lifetime() == old(s).lifetime(),
        final(t).capacity() == old(s).capacity(),
{
    law_subnets(a, b);
    let before = old(s).entries();
    let after = final(s).entries();
    law_put_then_get(
        before,
        old(s).capacity() as nat,
        put_at,
        old(s).lifetime(),
        subnet(a),
        value@,
        after,
        now,
    );
    if !same_network(a, b) && before.dom().len() < old(s).capacity() {
        law_put_keeps_others(
            before,
            old(s).capacity() as nat,
            put_at,
            old(s).lifetime(),
            subnet(a),
            value@,
            after,
            subnet(b),
            now,
        );
    }
}

/// A table with room for anything keeps its capacity. When it is full it drops
/// entries that are over before any that is not, and no more than a tenth of its
/// capacity, or one where that is less than one.
pub proof fn law_table_keeps_its_capacity(
    s: &mut SourceIpPersistence,
    a: IpAddr,
    value: String,
    now: u128,
    n: usize,
)
    requires
        call_ensures(SourceIpPersistence::put, (s, &a, value, now), ()),
        old(s).wf(),
        old(s).entries().dom().len() <= old(s).capacity(),
        old(s).capacity() >= 1,
        call_ensures(SourceIpPersistence::len, (final(s),), n),
    ensures
        n <= old(s).capacity(),
        old(s).entries().dom().len() <= n + old(s).capacity() / 10 + 1,
        old(s).entries().dom().len() < old(s).capacity() ==> forall|k: Seq<char>| #[trigger]
            old(s).entries().contains_key(k) ==> final(s).entries().contains_key(k),
        forall|k: Seq<char>, j: Seq<char>|
            #![trigger old(s).entries().contains_key(k), final(s).entries().contains_key(j)]
            old(s).entries().contains_key(k) && now < old(s).entries()[k].1 && !final(s).entries().contains_key(k) && final(s).entries().contains_key(j) && j != subnet(a)
                ==> now < final(s).entries()[j].1,
{
    let before = old(s).entries();
    let after = final(s).entries();
    let cap = old(s).capacity() as nat;
    law_put_keeps_capacity(before, cap, now, old(s).lifetime(), subnet(a), value@, after);
    law_full_table_drops(before, cap, now, old(s).lifetime(), subnet(a), value@, after);
}

/// What was removed is not found any more.
pub proof fn law_removed_session_is_gone(
    s: &mut SourceIpPersistence,
    a: IpAddr,
    t: &mut SourceIpPersistence,
    b: IpAddr,
    now: u128,
    r: Option<String>,
)
    requires
        call_ensures(SourceIpPersistence::remove, (s, &a), ()),
        *old(t) == *final(s),
        call_ensures(SourceIpPersistence::get, (t, &b, now), r),
    ensures
        same_network(a, b) ==> r is None,
        !same_network(a, b) ==> match r {
            Some(v) => old(s).entries().contains_key(subnet(b)) && old(s).entries()[subnet(b)].0 == v@
                && now < old(s).entries()[subnet(b)].1,
            None => !old(s).entries().contains_key(subnet(b)) || now >= old(s).entries()[subnet(b)].1,
        },
{
    law_subnets(a, b);
}

/// A table by default keeps a session for an hour.
pub proof fn law_default_table(r: SourceIpPersistence, n: usize)
    requires
        call_ensures(SourceIpPersistence::new, (), r),
        call_ensures(SourceIpPersistence::len, (&r,), n),
    ensures
        r.lifetime() == 60 * 60 * 1_000_000_000,
        r.capacity() == 100_000,
        n == 0,
{
}

/// The network of an address is written with the parts it keeps, the first three,
/// and how many bits that are.
pub proof fn law_network_is_written(ip: IpAddr, out: String)
    requires
        call_ensures(mask_ip, (&ip,), out),
    ensures
        ip matches IpAddr::V4(o) ==> out@ == decimal(o@[0] as nat) + "."@ + decimal(o@[1] as nat) + "."@
            + decimal(o@[2] as nat) + ".0/24"@,
        ip matches IpAddr::V6(s) ==> out@ == hexadecimal(s@[0] as nat) + ":"@ + hexadecimal(
            s@[1] as nat,
        ) + ":"@ + hexadecimal(s@[2] as nat) + "::/48"@,
{
}

/// An entry that is asked for too late is forgotten: whoever asks again, at any
/// time, gets none. Asking changes nothing of any other entry, and nothing of one
/// that is still good.
pub proof fn law_late_entry_is_forgotten(
    s: &mut SourceIpPersistence,
    a: IpAddr,
    now: u128,
    r: Option<String>,
    t: &mut SourceIpPersistence,
    b: IpAddr,
    again: u128,
    x: Option<String>,
    u: &mut SourceIpPersistence,
    y: Option<String>,
)
    requires
        call_ensures(SourceIpPersistence::get, (s, &a, now), r),
        *old(t) == *final(s),
        call_ensures(SourceIpPersistence::get, (t, &b, again), x),
        *old(u) == *old(s),
        call_ensures(SourceIpPersistence::get, (u, &b, again), y),
    ensures
        same_network(a, b) && r is None ==> x is None,
        !same_network(a, b) || r is Some ==> (x is Some <==> y is Some) && (x is Some ==> x->0@ == y->0@),
{
    law_subnets(a, b);
}

} // verus!
