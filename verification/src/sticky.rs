//! Cookie-based stickiness: a route cookie sends a client back to the node
//! that it got first. The cookie holds a hash of the node id, so it gives no
//! internal name away.

use vstd::hash_map::StringHashMap;
use vstd::prelude::*;
use vstd::utf8::encode_utf8;
use crate::headers::{header_texts, lower_names, lowercase, lowered};
use crate::node::{Error, HttpRequest, HttpResponse, LoadBalancer, Node, NodeState, online};
use crate::text::{chars_of, find, hex_bytes, hex_string, position, same, split, split_on, string_of, texts, trim, trimmed};

verus! {

/// The name of the route cookie.
pub const COOKIE_NAME: &'static str = "X-SBZ-EGW-RouteID";

/// The SHA-256 digest of a byte string.
pub uninterp spec fn sha256_digest(data: Seq<u8>) -> Seq<u8>;

/// `sha2::Sha256`, fed a byte string in one piece: the digest depends on the
/// bytes alone and is thirty-two bytes long. What it is for given bytes is
/// left unsaid.
#[verifier::external_body]
fn sha256(data: &[u8]) -> (r: Vec<u8>)
    ensures
        r@ == sha256_digest(data@),
        r@.len() == 32,
{
    let mut hasher = <sha2::Sha256 as sha2::Digest>::new();
    sha2::Digest::update(&mut hasher, data);
    sha2::Digest::finalize(hasher).to_vec()
}

/// The cookie value of a node: the hexadecimal SHA-256 digest of its id.
pub open spec fn route_id(id: Seq<char>) -> Seq<char> {
    hex_bytes(sha256_digest(encode_utf8(id)))
}

/// The cookie value of a node: sixty-four hexadecimal digits.
pub fn hash_node_id(node_id: &str) -> (r: String)
    ensures
        r@ == route_id(node_id@),
        r@.len() == 64,
{
    let digest = sha256(node_id.as_bytes());
    proof {
        lemma_hex_len(digest@);
    }
    hex_string(&digest)
}

proof fn lemma_hex_len(bytes: Seq<u8>)
    ensures
        hex_bytes(bytes).len() == 2 * bytes.len(),
        forall|i: int| 0 <= i < hex_bytes(bytes).len() ==> plain(#[trigger] hex_bytes(bytes)[i]),
    decreases bytes.len(),
{
    if bytes.len() > 0 {
        lemma_hex_len(bytes.drop_last());
    }
}

/// Whether a character can stand in a cookie value without ending it.
pub open spec fn plain(c: char) -> bool {
    c != ';' && !crate::text::is_space(c)
}

// ---------------------------------------------------------------------------
// Reading the cookie
// ---------------------------------------------------------------------------

/// What stands before the value in a cookie pair.
pub open spec fn cookie_prefix() -> Seq<char> {
    COOKIE_NAME@ + seq!['=']
}

/// The route value of one cookie pair, if it is the route cookie.
pub open spec fn pair_value(pair: Seq<char>) -> Option<Seq<char>> {
    let t = trim(pair);
    let p = cookie_prefix();
    if p.is_prefix_of(t) {
        Some(t.skip(p.len() as int))
    } else {
        None
    }
}

/// The value of the first route cookie among some pairs.
pub open spec fn first_route(pairs: Seq<Seq<char>>) -> Option<Seq<char>>
    decreases pairs.len(),
{
    if pairs.len() == 0 {
        None
    } else {
        match pair_value(pairs[0]) {
            Some(v) => Some(v),
            None => first_route(pairs.skip(1)),
        }
    }
}

/// The route value in a cookie header: of the first pair that is the route
/// cookie.
pub open spec fn cookie_value(value: Seq<char>) -> Option<Seq<char>> {
    first_route(split(value, ';'))
}

/// The route value of a request whose header names are in lower case: of the
/// first cookie header that has one.
pub open spec fn route_in(headers: Seq<(Seq<char>, Seq<char>)>) -> Option<Seq<char>>
    decreases headers.len(),
{
    if headers.len() == 0 {
        None
    } else if headers[0].0 == "cookie"@ && cookie_value(headers[0].1) is Some {
        cookie_value(headers[0].1)
    } else {
        route_in(headers.skip(1))
    }
}

/// The route value that a request carries.
pub open spec fn route_of(request: HttpRequest) -> Option<Seq<char>> {
    route_in(lowered(header_texts(request.headers@)))
}

fn strip(text: &str, prefix: &str) -> (r: Option<String>)
    ensures
        match r {
            Some(rest) => prefix@.is_prefix_of(text@) && rest@ == text@.skip(prefix@.len() as int),
            None => !prefix@.is_prefix_of(text@),
        },
{
    let t = chars_of(text);
    let p = chars_of(prefix);
    if p.len() > t.len() {
        return None;
    }
    let mut i: usize = 0;
    while i < p.len()
        invariant
            i <= p@.len() <= t@.len(),
            t@ == text@,
            p@ == prefix@,
            forall|j: int| 0 <= j < i ==> p@[j] == t@[j],
        decreases p@.len() - i,
    {
        if p[i] != t[i] {
            assert(!prefix@.is_prefix_of(text@)) by {
                if prefix@.is_prefix_of(text@) {
                    assert(prefix@[i as int] == text@.subrange(0, prefix@.len() as int)[i as int]);
                }
            }
            return None;
        }
        i += 1;
    }
    assert(prefix@ =~= text@.subrange(0, prefix@.len() as int));
    let rest = string_of(&t, p.len(), t.len());
    assert(rest@ =~= text@.skip(prefix@.len() as int));
    Some(rest)
}

fn pair_value_of(pair: &str) -> (r: Option<String>)
    ensures
        match r {
            Some(v) => pair_value(pair@) == Some(v@),
            None => pair_value(pair@) is None,
        },
{
    let t = trimmed(pair);
    let mut prefix: String = COOKIE_NAME.to_owned();
    prefix.push('=');
    assert(prefix@ =~= cookie_prefix());
    strip(&t, &prefix)
}

/// The route value in a cookie header.
pub fn cookie_value_of(value: &str) -> (r: Option<String>)
    ensures
        match r {
            Some(v) => cookie_value(value@) == Some(v@),
            None => cookie_value(value@) is None,
        },
{
    let pairs = split_on(value, ';');
    let ghost all = split(value@, ';');
    let mut i: usize = 0;
    assert(all.skip(0) =~= all);
    while i < pairs.len()
        invariant
            i <= pairs@.len(),
            all == texts(pairs@),
            all == split(value@, ';'),
            first_route(all) == first_route(all.skip(i as int)),
        decreases pairs@.len() - i,
    {
        assert(all.skip(i as int).skip(1) =~= all.skip(i + 1));
        assert(all.skip(i as int)[0] == pairs@[i as int]@);
        match pair_value_of(&pairs[i]) {
            Some(v) => {
                return Some(v);
            },
            None => {},
        }
        i += 1;
    }
    assert(all.skip(i as int) =~= seq![]);
    None
}

/// The route value among headers whose names are in lower case.
pub fn route_among(headers: &Vec<(String, String)>) -> (r: Option<String>)
    ensures
        match r {
            Some(v) => route_in(header_texts(headers@)) == Some(v@),
            None => route_in(header_texts(headers@)) is None,
        },
{
    let ghost all = header_texts(headers@);
    let mut i: usize = 0;
    assert(all.skip(0) =~= all);
    while i < headers.len()
        invariant
            i <= headers@.len(),
            all == header_texts(headers@),
            route_in(all) == route_in(all.skip(i as int)),
        decreases headers@.len() - i,
    {
        assert(all.skip(i as int).skip(1) =~= all.skip(i + 1));
        assert(all.skip(i as int)[0] == (headers@[i as int].0@, headers@[i as int].1@));
        if same(&headers[i].0, "cookie") {
            match cookie_value_of(&headers[i].1) {
                Some(v) => {
                    return Some(v);
                },
                None => {},
            }
        }
        i += 1;
    }
    assert(all.skip(i as int) =~= seq![]);
    None
}

/// The route value that a request carries.
pub fn extract_cookie(request: &HttpRequest) -> (r: Option<String>)
    ensures
        match r {
            Some(v) => route_of(*request) == Some(v@),
            None => route_of(*request) is None,
        },
{
    let names = lower_names(&request.headers);
    route_among(&names)
}

// ---------------------------------------------------------------------------
// Setting the cookie
// ---------------------------------------------------------------------------

/// A host name without its port.
pub open spec fn domain(host: Seq<char>) -> Seq<char> {
    host.take(find(host, ':') as int)
}

/// The cookie that binds a client to a route.
pub open spec fn cookie_text(route: Seq<char>, host: Option<Seq<char>>, tls: bool) -> Seq<char> {
    let base = COOKIE_NAME@ + "="@ + route + "; Path=/; HttpOnly; SameSite=Strict"@;
    let bound = match host {
        Some(h) => base + "; Domain="@ + domain(h),
        None => base,
    };
    if tls {
        bound + "; Secure"@
    } else {
        bound
    }
}

/// The host of a request as characters.
pub open spec fn host_of(request: HttpRequest) -> Option<Seq<char>> {
    match request.host {
        Some(h) => Some(h@),
        None => None,
    }
}

/// The cookie that binds a client to a route.
pub fn build_cookie(route: &str, host: &Option<String>, tls: bool) -> (out: String)
    ensures
        out@ == cookie_text(
            route@,
            match *host {
                Some(h) => Some(h@),
                None => None,
            },
            tls,
        ),
{
    let mut out: String = COOKIE_NAME.to_owned();
    out.append("=");
    out.append(route);
    out.append("; Path=/; HttpOnly; SameSite=Strict");
    match host {
        Some(h) => {
            let chars = chars_of(h);
            let k = position(&chars, 0, chars.len(), ':');
            assert(chars@.subrange(0, chars@.len() as int) =~= h@);
            let d = string_of(&chars, 0, k);
            assert(d@ =~= domain(h@));
            out.append("; Domain=");
            out.append(&d);
        },
        None => {},
    }
    if tls {
        out.append("; Secure");
    }
    out
}

// ---------------------------------------------------------------------------
// The balancer
// ---------------------------------------------------------------------------

/// A change of the routes.
pub enum RouteChange {
    /// A node was picked for a client, or registered.
    Routed(Node),
    /// The node of this id was removed.
    Removed(Seq<char>),
    /// The load and the state of the node of this id were recorded.
    Updated { id: Seq<char>, active_connections: u64, state: NodeState },
}

/// The routes after a change.
pub open spec fn routes_after(routes: Map<Seq<char>, Node>, change: RouteChange) -> Map<
    Seq<char>,
    Node,
> {
    match change {
        RouteChange::Routed(node) => routes.insert(route_id(node.id@), node),
        RouteChange::Removed(id) => routes.remove(route_id(id)),
        RouteChange::Updated { id, active_connections, state } => {
            let route = route_id(id);
            if routes.contains_key(route) && routes[route].id@ == id {
                routes.insert(route, routes[route].with_status(active_connections, state))
            } else {
                routes
            }
        },
    }
}

/// The routes after some changes.
pub open spec fn routes_after_all(
    routes: Map<Seq<char>, Node>,
    changes: Seq<RouteChange>,
) -> Map<Seq<char>, Node>
    decreases changes.len(),
{
    if changes.len() == 0 {
        routes
    } else {
        routes_after(routes_after_all(routes, changes.drop_last()), changes.last())
    }
}

/// Whether a change leaves the route of a node to that node: it removes none of
/// that route, and brings no other node of the same route.
pub open spec fn spares(change: RouteChange, id: Seq<char>) -> bool {
    match change {
        RouteChange::Routed(node) => route_id(node.id@) == route_id(id) ==> node.id@ == id,
        RouteChange::Removed(other) => route_id(other) != route_id(id),
        RouteChange::Updated { .. } => true,
    }
}

/// Sticky-session HTTP balancer around another one.
pub struct StickySessionBalancer<B> {
    inner: B,
    hashed_id_to_node: StringHashMap<Node>,
    tls: bool,
}

impl<B: LoadBalancer<HttpRequest, HttpResponse>> StickySessionBalancer<B> {
    /// The balancer that picks nodes for clients without a valid cookie.
    pub closed spec fn inner(&self) -> B {
        self.inner
    }

    /// The nodes by cookie value.
    pub closed spec fn routes(&self) -> Map<Seq<char>, Node> {
        self.hashed_id_to_node@
    }

    /// Whether cookies carry the `Secure` attribute.
    pub closed spec fn secure(&self) -> bool {
        self.tls
    }

    /// A sticky balancer around `inner`.
    pub fn new(inner: B, tls: bool) -> (r: Self)
        ensures
            r.inner() == inner,
            r.wf() == inner.wf(),
            r.fits() == inner.fits(),
            r.node_list() == inner.node_list(),
            r.routes() == Map::<Seq<char>, Node>::empty(),
            r.secure() == tls,
    {
        StickySessionBalancer { inner, hashed_id_to_node: StringHashMap::new(), tls }
    }

    /// Whether a request carries the cookie of an online node.
    pub open spec fn sticks(&self, request: HttpRequest) -> bool {
        match route_of(request) {
            Some(v) => self.routes().contains_key(v) && self.routes()[v].online(),
            None => false,
        }
    }
}

impl<B: LoadBalancer<HttpRequest, HttpResponse>> LoadBalancer<
    HttpRequest,
    HttpResponse,
> for StickySessionBalancer<B> {
    open spec fn wf(&self) -> bool {
        self.inner().wf()
    }

    open spec fn node_list(&self) -> Seq<Node> {
        self.inner().node_list()
    }

    open spec fn fits(&self) -> bool {
        self.inner().fits()
    }

    open spec fn may_select(
        &self,
        request: &HttpRequest,
        after: &Self,
        outcome: Result<HttpResponse, Error>,
    ) -> bool {
        &&& after.secure() == self.secure()
        &&& if self.sticks(*request) {
            // A valid cookie: its node, and nothing else happens.
            &&& after.inner() == self.inner()
            &&& after.routes() == self.routes()
            &&& outcome matches Ok(resp) && resp.node == self.routes()[route_of(*request)->0]
                && resp.headers_to_add@.len() == 0
        } else {
            exists|picked: Result<HttpResponse, Error>| #[trigger]
                self.inner().may_select(request, &after.inner(), picked) && match picked {
                    Ok(p) => {
                        let route = route_id(p.node.id@);
                        &&& after.routes() == routes_after(self.routes(), RouteChange::Routed(p.node))
                        &&& outcome matches Ok(resp) && resp.node == p.node && header_texts(
                            resp.headers_to_add@,
                        ) == header_texts(p.headers_to_add@).push(
                            (
                                "Set-Cookie"@,
                                cookie_text(route, host_of(*request), self.secure()),
                            ),
                        )
                    },
                    Err(e) => after.routes() == self.routes() && outcome == Err::<HttpResponse, Error>(e),
                }
        }
    }

    fn select(&mut self, request: &HttpRequest) -> (r: Result<HttpResponse, Error>) {
        match extract_cookie(request) {
            Some(v) => {
                match self.hashed_id_to_node.get(&v) {
                    Some(node) => {
                        if node.is_online() {
                            return Ok(
                                HttpResponse { node: node.clone(), headers_to_add: Vec::new() },
                            );
                        }
                    },
                    None => {},
                }
            },
            None => {},
        }
        let ghost before = *self;
        let picked = self.inner.select(request);
        let ghost witness = picked;
        assert(before.inner().may_select(request, &self.inner(), witness));
        match picked {
            Err(e) => Err(e),
            Ok(resp) => {
                let ghost p = resp;
                let route = hash_node_id(&resp.node.id);
                let cookie = build_cookie(&route, &request.host, self.tls);
                self.hashed_id_to_node.insert(route, resp.node.clone());
                let mut headers = resp.headers_to_add;
                headers.push(("Set-Cookie".to_owned(), cookie));
                proof {
                    assert(header_texts(headers@) =~= header_texts(p.headers_to_add@).push(
                        ("Set-Cookie"@, cookie@),
                    ));
                    assert(cookie@ == cookie_text(
                        route_id(p.node.id@),
                        host_of(*request),
                        before.secure(),
                    ));
                    assert(!before.sticks(*request));
                    assert(self.routes() == before.routes().insert(route_id(p.node.id@), p.node));
                    assert(before.inner().may_select(request, &self.inner(), witness));
                }
                Ok(HttpResponse { node: resp.node, headers_to_add: headers })
            },
        }
    }

    fn add_node(&mut self, node: Node)
        ensures
            final(self).routes() == routes_after(old(self).routes(), RouteChange::Routed(node)),
            final(self).secure() == old(self).secure(),
    {
        let route = hash_node_id(&node.id);
        self.hashed_id_to_node.insert(route, node.clone());
        self.inner.add_node(node);
    }

    fn remove_node(&mut self, node_id: &str)
        ensures
            final(self).routes() == routes_after(old(self).routes(), RouteChange::Removed(node_id@)),
            final(self).secure() == old(self).secure(),
    {
        let route = hash_node_id(node_id);
        self.hashed_id_to_node.remove(&route);
        self.inner.remove_node(node_id);
    }

    fn update_node(&mut self, node_id: &str, active_connections: u64, state: NodeState)
        ensures
            final(self).routes() == routes_after(
                old(self).routes(),
                RouteChange::Updated { id: node_id@, active_connections, state },
            ),
            final(self).secure() == old(self).secure(),
    {
        let route = hash_node_id(node_id);
        let known: Option<Node> = match self.hashed_id_to_node.get(&route) {
            Some(node) => if same(&node.id, node_id) {
                Some(node.clone())
            } else {
                None
            },
            None => None,
        };
        match known {
            Some(n) => {
                let mut node = n;
                node.active_connections = active_connections;
                node.state = state;
                self.hashed_id_to_node.insert(route, node);
            },
            None => {},
        }
        self.inner.update_node(node_id, active_connections, state);
    }

    fn online_nodes(&self) -> (r: Vec<Node>) {
        self.inner.online_nodes()
    }

    fn all_nodes(&self) -> (r: Vec<Node>) {
        self.inner.all_nodes()
    }

    fn get_node(&self, node_id: &str) -> (r: Option<Node>) {
        self.inner.get_node(node_id)
    }
}

// ---------------------------------------------------------------------------
// Laws
// ---------------------------------------------------------------------------

/// A client that got a node and sends its cookie back gets the same node and no
/// new cookie, and the inner balancer is not asked, as long as the node was not
/// removed and is online. It does not matter how many clients were served and
/// nodes registered, removed or updated in between, nor what else stands in the
/// cookie header or in the other headers, as long as no route cookie comes
/// before.
pub proof fn law_cookie_sticks<B: LoadBalancer<HttpRequest, HttpResponse>>(
    start: StickySessionBalancer<B>,
    first: HttpRequest,
    mid: StickySessionBalancer<B>,
    got: HttpResponse,
    changes: Seq<RouteChange>,
    late: StickySessionBalancer<B>,
    second: HttpRequest,
    h: int,
    pairs: Seq<Seq<char>>,
    i: int,
    end: StickySessionBalancer<B>,
    outcome: Result<HttpResponse, Error>,
)
    requires
        !start.sticks(first),
        start.may_select(&first, &mid, Ok(got)),
        late.routes() == routes_after_all(mid.routes(), changes),
        forall|k: int| 0 <= k < changes.len() ==> spares(#[trigger] changes[k], got.node.id@),
        late.routes()[route_id(got.node.id@)].online(),
        carries(second, h, pairs, i, route_id(got.node.id@)),
        late.may_select(&second, &end, outcome),
    ensures
        outcome matches Ok(resp) && resp.node.id@ == got.node.id@ && resp.node.online()
            && resp.headers_to_add@.len() == 0,
        changes.len() == 0 ==> outcome->Ok_0.node == got.node,
        end.routes() == late.routes(),
        end.inner() == late.inner(),
{
    let route = route_id(got.node.id@);
    let picked = choose|picked: Result<HttpResponse, Error>| #[trigger]
        start.inner().may_select(&first, &mid.inner(), picked) && match picked {
            Ok(p) => {
                let route = route_id(p.node.id@);
                &&& mid.routes() == routes_after(start.routes(), RouteChange::Routed(p.node))
                &&& got.node == p.node
                &&& header_texts(got.headers_to_add@) == header_texts(p.headers_to_add@).push(
                    ("Set-Cookie"@, cookie_text(route, host_of(first), start.secure())),
                )
            },
            Err(e) => false,
        };
    assert(mid.routes().contains_key(route) && mid.routes()[route] == got.node);
    lemma_route_kept(mid.routes(), changes, got.node.id@);
    lemma_route_carried(second, h, pairs, i, route);
    assert(late.sticks(second));
}

/// Changes that spare a node leave its route to it.
proof fn lemma_route_kept(routes: Map<Seq<char>, Node>, changes: Seq<RouteChange>, id: Seq<char>)
    requires
        routes.contains_key(route_id(id)),
        routes[route_id(id)].id@ == id,
        forall|k: int| 0 <= k < changes.len() ==> spares(#[trigger] changes[k], id),
    ensures
        routes_after_all(routes, changes).contains_key(route_id(id)),
        routes_after_all(routes, changes)[route_id(id)].id@ == id,
    decreases changes.len(),
{
    if changes.len() > 0 {
        let init = changes.drop_last();
        assert forall|k: int| 0 <= k < init.len() implies spares(#[trigger] init[k], id) by {
            assert(init[k] == changes[k]);
        }
        lemma_route_kept(routes, init, id);
        assert(spares(changes[changes.len() - 1], id));
    }
}

/// Pieces joined by a separator.
pub open spec fn joined(pieces: Seq<Seq<char>>, c: char) -> Seq<char>
    decreases pieces.len(),
{
    if pieces.len() == 0 {
        Seq::empty()
    } else if pieces.len() == 1 {
        pieces[0]
    } else {
        pieces[0] + seq![c] + joined(pieces.skip(1), c)
    }
}

/// Whether the header at position `h` of a request is a cookie header, under a
/// name in any case, whose pairs hold the route cookie at position `i`, with no
/// route cookie before it, in this header or in an earlier one.
pub open spec fn carries(
    request: HttpRequest,
    h: int,
    pairs: Seq<Seq<char>>,
    i: int,
    value: Seq<char>,
) -> bool {
    let headers = lowered(header_texts(request.headers@));
    &&& 0 <= h < headers.len()
    &&& headers[h] == ("cookie"@, joined(pairs, ';'))
    &&& forall|k: int|
        0 <= k < h ==> (#[trigger] headers[k]).0 != "cookie"@ || cookie_value(headers[k].1) is None
    &&& holds_route(pairs, i, value)
}

/// Whether the pair at position `i` is the route cookie with this value, with
/// white space around it or without, and none before it is a route cookie.
pub open spec fn holds_route(pairs: Seq<Seq<char>>, i: int, value: Seq<char>) -> bool {
    &&& 0 <= i < pairs.len()
    &&& forall|k: int| 0 <= k < pairs.len() ==> !(#[trigger] pairs[k]).contains(';')
    &&& trim(pairs[i]) == cookie_prefix() + value
    &&& forall|k: int| 0 <= k < i ==> pair_value(#[trigger] pairs[k]) is None
}

/// The route cookie reads back from among other pairs.
pub proof fn law_cookie_among_others(pairs: Seq<Seq<char>>, i: int, value: Seq<char>)
    requires
        holds_route(pairs, i, value),
    ensures
        cookie_value(joined(pairs, ';')) == Some(value),
{
    lemma_split_joined(pairs, ';');
    let s = cookie_prefix() + value;
    assert(cookie_prefix() =~= s.subrange(0, cookie_prefix().len() as int));
    assert(s.skip(cookie_prefix().len() as int) =~= value);
    assert(pair_value(pairs[i]) == Some(value));
    lemma_first_route(pairs, i);
}

proof fn lemma_first_route(pairs: Seq<Seq<char>>, i: int)
    requires
        0 <= i < pairs.len(),
        pair_value(pairs[i]) is Some,
        forall|k: int| 0 <= k < i ==> pair_value(#[trigger] pairs[k]) is None,
    ensures
        first_route(pairs) == pair_value(pairs[i]),
    decreases i,
{
    if i > 0 {
        assert(pair_value(pairs[0]) is None);
        let rest = pairs.skip(1);
        assert forall|k: int| 0 <= k < i - 1 implies pair_value(#[trigger] rest[k]) is None by {
            assert(rest[k] == pairs[k + 1]);
        }
        lemma_first_route(rest, i - 1);
    }
}

proof fn lemma_split_joined(pieces: Seq<Seq<char>>, c: char)
    requires
        pieces.len() > 0,
        forall|k: int| 0 <= k < pieces.len() ==> !(#[trigger] pieces[k]).contains(c),
    ensures
        split(joined(pieces, c), c) == pieces,
    decreases pieces.len(),
{
    let s = joined(pieces, c);
    let p = pieces[0];
    crate::text::lemma_find(s, c);
    let k = find(s, c) as int;
    if pieces.len() == 1 {
        if k < s.len() {
            assert(p.contains(c));
        }
        assert(split(s, c) =~= pieces);
    } else {
        let rest = pieces.skip(1);
        assert forall|j: int| 0 <= j < rest.len() implies !(#[trigger] rest[j]).contains(c) by {
            assert(rest[j] == pieces[j + 1]);
        }
        lemma_split_joined(rest, c);
        let n = p.len() as int;
        assert(s[n] == c);
        if k < n {
            assert(s[k] == p[k]);
            assert(p.contains(c));
        }
        assert(k == n);
        assert(s.take(k) =~= p);
        assert(s.skip(k + 1) =~= joined(rest, c));
        assert(split(s, c) =~= pieces);
    }
}

proof fn lemma_route_carried(
    request: HttpRequest,
    h: int,
    pairs: Seq<Seq<char>>,
    i: int,
    value: Seq<char>,
)
    requires
        carries(request, h, pairs, i, value),
    ensures
        route_of(request) == Some(value),
{
    law_cookie_among_others(pairs, i, value);
    lemma_route_in(lowered(header_texts(request.headers@)), h);
}

proof fn lemma_route_in(headers: Seq<(Seq<char>, Seq<char>)>, h: int)
    requires
        0 <= h < headers.len(),
        headers[h].0 == "cookie"@,
        cookie_value(headers[h].1) is Some,
        forall|k: int|
            0 <= k < h ==> (#[trigger] headers[k]).0 != "cookie"@ || cookie_value(headers[k].1) is None,
    ensures
        route_in(headers) == cookie_value(headers[h].1),
    decreases h,
{
    if h > 0 {
        assert(headers[0].0 != "cookie"@ || cookie_value(headers[0].1) is None);
        let rest = headers.skip(1);
        assert forall|k: int| 0 <= k < h - 1 implies (#[trigger] rest[k]).0 != "cookie"@
            || cookie_value(rest[k].1) is None by {
            assert(rest[k] == headers[k + 1]);
        }
        lemma_route_in(rest, h - 1);
    }
}

/// A cookie header that holds the route cookie alone reads back as its value.
pub proof fn law_cookie_round_trip(value: Seq<char>)
    requires
        forall|i: int| 0 <= i < value.len() ==> plain(#[trigger] value[i]),
    ensures
        cookie_value(cookie_prefix() + value) == Some(value),
{
    reveal_strlit("X-SBZ-EGW-RouteID");
    let s = cookie_prefix() + value;
    assert forall|i: int| 0 <= i < s.len() implies plain(#[trigger] s[i]) by {
        if i >= cookie_prefix().len() {
            assert(s[i] == value[i - cookie_prefix().len()]);
        }
    }
    crate::text::lemma_find(s, ';');
    if find(s, ';') < s.len() {
        assert(plain(s[find(s, ';') as int]));
    }
    assert(split(s, ';') =~= seq![s]);
    assert(plain(s[0]));
    assert(crate::text::trim_start(s) == s);
    assert(plain(s[s.len() - 1]));
    assert(crate::text::trim_end(s) == s);
    assert(s.skip(cookie_prefix().len() as int) =~= value);
    assert(cookie_prefix() =~= s.subrange(0, cookie_prefix().len() as int));
    assert(pair_value(s) == Some(value));
    assert(seq![s][0] == s);
}

/// A node's cookie value reads back from a cookie header.
pub proof fn law_route_round_trip(id: Seq<char>)
    ensures
        cookie_value(cookie_prefix() + route_id(id)) == Some(route_id(id)),
{
    lemma_hex_len(sha256_digest(encode_utf8(id)));
    law_cookie_round_trip(route_id(id));
}

/// Whether a text is a route cookie for a session: its pieces between
/// semicolons are the route under the name of the cookie, the path, the two
/// protections, the domain where the client named a host, and the demand for an
/// encrypted connection under TLS. There is no piece besides, so nothing limits
/// how long the client keeps it.
pub open spec fn binds_session(
    text: Seq<char>,
    route: Seq<char>,
    host: Option<Seq<char>>,
    tls: bool,
) -> bool {
    let pieces = split(text, ';');
    let n = pieces.len();
    &&& n == 4 + (if host is Some {
        1int
    } else {
        0
    }) + (if tls {
        1int
    } else {
        0
    })
    &&& pieces[0] == "X-SBZ-EGW-RouteID="@ + route
    &&& pieces[1] == " Path=/"@
    &&& pieces[2] == " HttpOnly"@
    &&& pieces[3] == " SameSite=Strict"@
    &&& host matches Some(name) ==> pieces[4] == " Domain="@ + name
    &&& tls ==> pieces[n - 1] == " Secure"@
}

/// The cookie that is built is a session cookie with the promised attributes and
/// no others. The domain is the host without its port.
pub proof fn law_cookie_attributes(
    route: &str,
    host: Option<String>,
    tls: bool,
    out: String,
    name: Seq<char>,
    port: Seq<char>,
)
    requires
        call_ensures(build_cookie, (route, &host, tls), out),
        !route@.contains(';'),
        host matches Some(h) ==> h@ == name + port && !name.contains(':') && !name.contains(';') && (
        port.len() > 0 ==> port[0] == ':'),
    ensures
        binds_session(
            out@,
            route@,
            if host is Some {
                Some(name)
            } else {
                None
            },
            tls,
        ),
{
    let given = match host {
        Some(h) => Some(h@),
        None => None,
    };
    assert(out@ == cookie_text(route@, given, tls));
    lemma_cookie_pieces(route@, given, tls, name, port);
}

proof fn lemma_cookie_pieces(
    route: Seq<char>,
    host: Option<Seq<char>>,
    tls: bool,
    name: Seq<char>,
    port: Seq<char>,
)
    requires
        !route.contains(';'),
        host matches Some(h) ==> h == name + port && !name.contains(':') && !name.contains(';') && (
        port.len() > 0 ==> port[0] == ':'),
    ensures
        binds_session(
            cookie_text(route, host, tls),
            route,
            if host is Some {
                Some(name)
            } else {
                None
            },
            tls,
        ),
{
    reveal_strlit("X-SBZ-EGW-RouteID");
    reveal_strlit("X-SBZ-EGW-RouteID=");
    reveal_strlit("=");
    reveal_strlit("; Path=/; HttpOnly; SameSite=Strict");
    reveal_strlit("; Domain=");
    reveal_strlit("; Secure");
    reveal_strlit(" Path=/");
    reveal_strlit(" HttpOnly");
    reveal_strlit(" SameSite=Strict");
    reveal_strlit(" Domain=");
    reveal_strlit(" Secure");
    let text = cookie_text(route, host, tls);
    let first = "X-SBZ-EGW-RouteID="@ + route;
    assert(COOKIE_NAME@ + "="@ =~= "X-SBZ-EGW-RouteID="@);
    let head = seq![first, " Path=/"@, " HttpOnly"@, " SameSite=Strict"@];
    let middle = if host is Some {
        seq![" Domain="@ + name]
    } else {
        Seq::empty()
    };
    let end = if tls {
        seq![" Secure"@]
    } else {
        Seq::empty()
    };
    let pieces = head + middle + end;
    if host is Some {
        let h = host->0;
        crate::text::lemma_find(h, ':');
        let k = find(h, ':') as int;
        if k < name.len() {
            assert(h[k] == name[k]);
            assert(name.contains(':'));
        }
        if k > name.len() {
            assert(h[name.len() as int] == port[0]);
        }
        assert(domain(h) =~= name);
    }
    assert forall|k: int| 0 <= k < pieces.len() implies !(#[trigger] pieces[k]).contains(';') by {
        let p = pieces[k];
        if p.contains(';') {
            let i = choose|i: int| 0 <= i < p.len() && p[i] == ';';
            if k == 0 {
                if i >= "X-SBZ-EGW-RouteID="@.len() {
                    assert(route[i - "X-SBZ-EGW-RouteID="@.len()] == ';');
                    assert(route.contains(';'));
                }
            } else if k == 4 && host is Some {
                if i >= " Domain="@.len() {
                    assert(name[i - " Domain="@.len()] == ';');
                    assert(name.contains(';'));
                }
            }
        }
    }
    reveal_with_fuel(joined, 7);
    lemma_joined_cookie(first, " Path=/"@, " HttpOnly"@, " SameSite=Strict"@, middle, end);
    assert(joined(pieces, ';') =~= text) by {
        let base = first + seq![';'] + " Path=/"@ + seq![';'] + " HttpOnly"@ + seq![';']
            + " SameSite=Strict"@;
        assert("; Path=/; HttpOnly; SameSite=Strict"@ =~= seq![';'] + " Path=/"@ + seq![';']
            + " HttpOnly"@ + seq![';'] + " SameSite=Strict"@);
        assert("; Domain="@ =~= seq![';'] + " Domain="@);
        assert("; Secure"@ =~= seq![';'] + " Secure"@);
        assert(COOKIE_NAME@ + "="@ + route + "; Path=/; HttpOnly; SameSite=Strict"@ =~= base);
    }
    lemma_split_joined(pieces, ';');
    assert(split(text, ';') == pieces);
}

proof fn lemma_joined_cookie(
    a: Seq<char>,
    b: Seq<char>,
    c: Seq<char>,
    d: Seq<char>,
    middle: Seq<Seq<char>>,
    end: Seq<Seq<char>>,
)
    requires
        middle.len() <= 1,
        end.len() <= 1,
    ensures
        joined(seq![a, b, c, d] + middle + end, ';') == a + seq![';'] + b + seq![';'] + c + seq![';']
            + d + (if middle.len() == 1 {
            seq![';'] + middle[0]
        } else {
            Seq::empty()
        }) + (if end.len() == 1 {
            seq![';'] + end[0]
        } else {
            Seq::empty()
        }),
{
    let one = seq![a];
    let four = one.push(b).push(c).push(d);
    assert(four =~= seq![a, b, c, d]);
    lemma_joined_push(one, b, ';');
    lemma_joined_push(one.push(b), c, ';');
    lemma_joined_push(one.push(b).push(c), d, ';');
    assert(joined(one, ';') == a);
    let more = four + middle;
    if middle.len() == 1 {
        assert(more =~= four.push(middle[0]));
        lemma_joined_push(four, middle[0], ';');
    } else {
        assert(more =~= four);
    }
    let all = more + end;
    if end.len() == 1 {
        assert(all =~= more.push(end[0]));
        lemma_joined_push(more, end[0], ';');
    } else {
        assert(all =~= more);
    }
    let text = a + seq![';'] + b + seq![';'] + c + seq![';'] + d;
    assert(joined(four, ';') == text);
    let rest = if middle.len() == 1 {
        seq![';'] + middle[0]
    } else {
        Seq::empty()
    };
    assert(joined(more, ';') =~= text + rest);
    assert(joined(all, ';') =~= text + rest + (if end.len() == 1 {
        seq![';'] + end[0]
    } else {
        Seq::empty()
    }));
}

proof fn lemma_joined_push(pieces: Seq<Seq<char>>, p: Seq<char>, c: char)
    requires
        pieces.len() > 0,
    ensures
        joined(pieces.push(p), c) == joined(pieces, c) + seq![c] + p,
    decreases pieces.len(),
{
    let more = pieces.push(p);
    if pieces.len() == 1 {
        assert(more.skip(1) =~= seq![p]);
        assert(joined(seq![p], c) == p);
    } else {
        assert(more.skip(1) =~= pieces.skip(1).push(p));
        lemma_joined_push(pieces.skip(1), p, c);
        assert(more[0] == pieces[0]);
        assert(joined(more, c) =~= joined(pieces, c) + seq![c] + p);
    }
}

/// A client without a valid cookie is bound to the node that it gets: the answer
/// of the inner balancer stands, and its last header sets a session cookie whose
/// route is the hexadecimal digest of the id of the node.
pub proof fn law_first_answer_binds<B: LoadBalancer<HttpRequest, HttpResponse>>(
    start: StickySessionBalancer<B>,
    request: HttpRequest,
    end: StickySessionBalancer<B>,
    outcome: Result<HttpResponse, Error>,
    name: Seq<char>,
    port: Seq<char>,
)
    requires
        start.may_select(&request, &end, outcome),
        !start.sticks(request),
        request.host matches Some(h) ==> h@ == name + port && !name.contains(':') && !name.contains(
            ';',
        ) && (port.len() > 0 ==> port[0] == ':'),
    ensures
        exists|picked: Result<HttpResponse, Error>| #[trigger]
            start.inner().may_select(&request, &end.inner(), picked) && match picked {
                Err(e) => outcome == Err::<HttpResponse, Error>(e) && end.routes() == start.routes(),
                Ok(p) => {
                    &&& outcome matches Ok(got)
                    &&& got.node == p.node
                    &&& got.headers_to_add@.len() == p.headers_to_add@.len() + 1
                    &&& forall|k: int|
                        0 <= k < p.headers_to_add@.len() ==> (#[trigger] got.headers_to_add@[k]).0@
                            == p.headers_to_add@[k].0@ && got.headers_to_add@[k].1@
                            == p.headers_to_add@[k].1@
                    &&& got.headers_to_add@.last().0@ == "Set-Cookie"@
                    &&& binds_session(
                        got.headers_to_add@.last().1@,
                        hex_bytes(sha256_digest(encode_utf8(got.node.id@))),
                        if request.host is Some {
                            Some(name)
                        } else {
                            None
                        },
                        start.secure(),
                    )
                    &&& end.routes().contains_key(
                        hex_bytes(sha256_digest(encode_utf8(got.node.id@))),
                    )
                    &&& end.routes()[hex_bytes(sha256_digest(encode_utf8(got.node.id@)))] == got.node
                },
            },
{
    let picked = choose|picked: Result<HttpResponse, Error>| #[trigger]
        start.inner().may_select(&request, &end.inner(), picked) && match picked {
            Ok(p) => {
                let route = route_id(p.node.id@);
                &&& end.routes() == routes_after(start.routes(), RouteChange::Routed(p.node))
                &&& outcome matches Ok(resp) && resp.node == p.node && header_texts(
                    resp.headers_to_add@,
                ) == header_texts(p.headers_to_add@).push(
                    ("Set-Cookie"@, cookie_text(route, host_of(request), start.secure())),
                )
            },
            Err(e) => end.routes() == start.routes() && outcome == Err::<HttpResponse, Error>(e),
        };
    if picked is Ok {
        let p = picked->Ok_0;
        let got = outcome->Ok_0;
        let route = route_id(p.node.id@);
        lemma_hex_len(sha256_digest(encode_utf8(p.node.id@)));
        assert(!route.contains(';')) by {
            if route.contains(';') {
                let i = choose|i: int| 0 <= i < route.len() && route[i] == ';';
                assert(plain(route[i]));
            }
        }
        lemma_cookie_pieces(route, host_of(request), start.secure(), name, port);
        let mine = header_texts(got.headers_to_add@);
        let theirs = header_texts(p.headers_to_add@);
        let n = theirs.len() as int;
        assert(mine.len() == n + 1);
        assert(mine[n] == (got.headers_to_add@[n].0@, got.headers_to_add@[n].1@));
        assert forall|k: int| 0 <= k < p.headers_to_add@.len() implies (
        #[trigger] got.headers_to_add@[k]).0@ == p.headers_to_add@[k].0@
            && got.headers_to_add@[k].1@ == p.headers_to_add@[k].1@ by {
            assert(mine[k] == theirs[k]);
        }
    }
    assert(start.inner().may_select(&request, &end.inner(), picked));
}

/// What a request is taken to carry. The first cookie header, under a name in
/// any case, that holds a pair `X-SBZ-EGW-RouteID=value` gives that value; pairs
/// stand between semicolons, with or without white space around them. Without a
/// cookie header there is no value.
pub proof fn law_cookie_is_read(
    request: HttpRequest,
    r: Option<String>,
    h: int,
    pairs: Seq<Seq<char>>,
    i: int,
    value: Seq<char>,
)
    requires
        call_ensures(extract_cookie, (&request,), r),
    ensures
        ({
            let headers = request.headers@;
            let mark = "X-SBZ-EGW-RouteID="@;
            &&& 0 <= h < headers.len() && lowercase(headers[h].0@) == "cookie"@ && headers[h].1@
                == joined(pairs, ';') && (forall|k: int|
                0 <= k < h ==> lowercase((#[trigger] headers[k]).0@) != "cookie"@) && 0 <= i
                < pairs.len() && (forall|k: int|
                0 <= k < pairs.len() ==> !(#[trigger] pairs[k]).contains(';')) && trim(pairs[i])
                == mark + value && (forall|k: int|
                0 <= k < i ==> !mark.is_prefix_of(trim(#[trigger] pairs[k]))) ==> (r matches Some(v)
                && v@ == value)
            &&& (forall|k: int|
                0 <= k < headers.len() ==> lowercase((#[trigger] headers[k]).0@) != "cookie"@)
                ==> r is None
        }),
{
    reveal_strlit("X-SBZ-EGW-RouteID");
    reveal_strlit("X-SBZ-EGW-RouteID=");
    let headers = request.headers@;
    let low = lowered(header_texts(headers));
    let mark = "X-SBZ-EGW-RouteID="@;
    assert(cookie_prefix() =~= mark);
    assert forall|k: int| 0 <= k < low.len() implies #[trigger] low[k] == (
        lowercase(headers[k].0@),
        headers[k].1@,
    ) by {}
    if 0 <= h < headers.len() && lowercase(headers[h].0@) == "cookie"@ && headers[h].1@ == joined(
        pairs,
        ';',
    ) && (forall|k: int| 0 <= k < h ==> lowercase((#[trigger] headers[k]).0@) != "cookie"@) && 0 <= i
        < pairs.len() && (forall|k: int|
        0 <= k < pairs.len() ==> !(#[trigger] pairs[k]).contains(';')) && trim(pairs[i]) == mark
        + value && (forall|k: int| 0 <= k < i ==> !mark.is_prefix_of(trim(#[trigger] pairs[k]))) {
        assert forall|k: int| 0 <= k < i implies pair_value(#[trigger] pairs[k]) is None by {
            assert(!mark.is_prefix_of(trim(pairs[k])));
        }
        law_cookie_among_others(pairs, i, value);
        assert forall|k: int| 0 <= k < h implies (#[trigger] low[k]).0 != "cookie"@ || cookie_value(
            low[k].1,
        ) is None by {
            assert(lowercase(headers[k].0@) != "cookie"@);
        }
        lemma_route_in(low, h);
    }
    if forall|k: int|
        0 <= k < headers.len() ==> lowercase((#[trigger] headers[k]).0@) != "cookie"@ {
        assert forall|k: int| 0 <= k < low.len() implies (#[trigger] low[k]).0 != "cookie"@ by {
            assert(lowercase(headers[k].0@) != "cookie"@);
        }
        lemma_no_route(low);
    }
}

proof fn lemma_no_route(headers: Seq<(Seq<char>, Seq<char>)>)
    requires
        forall|k: int| 0 <= k < headers.len() ==> (#[trigger] headers[k]).0 != "cookie"@,
    ensures
        route_in(headers) is None,
    decreases headers.len(),
{
    if headers.len() > 0 {
        let rest = headers.skip(1);
        assert(headers[0].0 != "cookie"@);
        assert forall|k: int| 0 <= k < rest.len() implies (#[trigger] rest[k]).0 != "cookie"@ by {
            assert(rest[k] == headers[k + 1]);
        }
        lemma_no_route(rest);
    }
}

/// Which requests go back to their node: those that carry a route which is known
/// and whose node is online. A client whose node went offline or is not known
/// any more is served by the inner balancer.
pub proof fn law_only_live_routes_stick<B: LoadBalancer<HttpRequest, HttpResponse>>(
    start: StickySessionBalancer<B>,
    request: HttpRequest,
    end: StickySessionBalancer<B>,
    outcome: Result<HttpResponse, Error>,
    carried: Option<String>,
)
    requires
        start.may_select(&request, &end, outcome),
        call_ensures(extract_cookie, (&request,), carried),
    ensures
        match carried {
            Some(v) => if start.routes().contains_key(v@) && start.routes()[v@].state
                == NodeState::Online {
                &&& outcome matches Ok(got)
                &&& got.node == start.routes()[v@]
                &&& got.headers_to_add@.len() == 0
                &&& end.routes() == start.routes()
                &&& end.inner() == start.inner()
            } else {
                exists|picked: Result<HttpResponse, Error>| #[trigger]
                    start.inner().may_select(&request, &end.inner(), picked) && (picked is Err
                        <==> outcome is Err) && (picked is Ok ==> picked->Ok_0.node
                        == outcome->Ok_0.node)
            },
            None => exists|picked: Result<HttpResponse, Error>| #[trigger]
                start.inner().may_select(&request, &end.inner(), picked) && (picked is Err
                    <==> outcome is Err) && (picked is Ok ==> picked->Ok_0.node
                    == outcome->Ok_0.node),
        },
        end.secure() == start.secure(),
{
}

/// The value of a route cookie: two lower-case hexadecimal digits for each of the
/// bytes of the SHA-256 digest of the id, so that ids with different digests have
/// different routes.
pub proof fn law_route_spells_the_digest(id: &str, route: String, i: int)
    requires
        call_ensures(hash_node_id, (id,), route),
        0 <= i < sha256_digest(encode_utf8(id@)).len(),
    ensures
        route@.len() == 64,
        route@.len() == 2 * sha256_digest(encode_utf8(id@)).len(),
        ({
            let hi = route@[2 * i] as int;
            let lo = route@[2 * i + 1] as int;
            let value = |c: int|
                if c <= '9' as int {
                    c - '0' as int
                } else {
                    c - 'a' as int + 10
                };
            &&& '0' as int <= hi <= '9' as int || 'a' as int <= hi <= 'f' as int
            &&& '0' as int <= lo <= '9' as int || 'a' as int <= lo <= 'f' as int
            &&& sha256_digest(encode_utf8(id@))[i] == 16 * value(hi) + value(lo)
        }),
{
    lemma_hex_len(sha256_digest(encode_utf8(id@)));
    crate::text::lemma_hex_at(sha256_digest(encode_utf8(id@)), i);
}

/// How the cookie headers of a request are searched: a header at the front
/// decides exactly when it is a cookie header with a route in it; else the rest
/// of the headers does.
pub proof fn law_cookie_headers_are_searched(
    request: HttpRequest,
    more: HttpRequest,
    header: (String, String),
    value: &str,
    held: Option<String>,
    r: Option<String>,
    s: Option<String>,
)
    requires
        more.headers@ == seq![header] + request.headers@,
        value@ == header.1@,
        call_ensures(cookie_value_of, (value,), held),
        call_ensures(extract_cookie, (&request,), r),
        call_ensures(extract_cookie, (&more,), s),
    ensures
        request.headers@.len() == 0 ==> r is None,
        lowercase(header.0@) == "cookie"@ && held is Some ==> s is Some && s->0@ == held->0@,
        lowercase(header.0@) != "cookie"@ || held is None ==> (s is Some <==> r is Some) && (s is Some
            ==> s->0@ == r->0@),
{
    let all = lowered(header_texts(more.headers@));
    let rest = lowered(header_texts(request.headers@));
    assert(more.headers@[0] == header);
    assert(header_texts(more.headers@)[0] == (header.0@, header.1@));
    assert(all[0] == (lowercase(header.0@), header.1@));
    assert(all.skip(1) =~= rest) by {
        assert forall|i: int| 0 <= i < rest.len() implies all.skip(1)[i] == rest[i] by {
            assert(more.headers@[i + 1] == request.headers@[i]);
            assert(header_texts(more.headers@)[i + 1] == header_texts(request.headers@)[i]);
        }
    }
    if request.headers@.len() == 0 {
        assert(rest.len() == 0);
    }
}

/// How a cookie header is searched: its first piece decides exactly when it starts
/// with the name of the cookie and an equals sign, without the white space around
/// it; else the pieces behind the first semicolon do.
pub proof fn law_cookie_pairs_are_searched(
    pair: Seq<char>,
    whole: &str,
    rest: &str,
    x: Option<String>,
    y: Option<String>,
    alone: &str,
    z: Option<String>,
)
    requires
        !pair.contains(';'),
        whole@ == pair + seq![';'] + rest@,
        alone@ == pair,
        call_ensures(cookie_value_of, (whole,), x),
        call_ensures(cookie_value_of, (rest,), y),
        call_ensures(cookie_value_of, (alone,), z),
    ensures
        "X-SBZ-EGW-RouteID="@.is_prefix_of(trim(pair)) ==> x is Some && z is Some && x->0@ == z->0@
            && "X-SBZ-EGW-RouteID="@ + x->0@ == trim(pair),
        !"X-SBZ-EGW-RouteID="@.is_prefix_of(trim(pair)) ==> z is None && (x is Some <==> y is Some) && (
        x is Some ==> x->0@ == y->0@),
{
    lemma_mark();
    let p = cookie_prefix();
    crate::text::lemma_find(pair, ';');
    crate::text::lemma_find(whole@, ';');
    let k = find(whole@, ';') as int;
    assert(whole@[pair.len() as int] == ';');
    if k < pair.len() {
        assert(pair[k] == ';');
        assert(pair.contains(';'));
    }
    if find(pair, ';') < pair.len() {
        assert(pair.contains(';'));
    }
    assert(whole@.take(k) =~= pair);
    assert(whole@.skip(k + 1) =~= rest@);
    let pieces = split(whole@, ';');
    assert(pieces =~= seq![pair] + split(rest@, ';'));
    assert(pieces[0] == pair);
    assert(pieces.skip(1) =~= split(rest@, ';'));
    let one = split(pair, ';');
    assert(one =~= seq![pair]);
    assert(one.skip(1) =~= Seq::<Seq<char>>::empty());
    assert(first_route(Seq::<Seq<char>>::empty()) is None);
    if p.is_prefix_of(trim(pair)) {
        assert(p + trim(pair).skip(p.len() as int) =~= trim(pair));
    }
}

proof fn lemma_mark()
    ensures
        cookie_prefix() == "X-SBZ-EGW-RouteID="@,
{
    reveal_strlit("X-SBZ-EGW-RouteID");
    reveal_strlit("X-SBZ-EGW-RouteID=");
    assert(cookie_prefix() =~= "X-SBZ-EGW-RouteID="@);
}

/// How routes follow nodes: a node that is added has a route, under the digest of
/// its name; one that is removed has none; one whose load or state changes keeps
/// its route, which then says so. Other routes are as they were.
pub proof fn law_routes_follow_nodes<B: LoadBalancer<HttpRequest, HttpResponse>>(
    a: &mut StickySessionBalancer<B>,
    node: Node,
    b: &mut StickySessionBalancer<B>,
    gone: &str,
    c: &mut StickySessionBalancer<B>,
    id: &str,
    active_connections: u64,
    state: NodeState,
    other: Seq<char>,
)
    requires
        call_ensures(
            <StickySessionBalancer<B> as LoadBalancer<HttpRequest, HttpResponse>>::add_node,
            (a, node),
            (),
        ),
        call_ensures(
            <StickySessionBalancer<B> as LoadBalancer<HttpRequest, HttpResponse>>::remove_node,
            (b, gone),
            (),
        ),
        call_ensures(
            <StickySessionBalancer<B> as LoadBalancer<HttpRequest, HttpResponse>>::update_node,
            (c, id, active_connections, state),
            (),
        ),
    ensures
        ({
            let route = hex_bytes(sha256_digest(encode_utf8(node.id@)));
            &&& final(a).routes().contains_key(route) && final(a).routes()[route] == node
            &&& other != route ==> final(a).routes().contains_key(other) == old(a).routes().contains_key(other)
            &&& other != route && old(a).routes().contains_key(other) ==> final(a).routes()[other]
                == old(a).routes()[other]
        }),
        ({
            let route = hex_bytes(sha256_digest(encode_utf8(gone@)));
            &&& !final(b).routes().contains_key(route)
            &&& other != route ==> final(b).routes().contains_key(other) == old(b).routes().contains_key(other)
            &&& other != route && old(b).routes().contains_key(other) ==> final(b).routes()[other]
                == old(b).routes()[other]
        }),
        ({
            let route = hex_bytes(sha256_digest(encode_utf8(id@)));
            &&& final(c).routes().dom() =~= old(c).routes().dom()
            &&& old(c).routes().contains_key(route) && old(c).routes()[route].id@ == id@ ==> {
                let n = final(c).routes()[route];
                &&& n.state == state
                &&& n.active_connections == active_connections
                &&& n.id == old(c).routes()[route].id
                &&& n.address == old(c).routes()[route].address
                &&& n.weight == old(c).routes()[route].weight
                &&& n.max_connections == old(c).routes()[route].max_connections
            }
            &&& other != route && old(c).routes().contains_key(other) ==> final(c).routes()[other]
                == old(c).routes()[other]
        }),
{
}

} // verus!
