//! Consistent hashing of HTTP requests, by the value of a header or by the
//! client address. A request without the header goes by the client address.

use vstd::prelude::*;
use vstd::utf8::encode_utf8;
use crate::headers::{first_value, header_texts, lowercase, lowered};
use crate::node::{Error, HttpRequest, HttpResponse, LoadBalancer, Node, NodeState};
use crate::ring::{HashRing, claimed, in_reach, law_lookup_fails_only_without_nodes, law_lookup_online, law_stable_mapping, looks_up, murmur3_x64_128_digest, text_hash, well_owned};

verus! {

/// What a request is hashed by.
#[derive(Debug)]
pub enum HashKeySource {
    /// The value of the named header.
    Header(String),
    /// The client address.
    ClientIp,
}

/// The text that a request is hashed by.
pub open spec fn hash_key(source: HashKeySource, request: HttpRequest) -> Seq<char> {
    match source {
        HashKeySource::Header(name) => match first_value(
            lowered(header_texts(request.headers@)),
            lowercase(name@),
        ) {
            Some(v) => v,
            None => request.client_ip@,
        },
        HashKeySource::ClientIp => request.client_ip@,
    }
}

/// The text that a request is hashed by, once the header was looked up.
pub fn key_or_client(found: Option<String>, client_ip: &String) -> (key: String)
    ensures
        key@ == match found {
            Some(v) => v@,
            None => client_ip@,
        },
{
    match found {
        Some(v) => v,
        None => client_ip.clone(),
    }
}

fn key_of(source: &HashKeySource, request: &HttpRequest) -> (key: String)
    ensures
        key@ == hash_key(*source, *request),
{
    match source {
        HashKeySource::Header(name) => {
            let found = crate::headers::find_header(&request.headers, name);
            key_or_client(found, &request.client_ip)
        },
        HashKeySource::ClientIp => request.client_ip.clone(),
    }
}

/// Consistent-hash HTTP balancer.
#[derive(Debug)]
pub struct HttpConsistentHashBalancer {
    ring: HashRing,
    key_source: HashKeySource,
}

impl HttpConsistentHashBalancer {
    /// The ring points, each with the id of its node.
    pub closed spec fn points(&self) -> Map<u128, Seq<char>> {
        self.ring.points()
    }

    /// What requests are hashed by.
    pub closed spec fn source(&self) -> HashKeySource {
        self.key_source
    }

    /// A balancer with an empty ring.
    pub fn new(key_source: HashKeySource) -> (r: Self)
        ensures
            r.points() == Map::<u128, Seq<char>>::empty(),
            r.node_list() == Seq::<Node>::empty(),
            r.wf(),
            r.source() == key_source,
    {
        HttpConsistentHashBalancer { ring: HashRing::new(), key_source }
    }

    /// A balancer that hashes the client address.
    pub fn with_client_ip() -> (r: Self)
        ensures
            r.points() == Map::<u128, Seq<char>>::empty(),
            r.node_list() == Seq::<Node>::empty(),
            r.wf(),
            r.source() == HashKeySource::ClientIp,
    {
        Self::new(HashKeySource::ClientIp)
    }

    /// A balancer that hashes the value of a header.
    pub fn with_header(header_name: String) -> (r: Self)
        ensures
            r.points() == Map::<u128, Seq<char>>::empty(),
            r.node_list() == Seq::<Node>::empty(),
            r.wf(),
            r.source() == HashKeySource::Header(header_name),
    {
        Self::new(HashKeySource::Header(header_name))
    }

    /// The node for a key whose hash is `hash`.
    pub fn select_hash(&self, hash: u128) -> (r: Result<HttpResponse, Error>)
        ensures
            looks_up(
                self.points(),
                self.node_list(),
                hash,
                match r {
                    Ok(resp) => Some(resp.node),
                    Err(_) => None,
                },
            ),
            r matches Ok(resp) ==> resp.headers_to_add@.len() == 0,
    {
        match self.ring.lookup(hash) {
            Some(node) => Ok(HttpResponse { node, headers_to_add: Vec::new() }),
            None => Err(Error::NoHealthyBackend),
        }
    }
}

impl LoadBalancer<HttpRequest, HttpResponse> for HttpConsistentHashBalancer {
    open spec fn wf(&self) -> bool {
        well_owned(self.points(), self.node_list())
    }

    closed spec fn node_list(&self) -> Seq<Node> {
        self.ring.nodes()
    }

    open spec fn fits(&self) -> bool {
        true
    }

    open spec fn may_select(
        &self,
        request: &HttpRequest,
        after: &Self,
        outcome: Result<HttpResponse, Error>,
    ) -> bool {
        &&& after.points() == self.points()
        &&& after.source() == self.source()
        &&& outcome matches Ok(resp) ==> resp.headers_to_add@.len() == 0
        &&& looks_up(
            self.points(),
            self.node_list(),
            text_hash(hash_key(self.source(), *request)),
            match outcome {
                Ok(resp) => Some(resp.node),
                Err(_) => None,
            },
        )
    }

    fn select(&mut self, request: &HttpRequest) -> (r: Result<HttpResponse, Error>) {
        let key = key_of(&self.key_source, request);
        let hash = crate::ring::murmur3_hash(key.as_str().as_bytes());
        self.select_hash(hash)
    }

    fn add_node(&mut self, node: Node)
        ensures
            final(self).points() == old(self).points().union_prefer_right(
                claimed(node.id@).mk_map(|h: u128| node.id@),
            ),
            final(self).source() == old(self).source(),
    {
        self.ring.add_node(node);
    }

    fn remove_node(&mut self, node_id: &str)
        ensures
            final(self).points() == old(self).points().remove_keys(claimed(node_id@)),
            final(self).source() == old(self).source(),
    {
        self.ring.remove_node(node_id);
    }

    fn update_node(&mut self, node_id: &str, active_connections: u64, state: NodeState)
        ensures
            final(self).points() == old(self).points(),
            final(self).source() == old(self).source(),
    {
        self.ring.update_node(node_id, active_connections, state);
    }

    fn online_nodes(&self) -> (r: Vec<Node>) {
        self.ring.online_nodes()
    }

    fn all_nodes(&self) -> (r: Vec<Node>) {
        self.ring.all_nodes()
    }

    fn get_node(&self, node_id: &str) -> (r: Option<Node>) {
        self.ring.get_node(node_id)
    }
}

/// Requests with the same key get the same node, which is online, and no
/// headers; host, path and the other headers do not matter. A request is turned
/// away only when no node is online.
pub proof fn law_same_key_same_node(
    start: HttpConsistentHashBalancer,
    first: HttpRequest,
    mid: HttpConsistentHashBalancer,
    a: Result<HttpResponse, Error>,
    second: HttpRequest,
    end: HttpConsistentHashBalancer,
    b: Result<HttpResponse, Error>,
)
    requires
        start.may_select(&first, &mid, a),
        mid.node_list() == start.node_list(),
        mid.may_select(&second, &end, b),
        hash_key(start.source(), first) == hash_key(start.source(), second),
    ensures
        match (a, b) {
            (Ok(x), Ok(y)) => {
                &&& x.node == y.node
                &&& x.node.online()
                &&& start.node_list().contains(x.node)
                &&& x.headers_to_add@.len() == 0
                &&& y.headers_to_add@.len() == 0
            },
            (Err(_), Err(_)) => true,
            _ => false,
        },
        in_reach(start.points(), start.node_list()) ==> (a is Err
            <==> forall|k: int|
            0 <= k < start.node_list().len() ==> !(#[trigger] start.node_list()[k]).online()),
{
    let hash = text_hash(hash_key(start.source(), first));
    let x = match a {
        Ok(resp) => Some(resp.node),
        Err(_) => None,
    };
    let y = match b {
        Ok(resp) => Some(resp.node),
        Err(_) => None,
    };
    law_stable_mapping(start.points(), start.node_list(), hash, x, y);
    law_lookup_online(start.points(), start.node_list(), hash, x);
    if in_reach(start.points(), start.node_list()) {
        law_lookup_fails_only_without_nodes(start.points(), start.node_list(), hash, x);
    }
}

/// What a request is hashed by. A balancer by header takes the value of the
/// first header of that name, in any case, and nothing else of the request; only
/// without such a header it takes the client address, as a balancer by client
/// address always does. The node is the one at the Murmur3 hash of that text.
pub proof fn law_request_goes_by_its_value(
    start: HttpConsistentHashBalancer,
    request: HttpRequest,
    end: HttpConsistentHashBalancer,
    outcome: Result<HttpResponse, Error>,
    h: int,
)
    requires
        start.may_select(&request, &end, outcome),
    ensures
        ({
            let found = match outcome {
                Ok(resp) => Some(resp.node),
                Err(_) => None,
            };
            let keyed = |text: Seq<char>|
                looks_up(
                    start.points(),
                    start.node_list(),
                    murmur3_x64_128_digest(encode_utf8(text), 0),
                    found,
                );
            match start.source() {
                HashKeySource::Header(name) => {
                    &&& 0 <= h < request.headers@.len() && lowercase(request.headers@[h].0@)
                        == lowercase(name@) && (forall|k: int|
                        0 <= k < h ==> lowercase((#[trigger] request.headers@[k]).0@) != lowercase(
                            name@,
                        )) ==> keyed(request.headers@[h].1@)
                    &&& (forall|k: int|
                        0 <= k < request.headers@.len() ==> lowercase(
                            (#[trigger] request.headers@[k]).0@,
                        ) != lowercase(name@)) ==> keyed(request.client_ip@)
                },
                HashKeySource::ClientIp => keyed(request.client_ip@),
            }
        }),
        end.source() == start.source(),
        end.points() == start.points(),
{
    match start.source() {
        HashKeySource::Header(name) => {
            let low = lowered(header_texts(request.headers@));
            let wanted = lowercase(name@);
            assert(low.len() == request.headers@.len());
            assert forall|k: int| 0 <= k < low.len() implies #[trigger] low[k] == (
                lowercase(request.headers@[k].0@),
                request.headers@[k].1@,
            ) by {}
            if 0 <= h < request.headers@.len() && lowercase(request.headers@[h].0@) == wanted
                && forall|k: int|
                0 <= k < h ==> lowercase((#[trigger] request.headers@[k]).0@) != wanted {
                assert forall|k: int| 0 <= k < h implies (#[trigger] low[k]).0 != wanted by {
                    assert(lowercase(request.headers@[k].0@) != wanted);
                }
                crate::headers::lemma_first_value(low, wanted, h);
            }
            if forall|k: int|
                0 <= k < request.headers@.len() ==> lowercase((#[trigger] request.headers@[k]).0@)
                    != wanted {
                assert forall|k: int| 0 <= k < low.len() implies (#[trigger] low[k]).0 != wanted by {
                    assert(lowercase(request.headers@[k].0@) != wanted);
                }
                crate::headers::lemma_first_value(low, wanted, low.len() as int);
            }
        },
        HashKeySource::ClientIp => {},
    }
}

} // verus!
