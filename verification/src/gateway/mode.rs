//! What a TCP listener is set up as: raw forwarding, TLS termination, or an
//! HTTP front with its legs to the backends.

use vstd::prelude::*;
use crate::gateway::config::{AltSvcConfig, BackendConfig, ListenerConfig};
use crate::gateway::upstream::{any_speaks, build_h2_upstream_pool, build_h3_upstream_pool, build_upstream_backends, collect_h3_backends, front_limits, grpc_config_to_runtime, grpc_of, h3_backends, http_timeouts, is_upstream, lemma_agreed, lemma_some_h3, lemma_usable, merge_h2_security, pool_limits, quoted, quoted_text, speaks, text_of, timeouts_of, trust_outcome, upstream_outcome, ws_config_to_runtime, ws_of, GrpcConfig, H2SecurityThresholds, H3Trust, H3TrustError, Http2PoolConfig, HttpTimeouts, UpstreamBackend, UpstreamError, UpstreamProto, WsConfig};
use crate::text::same;

verus! {

/// What applies where a listener configures nothing.
#[derive(Debug, Clone, Copy, PartialEq, Eq, Structural)]
pub struct L7Defaults {
    pub pool: Http2PoolConfig,
    pub timeouts: HttpTimeouts,
    pub security: H2SecurityThresholds,
}

/// The certificate, ticket rotation and protocols that a listener offers.
#[derive(Debug)]
pub struct TlsTerms {
    pub cert_path: String,
    pub key_path: String,
    pub rotation_interval_secs: u64,
    pub rotation_overlap_secs: u64,
    pub alpn: Vec<&'static str>,
}

/// The forwarding part of an HTTP front.
#[derive(Debug)]
pub struct L7Legs {
    pub upstreams: Vec<UpstreamBackend>,
    pub h2_pool: Option<Http2PoolConfig>,
    pub h3_pool: Option<H3Trust>,
    pub alt_svc: Option<AltSvcConfig>,
    pub timeouts: HttpTimeouts,
    pub websocket: Option<WsConfig>,
    pub is_https: bool,
    pub max_keepalive_requests: u32,
}

/// What only the HTTP/2 side of a front needs.
#[derive(Debug, Clone, Copy, PartialEq, Eq, Structural)]
pub struct H2Front {
    pub security: H2SecurityThresholds,
    pub extended_connect: bool,
    pub grpc: Option<GrpcConfig>,
}

/// What a listener is set up as.
#[derive(Debug)]
pub enum ListenerMode {
    /// Forwards the socket as it is.
    PlainTcp,
    /// Terminates TLS and forwards the plain bytes.
    Tls,
    /// Plain HTTP/1.1.
    H1 { legs: L7Legs },
    /// HTTPS, with the protocol chosen in the handshake.
    H1s { legs: L7Legs, h2: H2Front },
}

/// Why a listener cannot be set up.
#[derive(Debug)]
pub enum ModeError {
    /// TLS is to be terminated without a certificate.
    MissingTls,
    /// The backends cannot be used.
    Upstream(UpstreamError),
    /// The HTTP/3 backends cannot share a pool.
    Trust(H3TrustError),
    /// The protocol has no implementation.
    Unsupported,
}

impl ModeError {
    /// The message of the error for a listener.
    pub fn message(&self, listener: &ListenerConfig) -> (out: String)
        requires
            *self matches ModeError::Upstream(UpstreamError::BadProtocol { index }) ==> index
                < listener.backends@.len(),
        ensures
            *self is MissingTls ==> out@ == "listener "@ + listener.address@ + " has protocol="@
                + listener.protocol@ + " but no [listeners.tls] block"@,
            *self is Unsupported ==> out@ == "listener "@ + listener.address@ + " has protocol="@
                + quoted_text(listener.protocol@)
                + " which has no runtime implementation; supported values are: tcp, tls, h1, h1s, quic"@,
            *self matches ModeError::Upstream(e) ==> call_ensures(
                UpstreamError::message,
                (&e, listener),
                out,
            ),
            *self matches ModeError::Trust(e) ==> call_ensures(H3TrustError::message, (&e,), out),
    {
        match self {
            ModeError::Upstream(e) => e.message(listener),
            ModeError::Trust(e) => e.message(),
            ModeError::MissingTls => {
                let mut out: String = "listener ".to_owned();
                out.append(&listener.address);
                out.append(" has protocol=");
                out.append(&listener.protocol);
                out.append(" but no [listeners.tls] block");
                out
            },
            ModeError::Unsupported => {
                let mut out: String = "listener ".to_owned();
                out.append(&listener.address);
                out.append(" has protocol=");
                let name = quoted(&listener.protocol);
                out.append(&name);
                out.append(
                    " which has no runtime implementation; supported values are: tcp, tls, h1, h1s, quic",
                );
                out
            },
        }
    }
}

/// Whether a listener terminates TLS.
pub open spec fn terminates_tls(protocol: Seq<char>) -> bool {
    protocol == "tls"@ || protocol == "h1s"@
}

/// Whether `alpn` is what a listener offers in the handshake: only HTTPS
/// offers anything, and it prefers HTTP/2.
pub open spec fn offers(alpn: Seq<&'static str>, protocol: Seq<char>) -> bool {
    if protocol == "h1s"@ {
        alpn.len() == 2 && alpn[0]@ == "h2"@ && alpn[1]@ == "http/1.1"@
    } else {
        alpn.len() == 0
    }
}

/// What a listener that terminates TLS loads before anything else is set up.
pub fn tls_terms(listener: &ListenerConfig) -> (r: Result<Option<TlsTerms>, ModeError>)
    ensures
        if terminates_tls(listener.protocol@) {
            match listener.tls {
                None => r matches Err(e) && e is MissingTls,
                Some(tls) => {
                    &&& r matches Ok(Some(t))
                    &&& t.cert_path@ == tls.cert_path@
                    &&& t.key_path@ == tls.key_path@
                    &&& t.rotation_interval_secs == tls.ticket_rotation_interval_seconds
                    &&& t.rotation_overlap_secs == tls.ticket_rotation_overlap_seconds
                    &&& offers(t.alpn@, listener.protocol@)
                },
            }
        } else {
            r matches Ok(None)
        },
{
    let https = same(&listener.protocol, "h1s");
    if !https && !same(&listener.protocol, "tls") {
        return Ok(None);
    }
    match &listener.tls {
        None => Err(ModeError::MissingTls),
        Some(tls) => {
            let mut alpn: Vec<&'static str> = Vec::new();
            if https {
                alpn.push("h2");
                alpn.push("http/1.1");
            }
            Ok(
                Some(
                    TlsTerms {
                        cert_path: tls.cert_path.clone(),
                        key_path: tls.key_path.clone(),
                        rotation_interval_secs: tls.ticket_rotation_interval_seconds,
                        rotation_overlap_secs: tls.ticket_rotation_overlap_seconds,
                        alpn,
                    },
                ),
            )
        },
    }
}

/// Whether `legs` forwards to these upstreams as the listener configures it.
pub open spec fn is_legs(
    legs: L7Legs,
    listener: ListenerConfig,
    https: bool,
    max_keepalive_requests: u32,
    defaults: L7Defaults,
) -> bool {
    &&& legs.h2_pool == if speaks(legs.upstreams@, UpstreamProto::H2) {
        Some(pool_limits(defaults.pool, listener.h2_security))
    } else {
        None
    }
    &&& match legs.h3_pool {
        Some(t) => speaks(legs.upstreams@, UpstreamProto::H3) && trust_outcome(
            h3_backends(listener.backends@),
            Ok(t),
        ),
        None => !speaks(legs.upstreams@, UpstreamProto::H3),
    }
    &&& legs.alt_svc == listener.alt_svc
    &&& legs.timeouts == timeouts_of(defaults.timeouts, listener.http)
    &&& legs.websocket == match listener.websocket {
        Some(w) => Some(ws_of(w)),
        None => None,
    }
    &&& legs.is_https == https
    &&& legs.max_keepalive_requests == max_keepalive_requests
}

/// Whether `r` is the forwarding part of a listener, or the first reason why
/// it has none: the backends are looked at before their trust.
pub open spec fn legs_outcome(
    listener: ListenerConfig,
    addresses: Seq<String>,
    https: bool,
    max_keepalive_requests: u32,
    defaults: L7Defaults,
    r: Result<L7Legs, ModeError>,
) -> bool {
    match r {
        Ok(legs) => {
            &&& upstream_outcome(listener.backends@, addresses, Ok(legs.upstreams))
            &&& is_legs(legs, listener, https, max_keepalive_requests, defaults)
        },
        Err(ModeError::Upstream(e)) => upstream_outcome(listener.backends@, addresses, Err(e)),
        Err(ModeError::Trust(e)) => {
            &&& exists|ups: Vec<UpstreamBackend>| #[trigger]
                upstream_outcome(listener.backends@, addresses, Ok(ups)) && speaks(
                    ups@,
                    UpstreamProto::H3,
                )
            &&& trust_outcome(h3_backends(listener.backends@), Err(e))
        },
        Err(_) => false,
    }
}

fn forwarding_legs(
    listener: &ListenerConfig,
    addresses: &Vec<String>,
    https: bool,
    max_keepalive_requests: u32,
    defaults: &L7Defaults,
) -> (r: Result<L7Legs, ModeError>)
    ensures
        legs_outcome(*listener, addresses@, https, max_keepalive_requests, *defaults, r),
{
    let upstreams = match build_upstream_backends(&listener.backends, addresses) {
        Ok(ups) => ups,
        Err(e) => {
            return Err(ModeError::Upstream(e));
        },
    };
    let h2_pool = if any_speaks(&upstreams, UpstreamProto::H2) {
        Some(build_h2_upstream_pool(defaults.pool, &listener.h2_security))
    } else {
        None
    };
    let h3_pool = if any_speaks(&upstreams, UpstreamProto::H3) {
        let shared = collect_h3_backends(&listener.backends);
        match build_h3_upstream_pool(&shared) {
            Ok(t) => Some(t),
            Err(e) => {
                return Err(ModeError::Trust(e));
            },
        }
    } else {
        None
    };
    let websocket = match &listener.websocket {
        Some(w) => Some(ws_config_to_runtime(w)),
        None => None,
    };
    Ok(
        L7Legs {
            upstreams,
            h2_pool,
            h3_pool,
            alt_svc: listener.alt_svc,
            timeouts: http_timeouts(defaults.timeouts, &listener.http),
            websocket,
            is_https: https,
            max_keepalive_requests,
        },
    )
}

/// The HTTP/2 side of a listener. Extended CONNECT is off unless it is asked
/// for.
pub open spec fn front_of(listener: ListenerConfig, defaults: L7Defaults) -> H2Front {
    H2Front {
        security: front_limits(defaults.security, listener.h2_security),
        extended_connect: match listener.websocket {
            Some(w) => w.h2_extended_connect,
            None => false,
        },
        grpc: match listener.grpc {
            Some(g) => Some(grpc_of(g)),
            None => None,
        },
    }
}

/// The HTTP/2 side of a listener.
pub fn build_h2_proxy(listener: &ListenerConfig, defaults: &L7Defaults) -> (r: H2Front)
    ensures
        r == front_of(*listener, *defaults),
{
    H2Front {
        security: merge_h2_security(defaults.security, &listener.h2_security),
        extended_connect: match &listener.websocket {
            Some(w) => w.h2_extended_connect,
            None => false,
        },
        grpc: match &listener.grpc {
            Some(g) => Some(grpc_config_to_runtime(g)),
            None => None,
        },
    }
}

/// Whether `r` is what a listener is set up as. A protocol without an
/// implementation is refused rather than forwarded raw.
pub open spec fn mode_outcome(
    listener: ListenerConfig,
    addresses: Seq<String>,
    max_keepalive_requests: u32,
    defaults: L7Defaults,
    r: Result<ListenerMode, ModeError>,
) -> bool {
    if listener.protocol@ == "tls"@ {
        if listener.tls is None {
            r matches Err(e) && e is MissingTls
        } else {
            r matches Ok(m) && m is Tls
        }
    } else if listener.protocol@ == "h1"@ {
        match r {
            Ok(ListenerMode::H1 { legs }) => legs_outcome(
                listener,
                addresses,
                false,
                max_keepalive_requests,
                defaults,
                Ok(legs),
            ),
            Ok(_) => false,
            Err(e) => legs_outcome(
                listener,
                addresses,
                false,
                max_keepalive_requests,
                defaults,
                Err(e),
            ),
        }
    } else if listener.protocol@ == "h1s"@ {
        if listener.tls is None {
            r matches Err(e) && e is MissingTls
        } else {
            match r {
                Ok(ListenerMode::H1s { legs, h2 }) => {
                    &&& legs_outcome(
                        listener,
                        addresses,
                        true,
                        max_keepalive_requests,
                        defaults,
                        Ok(legs),
                    )
                    &&& h2 == front_of(listener, defaults)
                },
                Ok(_) => false,
                Err(e) => legs_outcome(
                    listener,
                    addresses,
                    true,
                    max_keepalive_requests,
                    defaults,
                    Err(e),
                ),
            }
        }
    } else if listener.protocol@ == "tcp"@ {
        r matches Ok(m) && m is PlainTcp
    } else {
        r matches Err(e) && e is Unsupported
    }
}

proof fn lemma_protocols_differ()
    ensures
        "tls"@ != "h1"@,
        "tls"@ != "h1s"@,
        "tls"@ != "tcp"@,
        "h1"@ != "h1s"@,
        "h1"@ != "tcp"@,
        "h1s"@ != "tcp"@,
        "quic"@ != "tls"@,
        "quic"@ != "h1"@,
        "quic"@ != "h1s"@,
        "quic"@ != "tcp"@,
{
    reveal_strlit("tls");
    reveal_strlit("h1");
    reveal_strlit("h1s");
    reveal_strlit("tcp");
    reveal_strlit("quic");
    assert("tls"@[0] == 't' && "h1s"@[0] == 'h' && "tcp"@[1] == 'c' && "tls"@[1] == 'l');
    assert("h1s"@.len() == 3 && "h1"@.len() == 2 && "quic"@.len() == 4);
}

/// What a listener is set up as.
pub fn build_listener_mode(
    listener: &ListenerConfig,
    addresses: &Vec<String>,
    max_keepalive_requests: u32,
    defaults: &L7Defaults,
) -> (r: Result<ListenerMode, ModeError>)
    ensures
        mode_outcome(*listener, addresses@, max_keepalive_requests, *defaults, r),
{
    proof {
        lemma_protocols_differ();
    }
    if same(&listener.protocol, "tls") {
        match &listener.tls {
            None => Err(ModeError::MissingTls),
            Some(_) => Ok(ListenerMode::Tls),
        }
    } else if same(&listener.protocol, "h1") {
        match forwarding_legs(listener, addresses, false, max_keepalive_requests, defaults) {
            Ok(legs) => Ok(ListenerMode::H1 { legs }),
            Err(e) => Err(e),
        }
    } else if same(&listener.protocol, "h1s") {
        match &listener.tls {
            None => Err(ModeError::MissingTls),
            Some(_) => match forwarding_legs(
                listener,
                addresses,
                true,
                max_keepalive_requests,
                defaults,
            ) {
                Ok(legs) => Ok(ListenerMode::H1s { legs, h2: build_h2_proxy(listener, defaults) }),
                Err(e) => Err(e),
            },
        }
    } else if same(&listener.protocol, "tcp") {
        Ok(ListenerMode::PlainTcp)
    } else {
        Err(ModeError::Unsupported)
    }
}

/// Which proxies of a listener can be replaced while it runs.
#[derive(Debug, Clone, Copy, PartialEq, Eq, Structural)]
pub enum ReloadableProxies {
    H1,
    H1s,
}

impl ListenerMode {
    /// Which of its proxies can be replaced: only HTTP fronts have any.
    pub fn reloadable(&self) -> (r: Option<ReloadableProxies>)
        ensures
            r == match *self {
                ListenerMode::H1 { .. } => Some(ReloadableProxies::H1),
                ListenerMode::H1s { .. } => Some(ReloadableProxies::H1s),
                ListenerMode::PlainTcp | ListenerMode::Tls => None,
            },
    {
        match self {
            ListenerMode::H1 { .. } => Some(ReloadableProxies::H1),
            ListenerMode::H1s { .. } => Some(ReloadableProxies::H1s),
            ListenerMode::PlainTcp => None,
            ListenerMode::Tls => None,
        }
    }
}

/// The proxies that replace those of a running listener. The kind of the
/// listener stays what it was at start, whatever protocol is configured now.
pub fn rebuild_l7_proxies(
    listener: &ListenerConfig,
    kind: ReloadableProxies,
    addresses: &Vec<String>,
    max_keepalive_requests: u32,
    defaults: &L7Defaults,
) -> (r: Result<ListenerMode, ModeError>)
    ensures
        match r {
            Ok(ListenerMode::H1 { legs }) => kind == ReloadableProxies::H1 && legs_outcome(
                *listener,
                addresses@,
                false,
                max_keepalive_requests,
                *defaults,
                Ok(legs),
            ),
            Ok(ListenerMode::H1s { legs, h2 }) => {
                &&& kind == ReloadableProxies::H1s
                &&& legs_outcome(
                    *listener,
                    addresses@,
                    true,
                    max_keepalive_requests,
                    *defaults,
                    Ok(legs),
                )
                &&& h2 == front_of(*listener, *defaults)
            },
            Ok(_) => false,
            Err(e) => legs_outcome(
                *listener,
                addresses@,
                kind == ReloadableProxies::H1s,
                max_keepalive_requests,
                *defaults,
                Err(e),
            ),
        },
{
    match kind {
        ReloadableProxies::H1 => match forwarding_legs(
            listener,
            addresses,
            false,
            max_keepalive_requests,
            defaults,
        ) {
            Ok(legs) => Ok(ListenerMode::H1 { legs }),
            Err(e) => Err(e),
        },
        ReloadableProxies::H1s => match forwarding_legs(
            listener,
            addresses,
            true,
            max_keepalive_requests,
            defaults,
        ) {
            Ok(legs) => Ok(ListenerMode::H1s { legs, h2: build_h2_proxy(listener, defaults) }),
            Err(e) => Err(e),
        },
    }
}

/// A rebuild of a running listener gives what a restart on the same
/// configuration would have set up.
pub proof fn law_rebuild_is_restart(
    listener: ListenerConfig,
    addresses: Seq<String>,
    max_keepalive_requests: u32,
    defaults: L7Defaults,
    legs: L7Legs,
)
    requires
        listener.protocol@ == "h1"@ || (listener.protocol@ == "h1s"@ && listener.tls is Some),
    ensures
        listener.protocol@ == "h1"@ ==> (legs_outcome(
            listener,
            addresses,
            false,
            max_keepalive_requests,
            defaults,
            Ok(legs),
        ) <==> mode_outcome(
            listener,
            addresses,
            max_keepalive_requests,
            defaults,
            Ok(ListenerMode::H1 { legs }),
        )),
        listener.protocol@ == "h1s"@ ==> (legs_outcome(
            listener,
            addresses,
            true,
            max_keepalive_requests,
            defaults,
            Ok(legs),
        ) <==> mode_outcome(
            listener,
            addresses,
            max_keepalive_requests,
            defaults,
            Ok(ListenerMode::H1s { legs, h2: front_of(listener, defaults) }),
        )),
{
    lemma_protocols_differ();
}

/// Nothing is forwarded in the clear by default: only a listener that is
/// configured as plain TCP is set up as plain TCP.
pub proof fn law_no_raw_fallback(
    listener: ListenerConfig,
    addresses: Seq<String>,
    max_keepalive_requests: u32,
    defaults: L7Defaults,
    r: Result<ListenerMode, ModeError>,
)
    requires
        mode_outcome(listener, addresses, max_keepalive_requests, defaults, r),
    ensures
        (r matches Ok(m) && m is PlainTcp) <==> listener.protocol@ == "tcp"@,
{
    lemma_protocols_differ();
}

/// When a listener terminates TLS, and with what: one of the protocols `tls` and
/// `h1s` needs a block of TLS settings, whose certificate and key it shows, and
/// `h1s` alone offers HTTP/2 before HTTP/1.1. No other protocol terminates TLS.
pub proof fn law_tls_is_terminated(listener: ListenerConfig, r: Result<Option<TlsTerms>, ModeError>)
    requires
        call_ensures(tls_terms, (&listener,), r),
    ensures
        ({
            let encrypted = listener.protocol@ == "tls"@ || listener.protocol@ == "h1s"@;
            &&& !encrypted ==> r is Ok && r->Ok_0 is None
            &&& encrypted && listener.tls is None ==> r is Err && r->Err_0 is MissingTls
            &&& encrypted && listener.tls is Some ==> r is Ok && r->Ok_0 is Some && {
                let t = r->Ok_0->0;
                let own = listener.tls->0;
                &&& t.cert_path@ == own.cert_path@
                &&& t.key_path@ == own.key_path@
                &&& t.rotation_interval_secs == own.ticket_rotation_interval_seconds
                &&& t.rotation_overlap_secs == own.ticket_rotation_overlap_seconds
                &&& listener.protocol@ == "tls"@ ==> t.alpn@.len() == 0
                &&& listener.protocol@ == "h1s"@ ==> t.alpn@.len() == 2 && t.alpn@[0]@ == "h2"@
                    && t.alpn@[1]@ == "http/1.1"@
            }
        }),
{
    lemma_protocols_differ();
}

/// What an HTTP front forwards with: every backend at its own address over the
/// protocol it names, a pool for HTTP/2 or HTTP/3 exactly when some backend
/// speaks it, and the settings of the listener.
pub open spec fn forwards_as_configured(
    legs: L7Legs,
    listener: ListenerConfig,
    addresses: Seq<String>,
    https: bool,
    max_keepalive_requests: u32,
) -> bool {
    &&& legs.is_https == https
    &&& legs.max_keepalive_requests == max_keepalive_requests
    &&& legs.alt_svc == listener.alt_svc
    &&& legs.upstreams@.len() == listener.backends@.len()
    &&& addresses.len() == listener.backends@.len()
    &&& listener.backends@.len() > 0
    &&& forall|i: int|
        0 <= i < legs.upstreams@.len() ==> {
            let b = listener.backends@[i];
            &&& (#[trigger] legs.upstreams@[i]).addr@ == addresses[i]@
            &&& legs.upstreams@[i].proto == UpstreamProto::H1 <==> b.protocol@ == "tcp"@
                || b.protocol@ == "h1"@
            &&& legs.upstreams@[i].proto == UpstreamProto::H2 <==> b.protocol@ == "h2"@
            &&& legs.upstreams@[i].proto == UpstreamProto::H3 <==> b.protocol@ == "h3"@
        }
    &&& legs.h2_pool is Some <==> exists|i: int|
        0 <= i < listener.backends@.len() && (#[trigger] listener.backends@[i]).protocol@ == "h2"@
    &&& legs.h3_pool is Some <==> exists|i: int|
        0 <= i < listener.backends@.len() && (#[trigger] listener.backends@[i]).protocol@ == "h3"@
    &&& listener.http matches Some(h) ==> legs.timeouts.header_ms == h.header_timeout_ms
        && legs.timeouts.body_ms == h.body_timeout_ms && legs.timeouts.total_ms == h.total_timeout_ms
        && legs.timeouts.head_ms == h.head_timeout_ms
    &&& legs.websocket is Some <==> listener.websocket is Some
    &&& listener.websocket matches Some(w) ==> legs.websocket->0.enabled == w.enabled
        && legs.websocket->0.idle_timeout_secs == w.idle_timeout_seconds
        && legs.websocket->0.max_message_size == w.max_message_size_bytes
        && legs.websocket->0.read_frame_timeout_secs == w.read_frame_timeout_seconds
}

/// What a listener becomes. `tcp` relays bytes and `tls` does so behind TLS; `h1`
/// and `h1s` forward requests as configured, `h1s` behind TLS and with HTTP/2 as
/// configured. A listener that is to be encrypted never starts without TLS
/// settings, and an unknown protocol never starts.
pub proof fn law_listener_becomes(
    listener: ListenerConfig,
    addresses: Vec<String>,
    max_keepalive_requests: u32,
    defaults: L7Defaults,
    r: Result<ListenerMode, ModeError>,
)
    requires
        call_ensures(
            build_listener_mode,
            (&listener, &addresses, max_keepalive_requests, &defaults),
            r,
        ),
    ensures
        listener.protocol@ == "tcp"@ ==> r is Ok && r->Ok_0 is PlainTcp,
        listener.protocol@ == "tls"@ && listener.tls is Some ==> r is Ok && r->Ok_0 is Tls,
        (listener.protocol@ == "tls"@ || listener.protocol@ == "h1s"@) && listener.tls is None ==> r is Err
            && r->Err_0 is MissingTls,
        listener.protocol@ != "tcp"@ && listener.protocol@ != "tls"@ && listener.protocol@ != "h1"@
            && listener.protocol@ != "h1s"@ ==> r is Err && r->Err_0 is Unsupported,
        r matches Ok(m) ==> {
            &&& m is PlainTcp ==> listener.protocol@ == "tcp"@
            &&& m is Tls ==> listener.protocol@ == "tls"@
            &&& m matches ListenerMode::H1 { legs } ==> listener.protocol@ == "h1"@
                && forwards_as_configured(legs, listener, addresses@, false, max_keepalive_requests)
            &&& m matches ListenerMode::H1s { legs, h2 } ==> {
                &&& listener.protocol@ == "h1s"@
                &&& listener.tls is Some
                &&& forwards_as_configured(legs, listener, addresses@, true, max_keepalive_requests)
                &&& h2.extended_connect <==> listener.websocket is Some
                    && listener.websocket->0.h2_extended_connect
                &&& h2.grpc is Some <==> listener.grpc is Some
                &&& listener.grpc matches Some(g) ==> h2.grpc->0.enabled == g.enabled
                    && h2.grpc->0.max_deadline_secs == g.max_deadline_seconds
                    && h2.grpc->0.health_synthesized == g.health_synthesized
                &&& listener.h2_security is None ==> h2.security == defaults.security
            }
        },
{
    lemma_protocols_differ();
    if r is Ok {
        match r->Ok_0 {
            ListenerMode::H1 { legs } => {
                lemma_forwards(legs, listener, addresses@, false, max_keepalive_requests, defaults);
            },
            ListenerMode::H1s { legs, h2 } => {
                lemma_forwards(legs, listener, addresses@, true, max_keepalive_requests, defaults);
            },
            _ => {},
        }
    }
}

proof fn lemma_forwards(
    legs: L7Legs,
    listener: ListenerConfig,
    addresses: Seq<String>,
    https: bool,
    max_keepalive_requests: u32,
    defaults: L7Defaults,
)
    requires
        legs_outcome(listener, addresses, https, max_keepalive_requests, defaults, Ok(legs)),
    ensures
        forwards_as_configured(legs, listener, addresses, https, max_keepalive_requests),
{
    crate::gateway::upstream::lemma_protocols_differ();
    let ups = legs.upstreams@;
    assert forall|i: int| 0 <= i < ups.len() implies {
        let b = listener.backends@[i];
        &&& (#[trigger] ups[i]).addr@ == addresses[i]@
        &&& ups[i].proto == UpstreamProto::H1 <==> b.protocol@ == "tcp"@ || b.protocol@ == "h1"@
        &&& ups[i].proto == UpstreamProto::H2 <==> b.protocol@ == "h2"@
        &&& ups[i].proto == UpstreamProto::H3 <==> b.protocol@ == "h3"@
    } by {
        assert(is_upstream(ups[i], listener.backends@[i], addresses[i]@));
    }
    if speaks(ups, UpstreamProto::H2) {
        let i = choose|i: int| 0 <= i < ups.len() && (#[trigger] ups[i]).proto == UpstreamProto::H2;
        assert(listener.backends@[i].protocol@ == "h2"@);
    }
    if speaks(ups, UpstreamProto::H3) {
        let i = choose|i: int| 0 <= i < ups.len() && (#[trigger] ups[i]).proto == UpstreamProto::H3;
        assert(listener.backends@[i].protocol@ == "h3"@);
    }
    if exists|i: int|
        0 <= i < listener.backends@.len() && (#[trigger] listener.backends@[i]).protocol@ == "h2"@ {
        let i = choose|i: int|
            0 <= i < listener.backends@.len() && (#[trigger] listener.backends@[i]).protocol@ == "h2"@;
        assert(ups[i].proto == UpstreamProto::H2);
    }
    if exists|i: int|
        0 <= i < listener.backends@.len() && (#[trigger] listener.backends@[i]).protocol@ == "h3"@ {
        let i = choose|i: int|
            0 <= i < listener.backends@.len() && (#[trigger] listener.backends@[i]).protocol@ == "h3"@;
        assert(ups[i].proto == UpstreamProto::H3);
    }
}

/// A rebuild of a running front gives a front of the same kind, with what the
/// listener now says. Only HTTP fronts can be rebuilt.
pub proof fn law_rebuilt_front(
    listener: ListenerConfig,
    kind: ReloadableProxies,
    addresses: Vec<String>,
    max_keepalive_requests: u32,
    defaults: L7Defaults,
    r: Result<ListenerMode, ModeError>,
    mode: ListenerMode,
    handle: Option<ReloadableProxies>,
)
    requires
        call_ensures(
            rebuild_l7_proxies,
            (&listener, kind, &addresses, max_keepalive_requests, &defaults),
            r,
        ),
        call_ensures(ListenerMode::reloadable, (&mode,), handle),
    ensures
        r matches Ok(m) ==> match m {
            ListenerMode::H1 { legs } => kind == ReloadableProxies::H1 && forwards_as_configured(
                legs,
                listener,
                addresses@,
                false,
                max_keepalive_requests,
            ),
            ListenerMode::H1s { legs, h2 } => kind == ReloadableProxies::H1s && forwards_as_configured(
                legs,
                listener,
                addresses@,
                true,
                max_keepalive_requests,
            ),
            _ => false,
        },
        handle is Some <==> mode is H1 || mode is H1s,
        mode is H1 ==> handle == Some(ReloadableProxies::H1),
        mode is H1s ==> handle == Some(ReloadableProxies::H1s),
{
    if r is Ok {
        match r->Ok_0 {
            ListenerMode::H1 { legs } => {
                lemma_forwards(legs, listener, addresses@, false, max_keepalive_requests, defaults);
            },
            ListenerMode::H1s { legs, h2 } => {
                lemma_forwards(legs, listener, addresses@, true, max_keepalive_requests, defaults);
            },
            _ => {},
        }
    }
}

/// When an HTTP front starts, and with what: exactly when its backends can be used
/// and its HTTP/3 backends can share a pool; with the limits, the times and the
/// trust that its own settings come to.
pub proof fn law_front_starts(
    listener: ListenerConfig,
    addresses: Vec<String>,
    max_keepalive_requests: u32,
    defaults: L7Defaults,
    r: Result<ListenerMode, ModeError>,
    ups: Result<Vec<UpstreamBackend>, UpstreamError>,
    h3: Vec<BackendConfig>,
    trust: Result<H3Trust, H3TrustError>,
    pool: Http2PoolConfig,
    security: H2SecurityThresholds,
    timeouts: HttpTimeouts,
    i: int,
)
    requires
        call_ensures(
            build_listener_mode,
            (&listener, &addresses, max_keepalive_requests, &defaults),
            r,
        ),
        listener.protocol@ == "h1"@ || (listener.protocol@ == "h1s"@ && listener.tls is Some),
        call_ensures(build_upstream_backends, (&listener.backends, &addresses), ups),
        call_ensures(collect_h3_backends, (&listener.backends,), h3),
        call_ensures(build_h3_upstream_pool, (&h3,), trust),
        call_ensures(build_h2_upstream_pool, (defaults.pool, &listener.h2_security), pool),
        call_ensures(merge_h2_security, (defaults.security, &listener.h2_security), security),
        call_ensures(http_timeouts, (defaults.timeouts, &listener.http), timeouts),
    ensures
        r is Ok <==> ups is Ok && (h3@.len() == 0 || trust is Ok),
        r matches Ok(m) ==> {
            let legs = match m {
                ListenerMode::H1 { legs } => legs,
                ListenerMode::H1s { legs, h2 } => legs,
                _ => arbitrary(),
            };
            &&& m is H1 <==> listener.protocol@ == "h1"@
            &&& m is H1s <==> listener.protocol@ == "h1s"@
            &&& m matches ListenerMode::H1s { legs: of, h2 } ==> h2.security == security
            &&& legs.timeouts == timeouts
            &&& legs.h2_pool is Some ==> legs.h2_pool->0 == pool
            &&& legs.h3_pool is Some <==> h3@.len() > 0
            &&& legs.h3_pool matches Some(t) ==> t.verify == trust->Ok_0.verify && text_of(t.ca_path)
                == text_of(trust->Ok_0.ca_path)
            &&& 0 <= i < legs.upstreams@.len() ==> legs.upstreams@[i].addr@ == ups->Ok_0@[i].addr@
                && legs.upstreams@[i].proto == ups->Ok_0@[i].proto && text_of(
                legs.upstreams@[i].sni,
            ) == text_of(ups->Ok_0@[i].sni)
        },
{
    lemma_protocols_differ();
    lemma_usable(listener.backends@, addresses@, ups);
    lemma_agreed(h3@, trust);
    lemma_some_h3(listener.backends@);
    let https = listener.protocol@ == "h1s"@;
    match r {
        Ok(m) => {
            let legs = match m {
                ListenerMode::H1 { legs } => legs,
                ListenerMode::H1s { legs, h2 } => legs,
                _ => arbitrary(),
            };
            assert(legs_outcome(
                listener,
                addresses@,
                https,
                max_keepalive_requests,
                defaults,
                Ok(legs),
            ));
            lemma_usable(listener.backends@, addresses@, Ok(legs.upstreams));
            lemma_speaks_h3(listener.backends@, addresses@, legs.upstreams);
            if speaks(legs.upstreams@, UpstreamProto::H3) {
                lemma_agreed(h3@, Ok(legs.h3_pool->0));
            }
            if 0 <= i < legs.upstreams@.len() {
                assert(is_upstream(legs.upstreams@[i], listener.backends@[i], addresses@[i]@));
                assert(is_upstream(ups->Ok_0@[i], listener.backends@[i], addresses@[i]@));
            }
        },
        Err(e) => {
            assert(legs_outcome(
                listener,
                addresses@,
                https,
                max_keepalive_requests,
                defaults,
                Err(e),
            ));
            match e {
                ModeError::Upstream(f) => {
                    lemma_usable(listener.backends@, addresses@, Err(f));
                },
                ModeError::Trust(f) => {
                    let some = choose|some: Vec<UpstreamBackend>| #[trigger]
                        upstream_outcome(listener.backends@, addresses@, Ok(some)) && speaks(
                            some@,
                            UpstreamProto::H3,
                        );
                    lemma_speaks_h3(listener.backends@, addresses@, some);
                    lemma_agreed(h3@, Err(f));
                },
                _ => {},
            }
        },
    }
}

proof fn lemma_speaks_h3(backends: Seq<BackendConfig>, addresses: Seq<String>, ups: Vec<UpstreamBackend>)
    requires
        upstream_outcome(backends, addresses, Ok(ups)),
    ensures
        speaks(ups@, UpstreamProto::H3) <==> exists|k: int|
            0 <= k < backends.len() && (#[trigger] backends[k]).protocol@ == "h3"@,
{
    crate::gateway::upstream::lemma_protocols_differ();
    assert forall|k: int| 0 <= k < backends.len() implies ((#[trigger] ups@[k]).proto
        == UpstreamProto::H3 <==> backends[k].protocol@ == "h3"@) by {
        assert(is_upstream(ups@[k], backends[k], addresses[k]@));
    }
    if speaks(ups@, UpstreamProto::H3) {
        let k = choose|k: int| 0 <= k < ups@.len() && (#[trigger] ups@[k]).proto == UpstreamProto::H3;
        assert(backends[k].protocol@ == "h3"@);
    }
    if exists|k: int| 0 <= k < backends.len() && (#[trigger] backends[k]).protocol@ == "h3"@ {
        let k = choose|k: int| 0 <= k < backends.len() && (#[trigger] backends[k]).protocol@ == "h3"@;
        assert(ups@[k].proto == UpstreamProto::H3);
    }
}

} // verus!
