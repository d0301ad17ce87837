//! What a QUIC listener is set up as: an HTTP/3 front with one leg to its
//! backends, or a raw relay to one backend.

use vstd::prelude::*;
use crate::text::decimal;
use crate::gateway::config::{copy_text, BackendConfig, ListenerConfig, QuicListenerConfig, RawQuicProxyConfig, WebsocketConfig};
use crate::gateway::upstream::{build_h2_upstream_pool, build_h3_upstream_pool, collect_h3_backends, h3_backends, host_of, host_part, lemma_agreed, lemma_host_of_address, lemma_is_h3, lemma_protocols_differ, parse_upstream_proto, pool_limits, proto_named, same_trust, text_of, trust_outcome, ws_config_to_runtime, ws_of, H3Trust, H3TrustError, Http2PoolConfig, UpstreamProto, WsConfig};

verus! {

/// The datagram queue of a raw relay whose own setting is missing.
pub const DEFAULT_DGRAM_QUEUE: usize = 1_024;

/// The time that an upstream WebSocket handshake may take by default.
pub const DEFAULT_HEADER_BUDGET_MS: u64 = 30_000;

/// The one backend of a raw relay. Its certificate is always verified.
#[derive(Debug)]
pub struct RawBackend {
    pub addr: String,
    pub sni: String,
    pub ca_path: Option<String>,
    pub dgram_queue_cap: usize,
    pub max_relay_streams: usize,
}

/// Whether `b` is the configured backend at the address that was read.
pub open spec fn is_raw_backend(b: RawBackend, cfg: RawQuicProxyConfig, addr: Seq<char>) -> bool {
    &&& b.addr@ == addr
    &&& b.sni@ == cfg.sni@
    &&& text_of(b.ca_path) == text_of(cfg.backend_ca_path)
    &&& b.dgram_queue_cap == cfg.dgram_queue_cap
    &&& b.max_relay_streams == cfg.max_relay_streams
}

/// The backend of a raw relay, with the address that was read from its
/// configuration; none when that is no address.
pub fn build_raw_quic_backend(cfg: &RawQuicProxyConfig, addr: &Option<String>) -> (r: Option<RawBackend>)
    ensures
        match *addr {
            Some(a) => r matches Some(b) && is_raw_backend(b, *cfg, a@),
            None => r is None,
        },
{
    match addr {
        Some(a) => Some(
            RawBackend {
                addr: a.clone(),
                sni: cfg.sni.clone(),
                ca_path: copy_text(&cfg.backend_ca_path),
                dgram_queue_cap: cfg.dgram_queue_cap,
                max_relay_streams: cfg.max_relay_streams,
            },
        ),
        None => None,
    }
}

/// The settings of a QUIC listener.
#[derive(Debug)]
pub struct QuicListenerParams {
    pub bind_addr: String,
    pub cert_path: String,
    pub key_path: String,
    pub retry_secret_path: String,
    pub max_idle_timeout_ms: u64,
    pub max_recv_udp_payload_size: usize,
    /// After this many requests a connection is recycled.
    pub h3_request_cap: Option<u32>,
    /// The raw relay, with the datagram queue of the client side. Datagrams
    /// are enabled by it alone.
    pub raw: Option<(RawBackend, usize)>,
    pub ws_enabled: bool,
}

/// The cap on requests per connection; zero switches it off.
pub open spec fn request_cap(cap: u32) -> Option<u32> {
    if cap == 0 {
        None
    } else {
        Some(cap)
    }
}

/// The settings of a QUIC listener before WebSockets are decided on.
pub fn quic_listener_params_from_config(
    bind_addr: &str,
    cfg: &QuicListenerConfig,
    raw_backend: Option<RawBackend>,
    max_requests_per_h3_connection: u32,
) -> (r: QuicListenerParams)
    ensures
        r.bind_addr@ == bind_addr@,
        r.cert_path@ == cfg.cert_path@,
        r.key_path@ == cfg.key_path@,
        r.retry_secret_path@ == cfg.retry_secret_path@,
        r.max_idle_timeout_ms == cfg.max_idle_timeout_ms,
        r.max_recv_udp_payload_size == cfg.max_recv_udp_payload_size,
        r.h3_request_cap == request_cap(max_requests_per_h3_connection),
        r.raw == match raw_backend {
            Some(b) => Some(
                (
                    b,
                    match cfg.raw_proxy {
                        Some(rp) => rp.dgram_queue_cap,
                        None => DEFAULT_DGRAM_QUEUE,
                    },
                ),
            ),
            None => None,
        },
        !r.ws_enabled,
{
    let raw = match raw_backend {
        Some(b) => {
            let queue: usize = match &cfg.raw_proxy {
                Some(rp) => rp.dgram_queue_cap,
                None => DEFAULT_DGRAM_QUEUE,
            };
            Some((b, queue))
        },
        None => None,
    };
    QuicListenerParams {
        bind_addr: bind_addr.to_owned(),
        cert_path: cfg.cert_path.clone(),
        key_path: cfg.key_path.clone(),
        retry_secret_path: cfg.retry_secret_path.clone(),
        max_idle_timeout_ms: cfg.max_idle_timeout_ms,
        max_recv_udp_payload_size: cfg.max_recv_udp_payload_size,
        h3_request_cap: if max_requests_per_h3_connection == 0 {
            None
        } else {
            Some(max_requests_per_h3_connection)
        },
        raw,
        ws_enabled: false,
    }
}

/// Why a QUIC listener cannot be set up.
#[derive(Debug)]
pub enum QuicError {
    /// The listener has no QUIC settings.
    MissingQuic,
    /// The listen address is none.
    InvalidListen,
    /// The backend address of the raw relay is none.
    InvalidRawBackend { addr: String },
    /// There are no backends to forward to.
    NoBackends,
    /// The protocol of the first backend is unknown.
    BadProtocol,
    /// The HTTP/3 backends cannot share a pool.
    Trust(H3TrustError),
}

impl QuicError {
    /// The message of the error for a listener.
    pub fn message(&self, listener: &ListenerConfig) -> (out: String)
        ensures
            *self is MissingQuic ==> out@ == "listener "@ + listener.address@
                + " has protocol=quic but no [listeners.quic] block"@,
            *self is InvalidListen ==> out@ == "invalid listen address: "@ + listener.address@,
            *self matches QuicError::InvalidRawBackend { addr } ==> out@
                == "invalid Mode B raw_proxy backend_addr: "@ + addr@,
            *self is NoBackends ==> out@ == "listener "@ + listener.address@
                + ": wire_h3_terminate_backends called with no backends"@,
            *self is BadProtocol ==> out@ == "listener "@ + listener.address@ + " backend 0"@,
            *self matches QuicError::Trust(e) ==> call_ensures(H3TrustError::message, (&e,), out),
    {
        match self {
            QuicError::MissingQuic => {
                let mut out: String = "listener ".to_owned();
                out.append(&listener.address);
                out.append(" has protocol=quic but no [listeners.quic] block");
                out
            },
            QuicError::InvalidListen => {
                let mut out: String = "invalid listen address: ".to_owned();
                out.append(&listener.address);
                out
            },
            QuicError::InvalidRawBackend { addr } => {
                let mut out: String = "invalid Mode B raw_proxy backend_addr: ".to_owned();
                out.append(addr);
                out
            },
            QuicError::NoBackends => {
                let mut out: String = "listener ".to_owned();
                out.append(&listener.address);
                out.append(": wire_h3_terminate_backends called with no backends");
                out
            },
            QuicError::BadProtocol => {
                let mut out: String = "listener ".to_owned();
                out.append(&listener.address);
                out.append(" backend 0");
                out
            },
            QuicError::Trust(e) => e.message(),
        }
    }
}

/// What a QUIC listener is started with.
#[derive(Debug)]
pub struct QuicPlan {
    pub params: QuicListenerParams,
    /// Whether the rows on recycled connections are registered.
    pub recycle_metrics: bool,
    /// Whether the listener forwards requests to its backends.
    pub forwards: bool,
}

/// Whether WebSockets are accepted over HTTP/3: only when both switches are
/// on.
pub open spec fn h3_websocket(w: Option<WebsocketConfig>) -> bool {
    match w {
        Some(w) => w.enabled && w.h3_extended_connect,
        None => false,
    }
}

/// What a QUIC listener is started with. A raw relay neither recycles
/// connections, nor accepts WebSockets, nor forwards requests.
pub fn spawn_quic(
    listener: &ListenerConfig,
    bind_addr: &Option<String>,
    raw_addr: &Option<String>,
    max_requests_per_h3_connection: u32,
) -> (r: Result<QuicPlan, QuicError>)
    ensures
        match (listener.quic, *bind_addr) {
            (None, _) => r matches Err(e) && e is MissingQuic,
            (Some(_), None) => r matches Err(e) && e is InvalidListen,
            (Some(q), Some(bind)) => match (q.raw_proxy, *raw_addr) {
                (Some(rp), None) => r matches Err(QuicError::InvalidRawBackend { addr }) && addr@
                    == rp.backend_addr@,
                (raw_proxy, _) => {
                    &&& r matches Ok(plan)
                    &&& plan.params.bind_addr@ == bind@
                    &&& plan.params.cert_path@ == q.cert_path@
                    &&& plan.params.key_path@ == q.key_path@
                    &&& plan.params.retry_secret_path@ == q.retry_secret_path@
                    &&& plan.params.max_idle_timeout_ms == q.max_idle_timeout_ms
                    &&& plan.params.max_recv_udp_payload_size == q.max_recv_udp_payload_size
                    &&& plan.params.h3_request_cap == request_cap(max_requests_per_h3_connection)
                    &&& match raw_proxy {
                        Some(rp) => {
                            &&& plan.params.raw matches Some(raw)
                            &&& *raw_addr matches Some(a)
                            &&& is_raw_backend(raw.0, rp, a@)
                            &&& raw.1 == rp.dgram_queue_cap
                            &&& !plan.params.ws_enabled
                            &&& !plan.recycle_metrics
                            &&& !plan.forwards
                        },
                        None => {
                            &&& plan.params.raw is None
                            &&& plan.params.ws_enabled == h3_websocket(listener.websocket)
                            &&& plan.recycle_metrics == (max_requests_per_h3_connection != 0)
                            &&& plan.forwards == (listener.backends@.len() > 0)
                        },
                    }
                },
            },
        },
{
    let quic = match &listener.quic {
        Some(q) => q,
        None => {
            return Err(QuicError::MissingQuic);
        },
    };
    let bind = match bind_addr {
        Some(b) => b,
        None => {
            return Err(QuicError::InvalidListen);
        },
    };
    let raw = match &quic.raw_proxy {
        Some(rp) => match build_raw_quic_backend(rp, raw_addr) {
            Some(b) => Some(b),
            None => {
                return Err(QuicError::InvalidRawBackend { addr: rp.backend_addr.clone() });
            },
        },
        None => None,
    };
    let relays: bool = match &raw {
        Some(_) => true,
        None => false,
    };
    let mut params = quic_listener_params_from_config(
        bind,
        quic,
        raw,
        max_requests_per_h3_connection,
    );
    let websocket: bool = match &listener.websocket {
        Some(w) => w.enabled && w.h3_extended_connect,
        None => false,
    };
    if !relays && websocket {
        params.ws_enabled = true;
    }
    Ok(
        QuicPlan {
            params,
            recycle_metrics: !relays && max_requests_per_h3_connection != 0,
            forwards: !relays && listener.backends.len() != 0,
        },
    )
}

/// The relay of WebSockets to the backends.
#[derive(Debug, Clone, Copy, PartialEq, Eq, Structural)]
pub struct WsRelay {
    pub config: WsConfig,
    pub header_budget_ms: u64,
}

/// How an HTTP/3 front forwards requests.
#[derive(Debug)]
pub enum H3Leg {
    /// Over HTTP/1.1, to every backend.
    H1 { addresses: Vec<String>, relay: Option<WsRelay> },
    /// Over HTTP/2, to the first backend.
    H2 { pool: Http2PoolConfig, addr: String },
    /// Over HTTP/3, to the first backend.
    H3 { trust: H3Trust, addr: String, sni: String },
}

/// The name that the first HTTP/3 backend is verified against: the explicit
/// one, else the host part of its address, else the address.
pub open spec fn leg_name(first: BackendConfig) -> Seq<char> {
    match first.tls_verify_hostname {
        Some(name) => name@,
        None => match host_part(first.address@) {
            Some(host) => host,
            None => first.address@,
        },
    }
}

/// The relay of a listener that accepts WebSockets.
pub open spec fn relay_of(listener: ListenerConfig, ws_enabled: bool) -> Option<WsRelay> {
    match listener.websocket {
        Some(w) => if ws_enabled {
            Some(
                WsRelay {
                    config: ws_of(w),
                    header_budget_ms: match listener.http {
                        Some(h) => h.header_timeout_ms,
                        None => DEFAULT_HEADER_BUDGET_MS,
                    },
                },
            )
        } else {
            None
        },
        None => None,
    }
}

/// How an HTTP/3 front forwards requests: the protocol of the first backend
/// decides for all of them.
pub fn wire_h3_terminate_backends(
    listener: &ListenerConfig,
    addresses: &Vec<String>,
    ws_enabled: bool,
    pool_defaults: Http2PoolConfig,
) -> (r: Result<H3Leg, QuicError>)
    requires
        addresses@.len() == listener.backends@.len(),
    ensures
        if listener.backends@.len() == 0 {
            r matches Err(e) && e is NoBackends
        } else {
            match proto_named(listener.backends@[0].protocol@) {
                None => r matches Err(e) && e is BadProtocol,
                Some(UpstreamProto::H1) => {
                    &&& r matches Ok(H3Leg::H1 { addresses: to, relay })
                    &&& to@ == addresses@
                    &&& relay == relay_of(*listener, ws_enabled)
                },
                Some(UpstreamProto::H2) => {
                    &&& r matches Ok(H3Leg::H2 { pool, addr })
                    &&& pool == pool_limits(pool_defaults, listener.h2_security)
                    &&& addr@ == addresses@[0]@
                },
                Some(UpstreamProto::H3) => match r {
                    Ok(H3Leg::H3 { trust, addr, sni }) => {
                        &&& trust_outcome(h3_backends(listener.backends@), Ok(trust))
                        &&& addr@ == addresses@[0]@
                        &&& sni@ == leg_name(listener.backends@[0])
                    },
                    Err(QuicError::Trust(e)) => trust_outcome(
                        h3_backends(listener.backends@),
                        Err(e),
                    ),
                    _ => false,
                },
            }
        },
{
    if listener.backends.len() == 0 {
        return Err(QuicError::NoBackends);
    }
    let first = &listener.backends[0];
    match parse_upstream_proto(&first.protocol) {
        None => Err(QuicError::BadProtocol),
        Some(UpstreamProto::H1) => {
            let relay = match &listener.websocket {
                Some(w) => if ws_enabled {
                    let header_budget_ms: u64 = match &listener.http {
                        Some(h) => h.header_timeout_ms,
                        None => DEFAULT_HEADER_BUDGET_MS,
                    };
                    Some(WsRelay { config: ws_config_to_runtime(w), header_budget_ms })
                } else {
                    None
                },
                None => None,
            };
            Ok(H3Leg::H1 { addresses: copy_addresses(addresses), relay })
        },
        Some(UpstreamProto::H2) => Ok(
            H3Leg::H2 {
                pool: build_h2_upstream_pool(pool_defaults, &listener.h2_security),
                addr: addresses[0].clone(),
            },
        ),
        Some(UpstreamProto::H3) => {
            let shared = collect_h3_backends(&listener.backends);
            match build_h3_upstream_pool(&shared) {
                Err(e) => Err(QuicError::Trust(e)),
                Ok(trust) => {
                    let sni = match &first.tls_verify_hostname {
                        Some(name) => name.clone(),
                        None => match host_of(&first.address) {
                            Some(host) => host,
                            None => first.address.clone(),
                        },
                    };
                    Ok(H3Leg::H3 { trust, addr: addresses[0].clone(), sni })
                },
            }
        },
    }
}

fn copy_addresses(addresses: &Vec<String>) -> (out: Vec<String>)
    ensures
        out@ == addresses@,
{
    let mut out: Vec<String> = Vec::new();
    let mut i: usize = 0;
    while i < addresses.len()
        invariant
            i <= addresses@.len(),
            out@ == addresses@.take(i as int),
        decreases addresses@.len() - i,
    {
        out.push(addresses[i].clone());
        i += 1;
    }
    assert(addresses@.take(i as int) =~= addresses@);
    out
}

/// What became of the dial and the handshake towards a WebSocket backend.
#[derive(Debug)]
pub enum WsDial {
    /// There is no backend.
    NoBackend,
    /// The backend agreed, on a subprotocol if it named one.
    Agreed { subprotocol: Option<String> },
    /// The dial failed or the backend refused.
    Refused,
    /// The time ran out.
    TimedOut,
}

/// What the client is told before anything is relayed.
#[derive(Debug)]
pub enum WsUpstreamOutcome {
    Ready { headers: Vec<(String, String)> },
    Failed { status: u16 },
}

/// What the client is told: success only once the backend has agreed.
pub fn ws_upstream_outcome(dial: WsDial) -> (r: WsUpstreamOutcome)
    ensures
        match dial {
            WsDial::NoBackend | WsDial::Refused => r == (WsUpstreamOutcome::Failed { status: 502 }),
            WsDial::TimedOut => r == (WsUpstreamOutcome::Failed { status: 504 }),
            WsDial::Agreed { subprotocol } => {
                &&& r matches WsUpstreamOutcome::Ready { headers }
                &&& match subprotocol {
                    Some(p) => {
                        &&& headers@.len() == 1
                        &&& headers@[0].0@ == "sec-websocket-protocol"@
                        &&& headers@[0].1@ == p@
                    },
                    None => headers@.len() == 0,
                }
            },
        },
{
    match dial {
        WsDial::NoBackend => WsUpstreamOutcome::Failed { status: 502 },
        WsDial::Refused => WsUpstreamOutcome::Failed { status: 502 },
        WsDial::TimedOut => WsUpstreamOutcome::Failed { status: 504 },
        WsDial::Agreed { subprotocol } => {
            let mut headers: Vec<(String, String)> = Vec::new();
            match subprotocol {
                Some(p) => {
                    headers.push(("sec-websocket-protocol".to_owned(), p));
                },
                None => {},
            }
            WsUpstreamOutcome::Ready { headers }
        },
    }
}

/// The name that an HTTP/3 backend is verified against. An explicit name is
/// taken as it is. Without one it is the host of an address `host:port` or
/// `[host]:port`, never with the port or the brackets; an address without a
/// colon stands for itself.
pub proof fn law_backend_is_verified_by_host(
    listener: ListenerConfig,
    addresses: Vec<String>,
    ws_enabled: bool,
    pool_defaults: Http2PoolConfig,
    leg: H3Leg,
    host: Seq<char>,
    port: u16,
)
    requires
        call_ensures(
            wire_h3_terminate_backends,
            (&listener, &addresses, ws_enabled, pool_defaults),
            Ok(leg),
        ),
        listener.backends@[0].protocol@ == "h3"@,
    ensures
        leg matches H3Leg::H3 { trust, addr, sni } && addr@ == addresses@[0]@ && ({
            let first = listener.backends@[0];
            let tail = decimal(port as nat);
            &&& first.tls_verify_hostname matches Some(name) ==> sni@ == name@
            &&& first.tls_verify_hostname is None ==> {
                &&& first.address@ == host + seq![':'] + tail && !(host.len() > 0 && host[0] == '[')
                    ==> sni@ == host
                &&& first.address@ == seq!['['] + host + seq![']', ':'] + tail && !host.contains(']')
                    ==> sni@ == host
                &&& !first.address@.contains(':') ==> sni@ == first.address@
            }
        }),
{
    reveal_strlit("tcp");
    reveal_strlit("h1");
    reveal_strlit("h2");
    reveal_strlit("h3");
    let first = listener.backends@[0];
    assert(first.protocol@.len() == 2 && first.protocol@[1] == '3');
    assert("h1"@[1] == '1' && "h2"@[1] == '2' && "tcp"@.len() == 3);
    let a = first.address@;
    lemma_host_of_address(a, host, port);
}

/// Which way an HTTP/3 front forwards: the way that its first backend speaks. Over
/// HTTP/1.1 every backend is used, over the others the first one. WebSockets are
/// relayed exactly over HTTP/1.1 where they are both configured and enabled, with
/// the time that the listener gives a head, by default thirty seconds. Every
/// HTTP/3 backend is verified as it is configured.
pub proof fn law_front_forwards(
    listener: ListenerConfig,
    addresses: Vec<String>,
    ws_enabled: bool,
    pool_defaults: Http2PoolConfig,
    r: Result<H3Leg, QuicError>,
    k: int,
)
    requires
        call_ensures(
            wire_h3_terminate_backends,
            (&listener, &addresses, ws_enabled, pool_defaults),
            r,
        ),
    ensures
        listener.backends@.len() == 0 ==> r is Err && r->Err_0 is NoBackends,
        listener.backends@.len() > 0 ==> ({
            let first = listener.backends@[0].protocol@;
            &&& first == "tcp"@ || first == "h1"@ ==> r is Ok && r->Ok_0 is H1
            &&& first == "h2"@ ==> r is Ok && r->Ok_0 is H2
            &&& first == "h3"@ && r is Ok ==> r->Ok_0 is H3
            &&& first != "tcp"@ && first != "h1"@ && first != "h2"@ && first != "h3"@ ==> r is Err
                && r->Err_0 is BadProtocol
        }),
        r matches Ok(H3Leg::H1 { addresses: to, relay }) ==> {
            &&& to@ == addresses@
            &&& relay is Some <==> listener.websocket is Some && ws_enabled
            &&& relay matches Some(w) ==> {
                &&& w.config.enabled == listener.websocket->0.enabled
                &&& w.config.idle_timeout_secs == listener.websocket->0.idle_timeout_seconds
                &&& w.config.max_message_size == listener.websocket->0.max_message_size_bytes
                &&& listener.http is None ==> w.header_budget_ms == 30_000
                &&& listener.http matches Some(h) ==> w.header_budget_ms == h.header_timeout_ms
            }
        },
        r matches Ok(H3Leg::H2 { pool, addr }) ==> addr@ == addresses@[0]@ && (
        listener.h2_security is None ==> pool == pool_defaults),
        r matches Ok(H3Leg::H3 { trust, addr, sni }) ==> addr@ == addresses@[0]@ && (0 <= k
            < listener.backends@.len() && listener.backends@[k].protocol@ == "h3"@ ==> {
            &&& trust.verify == listener.backends@[k].tls_verify_peer
            &&& trust.verify ==> trust.ca_path is Some && listener.backends@[k].tls_ca_path is Some
                && trust.ca_path->0@ == listener.backends@[k].tls_ca_path->0@
                && trust.ca_path->0@.len() > 0
        }),
{
    lemma_protocols_differ();
    if r is Ok && 0 <= k < listener.backends@.len() && listener.backends@[k].protocol@ == "h3"@ {
        match r->Ok_0 {
            H3Leg::H3 { trust, addr, sni } => {
                lemma_is_h3(listener.backends@, k);
                let all = h3_backends(listener.backends@);
                let j = choose|j: int| 0 <= j < all.len() && all[j] == listener.backends@[k];
                assert(same_trust(all[j], all[0]));
                assert(text_of(trust.ca_path) == text_of(all[j].tls_ca_path));
            },
            _ => {},
        }
    }
}

/// What a QUIC listener is started with. It starts exactly when it has settings,
/// its own address is valid and, where it relays raw packets, the backend's too.
/// A relay of raw packets neither forwards requests nor takes WebSockets; HTTP/3
/// takes WebSockets exactly when both switches are on. A cap of zero is none.
pub proof fn law_quic_starts(
    listener: ListenerConfig,
    bind_addr: Option<String>,
    raw_addr: Option<String>,
    cap: u32,
    r: Result<QuicPlan, QuicError>,
)
    requires
        call_ensures(spawn_quic, (&listener, &bind_addr, &raw_addr, cap), r),
    ensures
        r is Ok <==> listener.quic is Some && bind_addr is Some && (listener.quic->0.raw_proxy is None
            || raw_addr is Some),
        listener.quic is None ==> r is Err && r->Err_0 is MissingQuic,
        listener.quic is Some && bind_addr is None ==> r is Err && r->Err_0 is InvalidListen,
        r matches Ok(plan) ==> {
            let q = listener.quic->0;
            &&& plan.params.bind_addr@ == bind_addr->0@
            &&& plan.params.cert_path@ == q.cert_path@
            &&& plan.params.key_path@ == q.key_path@
            &&& plan.params.retry_secret_path@ == q.retry_secret_path@
            &&& plan.params.max_idle_timeout_ms == q.max_idle_timeout_ms
            &&& plan.params.max_recv_udp_payload_size == q.max_recv_udp_payload_size
            &&& cap == 0 ==> plan.params.h3_request_cap is None
            &&& cap > 0 ==> plan.params.h3_request_cap == Some(cap)
            &&& plan.params.raw is Some <==> q.raw_proxy is Some
            &&& q.raw_proxy matches Some(rp) ==> {
                let raw = plan.params.raw->0;
                &&& raw.0.addr@ == raw_addr->0@
                &&& raw.0.sni@ == rp.sni@
                &&& raw.0.ca_path is Some <==> rp.backend_ca_path is Some
                &&& raw.0.ca_path is Some ==> raw.0.ca_path->0@ == rp.backend_ca_path->0@
                &&& raw.0.dgram_queue_cap == rp.dgram_queue_cap
                &&& raw.0.max_relay_streams == rp.max_relay_streams
                &&& raw.1 == rp.dgram_queue_cap
            }
            &&& plan.params.ws_enabled <==> q.raw_proxy is None && listener.websocket is Some
                && listener.websocket->0.enabled && listener.websocket->0.h3_extended_connect
            &&& plan.recycle_metrics <==> q.raw_proxy is None && cap > 0
            &&& plan.forwards <==> q.raw_proxy is None && listener.backends@.len() > 0
        },
{
    if r is Ok {
        let plan = r->Ok_0;
        if listener.quic->0.raw_proxy is Some {
            let rp = listener.quic->0.raw_proxy->0;
            let raw = plan.params.raw->0;
            assert(text_of(raw.0.ca_path) == text_of(rp.backend_ca_path));
        }
    }
}

/// What the client of a WebSocket is told: success exactly when the backend has
/// agreed, with the backend's subprotocol; 504 when the time ran out and 502
/// otherwise.
pub proof fn law_websocket_answer(dial: WsDial, r: WsUpstreamOutcome)
    requires
        call_ensures(ws_upstream_outcome, (dial,), r),
    ensures
        r is Ready <==> dial is Agreed,
        dial is TimedOut ==> r == (WsUpstreamOutcome::Failed { status: 504 }),
        dial is NoBackend || dial is Refused ==> r == (WsUpstreamOutcome::Failed { status: 502 }),
        dial matches WsDial::Agreed { subprotocol } ==> {
            let headers = r->headers@;
            &&& subprotocol is None ==> headers.len() == 0
            &&& subprotocol matches Some(p) ==> headers.len() == 1 && headers[0].0@
                == "sec-websocket-protocol"@ && headers[0].1@ == p@
        },
{
}

/// What an HTTP/3 front that forwards over HTTP/2 or HTTP/3 has: over HTTP/2 the
/// limits that its settings come to; over HTTP/3 the trust that its backends agree
/// on, and it starts exactly when they do.
pub proof fn law_leg_settings(
    listener: ListenerConfig,
    addresses: Vec<String>,
    ws_enabled: bool,
    pool_defaults: Http2PoolConfig,
    r: Result<H3Leg, QuicError>,
    limits: Http2PoolConfig,
    h3: Vec<BackendConfig>,
    agreed: Result<H3Trust, H3TrustError>,
)
    requires
        call_ensures(
            wire_h3_terminate_backends,
            (&listener, &addresses, ws_enabled, pool_defaults),
            r,
        ),
        call_ensures(build_h2_upstream_pool, (pool_defaults, &listener.h2_security), limits),
        call_ensures(collect_h3_backends, (&listener.backends,), h3),
        call_ensures(build_h3_upstream_pool, (&h3,), agreed),
    ensures
        r matches Ok(H3Leg::H2 { pool, addr }) ==> pool == limits,
        listener.backends@.len() > 0 && listener.backends@[0].protocol@ == "h3"@ ==> (r is Ok
            <==> agreed is Ok),
        r matches Ok(H3Leg::H3 { trust, addr, sni }) ==> agreed is Ok && trust.verify
            == agreed->Ok_0.verify && text_of(trust.ca_path) == text_of(agreed->Ok_0.ca_path),
{
    lemma_protocols_differ();
    lemma_agreed(h3@, agreed);
    match r {
        Ok(H3Leg::H3 { trust, addr, sni }) => {
            lemma_agreed(h3@, Ok(trust));
        },
        Err(QuicError::Trust(e)) => {
            lemma_agreed(h3@, Err(e));
        },
        _ => {},
    }
}

/// What a relay of raw packets is given: the backend's own settings at the address
/// that was resolved; without one there is none. A cap of zero on requests is no
/// cap.
pub proof fn law_raw_backend(
    cfg: RawQuicProxyConfig,
    addr: Option<String>,
    r: Option<RawBackend>,
    bind: &str,
    quic: QuicListenerConfig,
    cap: u32,
    p: QuicListenerParams,
)
    requires
        call_ensures(build_raw_quic_backend, (&cfg, &addr), r),
        call_ensures(quic_listener_params_from_config, (bind, &quic, r, cap), p),
    ensures
        r is Some <==> addr is Some,
        r matches Some(b) ==> {
            &&& b.addr@ == addr->0@
            &&& b.sni@ == cfg.sni@
            &&& text_of(b.ca_path) == text_of(cfg.backend_ca_path)
            &&& b.dgram_queue_cap == cfg.dgram_queue_cap
            &&& b.max_relay_streams == cfg.max_relay_streams
        },
        p.raw is Some <==> addr is Some,
        p.raw matches Some(raw) ==> raw.0 == r->0 && (quic.raw_proxy is None ==> raw.1 == 1_024) && (
        quic.raw_proxy matches Some(own) ==> raw.1 == own.dgram_queue_cap),
        p.bind_addr@ == bind@,
        p.cert_path@ == quic.cert_path@,
        p.key_path@ == quic.key_path@,
        cap == 0 ==> p.h3_request_cap is None,
        cap > 0 ==> p.h3_request_cap == Some(cap),
        !p.ws_enabled,
{
}

} // verus!
