use expressgateway::gateway::accept::{
    backoff_with, classify_accept_error, dial_failure, drain_jitter, drain_jitter_with,
    next_accept_backoff, serve_path, status_class, AcceptAction, AcceptErrorKind, AcceptEvent, AcceptLoop, Dial, IoKind, SecurityReject,
    ServePath, Stage, SHED_RESPONSE,
};
use expressgateway::gateway::boot::{
    any_started, config_path, config_shape, drain_accounting, drain_plan, drain_series, health_seed,
    on_signal, settings, smuggle_mode, start_of, unfinished, validate_bind, AdminBindError, DrainBudget,
    DrainPhase, LifecycleSignal, PanicTotals, ShutdownStep, SignalAction, SmuggleMode, Start,
    DEFAULT_CONFIG_PATH,
};
use expressgateway::gateway::config::{
    BackendConfig, H2SecurityConfig, ListenerConfig, QuicListenerConfig, RawQuicProxyConfig,
    RuntimeConfig, TlsConfig, WebsocketConfig,
};
use expressgateway::gateway::metrics::{certificate_metrics, hotpath_metrics, reload_metrics, Shape};
use expressgateway::gateway::mode::{
    build_listener_mode, rebuild_l7_proxies, tls_terms, L7Defaults, ListenerMode, ModeError,
    ReloadableProxies,
};
use expressgateway::gateway::quic::{
    build_raw_quic_backend, quic_listener_params_from_config, spawn_quic, wire_h3_terminate_backends,
    ws_upstream_outcome, H3Leg, QuicError, WsDial, WsUpstreamOutcome,
};
use expressgateway::gateway::reload::{
    after_manager, after_validation, listeners_to_rebuild, loaded_at, rebuild_target, reload_all_tls,
    reload_report, Candidate, Manager, Rebuilt, Reload, ReloadStage, ReloadStep, SwappableChange, Target,
};
use expressgateway::gateway::upstream::{
    any_speaks, backend_opts, build_h2_upstream_pool, build_h3_upstream_pool, build_upstream_backends,
    collect_h3_backends, dns_counter, first_address, h3_pool_limits, host_of, listener_opts,
    merge_h2_security, parse_upstream_proto, raw_relay_limits, split_host_port, tcp_backends,
    unknown_protocol, H2SecurityThresholds, H3TrustError, Http2PoolConfig, HttpTimeouts, Lookup,
    LookupError, UpstreamError, UpstreamProto,
};
use expressgateway::net::IpAddr;
use expressgateway::xdp::{
    cfg_to_loader_mode, decide_caps, may_attach, probe_caps, probe_caps_with, xdp_start, CapMode, CapState,
    Capability, LoaderMode, XdpModeChoice, XdpStart,
};

fn backend(address: &str, protocol: &str) -> BackendConfig {
    BackendConfig {
        address: address.to_string(),
        protocol: protocol.to_string(),
        weight: 1,
        tls_ca_path: None,
        tls_verify_hostname: None,
        tls_verify_peer: true,
    }
}

fn h3_backend(address: &str, ca: Option<&str>, verify: bool) -> BackendConfig {
    BackendConfig {
        address: address.to_string(),
        protocol: "h3".to_string(),
        weight: 1,
        tls_ca_path: ca.map(String::from),
        tls_verify_hostname: None,
        tls_verify_peer: verify,
    }
}

fn listener(protocol: &str, backends: Vec<BackendConfig>) -> ListenerConfig {
    ListenerConfig {
        address: "127.0.0.1:0".to_string(),
        protocol: protocol.to_string(),
        tls: None,
        quic: None,
        alt_svc: None,
        http: None,
        h2_security: None,
        websocket: None,
        grpc: None,
        backends,
    }
}

fn tls() -> TlsConfig {
    TlsConfig {
        cert_path: "/c.pem".to_string(),
        key_path: "/k.pem".to_string(),
        ticket_rotation_interval_seconds: 3600,
        ticket_rotation_overlap_seconds: 600,
    }
}

fn defaults() -> L7Defaults {
    L7Defaults {
        pool: pool_defaults(),
        timeouts: HttpTimeouts { header_ms: 10, body_ms: 20, total_ms: 30, head_ms: 40 },
        security: thresholds(),
    }
}

fn pool_defaults() -> Http2PoolConfig {
    Http2PoolConfig {
        max_concurrent_streams: 256,
        initial_stream_window: 65_536,
        keep_alive_interval_ms: 1,
        keep_alive_timeout_ms: 2,
    }
}

fn thresholds() -> H2SecurityThresholds {
    H2SecurityThresholds {
        max_pending_accept_reset_streams: 1,
        max_local_error_reset_streams: 2,
        max_concurrent_streams: 3,
        max_header_list_size: 4,
        max_send_buf_size: 5,
        keep_alive_interval_ms: Some(6),
        keep_alive_timeout_ms: 7,
        initial_stream_window_size: 8,
        initial_connection_window_size: 9,
    }
}

#[test]
fn build_h3_upstream_pool_rejects_mismatched_verify_peer() {
    let a = h3_backend("127.0.0.1:4001", Some("/etc/ssl/ca.pem"), true);
    let b = h3_backend("127.0.0.1:4002", Some("/etc/ssl/ca.pem"), false);
    let err = build_h3_upstream_pool(&vec![a, b]).unwrap_err();
    assert!(
        err.message().contains("must share tls_verify_peer"),
        "expected mismatch error, got: {}",
        err.message()
    );
}

#[test]
fn build_h3_upstream_pool_rejects_mismatched_ca_path() {
    let a = h3_backend("127.0.0.1:4001", Some("/etc/ssl/ca-a.pem"), true);
    let b = h3_backend("127.0.0.1:4002", Some("/etc/ssl/ca-b.pem"), true);
    let err = build_h3_upstream_pool(&vec![a, b]).unwrap_err();
    assert!(err.message().contains("must share"), "expected mismatch error, got: {}", err.message());
}

#[test]
fn build_h3_upstream_pool_rejects_empty_backend_list() {
    let err = build_h3_upstream_pool(&vec![]).unwrap_err();
    assert!(
        err.message().contains("zero H3 backends"),
        "expected zero-backends error, got: {}",
        err.message()
    );
}

#[test]
fn build_h3_upstream_pool_rejects_verify_without_ca() {
    let a = h3_backend("127.0.0.1:4001", None, true);
    let err = build_h3_upstream_pool(&vec![a]).unwrap_err();
    assert!(
        err.message().contains("requires tls_ca_path"),
        "expected ca-required error, got: {}",
        err.message()
    );
}

#[test]
fn build_h3_upstream_pool_accepts_uniform_verify_off_without_ca() {
    let a = h3_backend("127.0.0.1:4001", None, false);
    let b = h3_backend("127.0.0.1:4002", None, false);
    let trust = build_h3_upstream_pool(&vec![a, b]).unwrap();
    assert!(!trust.verify);
}

#[test]
fn a_certificate_is_kept_where_it_is_verified() {
    let a = h3_backend("127.0.0.1:4001", Some("/ca"), true);
    let b = h3_backend("127.0.0.1:4002", Some("/ca"), true);
    let trust = build_h3_upstream_pool(&vec![a, b]).unwrap();
    assert!(trust.verify);
    assert_eq!(trust.ca_path, Some("/ca".to_string()));
    let lone = h3_backend("127.0.0.1:4003", None, true);
    assert!(matches!(
        build_h3_upstream_pool(&vec![lone]),
        Err(H3TrustError::MissingCa { .. })
    ));
}

fn quic_cfg_with_raw_proxy(raw: Option<RawQuicProxyConfig>) -> QuicListenerConfig {
    QuicListenerConfig {
        cert_path: "/tmp/eg-test-cert.pem".to_string(),
        key_path: "/tmp/eg-test-key.pem".to_string(),
        retry_secret_path: "/tmp/eg-test-retry.secret".to_string(),
        max_idle_timeout_ms: 30_000,
        max_recv_udp_payload_size: 1_350,
        raw_proxy: raw,
    }
}

fn raw_proxy_block() -> RawQuicProxyConfig {
    RawQuicProxyConfig {
        backend_addr: "127.0.0.1:4443".to_string(),
        sni: "backend.test".to_string(),
        backend_ca_path: None,
        dgram_queue_cap: 512,
        max_relay_streams: 128,
    }
}

#[test]
fn raw_proxy_present_builds_mode_b_params() {
    let rp = raw_proxy_block();
    let cfg = quic_cfg_with_raw_proxy(Some(raw_proxy_block()));
    let backend = build_raw_quic_backend(&rp, &Some("127.0.0.1:4443".to_string()));
    assert!(backend.is_some(), "build raw backend");
    let params = quic_listener_params_from_config("127.0.0.1:0", &cfg, backend, 0);
    let (raw, queue) = params.raw.expect("a raw_proxy block must produce a relaying listener");
    assert_eq!(queue, 512, "the datagram cap must come from the raw_proxy block");
    assert_eq!(raw.sni, "backend.test");
    assert_eq!(raw.max_relay_streams, 128);
}

#[test]
fn no_raw_proxy_keeps_h3_termination_params() {
    let cfg = quic_cfg_with_raw_proxy(None);
    let params = quic_listener_params_from_config("127.0.0.1:0", &cfg, None, 0);
    assert!(params.raw.is_none(), "without raw_proxy the listener terminates HTTP/3");
    assert_eq!(params.h3_request_cap, None);
    let capped = quic_listener_params_from_config("127.0.0.1:0", &cfg, None, 50);
    assert_eq!(capped.h3_request_cap, Some(50));
}

fn h3_terminate_cfg_with_backend(backend: BackendConfig) -> ListenerConfig {
    let mut l = listener("quic", vec![backend]);
    l.quic = Some(quic_cfg_with_raw_proxy(None));
    l
}

#[test]
fn wire_h3_terminate_backends_dispatches_h2_arm() {
    let cfg = h3_terminate_cfg_with_backend(backend("127.0.0.1:3001", "h2"));
    let leg =
        wire_h3_terminate_backends(&cfg, &vec!["127.0.0.1:3001".to_string()], false, pool_defaults());
    match leg {
        Ok(H3Leg::H2 { pool, addr }) => {
            assert_eq!(addr, "127.0.0.1:3001");
            assert_eq!(pool.max_concurrent_streams, 256);
        }
        _ => panic!("an h2 backend must wire the h2 leg and no other"),
    }
}

#[test]
fn wire_h3_terminate_backends_dispatches_h3_arm() {
    let mut b = h3_backend("127.0.0.1:3002", None, false);
    b.tls_verify_hostname = Some("h3.backend.test".to_string());
    let cfg = h3_terminate_cfg_with_backend(b);
    let leg =
        wire_h3_terminate_backends(&cfg, &vec!["127.0.0.1:3002".to_string()], false, pool_defaults());
    match leg {
        Ok(H3Leg::H3 { addr, sni, .. }) => {
            assert_eq!(addr, "127.0.0.1:3002", "the resolved backend address must be threaded through");
            assert_eq!(sni, "h3.backend.test", "the hostname override must become the server name");
        }
        _ => panic!("an h3 backend must wire the h3 leg and no other"),
    }
}

#[test]
fn wire_h3_terminate_backends_dispatches_h1_arm() {
    let cfg = h3_terminate_cfg_with_backend(backend("127.0.0.1:3003", "h1"));
    let leg =
        wire_h3_terminate_backends(&cfg, &vec!["127.0.0.1:3003".to_string()], false, pool_defaults());
    match leg {
        Ok(H3Leg::H1 { addresses, relay }) => {
            assert_eq!(addresses, vec!["127.0.0.1:3003".to_string()]);
            assert!(relay.is_none());
        }
        _ => panic!("an h1 backend must fill the h1 list and no other"),
    }
}

#[test]
fn h3_legs_that_cannot_be_wired() {
    let empty = {
        let mut l = listener("quic", vec![]);
        l.quic = Some(quic_cfg_with_raw_proxy(None));
        l
    };
    assert!(matches!(
        wire_h3_terminate_backends(&empty, &vec![], false, pool_defaults()),
        Err(QuicError::NoBackends)
    ));
    let odd = h3_terminate_cfg_with_backend(backend("127.0.0.1:1", "h9"));
    let addresses = vec!["127.0.0.1:1".to_string()];
    assert!(matches!(
        wire_h3_terminate_backends(&odd, &addresses, false, pool_defaults()),
        Err(QuicError::BadProtocol)
    ));
    let untrusted = h3_terminate_cfg_with_backend(h3_backend("127.0.0.1:1", None, true));
    assert!(matches!(
        wire_h3_terminate_backends(&untrusted, &addresses, false, pool_defaults()),
        Err(QuicError::Trust(H3TrustError::MissingCa { .. }))
    ));
}

#[test]
fn build_raw_quic_backend_rejects_unparseable_addr() {
    let mut rp = raw_proxy_block();
    rp.backend_addr = "not-an-addr".to_string();
    assert!(build_raw_quic_backend(&rp, &None).is_none());
    let mut l = listener("quic", vec![]);
    l.quic = Some(quic_cfg_with_raw_proxy(Some(rp)));
    let err = match spawn_quic(&l, &Some("127.0.0.1:0".to_string()), &None, 0) {
        Err(e) => e.message(&l),
        Ok(_) => String::new(),
    };
    assert!(
        err.contains("invalid Mode B raw_proxy backend_addr"),
        "expected a clear parse error, got: {}",
        err
    );
}

#[test]
fn a_quic_listener_needs_its_block_and_an_address() {
    let bare = listener("quic", vec![]);
    let bind = Some("127.0.0.1:0".to_string());
    assert!(matches!(spawn_quic(&bare, &bind, &None, 0), Err(QuicError::MissingQuic)));
    let mut l = listener("quic", vec![backend("b:1", "h1")]);
    l.quic = Some(quic_cfg_with_raw_proxy(None));
    assert!(matches!(spawn_quic(&l, &None, &None, 0), Err(QuicError::InvalidListen)));
    let plan = match spawn_quic(&l, &bind, &None, 7) {
        Ok(p) => p,
        Err(_) => panic!("a complete listener must start"),
    };
    assert!(plan.forwards);
    assert!(plan.recycle_metrics);
    assert_eq!(plan.params.h3_request_cap, Some(7));
}

#[test]
fn websocket_dial_outcomes() {
    assert!(matches!(
        ws_upstream_outcome(WsDial::NoBackend),
        WsUpstreamOutcome::Failed { status: 502 }
    ));
    assert!(matches!(ws_upstream_outcome(WsDial::Refused), WsUpstreamOutcome::Failed { status: 502 }));
    assert!(matches!(ws_upstream_outcome(WsDial::TimedOut), WsUpstreamOutcome::Failed { status: 504 }));
    match ws_upstream_outcome(WsDial::Agreed { subprotocol: Some("chat".to_string()) }) {
        WsUpstreamOutcome::Ready { headers } => {
            assert_eq!(headers, vec![("sec-websocket-protocol".to_string(), "chat".to_string())]);
        }
        _ => panic!("an agreed dial is ready"),
    }
}

#[test]
fn lifecycle_signal_display_matches_canonical_names() {
    assert_eq!(LifecycleSignal::SigTerm.to_string(), "SIGTERM");
    assert_eq!(LifecycleSignal::SigInt.to_string(), "SIGINT");
    assert_eq!(LifecycleSignal::SigUsr1.to_string(), "SIGUSR1");
    assert_eq!(LifecycleSignal::SigHup.to_string(), "SIGHUP");
}

fn io_kind(e: &std::io::Error) -> IoKind {
    match e.kind() {
        std::io::ErrorKind::ConnectionReset => IoKind::ConnectionReset,
        std::io::ErrorKind::ConnectionAborted => IoKind::ConnectionAborted,
        _ => IoKind::Other,
    }
}

#[test]
fn classify_accept_error_recognises_emfile() {
    let e = std::io::Error::from_raw_os_error(24);
    assert_eq!(
        classify_accept_error(e.raw_os_error(), io_kind(&e)),
        AcceptErrorKind::EmfileOrEnfile
    );
}

#[test]
fn classify_accept_error_recognises_enfile() {
    let e = std::io::Error::from_raw_os_error(23);
    assert_eq!(
        classify_accept_error(e.raw_os_error(), io_kind(&e)),
        AcceptErrorKind::EmfileOrEnfile
    );
}

#[test]
fn classify_accept_error_recognises_conn_reset() {
    let e = std::io::Error::new(std::io::ErrorKind::ConnectionReset, "peer rst");
    assert_eq!(classify_accept_error(e.raw_os_error(), io_kind(&e)), AcceptErrorKind::ConnReset);
}

#[test]
fn classify_accept_error_unknown_is_fatal() {
    let e = std::io::Error::other("permission denied");
    assert_eq!(classify_accept_error(e.raw_os_error(), io_kind(&e)), AcceptErrorKind::Fatal);
}

#[test]
fn accept_error_labels() {
    assert_eq!(AcceptErrorKind::EmfileOrEnfile.as_label(), "fd_exhausted");
    assert_eq!(AcceptErrorKind::ConnReset.as_label(), "conn_reset");
    assert_eq!(AcceptErrorKind::Fatal.as_label(), "fatal");
    assert_eq!(SecurityReject::OverCap.as_label(), "over_cap");
}

#[test]
fn test_emfile_no_busy_loop() {
    let mut d: u64 = 0;
    for _ in 0..20 {
        d = next_accept_backoff(d);
        assert!(d >= 1, "backoff must not be zero");
        assert!(d <= 1_250, "backoff capped at 1 s + jitter, got {}", d);
    }
    for _ in 0..20 {
        d = next_accept_backoff(d);
        assert!(d >= 750);
        assert!(d <= 1_250);
    }
}

#[test]
fn backoff_for_given_draws() {
    assert_eq!(backoff_with(0, 0), 8);
    assert_eq!(backoff_with(1_000, 0), 750);
    assert_eq!(backoff_with(1_000, 500), 1_250);
}

#[test]
fn drains_spread_below_the_ceiling() {
    for _ in 0..50 {
        assert!(drain_jitter(10) < 10);
    }
    assert_eq!(drain_jitter(0), 0);
    assert_eq!(drain_jitter(1), 0);
    let first = drain_jitter(1 << 60);
    assert!((0..50).any(|_| drain_jitter(1 << 60) != first), "connections must not drain in step");
    assert_eq!(drain_jitter_with(10, 0), 0);
    assert_eq!(drain_jitter_with(10, 9), 9);
    assert_eq!(drain_jitter_with(0, 7), 0);
}

#[test]
fn test_503_when_over_inflight_h1() {
    assert!(SHED_RESPONSE.starts_with("HTTP/1.1 503 Service Unavailable\r\n"));
    assert!(SHED_RESPONSE.contains("connection: close"), "must signal close");
    assert!(SHED_RESPONSE.contains("listener over capacity"), "body must explain the shed");
}

#[test]
fn a_connection_goes_through_every_check() {
    let mut l = AcceptLoop::new(true, 2);
    assert_eq!(l.step(AcceptEvent::Accepted), AcceptAction::CheckCancel);
    assert_eq!(l.step(AcceptEvent::TailCheck(false)), AcceptAction::Admit);
    assert_eq!(l.step(AcceptEvent::Admission(None)), AcceptAction::TakePermit);
    assert_eq!(l.step(AcceptEvent::Permit(true)), AcceptAction::Pick);
    assert_eq!(l.step(AcceptEvent::Picked(Some(1))), AcceptAction::Serve(1));
    assert_eq!(l.stage, Stage::Waiting);
    l.step(AcceptEvent::Accepted);
    l.step(AcceptEvent::TailCheck(false));
    assert_eq!(
        l.step(AcceptEvent::Admission(Some(SecurityReject::OverCap))),
        AcceptAction::Reject(SecurityReject::OverCap)
    );
    l.step(AcceptEvent::Accepted);
    l.step(AcceptEvent::TailCheck(false));
    l.step(AcceptEvent::Admission(None));
    assert_eq!(l.step(AcceptEvent::Permit(false)), AcceptAction::Shed { respond: true });
    assert_eq!(l.step(AcceptEvent::Cancelled), AcceptAction::Stop);
    assert_eq!(l.stage, Stage::Stopped);
}

#[test]
fn accept_failures_pause_or_end_the_loop() {
    let mut l = AcceptLoop::new(false, 1);
    match l.step(AcceptEvent::Failed(AcceptErrorKind::EmfileOrEnfile)) {
        AcceptAction::Sleep(ms) => assert!(ms >= 1 && ms <= 1_250),
        _ => panic!("running out of descriptors pauses the loop"),
    }
    assert_eq!(l.step(AcceptEvent::Accepted), AcceptAction::CheckCancel);
    assert_eq!(l.step(AcceptEvent::TailCheck(true)), AcceptAction::CloseAndStop);
    let mut l = AcceptLoop::new(false, 1);
    assert_eq!(l.step(AcceptEvent::Failed(AcceptErrorKind::Fatal)), AcceptAction::Fail);
}

#[test]
fn test_typo_protocol_errors() {
    let cfg = listener("h1z", vec![]);
    let outcome = build_listener_mode(&cfg, &vec![], 100, &defaults());
    let msg = match outcome {
        Err(e) => e.message(&cfg),
        Ok(_) => panic!("typo protocol should have errored"),
    };
    assert!(msg.contains("no runtime implementation"), "expected explicit reject, got: {}", msg);
    assert!(msg.contains("h1z"), "error must name the offending value: {}", msg);
}

#[test]
fn modes_follow_the_protocol() {
    let addresses = vec!["10.0.0.1:80".to_string()];
    let tcp = listener("tcp", vec![backend("a:80", "h1")]);
    assert!(matches!(build_listener_mode(&tcp, &addresses, 1, &defaults()), Ok(ListenerMode::PlainTcp)));
    let bare_tls = listener("tls", vec![backend("a:80", "h1")]);
    assert!(matches!(
        build_listener_mode(&bare_tls, &addresses, 1, &defaults()),
        Err(ModeError::MissingTls)
    ));
    let mut h1s = listener("h1s", vec![backend("a:80", "h2")]);
    h1s.tls = Some(tls());
    let mode = match build_listener_mode(&h1s, &addresses, 9, &defaults()) {
        Ok(m) => m,
        Err(_) => panic!("a complete front must be built"),
    };
    assert!(matches!(mode.reloadable(), Some(ReloadableProxies::H1s)));
    assert_eq!(serve_path(&mode, &Some(b"h2".to_vec())), ServePath::H2);
    assert_eq!(serve_path(&mode, &Some(b"http/1.1".to_vec())), ServePath::H1);
    assert_eq!(serve_path(&ListenerMode::PlainTcp, &None), ServePath::Raw);
    match mode {
        ListenerMode::H1s { legs, h2 } => {
            assert!(legs.is_https);
            assert_eq!(legs.max_keepalive_requests, 9);
            assert!(legs.h2_pool.is_some());
            assert!(legs.h3_pool.is_none());
            assert_eq!(h2.security.max_concurrent_streams, 3);
        }
        _ => panic!("h1s must build its own mode"),
    }
    let terms = tls_terms(&h1s).ok().flatten().expect("tls terms");
    assert_eq!(terms.alpn, vec!["h2", "http/1.1"]);
    let mismatch = build_listener_mode(&listener("h1", vec![]), &addresses, 1, &defaults());
    assert!(matches!(mismatch, Err(ModeError::Upstream(UpstreamError::NoBackends))));
    let bad = build_listener_mode(&listener("h1", vec![backend("a:80", "h7")]), &addresses, 1, &defaults());
    assert!(matches!(bad, Err(ModeError::Upstream(UpstreamError::BadProtocol { index: 0 }))));
    let untrusted = build_listener_mode(
        &listener("h1", vec![h3_backend("a:80", None, true)]),
        &addresses,
        1,
        &defaults(),
    );
    assert!(matches!(untrusted, Err(ModeError::Trust(_))));
}

#[test]
fn a_rebuilt_front_is_what_a_restart_gives() {
    let addresses = vec!["10.0.0.1:80".to_string()];
    let l = listener("h1", vec![backend("a:80", "h1")]);
    let restart = build_listener_mode(&l, &addresses, 5, &defaults());
    let rebuilt = rebuild_l7_proxies(&l, ReloadableProxies::H1, &addresses, 5, &defaults());
    match (restart, rebuilt) {
        (Ok(ListenerMode::H1 { legs: a }), Ok(ListenerMode::H1 { legs: b })) => {
            assert_eq!(a.upstreams[0].addr, b.upstreams[0].addr);
            assert_eq!(a.max_keepalive_requests, b.max_keepalive_requests);
            assert_eq!(a.timeouts.header_ms, b.timeouts.header_ms);
        }
        _ => panic!("both must give an h1 front"),
    }
}

#[test]
fn test_non_loopback_refused() {
    let public = IpAddr::V4([0, 0, 0, 0]);
    let local = IpAddr::V4([127, 0, 0, 1]);
    assert_eq!(
        validate_bind(&public, false, false),
        Err(AdminBindError::NonLoopbackWithoutOverride)
    );
    assert_eq!(validate_bind(&local, false, false), Ok(()));
    assert_eq!(validate_bind(&public, true, false), Err(AdminBindError::PublicBindWithoutToken));
    assert_eq!(validate_bind(&public, true, true), Ok(()));
    assert_eq!(validate_bind(&IpAddr::V6([0, 0, 0, 0, 0, 0, 0, 1]), false, false), Ok(()));
    assert!(validate_bind(&IpAddr::V6([0; 8]), false, false).is_err());
}

#[test]
fn panic_total_drains_fallback_into_registry_counter() {
    let mut totals = PanicTotals::new();
    let baseline = totals.panic_total();
    totals.record();
    totals.record();
    totals.record();
    assert_eq!(totals.panic_total(), baseline + 3, "fallback must be visible");
    totals.bind(0);
    assert_eq!(totals.fallback, 0, "binding must drain the fallback");
    assert!(totals.panic_total() >= baseline + 3, "drained fallback must show up in the total");
    totals.record();
    assert_eq!(totals.panic_total(), baseline + 4);
    assert_eq!(totals.registry, Some(4));
}

#[test]
fn host_and_port_are_split() {
    assert_eq!(split_host_port("example.com:8080").ok(), Some(("example.com".to_string(), 8080)));
    assert_eq!(split_host_port("[::1]:443").ok(), Some(("::1".to_string(), 443)));
    for bad in ["example.com", "example.com:", "example.com:70000", "[::1]", "[::1", "h:p"] {
        assert!(split_host_port(bad).is_err(), "{}", bad);
    }
    let message = split_host_port("h:p").err().map(|e| e.message()).unwrap_or_default();
    assert_eq!(message, "invalid port: p");
    assert_eq!(host_of("example.com:80"), Some("example.com".to_string()));
    assert_eq!(parse_upstream_proto("h2"), Some(UpstreamProto::H2));
    assert_eq!(parse_upstream_proto("quic"), None);
    assert!(unknown_protocol("a\"b").contains("\"a\\\"b\""));
}

#[test]
fn upstreams_pair_backends_with_addresses() {
    let backends = vec![backend("one:80", "h1"), backend("two:81", "h2")];
    let addresses = vec!["10.0.0.1:80".to_string(), "10.0.0.2:81".to_string()];
    let built = build_upstream_backends(&backends, &addresses).ok().expect("must pair");
    assert_eq!(built.len(), 2);
    assert_eq!(built[0].addr, "10.0.0.1:80");
    assert_eq!(built[1].proto, UpstreamProto::H2);
    assert!(any_speaks(&built, UpstreamProto::H2));
    assert!(!any_speaks(&built, UpstreamProto::H3));
    assert!(matches!(
        build_upstream_backends(&backends, &vec!["x".to_string()]),
        Err(UpstreamError::CountMismatch { addresses: 1, backends: 2 })
    ));
    assert_eq!(collect_h3_backends(&vec![backend("a", "h1"), h3_backend("b", None, false)]).len(), 1);
    assert_eq!(tcp_backends(&backends), vec![("backend-0".to_string(), 1), ("backend-1".to_string(), 1)]);
}

#[test]
fn lookups_give_the_first_address() {
    let answer = Lookup::Answer(vec!["10.0.0.1:80".to_string(), "10.0.0.2:80".to_string()]);
    assert_eq!(first_address(&answer).ok(), Some("10.0.0.1:80".to_string()));
    assert!(matches!(first_address(&Lookup::Unsplit), Err(LookupError::Invalid)));
    assert!(matches!(first_address(&Lookup::Failed), Err(LookupError::Unresolved)));
    assert!(matches!(first_address(&Lookup::Answer(vec![])), Err(LookupError::Empty)));
    assert_ne!(dns_counter(1, 1).0, dns_counter(1, 2).0);
}

#[test]
fn http2_overrides_fall_back_to_defaults() {
    let cfg = Some(H2SecurityConfig {
        max_pending_accept_reset_streams: None,
        max_local_error_reset_streams: None,
        max_concurrent_streams: Some(77),
        max_header_list_size: None,
        max_send_buf_size: None,
        keep_alive_interval_ms: None,
        keep_alive_timeout_ms: Some(88),
        initial_stream_window_size: None,
        initial_connection_window_size: None,
    });
    let pool = build_h2_upstream_pool(pool_defaults(), &cfg);
    assert_eq!(pool.max_concurrent_streams, 77);
    assert_eq!(pool.initial_stream_window, 65_536);
    let merged = merge_h2_security(thresholds(), &cfg);
    assert_eq!(merged.max_concurrent_streams, 77);
    assert_eq!(merged.keep_alive_timeout_ms, 88);
    assert_eq!(merged.max_header_list_size, 4);
}

#[test]
fn socket_and_transport_limits() {
    assert!(listener_opts().reuseaddr);
    assert!(backend_opts().nodelay);
    assert_eq!(h3_pool_limits().initial_max_data, 1_048_576);
    assert!(raw_relay_limits().initial_max_data >= h3_pool_limits().initial_max_data);
}

#[test]
fn reload_steps() {
    assert_eq!(after_manager(Manager::Unavailable), ReloadStep::Fail);
    assert_eq!(after_manager(Manager::Unchanged), ReloadStep::Keep);
    assert_eq!(after_manager(Manager::Changed), ReloadStep::Validate);
    assert_eq!(after_validation(Candidate::Invalid), ReloadStep::RollBack);
    assert_eq!(after_validation(Candidate::Valid), ReloadStep::Apply);
}

#[test]
fn every_touched_front_is_rebuilt_once() {
    let change = |address: Option<&str>, keepalive: bool| SwappableChange {
        field: "f".to_string(),
        address: address.map(String::from),
        max_keepalive_requests: keepalive,
    };
    let fronts = vec!["a".to_string(), "b".to_string()];
    let one = listeners_to_rebuild(&vec![change(Some("a"), false), change(Some("a"), false)], &fronts);
    assert_eq!(one, vec!["a".to_string()]);
    let all = listeners_to_rebuild(&vec![change(None, true), change(Some("a"), false)], &fronts);
    assert_eq!(all.len(), 2);
    let listeners = vec![{
        let mut l = listener("h1", vec![]);
        l.address = "b".to_string();
        l
    }];
    assert!(matches!(rebuild_target("zzz", &listeners, &fronts), Target::Gone));
    assert!(matches!(
        rebuild_target("b", &listeners, &fronts),
        Target::Rebuild { listener: 0, front: 1 }
    ));
    assert!(matches!(rebuild_target("b", &listeners, &vec![]), Target::NoHandle));
    let report = reload_report(&vec![Rebuilt::Swapped, Rebuilt::NoHandle, Rebuilt::Failed]);
    assert_eq!((report.applied, report.failed, report.no_handle), (1, 1, 1));
    assert!(report.succeeded);
    assert!(!reload_report(&vec![Rebuilt::Failed, Rebuilt::NoHandle, Rebuilt::Gone]).succeeded);
    assert_eq!(reload_all_tls(&vec![None, Some("bad".to_string()), None]), (2, 1));
    assert_eq!(loaded_at(Some(5)), 5);
    assert_eq!(loaded_at(None), 0);
}

#[test]
fn a_failed_reload_applies_nothing() {
    let mut r = Reload::new();
    assert_eq!(r.on_manager(Manager::Rejected), ReloadStep::Fail);
    assert_eq!(r.stage(), ReloadStage::Kept);
    let mut r = Reload::new();
    assert_eq!(r.on_manager(Manager::Changed), ReloadStep::Validate);
    let changes = vec![SwappableChange {
        field: "f".to_string(),
        address: None,
        max_keepalive_requests: true,
    }];
    let fronts = vec!["a".to_string()];
    assert_eq!(r.on_checked(Candidate::Unparsable, &changes, &fronts), ReloadStep::RollBack);
    assert_eq!(r.stage(), ReloadStage::Kept);
    assert_eq!(r.report().applied, 0);
}

#[test]
fn a_reload_rebuilds_front_after_front() {
    let at = |address: &str| {
        let mut l = listener("h1", vec![]);
        l.address = address.to_string();
        l
    };
    let change = |address: &str| SwappableChange {
        field: "f".to_string(),
        address: Some(address.to_string()),
        max_keepalive_requests: false,
    };
    let listeners = vec![at("a"), at("b"), at("c")];
    let fronts = vec!["c".to_string(), "a".to_string()];
    let changes = vec![change("gone"), change("a"), change("b"), change("c"), change("a")];
    let mut r = Reload::new();
    r.on_manager(Manager::Changed);
    assert_eq!(r.on_checked(Candidate::Valid, &changes, &fronts), ReloadStep::Apply);
    assert_eq!(r.next(&listeners, &fronts), Some((0, 1)));
    r.on_rebuilt(true);
    assert_eq!(r.next(&listeners, &fronts), Some((2, 0)));
    r.on_rebuilt(false);
    assert_eq!(r.next(&listeners, &fronts), None);
    assert_eq!(r.stage(), ReloadStage::Committed);
    let report = r.report();
    assert_eq!((report.applied, report.failed, report.no_handle), (1, 1, 1));
    assert!(report.succeeded);
    assert_eq!(r.applied_fields(&changes, &fronts), ["f", "f"], "both changes of a");
}

#[test]
fn a_failed_rebuild_is_not_applied() {
    let mut l = listener("h1", vec![]);
    l.address = "a".to_string();
    let (listeners, fronts) = (vec![l], vec!["a".to_string()]);
    let own = || SwappableChange {
        field: "backends".to_string(),
        address: Some("a".to_string()),
        max_keepalive_requests: false,
    };
    let all = || SwappableChange {
        field: "keepalive".to_string(),
        address: None,
        max_keepalive_requests: true,
    };
    for replaced in [false, true] {
        let changes = vec![own(), all()];
        let mut r = Reload::new();
        r.on_manager(Manager::Changed);
        r.on_checked(Candidate::Valid, &changes, &fronts);
        assert_eq!(r.next(&listeners, &fronts), Some((0, 0)));
        r.on_rebuilt(replaced);
        assert_eq!(r.next(&listeners, &fronts), None);
        assert_eq!(r.report().succeeded, replaced);
        let fields = r.applied_fields(&changes, &fronts);
        assert_eq!(fields.len(), if replaced { 2 } else { 0 });
    }
}

#[test]
fn readiness_turns_before_the_admin_listener_stops() {
    let mut order = Vec::new();
    let mut step = ShutdownStep::first();
    while step != ShutdownStep::Ended {
        order.push(step);
        step = step.next();
    }
    let at = |s: ShutdownStep| order.iter().position(|x| *x == s).expect("a step");
    assert_eq!(order.len(), 6);
    assert!(at(ShutdownStep::TurnReadiness) < at(ShutdownStep::Drain));
    assert!(at(ShutdownStep::Drain) < at(ShutdownStep::StopAdmin));
    assert_eq!(step.next(), ShutdownStep::Ended);
}

fn runtime() -> RuntimeConfig {
    RuntimeConfig {
        handshake_timeout_ms: 1,
        max_inflight_connections: 2,
        connect_timeout_ms: 3,
        max_keepalive_requests: 4,
        max_requests_per_h3_connection: 5,
        per_ip_connection_cap: 6,
        drain_timeout_ms: 7,
        readiness_settle_ms: 8,
    }
}

#[test]
fn boot_settings() {
    assert_eq!(config_path(None), DEFAULT_CONFIG_PATH);
    assert_eq!(config_path(Some("x.toml".to_string())), "x.toml");
    let s = settings(&Some(runtime()));
    assert_eq!((s.handshake_timeout_ms, s.max_inflight, s.connect_timeout_ms), (1, 2, 3));
    assert_eq!((s.max_keepalive_requests, s.max_requests_per_h3_connection, s.per_ip_cap), (4, 5, 6));
    assert_eq!(smuggle_mode(Some(true)), SmuggleMode::H1Strict);
    assert_eq!(smuggle_mode(None), SmuggleMode::H1);
    let listeners = vec![listener("tcp", vec![backend("a:1", "h1")]), listener("h1", vec![])];
    assert_eq!(config_shape(&listeners), (2, 1));
    assert_eq!(health_seed(&listeners), vec!["a:1".to_string()]);
    assert_eq!(start_of(&listener("quic", vec![])), Start::Quic);
    assert_eq!(start_of(&listener("tcp", vec![])), Start::Skip);
    assert_eq!(start_of(&listener("tcp", vec![backend("a:1", "h1")])), Start::Tcp);
    assert!(!any_started(0, 0, 0));
    assert!(any_started(0, 0, 1));
}

#[test]
fn draining_covers_the_slowest_listener() {
    let plan = drain_plan(
        &Some(DrainBudget { timeout_ms: 100, jitter_ms: 25 }),
        Some(9),
        &vec![
            DrainBudget { timeout_ms: 50, jitter_ms: 90 },
            DrainBudget { timeout_ms: 400, jitter_ms: 1 },
        ],
    );
    assert_eq!(plan.inflight_drain_ms, 400);
    assert_eq!(plan.jitter_max_ms, 90);
    assert_eq!(plan.readiness_settle_ms, 9);
    assert_eq!(drain_plan(&None, None, &vec![]).inflight_drain_ms, 10_000);
    assert_eq!(drain_accounting(false, 0), (0, 0));
    assert_eq!(unfinished(&vec![true, false, false]), 2);
    let listener_phase = drain_series(DrainPhase::ListenerCancel, Some("l".to_string()));
    assert_eq!(listener_phase.1, Some("l".to_string()));
    assert_eq!(drain_series(DrainPhase::Total, Some("l".to_string())).1, None);
}

#[test]
fn signals_lead_to_actions() {
    assert_eq!(on_signal(LifecycleSignal::SigTerm, 0), SignalAction::Drain);
    assert_eq!(on_signal(LifecycleSignal::SigInt, 3), SignalAction::Drain);
    assert_eq!(on_signal(LifecycleSignal::SigHup, 0), SignalAction::ReloadConfiguration);
    assert_eq!(on_signal(LifecycleSignal::SigUsr1, 0), SignalAction::Ignore);
    assert_eq!(on_signal(LifecycleSignal::SigUsr1, 1), SignalAction::ReloadCertificates);
}

#[test]
fn metric_tables() {
    assert_eq!(hotpath_metrics().len(), 10);
    assert_eq!(certificate_metrics().len(), 3);
    assert_eq!(reload_metrics().len(), 5);
    assert!(hotpath_metrics().iter().any(|m| m.name == "pool_idle_gauge" && m.shape == Shape::Gauge));
    assert_eq!(status_class(true), "2xx");
    assert_eq!(ServePath::Raw.http_version(), None);
}

#[test]
fn failed_dials_are_counted_and_named() {
    assert!(dial_failure(Dial::Connected, 100, "b:1").is_none());
    let slow = dial_failure(Dial::TimedOut, 120, "b:1").expect("a failure");
    assert!(slow.message.contains("timeout"));
    assert!(slow.message.contains("b:1"));
    let refused = dial_failure(Dial::Refused, 120, "b:1").expect("a failure");
    assert_ne!(slow.counter, refused.counter);
}

#[test]
fn websocket_relay_over_h3_needs_both_switches() {
    let mut l = h3_terminate_cfg_with_backend(backend("127.0.0.1:3003", "h1"));
    l.websocket = Some(WebsocketConfig {
        enabled: true,
        h2_extended_connect: false,
        h3_extended_connect: true,
        idle_timeout_seconds: 60,
        max_message_size_bytes: 1024,
        ping_rate_limit_per_window: 1,
        ping_rate_limit_window_seconds: 2,
        read_frame_timeout_seconds: 3,
    });
    let plan = match spawn_quic(&l, &Some("127.0.0.1:0".to_string()), &None, 0) {
        Ok(p) => p,
        Err(_) => panic!("a complete listener must start"),
    };
    assert!(plan.params.ws_enabled);
    match wire_h3_terminate_backends(&l, &vec!["127.0.0.1:3003".to_string()], true, pool_defaults()) {
        Ok(H3Leg::H1 { relay: Some(relay), .. }) => {
            assert_eq!(relay.config.idle_timeout_secs, 60);
            assert_eq!(relay.header_budget_ms, 30_000);
        }
        _ => panic!("an enabled relay must be wired"),
    }
}

#[test]
fn capabilities_decide_on_the_fast_path() {
    let held = |wanted: Vec<Capability>| move |c: Capability| Ok::<bool, String>(wanted.contains(&c));
    assert!(matches!(
        probe_caps_with(held(vec![Capability::CapBpf, Capability::CapNetAdmin])),
        CapState::Granted(CapMode::BpfPlusNetAdmin)
    ));
    assert!(matches!(
        probe_caps_with(held(vec![Capability::CapSysAdmin])),
        CapState::Granted(CapMode::SysAdmin)
    ));
    let missing = probe_caps_with(held(vec![Capability::CapBpf]));
    assert!(matches!(missing, CapState::MissingNetAdmin));
    assert!(!may_attach(&missing));
    assert!(matches!(probe_caps_with(held(vec![])), CapState::MissingBpfAndSysAdmin));
    assert!(matches!(
        decide_caps(&Ok(false), &Ok(false), &Err("eperm".to_string())),
        CapState::ProbeError(_)
    ));
    let (state, answers) = probe_caps();
    assert_eq!(
        may_attach(&state),
        may_attach(&decide_caps(&answers.bpf, &answers.net, &answers.sys))
    );
    let direct = caps::has_cap(None, caps::CapSet::Effective, caps::Capability::CAP_BPF);
    assert_eq!(answers.bpf, direct.map_err(|e| e.to_string()));
    assert_eq!(cfg_to_loader_mode(XdpModeChoice::Skb), LoaderMode::Skb);
    assert!(matches!(xdp_start(false, &Some("eth0".to_string())), XdpStart::Disabled));
    assert!(matches!(xdp_start(true, &None), XdpStart::NoInterface));
}
