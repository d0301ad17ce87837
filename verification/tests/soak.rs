use expressgateway::chance::{random_cid, CONNECTION_ID_LEN};
use expressgateway::soak::backends::{write_stalled, BackendControl, EchoState, Origin};
use expressgateway::soak::bench::{
    echo_len, next_stream_id, payload_bytes, pct, sort_ascending, unit, unit_step, BenchSummary, EchoRead,
    EchoUnit, H3Event, RunOut, UnitStep, Window,
};
use expressgateway::soak::bench_run::{
    cost_of, parse_bench_args, protocol_of, read_proc_ticks, record_json, record_name, server_name,
    Protocol, ResSample,
};
use expressgateway::soak::calls::{
    header_number, judge_request, open_step, read_status, request_at, reset_step, H3Fault, H3Outcome,
    H3Progress, OpenAttempt, OpenStep, StreamEvent, TornSide,
};
use expressgateway::soak::bench_run;
use expressgateway::soak::calls::torn_headers;
use expressgateway::soak::chaos;
use expressgateway::soak::child::{
    binary_candidates, binary_missing, boot_step, loopback, reap_step, BootStep, ChildLook, ReapStep,
};
use expressgateway::soak::config_gen::{
    certificate_paths, certificate_terms, generate_certs, material, Authority, KeyUse, h1_front, h1_front_ws, h1s_front, h1s_front_ws,
    passthrough_mode_a, quic_h3_terminate, quic_h3_terminate_h2, quic_h3_terminate_ws, quic_mode_b,
};
use expressgateway::soak::bench::{unit_headers, worker_step, WorkerEvent, WorkerNext};
use expressgateway::soak::config_gen::{no_certs, CertNeeds, FrontParts};
use expressgateway::soak::frames::{
    body_for, echo_payload, frame_grpc, striding_payload, take_echoes, ws_mask_frame, ws_parse_one,
    WS_BINARY, WS_CLOSE,
};
use expressgateway::soak::grpc::{
    call_frame, call_headers, header_integer, judge_call, read_trailer, AnswerEvent, CallFault, CallPhase,
    CallSession,
};
use expressgateway::soak::loadgen::{burst_method, goes_on, record_cycle, record_session, Driver, LoadStats};
use expressgateway::soak::procstat::{footprint_of, parse_status, ProcFootprint};
use expressgateway::soak::relay::{datagram_len, EchoMismatch, EchoStreams, ReadStep};
use expressgateway::soak::scenario::{
    client_name, env_usize, parse_soak_args, setup_of, tasks_of, unknown_scenario, ArgError, Drive, Setup,
    Workers, KNOBS, SCENARIOS,
};
use expressgateway::soak::scenario::{certs_of, config_of, gauges_of, origin_of, over_udp, BACKEND_NAME};
use expressgateway::soak::timeseries::MetricKind;
use expressgateway::soak::tunnel::connect_headers;
use expressgateway::soak::tunnel::{
    churn_payload, close_frame, judge_echo, phase_budget_ms, record_echo, sustained_payload, EchoVerdict,
    TunnelFault, TunnelPhase, WsEcho, WsTunnel,
};

#[test]
fn drop_sampler_respects_zero_and_full() {
    let mut c = BackendControl::default();
    assert!(!c.should_drop(), "0 permille never drops");
    c.set_drop_permille(1000);
    c.record_served();
    assert_eq!(c.served(), 1);
    assert!(c.should_drop(), "1000 permille always drops");
    c.set_drop_permille(5000);
    assert_eq!(c.drop_permille(), 1000);
}

#[test]
fn slow_and_stop_knobs() {
    let mut c = BackendControl::default();
    assert_eq!(c.slow(), 0);
    c.set_slow_ms(50);
    assert_eq!(c.slow(), 50);
    assert!(!c.stopped());
    c.stop();
    assert!(c.stopped());
}

#[test]
fn a_part_of_the_requests_is_dropped() {
    let mut c = BackendControl::new();
    c.set_drop_permille(500);
    let mut dropped = 0;
    for _ in 0..1000 {
        c.record_served();
        if c.should_drop() {
            dropped += 1;
        }
    }
    assert!(dropped > 300 && dropped < 700, "{}", dropped);
}

#[test]
fn an_echo_goes_back_and_ends() {
    let mut e = EchoState::new();
    e.on_recv(b"abc", false);
    assert!(!e.fin_due());
    e.on_sent(2);
    assert_eq!(e.pending, b"c".to_vec());
    e.on_recv(b"", true);
    e.on_sent(1);
    assert!(e.fin_due());
    e.on_fin_sent();
    assert!(!e.fin_due());
    assert!(write_stalled(0, 4));
    assert!(!write_stalled(4, 4));
}

#[test]
fn body_sizes_cycle() {
    assert_eq!(body_for(0).len(), 0);
    assert_eq!(body_for(2).len(), 4096);
    assert_eq!(body_for(7).len(), 65_536);
    assert!(body_for(1).iter().all(|b| *b == b'x'));
}

#[test]
fn load_stats_count() {
    let mut s = LoadStats::new();
    s.ok();
    s.ok();
    s.err();
    assert_eq!(s.ok_count(), 2);
    assert_eq!(s.err_count(), 1);
}

#[test]
fn drivers_tally_their_sessions() {
    let mut s = LoadStats::new();
    s.ok_many(5);
    record_cycle(&mut s, Some(3));
    record_cycle(&mut s, None);
    record_session(&mut s, true, true, true);
    record_session(&mut s, true, false, true);
    assert_eq!((s.ok_count(), s.err_count()), (8, 2));
    assert_eq!(Driver::WsChurn.first_seed(2), 27);
    assert_eq!(Driver::H3Load.next_seed(3), 104);
    assert!(goes_on(true, false, 99, 1));
    assert!(!goes_on(false, false, 1, 1));
    assert_ne!(burst_method(0), "");
}

#[test]
fn parses_status_fields() {
    let status = "Name:\texpressgateway\n\
                  State:\tS (sleeping)\n\
                  VmPeak:\t  900000 kB\n\
                  VmRSS:\t   45678 kB\n\
                  VmHWM:\t   52000 kB\n\
                  Threads:\t9\n\
                  voluntary_ctxt_switches:\t100\n";
    let fp = parse_status(status);
    assert_eq!(fp.rss_kb, 45678, "VmRSS must parse");
    assert_eq!(fp.vmhwm_kb, 52000, "VmHWM must parse");
    assert_eq!(fp.threads, 9, "Threads must parse");
}

#[test]
fn missing_fields_stay_zero() {
    let fp = parse_status("Name:\tfoo\nState:\tR (running)\n");
    assert_eq!(fp, ProcFootprint::default(), "absent fields default to 0");
}

#[test]
fn malformed_lines_are_skipped() {
    let fp = parse_status("garbage line\nVmRSS:\t kB\nThreads:\tNaN\nVmHWM:\t7 kB\n");
    assert_eq!(fp.rss_kb, 0);
    assert_eq!(fp.threads, 0);
    assert_eq!(fp.vmhwm_kb, 7);
}

#[test]
fn a_process_without_status_has_no_footprint() {
    assert!(footprint_of(None, 9).is_none());
    assert_eq!(footprint_of(Some("VmRSS:\t5 kB\n"), 9).map(|f| (f.rss_kb, f.fds)), Some((5, 9)));
}

#[test]
fn certificates_are_generated_as_pem() {
    let m = generate_certs("/tmp/soak", "soak.test").expect("gen certs");
    assert_eq!(m.paths.cert, certificate_paths("/tmp/soak").cert);
    assert!(m.cert_pem.contains("BEGIN CERTIFICATE"), "cert PEM present");
    assert!(m.key_pem.contains("BEGIN PRIVATE KEY"), "key PEM present");
    let terms = certificate_terms("soak.test");
    assert_eq!(terms.names, ["127.0.0.1", "localhost", "soak.test"]);
    assert_eq!((terms.authority, terms.usage), (Authority::Own, KeyUse::Server));
    let other = generate_certs("/tmp/soak", "soak.test").expect("gen certs");
    assert_ne!(m.key_pem, other.key_pem);
    assert!(generate_certs("/tmp/soak", "s\u{f6}ak.test").is_err(), "no such name");
}

#[test]
fn material_needs_a_certificate() {
    assert_eq!(material("/run", Err("no key".to_string())).err(), Some("no key".to_string()));
    let m = material("/run/", Ok(("cert".to_string(), "key".to_string()))).expect("material");
    assert_eq!(m.paths.cert, "/run/cert.pem");
    assert_eq!(m.paths.key, "/run/key.pem");
    assert_eq!(m.paths.ca, "/run/ca.pem");
    assert_eq!((m.cert_pem.as_str(), m.key_pem.as_str()), ("cert", "key"));
}

#[test]
fn h1_front_toml_shape() {
    let toml = h1_front("127.0.0.1:8080", "127.0.0.1:3000", "h1", "127.0.0.1:9090");
    assert!(toml.contains("protocol = \"h1\""));
    assert!(toml.contains("address = \"127.0.0.1:8080\""));
    assert!(toml.contains("[[listeners.backends]]"));
    assert!(toml.contains("metrics_bind = \"127.0.0.1:9090\""));
}

#[test]
fn h1_front_h2_backend_marks_backend_proto() {
    let toml = h1_front("127.0.0.1:8080", "127.0.0.1:3000", "h2", "127.0.0.1:9090");
    assert!(toml.contains("protocol = \"h2\""), "the backend protocol must be h2");
}

#[test]
fn quic_mode_b_has_raw_proxy_and_backend_ca() {
    let certs = certificate_paths("/tmp/soak");
    let toml = quic_mode_b(
        "127.0.0.1:8443",
        "127.0.0.1:4443",
        "soak.test",
        "127.0.0.1:9090",
        &certs,
        "/tmp/soak/retry.bin",
        &certs.ca,
        1024,
        256,
    );
    assert!(toml.contains("[listeners.quic.raw_proxy]"));
    assert!(toml.contains("backend_addr = \"127.0.0.1:4443\""));
    assert!(toml.contains("backend_ca_path ="), "the relay must pin a backend certificate");
    assert!(toml.contains("max_relay_streams = 256"));
}

#[test]
fn quic_h3_terminate_has_quic_listener_no_raw_proxy_no_backend() {
    let certs = certificate_paths("/tmp/soak");
    let toml = quic_h3_terminate("127.0.0.1:8443", "127.0.0.1:9090", &certs, "/tmp/soak/retry.bin");
    assert!(toml.contains("protocol = \"quic\""));
    assert!(toml.contains("[listeners.quic]"));
    assert!(toml.contains("retry_secret_path ="));
    assert!(!toml.contains("[listeners.quic.raw_proxy]"));
    assert!(!toml.contains("[[listeners.backends]]"));
    assert!(toml.contains("metrics_bind = \"127.0.0.1:9090\""));
}

#[test]
fn h1_front_ws_has_enabled_websocket_block_and_backend() {
    let toml = h1_front_ws("127.0.0.1:8080", "127.0.0.1:3000", "127.0.0.1:9090", 120, 30);
    assert!(toml.contains("protocol = \"h1\""));
    assert!(toml.contains("[listeners.websocket]"));
    assert!(toml.contains("enabled = true"));
    assert!(toml.contains("idle_timeout_seconds = 120"));
    assert!(toml.contains("read_frame_timeout_seconds = 30"));
    assert!(toml.contains("[[listeners.backends]]"));
    assert!(toml.contains("metrics_bind = \"127.0.0.1:9090\""));
}

#[test]
fn h1s_front_ws_opts_in_h2_extended_connect() {
    let certs = certificate_paths("/tmp/soak");
    let toml = h1s_front_ws("127.0.0.1:8443", "127.0.0.1:3000", "127.0.0.1:9090", &certs, 120, 30);
    assert!(toml.contains("protocol = \"h1s\""));
    assert!(toml.contains("[listeners.tls]"));
    assert!(toml.contains("[listeners.websocket]"));
    assert!(toml.contains("h2_extended_connect = true"));
}

#[test]
fn passthrough_mode_a_is_listener_free() {
    let toml = passthrough_mode_a(
        "127.0.0.1:8444",
        "127.0.0.1:4444",
        "127.0.0.1:9090",
        "/tmp/r",
        100_000,
        10_000,
    );
    assert!(toml.contains("[passthrough]"));
    assert!(toml.contains("bind_addr = \"127.0.0.1:8444\""));
    assert!(toml.contains("mint_retry = false"));
    assert!(toml.contains("flow_idle_timeout_ms = 10000"));
    assert!(!toml.contains("[[listeners]]"), "the passthrough needs no listener block");
}

#[test]
fn the_other_fronts_name_their_parts() {
    let certs = certificate_paths("/d");
    let tls = h1s_front("127.0.0.1:1", "127.0.0.1:2", "h2", "127.0.0.1:3", &certs);
    assert!(tls.contains("[listeners.tls]"));
    assert!(tls.contains(&certs.cert));
    let ws = quic_h3_terminate_ws("127.0.0.1:1", "127.0.0.1:2", "127.0.0.1:3", &certs, "/r", 1, 2);
    assert!(ws.contains("h3_extended_connect = true"));
    let h2 = quic_h3_terminate_h2("127.0.0.1:1", "127.0.0.1:2", "127.0.0.1:3", &certs, "/r");
    assert!(h2.contains("protocol = \"h2\""));
}

#[test]
fn find_binary_reports_helpfully_when_absent() {
    let message = binary_missing("/nonexistent-eg-target-xyz");
    assert!(message.contains("cargo build"));
    let (release, debug) = binary_candidates("/t");
    assert!(release.contains("release") && debug.contains("debug"));
    assert_eq!(release, "/t/release/expressgateway");
    assert_eq!(binary_candidates("").1, "debug/expressgateway");
    assert_eq!(loopback(80), "127.0.0.1:80");
}

#[test]
fn a_child_boots_and_ends() {
    assert_eq!(boot_step(false, false, Some(204)), BootStep::Ready);
    assert_eq!(boot_step(false, false, Some(503)), BootStep::Wait);
    assert_eq!(boot_step(false, true, Some(200)), BootStep::Exited);
    assert_eq!(boot_step(true, true, Some(200)), BootStep::Expired);
    assert_eq!(reap_step(ChildLook::Running, false), ReapStep::Wait);
    assert_eq!(reap_step(ChildLook::Running, true), ReapStep::Kill);
    assert_eq!(reap_step(ChildLook::Ended, true), ReapStep::Done);
}

#[test]
fn connection_ids_are_fresh() {
    let a = random_cid();
    let b = random_cid();
    assert_eq!(a.len(), CONNECTION_ID_LEN);
    assert_ne!(a, b);
    assert_ne!(a, vec![0; CONNECTION_ID_LEN]);
}

#[test]
fn frames_read_back() {
    for len in [0usize, 1, 17, 125] {
        let payload = echo_payload(3, len);
        let mut wire = ws_mask_frame(WS_BINARY, &payload);
        let whole = wire.len();
        wire.extend_from_slice(b"rest");
        assert_eq!(ws_parse_one(&wire), Some((WS_BINARY, payload, whole)));
        assert_eq!(ws_parse_one(&wire[..whole - 1]), None);
    }
    assert_eq!(ws_parse_one(&close_frame()).map(|f| f.0), Some(WS_CLOSE));
    let mut rx = vec![0x82, 3, b'a', b'b', b'c', 0x82];
    assert_eq!(take_echoes(&mut rx, b"abc"), 1);
    assert_eq!(rx, vec![0x82]);
    let mut long = vec![0x82, 126, 0, 200];
    long.extend_from_slice(&vec![7; 200]);
    assert_eq!(ws_parse_one(&long), Some((WS_BINARY, vec![7; 200], 204)));
    assert_eq!(ws_parse_one(&[0x82, 127, 0, 0, 0, 0, 0, 0, 0, 1, 9]), None);
    assert_eq!(frame_grpc(b"abc"), vec![0, 0, 0, 0, 3, b'a', b'b', b'c']);
    assert_eq!(striding_payload(9).len(), 9);
}

#[test]
fn a_tunnel_echoes_and_closes() {
    let mut t = WsTunnel::new(5, 1, false);
    assert_eq!(t.check(true, false, false), Some(TunnelFault::HandshakeTimeout));
    assert_eq!(t.check(false, true, false), Some(TunnelFault::ClosedInHandshake));
    t.on_established();
    t.on_opened();
    assert_eq!(t.on_status(200, false), None);
    assert_eq!(t.phase(), TunnelPhase::Echoing);
    assert_eq!(t.check(false, true, false), Some(TunnelFault::ClosedMidEcho));
    let sent = t.next_frame(false).expect("the first frame is due");
    let (_, payload, _) = ws_parse_one(&sent).expect("a whole frame");
    assert_eq!(payload, echo_payload(5, 21));
    t.on_sent();
    let mut back = vec![0x82, 21];
    back.extend_from_slice(&payload);
    t.keep(&back);
    let mut stats = LoadStats::new();
    assert_eq!(t.on_received(false, &mut stats), None);
    assert_eq!((stats.ok_count(), stats.err_count()), (1, 0));
    assert_eq!(t.frame(), 1);
    assert_eq!(t.check(true, true, false), None, "nothing more is due");
    assert!(t.next_frame(false).is_none(), "one frame was asked for");
    assert_eq!(t.phase(), TunnelPhase::Closing);
    let mut refused = WsTunnel::new(0, 1, false);
    refused.on_established();
    refused.on_opened();
    assert_eq!(refused.on_status(200, true), Some(TunnelFault::ClosedBeforeStatus));
    assert_eq!(refused.on_status(501, false), Some(TunnelFault::Status(501)));
    let mut held = WsTunnel::new(0, 1, true);
    held.on_established();
    held.on_opened();
    assert_eq!(held.on_status(200, false), None);
    assert_eq!(held.check(false, true, true), None, "a cancelled run ends well");
    assert!(held.next_frame(false).is_some());
    held.on_sent();
    assert_eq!(held.on_received(true, &mut stats), Some(TunnelFault::ClosedAwaitingEcho));
    assert!(phase_budget_ms(TunnelPhase::Handshake) > 0);
}

#[test]
fn a_tunnel_counts_its_frames() {
    let mut stats = LoadStats::new();
    stats.ok();
    let mut t = WsTunnel::new(9, 5, false);
    t.on_established();
    t.on_opened();
    assert_eq!(t.on_status(200, false), None);
    while let Some(sent) = t.next_frame(true) {
        let (_, payload, _) = ws_parse_one(&sent).expect("a whole frame");
        t.on_sent();
        let mut back = vec![0x82, payload.len() as u8];
        back.extend_from_slice(&payload);
        t.keep(&back[..7]);
        assert_eq!(t.on_received(false, &mut stats), None);
        assert_eq!(t.phase(), TunnelPhase::AwaitingEcho);
        t.keep(&back[7..]);
        assert_eq!(t.on_received(false, &mut stats), None);
    }
    assert_eq!(t.phase(), TunnelPhase::Closing);
    assert_eq!((stats.ok_count(), stats.err_count()), (6, 0));
    let list = connect_headers("soak-front");
    assert_eq!(list.len(), 5);
    assert_eq!(list[0], (":method", "CONNECT".to_string()));
    assert_eq!(list[1], (":protocol", "websocket".to_string()));
    assert_eq!(list[3], (":authority", "soak-front".to_string()));
    assert_eq!(list[4], (":path", "/soak".to_string()));
}

#[test]
fn a_session_counts_its_calls() {
    let mut stats = LoadStats::new();
    let mut s = CallSession::new(3, 4, false);
    s.on_established();
    while s.next_call(true) {
        s.on_opened(0);
        let whole = s.unsent();
        s.on_sent(whole.len());
        s.on_event(&AnswerEvent::Headers(vec![
            (b":status".to_vec(), b"200".to_vec()),
            (b"grpc-status".to_vec(), b"0".to_vec()),
        ]));
        s.on_event(&AnswerEvent::Data(whole));
        s.on_event(&AnswerEvent::Finished);
        assert_eq!(s.on_answer(false, &mut stats), None);
    }
    assert_eq!(s.phase(), CallPhase::Ended);
    assert_eq!((stats.ok_count(), stats.err_count()), (4, 0));
}

#[test]
fn workers_count_and_go_on() {
    assert_eq!(worker_step(WorkerEvent::BadName), (false, WorkerNext::Stop));
    assert_eq!(worker_step(WorkerEvent::DialFailed), (true, WorkerNext::Connect));
    assert_eq!(worker_step(WorkerEvent::SetupFailed), (false, WorkerNext::Connect));
    assert_eq!(worker_step(WorkerEvent::Connected), (false, WorkerNext::Send));
    assert_eq!(worker_step(WorkerEvent::Replied), (false, WorkerNext::Send));
    assert_eq!(worker_step(WorkerEvent::ReplyFailed), (true, WorkerNext::Connect));
    assert_eq!(worker_step(WorkerEvent::SendStalled), (false, WorkerNext::Connect));
    assert_eq!(worker_step(WorkerEvent::Closed), (false, WorkerNext::Connect));
    let win = Window::new(0, 10, 10);
    let mut run = RunOut::empty();
    assert_eq!(run.on_event(WorkerEvent::Replied, &win, 9, 5), WorkerNext::Send);
    assert_eq!(run.on_event(WorkerEvent::DialFailed, &win, 20, 0), WorkerNext::Connect);
    assert_eq!((run.ok, run.err), (0, 0), "outside the window nothing counts");
    assert_eq!(run.on_event(WorkerEvent::Replied, &win, 10, 5), WorkerNext::Send);
    assert_eq!(run.on_event(WorkerEvent::ReplyFailed, &win, 19, 7), WorkerNext::Connect);
    assert_eq!(run.on_event(WorkerEvent::SetupFailed, &win, 15, 7), WorkerNext::Connect);
    assert_eq!((run.ok, run.err), (1, 1));
    assert_eq!(unit_headers(true, "a:443")[0], (":method", "POST".to_string()));
    assert_eq!(unit_headers(false, "a:443")[0], (":method", "GET".to_string()));
    assert_eq!(unit_headers(false, "a:443")[3], (":authority", "a:443".to_string()));
    assert_eq!(torn_headers()[4], ("content-length", "65536".to_string()));
    assert_eq!(bench_run::redial_pause_ms(Protocol::H3), 20);
    assert_eq!(bench_run::redial_pause_ms(Protocol::H1), 0);
}

fn parts() -> FrontParts {
    let mut front = no_certs();
    front.ca = "near.pem".to_string();
    let mut far = no_certs();
    far.ca = "far.pem".to_string();
    FrontParts {
        listener: "127.0.0.1:1".to_string(),
        backend: "127.0.0.1:2".to_string(),
        metrics: "127.0.0.1:3".to_string(),
        front,
        far,
        retry_secret: "retry.bin".to_string(),
        idle_timeout_seconds: 11,
        read_frame_timeout_seconds: 12,
        flow_idle_timeout_ms: 13,
    }
}

#[test]
fn scenarios_say_what_stands_around() {
    let p = parts();
    assert!(over_udp(Setup::GrpcH3) && over_udp(Setup::ModeA) && !over_udp(Setup::WsH2));
    assert_eq!(origin_of(Setup::H3Terminate), Origin::Nothing);
    assert_eq!(origin_of(Setup::ModeB), Origin::QuicEcho);
    assert_eq!(origin_of(Setup::WsH3), Origin::WsEcho);
    assert_eq!(origin_of(Setup::GrpcH3), Origin::Grpc);
    assert_eq!(origin_of(Setup::Slowloris), Origin::H1);
    assert_eq!(origin_of(Setup::H2H2), Origin::H2);
    assert_eq!(certs_of(Setup::ModeA), CertNeeds { front: false, far: true });
    assert_eq!(certs_of(Setup::ModeA).client_ca(&p), "far.pem");
    assert_eq!(certs_of(Setup::ModeB).client_ca(&p), "near.pem");
    assert_eq!(certs_of(Setup::H1H1).client_ca(&p), "");
    assert!(config_of(Setup::H1H2, &p).contains("protocol = \"h2\""));
    assert!(config_of(Setup::WsH1, &p).contains("idle_timeout_seconds = 11"));
    assert!(config_of(Setup::ModeA, &p).contains("flow_idle_timeout_ms = 13"));
    assert!(config_of(Setup::ModeB, &p).contains("max_relay_streams = 256"));
    assert!(config_of(Setup::ModeB, &p).contains(BACKEND_NAME));
    assert!(config_of(Setup::WsH3, &p).contains("h3_extended_connect = true"));
    assert!(config_of(Setup::WsH2, &p).contains("h2_extended_connect = true"));
    assert!(!config_of(Setup::H3Terminate, &p).contains("listeners.backends"));
    assert!(config_of(Setup::Teardown413, &p).contains("protocol = \"h1\""));
    let (gauges, kinds) = gauges_of(Setup::ModeB);
    assert_eq!(gauges.len(), 4);
    assert_eq!(kinds[0].1, MetricKind::Counter);
    assert_eq!(gauges_of(Setup::H1H1).0, vec!["accept_inflight".to_string(), "panic_total".to_string()]);
    assert_eq!(gauges_of(Setup::WsH3).0, vec!["panic_total".to_string()]);
}

#[test]
fn protocols_say_what_stands_around() {
    let p = parts();
    assert!(bench_run::over_udp(Protocol::H3) && !bench_run::over_udp(Protocol::H2));
    assert_eq!(bench_run::origin_of(Protocol::H3), Origin::H2);
    assert_eq!(bench_run::origin_of(Protocol::QuicModeA), Origin::QuicEcho);
    assert_eq!(bench_run::certs_of(Protocol::H2), CertNeeds { front: true, far: false });
    assert_eq!(bench_run::certs_of(Protocol::WsH1), CertNeeds { front: false, far: false });
    assert!(bench_run::config_of(Protocol::H2, &p).contains("protocol = \"h1s\""));
    assert!(bench_run::config_of(Protocol::H3, &p).contains("protocol = \"quic\""));
    assert!(bench_run::config_of(Protocol::QuicModeA, &p).contains("[passthrough]"));
    assert!(bench_run::config_of(Protocol::WsH1, &p).contains("read_frame_timeout_seconds = 12"));
    assert!(bench_run::config_of(Protocol::H1, &p).contains("protocol = \"h1\""));
}

#[test]
fn echoes_are_judged() {
    let mut s = LoadStats::new();
    let payload = sustained_payload(4);
    assert_eq!(churn_payload(5, 0), echo_payload(5, 256));
    let same = judge_echo(&payload, &WsEcho::Bytes(payload.clone()));
    assert_eq!(same, EchoVerdict::Verified);
    let other = judge_echo(&payload, &WsEcho::Bytes(b"no".to_vec()));
    assert_eq!(other, EchoVerdict::Mismatch);
    assert_eq!(judge_echo(&payload, &WsEcho::Closed), EchoVerdict::Reconnect);
    record_echo(&mut s, same);
    record_echo(&mut s, other);
    record_echo(&mut s, EchoVerdict::Reconnect);
    assert_eq!((s.ok_count(), s.err_count()), (1, 1));
}

#[test]
fn header_values_are_read() {
    assert_eq!(header_number(b"200", 65_535), Some(200));
    assert_eq!(header_number(b"70000", 65_535), None);
    assert_eq!(header_number(b"x", 65_535), None);
    let fields = vec![(b":status".to_vec(), b"404".to_vec()), (b"a".to_vec(), b"1".to_vec())];
    assert_eq!(read_status(None, &fields), Some(404));
    assert_eq!(read_status(Some(200), &vec![]), Some(200));
    assert_eq!(header_integer(&b"-3".to_vec()), Some(-3));
    assert_eq!(read_trailer(None, &vec![(b"grpc-status".to_vec(), b"0".to_vec())]), Some(0));
}

#[test]
fn requests_pass_only_as_their_class() {
    let bad = request_at(0, 0);
    let good = request_at(0, 1);
    assert!(bad.bad_authority && !good.bad_authority);
    assert_eq!(good.headers().len(), 5);
    let mut p = H3Progress::new();
    p.on_event(&StreamEvent::Headers(vec![(b":status".to_vec(), b"400".to_vec())]));
    p.on_event(&StreamEvent::Data(11));
    p.on_event(&StreamEvent::Finished);
    assert_eq!(judge_request(bad, p, false), Ok(H3Outcome::Verified400));
    assert_eq!(judge_request(good, p, false), Err(H3Fault::OverReject));
    let mut hollow = H3Progress::new();
    hollow.on_event(&StreamEvent::Headers(vec![(b":status".to_vec(), b"400".to_vec())]));
    assert_eq!(judge_request(bad, hollow, false), Err(H3Fault::EmptyRefusal));
    let mut ok = H3Progress::new();
    ok.on_event(&StreamEvent::Headers(vec![(b":status".to_vec(), b"200".to_vec())]));
    assert_eq!(judge_request(bad, ok, false), Err(H3Fault::NotRefused { seen: Some(200) }));
    assert_eq!(judge_request(good, ok, false), Err(H3Fault::Impossible2xx { status: 200 }));
    let silent = H3Progress::new();
    assert_eq!(judge_request(good, silent, false), Ok(H3Outcome::BoundedDrop));
    assert_eq!(judge_request(good, silent, true), Err(H3Fault::ConnectionClosed));
    let mut odd = H3Progress::new();
    odd.on_event(&StreamEvent::Headers(vec![(b":status".to_vec(), b"503".to_vec())]));
    assert_eq!(judge_request(good, odd, false), Err(H3Fault::Unexpected { status: 503 }));
    assert!(H3Fault::OverReject.message().len() > 0);
}

#[test]
fn streams_open_within_their_time() {
    assert_eq!(open_step(OpenAttempt::Opened, true, true), OpenStep::Go);
    assert_eq!(open_step(OpenAttempt::Blocked, false, false), OpenStep::Retry);
    assert_eq!(open_step(OpenAttempt::Blocked, true, false), OpenStep::StayedBlocked);
    assert_eq!(open_step(OpenAttempt::Failed, false, false), OpenStep::Failed);
    assert_eq!(reset_step(0), (TornSide::Write, true));
    assert_eq!(reset_step(17), (TornSide::Read, false));
}

#[test]
fn calls_need_status_trailer_and_echo() {
    let framed = call_frame(1, 0);
    assert!(judge_call(Some(200), Some(0), &framed, &framed).is_none());
    assert_eq!(judge_call(Some(500), Some(0), &framed, &framed), Some(CallFault::Status(Some(500))));
    assert_eq!(judge_call(Some(200), None, &framed, &framed), Some(CallFault::Trailer(None)));
    assert_eq!(
        judge_call(Some(200), Some(0), b"x", b"yz"),
        Some(CallFault::Echo { got: 1, want: 2 })
    );
}

#[test]
fn a_session_issues_call_after_call() {
    let mut stats = LoadStats::new();
    let mut s = CallSession::new(7, 1, false);
    assert_eq!(s.check(true, false, false), Some("handshake timeout".to_string()));
    assert_eq!(s.check(false, true, false), Some("closed during handshake".to_string()));
    s.on_established();
    assert_eq!(s.check(false, true, false), Some("conn closed mid-session".to_string()));
    assert!(s.next_call(false));
    assert_eq!(s.check(false, true, false), Some("closed before request".to_string()));
    s.on_opened(4);
    assert_eq!(s.check(true, false, false), Some("send timeout".to_string()));
    let whole = s.unsent();
    assert_eq!(whole, call_frame(7, 0));
    s.on_sent(1_000);
    assert_eq!(s.unsent(), whole[1_000..].to_vec());
    s.on_sent(whole.len() - 1_000);
    assert_eq!(s.phase(), CallPhase::Awaiting);
    assert_eq!(s.check(true, false, false), Some("response timeout (sid 4)".to_string()));
    assert_eq!(s.check(false, true, false), Some("closed mid-response".to_string()));
    s.on_event(&AnswerEvent::Headers(vec![(b":status".to_vec(), b"200".to_vec())]));
    s.on_event(&AnswerEvent::Data(whole[..9].to_vec()));
    s.on_event(&AnswerEvent::Data(whole[9..].to_vec()));
    s.on_event(&AnswerEvent::Other);
    s.on_event(&AnswerEvent::Finished);
    assert_eq!(s.on_answer(false, &mut stats), Some(CallFault::Trailer(None)));
    assert_eq!(stats.ok_count(), 0);
    s.on_event(&AnswerEvent::Headers(vec![(b"grpc-status".to_vec(), b"0".to_vec())]));
    assert_eq!(s.on_answer(true, &mut stats), Some(CallFault::Closed));
    assert_eq!(CallFault::Status(None).message(), "status None");
    assert_eq!(CallFault::Status(Some(503)).message(), "status Some(503)");
    assert_eq!(CallFault::Trailer(Some(-2)).message(), "grpc-status Some(-2) (trailer drop?)");
    assert_eq!(CallFault::Echo { got: 1, want: 20 }.message(), "echo mismatch (1 vs 20 bytes)");
    assert_eq!(s.on_answer(false, &mut stats), None);
    assert_eq!((stats.ok_count(), s.passed()), (1, 1));
    assert_eq!(s.check(false, true, false), None, "no call is due any more");
    assert!(!s.next_call(false));
    assert_eq!(s.phase(), CallPhase::Ended);
    assert_eq!(call_headers("h")[2], (":authority", "h".to_string()));
}

#[test]
fn relayed_streams_come_back_whole() {
    let payload = striding_payload(10);
    let mut e = EchoStreams::new(2, payload.clone());
    assert_eq!(e.to_send(0), Some(0));
    e.on_sent(0, 10);
    e.on_sent(1, 4);
    assert_eq!(e.to_send(1), Some(4));
    e.on_sent(1, 6);
    assert_eq!(e.to_send(1), None);
    assert!(!e.done());
    assert!(matches!(e.on_received(0, &payload[..4], false), Ok(ReadStep::More)));
    assert!(matches!(e.on_received(0, &payload[4..], true), Ok(ReadStep::Stop)));
    let short = e.on_received(4, &payload[..9], true).err().expect("a short echo is an error");
    assert_eq!(short, EchoMismatch::Length { sid: 4, got: 9, want: 10 });
    assert_eq!(short.message(), "echo length mismatch sid=4: got 9 want 10");
    let long = e.on_received(4, &[0; 11], false).err().expect("a long echo is an error");
    assert_eq!(long, EchoMismatch::Length { sid: 4, got: 11, want: 10 });
    let mut whole = EchoStreams::new(1, vec![1, 2, 3]);
    whole.on_sent(0, 3);
    assert!(whole.on_received(0, &[1, 2, 3], true).is_ok());
    assert!(whole.done());
    assert_eq!(datagram_len(5_000), 1_024);
    assert_eq!(datagram_len(5), 5);
}

#[test]
fn another_byte_is_no_echo() {
    let mut e = EchoStreams::new(1, vec![7]);
    e.on_sent(0, 1);
    let wrong = e.on_received(0, &[8], true).err().expect("another byte is an error");
    assert_eq!(wrong, EchoMismatch::Content { sid: 0, at: 0 });
    assert!(!e.done());
    let mut e = EchoStreams::new(1, vec![1, 2, 3, 4]);
    assert!(e.on_received(0, &[1, 2], false).is_ok());
    let wrong = e.on_received(0, &[3, 5], true).err().expect("another byte is an error");
    assert_eq!(wrong.message(), "echo content mismatch sid=0: from byte 2");
    assert!(e.on_received(8, &[9], false).is_ok(), "no stream of the session");
}

#[test]
fn chaos_clients() {
    assert_eq!(chaos::trickle(3, 7), "X-3-7: y\r\n");
    assert_eq!(chaos::abort_after(0), 0);
    assert!(chaos::goes_on(false, false, 0, 1));
    assert!(!chaos::goes_on(true, false, 0, 1));
    assert!(!chaos::goes_on(false, false, 1, 1));
    assert!(!chaos::oversize_succeeded(None));
}

#[test]
fn soak_arguments() {
    let words = |text: &str| text.split(' ').map(String::from).collect::<Vec<String>>();
    let args = parse_soak_args(&words("--scenario sc1_h1h1 --duration-secs 30")).ok().flatten().expect("args");
    assert_eq!(args.scenario, "sc1_h1h1");
    assert_eq!(args.duration, 30);
    assert!(matches!(parse_soak_args(&words("--duration-secs 30")), Err(ArgError::MissingScenario)));
    assert!(matches!(parse_soak_args(&words("--nonsense")), Err(ArgError::Unknown(_))));
    for name in SCENARIOS {
        assert!(setup_of(name).is_some(), "{}", name);
    }
    assert_eq!(setup_of("sc99"), None);
    assert!(unknown_scenario("sc99").contains("sc99"));
    assert_eq!(env_usize(&None, 0), KNOBS[0].1);
    assert_eq!(env_usize(&Some("12".to_string()), 0), 12);
    assert_eq!(env_usize(&Some("x".to_string()), 0), KNOBS[0].1);
}

#[test]
fn scenarios_start_their_drivers() {
    let workers = Workers { quic: 4, h3: 4, h3_reset: 2, grpc: 6, grpc_churn: 6, ws: 8, ws_churn: 8 };
    let tasks = tasks_of(Setup::H1H1, 2, workers);
    assert_eq!(tasks.len(), 2);
    assert_eq!((tasks[0].drive, tasks[0].workers), (Drive::H1Load, 12));
    assert_eq!(tasks[1].tally, Some("conn_flood"));
    assert_eq!(client_name(Setup::H1H1), None);
}

#[test]
fn bench_arguments_and_protocols() {
    let words = |text: &str| text.split(' ').map(String::from).collect::<Vec<String>>();
    let args = parse_bench_args(&words("--protocol h2 --connections 8")).ok().flatten().expect("args");
    assert_eq!(args.protocol, "h2");
    assert_eq!(args.connections, 8);
    assert!(matches!(parse_bench_args(&words("--connections 8")), Err(ArgError::MissingProtocol)));
    assert_eq!(protocol_of("quic_modea"), Some(Protocol::QuicModeA));
    assert_eq!(protocol_of("h9"), None);
    assert_eq!(server_name(Protocol::H1), None);
}

#[test]
fn bench_runs_are_summed_up() {
    let win = Window::new(0, 10, 100);
    let mut run = RunOut::empty();
    run.on_reply(&win, 5, 1);
    for us in [30u128, 10, 20, 40] {
        run.on_reply(&win, 50, us);
    }
    run.on_failure(&win, 60);
    let merged = run.merge(RunOut::empty());
    let s = BenchSummary::from_run("h1", 2, 0, merged);
    assert_eq!((s.ok, s.err), (4, 1));
    assert_eq!((s.max_us, s.mean_us), (40, 25));
    assert!(s.p50_us <= s.p90_us && s.p90_us <= s.p99_us && s.p99_us <= s.max_us);
    let json = s.to_json("1", "2", "3");
    assert!(json.starts_with("{\"protocol\":\"h1\",\"conns\":2,"));
    assert!(s.human("1", "2", "3").contains("rps=3"));
    assert!(win.done(110) && !win.done(109));
    let mut v = vec![3, 1, 2];
    sort_ascending(&mut v);
    assert_eq!(v, vec![1, 2, 3]);
    assert_eq!(pct(&v, 0), 1);
    assert_eq!(pct(&v, 1000), 3);
    assert_eq!(pct(&vec![], 500), 0);
}

#[test]
fn bench_units() {
    assert_eq!(payload_bytes(4, 0).len(), 4);
    assert!(!unit(0, 1).post);
    assert!(unit(8, 1).post);
    assert_eq!(unit(8, 1).body.len(), 8);
    assert!(echo_len(0) > 0);
    assert_eq!(next_stream_id(4), 8);
    assert_eq!(unit_step(H3Event::Finished, false), UnitStep::Done);
    assert_eq!(unit_step(H3Event::Data, false), UnitStep::ReadBody);
    let mut e = EchoUnit::new(4);
    e.on_sent(4);
    assert_eq!(e.on_read(3, false), EchoRead::More);
    assert_eq!(e.on_read(1, true), EchoRead::Complete);
    let mut short = EchoUnit::new(4);
    assert_eq!(short.on_read(2, true), EchoRead::WrongLength);
}

#[test]
fn the_cost_of_a_run() {
    let sample = |elapsed: u128, ticks: u64, rss_kb: u64| ResSample {
        elapsed,
        ticks,
        rss_kb,
        vmhwm_kb: rss_kb,
        fds: 3,
        threads: 2,
    };
    let cost = cost_of(&vec![sample(0, 1, 900), sample(10, 5, 100), sample(30, 9, 200)], 10);
    assert_eq!((cost.rss_kb, cost.ticks, cost.nanos), (200, 4, 20));
    assert_eq!(
        record_json("{}", "1.5", &cost),
        "{\"summary\":{},\"gateway\":{\"cpu_pct\":1.5,\"rss_max_kb\":200,\"vmhwm_max_kb\":200,\"fds_max\":3,\"threads_max\":2}}"
    );
    assert_eq!(record_name("l", 4), "l-c4.json");
    let stat = "12 (a b) S 1 2 3 4 5 6 7 8 9 10 40 2 0 0";
    assert_eq!(read_proc_ticks(stat), Some(42));
    assert_eq!(read_proc_ticks("nothing"), None);
}
