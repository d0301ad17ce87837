//! The benchmark program: its command line, its targets, and what the gateway
//! cost while it ran.

use vstd::prelude::*;
use crate::gateway::upstream::{find_last, lemma_last_separator};
use crate::soak::backends::Origin;
use crate::soak::config_gen::{h1_front, h1_front_text, h1_front_ws, h1_front_ws_text, h1s_front, h1s_front_text, passthrough_mode_a, passthrough_mode_a_text, quic_h3_terminate_h2, quic_h3_terminate_h2_text, CertNeeds, FrontParts};
use crate::soak::scenario::{chars_in, number_in, number_or, option_value, past_option, value_at, ArgError};
use crate::text::{chars_of, decimal, parse_unsigned, push_decimal, same, string_of, texts, unsigned_value, words, words_of};

verus! {

/// The protocols, as they are listed.
pub const PROTOCOLS: &'static str = "protocols: h1 h2 h3 quic_modea ws_h1";

/// A path through the gateway.
#[derive(Debug, Clone, Copy, PartialEq, Eq, Structural)]
pub enum Protocol {
    H1,
    H2,
    H3,
    QuicModeA,
    WsH1,
}

/// The path that a name stands for.
pub open spec fn protocol_named(name: Seq<char>) -> Option<Protocol> {
    if name == "h1"@ {
        Some(Protocol::H1)
    } else if name == "h2"@ {
        Some(Protocol::H2)
    } else if name == "h3"@ {
        Some(Protocol::H3)
    } else if name == "quic_modea"@ {
        Some(Protocol::QuicModeA)
    } else if name == "ws_h1"@ {
        Some(Protocol::WsH1)
    } else {
        None
    }
}

/// The path that a name stands for.
pub fn protocol_of(name: &str) -> (r: Option<Protocol>)
    ensures
        r == protocol_named(name@),
{
    if same(name, "h1") {
        Some(Protocol::H1)
    } else if same(name, "h2") {
        Some(Protocol::H2)
    } else if same(name, "h3") {
        Some(Protocol::H3)
    } else if same(name, "quic_modea") {
        Some(Protocol::QuicModeA)
    } else if same(name, "ws_h1") {
        Some(Protocol::WsH1)
    } else {
        None
    }
}

/// The message for a name that stands for none.
pub fn unknown_protocol(name: &str) -> (out: String)
    ensures
        out@ == "unknown protocol "@ + name@ + " (try --list)"@,
{
    let mut out: String = "unknown protocol ".to_owned();
    out.append(name);
    out.append(" (try --list)");
    out
}

/// The name that clients ask for; a path without TLS has none.
pub fn server_name(p: Protocol) -> (r: Option<&'static str>)
    ensures
        match p {
            Protocol::H1 | Protocol::WsH1 => r is None,
            Protocol::H2 | Protocol::H3 => r matches Some(n) && n@ == "soak-front"@,
            Protocol::QuicModeA => r matches Some(n) && n@ == "soak-backend"@,
        },
{
    match p {
        Protocol::H1 | Protocol::WsH1 => None,
        Protocol::H2 | Protocol::H3 => Some("soak-front"),
        Protocol::QuicModeA => Some("soak-backend"),
    }
}

/// Whether clients reach the gateway over UDP.
pub fn over_udp(p: Protocol) -> (r: bool)
    ensures
        r == (p is H3 || p is QuicModeA),
{
    match p {
        Protocol::H3 | Protocol::QuicModeA => true,
        Protocol::H1 | Protocol::H2 | Protocol::WsH1 => false,
    }
}

/// How long a worker waits before it dials again, in milliseconds.
pub fn redial_pause_ms(p: Protocol) -> (ms: u64)
    ensures
        ms == if p is H3 || p is QuicModeA {
            20u64
        } else {
            0
        },
{
    if over_udp(p) {
        20
    } else {
        0
    }
}

/// The origin behind the gateway.
pub fn origin_of(p: Protocol) -> (r: Origin)
    ensures
        r == match p {
            Protocol::H1 => Origin::H1,
            Protocol::H2 | Protocol::H3 => Origin::H2,
            Protocol::QuicModeA => Origin::QuicEcho,
            Protocol::WsH1 => Origin::WsEcho,
        },
{
    match p {
        Protocol::H1 => Origin::H1,
        Protocol::H2 | Protocol::H3 => Origin::H2,
        Protocol::QuicModeA => Origin::QuicEcho,
        Protocol::WsH1 => Origin::WsEcho,
    }
}

/// Which certificates a path needs.
pub fn certs_of(p: Protocol) -> (r: CertNeeds)
    ensures
        r.front == (p is H2 || p is H3),
        r.far == (p is QuicModeA),
{
    match p {
        Protocol::H1 | Protocol::WsH1 => CertNeeds { front: false, far: false },
        Protocol::H2 | Protocol::H3 => CertNeeds { front: true, far: false },
        Protocol::QuicModeA => CertNeeds { front: false, far: true },
    }
}

/// The configuration of the gateway for a path.
pub open spec fn config_text(protocol: Protocol, p: FrontParts) -> Seq<char> {
    match protocol {
        Protocol::H1 => h1_front_text(p.listener@, p.backend@, "h1"@, p.metrics@),
        Protocol::H2 => h1s_front_text(p.listener@, p.backend@, "h2"@, p.metrics@, p.front),
        Protocol::H3 => quic_h3_terminate_h2_text(
            p.listener@,
            p.backend@,
            p.metrics@,
            p.front,
            p.retry_secret@,
        ),
        Protocol::QuicModeA => passthrough_mode_a_text(
            p.listener@,
            p.backend@,
            p.metrics@,
            p.retry_secret@,
            100_000,
            p.flow_idle_timeout_ms,
        ),
        Protocol::WsH1 => h1_front_ws_text(
            p.listener@,
            p.backend@,
            p.metrics@,
            p.idle_timeout_seconds,
            p.read_frame_timeout_seconds,
        ),
    }
}

/// The configuration of the gateway for a path.
pub fn config_of(protocol: Protocol, p: &FrontParts) -> (out: String)
    ensures
        out@ == config_text(protocol, *p),
{
    match protocol {
        Protocol::H1 => h1_front(&p.listener, &p.backend, "h1", &p.metrics),
        Protocol::H2 => h1s_front(&p.listener, &p.backend, "h2", &p.metrics, &p.front),
        Protocol::H3 => quic_h3_terminate_h2(
            &p.listener,
            &p.backend,
            &p.metrics,
            &p.front,
            &p.retry_secret,
        ),
        Protocol::QuicModeA => passthrough_mode_a(
            &p.listener,
            &p.backend,
            &p.metrics,
            &p.retry_secret,
            100_000,
            p.flow_idle_timeout_ms,
        ),
        Protocol::WsH1 => h1_front_ws(
            &p.listener,
            &p.backend,
            &p.metrics,
            p.idle_timeout_seconds,
            p.read_frame_timeout_seconds,
        ),
    }
}

// ---------------------------------------------------------------------------
// Command line
// ---------------------------------------------------------------------------

/// What a benchmark is asked to do.
#[derive(Debug)]
pub struct BenchArgs {
    pub protocol: String,
    pub connections: usize,
    pub duration_secs: u64,
    pub warmup_secs: u64,
    pub payload: usize,
    pub out: Option<String>,
    pub label: Option<String>,
    /// When not zero, the gateway is only served for this long.
    pub serve_secs: u64,
}

/// What the arguments came to so far.
pub struct BenchDraft {
    pub protocol: Option<Seq<char>>,
    pub connections: usize,
    pub duration_secs: u64,
    pub warmup_secs: u64,
    pub payload: usize,
    pub out: Option<Seq<char>>,
    pub label: Option<Seq<char>>,
    pub serve_secs: u64,
}

/// What the arguments of a benchmark come to: a listing as soon as one is
/// asked for, an error at the first unknown argument, else the draft. A number
/// that cannot be read leaves what was there.
pub open spec fn bench_draft(args: Seq<Seq<char>>, d: BenchDraft) -> Result<
    Option<BenchDraft>,
    Seq<char>,
>
    decreases args.len(),
{
    if args.len() == 0 {
        Ok(Some(d))
    } else {
        let value = option_value(args);
        let rest = past_option(args);
        if args[0] == "--protocol"@ {
            bench_draft(rest, BenchDraft { protocol: value, ..d })
        } else if args[0] == "--connections"@ || args[0] == "-c"@ {
            bench_draft(
                rest,
                BenchDraft {
                    connections: number_or(value, usize::MAX as nat, d.connections as nat) as usize,
                    ..d
                },
            )
        } else if args[0] == "--duration-secs"@ {
            bench_draft(
                rest,
                BenchDraft {
                    duration_secs: number_or(value, u64::MAX as nat, d.duration_secs as nat) as u64,
                    ..d
                },
            )
        } else if args[0] == "--warmup-secs"@ {
            bench_draft(
                rest,
                BenchDraft {
                    warmup_secs: number_or(value, u64::MAX as nat, d.warmup_secs as nat) as u64,
                    ..d
                },
            )
        } else if args[0] == "--payload"@ {
            bench_draft(
                rest,
                BenchDraft {
                    payload: number_or(value, usize::MAX as nat, d.payload as nat) as usize,
                    ..d
                },
            )
        } else if args[0] == "--out"@ {
            bench_draft(rest, BenchDraft { out: value, ..d })
        } else if args[0] == "--label"@ {
            bench_draft(rest, BenchDraft { label: value, ..d })
        } else if args[0] == "--serve-secs"@ {
            bench_draft(
                rest,
                BenchDraft { serve_secs: number_or(value, u64::MAX as nat, 0) as u64, ..d },
            )
        } else if args[0] == "--list"@ {
            Ok(None)
        } else {
            Err(args[0])
        }
    }
}

/// The settings of a benchmark without any argument.
pub open spec fn bench_defaults() -> BenchDraft {
    BenchDraft {
        protocol: None,
        connections: 32,
        duration_secs: 30,
        warmup_secs: 5,
        payload: 0,
        out: None,
        label: None,
        serve_secs: 0,
    }
}

/// Whether `r` is what the arguments of a benchmark ask for.
pub open spec fn bench_outcome(args: Seq<Seq<char>>, r: Result<Option<BenchArgs>, ArgError>) -> bool {
    match bench_draft(args, bench_defaults()) {
        Ok(None) => r matches Ok(None),
        Err(a) => r matches Err(ArgError::Unknown(u)) && u@ == a,
        Ok(Some(d)) => match d.protocol {
            None => r matches Err(e) && e is MissingProtocol,
            Some(name) => {
                &&& r matches Ok(Some(a))
                &&& a.protocol@ == name
                &&& a.connections == d.connections
                &&& a.duration_secs == d.duration_secs
                &&& a.warmup_secs == d.warmup_secs
                &&& a.payload == d.payload
                &&& chars_in(a.out) == d.out
                &&& chars_in(a.label) == d.label
                &&& a.serve_secs == d.serve_secs
            },
        },
    }
}

/// What the arguments of a benchmark ask for; nothing when they ask for the
/// list of protocols.
pub fn parse_bench_args(args: &Vec<String>) -> (r: Result<Option<BenchArgs>, ArgError>)
    ensures
        bench_outcome(texts(args@), r),
{
    let ghost all = texts(args@);
    let mut protocol: Option<String> = None;
    let mut connections: usize = 32;
    let mut duration_secs: u64 = 30;
    let mut warmup_secs: u64 = 5;
    let mut payload: usize = 0;
    let mut out: Option<String> = None;
    let mut label: Option<String> = None;
    let mut serve_secs: u64 = 0;
    let mut i: usize = 0;
    assert(all.skip(0) =~= all);
    while i < args.len()
        invariant
            i <= args@.len(),
            all == texts(args@),
            bench_draft(all, bench_defaults()) == bench_draft(
                all.skip(i as int),
                BenchDraft {
                    protocol: chars_in(protocol),
                    connections,
                    duration_secs,
                    warmup_secs,
                    payload,
                    out: chars_in(out),
                    label: chars_in(label),
                    serve_secs,
                },
            ),
        decreases args@.len() - i,
    {
        let ghost rest = all.skip(i as int);
        assert(rest[0] == args@[i as int]@);
        let value = value_at(args, i);
        proof {
            if i + 1 < args@.len() {
                assert(rest.skip(2) =~= all.skip(i + 2));
            } else {
                assert(rest.skip(1) =~= all.skip(i + 1));
            }
        }
        if same(&args[i], "--protocol") {
            protocol = value;
        } else if same(&args[i], "--connections") || same(&args[i], "-c") {
            connections = number_in(&value, usize::MAX as u64, connections as u64) as usize;
        } else if same(&args[i], "--duration-secs") {
            duration_secs = number_in(&value, u64::MAX, duration_secs);
        } else if same(&args[i], "--warmup-secs") {
            warmup_secs = number_in(&value, u64::MAX, warmup_secs);
        } else if same(&args[i], "--payload") {
            payload = number_in(&value, usize::MAX as u64, payload as u64) as usize;
        } else if same(&args[i], "--out") {
            out = value;
        } else if same(&args[i], "--label") {
            label = value;
        } else if same(&args[i], "--serve-secs") {
            serve_secs = number_in(&value, u64::MAX, 0);
        } else if same(&args[i], "--list") {
            return Ok(None);
        } else {
            return Err(ArgError::Unknown(args[i].clone()));
        }
        i = if args.len() - i > 1 { i + 2 } else { i + 1 };
    }
    assert(all.skip(i as int).len() == 0);
    match protocol {
        None => Err(ArgError::MissingProtocol),
        Some(name) => Ok(
            Some(
                BenchArgs {
                    protocol: name,
                    connections,
                    duration_secs,
                    warmup_secs,
                    payload,
                    out,
                    label,
                    serve_secs,
                },
            ),
        ),
    }
}

// ---------------------------------------------------------------------------
// Cost
// ---------------------------------------------------------------------------

/// What follows the name in the status line of a process. The name stands in
/// parentheses and may hold any of its own.
pub open spec fn after_name(stat: Seq<char>) -> Option<Seq<char>> {
    let k = find_last(stat, ')') as int;
    if k + 1 < stat.len() && (stat[k + 1] as u32) < 128 {
        Some(stat.skip(k + 2))
    } else {
        None
    }
}

/// The processor time of a process in clock ticks: in user mode and in the
/// system.
pub open spec fn ticks_of(stat: Seq<char>) -> Option<u64> {
    match after_name(stat) {
        None => None,
        Some(rest) => if words(rest).len() <= 12 {
            None
        } else {
            match (
                unsigned_value(words(rest)[11], u64::MAX as nat),
                unsigned_value(words(rest)[12], u64::MAX as nat),
            ) {
                (Some(user), Some(system)) => Some((user as u64).wrapping_add(system as u64)),
                _ => None,
            }
        },
    }
}

/// The processor time of a process, from the line that the system keeps on it.
pub fn read_proc_ticks(stat: &str) -> (r: Option<u64>)
    ensures
        r == ticks_of(stat@),
{
    let chars = chars_of(stat);
    let k = crate::gateway::upstream::last_position(&chars, ')');
    if k >= chars.len() || k + 1 >= chars.len() {
        return None;
    }
    if chars[k + 1] as u32 >= 128 {
        return None;
    }
    let rest = string_of(&chars, k + 2, chars.len());
    assert(rest@ =~= stat@.skip(k + 2));
    let fields = words_of(&rest);
    if fields.len() <= 12 {
        return None;
    }
    assert(texts(fields@)[11] == fields@[11]@);
    assert(texts(fields@)[12] == fields@[12]@);
    match parse_unsigned(&fields[11], u64::MAX) {
        None => None,
        Some(user) => match parse_unsigned(&fields[12], u64::MAX) {
            None => None,
            Some(system) => Some(user.wrapping_add(system)),
        },
    }
}

/// A look at the gateway while it runs. The time is in nanoseconds since the
/// first look.
#[derive(Debug, Clone, Copy, PartialEq, Eq, Structural)]
pub struct ResSample {
    pub elapsed: u128,
    pub ticks: u64,
    pub rss_kb: u64,
    pub vmhwm_kb: u64,
    pub fds: u64,
    pub threads: u64,
}

/// What the gateway cost: the largest of each figure, and the ticks and the
/// time between the first look and the last.
#[derive(Debug, Clone, Copy, PartialEq, Eq, Structural)]
pub struct Cost {
    pub rss_kb: u64,
    pub vmhwm_kb: u64,
    pub fds: u64,
    pub threads: u64,
    pub ticks: u64,
    pub nanos: u128,
}

/// The looks that fall behind the warm-up, in order.
pub open spec fn measured(samples: Seq<ResSample>, warmup: u128) -> Seq<ResSample> {
    samples.filter(|s: ResSample| s.elapsed >= warmup)
}

/// Whether `m` is the largest of a figure, or zero when there is none.
pub open spec fn is_largest(values: Seq<u64>, m: u64) -> bool {
    &&& forall|i: int| 0 <= i < values.len() ==> #[trigger] values[i] <= m
    &&& m == 0 || values.contains(m)
}

/// The ticks and the time between the first look and the last; nothing when
/// no time passed.
pub open spec fn spent(win: Seq<ResSample>) -> (u64, u128) {
    if win.len() > 0 && win.last().elapsed > win[0].elapsed {
        (
            if win.last().ticks >= win[0].ticks {
                (win.last().ticks - win[0].ticks) as u64
            } else {
                0
            },
            (win.last().elapsed - win[0].elapsed) as u128,
        )
    } else {
        (0, 0)
    }
}

fn measured_of(samples: &Vec<ResSample>, warmup: u128) -> (out: Vec<ResSample>)
    ensures
        out@ == measured(samples@, warmup),
{
    let mut out: Vec<ResSample> = Vec::new();
    let mut i: usize = 0;
    proof {
        reveal(Seq::filter);
    }
    while i < samples.len()
        invariant
            i <= samples@.len(),
            out@ == measured(samples@.take(i as int), warmup),
        decreases samples@.len() - i,
    {
        reveal(Seq::filter);
        assert(samples@.take(i + 1).drop_last() =~= samples@.take(i as int));
        if samples[i].elapsed >= warmup {
            out.push(samples[i]);
        }
        i += 1;
    }
    assert(samples@.take(i as int) =~= samples@);
    out
}

fn largest(values: &Vec<u64>) -> (m: u64)
    ensures
        is_largest(values@, m),
{
    let mut m: u64 = 0;
    let mut i: usize = 0;
    while i < values.len()
        invariant
            i <= values@.len(),
            forall|j: int| 0 <= j < i ==> #[trigger] values@[j] <= m,
            m == 0 || values@.contains(m),
        decreases values@.len() - i,
    {
        if values[i] > m {
            m = values[i];
            assert(values@[i as int] == m);
        }
        i += 1;
    }
    m
}

/// What the gateway cost behind the warm-up.
pub fn cost_of(samples: &Vec<ResSample>, warmup: u128) -> (r: Cost)
    ensures
        ({
            let win = measured(samples@, warmup);
            &&& is_largest(win.map_values(|s: ResSample| s.rss_kb), r.rss_kb)
            &&& is_largest(win.map_values(|s: ResSample| s.vmhwm_kb), r.vmhwm_kb)
            &&& is_largest(win.map_values(|s: ResSample| s.fds), r.fds)
            &&& is_largest(win.map_values(|s: ResSample| s.threads), r.threads)
            &&& (r.ticks, r.nanos) == spent(win)
        }),
{
    let win = measured_of(samples, warmup);
    let mut rss: Vec<u64> = Vec::new();
    let mut hwm: Vec<u64> = Vec::new();
    let mut fds: Vec<u64> = Vec::new();
    let mut threads: Vec<u64> = Vec::new();
    let mut i: usize = 0;
    while i < win.len()
        invariant
            i <= win@.len(),
            rss@ =~= win@.take(i as int).map_values(|s: ResSample| s.rss_kb),
            hwm@ =~= win@.take(i as int).map_values(|s: ResSample| s.vmhwm_kb),
            fds@ =~= win@.take(i as int).map_values(|s: ResSample| s.fds),
            threads@ =~= win@.take(i as int).map_values(|s: ResSample| s.threads),
        decreases win@.len() - i,
    {
        rss.push(win[i].rss_kb);
        hwm.push(win[i].vmhwm_kb);
        fds.push(win[i].fds);
        threads.push(win[i].threads);
        i += 1;
    }
    assert(win@.take(i as int) =~= win@);
    let mut ticks: u64 = 0;
    let mut nanos: u128 = 0;
    if win.len() > 0 {
        let first = win[0];
        let last = win[win.len() - 1];
        if last.elapsed > first.elapsed {
            nanos = last.elapsed - first.elapsed;
            if last.ticks >= first.ticks {
                ticks = last.ticks - first.ticks;
            }
        }
    }
    Cost {
        rss_kb: largest(&rss),
        vmhwm_kb: largest(&hwm),
        fds: largest(&fds),
        threads: largest(&threads),
        ticks,
        nanos,
    }
}

/// The record of a benchmark: its summary and what the gateway cost, with the
/// share of a processor already rendered.
pub fn record_json(summary: &str, cpu_pct: &str, cost: &Cost) -> (out: String)
    ensures
        out@ == "{\"summary\":"@ + summary@ + ",\"gateway\":{\"cpu_pct\":"@ + cpu_pct@
            + ",\"rss_max_kb\":"@ + decimal(cost.rss_kb as nat) + ",\"vmhwm_max_kb\":"@ + decimal(
            cost.vmhwm_kb as nat,
        ) + ",\"fds_max\":"@ + decimal(cost.fds as nat) + ",\"threads_max\":"@ + decimal(
            cost.threads as nat,
        ) + "}}"@,
{
    let mut out: String = "{\"summary\":".to_owned();
    out.append(summary);
    out.append(",\"gateway\":{\"cpu_pct\":");
    out.append(cpu_pct);
    out.append(",\"rss_max_kb\":");
    push_decimal(&mut out, cost.rss_kb);
    out.append(",\"vmhwm_max_kb\":");
    push_decimal(&mut out, cost.vmhwm_kb);
    out.append(",\"fds_max\":");
    push_decimal(&mut out, cost.fds);
    out.append(",\"threads_max\":");
    push_decimal(&mut out, cost.threads);
    out.append("}}");
    out
}

/// The file name of a record.
pub fn record_name(label: &str, connections: u64) -> (out: String)
    ensures
        out@ == label@ + "-c"@ + decimal(connections as nat) + ".json"@,
{
    let mut out: String = label.to_owned();
    out.append("-c");
    push_decimal(&mut out, connections);
    out.append(".json");
    out
}

// ---------------------------------------------------------------------------
// Laws
// ---------------------------------------------------------------------------

/// Which protocol a name stands for, and what a benchmark of it needs.
pub proof fn law_protocol_needs(
    name: &str,
    r: Option<Protocol>,
    p: Protocol,
    server: Option<&'static str>,
    udp: bool,
    pause: u64,
    origin: Origin,
    certs: CertNeeds,
)
    requires
        call_ensures(protocol_of, (name,), r),
        r == Some(p),
        call_ensures(server_name, (p,), server),
        call_ensures(over_udp, (p,), udp),
        call_ensures(redial_pause_ms, (p,), pause),
        call_ensures(origin_of, (p,), origin),
        call_ensures(certs_of, (p,), certs),
    ensures
        name@ == "h1"@ || name@ == "h2"@ || name@ == "h3"@ || name@ == "quic_modea"@ || name@
            == "ws_h1"@,
        name@ == "h1"@ ==> server is None && origin == Origin::H1,
        name@ == "ws_h1"@ ==> server is None && origin == Origin::WsEcho,
        name@ == "h2"@ || name@ == "h3"@ ==> server is Some && server->0@ == "soak-front"@ && origin
            == Origin::H2,
        name@ == "quic_modea"@ ==> server is Some && server->0@ == "soak-backend"@ && origin
            == Origin::QuicEcho,
        udp <==> name@ == "h3"@ || name@ == "quic_modea"@,
        udp ==> pause == 20,
        !udp ==> pause == 0,
        certs.front <==> name@ == "h2"@ || name@ == "h3"@,
        certs.far <==> name@ == "quic_modea"@,
{
    lemma_bench_names();
}

/// A name stands for a protocol exactly when it is one of the five.
pub proof fn law_protocols(name: &str, r: Option<Protocol>)
    requires
        call_ensures(protocol_of, (name,), r),
    ensures
        r is Some <==> name@ == "h1"@ || name@ == "h2"@ || name@ == "h3"@ || name@ == "quic_modea"@
            || name@ == "ws_h1"@,
        r == Some(Protocol::H1) <==> name@ == "h1"@,
        r == Some(Protocol::H2) <==> name@ == "h2"@,
        r == Some(Protocol::H3) <==> name@ == "h3"@,
        r == Some(Protocol::QuicModeA) <==> name@ == "quic_modea"@,
        r == Some(Protocol::WsH1) <==> name@ == "ws_h1"@,
{
    lemma_bench_names();
}

proof fn lemma_bench_names()
    ensures
        "h1"@ != "h2"@,
        "h1"@ != "h3"@,
        "h2"@ != "h3"@,
        "quic_modea"@.len() == 10,
        "ws_h1"@.len() == 5,
        "h1"@.len() == 2,
        "h2"@.len() == 2,
        "h3"@.len() == 2,
{
    reveal_strlit("h1");
    reveal_strlit("h2");
    reveal_strlit("h3");
    reveal_strlit("quic_modea");
    reveal_strlit("ws_h1");
    assert("h1"@[1] == '1' && "h2"@[1] == '2' && "h3"@[1] == '3');
}

/// The options of a benchmark are different texts.
proof fn lemma_bench_options()
    ensures
        "--protocol"@.len() == 10,
        "--connections"@.len() == 13,
        "-c"@.len() == 2,
        "--duration-secs"@.len() == 15,
        "--warmup-secs"@.len() == 13,
        "--connections"@ != "--warmup-secs"@,
        "--payload"@.len() == 9,
        "--out"@.len() == 5,
        "--label"@.len() == 7,
        "--serve-secs"@.len() == 12,
        "--list"@.len() == 6,
{
    reveal_strlit("--protocol");
    reveal_strlit("--connections");
    reveal_strlit("-c");
    reveal_strlit("--duration-secs");
    reveal_strlit("--warmup-secs");
    reveal_strlit("--payload");
    reveal_strlit("--out");
    reveal_strlit("--label");
    reveal_strlit("--serve-secs");
    reveal_strlit("--list");
    assert("--connections"@[2] == 'c' && "--warmup-secs"@[2] == 'w');
}

/// What a benchmark runs with when only its protocol is given: thirty seconds
/// behind five of warm-up, on 32 connections, without a payload.
pub proof fn law_bench_defaults(args: Vec<String>, r: Result<Option<BenchArgs>, ArgError>)
    requires
        args@.len() == 2,
        args@[0]@ == "--protocol"@,
        call_ensures(parse_bench_args, (&args,), r),
    ensures
        r is Ok && r->Ok_0 is Some && ({
            let a = r->Ok_0->0;
            &&& a.protocol@ == args@[1]@
            &&& a.connections == 32
            &&& a.duration_secs == 30
            &&& a.warmup_secs == 5
            &&& a.payload == 0
            &&& a.out is None
            &&& a.label is None
            &&& a.serve_secs == 0
        }),
{
    let t = texts(args@);
    assert(t[0] == "--protocol"@ && t[1] == args@[1]@);
    assert(t.skip(2) =~= Seq::<Seq<char>>::empty());
    let d = BenchDraft { protocol: Some(args@[1]@), ..bench_defaults() };
    assert(bench_draft(t.skip(2), d) == Ok::<Option<BenchDraft>, Seq<char>>(Some(d)));
}

/// A benchmark without a protocol is refused.
pub proof fn law_bench_needs_a_protocol(args: Vec<String>, r: Result<Option<BenchArgs>, ArgError>)
    requires
        args@.len() == 0,
        call_ensures(parse_bench_args, (&args,), r),
    ensures
        r is Err && r->Err_0 is MissingProtocol,
{
    assert(texts(args@) =~= Seq::<Seq<char>>::empty());
}

/// What one more option changes: its own value and no other, and a number that
/// cannot be read changes nothing (but for the time to serve, which is then
/// zero). A listing takes the place of everything, and an unknown option is an
/// error that names it.
pub proof fn law_last_option_wins(
    args: Vec<String>,
    more: Vec<String>,
    key: String,
    value: String,
    r: Result<Option<BenchArgs>, ArgError>,
    s: Result<Option<BenchArgs>, ArgError>,
)
    requires
        args@.len() % 2 == 0,
        more@ == args@.push(key).push(value),
        call_ensures(parse_bench_args, (&args,), r),
        call_ensures(parse_bench_args, (&more,), s),
        r is Ok && r->Ok_0 is Some,
    ensures
        key@ == "--list"@ ==> s is Ok && s->Ok_0 is None,
        is_bench_option(key@) ==> s is Ok && s->Ok_0 is Some && ({
            let a = r->Ok_0->0;
            let b = s->Ok_0->0;
            &&& b.protocol@ == if key@ == "--protocol"@ {
                value@
            } else {
                a.protocol@
            }
            &&& b.connections == if key@ == "--connections"@ || key@ == "-c"@ {
                read_or(value@, usize::MAX as nat, a.connections as nat)
            } else {
                a.connections as nat
            }
            &&& b.duration_secs == if key@ == "--duration-secs"@ {
                read_or(value@, u64::MAX as nat, a.duration_secs as nat)
            } else {
                a.duration_secs as nat
            }
            &&& b.warmup_secs == if key@ == "--warmup-secs"@ {
                read_or(value@, u64::MAX as nat, a.warmup_secs as nat)
            } else {
                a.warmup_secs as nat
            }
            &&& b.payload == if key@ == "--payload"@ {
                read_or(value@, usize::MAX as nat, a.payload as nat)
            } else {
                a.payload as nat
            }
            &&& b.serve_secs == if key@ == "--serve-secs"@ {
                read_or(value@, u64::MAX as nat, 0)
            } else {
                a.serve_secs as nat
            }
            &&& key@ == "--out"@ ==> b.out is Some && b.out->0@ == value@
            &&& key@ != "--out"@ ==> (b.out is Some <==> a.out is Some) && (a.out is Some ==> b.out->0@
                == a.out->0@)
            &&& key@ == "--label"@ ==> b.label is Some && b.label->0@ == value@
            &&& key@ != "--label"@ ==> (b.label is Some <==> a.label is Some) && (a.label is Some
                ==> b.label->0@ == a.label->0@)
        }),
        !is_bench_option(key@) && key@ != "--list"@ ==> s is Err && s->Err_0 is Unknown
            && s->Err_0->Unknown_0@ == key@,
{
    lemma_bench_options();
    let t = texts(args@);
    let pair = seq![key@, value@];
    assert(texts(more@) =~= t + pair);
    let e = bench_draft(t, bench_defaults())->Ok_0->0;
    lemma_bench_draft_on(t, pair, bench_defaults());
    lemma_bench_pair(key@, value@, e);
    let a = r->Ok_0->0;
    assert(chars_in(a.out) == e.out && chars_in(a.label) == e.label);
    if is_bench_option(key@) {
        let b = s->Ok_0->0;
        let f = bench_draft(pair, e)->Ok_0->0;
        assert(chars_in(b.out) == f.out && chars_in(b.label) == f.label);
    }
}

proof fn lemma_bench_pair(key: Seq<char>, value: Seq<char>, d: BenchDraft)
    ensures
        ({
            let r = bench_draft(seq![key, value], d);
            let f = r->Ok_0->0;
            &&& is_bench_option(key) ==> {
                &&& r is Ok
                &&& r->Ok_0 is Some
                &&& f.protocol == if key == "--protocol"@ {
                    Some(value)
                } else {
                    d.protocol
                }
                &&& f.connections == if key == "--connections"@ || key == "-c"@ {
                    read_or(value, usize::MAX as nat, d.connections as nat)
                } else {
                    d.connections as nat
                }
                &&& f.duration_secs == if key == "--duration-secs"@ {
                    read_or(value, u64::MAX as nat, d.duration_secs as nat)
                } else {
                    d.duration_secs as nat
                }
                &&& f.warmup_secs == if key == "--warmup-secs"@ {
                    read_or(value, u64::MAX as nat, d.warmup_secs as nat)
                } else {
                    d.warmup_secs as nat
                }
                &&& f.payload == if key == "--payload"@ {
                    read_or(value, usize::MAX as nat, d.payload as nat)
                } else {
                    d.payload as nat
                }
                &&& f.serve_secs == if key == "--serve-secs"@ {
                    read_or(value, u64::MAX as nat, 0)
                } else {
                    d.serve_secs as nat
                }
                &&& f.out == if key == "--out"@ {
                    Some(value)
                } else {
                    d.out
                }
                &&& f.label == if key == "--label"@ {
                    Some(value)
                } else {
                    d.label
                }
            }
            &&& key == "--list"@ ==> r == Ok::<Option<BenchDraft>, Seq<char>>(None)
            &&& !is_bench_option(key) && key != "--list"@ ==> r == Err::<Option<BenchDraft>, Seq<char>>(
                key,
            )
        }),
{
    reveal_with_fuel(bench_draft, 2);
    lemma_bench_options();
    let pair = seq![key, value];
    assert(pair[0] == key);
    assert(option_value(pair) == Some(value));
    assert(past_option(pair) =~= Seq::<Seq<char>>::empty());
}

/// Whether a text is an option of a benchmark that takes a value.
pub open spec fn is_bench_option(key: Seq<char>) -> bool {
    ||| key == "--protocol"@
    ||| key == "--connections"@
    ||| key == "-c"@
    ||| key == "--duration-secs"@
    ||| key == "--warmup-secs"@
    ||| key == "--payload"@
    ||| key == "--out"@
    ||| key == "--label"@
    ||| key == "--serve-secs"@
}

/// The number that a text stands for, or another one.
pub open spec fn read_or(text: Seq<char>, max: nat, other: nat) -> nat {
    match unsigned_value(text, max) {
        Some(n) => n,
        None => other,
    }
}

proof fn lemma_bench_draft_on(args: Seq<Seq<char>>, more: Seq<Seq<char>>, d: BenchDraft)
    requires
        args.len() % 2 == 0,
        bench_draft(args, d) is Ok,
        bench_draft(args, d)->Ok_0 is Some,
    ensures
        bench_draft(args + more, d) == bench_draft(more, bench_draft(args, d)->Ok_0->0),
    decreases args.len(),
{
    let all = args + more;
    if args.len() == 0 {
        assert(all =~= more);
    } else {
        let value = option_value(args);
        let rest = past_option(args);
        assert(all[0] == args[0]);
        assert(option_value(all) == value);
        assert(past_option(all) =~= rest + more);
        if args[0] == "--protocol"@ {
            lemma_bench_draft_on(rest, more, BenchDraft { protocol: value, ..d });
        } else if args[0] == "--connections"@ || args[0] == "-c"@ {
            lemma_bench_draft_on(
                rest,
                more,
                BenchDraft {
                    connections: number_or(value, usize::MAX as nat, d.connections as nat) as usize,
                    ..d
                },
            );
        } else if args[0] == "--duration-secs"@ {
            lemma_bench_draft_on(
                rest,
                more,
                BenchDraft {
                    duration_secs: number_or(value, u64::MAX as nat, d.duration_secs as nat) as u64,
                    ..d
                },
            );
        } else if args[0] == "--warmup-secs"@ {
            lemma_bench_draft_on(
                rest,
                more,
                BenchDraft {
                    warmup_secs: number_or(value, u64::MAX as nat, d.warmup_secs as nat) as u64,
                    ..d
                },
            );
        } else if args[0] == "--payload"@ {
            lemma_bench_draft_on(
                rest,
                more,
                BenchDraft {
                    payload: number_or(value, usize::MAX as nat, d.payload as nat) as usize,
                    ..d
                },
            );
        } else if args[0] == "--out"@ {
            lemma_bench_draft_on(rest, more, BenchDraft { out: value, ..d });
        } else if args[0] == "--label"@ {
            lemma_bench_draft_on(rest, more, BenchDraft { label: value, ..d });
        } else if args[0] == "--serve-secs"@ {
            lemma_bench_draft_on(
                rest,
                more,
                BenchDraft { serve_secs: number_or(value, u64::MAX as nat, 0) as u64, ..d },
            );
        }
    }
}

/// What a process has used: the text behind the last closing bracket counts, and
/// in it the twelfth and the thirteenth word, which are added up.
pub proof fn law_ticks(
    stat: &str,
    head: Seq<char>,
    c: char,
    tail: Seq<char>,
    r: Option<u64>,
)
    requires
        call_ensures(read_proc_ticks, (stat,), r),
        stat@ == head + seq![')'] + (seq![c] + tail),
        !tail.contains(')'),
        c != ')',
        (c as u32) < 128,
    ensures
        words(tail).len() <= 12 ==> r is None,
        words(tail).len() > 12 ==> ({
            let user = unsigned_value(words(tail)[11], u64::MAX as nat);
            let system = unsigned_value(words(tail)[12], u64::MAX as nat);
            &&& r is Some <==> user is Some && system is Some
            &&& r is Some && user->0 + system->0 <= u64::MAX ==> r->0 == user->0 + system->0
        }),
{
    let b = seq![c] + tail;
    assert(!b.contains(')')) by {
        if b.contains(')') {
            let i = choose|i: int| 0 <= i < b.len() && b[i] == ')';
            if i > 0 {
                assert(tail[i - 1] == ')');
            }
        }
    }
    lemma_last_separator(head, ')', b);
    let k = head.len() as int;
    assert(stat@[k + 1] == c);
    assert(stat@.skip(k + 2) =~= tail);
}

/// What a run cost: of each figure the largest that was seen behind the warm-up,
/// and of the ticks and the time what lies between the first look there and the
/// last.
pub proof fn law_cost(samples: Vec<ResSample>, warmup: u128, r: Cost, a: int, b: int)
    requires
        call_ensures(cost_of, (&samples, warmup), r),
        0 <= a <= b < samples@.len(),
        samples@[a].elapsed >= warmup,
        samples@[b].elapsed >= warmup,
        forall|i: int| 0 <= i < a ==> (#[trigger] samples@[i]).elapsed < warmup,
        forall|i: int| b < i < samples@.len() ==> (#[trigger] samples@[i]).elapsed < warmup,
    ensures
        forall|i: int|
            0 <= i < samples@.len() && (#[trigger] samples@[i]).elapsed >= warmup ==> samples@[i].rss_kb
                <= r.rss_kb && samples@[i].vmhwm_kb <= r.vmhwm_kb && samples@[i].fds <= r.fds
                && samples@[i].threads <= r.threads,
        r.rss_kb > 0 ==> exists|i: int|
            0 <= i < samples@.len() && (#[trigger] samples@[i]).elapsed >= warmup && samples@[i].rss_kb
                == r.rss_kb,
        r.vmhwm_kb > 0 ==> exists|i: int|
            0 <= i < samples@.len() && (#[trigger] samples@[i]).elapsed >= warmup
                && samples@[i].vmhwm_kb == r.vmhwm_kb,
        r.fds > 0 ==> exists|i: int|
            0 <= i < samples@.len() && (#[trigger] samples@[i]).elapsed >= warmup && samples@[i].fds
                == r.fds,
        r.threads > 0 ==> exists|i: int|
            0 <= i < samples@.len() && (#[trigger] samples@[i]).elapsed >= warmup
                && samples@[i].threads == r.threads,
        samples@[b].elapsed > samples@[a].elapsed ==> r.nanos == samples@[b].elapsed
            - samples@[a].elapsed && (samples@[b].ticks >= samples@[a].ticks ==> r.ticks
            == samples@[b].ticks - samples@[a].ticks) && (samples@[b].ticks < samples@[a].ticks
            ==> r.ticks == 0),
        samples@[b].elapsed <= samples@[a].elapsed ==> r.nanos == 0 && r.ticks == 0,
{
    let win = measured(samples@, warmup);
    lemma_measured(samples@, warmup);
    lemma_measured_ends(samples@, warmup, a, b);
    let rss = win.map_values(|s: ResSample| s.rss_kb);
    let hwm = win.map_values(|s: ResSample| s.vmhwm_kb);
    let fds = win.map_values(|s: ResSample| s.fds);
    let threads = win.map_values(|s: ResSample| s.threads);
    assert(is_largest(rss, r.rss_kb));
    assert(is_largest(hwm, r.vmhwm_kb));
    assert(is_largest(fds, r.fds));
    assert(is_largest(threads, r.threads));
    assert forall|i: int|
        0 <= i < samples@.len() && (#[trigger] samples@[i]).elapsed >= warmup implies samples@[i].rss_kb
        <= r.rss_kb && samples@[i].vmhwm_kb <= r.vmhwm_kb && samples@[i].fds <= r.fds
        && samples@[i].threads <= r.threads by {
        assert(win.contains(samples@[i]));
        let j = choose|j: int| 0 <= j < win.len() && win[j] == samples@[i];
        assert(rss[j] <= r.rss_kb && hwm[j] <= r.vmhwm_kb && fds[j] <= r.fds && threads[j]
            <= r.threads);
    }
    if r.rss_kb > 0 {
        let j = choose|j: int| 0 <= j < rss.len() && rss[j] == r.rss_kb;
        assert(win.contains(win[j]));
    }
    if r.vmhwm_kb > 0 {
        let j = choose|j: int| 0 <= j < hwm.len() && hwm[j] == r.vmhwm_kb;
        assert(win.contains(win[j]));
    }
    if r.fds > 0 {
        let j = choose|j: int| 0 <= j < fds.len() && fds[j] == r.fds;
        assert(win.contains(win[j]));
    }
    if r.threads > 0 {
        let j = choose|j: int| 0 <= j < threads.len() && threads[j] == r.threads;
        assert(win.contains(win[j]));
    }
}

proof fn lemma_measured(samples: Seq<ResSample>, warmup: u128)
    ensures
        forall|i: int|
            0 <= i < samples.len() && (#[trigger] samples[i]).elapsed >= warmup ==> measured(
                samples,
                warmup,
            ).contains(samples[i]),
        forall|s: ResSample| #[trigger]
            measured(samples, warmup).contains(s) ==> exists|i: int|
                0 <= i < samples.len() && (#[trigger] samples[i]) == s && s.elapsed >= warmup,
    decreases samples.len(),
{
    reveal(Seq::filter);
    if samples.len() > 0 {
        let before = samples.drop_last();
        let last = samples.last();
        lemma_measured(before, warmup);
        let head = measured(before, warmup);
        let all = measured(samples, warmup);
        assert(all == if last.elapsed >= warmup {
            head.push(last)
        } else {
            head
        });
        assert forall|i: int|
            0 <= i < samples.len() && (#[trigger] samples[i]).elapsed >= warmup implies all.contains(
            samples[i],
        ) by {
            if i < before.len() {
                assert(before[i] == samples[i]);
                assert(head.contains(before[i]));
                let j = choose|j: int| 0 <= j < head.len() && head[j] == before[i];
                assert(all[j] == samples[i]);
            } else {
                assert(all[all.len() - 1] == last);
            }
        }
        assert forall|s: ResSample| #[trigger] all.contains(s) implies exists|i: int|
            0 <= i < samples.len() && (#[trigger] samples[i]) == s && s.elapsed >= warmup by {
            let j = choose|j: int| 0 <= j < all.len() && all[j] == s;
            if j < head.len() {
                assert(head.contains(head[j]));
                let i = choose|i: int|
                    0 <= i < before.len() && (#[trigger] before[i]) == s && s.elapsed >= warmup;
                assert(samples[i] == s);
            } else {
                assert(samples[samples.len() - 1] == s);
            }
        }
    }
}

proof fn lemma_measured_ends(samples: Seq<ResSample>, warmup: u128, a: int, b: int)
    requires
        0 <= a <= b < samples.len(),
        samples[a].elapsed >= warmup,
        samples[b].elapsed >= warmup,
        forall|i: int| 0 <= i < a ==> (#[trigger] samples[i]).elapsed < warmup,
        forall|i: int| b < i < samples.len() ==> (#[trigger] samples[i]).elapsed < warmup,
    ensures
        measured(samples, warmup).len() > 0,
        measured(samples, warmup)[0] == samples[a],
        measured(samples, warmup).last() == samples[b],
    decreases samples.len(),
{
    reveal(Seq::filter);
    let before = samples.drop_last();
    let last = samples.last();
    let head = measured(before, warmup);
    let all = measured(samples, warmup);
    assert(all == if last.elapsed >= warmup {
        head.push(last)
    } else {
        head
    });
    if b < before.len() {
        assert(samples[samples.len() - 1].elapsed < warmup);
        assert forall|i: int| b < i < before.len() implies (#[trigger] before[i]).elapsed < warmup by {
            assert(samples[i].elapsed < warmup);
        }
        assert forall|i: int| 0 <= i < a implies (#[trigger] before[i]).elapsed < warmup by {
            assert(samples[i].elapsed < warmup);
        }
        lemma_measured_ends(before, warmup, a, b);
    } else if a < b {
        lemma_measured_first(before, warmup, a);
    } else {
        lemma_measured(before, warmup);
        if head.len() > 0 {
            assert(head.contains(head[0]));
            let i = choose|i: int|
                0 <= i < before.len() && (#[trigger] before[i]) == head[0] && head[0].elapsed
                    >= warmup;
            assert(samples[i].elapsed < warmup);
        }
    }
}

proof fn lemma_measured_first(samples: Seq<ResSample>, warmup: u128, a: int)
    requires
        0 <= a < samples.len(),
        samples[a].elapsed >= warmup,
        forall|i: int| 0 <= i < a ==> (#[trigger] samples[i]).elapsed < warmup,
    ensures
        measured(samples, warmup).len() > 0,
        measured(samples, warmup)[0] == samples[a],
    decreases samples.len(),
{
    reveal(Seq::filter);
    let before = samples.drop_last();
    let head = measured(before, warmup);
    let last = samples.last();
    assert(measured(samples, warmup) == if last.elapsed >= warmup {
        head.push(last)
    } else {
        head
    });
    if a < before.len() {
        lemma_measured_first(before, warmup, a);
    } else {
        lemma_measured(before, warmup);
        if head.len() > 0 {
            assert(head.contains(head[0]));
            let i = choose|i: int|
                0 <= i < before.len() && (#[trigger] before[i]) == head[0] && head[0].elapsed
                    >= warmup;
            assert(samples[i].elapsed < warmup);
        }
    }
}

/// The configuration that a benchmark runs with: that of the front which its
/// protocol needs, over the parts that were made for it.
pub proof fn law_bench_config(
    protocol: Protocol,
    p: FrontParts,
    out: String,
    listener: &str,
    backend: &str,
    metrics: &str,
    secret: &str,
    h1: String,
    h2: String,
    h3: String,
    packets: String,
    ws: String,
)
    requires
        call_ensures(config_of, (protocol, &p), out),
        listener@ == p.listener@,
        backend@ == p.backend@,
        metrics@ == p.metrics@,
        secret@ == p.retry_secret@,
        call_ensures(h1_front, (listener, backend, "h1", metrics), h1),
        call_ensures(h1s_front, (listener, backend, "h2", metrics, &p.front), h2),
        call_ensures(quic_h3_terminate_h2, (listener, backend, metrics, &p.front, secret), h3),
        call_ensures(
            passthrough_mode_a,
            (listener, backend, metrics, secret, 100_000, p.flow_idle_timeout_ms),
            packets,
        ),
        call_ensures(
            h1_front_ws,
            (listener, backend, metrics, p.idle_timeout_seconds, p.read_frame_timeout_seconds),
            ws,
        ),
    ensures
        protocol is H1 ==> out@ == h1@,
        protocol is H2 ==> out@ == h2@,
        protocol is H3 ==> out@ == h3@,
        protocol is QuicModeA ==> out@ == packets@,
        protocol is WsH1 ==> out@ == ws@,
{
}

} // verus!
