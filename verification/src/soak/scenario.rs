//! The soak scenarios: their names and command line, the load that each puts
//! on the gateway, the gauges it watches and the report at its end.

use vstd::prelude::*;
use crate::soak::backends::Origin;
use crate::soak::config_gen::{h1_front, h1_front_text, h1_front_ws, h1_front_ws_text, h1s_front, h1s_front_text, h1s_front_ws, h1s_front_ws_text, passthrough_mode_a, passthrough_mode_a_text, quic_h3_terminate, quic_h3_terminate_h2, quic_h3_terminate_h2_text, quic_h3_terminate_text, quic_h3_terminate_ws, quic_h3_terminate_ws_text, quic_mode_b, quic_mode_b_text, CertNeeds, FrontParts};
use crate::soak::timeseries::{kind_of, MetricKind, Verdict};
use crate::text::{decimal, parse_unsigned, push_decimal, same, texts, unsigned_value};

verus! {

/// The scenarios.
pub const SCENARIOS: [&'static str; 12] = [
    "sc1_h1h1",
    "sc1b_h1h2",
    "sc2_h2h2",
    "sc3_slowloris",
    "sc4_modeb",
    "sc5_modea",
    "sc6_413teardown",
    "sc7_h3terminate",
    "sc8_ws_h1",
    "sc8b_ws_h2",
    "sc8c_ws_h3",
    "sc9_grpc_h3",
];

/// How a scenario is set up.
#[derive(Debug, Clone, Copy, PartialEq, Eq, Structural)]
pub enum Setup {
    /// An HTTP/1.1 front and a backend that speaks HTTP/1.1.
    H1H1,
    /// An HTTP/1.1 front and a backend that speaks HTTP/2.
    H1H2,
    /// An HTTPS front and a backend that speaks HTTP/2.
    H2H2,
    /// Slow clients against an HTTP/1.1 front.
    Slowloris,
    /// A raw QUIC relay.
    ModeB,
    /// A QUIC passthrough.
    ModeA,
    /// Oversized requests over TLS that are cut off.
    Teardown413,
    /// An HTTP/3 front without a backend.
    H3Terminate,
    /// WebSockets over HTTP/1.1.
    WsH1,
    /// WebSockets over HTTP/2.
    WsH2,
    /// WebSockets over HTTP/3.
    WsH3,
    /// gRPC over HTTP/3.
    GrpcH3,
}

/// The setup that a scenario name stands for.
pub open spec fn setup_named(name: Seq<char>) -> Option<Setup> {
    if name == "sc1_h1h1"@ {
        Some(Setup::H1H1)
    } else if name == "sc1b_h1h2"@ {
        Some(Setup::H1H2)
    } else if name == "sc2_h2h2"@ {
        Some(Setup::H2H2)
    } else if name == "sc3_slowloris"@ {
        Some(Setup::Slowloris)
    } else if name == "sc4_modeb"@ {
        Some(Setup::ModeB)
    } else if name == "sc5_modea"@ {
        Some(Setup::ModeA)
    } else if name == "sc6_413teardown"@ {
        Some(Setup::Teardown413)
    } else if name == "sc7_h3terminate"@ {
        Some(Setup::H3Terminate)
    } else if name == "sc8_ws_h1"@ {
        Some(Setup::WsH1)
    } else if name == "sc8b_ws_h2"@ {
        Some(Setup::WsH2)
    } else if name == "sc8c_ws_h3"@ {
        Some(Setup::WsH3)
    } else if name == "sc9_grpc_h3"@ {
        Some(Setup::GrpcH3)
    } else {
        None
    }
}

/// The setup that a scenario name stands for.
pub fn setup_of(name: &str) -> (r: Option<Setup>)
    ensures
        r == setup_named(name@),
{
    if same(name, "sc1_h1h1") {
        Some(Setup::H1H1)
    } else if same(name, "sc1b_h1h2") {
        Some(Setup::H1H2)
    } else if same(name, "sc2_h2h2") {
        Some(Setup::H2H2)
    } else if same(name, "sc3_slowloris") {
        Some(Setup::Slowloris)
    } else if same(name, "sc4_modeb") {
        Some(Setup::ModeB)
    } else if same(name, "sc5_modea") {
        Some(Setup::ModeA)
    } else if same(name, "sc6_413teardown") {
        Some(Setup::Teardown413)
    } else if same(name, "sc7_h3terminate") {
        Some(Setup::H3Terminate)
    } else if same(name, "sc8_ws_h1") {
        Some(Setup::WsH1)
    } else if same(name, "sc8b_ws_h2") {
        Some(Setup::WsH2)
    } else if same(name, "sc8c_ws_h3") {
        Some(Setup::WsH3)
    } else if same(name, "sc9_grpc_h3") {
        Some(Setup::GrpcH3)
    } else {
        None
    }
}

/// The message for a name that is no scenario.
pub fn unknown_scenario(name: &str) -> (out: String)
    ensures
        out@ == "unknown scenario "@ + name@ + " (try --list)"@,
{
    let mut out: String = "unknown scenario ".to_owned();
    out.append(name);
    out.append(" (try --list)");
    out
}

// ---------------------------------------------------------------------------
// Command line
// ---------------------------------------------------------------------------

/// What a soak is asked to do.
#[derive(Debug)]
pub struct SoakArgs {
    pub scenario: String,
    /// The prefix of the output files.
    pub label: String,
    pub duration: u64,
    pub sample: u64,
    pub scale: usize,
    pub out: String,
}

/// What the arguments came to so far.
pub struct SoakDraft {
    pub scenario: Option<Seq<char>>,
    pub label: Option<Seq<char>>,
    pub duration: u64,
    pub sample: u64,
    pub scale: usize,
    pub out: Seq<char>,
}

/// Why the arguments say nothing.
#[derive(Debug)]
pub enum ArgError {
    Unknown(String),
    MissingScenario,
    MissingProtocol,
}

impl ArgError {
    /// The message of the error; the two programs differ in their hint.
    pub fn message(&self, hint: bool) -> (out: String)
        ensures
            out@ == match *self {
                ArgError::Unknown(a) => "unknown arg "@ + a@ + if hint {
                    " (try --list)"@
                } else {
                    Seq::empty()
                },
                ArgError::MissingScenario => "--scenario required (or --list)"@,
                ArgError::MissingProtocol => "--protocol required (or --list)"@,
            },
    {
        match self {
            ArgError::Unknown(a) => {
                let mut out: String = "unknown arg ".to_owned();
                out.append(a);
                if hint {
                    out.append(" (try --list)");
                }
                assert("unknown arg "@ + a@ + Seq::<char>::empty() =~= "unknown arg "@ + a@);
                out
            },
            ArgError::MissingScenario => "--scenario required (or --list)".to_owned(),
            ArgError::MissingProtocol => "--protocol required (or --list)".to_owned(),
        }
    }
}

/// The number that an option is followed by, or a default.
pub open spec fn number_or(value: Option<Seq<char>>, max: nat, default: nat) -> nat {
    match value {
        Some(v) => match unsigned_value(v, max) {
            Some(n) => n,
            None => default,
        },
        None => default,
    }
}

/// What follows the first argument.
pub open spec fn option_value(args: Seq<Seq<char>>) -> Option<Seq<char>> {
    if args.len() > 1 {
        Some(args[1])
    } else {
        None
    }
}

/// What follows an option and its value.
pub open spec fn past_option(args: Seq<Seq<char>>) -> Seq<Seq<char>> {
    if args.len() > 1 {
        args.skip(2)
    } else {
        args.skip(1)
    }
}

/// What the arguments of a soak come to: a listing as soon as one is asked
/// for, an error at the first unknown argument, else the draft.
pub open spec fn soak_draft(args: Seq<Seq<char>>, draft: SoakDraft) -> Result<Option<SoakDraft>, Seq<char>>
    decreases args.len(),
{
    if args.len() == 0 {
        Ok(Some(draft))
    } else {
        let value = option_value(args);
        let rest = past_option(args);
        if args[0] == "--list"@ {
            Ok(None)
        } else if args[0] == "--scenario"@ {
            soak_draft(rest, SoakDraft { scenario: value, ..draft })
        } else if args[0] == "--label"@ {
            soak_draft(rest, SoakDraft { label: value, ..draft })
        } else if args[0] == "--duration-secs"@ {
            soak_draft(
                rest,
                SoakDraft { duration: number_or(value, u64::MAX as nat, 120) as u64, ..draft },
            )
        } else if args[0] == "--sample-secs"@ {
            soak_draft(
                rest,
                SoakDraft { sample: number_or(value, u64::MAX as nat, 15) as u64, ..draft },
            )
        } else if args[0] == "--scale"@ {
            let scale = number_or(value, usize::MAX as nat, 1);
            soak_draft(
                rest,
                SoakDraft {
                    scale: if scale == 0 {
                        1
                    } else {
                        scale as usize
                    },
                    ..draft
                },
            )
        } else if args[0] == "--out"@ {
            soak_draft(
                rest,
                SoakDraft {
                    out: match value {
                        Some(v) => v,
                        None => Seq::empty(),
                    },
                    ..draft
                },
            )
        } else {
            Err(args[0])
        }
    }
}

/// The settings of a soak without any argument.
pub open spec fn soak_defaults() -> SoakDraft {
    SoakDraft {
        scenario: None,
        label: None,
        duration: 120,
        sample: 15,
        scale: 1,
        out: "soak-out"@,
    }
}

/// Whether `r` is what the arguments of a soak ask for. The label is the
/// scenario unless it is given.
pub open spec fn soak_outcome(args: Seq<Seq<char>>, r: Result<Option<SoakArgs>, ArgError>) -> bool {
    match soak_draft(args, soak_defaults()) {
        Ok(None) => r matches Ok(None),
        Err(a) => r matches Err(ArgError::Unknown(u)) && u@ == a,
        Ok(Some(d)) => match d.scenario {
            None => r matches Err(e) && e is MissingScenario,
            Some(name) => {
                &&& r matches Ok(Some(a))
                &&& a.scenario@ == name
                &&& a.label@ == match d.label {
                    Some(l) => l,
                    None => name,
                }
                &&& a.duration == d.duration
                &&& a.sample == d.sample
                &&& a.scale == d.scale
                &&& a.out@ == d.out
            },
        },
    }
}

/// The argument after the one at `i`, if there is one.
pub(crate) fn value_at(args: &Vec<String>, i: usize) -> (r: Option<String>)
    requires
        i < args@.len(),
    ensures
        option_value(texts(args@).skip(i as int)) == match r {
            Some(v) => Some(v@),
            None => None,
        },
{
    let ghost rest = texts(args@).skip(i as int);
    if args.len() - i > 1 {
        assert(rest[1] == args@[i + 1]@);
        Some(args[i + 1].clone())
    } else {
        None
    }
}

/// The number in an optional value, or a default.
pub(crate) fn number_in(value: &Option<String>, max: u64, default: u64) -> (n: u64)
    requires
        default <= max,
    ensures
        n == number_or(
            match *value {
                Some(v) => Some(v@),
                None => None,
            },
            max as nat,
            default as nat,
        ),
        n <= max,
{
    match value {
        Some(v) => match parse_unsigned(v, max) {
            Some(n) => n,
            None => default,
        },
        None => default,
    }
}

/// An optional text as characters.
pub open spec fn chars_in(v: Option<String>) -> Option<Seq<char>> {
    match v {
        Some(s) => Some(s@),
        None => None,
    }
}

/// What the arguments of a soak ask for; nothing when they ask for the list of
/// scenarios.
pub fn parse_soak_args(args: &Vec<String>) -> (r: Result<Option<SoakArgs>, ArgError>)
    ensures
        soak_outcome(texts(args@), r),
{
    let ghost all = texts(args@);
    let mut scenario: Option<String> = None;
    let mut label: Option<String> = None;
    let mut duration: u64 = 120;
    let mut sample: u64 = 15;
    let mut scale: usize = 1;
    let mut out: String = "soak-out".to_owned();
    let mut i: usize = 0;
    assert(all.skip(0) =~= all);
    while i < args.len()
        invariant
            i <= args@.len(),
            all == texts(args@),
            soak_draft(all, soak_defaults()) == soak_draft(
                all.skip(i as int),
                SoakDraft {
                    scenario: chars_in(scenario),
                    label: chars_in(label),
                    duration,
                    sample,
                    scale,
                    out: out@,
                },
            ),
        decreases args@.len() - i,
    {
        let ghost rest = all.skip(i as int);
        assert(rest[0] == args@[i as int]@);
        let value = value_at(args, i);
        proof {
            if i + 1 < args@.len() {
                assert(rest.skip(2) =~= all.skip(i + 2));
            } else {
                assert(rest.skip(1) =~= all.skip(i + 1));
            }
        }
        if same(&args[i], "--list") {
            return Ok(None);
        } else if same(&args[i], "--scenario") {
            scenario = value;
        } else if same(&args[i], "--label") {
            label = value;
        } else if same(&args[i], "--duration-secs") {
            duration = number_in(&value, u64::MAX, 120);
        } else if same(&args[i], "--sample-secs") {
            sample = number_in(&value, u64::MAX, 15);
        } else if same(&args[i], "--scale") {
            let n: u64 = number_in(&value, usize::MAX as u64, 1);
            scale = if n == 0 { 1 } else { n as usize };
        } else if same(&args[i], "--out") {
            out = match value {
                Some(v) => v,
                None => {
                    let empty = String::new();
                    assert(empty@ =~= Seq::empty());
                    empty
                },
            };
        } else {
            return Err(ArgError::Unknown(args[i].clone()));
        }
        i = if args.len() - i > 1 { i + 2 } else { i + 1 };
    }
    assert(all.skip(i as int).len() == 0);
    match scenario {
        None => Err(ArgError::MissingScenario),
        Some(name) => {
            let label = match label {
                Some(l) => l,
                None => name.clone(),
            };
            Ok(Some(SoakArgs { scenario: name, label, duration, sample, scale, out }))
        },
    }
}

// ---------------------------------------------------------------------------
// Load
// ---------------------------------------------------------------------------

/// The knobs of the load, each the name of an environment variable and its
/// default.
pub const KNOBS: [(&'static str, u64); 16] = [
    ("QUIC_CONCURRENCY", 4),
    ("QUIC_STREAMS", 4),
    ("QUIC_PAYLOAD", 4096),
    ("QUIC_DGRAMS", 8),
    ("QUIC_FLOW_IDLE_MS", 10_000),
    ("H3_CONCURRENCY", 4),
    ("H3_REQS_PER_CONN", 8),
    ("H3_RESET_CONCURRENCY", 2),
    ("GRPC_SUSTAINED", 6),
    ("GRPC_CHURN", 6),
    ("GRPC_CHURN_RPCS", 4),
    ("WS_IDLE_SECS", 120),
    ("WS_READ_FRAME_SECS", 30),
    ("WS_SUSTAINED", 8),
    ("WS_CHURN", 8),
    ("WS_CHURN_FRAMES", 4),
];

/// The value of the knob with number `i`, by its variable.
pub fn env_usize(value: &Option<String>, i: usize) -> (n: u64)
    requires
        i < 16,
    ensures
        n == number_or(chars_in(*value), usize::MAX as nat, KNOBS@[i as int].1 as nat),
{
    number_in(value, usize::MAX as u64, KNOBS[i].1)
}

/// A driver of load or trouble.
#[derive(Debug, Clone, Copy, PartialEq, Eq, Structural)]
pub enum Drive {
    H1Load,
    ConnFlood,
    H2Load,
    RapidReset,
    StreamFlood,
    Slowloris,
    SlowPost,
    QuicLoad,
    OversizeTeardown,
    MidStreamDisconnect,
    H3Load,
    H3ResetFlood,
    WsLoad,
    WsChurn,
    GrpcLoad,
    GrpcChurn,
}

/// A driver with its workers and the name of its tally, if it keeps one.
#[derive(Debug, Clone, Copy)]
pub struct Task {
    pub drive: Drive,
    pub workers: u64,
    pub tally: Option<&'static str>,
}

/// A task as its parts.
pub open spec fn is_task(t: Task, drive: Drive, workers: int, tally: Option<Seq<char>>) -> bool {
    &&& t.drive == drive
    &&& t.workers == workers
    &&& match (t.tally, tally) {
        (Some(a), Some(b)) => a@ == b,
        (None, None) => true,
        _ => false,
    }
}

/// How many workers a few of the drivers have; the others are fixed.
#[derive(Debug, Clone, Copy, PartialEq, Eq, Structural)]
pub struct Workers {
    pub quic: u64,
    pub h3: u64,
    pub h3_reset: u64,
    pub grpc: u64,
    pub grpc_churn: u64,
    pub ws: u64,
    pub ws_churn: u64,
}

impl Workers {
    /// Whether every product with the scale fits.
    pub open spec fn fit(self, scale: u64) -> bool {
        &&& 96 * scale <= u64::MAX
        &&& self.quic * scale <= u64::MAX
        &&& self.h3 * scale <= u64::MAX
        &&& self.h3_reset * scale <= u64::MAX
        &&& self.grpc * scale <= u64::MAX
        &&& self.grpc_churn * scale <= u64::MAX
        &&& self.ws * scale <= u64::MAX
        &&& self.ws_churn * scale <= u64::MAX
    }
}

/// The drivers of a scenario, in the order in which they start.
pub fn tasks_of(setup: Setup, scale: u64, workers: Workers) -> (tasks: Vec<Task>)
    requires
        workers.fit(scale),
    ensures
        match setup {
            Setup::H1H1 | Setup::H1H2 => {
                &&& tasks@.len() == 2
                &&& is_task(tasks@[0], Drive::H1Load, 6 * scale, Some("h1_load"@))
                &&& is_task(tasks@[1], Drive::ConnFlood, 4 * scale, Some("conn_flood"@))
            },
            Setup::H2H2 => {
                &&& tasks@.len() == 3
                &&& is_task(tasks@[0], Drive::H2Load, 4 * scale, Some("h2_load"@))
                &&& is_task(tasks@[1], Drive::RapidReset, 2 * scale, Some("rapid_reset"@))
                &&& is_task(tasks@[2], Drive::StreamFlood, scale as int, None)
            },
            Setup::Slowloris => {
                &&& tasks@.len() == 3
                &&& is_task(tasks@[0], Drive::Slowloris, 96 * scale, None)
                &&& is_task(tasks@[1], Drive::SlowPost, 48 * scale, None)
                &&& is_task(tasks@[2], Drive::H1Load, 4, Some("h1_baseline"@))
            },
            Setup::ModeB | Setup::ModeA => {
                &&& tasks@.len() == 1
                &&& is_task(tasks@[0], Drive::QuicLoad, workers.quic * scale, Some("quic_load"@))
            },
            Setup::Teardown413 => {
                &&& tasks@.len() == 2
                &&& is_task(tasks@[0], Drive::OversizeTeardown, 4 * scale, Some("oversize_teardown"@))
                &&& is_task(tasks@[1], Drive::MidStreamDisconnect, 4 * scale, Some("mid_stream_disconnect"@))
            },
            Setup::H3Terminate => {
                &&& tasks@.len() == 2
                &&& is_task(tasks@[0], Drive::H3Load, workers.h3 * scale, Some("h3_load"@))
                &&& is_task(tasks@[1], Drive::H3ResetFlood, workers.h3_reset * scale, Some("h3_reset_flood"@))
            },
            Setup::WsH1 | Setup::WsH2 => {
                &&& tasks@.len() == 2
                &&& is_task(tasks@[0], Drive::WsLoad, workers.ws * scale, Some("ws_sustained"@))
                &&& is_task(tasks@[1], Drive::WsChurn, workers.ws_churn * scale, Some("ws_churn"@))
            },
            Setup::WsH3 => {
                &&& tasks@.len() == 2
                &&& is_task(tasks@[0], Drive::WsLoad, workers.ws * scale, Some("ws_h3_sustained"@))
                &&& is_task(tasks@[1], Drive::WsChurn, workers.ws_churn * scale, Some("ws_h3_churn"@))
            },
            Setup::GrpcH3 => {
                &&& tasks@.len() == 2
                &&& is_task(tasks@[0], Drive::GrpcLoad, workers.grpc * scale, Some("grpc_h3_sustained"@))
                &&& is_task(tasks@[1], Drive::GrpcChurn, workers.grpc_churn * scale, Some("grpc_h3_churn"@))
            },
        },
{
    let mut tasks: Vec<Task> = Vec::new();
    match setup {
        Setup::H1H1 | Setup::H1H2 => {
            tasks.push(Task { drive: Drive::H1Load, workers: 6 * scale, tally: Some("h1_load") });
            tasks.push(Task { drive: Drive::ConnFlood, workers: 4 * scale, tally: Some("conn_flood") });
        },
        Setup::H2H2 => {
            tasks.push(Task { drive: Drive::H2Load, workers: 4 * scale, tally: Some("h2_load") });
            tasks.push(Task { drive: Drive::RapidReset, workers: 2 * scale, tally: Some("rapid_reset") });
            tasks.push(Task { drive: Drive::StreamFlood, workers: scale, tally: None });
        },
        Setup::Slowloris => {
            tasks.push(Task { drive: Drive::Slowloris, workers: 96 * scale, tally: None });
            tasks.push(Task { drive: Drive::SlowPost, workers: 48 * scale, tally: None });
            tasks.push(Task { drive: Drive::H1Load, workers: 4, tally: Some("h1_baseline") });
        },
        Setup::ModeB | Setup::ModeA => {
            tasks.push(Task { drive: Drive::QuicLoad, workers: workers.quic * scale, tally: Some("quic_load") });
        },
        Setup::Teardown413 => {
            tasks.push(Task { drive: Drive::OversizeTeardown, workers: 4 * scale, tally: Some("oversize_teardown") });
            tasks.push(Task { drive: Drive::MidStreamDisconnect, workers: 4 * scale, tally: Some("mid_stream_disconnect") });
        },
        Setup::H3Terminate => {
            tasks.push(Task { drive: Drive::H3Load, workers: workers.h3 * scale, tally: Some("h3_load") });
            tasks.push(Task { drive: Drive::H3ResetFlood, workers: workers.h3_reset * scale, tally: Some("h3_reset_flood") });
        },
        Setup::WsH1 | Setup::WsH2 => {
            tasks.push(Task { drive: Drive::WsLoad, workers: workers.ws * scale, tally: Some("ws_sustained") });
            tasks.push(Task { drive: Drive::WsChurn, workers: workers.ws_churn * scale, tally: Some("ws_churn") });
        },
        Setup::WsH3 => {
            tasks.push(Task { drive: Drive::WsLoad, workers: workers.ws * scale, tally: Some("ws_h3_sustained") });
            tasks.push(Task { drive: Drive::WsChurn, workers: workers.ws_churn * scale, tally: Some("ws_h3_churn") });
        },
        Setup::GrpcH3 => {
            tasks.push(Task { drive: Drive::GrpcLoad, workers: workers.grpc * scale, tally: Some("grpc_h3_sustained") });
            tasks.push(Task { drive: Drive::GrpcChurn, workers: workers.grpc_churn * scale, tally: Some("grpc_h3_churn") });
        },
    }
    tasks
}

/// The name that clients ask for, which the certificate of their peer holds.
pub fn client_name(setup: Setup) -> (r: Option<&'static str>)
    ensures
        match setup {
            Setup::H1H1 | Setup::H1H2 | Setup::Slowloris | Setup::WsH1 => r is None,
            Setup::H2H2 | Setup::Teardown413 | Setup::WsH2 => r matches Some(n) && n@
                == "localhost"@,
            Setup::ModeB | Setup::H3Terminate | Setup::WsH3 | Setup::GrpcH3 => r matches Some(n)
                && n@ == "soak-front"@,
            Setup::ModeA => r matches Some(n) && n@ == "soak-backend"@,
        },
{
    match setup {
        Setup::H1H1 | Setup::H1H2 | Setup::Slowloris | Setup::WsH1 => None,
        Setup::H2H2 | Setup::Teardown413 | Setup::WsH2 => Some("localhost"),
        Setup::ModeB | Setup::H3Terminate | Setup::WsH3 | Setup::GrpcH3 => Some("soak-front"),
        Setup::ModeA => Some("soak-backend"),
    }
}

/// Whether clients reach the gateway over UDP.
pub fn over_udp(setup: Setup) -> (r: bool)
    ensures
        r == (setup is ModeA || setup is ModeB || setup is H3Terminate || setup is WsH3
            || setup is GrpcH3),
{
    match setup {
        Setup::ModeA | Setup::ModeB | Setup::H3Terminate | Setup::WsH3 | Setup::GrpcH3 => true,
        Setup::H1H1 | Setup::H1H2 | Setup::H2H2 | Setup::Slowloris => false,
        Setup::Teardown413 | Setup::WsH1 | Setup::WsH2 => false,
    }
}

/// The origin behind the gateway.
pub fn origin_of(setup: Setup) -> (r: Origin)
    ensures
        r == match setup {
            Setup::H3Terminate => Origin::Nothing,
            Setup::ModeA | Setup::ModeB => Origin::QuicEcho,
            Setup::WsH1 | Setup::WsH2 | Setup::WsH3 => Origin::WsEcho,
            Setup::H1H2 | Setup::H2H2 => Origin::H2,
            Setup::GrpcH3 => Origin::Grpc,
            Setup::H1H1 | Setup::Slowloris | Setup::Teardown413 => Origin::H1,
        },
{
    match setup {
        Setup::H3Terminate => Origin::Nothing,
        Setup::ModeA | Setup::ModeB => Origin::QuicEcho,
        Setup::WsH1 | Setup::WsH2 | Setup::WsH3 => Origin::WsEcho,
        Setup::H1H2 | Setup::H2H2 => Origin::H2,
        Setup::GrpcH3 => Origin::Grpc,
        Setup::H1H1 | Setup::Slowloris | Setup::Teardown413 => Origin::H1,
    }
}

/// Which certificates a scenario needs.
pub fn certs_of(setup: Setup) -> (r: CertNeeds)
    ensures
        r.front == (setup is H2H2 || setup is Teardown413 || setup is WsH2 || setup is ModeB
            || setup is H3Terminate || setup is WsH3 || setup is GrpcH3),
        r.far == (setup is ModeA || setup is ModeB),
{
    match setup {
        Setup::H1H1 | Setup::H1H2 | Setup::Slowloris | Setup::WsH1 => CertNeeds {
            front: false,
            far: false,
        },
        Setup::ModeA => CertNeeds { front: false, far: true },
        Setup::ModeB => CertNeeds { front: true, far: true },
        Setup::H2H2 | Setup::Teardown413 | Setup::WsH2 => CertNeeds { front: true, far: false },
        Setup::H3Terminate | Setup::WsH3 | Setup::GrpcH3 => CertNeeds { front: true, far: false },
    }
}

/// The name on the certificate of a QUIC backend.
pub const BACKEND_NAME: &'static str = "soak-backend";

/// The configuration of the gateway in a scenario.
pub open spec fn config_text(setup: Setup, p: FrontParts) -> Seq<char> {
    let idle = p.idle_timeout_seconds;
    let frame = p.read_frame_timeout_seconds;
    match setup {
        Setup::H1H1 | Setup::Slowloris => h1_front_text(p.listener@, p.backend@, "h1"@, p.metrics@),
        Setup::H1H2 => h1_front_text(p.listener@, p.backend@, "h2"@, p.metrics@),
        Setup::WsH1 => h1_front_ws_text(p.listener@, p.backend@, p.metrics@, idle, frame),
        Setup::ModeA => passthrough_mode_a_text(
            p.listener@,
            p.backend@,
            p.metrics@,
            p.retry_secret@,
            100_000,
            p.flow_idle_timeout_ms,
        ),
        Setup::ModeB => quic_mode_b_text(
            p.listener@,
            p.backend@,
            "soak-backend"@,
            p.metrics@,
            p.front,
            p.retry_secret@,
            p.far.ca@,
            1024,
            256,
        ),
        Setup::H2H2 => h1s_front_text(p.listener@, p.backend@, "h2"@, p.metrics@, p.front),
        Setup::Teardown413 => h1s_front_text(p.listener@, p.backend@, "h1"@, p.metrics@, p.front),
        Setup::WsH2 => h1s_front_ws_text(
            p.listener@,
            p.backend@,
            p.metrics@,
            p.front,
            idle,
            frame,
        ),
        Setup::WsH3 => quic_h3_terminate_ws_text(
            p.listener@,
            p.backend@,
            p.metrics@,
            p.front,
            p.retry_secret@,
            idle,
            frame,
        ),
        Setup::GrpcH3 => quic_h3_terminate_h2_text(
            p.listener@,
            p.backend@,
            p.metrics@,
            p.front,
            p.retry_secret@,
        ),
        Setup::H3Terminate => quic_h3_terminate_text(
            p.listener@,
            p.metrics@,
            p.front,
            p.retry_secret@,
        ),
    }
}

/// The configuration of the gateway in a scenario.
pub fn config_of(setup: Setup, p: &FrontParts) -> (out: String)
    ensures
        out@ == config_text(setup, *p),
{
    let idle: u64 = p.idle_timeout_seconds;
    let frame: u64 = p.read_frame_timeout_seconds;
    match setup {
        Setup::H1H1 | Setup::Slowloris => h1_front(&p.listener, &p.backend, "h1", &p.metrics),
        Setup::H1H2 => h1_front(&p.listener, &p.backend, "h2", &p.metrics),
        Setup::WsH1 => h1_front_ws(&p.listener, &p.backend, &p.metrics, idle, frame),
        Setup::ModeA => passthrough_mode_a(
            &p.listener,
            &p.backend,
            &p.metrics,
            &p.retry_secret,
            100_000,
            p.flow_idle_timeout_ms,
        ),
        Setup::ModeB => quic_mode_b(
            &p.listener,
            &p.backend,
            BACKEND_NAME,
            &p.metrics,
            &p.front,
            &p.retry_secret,
            &p.far.ca,
            1024,
            256,
        ),
        Setup::H2H2 => h1s_front(&p.listener, &p.backend, "h2", &p.metrics, &p.front),
        Setup::Teardown413 => h1s_front(&p.listener, &p.backend, "h1", &p.metrics, &p.front),
        Setup::WsH2 => h1s_front_ws(&p.listener, &p.backend, &p.metrics, &p.front, idle, frame),
        Setup::WsH3 => quic_h3_terminate_ws(
            &p.listener,
            &p.backend,
            &p.metrics,
            &p.front,
            &p.retry_secret,
            idle,
            frame,
        ),
        Setup::GrpcH3 => quic_h3_terminate_h2(
            &p.listener,
            &p.backend,
            &p.metrics,
            &p.front,
            &p.retry_secret,
        ),
        Setup::H3Terminate => quic_h3_terminate(&p.listener, &p.metrics, &p.front, &p.retry_secret),
    }
}

// ---------------------------------------------------------------------------
// Gauges
// ---------------------------------------------------------------------------

fn named(name: &'static str, kind: MetricKind) -> (r: (String, MetricKind))
    ensures
        r.0@ == name@,
        r.1 == kind,
{
    (name.to_owned(), kind)
}

/// The gauges of a TCP front.
pub fn tcp_gauges() -> (out: Vec<String>)
    ensures
        texts(out@) == seq!["accept_inflight"@, "panic_total"@],
{
    let mut out: Vec<String> = Vec::new();
    out.push("accept_inflight".to_owned());
    out.push("panic_total".to_owned());
    assert(texts(out@) =~= seq!["accept_inflight"@, "panic_total"@]);
    out
}

/// How the gauges of a TCP front are judged, where it is not as a trend.
pub fn tcp_kinds() -> (out: Vec<(String, MetricKind)>)
    ensures
        out@.len() == 1,
        out@[0].0@ == "panic_total"@,
        out@[0].1 == MetricKind::CounterMustBeZero,
{
    let mut out: Vec<(String, MetricKind)> = Vec::new();
    out.push(named("panic_total", MetricKind::CounterMustBeZero));
    out
}

/// The gauges of WebSocket tunnels. Their leaks show in the open descriptors.
pub fn ws_gauges() -> (out: Vec<String>)
    ensures
        texts(out@) == seq!["panic_total"@],
{
    let mut out: Vec<String> = Vec::new();
    out.push("panic_total".to_owned());
    assert(texts(out@) =~= seq!["panic_total"@]);
    out
}

/// How the gauges of WebSocket tunnels are judged, where it is not as a trend.
pub fn ws_kinds() -> (out: Vec<(String, MetricKind)>)
    ensures
        out@.len() == 1,
        out@[0].0@ == "panic_total"@,
        out@[0].1 == MetricKind::CounterMustBeZero,
{
    let mut out: Vec<(String, MetricKind)> = Vec::new();
    out.push(named("panic_total", MetricKind::CounterMustBeZero));
    out
}

/// The gauges of an HTTP/3 front, which has none of its own.
pub fn h3term_gauges() -> (out: Vec<String>)
    ensures
        texts(out@) == seq!["panic_total"@],
{
    let mut out: Vec<String> = Vec::new();
    out.push("panic_total".to_owned());
    assert(texts(out@) =~= seq!["panic_total"@]);
    out
}

/// How the gauges of an HTTP/3 front are judged, where it is not as a trend.
pub fn h3term_kinds() -> (out: Vec<(String, MetricKind)>)
    ensures
        out@.len() == 1,
        out@[0].0@ == "panic_total"@,
        out@[0].1 == MetricKind::CounterMustBeZero,
{
    let mut out: Vec<(String, MetricKind)> = Vec::new();
    out.push(named("panic_total", MetricKind::CounterMustBeZero));
    out
}

/// The gauges of a raw relay.
pub fn modeb_gauges() -> (out: Vec<String>)
    ensures
        texts(out@) == seq!["quic_modeb_connections"@, "quic_modeb_streams_active"@, "quic_modeb_datagrams_dropped_total"@, "panic_total"@],
{
    let mut out: Vec<String> = Vec::new();
    out.push("quic_modeb_connections".to_owned());
    out.push("quic_modeb_streams_active".to_owned());
    out.push("quic_modeb_datagrams_dropped_total".to_owned());
    out.push("panic_total".to_owned());
    assert(texts(out@) =~= seq!["quic_modeb_connections"@, "quic_modeb_streams_active"@, "quic_modeb_datagrams_dropped_total"@, "panic_total"@]);
    out
}

/// How the gauges of a raw relay are judged, where it is not as a trend.
pub fn modeb_kinds() -> (out: Vec<(String, MetricKind)>)
    ensures
        out@.len() == 2,
        out@[0].0@ == "quic_modeb_datagrams_dropped_total"@,
        out@[0].1 == MetricKind::Counter,
        out@[1].0@ == "panic_total"@,
        out@[1].1 == MetricKind::CounterMustBeZero,
{
    let mut out: Vec<(String, MetricKind)> = Vec::new();
    out.push(named("quic_modeb_datagrams_dropped_total", MetricKind::Counter));
    out.push(named("panic_total", MetricKind::CounterMustBeZero));
    out
}

/// The gauges of a passthrough.
pub fn modea_gauges() -> (out: Vec<String>)
    ensures
        texts(out@) == seq!["quic_passthrough_flows"@, "quic_passthrough_flows_evicted_total"@, "panic_total"@],
{
    let mut out: Vec<String> = Vec::new();
    out.push("quic_passthrough_flows".to_owned());
    out.push("quic_passthrough_flows_evicted_total".to_owned());
    out.push("panic_total".to_owned());
    assert(texts(out@) =~= seq!["quic_passthrough_flows"@, "quic_passthrough_flows_evicted_total"@, "panic_total"@]);
    out
}

/// How the gauges of a passthrough are judged, where it is not as a trend.
pub fn modea_kinds() -> (out: Vec<(String, MetricKind)>)
    ensures
        out@.len() == 2,
        out@[0].0@ == "quic_passthrough_flows_evicted_total"@,
        out@[0].1 == MetricKind::Counter,
        out@[1].0@ == "panic_total"@,
        out@[1].1 == MetricKind::CounterMustBeZero,
{
    let mut out: Vec<(String, MetricKind)> = Vec::new();
    out.push(named("quic_passthrough_flows_evicted_total", MetricKind::Counter));
    out.push(named("panic_total", MetricKind::CounterMustBeZero));
    out
}

/// The gauges of a scenario.
pub open spec fn gauge_names(setup: Setup) -> Seq<Seq<char>> {
    match setup {
        Setup::ModeA => seq![
            "quic_passthrough_flows"@,
            "quic_passthrough_flows_evicted_total"@,
            "panic_total"@,
        ],
        Setup::ModeB => seq![
            "quic_modeb_connections"@,
            "quic_modeb_streams_active"@,
            "quic_modeb_datagrams_dropped_total"@,
            "panic_total"@,
        ],
        Setup::H3Terminate | Setup::GrpcH3 | Setup::WsH1 | Setup::WsH2 | Setup::WsH3 => seq![
            "panic_total"@,
        ],
        Setup::H1H1 | Setup::H1H2 | Setup::H2H2 | Setup::Slowloris | Setup::Teardown413 => seq![
            "accept_inflight"@,
            "panic_total"@,
        ],
    }
}

/// How the gauges of a scenario are judged, where it is not as a trend.
pub open spec fn gauge_kinds(setup: Setup) -> Seq<(Seq<char>, MetricKind)> {
    let panics = ("panic_total"@, MetricKind::CounterMustBeZero);
    match setup {
        Setup::ModeA => seq![("quic_passthrough_flows_evicted_total"@, MetricKind::Counter), panics],
        Setup::ModeB => seq![("quic_modeb_datagrams_dropped_total"@, MetricKind::Counter), panics],
        _ => seq![panics],
    }
}

/// The gauges that a scenario watches, and how they are judged where it is not
/// as a trend.
pub fn gauges_of(setup: Setup) -> (r: (Vec<String>, Vec<(String, MetricKind)>))
    ensures
        texts(r.0@) == gauge_names(setup),
        r.1@.map_values(|k: (String, MetricKind)| (k.0@, k.1)) == gauge_kinds(setup),
{
    let r = match setup {
        Setup::ModeA => (modea_gauges(), modea_kinds()),
        Setup::ModeB => (modeb_gauges(), modeb_kinds()),
        Setup::H3Terminate | Setup::GrpcH3 => (h3term_gauges(), h3term_kinds()),
        Setup::WsH1 | Setup::WsH2 | Setup::WsH3 => (ws_gauges(), ws_kinds()),
        Setup::H1H1 | Setup::H1H2 | Setup::H2H2 | Setup::Slowloris | Setup::Teardown413 => (
            tcp_gauges(),
            tcp_kinds(),
        ),
    };
    assert(r.1@.map_values(|k: (String, MetricKind)| (k.0@, k.1)) =~= gauge_kinds(setup));
    r
}

// ---------------------------------------------------------------------------
// Report
// ---------------------------------------------------------------------------

/// Whether any column drifted, which is a finding.
pub fn any_drift(verdicts: &Vec<Verdict>) -> (r: bool)
    ensures
        r == verdicts@.contains(Verdict::Drift),
{
    let mut i: usize = 0;
    while i < verdicts.len()
        invariant
            i <= verdicts@.len(),
            forall|j: int| 0 <= j < i ==> verdicts@[j] != Verdict::Drift,
        decreases verdicts@.len() - i,
    {
        if verdicts[i] == Verdict::Drift {
            assert(verdicts@[i as int] == Verdict::Drift);
            return true;
        }
        i += 1;
    }
    false
}

/// The word for the run as a whole.
pub fn overall(drift: bool) -> (r: &'static str)
    ensures
        r@ == if drift {
            "DRIFT"@
        } else {
            "BOUNDED"@
        },
{
    if drift {
        "DRIFT"
    } else {
        "BOUNDED"
    }
}

/// A column of the report, its numbers rendered.
#[derive(Debug)]
pub struct ReportRow {
    pub column: String,
    pub verdict: Verdict,
    pub note: String,
    pub first: String,
    pub last: String,
    pub min: String,
    pub max: String,
}

/// A tally of the report.
#[derive(Debug)]
pub struct TallyRow {
    pub name: String,
    pub ok: u64,
    pub err: u64,
}

/// A text filled up with spaces on the left to a width.
pub open spec fn right_aligned(s: Seq<char>, width: nat) -> Seq<char> {
    if s.len() < width {
        Seq::new((width - s.len()) as nat, |i: int| ' ') + s
    } else {
        s
    }
}

/// The name of a verdict.
pub open spec fn verdict_name(v: Verdict) -> Seq<char> {
    match v {
        Verdict::Bounded => "BOUNDED"@,
        Verdict::Drift => "DRIFT"@,
        Verdict::Inconclusive => "INCONCLUSIVE"@,
    }
}

/// The line of a column.
pub open spec fn report_line(r: ReportRow) -> Seq<char> {
    "  "@ + right_aligned(r.column@, 10) + " ["@ + right_aligned(verdict_name(r.verdict), 6) + "] "@
        + r.note@ + " \u{2014} first="@ + r.first@ + " last="@ + r.last@ + " min="@ + r.min@
        + " max="@ + r.max@ + "\n"@
}

/// The lines of the columns.
pub open spec fn report_lines(rows: Seq<ReportRow>) -> Seq<char>
    decreases rows.len(),
{
    if rows.len() == 0 {
        Seq::empty()
    } else {
        report_lines(rows.drop_last()) + report_line(rows.last())
    }
}

/// The lines of the tallies.
pub open spec fn tally_lines(rows: Seq<TallyRow>) -> Seq<char>
    decreases rows.len(),
{
    if rows.len() == 0 {
        Seq::empty()
    } else {
        tally_lines(rows.drop_last()) + ("    "@ + rows.last().name@ + ": ok="@ + decimal(
            rows.last().ok as nat,
        ) + " err="@ + decimal(rows.last().err as nat) + "\n"@)
    }
}

/// The first line of the report.
pub open spec fn report_head(scenario: Seq<char>, duration: u64, samples: u64, drift: bool) -> Seq<char> {
    "=== SOAK "@ + scenario + " \u{2014} "@ + (if drift {
        "DRIFT (finding)"@
    } else {
        "BOUNDED"@
    }) + " ("@ + decimal(duration as nat) + "s, "@ + decimal(samples as nat) + " samples) ===\n"@
}

fn push_right(out: &mut String, s: &str, width: usize)
    ensures
        final(out)@ == old(out)@ + right_aligned(s@, width as nat),
{
    let n: usize = s.unicode_len();
    let mut pad: usize = if n < width { width - n } else { 0 };
    let ghost start = pad as int;
    while pad > 0
        invariant
            pad <= start,
            out@ =~= old(out)@ + Seq::new((start - pad) as nat, |i: int| ' '),
        decreases pad,
    {
        out.push(' ');
        pad -= 1;
    }
    out.append(s);
    assert(out@ =~= old(out)@ + right_aligned(s@, width as nat));
}

fn push_line(out: &mut String, r: &ReportRow)
    ensures
        final(out)@ == old(out)@ + report_line(*r),
{
    out.append("  ");
    push_right(out, &r.column, 10);
    out.append(" [");
    push_right(out, r.verdict.as_str(), 6);
    out.append("] ");
    out.append(&r.note);
    out.append(" \u{2014} first=");
    out.append(&r.first);
    out.append(" last=");
    out.append(&r.last);
    out.append(" min=");
    out.append(&r.min);
    out.append(" max=");
    out.append(&r.max);
    out.append("\n");
    assert(out@ =~= old(out)@ + report_line(*r));
}

/// The report of a soak.
pub fn render_summary(
    scenario: &str,
    duration: u64,
    samples: u64,
    drift: bool,
    columns: &Vec<ReportRow>,
    tallies: &Vec<TallyRow>,
) -> (out: String)
    ensures
        out@ == report_head(scenario@, duration, samples, drift) + report_lines(columns@)
            + "  load:\n"@ + tally_lines(tallies@),
{
    let mut out: String = "=== SOAK ".to_owned();
    out.append(scenario);
    out.append(" \u{2014} ");
    if drift {
        out.append("DRIFT (finding)");
    } else {
        out.append("BOUNDED");
    }
    out.append(" (");
    push_decimal(&mut out, duration);
    out.append("s, ");
    push_decimal(&mut out, samples);
    out.append(" samples) ===\n");
    let ghost head = out@;
    assert(head =~= report_head(scenario@, duration, samples, drift));
    let mut i: usize = 0;
    assert(head + report_lines(columns@.take(0)) =~= head);
    while i < columns.len()
        invariant
            i <= columns@.len(),
            out@ == head + report_lines(columns@.take(i as int)),
        decreases columns@.len() - i,
    {
        assert(columns@.take(i + 1).drop_last() =~= columns@.take(i as int));
        push_line(&mut out, &columns[i]);
        assert(out@ =~= head + report_lines(columns@.take(i + 1)));
        i += 1;
    }
    assert(columns@.take(i as int) =~= columns@);
    out.append("  load:\n");
    let ghost middle = out@;
    let mut k: usize = 0;
    assert(middle + tally_lines(tallies@.take(0)) =~= middle);
    while k < tallies.len()
        invariant
            k <= tallies@.len(),
            out@ == middle + tally_lines(tallies@.take(k as int)),
        decreases tallies@.len() - k,
    {
        assert(tallies@.take(k + 1).drop_last() =~= tallies@.take(k as int));
        out.append("    ");
        out.append(&tallies[k].name);
        out.append(": ok=");
        push_decimal(&mut out, tallies[k].ok);
        out.append(" err=");
        push_decimal(&mut out, tallies[k].err);
        out.append("\n");
        assert(out@ =~= middle + tally_lines(tallies@.take(k + 1)));
        k += 1;
    }
    assert(tallies@.take(k as int) =~= tallies@);
    out
}

/// What the file says that marks a soak as complete.
pub fn marker_text(scenario: &str, duration: u64, samples: u64, drift: bool) -> (out: String)
    ensures
        out@ == "scenario="@ + scenario@ + " duration_secs="@ + decimal(duration as nat)
            + " samples="@ + decimal(samples as nat) + " overall="@ + (if drift {
            "DRIFT"@
        } else {
            "BOUNDED"@
        }) + "\n"@,
{
    let mut out: String = "scenario=".to_owned();
    out.append(scenario);
    out.append(" duration_secs=");
    push_decimal(&mut out, duration);
    out.append(" samples=");
    push_decimal(&mut out, samples);
    out.append(" overall=");
    out.append(overall(drift));
    out.append("\n");
    out
}

// ---------------------------------------------------------------------------
// Laws
// ---------------------------------------------------------------------------

/// Which scenario a name stands for: one of twelve, each under its own name.
pub proof fn law_scenario_names(name: &str, r: Option<Setup>)
    requires
        call_ensures(setup_of, (name,), r),
    ensures
        name@ == "sc1_h1h1"@ <==> r == Some(Setup::H1H1),
        name@ == "sc1b_h1h2"@ <==> r == Some(Setup::H1H2),
        name@ == "sc2_h2h2"@ <==> r == Some(Setup::H2H2),
        name@ == "sc3_slowloris"@ <==> r == Some(Setup::Slowloris),
        name@ == "sc4_modeb"@ <==> r == Some(Setup::ModeB),
        name@ == "sc5_modea"@ <==> r == Some(Setup::ModeA),
        name@ == "sc6_413teardown"@ <==> r == Some(Setup::Teardown413),
        name@ == "sc7_h3terminate"@ <==> r == Some(Setup::H3Terminate),
        name@ == "sc8_ws_h1"@ <==> r == Some(Setup::WsH1),
        name@ == "sc8b_ws_h2"@ <==> r == Some(Setup::WsH2),
        name@ == "sc8c_ws_h3"@ <==> r == Some(Setup::WsH3),
        name@ == "sc9_grpc_h3"@ <==> r == Some(Setup::GrpcH3),
{
    lemma_scenario_names();
}

proof fn lemma_scenario_names()
    ensures
        "sc1_h1h1"@.len() == 8,
        "sc1_h1h1"@[2] == '1',
        "sc1_h1h1"@[3] == '_',
        "sc1b_h1h2"@.len() == 9,
        "sc1b_h1h2"@[2] == '1',
        "sc1b_h1h2"@[3] == 'b',
        "sc2_h2h2"@.len() == 8,
        "sc2_h2h2"@[2] == '2',
        "sc2_h2h2"@[3] == '_',
        "sc3_slowloris"@.len() == 13,
        "sc3_slowloris"@[2] == '3',
        "sc3_slowloris"@[3] == '_',
        "sc4_modeb"@.len() == 9,
        "sc4_modeb"@[2] == '4',
        "sc4_modeb"@[3] == '_',
        "sc5_modea"@.len() == 9,
        "sc5_modea"@[2] == '5',
        "sc5_modea"@[3] == '_',
        "sc6_413teardown"@.len() == 15,
        "sc6_413teardown"@[2] == '6',
        "sc6_413teardown"@[3] == '_',
        "sc7_h3terminate"@.len() == 15,
        "sc7_h3terminate"@[2] == '7',
        "sc7_h3terminate"@[3] == '_',
        "sc8_ws_h1"@.len() == 9,
        "sc8_ws_h1"@[2] == '8',
        "sc8_ws_h1"@[3] == '_',
        "sc8b_ws_h2"@.len() == 10,
        "sc8b_ws_h2"@[2] == '8',
        "sc8b_ws_h2"@[3] == 'b',
        "sc8c_ws_h3"@.len() == 10,
        "sc8c_ws_h3"@[2] == '8',
        "sc8c_ws_h3"@[3] == 'c',
        "sc9_grpc_h3"@.len() == 11,
        "sc9_grpc_h3"@[2] == '9',
        "sc9_grpc_h3"@[3] == '_',
{
    reveal_strlit("sc1_h1h1");
    reveal_strlit("sc1b_h1h2");
    reveal_strlit("sc2_h2h2");
    reveal_strlit("sc3_slowloris");
    reveal_strlit("sc4_modeb");
    reveal_strlit("sc5_modea");
    reveal_strlit("sc6_413teardown");
    reveal_strlit("sc7_h3terminate");
    reveal_strlit("sc8_ws_h1");
    reveal_strlit("sc8b_ws_h2");
    reveal_strlit("sc8c_ws_h3");
    reveal_strlit("sc9_grpc_h3");
}

/// What a scenario needs besides its load: which clients verify a name, which go
/// over UDP, what stands behind the gateway and which certificates are made. A
/// front with a certificate is what clients verify, unless packets are passed
/// through to the far end, whose certificate they then verify.
pub proof fn law_scenario_needs(
    setup: Setup,
    name: Option<&'static str>,
    udp: bool,
    origin: Origin,
    certs: CertNeeds,
)
    requires
        call_ensures(client_name, (setup,), name),
        call_ensures(over_udp, (setup,), udp),
        call_ensures(origin_of, (setup,), origin),
        call_ensures(certs_of, (setup,), certs),
    ensures
        name is Some <==> certs.front || certs.far,
        certs.front && udp ==> name->0@ == "soak-front"@,
        certs.front && !udp ==> name->0@ == "localhost"@,
        !certs.front && certs.far ==> name->0@ == "soak-backend"@ && setup is ModeA,
        certs.far ==> origin == Origin::QuicEcho,
        origin == Origin::Nothing <==> setup is H3Terminate,
        origin == Origin::QuicEcho <==> setup is ModeA || setup is ModeB,
        origin == Origin::WsEcho <==> setup is WsH1 || setup is WsH2 || setup is WsH3,
        origin == Origin::Grpc <==> setup is GrpcH3,
        origin == Origin::H2 <==> setup is H1H2 || setup is H2H2,
        udp <==> setup is ModeA || setup is ModeB || setup is H3Terminate || setup is WsH3
            || setup is GrpcH3,
{
}

/// In every scenario the panics of the gateway are watched, and one is enough for
/// a drift; a column that is judged as a counter is one that is watched.
pub proof fn law_panics_are_watched(
    setup: Setup,
    r: (Vec<String>, Vec<(String, MetricKind)>),
    kind: MetricKind,
)
    requires
        call_ensures(gauges_of, (setup,), r),
        call_ensures(kind_of, (&r.1, "panic_total"), kind),
    ensures
        kind == MetricKind::CounterMustBeZero,
        exists|i: int| 0 <= i < r.0@.len() && (#[trigger] r.0@[i])@ == "panic_total"@,
        forall|k: int|
            0 <= k < r.1@.len() ==> texts(r.0@).contains((#[trigger] r.1@[k]).0@) && r.1@[k].1
                != MetricKind::Trend,
{
    lemma_gauges_differ();
    let names = texts(r.0@);
    let kinds = r.1@.map_values(|k: (String, MetricKind)| (k.0@, k.1));
    assert(names == gauge_names(setup));
    assert(kinds == gauge_kinds(setup));
    let last = names.len() - 1;
    assert(names[last] == "panic_total"@);
    assert(r.0@[last]@ == names[last]);
    assert forall|k: int| 0 <= k < r.1@.len() implies names.contains((#[trigger] r.1@[k]).0@)
        && r.1@[k].1 != MetricKind::Trend by {
        assert(kinds[k] == (r.1@[k].0@, r.1@[k].1));
        match setup {
            Setup::ModeA => {
                assert(names[1] == "quic_passthrough_flows_evicted_total"@);
            },
            Setup::ModeB => {
                assert(names[2] == "quic_modeb_datagrams_dropped_total"@);
            },
            _ => {},
        }
    }
    let end = kinds.len() - 1;
    assert(kinds[end] == ("panic_total"@, MetricKind::CounterMustBeZero));
    assert(r.1@[end].0@ == "panic_total"@);
    assert forall|i: int| 0 <= i < end implies (#[trigger] r.1@[i]).0@ != "panic_total"@ by {
        assert(kinds[i].0 == r.1@[i].0@);
    }
    crate::soak::timeseries::law_kind_of(r.1, "panic_total", kind, end);
}

proof fn lemma_gauges_differ()
    ensures
        "panic_total"@ != "quic_passthrough_flows_evicted_total"@,
        "panic_total"@ != "quic_modeb_datagrams_dropped_total"@,
{
    reveal_strlit("panic_total");
    reveal_strlit("quic_passthrough_flows_evicted_total");
    reveal_strlit("quic_modeb_datagrams_dropped_total");
    assert("panic_total"@[0] == 'p');
    assert("quic_passthrough_flows_evicted_total"@[0] == 'q');
    assert("quic_modeb_datagrams_dropped_total"@[0] == 'q');
}

/// A run drifts exactly when some column does, and says so.
pub proof fn law_one_drift_is_enough(verdicts: Vec<Verdict>, drift: bool, word: &'static str)
    requires
        call_ensures(any_drift, (&verdicts,), drift),
        call_ensures(overall, (drift,), word),
    ensures
        drift <==> exists|i: int| 0 <= i < verdicts@.len() && (#[trigger] verdicts@[i]) == Verdict::Drift,
        drift ==> word@ == "DRIFT"@,
        !drift ==> word@ == "BOUNDED"@,
{
}

/// What the load of a scenario takes over from its knobs: the value that is set,
/// where it is a number, else the default.
pub proof fn law_knob(value: Option<String>, i: usize, n: u64)
    requires
        i < 16,
        call_ensures(env_usize, (&value, i), n),
    ensures
        value is None ==> n == KNOBS@[i as int].1,
        value matches Some(v) ==> match unsigned_value(v@, usize::MAX as nat) {
            Some(k) => n == k,
            None => n == KNOBS@[i as int].1,
        },
{
}

/// The options of a run are different texts.
proof fn lemma_soak_options()
    ensures
        "--list"@.len() == 6,
        "--scenario"@.len() == 10,
        "--label"@.len() == 7,
        "--scale"@.len() == 7,
        "--label"@ != "--scale"@,
        "--duration-secs"@.len() == 15,
        "--sample-secs"@.len() == 13,
        "--out"@.len() == 5,
{
    reveal_strlit("--list");
    reveal_strlit("--scenario");
    reveal_strlit("--label");
    reveal_strlit("--scale");
    reveal_strlit("--duration-secs");
    reveal_strlit("--sample-secs");
    reveal_strlit("--out");
    assert("--label"@[2] == 'l' && "--scale"@[2] == 's');
}

/// What a run is made with when only its scenario is given: two minutes, a sample
/// every fifteen seconds, at the scale of one, written to `soak-out` under the
/// name of the scenario.
pub proof fn law_run_defaults(args: Vec<String>, r: Result<Option<SoakArgs>, ArgError>)
    requires
        args@.len() == 2,
        args@[0]@ == "--scenario"@,
        call_ensures(parse_soak_args, (&args,), r),
    ensures
        r is Ok && r->Ok_0 is Some && ({
            let a = r->Ok_0->0;
            &&& a.scenario@ == args@[1]@
            &&& a.label@ == args@[1]@
            &&& a.duration == 120
            &&& a.sample == 15
            &&& a.scale == 1
            &&& a.out@ == "soak-out"@
        }),
{
    lemma_soak_options();
    reveal_with_fuel(soak_draft, 2);
    let t = texts(args@);
    assert(t[0] == "--scenario"@ && t[1] == args@[1]@);
    assert(past_option(t) =~= Seq::<Seq<char>>::empty());
}

/// A run without a scenario is refused.
pub proof fn law_run_needs_a_scenario(args: Vec<String>, r: Result<Option<SoakArgs>, ArgError>)
    requires
        args@.len() == 0,
        call_ensures(parse_soak_args, (&args,), r),
    ensures
        r is Err && r->Err_0 is MissingScenario,
{
    assert(texts(args@) =~= Seq::<Seq<char>>::empty());
}

/// Whether a text is an option of a run that takes a value.
pub open spec fn is_run_option(key: Seq<char>) -> bool {
    ||| key == "--scenario"@
    ||| key == "--label"@
    ||| key == "--duration-secs"@
    ||| key == "--sample-secs"@
    ||| key == "--scale"@
    ||| key == "--out"@
}

/// What one more option of a run changes: its own value and no other. A number
/// that cannot be read is the default, and a scale of zero is one. A listing takes
/// the place of everything, and an unknown option is an error that names it.
pub proof fn law_last_run_option_wins(
    args: Vec<String>,
    more: Vec<String>,
    key: String,
    value: String,
    r: Result<Option<SoakArgs>, ArgError>,
    s: Result<Option<SoakArgs>, ArgError>,
)
    requires
        args@.len() % 2 == 0,
        more@ == args@.push(key).push(value),
        call_ensures(parse_soak_args, (&args,), r),
        call_ensures(parse_soak_args, (&more,), s),
        r is Ok && r->Ok_0 is Some,
    ensures
        key@ == "--list"@ ==> s is Ok && s->Ok_0 is None,
        is_run_option(key@) ==> s is Ok && s->Ok_0 is Some && ({
            let a = r->Ok_0->0;
            let b = s->Ok_0->0;
            let n = unsigned_value(value@, u64::MAX as nat);
            let m = unsigned_value(value@, usize::MAX as nat);
            &&& key@ == "--scenario"@ ==> b.scenario@ == value@
            &&& key@ != "--scenario"@ ==> b.scenario@ == a.scenario@
            &&& key@ == "--label"@ ==> b.label@ == value@
            &&& key@ != "--label"@ && key@ != "--scenario"@ ==> b.label@ == a.label@
            &&& b.duration == if key@ != "--duration-secs"@ {
                a.duration as nat
            } else if n is Some {
                n->0
            } else {
                120
            }
            &&& b.sample == if key@ != "--sample-secs"@ {
                a.sample as nat
            } else if n is Some {
                n->0
            } else {
                15
            }
            &&& b.scale == if key@ != "--scale"@ {
                a.scale as nat
            } else if m is Some && m->0 > 0 {
                m->0
            } else {
                1
            }
            &&& key@ == "--out"@ ==> b.out@ == value@
            &&& key@ != "--out"@ ==> b.out@ == a.out@
        }),
        !is_run_option(key@) && key@ != "--list"@ ==> s is Err && s->Err_0 is Unknown
            && s->Err_0->Unknown_0@ == key@,
{
    lemma_soak_options();
    let t = texts(args@);
    let pair = seq![key@, value@];
    assert(texts(more@) =~= t + pair);
    let e = soak_draft(t, soak_defaults())->Ok_0->0;
    lemma_soak_draft_on(t, pair, soak_defaults());
    lemma_soak_pair(key@, value@, e);
}

proof fn lemma_soak_pair(key: Seq<char>, value: Seq<char>, d: SoakDraft)
    ensures
        ({
            let r = soak_draft(seq![key, value], d);
            let f = r->Ok_0->0;
            let n = unsigned_value(value, u64::MAX as nat);
            let m = unsigned_value(value, usize::MAX as nat);
            &&& is_run_option(key) ==> {
                &&& r is Ok
                &&& r->Ok_0 is Some
                &&& f.scenario == if key == "--scenario"@ {
                    Some(value)
                } else {
                    d.scenario
                }
                &&& f.label == if key == "--label"@ {
                    Some(value)
                } else {
                    d.label
                }
                &&& f.duration == if key != "--duration-secs"@ {
                    d.duration as nat
                } else if n is Some {
                    n->0
                } else {
                    120
                }
                &&& f.sample == if key != "--sample-secs"@ {
                    d.sample as nat
                } else if n is Some {
                    n->0
                } else {
                    15
                }
                &&& f.scale == if key != "--scale"@ {
                    d.scale as nat
                } else if m is Some && m->0 > 0 {
                    m->0
                } else {
                    1
                }
                &&& f.out == if key == "--out"@ {
                    value
                } else {
                    d.out
                }
            }
            &&& key == "--list"@ ==> r == Ok::<Option<SoakDraft>, Seq<char>>(None)
            &&& !is_run_option(key) && key != "--list"@ ==> r == Err::<Option<SoakDraft>, Seq<char>>(key)
        }),
{
    reveal_with_fuel(soak_draft, 2);
    lemma_soak_options();
    let pair = seq![key, value];
    assert(pair[0] == key);
    assert(option_value(pair) == Some(value));
    assert(past_option(pair) =~= Seq::<Seq<char>>::empty());
}

proof fn lemma_soak_draft_on(args: Seq<Seq<char>>, more: Seq<Seq<char>>, draft: SoakDraft)
    requires
        args.len() % 2 == 0,
        soak_draft(args, draft) is Ok,
        soak_draft(args, draft)->Ok_0 is Some,
    ensures
        soak_draft(args + more, draft) == soak_draft(more, soak_draft(args, draft)->Ok_0->0),
    decreases args.len(),
{
    let all = args + more;
    if args.len() == 0 {
        assert(all =~= more);
    } else {
        let value = option_value(args);
        let rest = past_option(args);
        assert(all[0] == args[0]);
        assert(option_value(all) == value);
        assert(past_option(all) =~= rest + more);
        if args[0] == "--scenario"@ {
            lemma_soak_draft_on(rest, more, SoakDraft { scenario: value, ..draft });
        } else if args[0] == "--label"@ {
            lemma_soak_draft_on(rest, more, SoakDraft { label: value, ..draft });
        } else if args[0] == "--duration-secs"@ {
            lemma_soak_draft_on(
                rest,
                more,
                SoakDraft { duration: number_or(value, u64::MAX as nat, 120) as u64, ..draft },
            );
        } else if args[0] == "--sample-secs"@ {
            lemma_soak_draft_on(
                rest,
                more,
                SoakDraft { sample: number_or(value, u64::MAX as nat, 15) as u64, ..draft },
            );
        } else if args[0] == "--scale"@ {
            lemma_soak_draft_on(
                rest,
                more,
                SoakDraft {
                    scale: if number_or(value, usize::MAX as nat, 1) == 0 { 1 } else { number_or(value, usize::MAX as nat, 1) as usize },
                    ..draft
                },
            );
        } else if args[0] == "--out"@ {
            lemma_soak_draft_on(
                rest,
                more,
                SoakDraft { out: match value { Some(v) => v, None => Seq::empty() }, ..draft },
            );
        }
    }
}

/// The configuration of a scenario with a plain front: one with HTTP/1.1 behind
/// it, and for `H1H2` one with HTTP/2.
pub proof fn law_plain_front_config(
    setup: Setup,
    p: FrontParts,
    out: String,
    listener: &str,
    backend: &str,
    proto: &str,
    metrics: &str,
    text: String,
)
    requires
        call_ensures(config_of, (setup, &p), out),
        listener@ == p.listener@,
        backend@ == p.backend@,
        metrics@ == p.metrics@,
        setup is H1H1 || setup is Slowloris || setup is H1H2,
        setup is H1H2 ==> proto@ == "h2"@,
        !(setup is H1H2) ==> proto@ == "h1"@,
        call_ensures(h1_front, (listener, backend, proto, metrics), text),
    ensures
        out@ == text@,
{
}

/// The configuration of a scenario with a front behind TLS: one with HTTP/2
/// behind it, and for the teardowns one with HTTP/1.1.
pub proof fn law_tls_front_config(
    setup: Setup,
    p: FrontParts,
    out: String,
    listener: &str,
    backend: &str,
    proto: &str,
    metrics: &str,
    text: String,
)
    requires
        call_ensures(config_of, (setup, &p), out),
        listener@ == p.listener@,
        backend@ == p.backend@,
        metrics@ == p.metrics@,
        setup is H2H2 || setup is Teardown413,
        setup is H2H2 ==> proto@ == "h2"@,
        setup is Teardown413 ==> proto@ == "h1"@,
        call_ensures(h1s_front, (listener, backend, proto, metrics, &p.front), text),
    ensures
        out@ == text@,
{
}

/// The configuration of a scenario with WebSockets: with the times of its parts,
/// in the order idle and frame.
pub proof fn law_websocket_config(
    setup: Setup,
    p: FrontParts,
    out: String,
    listener: &str,
    backend: &str,
    metrics: &str,
    secret: &str,
    plain: String,
    tls: String,
    quic: String,
)
    requires
        call_ensures(config_of, (setup, &p), out),
        listener@ == p.listener@,
        backend@ == p.backend@,
        metrics@ == p.metrics@,
        secret@ == p.retry_secret@,
        call_ensures(
            h1_front_ws,
            (listener, backend, metrics, p.idle_timeout_seconds, p.read_frame_timeout_seconds),
            plain,
        ),
        call_ensures(
            h1s_front_ws,
            (
                listener,
                backend,
                metrics,
                &p.front,
                p.idle_timeout_seconds,
                p.read_frame_timeout_seconds,
            ),
            tls,
        ),
        call_ensures(
            quic_h3_terminate_ws,
            (
                listener,
                backend,
                metrics,
                &p.front,
                secret,
                p.idle_timeout_seconds,
                p.read_frame_timeout_seconds,
            ),
            quic,
        ),
    ensures
        setup is WsH1 ==> out@ == plain@,
        setup is WsH2 ==> out@ == tls@,
        setup is WsH3 ==> out@ == quic@,
{
}

/// The configuration of a scenario over QUIC: packets that are passed through, a
/// relay that verifies the far end, or an HTTP/3 front, for gRPC with HTTP/2
/// behind it and else with nothing.
pub proof fn law_quic_config(
    setup: Setup,
    p: FrontParts,
    out: String,
    listener: &str,
    backend: &str,
    metrics: &str,
    secret: &str,
    ca: &str,
    packets: String,
    relay: String,
    grpc: String,
    bare: String,
)
    requires
        call_ensures(config_of, (setup, &p), out),
        listener@ == p.listener@,
        backend@ == p.backend@,
        metrics@ == p.metrics@,
        secret@ == p.retry_secret@,
        ca@ == p.far.ca@,
        call_ensures(
            passthrough_mode_a,
            (listener, backend, metrics, secret, 100_000, p.flow_idle_timeout_ms),
            packets,
        ),
        call_ensures(
            quic_mode_b,
            (listener, backend, "soak-backend", metrics, &p.front, secret, ca, 1_024, 256),
            relay,
        ),
        call_ensures(quic_h3_terminate_h2, (listener, backend, metrics, &p.front, secret), grpc),
        call_ensures(quic_h3_terminate, (listener, metrics, &p.front, secret), bare),
    ensures
        setup is ModeA ==> out@ == packets@,
        setup is ModeB ==> out@ == relay@,
        setup is GrpcH3 ==> out@ == grpc@,
        setup is H3Terminate ==> out@ == bare@,
{
}

/// A text at the right end of a column of a width: the text, behind as many spaces
/// as it is short of it.
pub proof fn law_right_aligned(s: Seq<char>, width: nat)
    ensures
        s.is_suffix_of(right_aligned(s, width)),
        right_aligned(s, width).len() == if s.len() < width {
            width
        } else {
            s.len()
        },
        forall|i: int|
            0 <= i < right_aligned(s, width).len() - s.len() ==> #[trigger] right_aligned(s, width)[i]
                == ' ',
{
    let all = right_aligned(s, width);
    assert(s =~= all.subrange(all.len() - s.len(), all.len() as int));
}

/// How a summary is written: a head with the outcome, a line for each column with
/// its verdict, and behind `load:` a line for each load with its counts. This says
/// of every summary what one more column and one more load add.
pub proof fn law_summary_lines(
    scenario: &str,
    duration: u64,
    samples: u64,
    drift: bool,
    columns: Vec<ReportRow>,
    tallies: Vec<TallyRow>,
    out: String,
    rows: Seq<ReportRow>,
    r: ReportRow,
    loads: Seq<TallyRow>,
    t: TallyRow,
)
    requires
        call_ensures(render_summary, (scenario, duration, samples, drift, &columns, &tallies), out),
    ensures
        out@ == "=== SOAK "@ + scenario@ + " \u{2014} "@ + (if drift {
            "DRIFT (finding)"@
        } else {
            "BOUNDED"@
        }) + " ("@ + decimal(duration as nat) + "s, "@ + decimal(samples as nat)
            + " samples) ===\n"@ + report_lines(columns@) + "  load:\n"@ + tally_lines(tallies@),
        report_lines(Seq::<ReportRow>::empty()).len() == 0,
        report_lines(rows.push(r)) == report_lines(rows) + ("  "@ + right_aligned(r.column@, 10) + " ["@
            + right_aligned(
            match r.verdict {
                Verdict::Bounded => "BOUNDED"@,
                Verdict::Drift => "DRIFT"@,
                Verdict::Inconclusive => "INCONCLUSIVE"@,
            },
            6,
        ) + "] "@ + r.note@ + " \u{2014} first="@ + r.first@ + " last="@ + r.last@ + " min="@ + r.min@
            + " max="@ + r.max@ + "\n"@),
        tally_lines(Seq::<TallyRow>::empty()).len() == 0,
        tally_lines(loads.push(t)) == tally_lines(loads) + ("    "@ + t.name@ + ": ok="@ + decimal(
            t.ok as nat,
        ) + " err="@ + decimal(t.err as nat) + "\n"@),
{
    assert(rows.push(r).drop_last() =~= rows);
    assert(loads.push(t).drop_last() =~= loads);
}

/// How many workers the tasks of a scenario have: as many as its knobs say, or a
/// number of its own, for each unit of the scale; only the baseline of the slow
/// clients does not grow.
pub proof fn law_tasks_scale(
    setup: Setup,
    scale: u64,
    workers: Workers,
    tasks: Vec<Task>,
    one: Vec<Task>,
    i: int,
)
    requires
        workers.fit(scale),
        workers.fit(1),
        call_ensures(tasks_of, (setup, scale, workers), tasks),
        call_ensures(tasks_of, (setup, 1, workers), one),
    ensures
        tasks@.len() == one@.len(),
        tasks@.len() > 0,
        0 <= i < tasks@.len() ==> {
            &&& tasks@[i].drive == one@[i].drive
            &&& tasks@[i].tally is Some <==> one@[i].tally is Some
            &&& !(setup is Slowloris && i == 2) ==> tasks@[i].workers == one@[i].workers * scale
            &&& setup is Slowloris && i == 2 ==> tasks@[i].workers == 4
        },
{
    if 0 <= i < tasks@.len() {
        assert(i == 0 || i == 1 || i == 2);
        assert(workers.quic * 1 == workers.quic && workers.h3 * 1 == workers.h3 && workers.h3_reset * 1
            == workers.h3_reset && workers.ws * 1 == workers.ws && workers.ws_churn * 1
            == workers.ws_churn && workers.grpc * 1 == workers.grpc && workers.grpc_churn * 1
            == workers.grpc_churn);
    }
}

} // verus!
