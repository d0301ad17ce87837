//! The accept loop of a TCP listener: which step follows which observation,
//! how long it backs off, and what becomes of a connection.

use vstd::prelude::*;
use crate::chance::random_range;
use crate::gateway::mode::ListenerMode;
use crate::text::{decimal, push_decimal};

verus! {

// ---------------------------------------------------------------------------
// Errors of accept
// ---------------------------------------------------------------------------

/// The kind of an I/O error, as far as it matters here.
#[derive(Debug, Clone, Copy, PartialEq, Eq, Structural)]
pub enum IoKind {
    ConnectionReset,
    ConnectionAborted,
    Other,
}

/// What an error of accept means for the loop.
#[derive(Debug, Clone, Copy, PartialEq, Eq, Structural)]
pub enum AcceptErrorKind {
    /// The process or the system is out of file descriptors.
    EmfileOrEnfile,
    /// The client went away first.
    ConnReset,
    /// The listener is unusable.
    Fatal,
}

/// The error number of a system that is out of file descriptors.
pub const ENFILE: i32 = 23;

/// The error number of a process that is out of file descriptors.
pub const EMFILE: i32 = 24;

impl AcceptErrorKind {
    /// The label of the error counter.
    pub fn as_label(self) -> (r: &'static str)
        ensures
            r@ == match self {
                AcceptErrorKind::EmfileOrEnfile => "fd_exhausted"@,
                AcceptErrorKind::ConnReset => "conn_reset"@,
                AcceptErrorKind::Fatal => "fatal"@,
            },
    {
        match self {
            AcceptErrorKind::EmfileOrEnfile => "fd_exhausted",
            AcceptErrorKind::ConnReset => "conn_reset",
            AcceptErrorKind::Fatal => "fatal",
        }
    }
}

/// What an error of accept means, by its number and its kind.
pub fn classify_accept_error(raw_os_error: Option<i32>, kind: IoKind) -> (r: AcceptErrorKind)
    ensures
        r == if raw_os_error == Some(ENFILE) || raw_os_error == Some(EMFILE) {
            AcceptErrorKind::EmfileOrEnfile
        } else if kind == IoKind::Other {
            AcceptErrorKind::Fatal
        } else {
            AcceptErrorKind::ConnReset
        },
{
    match raw_os_error {
        Some(raw) => {
            if raw == ENFILE || raw == EMFILE {
                return AcceptErrorKind::EmfileOrEnfile;
            }
        },
        None => {},
    }
    match kind {
        IoKind::ConnectionReset => AcceptErrorKind::ConnReset,
        IoKind::ConnectionAborted => AcceptErrorKind::ConnReset,
        IoKind::Other => AcceptErrorKind::Fatal,
    }
}

// ---------------------------------------------------------------------------
// Back-off
// ---------------------------------------------------------------------------

/// The first pause, in milliseconds.
pub const FIRST_BACKOFF_MS: u64 = 10;

/// The longest pause before jitter, in milliseconds.
pub const BACKOFF_CAP_MS: u64 = 1_000;

/// The middle of the pause that follows a pause of `prev` milliseconds: ten at
/// first, then twice as long each time, up to a second.
pub open spec fn backoff_middle(prev: u64) -> int {
    if prev == 0 {
        FIRST_BACKOFF_MS as int
    } else if 2 * prev <= BACKOFF_CAP_MS {
        2 * prev
    } else {
        BACKOFF_CAP_MS as int
    }
}

/// Whether a pause of `ms` may follow one of `prev`: it is within a quarter of
/// the middle.
pub open spec fn may_follow(prev: u64, ms: u64) -> bool {
    let middle = backoff_middle(prev);
    middle - middle / 4 <= ms <= middle + middle / 4
}

fn middle_of(prev: u64) -> (m: u64)
    ensures
        m == backoff_middle(prev),
        FIRST_BACKOFF_MS <= m || m == 2 * prev,
        0 < m <= BACKOFF_CAP_MS,
{
    if prev == 0 {
        FIRST_BACKOFF_MS
    } else if prev <= BACKOFF_CAP_MS / 2 {
        2 * prev
    } else {
        BACKOFF_CAP_MS
    }
}

/// The pause for a draw out of twice the jitter.
pub fn backoff_with(prev: u64, draw: u64) -> (ms: u64)
    requires
        draw <= 2 * (backoff_middle(prev) / 4),
    ensures
        ms == backoff_middle(prev) - backoff_middle(prev) / 4 + draw,
        may_follow(prev, ms),
        ms >= 1,
{
    let middle: u64 = middle_of(prev);
    middle - middle / 4 + draw
}

/// The pause that follows a pause of `prev` milliseconds.
pub fn next_accept_backoff(prev: u64) -> (ms: u64)
    ensures
        may_follow(prev, ms),
        ms >= 1,
{
    let jitter: u64 = middle_of(prev) / 4;
    let draw: u64 = random_range(0, 2 * jitter);
    backoff_with(prev, draw)
}

/// A pause is never empty, never far over a second, and once the one before it
/// reached half a second it stays close to a second.
pub proof fn law_backoff_bounds(prev: u64, ms: u64)
    requires
        may_follow(prev, ms),
    ensures
        1 <= ms <= 1_250,
        prev == 0 ==> 8 <= ms <= 12,
        prev >= 500 ==> 750 <= ms,
{
}

/// Whether `pauses` may be the pauses of a loop that fails again and again.
pub open spec fn pauses_from(prev: u64, pauses: Seq<u64>) -> bool
    decreases pauses.len(),
{
    pauses.len() > 0 ==> may_follow(prev, pauses[0]) && pauses_from(pauses[0], pauses.skip(1))
}

/// A loop that fails again and again is close to a second after a dozen
/// pauses, and stays there: it never spins.
pub proof fn law_backoff_saturates(pauses: Seq<u64>, i: int)
    requires
        pauses_from(0, pauses),
        12 <= i < pauses.len(),
    ensures
        750 <= pauses[i] <= 1_250,
{
    lemma_pause_at(0, pauses, i);
    lemma_above_floor(0, pauses, i - 1);
    lemma_floor_grows(8, i as nat);
}

/// The least pause after `n` failures, starting over from `prev`.
pub open spec fn floor_after(prev: u64, n: nat) -> u64
    decreases n,
{
    if n == 0 {
        prev
    } else {
        floor_after((backoff_middle(prev) - backoff_middle(prev) / 4) as u64, (n - 1) as nat)
    }
}

proof fn lemma_pause_at(prev: u64, pauses: Seq<u64>, i: int)
    requires
        pauses_from(prev, pauses),
        0 <= i < pauses.len(),
    ensures
        may_follow(if i == 0 { prev } else { pauses[i - 1] }, pauses[i]),
    decreases i,
{
    if i > 0 {
        lemma_pause_at(pauses[0], pauses.skip(1), i - 1);
        assert(pauses.skip(1)[i - 1] == pauses[i]);
        if i > 1 {
            assert(pauses.skip(1)[i - 2] == pauses[i - 1]);
        }
    }
}

proof fn lemma_floor_values()
    ensures
        floor_after(8, 11) == 710,
{
    assert(floor_after(710, 0) == 710);
    assert(floor_after(473, 1) == 710);
    assert(floor_after(315, 2) == 710);
    assert(floor_after(210, 3) == 710);
    assert(floor_after(140, 4) == 710);
    assert(floor_after(93, 5) == 710);
    assert(floor_after(62, 6) == 710);
    assert(floor_after(41, 7) == 710);
    assert(floor_after(27, 8) == 710);
    assert(floor_after(18, 9) == 710);
    assert(floor_after(12, 10) == 710);
}

proof fn lemma_middle_monotone(a: u64, b: u64)
    requires
        0 < a <= b,
    ensures
        backoff_middle(a) <= backoff_middle(b),
        backoff_middle(a) - backoff_middle(a) / 4 <= backoff_middle(b) - backoff_middle(b) / 4,
{
}

proof fn lemma_floor_monotone(a: u64, b: u64, n: nat)
    requires
        0 < a <= b,
    ensures
        floor_after(a, n) <= floor_after(b, n),
    decreases n,
{
    if n > 0 {
        lemma_middle_monotone(a, b);
        lemma_floor_monotone(
            (backoff_middle(a) - backoff_middle(a) / 4) as u64,
            (backoff_middle(b) - backoff_middle(b) / 4) as u64,
            (n - 1) as nat,
        );
    }
}

proof fn lemma_floor_grows(a: u64, n: nat)
    requires
        n >= 12,
        a == 8,
    ensures
        floor_after(a, (n - 1) as nat) >= 500,
    decreases n,
{
    lemma_floor_values();
    if n > 12 {
        lemma_floor_stays(8, 11, (n - 12) as nat);
    }
}

proof fn lemma_floor_stays(a: u64, m: nat, k: nat)
    requires
        a > 0,
        500 <= floor_after(a, m) <= 1_000,
    ensures
        500 <= floor_after(a, m + k) <= 1_000,
    decreases m + k,
{
    if k > 0 {
        if m == 0 {
            let b = (backoff_middle(a) - backoff_middle(a) / 4) as u64;
            assert(500 <= b <= 1_000);
            lemma_floor_stays(b, 0, (k - 1) as nat);
        } else {
            let b = (backoff_middle(a) - backoff_middle(a) / 4) as u64;
            assert(floor_after(a, m) == floor_after(b, (m - 1) as nat));
            lemma_floor_stays(b, (m - 1) as nat, k);
        }
    }
}

proof fn lemma_above_floor(prev: u64, pauses: Seq<u64>, i: int)
    requires
        pauses_from(prev, pauses),
        0 <= i < pauses.len(),
    ensures
        pauses[i] >= floor_after((backoff_middle(prev) - backoff_middle(prev) / 4) as u64, i as nat),
    decreases i,
{
    let low = (backoff_middle(prev) - backoff_middle(prev) / 4) as u64;
    if i > 0 {
        lemma_above_floor(pauses[0], pauses.skip(1), i - 1);
        assert(pauses.skip(1)[i - 1] == pauses[i]);
        lemma_floor_monotone(low, pauses[0], i as nat);
    }
}

// ---------------------------------------------------------------------------
// The loop
// ---------------------------------------------------------------------------

/// Why the admission control refused a connection.
#[derive(Debug, Clone, Copy, PartialEq, Eq, Structural)]
pub enum SecurityReject {
    OverCap,
    Smuggle,
    RateLimited,
    SlowHandshake,
}

impl SecurityReject {
    /// The label of the refusal counter.
    pub fn as_label(self) -> (r: &'static str)
        ensures
            r@ == match self {
                SecurityReject::OverCap => "over_cap"@,
                SecurityReject::Smuggle => "smuggle"@,
                SecurityReject::RateLimited => "rate_limited"@,
                SecurityReject::SlowHandshake => "slow_handshake"@,
            },
    {
        match self {
            SecurityReject::OverCap => "over_cap",
            SecurityReject::Smuggle => "smuggle",
            SecurityReject::RateLimited => "rate_limited",
            SecurityReject::SlowHandshake => "slow_handshake",
        }
    }
}

/// Where the loop stands.
#[derive(Debug, Clone, Copy, PartialEq, Eq, Structural)]
pub enum Stage {
    /// Waiting for a connection or the end.
    Waiting,
    /// A connection came in; the end may have come with it.
    Accepted,
    /// The connection waits for admission.
    Checked,
    /// The connection waits for a slot.
    Admitted,
    /// The connection waits for a backend.
    Permitted,
    /// The loop is over.
    Stopped,
}

/// What the loop observes.
#[derive(Debug, Clone, Copy, PartialEq, Eq, Structural)]
pub enum AcceptEvent {
    Cancelled,
    Accepted,
    Failed(AcceptErrorKind),
    /// Whether the listener was cancelled while the connection came in.
    TailCheck(bool),
    /// The refusal of the admission control, if it refused.
    Admission(Option<SecurityReject>),
    /// Whether there was a slot.
    Permit(bool),
    /// The backend that the balancer picked, if it picked one.
    Picked(Option<usize>),
}

/// What the loop does next.
#[derive(Debug, Clone, Copy, PartialEq, Eq, Structural)]
pub enum AcceptAction {
    /// Ends.
    Stop,
    /// Ends with the error.
    Fail,
    /// Pauses for this many milliseconds, then waits.
    Sleep(u64),
    /// Looks whether the listener was cancelled.
    CheckCancel,
    /// Closes the connection and ends.
    CloseAndStop,
    /// Asks the admission control.
    Admit,
    /// Closes the connection without a word, then waits.
    Reject(SecurityReject),
    /// Tries to take a slot.
    TakePermit,
    /// Turns the connection away, with a response if it speaks plain HTTP,
    /// then waits.
    Shed { respond: bool },
    /// Asks the balancer.
    Pick,
    /// Drops the connection, then waits.
    Skip,
    /// Serves the connection from the backend at this position, and waits.
    Serve(usize),
}

/// The accept loop of a listener.
#[derive(Debug, Clone, Copy, PartialEq, Eq, Structural)]
pub struct AcceptLoop {
    pub stage: Stage,
    /// The last pause in milliseconds; zero after a success.
    pub backoff_ms: u64,
    /// Whether the listener speaks plain HTTP.
    pub plain_http: bool,
    /// The number of backend addresses.
    pub addresses: usize,
}

impl AcceptLoop {
    /// A loop that has not seen anything yet.
    pub fn new(plain_http: bool, addresses: usize) -> (r: Self)
        ensures
            r == (AcceptLoop { stage: Stage::Waiting, backoff_ms: 0, plain_http, addresses }),
    {
        AcceptLoop { stage: Stage::Waiting, backoff_ms: 0, plain_http, addresses }
    }

    /// Whether the event answers what the loop is waiting for.
    pub open spec fn expects(self, event: AcceptEvent) -> bool {
        match event {
            AcceptEvent::Cancelled | AcceptEvent::Accepted | AcceptEvent::Failed(_) => self.stage
                == Stage::Waiting,
            AcceptEvent::TailCheck(_) => self.stage == Stage::Accepted,
            AcceptEvent::Admission(_) => self.stage == Stage::Checked,
            AcceptEvent::Permit(_) => self.stage == Stage::Admitted,
            AcceptEvent::Picked(_) => self.stage == Stage::Permitted,
        }
    }

    /// The loop at another stage.
    pub open spec fn at(self, stage: Stage) -> AcceptLoop {
        AcceptLoop { stage, ..self }
    }

    /// Whether the loop may answer `event` with `action` and go on as `next`.
    /// Only the length of a pause is open.
    pub open spec fn moves(self, event: AcceptEvent, next: AcceptLoop, action: AcceptAction) -> bool {
        match event {
            AcceptEvent::Cancelled => next == self.at(Stage::Stopped) && action
                == AcceptAction::Stop,
            AcceptEvent::Accepted => {
                &&& next == (AcceptLoop { stage: Stage::Accepted, backoff_ms: 0, ..self })
                &&& action == AcceptAction::CheckCancel
            },
            AcceptEvent::Failed(AcceptErrorKind::Fatal) => next == self.at(Stage::Stopped) && action
                == AcceptAction::Fail,
            AcceptEvent::Failed(_) => {
                &&& next == (AcceptLoop { backoff_ms: next.backoff_ms, ..self })
                &&& may_follow(self.backoff_ms, next.backoff_ms)
                &&& action == AcceptAction::Sleep(next.backoff_ms)
            },
            AcceptEvent::TailCheck(cancelled) => if cancelled {
                next == self.at(Stage::Stopped) && action == AcceptAction::CloseAndStop
            } else {
                next == self.at(Stage::Checked) && action == AcceptAction::Admit
            },
            AcceptEvent::Admission(refusal) => match refusal {
                Some(why) => next == self.at(Stage::Waiting) && action == AcceptAction::Reject(why),
                None => next == self.at(Stage::Admitted) && action == AcceptAction::TakePermit,
            },
            AcceptEvent::Permit(granted) => if granted {
                next == self.at(Stage::Permitted) && action == AcceptAction::Pick
            } else {
                next == self.at(Stage::Waiting) && action == (AcceptAction::Shed {
                    respond: self.plain_http,
                })
            },
            AcceptEvent::Picked(pick) => {
                &&& next == self.at(Stage::Waiting)
                &&& action == match pick {
                    Some(i) => if i < self.addresses {
                        AcceptAction::Serve(i)
                    } else {
                        AcceptAction::Skip
                    },
                    None => AcceptAction::Skip,
                }
            },
        }
    }

    /// Answers an event.
    pub fn step(&mut self, event: AcceptEvent) -> (action: AcceptAction)
        requires
            old(self).expects(event),
        ensures
            old(self).moves(event, *final(self), action),
    {
        match event {
            AcceptEvent::Cancelled => {
                self.stage = Stage::Stopped;
                AcceptAction::Stop
            },
            AcceptEvent::Accepted => {
                self.backoff_ms = 0;
                self.stage = Stage::Accepted;
                AcceptAction::CheckCancel
            },
            AcceptEvent::Failed(kind) => match kind {
                AcceptErrorKind::Fatal => {
                    self.stage = Stage::Stopped;
                    AcceptAction::Fail
                },
                AcceptErrorKind::EmfileOrEnfile | AcceptErrorKind::ConnReset => {
                    self.backoff_ms = next_accept_backoff(self.backoff_ms);
                    AcceptAction::Sleep(self.backoff_ms)
                },
            },
            AcceptEvent::TailCheck(cancelled) => if cancelled {
                self.stage = Stage::Stopped;
                AcceptAction::CloseAndStop
            } else {
                self.stage = Stage::Checked;
                AcceptAction::Admit
            },
            AcceptEvent::Admission(refusal) => match refusal {
                Some(why) => {
                    self.stage = Stage::Waiting;
                    AcceptAction::Reject(why)
                },
                None => {
                    self.stage = Stage::Admitted;
                    AcceptAction::TakePermit
                },
            },
            AcceptEvent::Permit(granted) => if granted {
                self.stage = Stage::Permitted;
                AcceptAction::Pick
            } else {
                self.stage = Stage::Waiting;
                AcceptAction::Shed { respond: self.plain_http }
            },
            AcceptEvent::Picked(pick) => {
                self.stage = Stage::Waiting;
                match pick {
                    Some(i) => if i < self.addresses {
                        AcceptAction::Serve(i)
                    } else {
                        AcceptAction::Skip
                    },
                    None => AcceptAction::Skip,
                }
            },
        }
    }
}

/// A run of the loop: states, the events between them, and the answers.
pub open spec fn is_run(states: Seq<AcceptLoop>, events: Seq<AcceptEvent>, actions: Seq<AcceptAction>) -> bool {
    &&& states.len() == events.len() + 1
    &&& actions.len() == events.len()
    &&& states[0].stage == Stage::Waiting
    &&& forall|i: int|
        0 <= i < events.len() ==> #[trigger] states[i].expects(events[i]) && states[i].moves(
            events[i],
            states[i + 1],
            actions[i],
        )
}

/// A connection is served only after it came in, the listener was found not
/// cancelled, it was admitted and a slot was taken, in this order and
/// with nothing in between.
pub proof fn law_served_only_when_admitted(
    states: Seq<AcceptLoop>,
    events: Seq<AcceptEvent>,
    actions: Seq<AcceptAction>,
    i: int,
)
    requires
        is_run(states, events, actions),
        0 <= i < actions.len(),
        actions[i] is Serve,
    ensures
        i >= 4,
        events[i - 4] == AcceptEvent::Accepted,
        events[i - 3] == AcceptEvent::TailCheck(false),
        events[i - 2] == AcceptEvent::Admission(None),
        events[i - 1] == AcceptEvent::Permit(true),
        events[i] == AcceptEvent::Picked(Some(actions[i]->Serve_0)),
        actions[i]->Serve_0 < states[i].addresses,
{
    assert(states[i].expects(events[i]));
    assert(states[i].stage == Stage::Permitted);
    assert(i > 0);
    assert(states[i - 1].expects(events[i - 1]));
    assert(i > 1);
    assert(states[i - 2].expects(events[i - 2]));
    assert(i > 2);
    assert(states[i - 3].expects(events[i - 3]));
    assert(i > 3);
    assert(states[i - 4].expects(events[i - 4]));
}

/// Nothing follows the end: a run goes on only from a loop that has not
/// stopped.
pub proof fn law_nothing_after_the_end(
    states: Seq<AcceptLoop>,
    events: Seq<AcceptEvent>,
    actions: Seq<AcceptAction>,
    i: int,
)
    requires
        is_run(states, events, actions),
        0 <= i < actions.len(),
        actions[i] is Stop || actions[i] is Fail || actions[i] is CloseAndStop,
    ensures
        i == actions.len() - 1,
{
    assert(states[i].expects(events[i]));
    if i + 1 < actions.len() {
        assert(states[i + 1].expects(events[i + 1]));
    }
}

/// The response to a connection that plain HTTP has no slot for.
pub const SHED_RESPONSE: &'static str =
    "HTTP/1.1 503 Service Unavailable\r\ncontent-type: text/plain; charset=utf-8\r\ncontent-length: 23\r\nconnection: close\r\n\r\nlistener over capacity\n";

// ---------------------------------------------------------------------------
// One connection
// ---------------------------------------------------------------------------

/// How the bytes of a connection are handled.
#[derive(Debug, Clone, Copy, PartialEq, Eq, Structural)]
pub enum ServePath {
    /// Copied to and from the backend.
    Raw,
    /// By the HTTP/1.1 proxy.
    H1,
    /// By the HTTP/2 proxy.
    H2,
}

/// How a connection is handled, by what the listener is set up as and what the
/// handshake agreed on: HTTPS falls back to HTTP/1.1.
pub open spec fn path_of(mode: ListenerMode, alpn: Option<Seq<u8>>) -> ServePath {
    match mode {
        ListenerMode::PlainTcp | ListenerMode::Tls => ServePath::Raw,
        ListenerMode::H1 { .. } => ServePath::H1,
        ListenerMode::H1s { .. } => if alpn == Some(seq![104u8, 50u8]) {
            ServePath::H2
        } else {
            ServePath::H1
        },
    }
}

/// How a connection is handled.
pub fn serve_path(mode: &ListenerMode, alpn: &Option<Vec<u8>>) -> (r: ServePath)
    ensures
        r == path_of(
            *mode,
            match *alpn {
                Some(p) => Some(p@),
                None => None,
            },
        ),
{
    match mode {
        ListenerMode::PlainTcp => ServePath::Raw,
        ListenerMode::Tls => ServePath::Raw,
        ListenerMode::H1 { .. } => ServePath::H1,
        ListenerMode::H1s { .. } => match alpn {
            Some(p) => {
                if p.len() == 2 && p[0] == 104 && p[1] == 50 {
                    assert(p@ =~= seq![104u8, 50u8]);
                    ServePath::H2
                } else {
                    ServePath::H1
                }
            },
            None => ServePath::H1,
        },
    }
}

impl ServePath {
    /// The version label of the request metrics; a raw connection has none.
    pub fn http_version(self) -> (r: Option<&'static str>)
        ensures
            match self {
                ServePath::Raw => r is None,
                ServePath::H1 => r matches Some(v) && v@ == "h1"@,
                ServePath::H2 => r matches Some(v) && v@ == "h2"@,
            },
    {
        match self {
            ServePath::Raw => None,
            ServePath::H1 => Some("h1"),
            ServePath::H2 => Some("h2"),
        }
    }
}

/// The status label of the request metrics.
pub fn status_class(succeeded: bool) -> (r: &'static str)
    ensures
        r@ == if succeeded {
            "2xx"@
        } else {
            "5xx"@
        },
{
    if succeeded {
        "2xx"
    } else {
        "5xx"
    }
}

/// How long a connection may still run after shutdown began, in milliseconds:
/// a draw from all times below the ceiling, none if the ceiling is zero. Which
/// time comes up is left to chance; `drain_jitter_with` says what becomes of
/// each draw.
pub fn drain_jitter(ceiling_ms: u64) -> (ms: u64)
    ensures
        ceiling_ms == 0 ==> ms == 0,
        ceiling_ms > 0 ==> ms < ceiling_ms,
{
    let draw: u64 = if ceiling_ms == 0 {
        0
    } else {
        random_range(0, ceiling_ms - 1)
    };
    drain_jitter_with(ceiling_ms, draw)
}

/// How long a connection may still run for a draw below the ceiling: as long
/// as the draw says. Without a ceiling no draw counts.
pub fn drain_jitter_with(ceiling_ms: u64, draw: u64) -> (ms: u64)
    requires
        ceiling_ms > 0 ==> draw < ceiling_ms,
    ensures
        ms == if ceiling_ms == 0 {
            0
        } else {
            draw
        },
{
    if ceiling_ms == 0 {
        0
    } else {
        draw
    }
}

/// What became of the dial to a backend.
#[derive(Debug, Clone, Copy, PartialEq, Eq, Structural)]
pub enum Dial {
    Connected,
    Refused,
    TimedOut,
}

/// What a failed dial counts as and says.
#[derive(Debug)]
pub struct DialFailure {
    pub counter: &'static str,
    pub help: &'static str,
    pub message: String,
}

/// What a dial counts as and says when it failed.
pub fn dial_failure(dial: Dial, connect_timeout_ms: u64, backend: &str) -> (r: Option<DialFailure>)
    ensures
        match dial {
            Dial::Connected => r is None,
            Dial::Refused => {
                &&& r matches Some(f)
                &&& f.counter@ == "pool_probe_failures_total"@
                &&& f.help@ == "TcpPool probe failures"@
                &&& f.message@ == "cannot connect to backend "@ + backend@
            },
            Dial::TimedOut => {
                &&& r matches Some(f)
                &&& f.counter@ == "backend_connect_timeout_total"@
                &&& f.help@ == "Backend TcpStream::connect timeouts"@
                &&& f.message@ == "backend connect timeout ("@ + decimal(connect_timeout_ms as nat)
                    + "ms) for "@ + backend@
            },
        },
{
    match dial {
        Dial::Connected => None,
        Dial::Refused => {
            let mut message: String = "cannot connect to backend ".to_owned();
            message.append(backend);
            Some(
                DialFailure {
                    counter: "pool_probe_failures_total",
                    help: "TcpPool probe failures",
                    message,
                },
            )
        },
        Dial::TimedOut => {
            let mut message: String = "backend connect timeout (".to_owned();
            push_decimal(&mut message, connect_timeout_ms);
            message.append("ms) for ");
            message.append(backend);
            Some(
                DialFailure {
                    counter: "backend_connect_timeout_total",
                    help: "Backend TcpStream::connect timeouts",
                    message,
                },
            )
        },
    }
}

// ---------------------------------------------------------------------------
// Laws
// ---------------------------------------------------------------------------

/// Which errors of an accept mean what: descriptors run out with the errors 23
/// and 24, of any kind; an error of no particular kind ends the loop, and every
/// other one only concerns its connection. Each has a label of its own.
pub proof fn law_error_kinds(errno: Option<i32>, kind: IoKind, r: AcceptErrorKind, label: &'static str)
    requires
        call_ensures(classify_accept_error, (errno, kind), r),
        call_ensures(AcceptErrorKind::as_label, (r,), label),
    ensures
        errno == Some(23i32) || errno == Some(24i32) ==> label@ == "fd_exhausted"@ && r
            == AcceptErrorKind::EmfileOrEnfile,
        errno != Some(23i32) && errno != Some(24i32) && kind == IoKind::Other ==> label@ == "fatal"@ && r
            == AcceptErrorKind::Fatal,
        errno != Some(23i32) && errno != Some(24i32) && kind != IoKind::Other ==> label@
            == "conn_reset"@ && r == AcceptErrorKind::ConnReset,
{
}

/// How long one pause is, whatever is drawn: the first is ten milliseconds, a
/// later one twice the one before, at most a second; each up to a quarter more
/// or less. Two pauses differ by as much as their draws do.
pub proof fn law_pauses_double(
    prev: u64,
    ms: u64,
    first: u64,
    second: u64,
    a: u64,
    b: u64,
)
    requires
        call_ensures(next_accept_backoff, (prev,), ms),
        call_ensures(backoff_with, (prev, first), a),
        call_ensures(backoff_with, (prev, second), b),
    ensures
        prev == 0 ==> 8 <= ms <= 12 && a == 8 + first,
        0 < prev <= 500 ==> 3 * prev <= 2 * ms <= 5 * prev && a == 2 * prev - prev / 2 + first,
        500 < prev ==> 750 <= ms <= 1_250 && a == 750 + first,
        a - b == first - second,
{
    if 0 < prev <= 500 {
        assert((2 * prev) / 4 == prev / 2);
    }
}

/// What one event brings about in the accept loop, and only it: what each action
/// comes from, where the loop then stands, and how long it pauses.
pub proof fn law_one_accept_step(s: &mut AcceptLoop, event: AcceptEvent, action: AcceptAction)
    requires
        old(s).expects(event),
        call_ensures(AcceptLoop::step, (s, event), action),
    ensures
        final(s).plain_http == old(s).plain_http,
        final(s).addresses == old(s).addresses,
        event == AcceptEvent::Accepted ==> final(s).backoff_ms == 0,
        !(event is Accepted) && !(event is Failed) ==> final(s).backoff_ms == old(s).backoff_ms,
        action is CheckCancel <==> event is Accepted,
        action is Fail <==> event == AcceptEvent::Failed(AcceptErrorKind::Fatal),
        action is Stop <==> event is Cancelled,
        action is CloseAndStop <==> event == AcceptEvent::TailCheck(true),
        action is Admit <==> event == AcceptEvent::TailCheck(false),
        action is TakePermit <==> event == AcceptEvent::Admission(None),
        action is Pick <==> event == AcceptEvent::Permit(true),
        action is Shed <==> event == AcceptEvent::Permit(false),
        action is Shed ==> action == (AcceptAction::Shed { respond: old(s).plain_http }),
        action matches AcceptAction::Reject(why) ==> event == AcceptEvent::Admission(Some(why)),
        event matches AcceptEvent::Admission(Some(why)) ==> action == AcceptAction::Reject(why),
        action matches AcceptAction::Serve(i) ==> event == AcceptEvent::Picked(Some(i)) && i < old(s).addresses,
        event matches AcceptEvent::Picked(Some(i)) ==> (i < old(s).addresses ==> action
            == AcceptAction::Serve(i)),
        action is Skip <==> event is Picked && !(action is Serve),
        action matches AcceptAction::Sleep(ms) ==> {
            &&& event is Failed
            &&& event != AcceptEvent::Failed(AcceptErrorKind::Fatal)
            &&& ms == final(s).backoff_ms
            &&& final(s).stage == old(s).stage
            &&& old(s).backoff_ms == 0 ==> 8 <= ms <= 12
            &&& 0 < old(s).backoff_ms <= 500 ==> 3 * old(s).backoff_ms <= 2 * ms <= 5 * old(
                s,
            ).backoff_ms
            &&& 500 < old(s).backoff_ms ==> 750 <= ms <= 1_250
        },
        event is Failed ==> action is Sleep || action is Fail,
        final(s).stage == Stage::Stopped <==> action is Stop || action is Fail || action is CloseAndStop,
        final(s).stage == Stage::Accepted <==> action is CheckCancel,
        final(s).stage == Stage::Checked <==> action is Admit,
        final(s).stage == Stage::Admitted <==> action is TakePermit,
        final(s).stage == Stage::Permitted <==> action is Pick,
{
}

/// A loop starts out waiting, with no pause behind it.
pub proof fn law_new_loop(plain_http: bool, addresses: usize, r: AcceptLoop)
    requires
        call_ensures(AcceptLoop::new, (plain_http, addresses), r),
    ensures
        r.stage == Stage::Waiting,
        r.backoff_ms == 0,
        r.plain_http == plain_http,
        r.addresses == addresses,
{
}

/// How the bytes of a connection are handled: HTTP only by an HTTP front, and
/// HTTP/2 exactly by one behind TLS whose client chose `h2`. A request counts
/// under the version it was handled by.
pub proof fn law_connection_is_handled(
    mode: ListenerMode,
    alpn: Option<Vec<u8>>,
    r: ServePath,
    version: Option<&'static str>,
)
    requires
        call_ensures(serve_path, (&mode, &alpn), r),
        call_ensures(ServePath::http_version, (r,), version),
    ensures
        r == ServePath::Raw <==> mode is PlainTcp || mode is Tls,
        r == ServePath::H2 <==> mode is H1s && alpn is Some && alpn->0@.len() == 2 && alpn->0@[0]
            == 0x68u8 && alpn->0@[1] == 0x32u8,
        version is Some <==> mode is H1 || mode is H1s,
        version matches Some(v) ==> v@ == if r == ServePath::H2 {
            "h2"@
        } else {
            "h1"@
        },
{
    if alpn is Some {
        if alpn->0@.len() == 2 && alpn->0@[0] == 0x68u8 && alpn->0@[1] == 0x32u8 {
            assert(alpn->0@ =~= seq![104u8, 50u8]);
        }
    }
}

/// The spread of ends during a drain: the draw itself, and nothing without a
/// ceiling.
pub proof fn law_jitter_is_the_draw(ceiling_ms: u64, draw: u64, ms: u64)
    requires
        call_ensures(drain_jitter_with, (ceiling_ms, draw), ms),
    ensures
        ceiling_ms > 0 ==> ms == draw,
        ceiling_ms == 0 ==> ms == 0,
{
}

/// A dial that fails is counted under what went wrong, and its message names the
/// backend; one that succeeds is no failure.
pub proof fn law_failed_dial(
    dial: Dial,
    connect_timeout_ms: u64,
    backend: &str,
    r: Option<DialFailure>,
)
    requires
        call_ensures(dial_failure, (dial, connect_timeout_ms, backend), r),
    ensures
        r is Some <==> dial != Dial::Connected,
        dial == Dial::Refused ==> r->0.counter@ == "pool_probe_failures_total"@ && r->0.message@
            == "cannot connect to backend "@ + backend@,
        dial == Dial::TimedOut ==> r->0.counter@ == "backend_connect_timeout_total"@
            && r->0.message@ == "backend connect timeout ("@ + decimal(connect_timeout_ms as nat)
            + "ms) for "@ + backend@,
{
}

} // verus!
