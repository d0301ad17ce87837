//! Start and end of the process: settings, which listeners are started, what
//! a signal does, and how the process drains.

use vstd::prelude::*;
use crate::gateway::config::{ListenerConfig, RuntimeConfig};
use crate::net::IpAddr;
use crate::text::{same, texts};

verus! {

// ---------------------------------------------------------------------------
// Settings
// ---------------------------------------------------------------------------

/// The file that is read when none is named.
pub const DEFAULT_CONFIG_PATH: &'static str = "config/default.toml";

/// The configuration file: the first argument, or the default.
pub fn config_path(argument: Option<String>) -> (path: String)
    ensures
        path@ == match argument {
            Some(p) => p@,
            None => DEFAULT_CONFIG_PATH@,
        },
{
    match argument {
        Some(p) => p,
        None => DEFAULT_CONFIG_PATH.to_owned(),
    }
}

/// Process-wide settings with their defaults. Times are in milliseconds.
#[derive(Debug, Clone, Copy, PartialEq, Eq, Structural)]
pub struct Settings {
    pub handshake_timeout_ms: u64,
    pub max_inflight: u32,
    pub connect_timeout_ms: u64,
    pub max_keepalive_requests: u32,
    pub max_requests_per_h3_connection: u32,
    pub per_ip_cap: u32,
}

/// The process-wide settings.
pub fn settings(runtime: &Option<RuntimeConfig>) -> (r: Settings)
    ensures
        r == match *runtime {
            Some(c) => (Settings {
                handshake_timeout_ms: c.handshake_timeout_ms,
                max_inflight: c.max_inflight_connections,
                connect_timeout_ms: c.connect_timeout_ms,
                max_keepalive_requests: c.max_keepalive_requests,
                max_requests_per_h3_connection: c.max_requests_per_h3_connection,
                per_ip_cap: c.per_ip_connection_cap,
            }),
            None => (Settings {
                handshake_timeout_ms: 5_000,
                max_inflight: 65_536,
                connect_timeout_ms: 5_000,
                max_keepalive_requests: 100,
                max_requests_per_h3_connection: 1_000,
                per_ip_cap: 1_024,
            }),
        },
{
    match runtime {
        Some(c) => Settings {
            handshake_timeout_ms: c.handshake_timeout_ms,
            max_inflight: c.max_inflight_connections,
            connect_timeout_ms: c.connect_timeout_ms,
            max_keepalive_requests: c.max_keepalive_requests,
            max_requests_per_h3_connection: c.max_requests_per_h3_connection,
            per_ip_cap: c.per_ip_connection_cap,
        },
        None => Settings {
            handshake_timeout_ms: 5_000,
            max_inflight: 65_536,
            connect_timeout_ms: 5_000,
            max_keepalive_requests: 100,
            max_requests_per_h3_connection: 1_000,
            per_ip_cap: 1_024,
        },
    }
}

/// How strictly requests with two framings are refused.
#[derive(Debug, Clone, Copy, PartialEq, Eq, Structural)]
pub enum SmuggleMode {
    H1,
    H1Strict,
}

/// The strictness, by the setting if there is one.
pub fn smuggle_mode(strict_te: Option<bool>) -> (r: SmuggleMode)
    ensures
        r == if strict_te == Some(true) {
            SmuggleMode::H1Strict
        } else {
            SmuggleMode::H1
        },
{
    match strict_te {
        Some(true) => SmuggleMode::H1Strict,
        Some(false) => SmuggleMode::H1,
        None => SmuggleMode::H1,
    }
}

/// Why the admin listener may not be bound.
#[derive(Debug, Clone, Copy, PartialEq, Eq, Structural)]
pub enum AdminBindError {
    /// The address is not a loopback one, and nothing says that it may be.
    NonLoopbackWithoutOverride,
    /// The address is public, and no token guards it.
    PublicBindWithoutToken,
}

/// Whether an address is only reachable from the machine itself.
pub open spec fn is_loopback(ip: IpAddr) -> bool {
    match ip {
        IpAddr::V4(o) => o@[0] == 127,
        IpAddr::V6(g) => g@[7] == 1 && forall|i: int| 0 <= i < 7 ==> #[trigger] g@[i] == 0,
    }
}

fn loopback(ip: &IpAddr) -> (r: bool)
    ensures
        r == is_loopback(*ip),
{
    match ip {
        IpAddr::V4(o) => o[0] == 127,
        IpAddr::V6(g) => {
            if g[7] != 1 {
                return false;
            }
            let mut i: usize = 0;
            while i < 7
                invariant
                    i <= 7,
                    *ip == IpAddr::V6(*g),
                    forall|j: int| 0 <= j < i ==> #[trigger] g@[j] == 0,
                decreases 7 - i,
            {
                if g[i] != 0 {
                    return false;
                }
                i += 1;
            }
            true
        },
    }
}

/// Whether the admin listener may be bound: on a loopback address always, on
/// another one only if that is allowed and a token guards it.
pub fn validate_bind(ip: &IpAddr, allow_non_loopback: bool, has_token: bool) -> (r: Result<
    (),
    AdminBindError,
>)
    ensures
        r == if is_loopback(*ip) {
            Ok::<(), AdminBindError>(())
        } else if !allow_non_loopback {
            Err(AdminBindError::NonLoopbackWithoutOverride)
        } else if !has_token {
            Err(AdminBindError::PublicBindWithoutToken)
        } else {
            Ok(())
        },
{
    if loopback(ip) {
        Ok(())
    } else if !allow_non_loopback {
        Err(AdminBindError::NonLoopbackWithoutOverride)
    } else if !has_token {
        Err(AdminBindError::PublicBindWithoutToken)
    } else {
        Ok(())
    }
}

// ---------------------------------------------------------------------------
// Listeners
// ---------------------------------------------------------------------------

/// The largest number of backends of a listener.
pub open spec fn most_backends(listeners: Seq<ListenerConfig>) -> nat
    decreases listeners.len(),
{
    if listeners.len() == 0 {
        0
    } else {
        let before = most_backends(listeners.drop_last());
        let last = listeners.last().backends@.len();
        if last > before {
            last
        } else {
            before
        }
    }
}

/// What the label budget is computed from: the number of listeners and the
/// largest number of backends of one.
pub fn config_shape(listeners: &Vec<ListenerConfig>) -> (r: (usize, usize))
    ensures
        r.0 == listeners@.len(),
        r.1 == most_backends(listeners@),
{
    let mut most: usize = 0;
    let mut i: usize = 0;
    while i < listeners.len()
        invariant
            i <= listeners@.len(),
            most == most_backends(listeners@.take(i as int)),
        decreases listeners@.len() - i,
    {
        assert(listeners@.take(i + 1).drop_last() =~= listeners@.take(i as int));
        let n: usize = listeners[i].backends.len();
        if n > most {
            most = n;
        }
        i += 1;
    }
    assert(listeners@.take(i as int) =~= listeners@);
    (listeners.len(), most)
}

/// Failures in a row that make a backend unhealthy.
pub const UNHEALTHY_AFTER: u32 = 3;

/// Successes in a row that make it healthy again.
pub const HEALTHY_AFTER: u32 = 2;

/// The backend addresses of all listeners, in order.
pub open spec fn backend_addresses(listeners: Seq<ListenerConfig>) -> Seq<Seq<char>>
    decreases listeners.len(),
{
    if listeners.len() == 0 {
        Seq::empty()
    } else {
        backend_addresses(listeners.drop_last()) + Seq::new(
            listeners.last().backends@.len(),
            |i: int| listeners.last().backends@[i].address@,
        )
    }
}

/// The backend addresses that get a health record, one for each mention.
pub fn health_seed(listeners: &Vec<ListenerConfig>) -> (out: Vec<String>)
    ensures
        texts(out@) == backend_addresses(listeners@),
{
    let mut out: Vec<String> = Vec::new();
    let mut i: usize = 0;
    assert(texts(out@) =~= backend_addresses(listeners@.take(0)));
    while i < listeners.len()
        invariant
            i <= listeners@.len(),
            texts(out@) == backend_addresses(listeners@.take(i as int)),
        decreases listeners@.len() - i,
    {
        let ghost before = backend_addresses(listeners@.take(i as int));
        let ghost own = Seq::new(
            listeners@[i as int].backends@.len(),
            |j: int| listeners@[i as int].backends@[j].address@,
        );
        let backends = &listeners[i].backends;
        let mut k: usize = 0;
        while k < backends.len()
            invariant
                k <= backends@.len(),
                own == Seq::new(backends@.len(), |j: int| backends@[j].address@),
                texts(out@) =~= before + own.take(k as int),
            decreases backends@.len() - k,
        {
            let ghost prev = texts(out@);
            out.push(backends[k].address.clone());
            assert(texts(out@) =~= prev.push(own[k as int]));
            assert(before + own.take(k + 1) =~= (before + own.take(k as int)).push(own[k as int]));
            k += 1;
        }
        assert(own.take(k as int) =~= own);
        assert(listeners@.take(i + 1).drop_last() =~= listeners@.take(i as int));
        assert(listeners@.take(i + 1).last() == listeners@[i as int]);
        assert(own =~= Seq::new(
            listeners@.take(i + 1).last().backends@.len(),
            |j: int| listeners@.take(i + 1).last().backends@[j].address@,
        ));
        i += 1;
    }
    assert(listeners@.take(i as int) =~= listeners@);
    out
}

/// How a listener is started.
#[derive(Debug, Clone, Copy, PartialEq, Eq, Structural)]
pub enum Start {
    /// Over UDP.
    Quic,
    /// Over TCP.
    Tcp,
    /// Not at all: it has nothing to forward to.
    Skip,
}

/// How a listener is started. Only QUIC may come without backends.
pub fn start_of(listener: &ListenerConfig) -> (r: Start)
    ensures
        r == if listener.protocol@ == "quic"@ {
            Start::Quic
        } else if listener.backends@.len() == 0 {
            Start::Skip
        } else {
            Start::Tcp
        },
{
    if same(&listener.protocol, "quic") {
        Start::Quic
    } else if listener.backends.len() == 0 {
        Start::Skip
    } else {
        Start::Tcp
    }
}

/// The message of a process that has nothing to do.
pub const NO_LISTENERS: &'static str = "no listeners started \u{2014} check your configuration";

/// Whether the process may go on with what was started.
pub fn any_started(tcp: usize, quic: usize, passthrough: usize) -> (r: bool)
    ensures
        r == (tcp + quic + passthrough > 0),
{
    tcp > 0 || quic > 0 || passthrough > 0
}

// ---------------------------------------------------------------------------
// Signals
// ---------------------------------------------------------------------------

/// A signal that the process handles.
#[derive(Debug, Clone, Copy, PartialEq, Eq, Structural)]
pub enum LifecycleSignal {
    SigTerm,
    SigInt,
    SigUsr1,
    SigHup,
}

impl LifecycleSignal {
    /// The name of the signal.
    pub fn to_string(&self) -> (r: String)
        ensures
            r@ == match *self {
                LifecycleSignal::SigTerm => "SIGTERM"@,
                LifecycleSignal::SigInt => "SIGINT"@,
                LifecycleSignal::SigUsr1 => "SIGUSR1"@,
                LifecycleSignal::SigHup => "SIGHUP"@,
            },
    {
        match self {
            LifecycleSignal::SigTerm => "SIGTERM".to_owned(),
            LifecycleSignal::SigInt => "SIGINT".to_owned(),
            LifecycleSignal::SigUsr1 => "SIGUSR1".to_owned(),
            LifecycleSignal::SigHup => "SIGHUP".to_owned(),
        }
    }
}

/// What a signal makes the process do.
#[derive(Debug, Clone, Copy, PartialEq, Eq, Structural)]
pub enum SignalAction {
    /// Nothing; it waits for the next signal.
    Ignore,
    /// Reloads the certificates, then waits.
    ReloadCertificates,
    /// Reloads the configuration, then waits.
    ReloadConfiguration,
    /// Drains and ends.
    Drain,
}

/// What a signal makes the process do, given how many listeners hold a
/// certificate.
pub fn on_signal(signal: LifecycleSignal, tls_listeners: usize) -> (r: SignalAction)
    ensures
        r == match signal {
            LifecycleSignal::SigTerm | LifecycleSignal::SigInt => SignalAction::Drain,
            LifecycleSignal::SigHup => SignalAction::ReloadConfiguration,
            LifecycleSignal::SigUsr1 => if tls_listeners == 0 {
                SignalAction::Ignore
            } else {
                SignalAction::ReloadCertificates
            },
        },
{
    match signal {
        LifecycleSignal::SigTerm => SignalAction::Drain,
        LifecycleSignal::SigInt => SignalAction::Drain,
        LifecycleSignal::SigHup => SignalAction::ReloadConfiguration,
        LifecycleSignal::SigUsr1 => if tls_listeners == 0 {
            SignalAction::Ignore
        } else {
            SignalAction::ReloadCertificates
        },
    }
}

// ---------------------------------------------------------------------------
// Drain
// ---------------------------------------------------------------------------

/// The time that connections get to finish, by default.
pub const DEFAULT_DRAIN_MS: u64 = 10_000;

/// The time that load balancers get to notice, by default.
pub const DEFAULT_SETTLE_MS: u64 = 11_000;

/// The time that accept loops get to end.
pub const LISTENER_CANCEL_MS: u64 = 500;

/// The time that a QUIC listener gets to end.
pub const QUIC_DRAIN_MS: u64 = 2_000;

/// The drain of one scope: how long it may take and how far ends are spread,
/// in milliseconds.
#[derive(Debug, Clone, Copy, PartialEq, Eq, Structural)]
pub struct DrainBudget {
    pub timeout_ms: u64,
    pub jitter_ms: u64,
}

/// The budget that covers two.
pub open spec fn wider(a: DrainBudget, b: DrainBudget) -> DrainBudget {
    DrainBudget {
        timeout_ms: if b.timeout_ms > a.timeout_ms {
            b.timeout_ms
        } else {
            a.timeout_ms
        },
        jitter_ms: if b.jitter_ms > a.jitter_ms {
            b.jitter_ms
        } else {
            a.jitter_ms
        },
    }
}

/// The budget that covers a start and all listeners.
pub open spec fn widest(start: DrainBudget, listeners: Seq<DrainBudget>) -> DrainBudget
    decreases listeners.len(),
{
    if listeners.len() == 0 {
        start
    } else {
        wider(widest(start, listeners.drop_last()), listeners.last())
    }
}

/// The budget of the process: the default spreads ends over a quarter of the
/// time.
pub open spec fn process_budget(runtime: Option<DrainBudget>) -> DrainBudget {
    match runtime {
        Some(b) => b,
        None => DrainBudget { timeout_ms: DEFAULT_DRAIN_MS, jitter_ms: 2_500 },
    }
}

/// How the process drains.
#[derive(Debug, Clone, Copy, PartialEq, Eq, Structural)]
pub struct DrainPlan {
    pub readiness_settle_ms: u64,
    pub listener_cancel_ms: u64,
    pub inflight_drain_ms: u64,
    pub jitter_max_ms: u64,
}

/// How the process drains: long enough for every listener.
pub fn drain_plan(
    runtime: &Option<DrainBudget>,
    settle_ms: Option<u64>,
    listeners: &Vec<DrainBudget>,
) -> (r: DrainPlan)
    ensures
        ({
            let budget = widest(process_budget(*runtime), listeners@);
            r == DrainPlan {
                readiness_settle_ms: match settle_ms {
                    Some(ms) => ms,
                    None => DEFAULT_SETTLE_MS,
                },
                listener_cancel_ms: LISTENER_CANCEL_MS,
                inflight_drain_ms: budget.timeout_ms,
                jitter_max_ms: budget.jitter_ms,
            }
        }),
{
    let mut budget = match runtime {
        Some(b) => *b,
        None => DrainBudget { timeout_ms: DEFAULT_DRAIN_MS, jitter_ms: DEFAULT_DRAIN_MS / 4 },
    };
    let mut i: usize = 0;
    let ghost start = budget;
    while i < listeners.len()
        invariant
            i <= listeners@.len(),
            budget == widest(start, listeners@.take(i as int)),
        decreases listeners@.len() - i,
    {
        assert(listeners@.take(i + 1).drop_last() =~= listeners@.take(i as int));
        if listeners[i].timeout_ms > budget.timeout_ms {
            budget.timeout_ms = listeners[i].timeout_ms;
        }
        if listeners[i].jitter_ms > budget.jitter_ms {
            budget.jitter_ms = listeners[i].jitter_ms;
        }
        i += 1;
    }
    assert(listeners@.take(i as int) =~= listeners@);
    DrainPlan {
        readiness_settle_ms: match settle_ms {
            Some(ms) => ms,
            None => DEFAULT_SETTLE_MS,
        },
        listener_cancel_ms: LISTENER_CANCEL_MS,
        inflight_drain_ms: budget.timeout_ms,
        jitter_max_ms: budget.jitter_ms,
    }
}

/// No listener is cut short: the process drains at least as long as its own
/// budget and that of each listener.
pub proof fn law_drain_covers_every_listener(start: DrainBudget, listeners: Seq<DrainBudget>)
    ensures
        widest(start, listeners).timeout_ms >= start.timeout_ms,
        widest(start, listeners).jitter_ms >= start.jitter_ms,
        forall|i: int|
            0 <= i < listeners.len() ==> widest(start, listeners).timeout_ms >= (
            #[trigger] listeners[i]).timeout_ms,
        forall|i: int|
            0 <= i < listeners.len() ==> widest(start, listeners).jitter_ms >= (
            #[trigger] listeners[i]).jitter_ms,
    decreases listeners.len(),
{
    if listeners.len() > 0 {
        law_drain_covers_every_listener(start, listeners.drop_last());
        assert forall|i: int| 0 <= i < listeners.len() implies widest(start, listeners).timeout_ms
            >= (#[trigger] listeners[i]).timeout_ms && widest(start, listeners).jitter_ms
            >= listeners[i].jitter_ms by {
            if i < listeners.len() - 1 {
                assert(listeners.drop_last()[i] == listeners[i]);
            }
        }
    }
}

/// A phase of the drain.
#[derive(Debug, Clone, Copy, PartialEq, Eq, Structural)]
pub enum DrainPhase {
    MarkDraining,
    ReadinessSettle,
    ListenerCancel,
    InFlightDrain,
    XdpDetach,
    Total,
}

/// Whether a phase is timed for each listener.
pub fn is_listener_scoped(phase: DrainPhase) -> (r: bool)
    ensures
        r == (phase == DrainPhase::ListenerCancel || phase == DrainPhase::InFlightDrain),
{
    match phase {
        DrainPhase::ListenerCancel => true,
        DrainPhase::InFlightDrain => true,
        DrainPhase::MarkDraining => false,
        DrainPhase::ReadinessSettle => false,
        DrainPhase::XdpDetach => false,
        DrainPhase::Total => false,
    }
}

/// The series that a phase is timed in, with the listener label if the series
/// has one.
pub fn drain_series(phase: DrainPhase, listener: Option<String>) -> (r: (&'static str, Option<String>))
    ensures
        if phase == DrainPhase::ListenerCancel || phase == DrainPhase::InFlightDrain {
            &&& r.0@ == "shutdown_drain_seconds_listener"@
            &&& r.1 matches Some(label)
            &&& label@ == match listener {
                Some(l) => l@,
                None => "<aggregate>"@,
            }
        } else {
            r.0@ == "shutdown_drain_seconds_global"@ && r.1 is None
        },
{
    if is_listener_scoped(phase) {
        let label = match listener {
            Some(l) => l,
            None => "<aggregate>".to_owned(),
        };
        ("shutdown_drain_seconds_listener", Some(label))
    } else {
        ("shutdown_drain_seconds_global", None)
    }
}

/// A step of the shutdown.
#[derive(Debug, Clone, Copy, PartialEq, Eq, Structural)]
pub enum ShutdownStep {
    /// The readiness probe turns to "not ready", so that nothing new is sent
    /// here.
    TurnReadiness,
    /// Connections get their time to finish.
    Drain,
    /// Accept loops that have not ended are aborted.
    AbortAccepting,
    /// The QUIC listeners end.
    CloseQuic,
    /// The admin listener ends, and with it the probes.
    StopAdmin,
    /// The data plane is detached.
    DetachDataPlane,
    /// Nothing is left to do.
    Ended,
}

impl ShutdownStep {
    /// The step that follows.
    pub open spec fn following(self) -> ShutdownStep {
        match self {
            ShutdownStep::TurnReadiness => ShutdownStep::Drain,
            ShutdownStep::Drain => ShutdownStep::AbortAccepting,
            ShutdownStep::AbortAccepting => ShutdownStep::CloseQuic,
            ShutdownStep::CloseQuic => ShutdownStep::StopAdmin,
            ShutdownStep::StopAdmin => ShutdownStep::DetachDataPlane,
            ShutdownStep::DetachDataPlane => ShutdownStep::Ended,
            ShutdownStep::Ended => ShutdownStep::Ended,
        }
    }

    /// The step that a shutdown starts with.
    pub fn first() -> (r: Self)
        ensures
            r == shutdown_step(0),
    {
        ShutdownStep::TurnReadiness
    }

    /// The step that follows.
    pub fn next(self) -> (r: Self)
        ensures
            r == self.following(),
    {
        match self {
            ShutdownStep::TurnReadiness => ShutdownStep::Drain,
            ShutdownStep::Drain => ShutdownStep::AbortAccepting,
            ShutdownStep::AbortAccepting => ShutdownStep::CloseQuic,
            ShutdownStep::CloseQuic => ShutdownStep::StopAdmin,
            ShutdownStep::StopAdmin => ShutdownStep::DetachDataPlane,
            ShutdownStep::DetachDataPlane => ShutdownStep::Ended,
            ShutdownStep::Ended => ShutdownStep::Ended,
        }
    }
}

/// The step that a shutdown takes at position `i`.
pub open spec fn shutdown_step(i: nat) -> ShutdownStep
    decreases i,
{
    if i == 0 {
        ShutdownStep::TurnReadiness
    } else {
        shutdown_step((i - 1) as nat).following()
    }
}

/// The probes answer "not ready" for the whole of the drain: readiness turns
/// before connections are drained, and the admin listener, which serves the
/// probes, ends only after the drain. The data plane is detached after both.
pub proof fn law_not_ready_during_drain(turn: nat, drain: nat, stop: nat, detach: nat)
    requires
        shutdown_step(turn) == ShutdownStep::TurnReadiness,
        shutdown_step(drain) == ShutdownStep::Drain,
        shutdown_step(stop) == ShutdownStep::StopAdmin,
        shutdown_step(detach) == ShutdownStep::DetachDataPlane,
    ensures
        turn < drain < stop < detach,
{
    lemma_shutdown_step(turn);
    lemma_shutdown_step(drain);
    lemma_shutdown_step(stop);
    lemma_shutdown_step(detach);
}

/// A shutdown ends, and takes no step twice on the way.
pub proof fn law_shutdown_ends(i: nat, j: nat)
    ensures
        i >= 6 ==> shutdown_step(i) == ShutdownStep::Ended,
        shutdown_step(i) == shutdown_step(j) && shutdown_step(i) != ShutdownStep::Ended ==> i == j,
{
    lemma_shutdown_step(i);
    lemma_shutdown_step(j);
}

proof fn lemma_shutdown_step(i: nat)
    ensures
        i == 0 ==> shutdown_step(i) == ShutdownStep::TurnReadiness,
        i == 1 ==> shutdown_step(i) == ShutdownStep::Drain,
        i == 2 ==> shutdown_step(i) == ShutdownStep::AbortAccepting,
        i == 3 ==> shutdown_step(i) == ShutdownStep::CloseQuic,
        i == 4 ==> shutdown_step(i) == ShutdownStep::StopAdmin,
        i == 5 ==> shutdown_step(i) == ShutdownStep::DetachDataPlane,
        i >= 6 ==> shutdown_step(i) == ShutdownStep::Ended,
    decreases i,
{
    if i > 0 {
        lemma_shutdown_step((i - 1) as nat);
    }
}

/// What the end of the drain adds to the counters: connections that were cut,
/// and phases that hit their deadline.
pub fn drain_accounting(timed_out: bool, remaining: u64) -> (r: (u64, u64))
    ensures
        r == if timed_out {
            (remaining, 1u64)
        } else {
            (0u64, 0u64)
        },
{
    if timed_out {
        (remaining, 1)
    } else {
        (0, 0)
    }
}

/// How many accept loops have to be aborted.
pub fn unfinished(finished: &Vec<bool>) -> (n: usize)
    ensures
        n == finished@.filter(|f: bool| !f).len(),
{
    let mut n: usize = 0;
    let mut i: usize = 0;
    proof {
        reveal(Seq::filter);
    }
    while i < finished.len()
        invariant
            i <= finished@.len(),
            n <= i,
            n == finished@.take(i as int).filter(|f: bool| !f).len(),
        decreases finished@.len() - i,
    {
        reveal(Seq::filter);
        assert(finished@.take(i + 1).drop_last() =~= finished@.take(i as int));
        if !finished[i] {
            n += 1;
        }
        i += 1;
    }
    assert(finished@.take(i as int) =~= finished@);
    n
}

// ---------------------------------------------------------------------------
// Panics
// ---------------------------------------------------------------------------

/// The count of panics. Those before the registry exists are kept aside and
/// handed over when it is bound.
#[derive(Debug, Clone, Copy, PartialEq, Eq, Structural)]
pub struct PanicTotals {
    /// What the registry counts, once it is bound.
    pub registry: Option<u64>,
    /// What was counted before.
    pub fallback: u64,
}

impl PanicTotals {
    /// Nothing counted, nothing bound.
    pub fn new() -> (r: Self)
        ensures
            r == (PanicTotals { registry: None, fallback: 0 }),
    {
        PanicTotals { registry: None, fallback: 0 }
    }

    /// All panics so far, at most as many as 64 bits hold.
    pub open spec fn total(self) -> int {
        let sum = self.fallback + match self.registry {
            Some(n) => n as int,
            None => 0,
        };
        if sum > u64::MAX {
            u64::MAX as int
        } else {
            sum
        }
    }

    /// Counts a panic.
    pub fn record(&mut self)
        ensures
            *final(self) == match old(self).registry {
                Some(n) => (PanicTotals { registry: Some(n.wrapping_add(1)), ..*old(self) }),
                None => (PanicTotals { fallback: old(self).fallback.wrapping_add(1), ..*old(self) }),
            },
    {
        match self.registry {
            Some(n) => {
                self.registry = Some(n.wrapping_add(1));
            },
            None => {
                self.fallback = self.fallback.wrapping_add(1);
            },
        }
    }

    /// Binds the registry counter, which stands at `count`, and hands over
    /// what was counted before.
    pub fn bind(&mut self, count: u64)
        ensures
            *final(self) == (PanicTotals {
                registry: Some(count.wrapping_add(old(self).fallback)),
                fallback: 0,
            }),
    {
        self.registry = Some(count.wrapping_add(self.fallback));
        self.fallback = 0;
    }

    /// All panics so far.
    pub fn panic_total(&self) -> (n: u64)
        ensures
            n == self.total(),
    {
        let counted: u64 = match self.registry {
            Some(n) => n,
            None => 0,
        };
        counted.saturating_add(self.fallback)
    }
}

/// Binding the registry loses no panic and counts none twice.
pub proof fn law_bind_keeps_total(before: PanicTotals, count: u64)
    requires
        before.registry is None,
        count + before.fallback <= u64::MAX,
    ensures
        (PanicTotals { registry: Some(count.wrapping_add(before.fallback)), fallback: 0 }).total()
            == count + before.total(),
{
}

// ---------------------------------------------------------------------------
// Laws
// ---------------------------------------------------------------------------

/// The configuration is read from the path that was given, and without one from
/// `config/default.toml`.
pub proof fn law_config_path(argument: Option<String>, path: String)
    requires
        call_ensures(config_path, (argument,), path),
    ensures
        argument matches Some(p) ==> path@ == p@,
        argument is None ==> path@ == "config/default.toml"@,
{
}

/// A configured setting is used as it is; without a block of settings the
/// defaults hold.
pub proof fn law_settings(runtime: Option<RuntimeConfig>, r: Settings)
    requires
        call_ensures(settings, (&runtime,), r),
    ensures
        runtime matches Some(c) ==> {
            &&& r.handshake_timeout_ms == c.handshake_timeout_ms
            &&& r.max_inflight == c.max_inflight_connections
            &&& r.connect_timeout_ms == c.connect_timeout_ms
            &&& r.max_keepalive_requests == c.max_keepalive_requests
            &&& r.max_requests_per_h3_connection == c.max_requests_per_h3_connection
            &&& r.per_ip_cap == c.per_ip_connection_cap
        },
        runtime is None ==> r.handshake_timeout_ms == 5_000 && r.max_inflight == 65_536
            && r.connect_timeout_ms == 5_000 && r.max_keepalive_requests == 100
            && r.max_requests_per_h3_connection == 1_000 && r.per_ip_cap == 1_024,
{
}

/// Which address the admin endpoint may be bound to: any of `127.0.0.0/8` and
/// `::1` in any case, and another one exactly with both the override and a
/// token. The missing override is reported first.
pub proof fn law_admin_bind(
    ip: IpAddr,
    allow_non_loopback: bool,
    has_token: bool,
    r: Result<(), AdminBindError>,
)
    requires
        call_ensures(validate_bind, (&ip, allow_non_loopback, has_token), r),
    ensures
        ({
            let own = match ip {
                IpAddr::V4(o) => o@[0] == 127,
                IpAddr::V6(g) => g@[0] == 0 && g@[1] == 0 && g@[2] == 0 && g@[3] == 0 && g@[4] == 0
                    && g@[5] == 0 && g@[6] == 0 && g@[7] == 1,
            };
            &&& r is Ok <==> own || (allow_non_loopback && has_token)
            &&& !own && !allow_non_loopback ==> r == Err::<(), AdminBindError>(
                AdminBindError::NonLoopbackWithoutOverride,
            )
            &&& !own && allow_non_loopback && !has_token ==> r == Err::<(), AdminBindError>(
                AdminBindError::PublicBindWithoutToken,
            )
        }),
{
    match ip {
        IpAddr::V4(o) => {},
        IpAddr::V6(g) => {
            if g@[0] == 0 && g@[1] == 0 && g@[2] == 0 && g@[3] == 0 && g@[4] == 0 && g@[5] == 0
                && g@[6] == 0 && g@[7] == 1 {
                assert forall|i: int| 0 <= i < 7 implies #[trigger] g@[i] == 0 by {
                    assert(i == 0 || i == 1 || i == 2 || i == 3 || i == 4 || i == 5 || i == 6);
                }
                assert(is_loopback(ip));
            }
        },
    }
}

/// The shape of a configuration: the number of listeners, and the largest number
/// of backends that one of them has.
pub proof fn law_shape(listeners: Vec<ListenerConfig>, r: (usize, usize))
    requires
        call_ensures(config_shape, (&listeners,), r),
    ensures
        r.0 == listeners@.len(),
        forall|i: int| 0 <= i < listeners@.len() ==> r.1 >= (#[trigger] listeners@[i]).backends@.len(),
        r.1 > 0 ==> exists|i: int|
            0 <= i < listeners@.len() && r.1 == (#[trigger] listeners@[i]).backends@.len(),
{
    lemma_most_backends(listeners@);
}

proof fn lemma_most_backends(listeners: Seq<ListenerConfig>)
    ensures
        forall|i: int|
            0 <= i < listeners.len() ==> most_backends(listeners) >= (
            #[trigger] listeners[i]).backends@.len(),
        most_backends(listeners) > 0 ==> exists|i: int|
            0 <= i < listeners.len() && most_backends(listeners) == (
            #[trigger] listeners[i]).backends@.len(),
    decreases listeners.len(),
{
    if listeners.len() > 0 {
        let before = listeners.drop_last();
        lemma_most_backends(before);
        assert forall|i: int| 0 <= i < listeners.len() implies most_backends(listeners) >= (
        #[trigger] listeners[i]).backends@.len() by {
            if i < before.len() {
                assert(before[i] == listeners[i]);
            }
        }
        if most_backends(listeners) > 0 {
            if listeners.last().backends@.len() > most_backends(before) {
                assert(most_backends(listeners) == listeners[listeners.len() - 1].backends@.len());
            } else {
                let i = choose|i: int|
                    0 <= i < before.len() && most_backends(before) == (
                    #[trigger] before[i]).backends@.len();
                assert(most_backends(listeners) == listeners[i].backends@.len());
            }
        }
    }
}

/// Whether a text is the address of some backend of a configuration.
pub open spec fn is_backend_of(listeners: Seq<ListenerConfig>, address: Seq<char>) -> bool {
    exists|l: int, b: int|
        0 <= l < listeners.len() && 0 <= b < listeners[l].backends@.len() && (
        #[trigger] listeners[l].backends@[b]).address@ == address
}

/// Whether a list holds a text.
pub open spec fn is_listed(list: Seq<String>, text: Seq<char>) -> bool {
    exists|k: int| 0 <= k < list.len() && (#[trigger] list[k])@ == text
}

/// Health is tracked of every backend of every listener, and of nothing else.
pub proof fn law_every_backend_is_seeded(listeners: Vec<ListenerConfig>, out: Vec<String>)
    requires
        call_ensures(health_seed, (&listeners,), out),
    ensures
        forall|l: int, b: int|
            0 <= l < listeners@.len() && 0 <= b < listeners@[l].backends@.len() ==> is_listed(
                out@,
                (#[trigger] listeners@[l].backends@[b]).address@,
            ),
        forall|k: int| 0 <= k < out@.len() ==> is_backend_of(listeners@, (#[trigger] out@[k])@),
{
    lemma_backend_addresses(listeners@);
    let all = backend_addresses(listeners@);
    assert forall|l: int, b: int|
        0 <= l < listeners@.len() && 0 <= b < listeners@[l].backends@.len() implies is_listed(
        out@,
        (#[trigger] listeners@[l].backends@[b]).address@,
    ) by {
        assert(all.contains(listeners@[l].backends@[b].address@));
        let k = choose|k: int|
            0 <= k < all.len() && all[k] == listeners@[l].backends@[b].address@;
        assert(texts(out@)[k] == out@[k]@);
    }
    assert forall|k: int| 0 <= k < out@.len() implies is_backend_of(
        listeners@,
        (#[trigger] out@[k])@,
    ) by {
        assert(texts(out@)[k] == out@[k]@);
        assert(all.contains(all[k]));
    }
}

proof fn lemma_backend_addresses(listeners: Seq<ListenerConfig>)
    ensures
        forall|l: int, b: int|
            0 <= l < listeners.len() && 0 <= b < listeners[l].backends@.len() ==> backend_addresses(
                listeners,
            ).contains((#[trigger] listeners[l].backends@[b]).address@),
        forall|a: Seq<char>| #[trigger]
            backend_addresses(listeners).contains(a) ==> is_backend_of(listeners, a),
    decreases listeners.len(),
{
    if listeners.len() > 0 {
        let before = listeners.drop_last();
        lemma_backend_addresses(before);
        let head = backend_addresses(before);
        let last = listeners.last().backends@;
        let tail = Seq::new(last.len(), |i: int| last[i].address@);
        let all = backend_addresses(listeners);
        assert(all =~= head + tail);
        assert forall|l: int, b: int|
            0 <= l < listeners.len() && 0 <= b < listeners[l].backends@.len() implies all.contains(
            (#[trigger] listeners[l].backends@[b]).address@,
        ) by {
            if l < before.len() {
                assert(before[l] == listeners[l]);
                let a = before[l].backends@[b].address@;
                assert(head.contains(a));
                let k = choose|k: int| 0 <= k < head.len() && head[k] == a;
                assert(all[k] == a);
            } else {
                assert(all[head.len() + b] == tail[b]);
            }
        }
        assert forall|a: Seq<char>| #[trigger] all.contains(a) implies is_backend_of(listeners, a) by {
            let k = choose|k: int| 0 <= k < all.len() && all[k] == a;
            if k < head.len() {
                assert(head[k] == a);
                assert(head.contains(a));
                let (l, b) = choose|l: int, b: int|
                    0 <= l < before.len() && 0 <= b < before[l].backends@.len() && (
                    #[trigger] before[l].backends@[b]).address@ == a;
                assert(before[l] == listeners[l]);
                assert(listeners[l].backends@[b].address@ == a);
            } else {
                assert(all[k] == tail[k - head.len()]);
                assert(listeners[listeners.len() - 1].backends@[k - head.len()].address@ == a);
            }
        }
    }
}

/// How a listener starts: `quic` in any case, another one exactly when it has
/// backends.
pub proof fn law_listener_starts(listener: ListenerConfig, r: Start)
    requires
        call_ensures(start_of, (&listener,), r),
    ensures
        r == Start::Quic <==> listener.protocol@ == "quic"@,
        r == Start::Tcp <==> listener.protocol@ != "quic"@ && listener.backends@.len() > 0,
        r == Start::Skip <==> listener.protocol@ != "quic"@ && listener.backends@.len() == 0,
{
}

/// What a signal asks for.
pub proof fn law_signals(signal: LifecycleSignal, tls_listeners: usize, r: SignalAction, name: String)
    requires
        call_ensures(on_signal, (signal, tls_listeners), r),
        call_ensures(LifecycleSignal::to_string, (&signal,), name),
    ensures
        name@ == "SIGTERM"@ || name@ == "SIGINT"@ ==> r == SignalAction::Drain,
        name@ == "SIGHUP"@ ==> r == SignalAction::ReloadConfiguration,
        name@ == "SIGUSR1"@ && tls_listeners > 0 ==> r == SignalAction::ReloadCertificates,
        name@ == "SIGUSR1"@ && tls_listeners == 0 ==> r == SignalAction::Ignore,
        name@ == "SIGTERM"@ || name@ == "SIGINT"@ || name@ == "SIGHUP"@ || name@ == "SIGUSR1"@,
{
    reveal_strlit("SIGTERM");
    reveal_strlit("SIGINT");
    reveal_strlit("SIGHUP");
    reveal_strlit("SIGUSR1");
    assert("SIGTERM"@.len() == 7 && "SIGTERM"@[3] == 'T');
    assert("SIGINT"@.len() == 6 && "SIGINT"@[3] == 'I');
    assert("SIGHUP"@.len() == 6 && "SIGHUP"@[3] == 'H');
    assert("SIGUSR1"@.len() == 7 && "SIGUSR1"@[3] == 'U');
}

/// How long the process drains: as long as the longest of its own drain and
/// those of its listeners, and ends are spread by the widest of them. What is not
/// configured is ten seconds, spread over two and a half; load balancers get
/// eleven seconds to notice, and accept loops half a second to end.
pub proof fn law_drain_is_the_longest(
    runtime: Option<DrainBudget>,
    settle_ms: Option<u64>,
    listeners: Vec<DrainBudget>,
    r: DrainPlan,
)
    requires
        call_ensures(drain_plan, (&runtime, settle_ms, &listeners), r),
    ensures
        ({
            let own = match runtime {
                Some(b) => b,
                None => DrainBudget { timeout_ms: 10_000, jitter_ms: 2_500 },
            };
            &&& r.inflight_drain_ms >= own.timeout_ms
            &&& r.jitter_max_ms >= own.jitter_ms
            &&& forall|i: int|
                0 <= i < listeners@.len() ==> r.inflight_drain_ms >= (
                #[trigger] listeners@[i]).timeout_ms && r.jitter_max_ms >= listeners@[i].jitter_ms
            &&& r.inflight_drain_ms == own.timeout_ms || exists|i: int|
                0 <= i < listeners@.len() && r.inflight_drain_ms == (
                #[trigger] listeners@[i]).timeout_ms
            &&& r.jitter_max_ms == own.jitter_ms || exists|i: int|
                0 <= i < listeners@.len() && r.jitter_max_ms == (#[trigger] listeners@[i]).jitter_ms
        }),
        settle_ms matches Some(ms) ==> r.readiness_settle_ms == ms,
        settle_ms is None ==> r.readiness_settle_ms == 11_000,
        r.listener_cancel_ms == 500,
{
    law_drain_covers_every_listener(process_budget(runtime), listeners@);
    lemma_widest_is_one(process_budget(runtime), listeners@);
}

proof fn lemma_widest_is_one(start: DrainBudget, listeners: Seq<DrainBudget>)
    ensures
        widest(start, listeners).timeout_ms == start.timeout_ms || exists|i: int|
            0 <= i < listeners.len() && widest(start, listeners).timeout_ms == (
            #[trigger] listeners[i]).timeout_ms,
        widest(start, listeners).jitter_ms == start.jitter_ms || exists|i: int|
            0 <= i < listeners.len() && widest(start, listeners).jitter_ms == (
            #[trigger] listeners[i]).jitter_ms,
    decreases listeners.len(),
{
    if listeners.len() > 0 {
        let before = listeners.drop_last();
        lemma_widest_is_one(start, before);
        let w = widest(start, before);
        let last = listeners[listeners.len() - 1];
        if w.timeout_ms != start.timeout_ms {
            let i = choose|i: int|
                0 <= i < before.len() && w.timeout_ms == (#[trigger] before[i]).timeout_ms;
            assert(listeners[i] == before[i]);
        }
        if w.jitter_ms != start.jitter_ms {
            let i = choose|i: int|
                0 <= i < before.len() && w.jitter_ms == (#[trigger] before[i]).jitter_ms;
            assert(listeners[i] == before[i]);
        }
        assert(last == listeners.last());
    }
}

/// Under which series the time of a phase is recorded: that of a listener, or of
/// the process.
pub proof fn law_drain_series(
    phase: DrainPhase,
    listener: Option<String>,
    r: (&'static str, Option<String>),
)
    requires
        call_ensures(drain_series, (phase, listener), r),
    ensures
        phase == DrainPhase::ListenerCancel || phase == DrainPhase::InFlightDrain ==> r.0@
            == "shutdown_drain_seconds_listener"@ && r.1 is Some && (listener is Some ==> r.1->0@
            == listener->0@) && (listener is None ==> r.1->0@ == "<aggregate>"@),
        phase != DrainPhase::ListenerCancel && phase != DrainPhase::InFlightDrain ==> r.0@
            == "shutdown_drain_seconds_global"@ && r.1 is None,
{
}

/// The order in which the process shuts down: readiness turns first, then
/// connections drain, and only then are loops aborted, QUIC closed, the admin
/// endpoint stopped and the data plane detached.
pub proof fn law_shutdown_order(
    s1: ShutdownStep,
    s2: ShutdownStep,
    s3: ShutdownStep,
    s4: ShutdownStep,
    s5: ShutdownStep,
    s6: ShutdownStep,
    s7: ShutdownStep,
)
    requires
        call_ensures(ShutdownStep::first, (), s1),
        call_ensures(ShutdownStep::next, (s1,), s2),
        call_ensures(ShutdownStep::next, (s2,), s3),
        call_ensures(ShutdownStep::next, (s3,), s4),
        call_ensures(ShutdownStep::next, (s4,), s5),
        call_ensures(ShutdownStep::next, (s5,), s6),
        call_ensures(ShutdownStep::next, (s6,), s7),
    ensures
        s1 == ShutdownStep::TurnReadiness,
        s2 == ShutdownStep::Drain,
        s3 == ShutdownStep::AbortAccepting,
        s4 == ShutdownStep::CloseQuic,
        s5 == ShutdownStep::StopAdmin,
        s6 == ShutdownStep::DetachDataPlane,
        s7 == ShutdownStep::Ended,
{
    assert(shutdown_step(0) == ShutdownStep::TurnReadiness);
}

/// What a drain is charged with: only one that timed out counts, once, with the
/// connections that were left.
pub proof fn law_drain_accounting(timed_out: bool, remaining: u64, r: (u64, u64))
    requires
        call_ensures(drain_accounting, (timed_out, remaining), r),
    ensures
        timed_out ==> r.0 == remaining && r.1 == 1,
        !timed_out ==> r.0 == 0 && r.1 == 0,
{
}

/// The loops that still run are counted: one more loop adds one exactly when it
/// has not finished.
pub proof fn law_unfinished_counts(before: Vec<bool>, after: Vec<bool>, f: bool, m: usize, n: usize)
    requires
        call_ensures(unfinished, (&before,), m),
        call_ensures(unfinished, (&after,), n),
        after@ == before@.push(f),
    ensures
        f ==> n == m,
        !f ==> n == m + 1,
        before@.len() == 0 ==> m == 0,
{
    reveal(Seq::filter);
    assert(after@.drop_last() =~= before@);
}

/// A panic is counted once, wherever it is counted, and binding the registry
/// loses none: after it the total is what was counted before and what the
/// registry held. (Counts wrap at their largest value.)
pub proof fn law_panics_are_counted(t: &mut PanicTotals, before: u64, after: u64)
    requires
        call_ensures(PanicTotals::record, (t,), ()),
        call_ensures(PanicTotals::panic_total, (old(t),), before),
        call_ensures(PanicTotals::panic_total, (final(t),), after),
        old(t).fallback < u64::MAX,
        old(t).registry matches Some(n) ==> n < u64::MAX,
    ensures
        before < u64::MAX ==> after == before + 1,
        old(t).registry is None ==> after == old(t).fallback + 1,
{
}

/// What the total is after the registry is bound.
pub proof fn law_bound_total(t: &mut PanicTotals, count: u64, after: u64)
    requires
        call_ensures(PanicTotals::bind, (t, count), ()),
        call_ensures(PanicTotals::panic_total, (final(t),), after),
        count + old(t).fallback <= u64::MAX,
    ensures
        after == count + old(t).fallback,
        final(t).registry is Some,
{
}

/// Requests are checked strictly exactly when that is asked for, and the process
/// runs exactly when some listener has started.
pub proof fn law_strict_and_started(
    strict_te: Option<bool>,
    m: SmuggleMode,
    tcp: usize,
    quic: usize,
    passthrough: usize,
    r: bool,
)
    requires
        call_ensures(smuggle_mode, (strict_te,), m),
        call_ensures(any_started, (tcp, quic, passthrough), r),
    ensures
        m == SmuggleMode::H1Strict <==> strict_te is Some && strict_te->0,
        m == SmuggleMode::H1 <==> strict_te is None || !strict_te->0,
        r <==> tcp > 0 || quic > 0 || passthrough > 0,
{
}

} // verus!
