//! Closed-loop latency and throughput measurement: each worker holds one
//! connection and issues request units back to back; a unit counts when it
//! started inside the measurement window.

use vstd::prelude::*;
use vstd::relations::{sorted_by, total_ordering};
use crate::text::{decimal, push_decimal};

verus! {

// ---------------------------------------------------------------------------
// Latency samples
// ---------------------------------------------------------------------------

/// Latency samples of one worker, in microseconds.
#[derive(Debug)]
pub struct Lat {
    us: Vec<u64>,
}

impl View for Lat {
    type V = Seq<u64>;

    closed spec fn view(&self) -> Seq<u64> {
        self.us@
    }
}

/// A latency as it is recorded: capped at the range of a sample.
pub open spec fn capped(micros: u128) -> u64 {
    if micros <= u64::MAX {
        micros as u64
    } else {
        u64::MAX
    }
}

impl Lat {
    /// No samples.
    pub fn new() -> (r: Self)
        ensures
            r@ == Seq::<u64>::empty(),
    {
        Lat { us: Vec::new() }
    }

    /// Records one latency.
    pub fn record(&mut self, micros: u128)
        ensures
            final(self)@ == old(self)@.push(capped(micros)),
    {
        let sample: u64 = if micros <= u64::MAX as u128 { micros as u64 } else { u64::MAX };
        self.us.push(sample);
    }
}

impl Default for Lat {
    fn default() -> (r: Self)
        ensures
            r@ == Seq::<u64>::empty(),
    {
        Self::new()
    }
}

/// The measurement window, in nanoseconds: the warm-up before it is discarded.
#[derive(Debug, Clone, Copy)]
pub struct Window {
    pub warmup_end: u128,
    pub measure_end: u128,
}

impl Window {
    /// A window that opens `warmup` after `now` and lasts `measure`.
    pub fn new(now: u128, warmup: u128, measure: u128) -> (r: Self)
        requires
            now + warmup + measure <= u128::MAX,
        ensures
            r.warmup_end == now + warmup,
            r.measure_end == now + warmup + measure,
    {
        Window { warmup_end: now + warmup, measure_end: now + warmup + measure }
    }

    /// Whether a unit that starts at `t` counts.
    pub open spec fn holds(self, t: u128) -> bool {
        self.warmup_end <= t < self.measure_end
    }

    /// Whether a unit that starts at `t` counts.
    pub fn measuring(&self, t: u128) -> (r: bool)
        ensures
            r == self.holds(t),
    {
        t >= self.warmup_end && t < self.measure_end
    }

    /// Whether the window has closed.
    pub fn done(&self, now: u128) -> (r: bool)
        ensures
            r == (now >= self.measure_end),
    {
        now >= self.measure_end
    }
}

/// Once a window is done no unit that starts then counts, and a unit that
/// counts starts before the window is done.
pub proof fn law_window_closes(w: Window, t: u128)
    ensures
        t >= w.measure_end ==> !w.holds(t),
        w.holds(t) ==> w.warmup_end <= t && !(t >= w.measure_end),
{
}

// ---------------------------------------------------------------------------
// Outcomes
// ---------------------------------------------------------------------------

/// The merged outcome of a run.
#[derive(Debug)]
pub struct RunOut {
    pub lat: Lat,
    pub ok: u64,
    pub err: u64,
}

impl RunOut {
    /// No units at all.
    pub fn empty() -> (r: Self)
        ensures
            r.lat@ == Seq::<u64>::empty(),
            r.ok == 0,
            r.err == 0,
    {
        RunOut { lat: Lat::new(), ok: 0, err: 0 }
    }

    /// Both outcomes together.
    pub fn merge(self, other: RunOut) -> (r: Self)
        requires
            self.ok + other.ok <= u64::MAX,
            self.err + other.err <= u64::MAX,
        ensures
            r.lat@ == self.lat@ + other.lat@,
            r.ok == self.ok + other.ok,
            r.err == self.err + other.err,
    {
        let mut us = self.lat.us;
        let mut more = other.lat.us;
        us.append(&mut more);
        RunOut { lat: Lat { us }, ok: self.ok + other.ok, err: self.err + other.err }
    }

    /// Counts a unit that was answered in full.
    pub fn on_reply(&mut self, win: &Window, start: u128, micros: u128)
        requires
            old(self).ok < u64::MAX,
        ensures
            win.holds(start) ==> {
                &&& final(self).lat@ == old(self).lat@.push(capped(micros))
                &&& final(self).ok == old(self).ok + 1
            },
            !win.holds(start) ==> final(self).lat@ == old(self).lat@ && final(self).ok == old(self).ok,
            final(self).err == old(self).err,
    {
        if win.measuring(start) {
            self.lat.record(micros);
            self.ok = self.ok + 1;
        }
    }

    /// Counts a unit, or a connection attempt, that failed.
    pub fn on_failure(&mut self, win: &Window, at: u128)
        requires
            old(self).err < u64::MAX,
        ensures
            final(self).err == old(self).err + if win.holds(at) {
                1int
            } else {
                0
            },
            final(self).lat@ == old(self).lat@,
            final(self).ok == old(self).ok,
    {
        if win.measuring(at) {
            self.err = self.err + 1;
        }
    }
}

/// What a worker of the benchmark comes upon.
#[derive(Debug, Clone, Copy, PartialEq, Eq, Structural)]
pub enum WorkerEvent {
    /// The name of the peer cannot be asked for.
    BadName,
    /// No connection came about.
    DialFailed,
    /// A connection came about, but the protocol on it did not.
    SetupFailed,
    /// The connection is ready.
    Connected,
    /// A unit was answered in full.
    Replied,
    /// A unit was not answered, or not as it should be.
    ReplyFailed,
    /// A unit could not be handed over in time.
    SendStalled,
    /// The connection ended between two units.
    Closed,
}

/// What a worker does next.
#[derive(Debug, Clone, Copy, PartialEq, Eq, Structural)]
pub enum WorkerNext {
    /// Opens another connection.
    Connect,
    /// Sends another unit on its connection.
    Send,
    /// Gives up.
    Stop,
}

/// Whether an event counts as a failure, and what the worker does next.
pub open spec fn worker_course(event: WorkerEvent) -> (bool, WorkerNext) {
    match event {
        WorkerEvent::BadName => (false, WorkerNext::Stop),
        WorkerEvent::DialFailed => (true, WorkerNext::Connect),
        WorkerEvent::SetupFailed => (false, WorkerNext::Connect),
        WorkerEvent::Connected => (false, WorkerNext::Send),
        WorkerEvent::Replied => (false, WorkerNext::Send),
        WorkerEvent::ReplyFailed => (true, WorkerNext::Connect),
        WorkerEvent::SendStalled => (false, WorkerNext::Connect),
        WorkerEvent::Closed => (false, WorkerNext::Connect),
    }
}

/// Whether an event counts as a failure, and what the worker does next.
pub fn worker_step(event: WorkerEvent) -> (r: (bool, WorkerNext))
    ensures
        r == worker_course(event),
{
    match event {
        WorkerEvent::BadName => (false, WorkerNext::Stop),
        WorkerEvent::DialFailed => (true, WorkerNext::Connect),
        WorkerEvent::SetupFailed => (false, WorkerNext::Connect),
        WorkerEvent::Connected => (false, WorkerNext::Send),
        WorkerEvent::Replied => (false, WorkerNext::Send),
        WorkerEvent::ReplyFailed => (true, WorkerNext::Connect),
        WorkerEvent::SendStalled => (false, WorkerNext::Connect),
        WorkerEvent::Closed => (false, WorkerNext::Connect),
    }
}

impl RunOut {
    /// Counts what a worker came upon with what started at `at`, and says what
    /// it does next. Only what started inside the window counts.
    pub fn on_event(&mut self, event: WorkerEvent, win: &Window, at: u128, micros: u128) -> (next:
        WorkerNext)
        requires
            old(self).ok < u64::MAX,
            old(self).err < u64::MAX,
        ensures
            next == worker_course(event).1,
            final(self).lat@ == if event is Replied && win.holds(at) {
                old(self).lat@.push(capped(micros))
            } else {
                old(self).lat@
            },
            final(self).ok == old(self).ok + if event is Replied && win.holds(at) {
                1int
            } else {
                0
            },
            final(self).err == old(self).err + if worker_course(event).0 && win.holds(at) {
                1int
            } else {
                0
            },
    {
        let (failed, next) = worker_step(event);
        if failed {
            self.on_failure(win, at);
        }
        if event == WorkerEvent::Replied {
            self.on_reply(win, at, micros);
        }
        next
    }
}

/// The byte at position `k` of a payload.
pub open spec fn payload_byte(k: int, seed: u64) -> u8 {
    ((k + seed) % 251) as u8
}

/// A payload of `len` bytes that depends on `seed`.
pub fn payload_bytes(len: usize, seed: u64) -> (out: Vec<u8>)
    requires
        len + seed <= u64::MAX,
    ensures
        out@ == Seq::new(len as nat, |k: int| payload_byte(k, seed)),
{
    let mut out: Vec<u8> = Vec::new();
    let mut k: usize = 0;
    while k < len
        invariant
            k <= len,
            len + seed <= u64::MAX,
            out@ == Seq::new(k as nat, |k: int| payload_byte(k, seed)),
        decreases len - k,
    {
        out.push(((k as u64 + seed) % 251) as u8);
        k += 1;
    }
    out
}

/// One request unit: an upload when the payload has bytes, else a plain fetch.
#[derive(Debug)]
pub struct Unit {
    pub post: bool,
    pub body: Vec<u8>,
}

/// The seed of the next unit.
pub fn next_seed(seed: u64) -> (r: u64)
    ensures
        r == if seed == u64::MAX {
            0
        } else {
            (seed + 1) as u64
        },
{
    seed.wrapping_add(1)
}

/// The request unit for a payload size and a seed.
pub fn unit(payload: usize, seed: u64) -> (r: Unit)
    requires
        payload + seed <= u64::MAX,
    ensures
        r.post == (payload > 0),
        r.body@ == Seq::new(payload as nat, |k: int| payload_byte(k, seed)),
{
    let body = payload_bytes(payload, seed);
    Unit { post: payload > 0, body }
}

/// The headers of a unit over HTTP/3, in order.
pub fn unit_headers(post: bool, authority: &str) -> (out: Vec<(&'static str, String)>)
    ensures
        out@.len() == 4,
        out@[0].0@ == ":method"@ && out@[0].1@ == if post {
            "POST"@
        } else {
            "GET"@
        },
        out@[1].0@ == ":scheme"@ && out@[1].1@ == "https"@,
        out@[2].0@ == ":path"@ && out@[2].1@ == "/"@,
        out@[3].0@ == ":authority"@ && out@[3].1@ == authority@,
{
    let method: &'static str = if post { "POST" } else { "GET" };
    let mut out: Vec<(&'static str, String)> = Vec::new();
    out.push((":method", method.to_owned()));
    out.push((":scheme", "https".to_owned()));
    out.push((":path", "/".to_owned()));
    out.push((":authority", authority.to_owned()));
    out
}

/// The payload size of an echo unit: an echo needs at least one byte.
pub fn echo_len(payload: usize) -> (r: usize)
    ensures
        r == if payload > 0 {
            payload
        } else {
            1
        },
{
    if payload > 0 {
        payload
    } else {
        1
    }
}

/// The bidirectional stream id after `sid`: client streams are four apart.
pub fn next_stream_id(sid: u64) -> (r: u64)
    ensures
        r == (sid + 4) % 0x1_0000_0000_0000_0000,
{
    sid.wrapping_add(4)
}

/// What an HTTP/3 response event means for a unit.
#[derive(Debug, Clone, Copy, PartialEq, Eq, Structural)]
pub enum H3Event {
    Headers,
    Data,
    Finished,
    Reset,
    GoAway,
    PriorityUpdate,
    Idle,
    Failed,
}

/// Where a unit stands after an event.
#[derive(Debug, Clone, Copy, PartialEq, Eq, Structural)]
pub enum UnitStep {
    /// Answered in full.
    Done,
    /// Failed; the worker reconnects.
    Lost,
    /// Read the body of the stream, then poll again.
    ReadBody,
    /// Move datagrams both ways, then poll again.
    Pump,
    /// Poll again.
    Poll,
}

/// Where a unit stands after an event. An idle poll on a closed connection
/// loses the unit.
pub fn unit_step(event: H3Event, closed: bool) -> (r: UnitStep)
    ensures
        r == match event {
            H3Event::Finished => UnitStep::Done,
            H3Event::Data => UnitStep::ReadBody,
            H3Event::Headers | H3Event::PriorityUpdate => UnitStep::Poll,
            H3Event::Reset | H3Event::GoAway | H3Event::Failed => UnitStep::Lost,
            H3Event::Idle => if closed {
                UnitStep::Lost
            } else {
                UnitStep::Pump
            },
        },
{
    match event {
        H3Event::Finished => UnitStep::Done,
        H3Event::Data => UnitStep::ReadBody,
        H3Event::Headers => UnitStep::Poll,
        H3Event::PriorityUpdate => UnitStep::Poll,
        H3Event::Reset => UnitStep::Lost,
        H3Event::GoAway => UnitStep::Lost,
        H3Event::Failed => UnitStep::Lost,
        H3Event::Idle => if closed {
            UnitStep::Lost
        } else {
            UnitStep::Pump
        },
    }
}

/// Progress of one echo unit over a raw stream.
#[derive(Debug, Clone, Copy, PartialEq, Eq, Structural)]
pub struct EchoUnit {
    pub len: usize,
    pub sent: usize,
    pub got: usize,
}

/// Where an echo unit stands after a read.
#[derive(Debug, Clone, Copy, PartialEq, Eq, Structural)]
pub enum EchoRead {
    /// The echo is complete.
    Complete,
    /// The stream ended with another number of bytes.
    WrongLength,
    /// Read again.
    More,
    /// Nothing more for now.
    Drained,
}

impl EchoUnit {
    /// An echo of `len` bytes of which nothing was sent.
    pub fn new(len: usize) -> (r: Self)
        ensures
            r == (EchoUnit { len, sent: 0, got: 0 }),
    {
        EchoUnit { len, sent: 0, got: 0 }
    }

    /// The transport accepted `n` more bytes.
    pub fn on_sent(&mut self, n: usize)
        requires
            old(self).sent + n <= usize::MAX,
        ensures
            *final(self) == (EchoUnit { sent: (old(self).sent + n) as usize, ..*old(self) }),
    {
        self.sent = self.sent + n;
    }

    /// A read gave `n` bytes and possibly the end of the stream.
    pub fn on_read(&mut self, n: usize, fin: bool) -> (r: EchoRead)
        requires
            old(self).got + n <= usize::MAX,
        ensures
            *final(self) == (EchoUnit { got: (old(self).got + n) as usize, ..*old(self) }),
            r == if fin {
                if old(self).got + n == old(self).len {
                    EchoRead::Complete
                } else {
                    EchoRead::WrongLength
                }
            } else if n == 0 {
                EchoRead::Drained
            } else {
                EchoRead::More
            },
    {
        self.got = self.got + n;
        if fin {
            if self.got == self.len {
                EchoRead::Complete
            } else {
                EchoRead::WrongLength
            }
        } else if n == 0 {
            EchoRead::Drained
        } else {
            EchoRead::More
        }
    }
}

// ---------------------------------------------------------------------------
// Summary
// ---------------------------------------------------------------------------

/// `<[u64]>::sort_unstable` puts the elements in ascending order; it keeps
/// them all.
#[verifier::external_body]
fn sort_unstable(us: &mut Vec<u64>)
    ensures
        final(us)@.to_multiset() == old(us)@.to_multiset(),
        sorted_by(final(us)@, |a: u64, b: u64| a <= b),
{
    us.sort_unstable();
}

/// Puts integers in ascending order.
pub fn sort_ascending(us: &mut Vec<u64>)
    ensures
        final(us)@ == ascending(old(us)@),
        final(us)@.len() == old(us)@.len(),
{
    sort_unstable(us);
    proof {
        lemma_ascending(us@, old(us)@);
    }
}

/// The samples in ascending order.
pub open spec fn ascending(us: Seq<u64>) -> Seq<u64> {
    us.sort_by(|a: u64, b: u64| a <= b)
}

/// The sum of the samples.
pub open spec fn total(us: Seq<u64>) -> nat
    decreases us.len(),
{
    if us.len() == 0 {
        0
    } else {
        total(us.drop_last()) + us.last() as nat
    }
}

/// The rank of a percentile (in per mille) among `n` ascending samples: the
/// nearest position, a half rounding up.
pub open spec fn rank(n: nat, permille: nat) -> int {
    (permille * (n - 1) + 500) / 1000
}

/// The percentile (in per mille) of ascending samples; zero without samples.
pub open spec fn percentile(sorted: Seq<u64>, permille: nat) -> u64 {
    if sorted.len() == 0 {
        0
    } else {
        sorted[rank(sorted.len(), permille)]
    }
}

/// The headline numbers of one run. Latencies are in microseconds.
#[derive(Debug)]
pub struct BenchSummary {
    pub protocol: String,
    pub conns: u64,
    pub payload: u64,
    pub ok: u64,
    pub err: u64,
    pub p50_us: u64,
    pub p90_us: u64,
    pub p99_us: u64,
    pub p999_us: u64,
    pub max_us: u64,
    pub mean_us: u64,
}

proof fn lemma_ascending(sorted: Seq<u64>, us: Seq<u64>)
    requires
        sorted.to_multiset() == us.to_multiset(),
        sorted_by(sorted, |a: u64, b: u64| a <= b),
    ensures
        sorted == ascending(us),
        sorted.len() == us.len(),
{
    let leq = |a: u64, b: u64| a <= b;
    assert(total_ordering(leq));
    us.lemma_sort_by_ensures(leq);
    vstd::seq_lib::lemma_sorted_unique(sorted, ascending(us), leq);
    broadcast use vstd::seq_lib::group_to_multiset_ensures;

    assert(sorted.to_multiset().len() == sorted.len());
    assert(us.to_multiset().len() == us.len());
}

/// The percentile (in per mille) of ascending samples.
pub fn pct(sorted: &Vec<u64>, permille: u64) -> (v: u64)
    requires
        permille <= 1000,
    ensures
        v == percentile(sorted@, permille as nat),
{
    if sorted.len() == 0 {
        return 0;
    }
    let last: usize = sorted.len() - 1;
    assert(permille * last + 500 <= 1000 * last + 500 && 0 <= permille * last) by (nonlinear_arith)
        requires
            permille <= 1000,
            0 <= last,
    ;
    let r: u128 = (permille as u128 * last as u128 + 500) / 1000;
    assert(r <= last);
    assert(r == rank(sorted@.len(), permille as nat)) by {
        assert(permille as nat * (sorted@.len() - 1) == permille * last);
    }
    sorted[r as usize]
}

impl BenchSummary {
    /// The summary of a completed run.
    pub fn from_run(protocol: &str, conns: u64, payload: u64, run: RunOut) -> (r: Self)
        ensures
            r.protocol@ == protocol@,
            r.conns == conns,
            r.payload == payload,
            r.ok == run.ok,
            r.err == run.err,
            r.p50_us == percentile(ascending(run.lat@), 500),
            r.p90_us == percentile(ascending(run.lat@), 900),
            r.p99_us == percentile(ascending(run.lat@), 990),
            r.p999_us == percentile(ascending(run.lat@), 999),
            r.max_us == if run.lat@.len() == 0 {
                0
            } else {
                ascending(run.lat@).last()
            },
            r.mean_us == if run.lat@.len() == 0 {
                0
            } else {
                total(run.lat@) / run.lat@.len()
            },
    {
        let ghost samples = run.lat@;
        let mut s: Vec<u64> = run.lat.us;
        let mut sum: u128 = 0;
        let mut i: usize = 0;
        while i < s.len()
            invariant
                i <= s@.len(),
                s@ == samples,
                sum == total(s@.take(i as int)),
                sum <= i * u64::MAX,
            decreases s@.len() - i,
        {
            assert(s@.take(i + 1).drop_last() =~= s@.take(i as int));
            assert(i * u64::MAX + u64::MAX == (i + 1) * u64::MAX) by (nonlinear_arith);
            sum = sum + s[i] as u128;
            i += 1;
        }
        assert(samples.take(samples.len() as int) =~= samples);
        sort_ascending(&mut s);
        let n: usize = s.len();
        let mean: u64 = if n == 0 {
            0
        } else {
            assert(sum / (n as u128) <= u64::MAX) by (nonlinear_arith)
                requires
                    n > 0,
                    sum <= n * u64::MAX,
            ;
            (sum / n as u128) as u64
        };
        let max: u64 = if n == 0 { 0 } else { s[n - 1] };
        BenchSummary {
            protocol: protocol.to_owned(),
            conns,
            payload,
            ok: run.ok,
            err: run.err,
            p50_us: pct(&s, 500),
            p90_us: pct(&s, 900),
            p99_us: pct(&s, 990),
            p999_us: pct(&s, 999),
            max_us: max,
            mean_us: mean,
        }
    }

    /// The summary as a JSON object. The times and the rate are rendered by
    /// the caller.
    pub fn to_json(&self, warmup_secs: &str, measure_secs: &str, rps: &str) -> (out: String)
        ensures
            out@ == "{\"protocol\":\""@ + self.protocol@ + "\",\"conns\":"@ + decimal(self.conns as nat)
                + ",\"payload\":"@ + decimal(self.payload as nat) + ",\"warmup_secs\":"@ + warmup_secs@
                + ",\"measure_secs\":"@ + measure_secs@ + ",\"ok\":"@ + decimal(self.ok as nat)
                + ",\"err\":"@ + decimal(self.err as nat) + ",\"rps\":"@ + rps@ + ",\"p50_us\":"@
                + decimal(self.p50_us as nat) + ",\"p90_us\":"@ + decimal(self.p90_us as nat)
                + ",\"p99_us\":"@ + decimal(self.p99_us as nat) + ",\"p999_us\":"@ + decimal(
                self.p999_us as nat,
            ) + ",\"max_us\":"@ + decimal(self.max_us as nat) + ",\"mean_us\":"@ + decimal(
                self.mean_us as nat,
            ) + "}"@,
    {
        let mut out = String::new();
        out.append("{\"protocol\":\"");
        out.append(&self.protocol);
        out.append("\",\"conns\":");
        push_decimal(&mut out, self.conns);
        out.append(",\"payload\":");
        push_decimal(&mut out, self.payload);
        out.append(",\"warmup_secs\":");
        out.append(warmup_secs);
        out.append(",\"measure_secs\":");
        out.append(measure_secs);
        out.append(",\"ok\":");
        push_decimal(&mut out, self.ok);
        out.append(",\"err\":");
        push_decimal(&mut out, self.err);
        out.append(",\"rps\":");
        out.append(rps);
        out.append(",\"p50_us\":");
        push_decimal(&mut out, self.p50_us);
        out.append(",\"p90_us\":");
        push_decimal(&mut out, self.p90_us);
        out.append(",\"p99_us\":");
        push_decimal(&mut out, self.p99_us);
        out.append(",\"p999_us\":");
        push_decimal(&mut out, self.p999_us);
        out.append(",\"max_us\":");
        push_decimal(&mut out, self.max_us);
        out.append(",\"mean_us\":");
        push_decimal(&mut out, self.mean_us);
        out.append("}");
        proof {
            assert(Seq::<char>::empty() + "{\"protocol\":\""@ =~= "{\"protocol\":\""@);
        }
        out
    }

    /// The summary as one line of text. The times and the rate are rendered by
    /// the caller.
    pub fn human(&self, warmup_secs: &str, measure_secs: &str, rps: &str) -> (out: String)
        ensures
            out@ == padded(self.protocol@, 12) + " c="@ + padded(decimal(self.conns as nat), 4)
                + " payload="@ + padded(decimal(self.payload as nat), 6) + " | rps="@ + rps@ + " ok="@
                + decimal(self.ok as nat) + " err="@ + decimal(self.err as nat) + " | p50="@ + decimal(
                self.p50_us as nat,
            ) + "us p90="@ + decimal(self.p90_us as nat) + "us p99="@ + decimal(self.p99_us as nat)
                + "us p999="@ + decimal(self.p999_us as nat) + "us max="@ + decimal(self.max_us as nat)
                + "us mean="@ + decimal(self.mean_us as nat) + "us (measure="@ + measure_secs@
                + "s warmup="@ + warmup_secs@ + "s)"@,
    {
        let mut out = String::new();
        push_padded(&mut out, &self.protocol, 12);
        out.append(" c=");
        let conns = crate::text::decimal_string(self.conns);
        push_padded(&mut out, &conns, 4);
        out.append(" payload=");
        let payload = crate::text::decimal_string(self.payload);
        push_padded(&mut out, &payload, 6);
        out.append(" | rps=");
        out.append(rps);
        out.append(" ok=");
        push_decimal(&mut out, self.ok);
        out.append(" err=");
        push_decimal(&mut out, self.err);
        out.append(" | p50=");
        push_decimal(&mut out, self.p50_us);
        out.append("us p90=");
        push_decimal(&mut out, self.p90_us);
        out.append("us p99=");
        push_decimal(&mut out, self.p99_us);
        out.append("us p999=");
        push_decimal(&mut out, self.p999_us);
        out.append("us max=");
        push_decimal(&mut out, self.max_us);
        out.append("us mean=");
        push_decimal(&mut out, self.mean_us);
        out.append("us (measure=");
        out.append(measure_secs);
        out.append("s warmup=");
        out.append(warmup_secs);
        out.append("s)");
        proof {
            assert(Seq::<char>::empty() + padded(self.protocol@, 12) =~= padded(self.protocol@, 12));
        }
        out
    }
}

/// A text filled up with spaces on the right to a width.
pub open spec fn padded(s: Seq<char>, width: nat) -> Seq<char> {
    if s.len() < width {
        s + Seq::new((width - s.len()) as nat, |i: int| ' ')
    } else {
        s
    }
}

fn push_padded(out: &mut String, s: &str, width: usize)
    ensures
        final(out)@ == old(out)@ + padded(s@, width as nat),
{
    out.append(s);
    let mut n: usize = s.unicode_len();
    let ghost start = n as int;
    while n < width
        invariant
            start == s@.len(),
            start <= n,
            start < width ==> n <= width,
            start >= width ==> n == start,
            out@ == old(out)@ + s@ + Seq::new((n - start) as nat, |i: int| ' '),
        decreases width - n,
    {
        let ghost before = out@;
        out.push(' ');
        assert(out@ =~= old(out)@ + s@ + Seq::new((n + 1 - start) as nat, |i: int| ' '));
        n += 1;
    }
    assert(out@ =~= old(out)@ + padded(s@, width as nat));
}

/// Percentiles do not decrease with the percentage, and none exceeds the
/// largest sample.
pub proof fn law_percentiles_ordered(sorted: Seq<u64>, low: nat, high: nat)
    requires
        sorted_by(sorted, |a: u64, b: u64| a <= b),
        low <= high <= 1000,
        sorted.len() > 0,
    ensures
        percentile(sorted, low) <= percentile(sorted, high),
        percentile(sorted, high) <= sorted.last(),
        percentile(sorted, 1000) == sorted.last(),
        percentile(sorted, 0) == sorted[0],
{
    let m = sorted.len() - 1;
    assert(low * m <= high * m && high * m <= 1000 * m && 0 <= low * m) by (nonlinear_arith)
        requires
            0 <= low <= high,
            high <= 1000,
            0 <= m,
    ;
    let leq = |a: u64, b: u64| a <= b;
    let i = rank(sorted.len(), low);
    let j = rank(sorted.len(), high);
    assert(0 <= i <= j <= m);
    assert(i == j || leq(sorted[i], sorted[j]));
    assert(j == m || leq(sorted[j], sorted[m]));
    assert(rank(sorted.len(), 1000) == m);
    assert(rank(sorted.len(), 0) == 0);
}

// ---------------------------------------------------------------------------
// Laws
// ---------------------------------------------------------------------------

/// The window of a run: it opens when the warm-up is over, closes when the
/// measuring is, and a unit counts exactly in between.
pub proof fn law_window(
    now: u128,
    warmup: u128,
    measure: u128,
    w: Window,
    t: u128,
    counts: bool,
    over: bool,
)
    requires
        call_ensures(Window::new, (now, warmup, measure), w),
        call_ensures(Window::measuring, (&w, t), counts),
        call_ensures(Window::done, (&w, t), over),
    ensures
        counts <==> now + warmup <= t < now + warmup + measure,
        over <==> t >= now + warmup + measure,
{
}

/// What one event does to the books of a worker: a reply that started inside the
/// window is counted, with its time; a failed dial or reply inside it is counted
/// as an error; nothing else counts. A bad name ends the worker, a reply or a new
/// connection goes on to the next request, and everything else to a new
/// connection.
pub proof fn law_worker_books(
    s: &mut RunOut,
    event: WorkerEvent,
    win: Window,
    at: u128,
    micros: u128,
    next: WorkerNext,
)
    requires
        old(s).ok < u64::MAX,
        old(s).err < u64::MAX,
        call_ensures(RunOut::on_event, (s, event, &win, at, micros), next),
    ensures
        ({
            let inside = win.warmup_end <= at < win.measure_end;
            let good = inside && event is Replied;
            let bad = inside && (event is DialFailed || event is ReplyFailed);
            &&& good ==> final(s).ok == old(s).ok + 1 && final(s).lat@.len() == old(s).lat@.len() + 1
                && final(s).lat@.drop_last() == old(s).lat@ && (micros <= u64::MAX
                ==> final(s).lat@.last() == micros) && (micros > u64::MAX ==> final(s).lat@.last()
                == u64::MAX)
            &&& !good ==> final(s).ok == old(s).ok && final(s).lat@ == old(s).lat@
            &&& bad ==> final(s).err == old(s).err + 1
            &&& !bad ==> final(s).err == old(s).err
        }),
        next == WorkerNext::Stop <==> event is BadName,
        next == WorkerNext::Send <==> event is Connected || event is Replied,
        next == WorkerNext::Connect <==> event is DialFailed || event is SetupFailed
            || event is ReplyFailed || event is SendStalled || event is Closed,
{
    assert(old(s).lat@.push(capped(micros)).drop_last() =~= old(s).lat@);
}

/// What a reply and a failure do to the books on their own.
pub proof fn law_reply_and_failure(
    s: &mut RunOut,
    win: Window,
    start: u128,
    micros: u128,
    t: &mut RunOut,
    at: u128,
)
    requires
        old(s).ok < u64::MAX,
        old(t).err < u64::MAX,
        call_ensures(RunOut::on_reply, (s, &win, start, micros), ()),
        call_ensures(RunOut::on_failure, (t, &win, at), ()),
    ensures
        final(s).err == old(s).err,
        win.warmup_end <= start < win.measure_end ==> final(s).ok == old(s).ok + 1 && final(
            s).lat@.len() == old(s).lat@.len() + 1 && (micros <= u64::MAX ==> final(s).lat@.last()
            == micros),
        !(win.warmup_end <= start < win.measure_end) ==> final(s).ok == old(s).ok && final(s).lat@
            == old(s).lat@,
        final(t).ok == old(t).ok,
        final(t).lat@ == old(t).lat@,
        win.warmup_end <= at < win.measure_end ==> final(t).err == old(t).err + 1,
        !(win.warmup_end <= at < win.measure_end) ==> final(t).err == old(t).err,
{
}

/// Two runs that are merged keep every time and every count of both.
pub proof fn law_merge_keeps_all(a: RunOut, b: RunOut, r: RunOut)
    requires
        call_ensures(RunOut::merge, (a, b), r),
    ensures
        r.ok == a.ok + b.ok,
        r.err == a.err + b.err,
        r.lat@.len() == a.lat@.len() + b.lat@.len(),
        r.lat@.to_multiset() == a.lat@.to_multiset().add(b.lat@.to_multiset()),
{
    vstd::seq_lib::lemma_multiset_commutative(a.lat@, b.lat@);
}

/// Whether a value has the rank of a quantile among times: sorted, it stands at
/// the place that is nearest to the given share of the way from the first to the
/// last.
pub open spec fn is_quantile(us: Seq<u64>, permille: nat, v: u64) -> bool {
    exists|sorted: Seq<u64>, k: int|
        {
            &&& #[trigger] stands_at(sorted, k, v)
            &&& sorted.to_multiset() == us.to_multiset()
            &&& forall|i: int, j: int| 0 <= i <= j < sorted.len() ==> sorted[i] <= sorted[j]
            &&& 1000 * k - 500 <= permille * (us.len() - 1) < 1000 * k + 500
        }
}

/// That a value stands at a place.
pub open spec fn stands_at(s: Seq<u64>, k: int, v: u64) -> bool {
    0 <= k < s.len() && s[k] == v
}

/// Whether a value is the largest of several.
pub open spec fn is_greatest(us: Seq<u64>, v: u64) -> bool {
    &&& us.contains(v)
    &&& forall|i: int| 0 <= i < us.len() ==> #[trigger] us[i] <= v
}

/// What a summary says of a run: its counts, the quantiles of its times, the
/// largest of them and their mean, rounded down; nothing but zeros where no unit
/// was measured.
pub proof fn law_summary(protocol: &str, conns: u64, payload: u64, run: RunOut, r: BenchSummary)
    requires
        call_ensures(BenchSummary::from_run, (protocol, conns, payload, run), r),
    ensures
        r.protocol@ == protocol@,
        r.conns == conns,
        r.payload == payload,
        r.ok == run.ok,
        r.err == run.err,
        run.lat@.len() == 0 ==> r.p50_us == 0 && r.p90_us == 0 && r.p99_us == 0 && r.p999_us == 0
            && r.max_us == 0 && r.mean_us == 0,
        run.lat@.len() > 0 ==> {
            &&& is_quantile(run.lat@, 500, r.p50_us)
            &&& is_quantile(run.lat@, 900, r.p90_us)
            &&& is_quantile(run.lat@, 990, r.p99_us)
            &&& is_quantile(run.lat@, 999, r.p999_us)
            &&& is_greatest(run.lat@, r.max_us)
            &&& r.mean_us * run.lat@.len() <= total(run.lat@) < (r.mean_us + 1) * run.lat@.len()
            &&& r.p50_us <= r.p90_us <= r.p99_us <= r.p999_us <= r.max_us
        },
{
    let us = run.lat@;
    lemma_sorted_times(us);
    if us.len() > 0 {
        let s = ascending(us);
        lemma_quantile(us, 500);
        lemma_quantile(us, 900);
        lemma_quantile(us, 990);
        lemma_quantile(us, 999);
        law_percentiles_ordered(s, 500, 900);
        law_percentiles_ordered(s, 900, 990);
        law_percentiles_ordered(s, 990, 999);
        law_percentiles_ordered(s, 999, 1000);
        assert(s.contains(s.last()));
        assert(s.to_multiset().contains(s.last())) by {
            s.to_multiset_ensures();
        }
        us.to_multiset_ensures();
        s.to_multiset_ensures();
        assert(us.contains(s.last()));
        assert forall|i: int| 0 <= i < us.len() implies #[trigger] us[i] <= s.last() by {
            assert(us.contains(us[i]));
            assert(s.to_multiset().contains(us[i]));
            assert(s.contains(us[i]));
            let k = choose|k: int| 0 <= k < s.len() && s[k] == us[i];
            assert(s[k] <= s[s.len() - 1]);
        }
        let n = us.len() as int;
        let t = total(us) as int;
        assert(r.mean_us as int == t / n);
        assert((t / n) * n <= t < (t / n + 1) * n) by (nonlinear_arith)
            requires
                n > 0,
        ;
    }
}

proof fn lemma_sorted_times(us: Seq<u64>)
    ensures
        ascending(us).to_multiset() == us.to_multiset(),
        ascending(us).len() == us.len(),
        sorted_by(ascending(us), |a: u64, b: u64| a <= b),
        forall|i: int, j: int|
            0 <= i <= j < us.len() ==> ascending(us)[i] <= ascending(us)[j],
{
    let leq = |a: u64, b: u64| a <= b;
    assert(total_ordering(leq));
    us.lemma_sort_by_ensures(leq);
    let s = us.sort_by(leq);
    s.to_multiset_ensures();
    us.to_multiset_ensures();
    assert(ascending(us) == s);
    assert forall|i: int, j: int| 0 <= i <= j < us.len() implies s[i] <= s[j] by {
        if i < j {
            assert(leq(s[i], s[j]));
        }
    }
}

proof fn lemma_quantile(us: Seq<u64>, permille: nat)
    requires
        us.len() > 0,
        permille <= 1000,
    ensures
        is_quantile(us, permille, percentile(ascending(us), permille)),
{
    lemma_sorted_times(us);
    let s = ascending(us);
    let n = us.len() as int;
    let k = rank(us.len(), permille);
    let m = permille * (n - 1);
    assert(0 <= m <= 1000 * (n - 1)) by (nonlinear_arith)
        requires
            0 <= permille <= 1000,
            n >= 1,
            m == permille * (n - 1),
    ;
    assert(k == (m + 500) / 1000);
    assert(stands_at(s, k, percentile(s, permille)));
}

/// How times add up.
pub proof fn law_total_adds(us: Seq<u64>, v: u64)
    ensures
        total(Seq::<u64>::empty()) == 0,
        total(us.push(v)) == total(us) + v,
{
    assert(us.push(v).drop_last() =~= us);
}

/// Sorting keeps the times and puts none before a smaller one.
pub proof fn law_sort_ascending(us: &mut Vec<u64>, i: int, j: int)
    requires
        call_ensures(sort_ascending, (us,), ()),
    ensures
        final(us)@.to_multiset() == old(us)@.to_multiset(),
        0 <= i <= j < final(us)@.len() ==> final(us)@[i] <= final(us)@[j],
{
    lemma_sorted_times(old(us)@);
}

/// The value of a rank among sorted times stands at the place nearest to its
/// share of the way from the first to the last; without times it is zero.
pub proof fn law_rank_is_nearest(sorted: Vec<u64>, permille: u64, v: u64)
    requires
        permille <= 1000,
        call_ensures(pct, (&sorted, permille), v),
    ensures
        sorted@.len() == 0 ==> v == 0,
        sorted@.len() > 0 ==> exists|k: int|
            #[trigger] stands_at(sorted@, k, v) && 1000 * k - 500 <= permille * (sorted@.len() - 1)
                < 1000 * k + 500,
{
    if sorted@.len() > 0 {
        let n = sorted@.len() as int;
        let k = rank(sorted@.len(), permille as nat);
        let m = permille * (n - 1);
        assert(0 <= m <= 1000 * (n - 1)) by (nonlinear_arith)
            requires
                0 <= permille <= 1000,
                n >= 1,
                m == permille * (n - 1),
        ;
        assert(permille as nat * (n - 1) == m);
        assert(k == (m + 500) / 1000);
        assert(stands_at(sorted@, k, v));
    }
}

/// The bytes of a payload count up, and start again after 250; the payload of the
/// next seed is the same one byte further on.
pub proof fn law_payload_counts_up(len: usize, seed: u64, a: Vec<u8>, b: Vec<u8>, k: int)
    requires
        len + seed < u64::MAX,
        call_ensures(payload_bytes, (len, seed), a),
        call_ensures(payload_bytes, (len, (seed + 1) as u64), b),
    ensures
        a@.len() == len,
        0 <= k < len ==> a@[k] < 251 && (a@[k] as int - (seed + k)) % 251 == 0,
        0 <= k < len - 1 ==> a@[k + 1] == b@[k],
        0 <= k < len - 1 ==> a@[k + 1] == if a@[k] == 250 {
            0
        } else {
            a@[k] + 1
        },
{
    if 0 <= k < len {
        let x = (k + seed) % 251;
        assert(0 <= x < 251);
        assert(a@[k] == x as u8);
        assert((x - (seed + k)) % 251 == 0) by (nonlinear_arith)
            requires
                x == (k + seed) % 251,
        ;
    }
}

/// What one unit is: a request with a body is a `POST` with that many bytes, one
/// without a `GET`; what comes back has as many bytes as were sent, or one.
pub proof fn law_unit(
    payload: usize,
    seed: u64,
    u: Unit,
    authority: &str,
    headers: Vec<(&'static str, String)>,
    echo: usize,
)
    requires
        payload + seed <= u64::MAX,
        call_ensures(unit, (payload, seed), u),
        call_ensures(unit_headers, (u.post, authority), headers),
        call_ensures(echo_len, (payload,), echo),
    ensures
        u.body@.len() == payload,
        headers@.len() == 4,
        headers@[0].0@ == ":method"@,
        payload > 0 ==> headers@[0].1@ == "POST"@ && echo == payload,
        payload == 0 ==> headers@[0].1@ == "GET"@ && echo == 1,
        headers@[1].0@ == ":scheme"@ && headers@[1].1@ == "https"@,
        headers@[2].0@ == ":path"@ && headers@[2].1@ == "/"@,
        headers@[3].0@ == ":authority"@ && headers@[3].1@ == authority@,
{
}

/// Streams that a client opens are four apart, and seeds follow one another.
pub proof fn law_next_ids(sid: u64, s: u64, seed: u64, t: u64)
    requires
        call_ensures(next_stream_id, (sid,), s),
        call_ensures(next_seed, (seed,), t),
    ensures
        sid <= u64::MAX - 4 ==> s == sid + 4,
        sid > u64::MAX - 4 ==> s == sid - (u64::MAX - 3),
        seed < u64::MAX ==> t == seed + 1,
        seed == u64::MAX ==> t == 0,
{
}

/// What a client does after an event of its connection: a unit is done exactly
/// when its answer has ended, and lost when it was cut off.
pub proof fn law_unit_ends(event: H3Event, closed: bool, r: UnitStep)
    requires
        call_ensures(unit_step, (event, closed), r),
    ensures
        r == UnitStep::Done <==> event is Finished,
        r == UnitStep::ReadBody <==> event is Data,
        r == UnitStep::Poll <==> event is Headers || event is PriorityUpdate,
        r == UnitStep::Pump <==> event is Idle && !closed,
        r == UnitStep::Lost <==> event is Reset || event is GoAway || event is Failed || (
        event is Idle && closed),
{
}

/// An echo is complete exactly when it ends with as many bytes as were asked for.
pub proof fn law_echo_is_complete(u: &mut EchoUnit, n: usize, fin: bool, r: EchoRead)
    requires
        old(u).got + n <= usize::MAX,
        call_ensures(EchoUnit::on_read, (u, n, fin), r),
    ensures
        final(u).got == old(u).got + n,
        final(u).len == old(u).len,
        final(u).sent == old(u).sent,
        r == EchoRead::Complete <==> fin && old(u).got + n == old(u).len,
        r == EchoRead::WrongLength <==> fin && old(u).got + n != old(u).len,
        r == EchoRead::Drained <==> !fin && n == 0,
        r == EchoRead::More <==> !fin && n > 0,
{
}

/// A text in a column of a width: the text, followed by as many spaces as it is
/// short of it.
pub proof fn law_padded(s: Seq<char>, width: nat)
    ensures
        s.is_prefix_of(padded(s, width)),
        padded(s, width).len() == if s.len() < width {
            width
        } else {
            s.len()
        },
        forall|i: int| s.len() <= i < padded(s, width).len() ==> #[trigger] padded(s, width)[i] == ' ',
{
    assert(s =~= padded(s, width).subrange(0, s.len() as int));
}

} // verus!
