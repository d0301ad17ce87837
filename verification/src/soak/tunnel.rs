//! WebSocket echoes: over one upgraded connection, and through a tunnel of an
//! HTTP/3 stream with its frames written by hand.

use vstd::prelude::*;
use crate::soak::frames::{body_size, echo_bytes, echo_payload, echoes, first_frame, law_frame_round_trip, law_server_frame_reads, masked_frame, plain_frame, same_bytes, size_at, take_echoes, ws_mask_frame, ws_parse_one, WS_BINARY, WS_CLOSE};
use crate::soak::loadgen::{goes_on, next_count, session_goes_on, LoadStats};
use crate::text::{decimal, push_decimal};

verus! {

// ---------------------------------------------------------------------------
// Echoes over an upgraded connection
// ---------------------------------------------------------------------------

/// What came back for a payload.
#[derive(Debug)]
pub enum WsEcho {
    /// Bytes, to be compared with what was sent.
    Bytes(Vec<u8>),
    /// The connection was closed, or nothing came in time.
    Closed,
}

/// What an echo means.
#[derive(Debug, Clone, Copy, PartialEq, Eq, Structural)]
pub enum EchoVerdict {
    /// The payload came back.
    Verified,
    /// Other bytes came back: the relay is defective.
    Mismatch,
    /// The connection came to its end; the worker opens another.
    Reconnect,
}

/// What an echo means for the payload that was sent.
pub fn judge_echo(payload: &[u8], echo: &WsEcho) -> (r: EchoVerdict)
    ensures
        r == match *echo {
            WsEcho::Bytes(b) => if b@ == payload@ {
                EchoVerdict::Verified
            } else {
                EchoVerdict::Mismatch
            },
            WsEcho::Closed => EchoVerdict::Reconnect,
        },
{
    match echo {
        WsEcho::Bytes(b) => if same_bytes(b, payload) {
            EchoVerdict::Verified
        } else {
            EchoVerdict::Mismatch
        },
        WsEcho::Closed => EchoVerdict::Reconnect,
    }
}

/// Records an echo. Only wrong bytes are an error; a connection that ends is
/// none.
pub fn record_echo(stats: &mut LoadStats, verdict: EchoVerdict)
    ensures
        final(stats).tally() == match verdict {
            EchoVerdict::Verified => (next_count(old(stats).tally().0), old(stats).tally().1),
            EchoVerdict::Mismatch => (old(stats).tally().0, next_count(old(stats).tally().1)),
            EchoVerdict::Reconnect => old(stats).tally(),
        },
{
    match verdict {
        EchoVerdict::Verified => stats.ok(),
        EchoVerdict::Mismatch => stats.err(),
        EchoVerdict::Reconnect => {},
    }
}

/// The length of an echo payload: never empty.
pub open spec fn echo_size(i: int) -> nat {
    if size_at(i) == 0 {
        1
    } else {
        size_at(i)
    }
}

/// The payload of a long-lived connection at round `i`.
pub fn sustained_payload(i: u64) -> (out: Vec<u8>)
    ensures
        out@ == echo_bytes(i, echo_size(i as int)),
{
    let len: usize = body_size(i);
    echo_payload(i, if len == 0 { 1 } else { len })
}

/// The payload of a short-lived connection at frame `f`.
pub fn churn_payload(seed: u64, f: u64) -> (out: Vec<u8>)
    ensures
        out@ == echo_bytes(seed, echo_size(seed + f)),
{
    let len: usize = body_size(seed.wrapping_add(f));
    echo_payload(seed, if len == 0 { 1 } else { len })
}

// ---------------------------------------------------------------------------
// A tunnel over HTTP/3
// ---------------------------------------------------------------------------

/// The headers of the request for a tunnel to a server, in order.
pub fn connect_headers(server: &str) -> (out: Vec<(&'static str, String)>)
    ensures
        out@.len() == 5,
        out@[0].0@ == ":method"@ && out@[0].1@ == "CONNECT"@,
        out@[1].0@ == ":protocol"@ && out@[1].1@ == "websocket"@,
        out@[2].0@ == ":scheme"@ && out@[2].1@ == "https"@,
        out@[3].0@ == ":authority"@ && out@[3].1@ == server@,
        out@[4].0@ == ":path"@ && out@[4].1@ == "/soak"@,
{
    let mut out: Vec<(&'static str, String)> = Vec::new();
    out.push((":method", "CONNECT".to_owned()));
    out.push((":protocol", "websocket".to_owned()));
    out.push((":scheme", "https".to_owned()));
    out.push((":authority", server.to_owned()));
    out.push((":path", "/soak".to_owned()));
    out
}

/// Where a tunnel stands.
#[derive(Debug, Clone, Copy, PartialEq, Eq, Structural)]
pub enum TunnelPhase {
    /// The connection is not established yet.
    Handshake,
    /// The request for the tunnel is not sent yet.
    Opening,
    /// The response to it is not there yet.
    AwaitingStatus,
    /// Between two echoes.
    Echoing,
    /// A frame is being sent.
    Sending,
    /// Its echo is not there yet.
    AwaitingEcho,
    /// The tunnel is being closed.
    Closing,
}

/// Why a tunnel failed.
#[derive(Debug, Clone, Copy, PartialEq, Eq, Structural)]
pub enum TunnelFault {
    HandshakeTimeout,
    ClosedInHandshake,
    ClosedBeforeConnect,
    NoStatus,
    ClosedBeforeStatus,
    Status(u16),
    ClosedMidEcho,
    SendTimeout,
    EchoTimeout,
    ClosedAwaitingEcho,
}

impl TunnelFault {
    /// The message of the fault.
    pub open spec fn text(self) -> Seq<char> {
        match self {
            TunnelFault::HandshakeTimeout => "handshake timeout"@,
            TunnelFault::ClosedInHandshake => "closed during handshake"@,
            TunnelFault::ClosedBeforeConnect => "closed before CONNECT"@,
            TunnelFault::NoStatus => "no 200 (status timeout)"@,
            TunnelFault::ClosedBeforeStatus => "closed before 200"@,
            TunnelFault::Status(s) => "extended CONNECT status Some("@ + decimal(s as nat) + ")"@,
            TunnelFault::ClosedMidEcho => "tunnel closed mid-echo"@,
            TunnelFault::SendTimeout => "ws send timeout"@,
            TunnelFault::EchoTimeout => "ws echo timeout"@,
            TunnelFault::ClosedAwaitingEcho => "tunnel closed awaiting echo"@,
        }
    }

    /// The message of the fault.
    pub fn message(&self) -> (out: String)
        ensures
            out@ == self.text(),
    {
        match self {
            TunnelFault::HandshakeTimeout => "handshake timeout".to_owned(),
            TunnelFault::ClosedInHandshake => "closed during handshake".to_owned(),
            TunnelFault::ClosedBeforeConnect => "closed before CONNECT".to_owned(),
            TunnelFault::NoStatus => "no 200 (status timeout)".to_owned(),
            TunnelFault::ClosedBeforeStatus => "closed before 200".to_owned(),
            TunnelFault::Status(s) => {
                let mut out: String = "extended CONNECT status Some(".to_owned();
                push_decimal(&mut out, *s as u64);
                out.append(")");
                out
            },
            TunnelFault::ClosedMidEcho => "tunnel closed mid-echo".to_owned(),
            TunnelFault::SendTimeout => "ws send timeout".to_owned(),
            TunnelFault::EchoTimeout => "ws echo timeout".to_owned(),
            TunnelFault::ClosedAwaitingEcho => "tunnel closed awaiting echo".to_owned(),
        }
    }
}

/// The fault of a connection that is found closed in a phase.
pub open spec fn closing_fault(phase: TunnelPhase) -> Option<TunnelFault> {
    match phase {
        TunnelPhase::Handshake => Some(TunnelFault::ClosedInHandshake),
        TunnelPhase::Opening => Some(TunnelFault::ClosedBeforeConnect),
        TunnelPhase::AwaitingStatus => Some(TunnelFault::ClosedBeforeStatus),
        TunnelPhase::Echoing => Some(TunnelFault::ClosedMidEcho),
        TunnelPhase::Sending => None,
        TunnelPhase::AwaitingEcho => Some(TunnelFault::ClosedAwaitingEcho),
        TunnelPhase::Closing => None,
    }
}

/// The fault of a phase that takes too long.
pub open spec fn timeout_fault(phase: TunnelPhase) -> Option<TunnelFault> {
    match phase {
        TunnelPhase::Handshake => Some(TunnelFault::HandshakeTimeout),
        TunnelPhase::AwaitingStatus => Some(TunnelFault::NoStatus),
        TunnelPhase::Sending => Some(TunnelFault::SendTimeout),
        TunnelPhase::AwaitingEcho => Some(TunnelFault::EchoTimeout),
        TunnelPhase::Opening | TunnelPhase::Echoing | TunnelPhase::Closing => None,
    }
}

/// The time that a phase may take, in milliseconds; zero where it is not
/// limited.
pub fn phase_budget_ms(phase: TunnelPhase) -> (ms: u64)
    ensures
        ms == match phase {
            TunnelPhase::Handshake => 8_000u64,
            TunnelPhase::AwaitingStatus => 6_000,
            TunnelPhase::Sending | TunnelPhase::AwaitingEcho => 5_000,
            TunnelPhase::Opening | TunnelPhase::Echoing | TunnelPhase::Closing => 0,
        },
        ms == 0 <==> timeout_fault(phase) is None,
{
    match phase {
        TunnelPhase::Handshake => 8_000,
        TunnelPhase::AwaitingStatus => 6_000,
        TunnelPhase::Sending => 5_000,
        TunnelPhase::AwaitingEcho => 5_000,
        TunnelPhase::Opening => 0,
        TunnelPhase::Echoing => 0,
        TunnelPhase::Closing => 0,
    }
}

/// The payload of a tunnel at frame `f`: short enough for a length of seven
/// bits.
pub open spec fn tunnel_bytes(seed: u64, f: u64) -> Seq<u8> {
    let start = seed.wrapping_add(f);
    echo_bytes(start, (16 + start % 80) as nat)
}

/// A WebSocket tunnel over an HTTP/3 stream.
#[derive(Debug)]
pub struct WsTunnel {
    phase: TunnelPhase,
    seed: u64,
    frame: u64,
    max_frames: u64,
    until_cancel: bool,
    rx: Vec<u8>,
}

/// A tunnel as its phase, the number of echoes that came back, and what is
/// left of the received bytes.
pub struct TunnelView {
    pub phase: TunnelPhase,
    pub seed: u64,
    pub frame: u64,
    pub max_frames: u64,
    pub until_cancel: bool,
    pub rx: Seq<u8>,
}

impl View for WsTunnel {
    type V = TunnelView;

    closed spec fn view(&self) -> TunnelView {
        TunnelView {
            phase: self.phase,
            seed: self.seed,
            frame: self.frame,
            max_frames: self.max_frames,
            until_cancel: self.until_cancel,
            rx: self.rx@,
        }
    }
}

impl TunnelView {
    /// Whether another echo is due.
    pub open spec fn goes_on(self, cancelled: bool) -> bool {
        session_goes_on(self.until_cancel, cancelled, self.frame, self.max_frames)
    }

    /// The fault of a tunnel whose time is over or whose connection closed.
    /// Between two echoes a closed connection is one only while another echo
    /// is due.
    pub open spec fn fault(self, expired: bool, closed: bool, cancelled: bool) -> Option<TunnelFault> {
        if expired && timeout_fault(self.phase) is Some {
            timeout_fault(self.phase)
        } else if closed && (self.phase == TunnelPhase::Echoing ==> self.goes_on(cancelled)) {
            closing_fault(self.phase)
        } else {
            None
        }
    }

    /// The tunnel in another phase.
    pub open spec fn turned(self, phase: TunnelPhase) -> TunnelView {
        TunnelView { phase, ..self }
    }

    /// The tunnel once it was asked for its next frame.
    pub open spec fn asked(self, cancelled: bool) -> TunnelView {
        self.turned(
            if self.goes_on(cancelled) {
                TunnelPhase::Sending
            } else {
                TunnelPhase::Closing
            },
        )
    }

    /// The tunnel with more received bytes.
    pub open spec fn fed(self, bytes: Seq<u8>) -> TunnelView {
        TunnelView { rx: self.rx + bytes, ..self }
    }

    /// The echoes of the present frame among the received bytes, and what is
    /// left of these.
    pub open spec fn found(self) -> (nat, Seq<u8>) {
        echoes(self.rx, tunnel_bytes(self.seed, self.frame))
    }

    /// The tunnel once the complete frames were taken: the first echo ends the
    /// wait.
    pub open spec fn drained(self) -> TunnelView {
        if self.found().0 > 0 {
            TunnelView {
                phase: TunnelPhase::Echoing,
                frame: next_count(self.frame),
                rx: self.found().1,
                ..self
            }
        } else {
            TunnelView { rx: self.found().1, ..self }
        }
    }
}

impl WsTunnel {
    /// A tunnel that is to be opened. It is held until the run is cancelled,
    /// or closed after `max_frames` echoes.
    pub fn new(seed: u64, max_frames: u64, until_cancel: bool) -> (r: Self)
        ensures
            r@ == (TunnelView {
                phase: TunnelPhase::Handshake,
                seed,
                frame: 0,
                max_frames,
                until_cancel,
                rx: Seq::empty(),
            }),
    {
        let rx: Vec<u8> = Vec::new();
        assert(rx@ =~= Seq::empty());
        WsTunnel { phase: TunnelPhase::Handshake, seed, frame: 0, max_frames, until_cancel, rx }
    }

    /// Where the tunnel stands.
    pub fn phase(&self) -> (r: TunnelPhase)
        ensures
            r == self@.phase,
    {
        self.phase
    }

    /// How many echoes came back.
    pub fn frame(&self) -> (r: u64)
        ensures
            r == self@.frame,
    {
        self.frame
    }

    /// The fault of the present phase, if the connection closed in it or it
    /// took too long.
    pub fn check(&self, expired: bool, closed: bool, cancelled: bool) -> (r: Option<TunnelFault>)
        ensures
            r == self@.fault(expired, closed, cancelled),
    {
        if expired {
            match self.phase {
                TunnelPhase::Handshake => {
                    return Some(TunnelFault::HandshakeTimeout);
                },
                TunnelPhase::AwaitingStatus => {
                    return Some(TunnelFault::NoStatus);
                },
                TunnelPhase::Sending => {
                    return Some(TunnelFault::SendTimeout);
                },
                TunnelPhase::AwaitingEcho => {
                    return Some(TunnelFault::EchoTimeout);
                },
                TunnelPhase::Opening => {},
                TunnelPhase::Echoing => {},
                TunnelPhase::Closing => {},
            }
        }
        if !closed {
            return None;
        }
        match self.phase {
            TunnelPhase::Handshake => Some(TunnelFault::ClosedInHandshake),
            TunnelPhase::Opening => Some(TunnelFault::ClosedBeforeConnect),
            TunnelPhase::AwaitingStatus => Some(TunnelFault::ClosedBeforeStatus),
            TunnelPhase::Echoing => if goes_on(
                self.until_cancel,
                cancelled,
                self.frame,
                self.max_frames,
            ) {
                Some(TunnelFault::ClosedMidEcho)
            } else {
                None
            },
            TunnelPhase::AwaitingEcho => Some(TunnelFault::ClosedAwaitingEcho),
            TunnelPhase::Sending => None,
            TunnelPhase::Closing => None,
        }
    }

    /// The connection is established.
    pub fn on_established(&mut self)
        requires
            old(self)@.phase == TunnelPhase::Handshake,
        ensures
            final(self)@ == old(self)@.turned(TunnelPhase::Opening),
    {
        self.phase = TunnelPhase::Opening;
    }

    /// The request for the tunnel is sent.
    pub fn on_opened(&mut self)
        requires
            old(self)@.phase == TunnelPhase::Opening,
        ensures
            final(self)@ == old(self)@.turned(TunnelPhase::AwaitingStatus),
    {
        self.phase = TunnelPhase::AwaitingStatus;
    }

    /// The response is there: only a 200 opens the tunnel, and only while the
    /// connection is open.
    pub fn on_status(&mut self, status: u16, closed: bool) -> (r: Option<TunnelFault>)
        requires
            old(self)@.phase == TunnelPhase::AwaitingStatus,
        ensures
            r == if closed {
                Some(TunnelFault::ClosedBeforeStatus)
            } else if status != 200 {
                Some(TunnelFault::Status(status))
            } else {
                None
            },
            final(self)@ == if r is None {
                old(self)@.turned(TunnelPhase::Echoing)
            } else {
                old(self)@
            },
    {
        if closed {
            return Some(TunnelFault::ClosedBeforeStatus);
        }
        if status == 200 {
            self.phase = TunnelPhase::Echoing;
            None
        } else {
            Some(TunnelFault::Status(status))
        }
    }

    /// The next frame to send; none when the tunnel is to be closed.
    pub fn next_frame(&mut self, cancelled: bool) -> (r: Option<Vec<u8>>)
        requires
            old(self)@.phase == TunnelPhase::Echoing,
        ensures
            match r {
                Some(f) => {
                    &&& old(self)@.goes_on(cancelled)
                    &&& f@ == masked_frame(WS_BINARY, tunnel_bytes(old(self)@.seed, old(self)@.frame))
                },
                None => !old(self)@.goes_on(cancelled),
            },
            final(self)@ == old(self)@.asked(cancelled),
    {
        if goes_on(self.until_cancel, cancelled, self.frame, self.max_frames) {
            let payload = self.payload();
            self.phase = TunnelPhase::Sending;
            Some(ws_mask_frame(WS_BINARY, &payload))
        } else {
            self.phase = TunnelPhase::Closing;
            None
        }
    }

    fn payload(&self) -> (out: Vec<u8>)
        ensures
            out@ == tunnel_bytes(self@.seed, self@.frame),
    {
        let start: u64 = self.seed.wrapping_add(self.frame);
        let len: usize = 16 + (start % 80) as usize;
        echo_payload(start, len)
    }

    /// The frame was taken as a whole.
    pub fn on_sent(&mut self)
        requires
            old(self)@.phase == TunnelPhase::Sending,
        ensures
            final(self)@ == old(self)@.turned(TunnelPhase::AwaitingEcho),
    {
        self.phase = TunnelPhase::AwaitingEcho;
    }

    /// More bytes came out of the tunnel while the status is awaited.
    pub fn keep(&mut self, bytes: &[u8])
        ensures
            final(self)@ == old(self)@.fed(bytes@),
    {
        let mut i: usize = 0;
        let ghost before = self.rx@;
        while i < bytes.len()
            invariant
                i <= bytes@.len(),
                self@ == (TunnelView { rx: before + bytes@.take(i as int), ..old(self)@ }),
            decreases bytes@.len() - i,
        {
            self.rx.push(bytes[i]);
            assert(before + bytes@.take(i + 1) =~= (before + bytes@.take(i as int)).push(
                bytes@[i as int],
            ));
            i += 1;
        }
        assert(bytes@.take(i as int) =~= bytes@);
    }

    /// Takes the complete frames that are there. Each one that brings the
    /// payload back is a verified echo and counts as a success; the first of
    /// them ends the wait. A connection that is closed by then is a fault all
    /// the same.
    pub fn on_received(&mut self, closed: bool, stats: &mut LoadStats) -> (r: Option<TunnelFault>)
        requires
            old(self)@.phase == TunnelPhase::AwaitingEcho,
        ensures
            final(stats).tally() == (
                old(stats).tally().0.wrapping_add(old(self)@.found().0 as u64),
                old(stats).tally().1,
            ),
            final(self)@ == old(self)@.drained(),
            r == if closed {
                Some(TunnelFault::ClosedAwaitingEcho)
            } else {
                None
            },
    {
        let payload = self.payload();
        let n: usize = take_echoes(&mut self.rx, &payload);
        stats.ok_many(n as u64);
        if n > 0 {
            self.phase = TunnelPhase::Echoing;
            self.frame = self.frame.wrapping_add(1);
        }
        if closed {
            Some(TunnelFault::ClosedAwaitingEcho)
        } else {
            None
        }
    }
}

/// The frame that closes a tunnel, with the status of a normal end.
pub fn close_frame() -> (f: Vec<u8>)
    ensures
        f@ == masked_frame(WS_CLOSE, seq![0x03u8, 0xe8u8]),
{
    let mut status: Vec<u8> = Vec::new();
    status.push(0x03);
    status.push(0xe8);
    assert(status@ =~= seq![0x03u8, 0xe8u8]);
    ws_mask_frame(WS_CLOSE, &status)
}

/// A front that relays the answer of an echo server is credited with exactly
/// one echo for it, and nothing is left over.
pub proof fn law_relayed_frame_is_an_echo(seed: u64, f: u64)
    ensures
        echoes(plain_frame(WS_BINARY, tunnel_bytes(seed, f)), tunnel_bytes(seed, f)) == (
            1nat,
            Seq::<u8>::empty(),
        ),
{
    let payload = tunnel_bytes(seed, f);
    let frame = plain_frame(WS_BINARY, payload);
    law_server_frame_reads(WS_BINARY, payload, Seq::empty());
    assert(frame + Seq::<u8>::empty() =~= frame);
    let rest = frame.skip(payload.len() as int + 2);
    assert(rest =~= Seq::<u8>::empty());
    assert(first_frame(rest) is None);
    reveal_with_fuel(echoes, 2);
}

/// What may happen to a tunnel, short of a fault.
pub enum TunnelEvent {
    Established,
    Opened,
    Accepted,
    Asked { cancelled: bool },
    Sent,
    Fed { bytes: Seq<u8> },
    Received,
}

/// Whether an event leads from one tunnel and tally to another.
pub open spec fn tunnel_step(
    before: (TunnelView, (u64, u64)),
    event: TunnelEvent,
    after: (TunnelView, (u64, u64)),
) -> bool {
    let t = before.0;
    let same = after.1 == before.1;
    match event {
        TunnelEvent::Established => same && t.phase == TunnelPhase::Handshake && after.0 == t.turned(
            TunnelPhase::Opening,
        ),
        TunnelEvent::Opened => same && t.phase == TunnelPhase::Opening && after.0 == t.turned(
            TunnelPhase::AwaitingStatus,
        ),
        TunnelEvent::Accepted => same && t.phase == TunnelPhase::AwaitingStatus && after.0 == t.turned(
            TunnelPhase::Echoing,
        ),
        TunnelEvent::Asked { cancelled } => same && t.phase == TunnelPhase::Echoing && after.0
            == t.asked(cancelled),
        TunnelEvent::Sent => same && t.phase == TunnelPhase::Sending && after.0 == t.turned(
            TunnelPhase::AwaitingEcho,
        ),
        TunnelEvent::Fed { bytes } => same && after.0 == t.fed(bytes),
        TunnelEvent::Received => {
            &&& t.phase == TunnelPhase::AwaitingEcho
            &&& after.0 == t.drained()
            &&& after.1 == (before.1.0.wrapping_add(t.found().0 as u64), before.1.1)
        },
    }
}

/// Whether a fresh tunnel goes through these states without a fault, while its
/// peer echoes no frame twice.
pub open spec fn tunnel_run(states: Seq<(TunnelView, (u64, u64))>, events: Seq<TunnelEvent>) -> bool {
    &&& states.len() == events.len() + 1
    &&& states[0].0.phase == TunnelPhase::Handshake
    &&& states[0].0.frame == 0
    &&& forall|k: int|
        0 <= k < events.len() ==> tunnel_step(states[k], #[trigger] events[k], states[k + 1])
    &&& forall|k: int|
        0 <= k < events.len() && #[trigger] events[k] is Received ==> states[k].0.found().0 <= 1
}

/// A tunnel whose peer echoes each frame once counts a success for each echo
/// and no error. One that is not held until the run is cancelled and that comes
/// to its close has counted exactly as many as it was to send; one that is held
/// closes only once the run is cancelled.
pub proof fn law_tunnel_counts_its_frames(
    states: Seq<(TunnelView, (u64, u64))>,
    events: Seq<TunnelEvent>,
)
    requires
        tunnel_run(states, events),
    ensures
        ({
            let (start, (ok, err)) = states[0];
            let (end, tally) = states.last();
            &&& tally == (ok.wrapping_add(end.frame), err)
            &&& end.phase == TunnelPhase::Closing && !start.until_cancel ==> tally == (
                ok.wrapping_add(start.max_frames),
                err,
            )
            &&& end.phase == TunnelPhase::Closing && start.until_cancel ==> exists|k: int|
                0 <= k < events.len() && #[trigger] events[k] == (TunnelEvent::Asked {
                    cancelled: true,
                })
        }),
{
    lemma_tunnel_run(states, events, events.len() as int);
}

proof fn lemma_tunnel_run(
    states: Seq<(TunnelView, (u64, u64))>,
    events: Seq<TunnelEvent>,
    k: int,
)
    requires
        tunnel_run(states, events),
        0 <= k <= events.len(),
    ensures
        ({
            let (start, (ok, err)) = states[0];
            let (now, tally) = states[k];
            &&& now.max_frames == start.max_frames
            &&& now.until_cancel == start.until_cancel
            &&& tally == (ok.wrapping_add(now.frame), err)
            &&& !start.until_cancel ==> now.frame <= start.max_frames
            &&& !start.until_cancel && (now.phase == TunnelPhase::Sending || now.phase
                == TunnelPhase::AwaitingEcho) ==> now.frame < start.max_frames
            &&& !start.until_cancel && now.phase == TunnelPhase::Closing ==> now.frame
                == start.max_frames
            &&& start.until_cancel && now.phase == TunnelPhase::Closing ==> exists|i: int|
                0 <= i < k && #[trigger] events[i] == (TunnelEvent::Asked { cancelled: true })
        }),
    decreases k,
{
    if k > 0 {
        lemma_tunnel_run(states, events, k - 1);
        assert(tunnel_step(states[k - 1], events[k - 1], states[k - 1 + 1]));
        if events[k - 1] is Received {
            assert(states[k - 1].0.found().0 <= 1);
        }
    }
}

// ---------------------------------------------------------------------------
// Laws of the calls
// ---------------------------------------------------------------------------

/// What an echo is judged to be, and how it is counted: one with the very bytes
/// that were sent is a success, one with others an error, and a connection that
/// closed is neither.
pub proof fn law_echo_is_judged(
    payload: &[u8],
    echo: WsEcho,
    v: EchoVerdict,
    stats: &mut LoadStats,
)
    requires
        call_ensures(judge_echo, (payload, &echo), v),
        call_ensures(record_echo, (stats, v), ()),
        old(stats).tally().0 < u64::MAX,
        old(stats).tally().1 < u64::MAX,
    ensures
        echo matches WsEcho::Bytes(b) ==> {
            &&& b@ == payload@ ==> final(stats).tally() == (
                (old(stats).tally().0 + 1) as u64,
                old(stats).tally().1,
            )
            &&& b@ != payload@ ==> final(stats).tally() == (
                old(stats).tally().0,
                (old(stats).tally().1 + 1) as u64,
            )
        },
        echo is Closed ==> final(stats).tally() == old(stats).tally(),
{
}

/// What is sent through a tunnel: never nothing, and else a body of its turn, as
/// an echo that starts at its number, or at its seed.
pub proof fn law_tunnel_payloads(
    i: u64,
    a: Vec<u8>,
    seed: u64,
    f: u64,
    b: Vec<u8>,
    m: usize,
    n: usize,
    size: usize,
    turn: usize,
    x: Vec<u8>,
    y: Vec<u8>,
)
    requires
        seed + f <= u64::MAX,
        call_ensures(sustained_payload, (i,), a),
        call_ensures(churn_payload, (seed, f), b),
        call_ensures(body_size, (i,), size),
        call_ensures(body_size, ((seed + f) as u64,), turn),
        m == if size == 0 {
            1usize
        } else {
            size
        },
        n == if turn == 0 {
            1usize
        } else {
            turn
        },
        call_ensures(echo_payload, (i, m), x),
        call_ensures(echo_payload, (seed, n), y),
    ensures
        a@ == x@,
        b@ == y@,
        a@.len() > 0,
        b@.len() > 0,
{
}

/// What ends a tunnel early: its time where it waits for the peer, and a
/// connection that closes before it is done; the time first. Each phase has a
/// fault of its own, and a time of its own where it has one.
pub proof fn law_tunnel_check(
    t: WsTunnel,
    expired: bool,
    closed: bool,
    cancelled: bool,
    more: bool,
    r: Option<TunnelFault>,
    ms: u64,
)
    requires
        call_ensures(WsTunnel::check, (&t, expired, closed, cancelled), r),
        call_ensures(goes_on, (t@.until_cancel, cancelled, t@.frame, t@.max_frames), more),
        call_ensures(phase_budget_ms, (t@.phase,), ms),
    ensures
        !expired && !closed ==> r is None,
        t@.phase == TunnelPhase::Handshake ==> ms == 8_000 && (expired ==> r == Some(
            TunnelFault::HandshakeTimeout,
        )) && (!expired && closed ==> r == Some(TunnelFault::ClosedInHandshake)),
        t@.phase == TunnelPhase::Opening ==> ms == 0 && (r is Some <==> closed) && (closed ==> r
            == Some(TunnelFault::ClosedBeforeConnect)),
        t@.phase == TunnelPhase::AwaitingStatus ==> ms == 6_000 && (expired ==> r == Some(
            TunnelFault::NoStatus,
        )) && (!expired && closed ==> r == Some(TunnelFault::ClosedBeforeStatus)),
        t@.phase == TunnelPhase::Echoing ==> ms == 0 && (r is Some <==> closed && more) && (r is Some
            ==> r == Some(TunnelFault::ClosedMidEcho)),
        t@.phase == TunnelPhase::Sending ==> ms == 5_000 && (r is Some <==> expired) && (r is Some
            ==> r == Some(TunnelFault::SendTimeout)),
        t@.phase == TunnelPhase::AwaitingEcho ==> ms == 5_000 && (expired ==> r == Some(
            TunnelFault::EchoTimeout,
        )) && (!expired && closed ==> r == Some(TunnelFault::ClosedAwaitingEcho)),
        t@.phase == TunnelPhase::Closing ==> ms == 0 && r is None,
{
}

/// A tunnel opens exactly with a status of 200, on a connection that is open.
pub proof fn law_tunnel_opens(t: &mut WsTunnel, status: u16, closed: bool, r: Option<TunnelFault>)
    requires
        old(t)@.phase == TunnelPhase::AwaitingStatus,
        call_ensures(WsTunnel::on_status, (t, status, closed), r),
    ensures
        r is None <==> status == 200 && !closed,
        r is None ==> final(t)@.phase == TunnelPhase::Echoing,
        r is Some ==> final(t)@.phase == TunnelPhase::AwaitingStatus,
        closed ==> r == Some(TunnelFault::ClosedBeforeStatus),
        !closed && status != 200 ==> r == Some(TunnelFault::Status(status)),
        final(t)@.frame == old(t)@.frame,
        final(t)@.rx == old(t)@.rx,
{
}

/// What a tunnel sends next: exactly while it goes on, and then a binary frame of
/// between 16 and 95 bytes, the echo that starts at its seed and its number.
pub proof fn law_next_frame(
    t: &mut WsTunnel,
    cancelled: bool,
    r: Option<Vec<u8>>,
    more: bool,
    start: u64,
    len: usize,
    message: Vec<u8>,
    bytes: &[u8],
    masked: Vec<u8>,
)
    requires
        old(t)@.phase == TunnelPhase::Echoing,
        call_ensures(WsTunnel::next_frame, (t, cancelled), r),
        call_ensures(goes_on, (old(t)@.until_cancel, cancelled, old(t)@.frame, old(t)@.max_frames), more),
        old(t)@.seed + old(t)@.frame <= u64::MAX,
        start == old(t)@.seed + old(t)@.frame,
        len == 16 + start % 80,
        call_ensures(echo_payload, (start, len), message),
        bytes@ == message@,
        call_ensures(ws_mask_frame, (2u8, bytes), masked),
    ensures
        r is Some <==> more,
        r is Some ==> r->0@ == masked@ && final(t)@.phase == TunnelPhase::Sending,
        r is None ==> final(t)@.phase == TunnelPhase::Closing,
        final(t)@.frame == old(t)@.frame,
        final(t)@.rx == old(t)@.rx,
{
}

/// What a tunnel does with what came: it takes the echoes of its frame, counts
/// them as successes, and goes on to the next frame exactly when there was one.
pub proof fn law_echoes_move_on(
    t: &mut WsTunnel,
    closed: bool,
    stats: &mut LoadStats,
    r: Option<TunnelFault>,
    start: u64,
    len: usize,
    message: Vec<u8>,
    bytes: &[u8],
    rx: &mut Vec<u8>,
    n: usize,
)
    requires
        old(t)@.phase == TunnelPhase::AwaitingEcho,
        call_ensures(WsTunnel::on_received, (t, closed, stats), r),
        old(t)@.seed + old(t)@.frame <= u64::MAX,
        start == old(t)@.seed + old(t)@.frame,
        len == 16 + start % 80,
        call_ensures(echo_payload, (start, len), message),
        bytes@ == message@,
        old(rx)@ == old(t)@.rx,
        call_ensures(take_echoes, (rx, bytes), n),
        old(stats).tally().0 + n <= u64::MAX,
        old(t)@.frame < u64::MAX,
    ensures
        final(t)@.rx == final(rx)@,
        final(stats).tally().0 == old(stats).tally().0 + n,
        final(stats).tally().1 == old(stats).tally().1,
        n > 0 ==> final(t)@.phase == TunnelPhase::Echoing && final(t)@.frame == old(t)@.frame + 1,
        n == 0 ==> final(t)@.phase == TunnelPhase::AwaitingEcho && final(t)@.frame == old(t)@.frame,
        closed <==> r is Some,
{
}

/// Bytes that come through a tunnel are kept behind those that came before, and
/// nothing else changes; the frame that closes a tunnel says that all is well.
pub proof fn law_tunnel_keeps_bytes(
    t: &mut WsTunnel,
    bytes: &[u8],
    close: Vec<u8>,
    buf: &[u8],
    r: Option<(u8, Vec<u8>, usize)>,
)
    requires
        call_ensures(WsTunnel::keep, (t, bytes), ()),
        call_ensures(close_frame, (), close),
        buf@ == close@,
        call_ensures(ws_parse_one, (buf,), r),
    ensures
        final(t)@.rx == old(t)@.rx + bytes@,
        final(t)@.phase == old(t)@.phase,
        final(t)@.frame == old(t)@.frame,
        r is Some,
        (r->0).0 == 8,
        (r->0).1@ == seq![3u8, 232u8],
{
    let body = seq![0x03u8, 0xe8u8];
    law_frame_round_trip(WS_CLOSE, body, Seq::<u8>::empty());
    assert(masked_frame(WS_CLOSE, body) + Seq::<u8>::empty() =~= close@);
}

/// What is said of a tunnel that failed: each fault in words of its own.
pub proof fn law_tunnel_words(f: TunnelFault, out: String)
    requires
        call_ensures(TunnelFault::message, (&f,), out),
    ensures
        f == TunnelFault::HandshakeTimeout ==> out@ == "handshake timeout"@,
        f == TunnelFault::ClosedInHandshake ==> out@ == "closed during handshake"@,
        f == TunnelFault::ClosedBeforeConnect ==> out@ == "closed before CONNECT"@,
        f == TunnelFault::NoStatus ==> out@ == "no 200 (status timeout)"@,
        f == TunnelFault::ClosedBeforeStatus ==> out@ == "closed before 200"@,
        f matches TunnelFault::Status(s) ==> out@ == "extended CONNECT status Some("@ + decimal(s as nat)
            + ")"@,
        f == TunnelFault::ClosedMidEcho ==> out@ == "tunnel closed mid-echo"@,
        f == TunnelFault::SendTimeout ==> out@ == "ws send timeout"@,
        f == TunnelFault::EchoTimeout ==> out@ == "ws echo timeout"@,
        f == TunnelFault::ClosedAwaitingEcho ==> out@ == "tunnel closed awaiting echo"@,
{
}

/// How a tunnel gets to its echoes: established it asks for the tunnel, then
/// awaits the status, and a frame that was sent awaits its echo; nothing else
/// changes.
pub proof fn law_tunnel_phases(a: &mut WsTunnel, b: &mut WsTunnel, c: &mut WsTunnel)
    requires
        old(a)@.phase == TunnelPhase::Handshake,
        call_ensures(WsTunnel::on_established, (a,), ()),
        old(b)@.phase == TunnelPhase::Opening,
        call_ensures(WsTunnel::on_opened, (b,), ()),
        old(c)@.phase == TunnelPhase::Sending,
        call_ensures(WsTunnel::on_sent, (c,), ()),
    ensures
        final(a)@.phase == TunnelPhase::Opening,
        final(a)@.frame == old(a)@.frame,
        final(a)@.rx == old(a)@.rx,
        final(b)@.phase == TunnelPhase::AwaitingStatus,
        final(b)@.frame == old(b)@.frame,
        final(b)@.rx == old(b)@.rx,
        final(c)@.phase == TunnelPhase::AwaitingEcho,
        final(c)@.frame == old(c)@.frame,
        final(c)@.rx == old(c)@.rx,
{
}

/// A tunnel starts with its handshake, before its first frame.
pub proof fn law_tunnel_starts(seed: u64, max_frames: u64, until_cancel: bool, t: WsTunnel)
    requires
        call_ensures(WsTunnel::new, (seed, max_frames, until_cancel), t),
    ensures
        t@.phase == TunnelPhase::Handshake,
        t@.seed == seed,
        t@.frame == 0,
        t@.max_frames == max_frames,
        t@.until_cancel == until_cancel,
        t@.rx.len() == 0,
{
}

} // verus!
