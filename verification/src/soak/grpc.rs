//! Unary gRPC calls over HTTP/3: the message that is sent, the trailer that
//! has to come back, and the session that issues call after call.

use vstd::prelude::*;
use crate::soak::calls::{byte_chars, header_number, read_status, status_after, Field};
use crate::soak::frames::{echo_bytes, echo_payload, frame_grpc, grpc_frame, same_bytes};
use crate::soak::loadgen::{goes_on, next_count, session_goes_on, LoadStats};
use crate::text::{decimal, push_decimal, unsigned_value};

verus! {

// ---------------------------------------------------------------------------
// Trailers
// ---------------------------------------------------------------------------

/// The integer that a text stands for, within 32 bits.
pub open spec fn signed_value(s: Seq<char>) -> Option<int> {
    if s.len() > 0 && s[0] == '-' {
        if s.len() > 1 && s[1] == '+' {
            None
        } else {
            match unsigned_value(s.skip(1), 0x8000_0000) {
                Some(n) => Some(-(n as int)),
                None => None,
            }
        }
    } else {
        match unsigned_value(s, 0x7fff_ffff) {
            Some(n) => Some(n as int),
            None => None,
        }
    }
}

/// The integer in a header value.
pub fn header_integer(value: &Vec<u8>) -> (r: Option<i32>)
    ensures
        match r {
            Some(n) => signed_value(byte_chars(value@)) == Some(n as int),
            None => signed_value(byte_chars(value@)) is None,
        },
{
    let ghost chars = byte_chars(value@);
    if value.len() > 0 && value[0] == 45 {
        assert(chars[0] == '-');
        if value.len() > 1 && value[1] == 43 {
            assert(chars[1] == '+');
            return None;
        }
        let mut digits: Vec<u8> = Vec::new();
        let mut i: usize = 1;
        while i < value.len()
            invariant
                1 <= i <= value@.len(),
                digits@ =~= value@.subrange(1, i as int),
            decreases value@.len() - i,
        {
            digits.push(value[i]);
            i += 1;
        }
        assert(byte_chars(digits@) =~= chars.skip(1));
        if value.len() > 1 {
            assert(chars[1] == value@[1] as char);
        }
        match header_number(&digits, 0x8000_0000) {
            Some(n) => Some((0i64 - n as i64) as i32),
            None => None,
        }
    } else {
        if value.len() > 0 {
            assert(chars[0] == value@[0] as char);
        }
        match header_number(value, 0x7fff_ffff) {
            Some(n) => Some(n as i32),
            None => None,
        }
    }
}

/// The name of the trailer of a call.
pub open spec fn trailer_name() -> Seq<u8> {
    seq![103u8, 114u8, 112u8, 99u8, 45u8, 115u8, 116u8, 97u8, 116u8, 117u8, 115u8]
}

/// The trailer after a list of headers.
pub open spec fn trailer_after(known: Option<int>, list: Seq<Field>) -> Option<int>
    decreases list.len(),
{
    if list.len() == 0 {
        known
    } else if list.last().0@ == trailer_name() {
        signed_value(byte_chars(list.last().1@))
    } else {
        trailer_after(known, list.drop_last())
    }
}

/// The trailer of a call as an integer.
pub open spec fn as_int(v: Option<i32>) -> Option<int> {
    match v {
        Some(n) => Some(n as int),
        None => None,
    }
}

/// The trailer after a list of headers.
pub fn read_trailer(known: Option<i32>, list: &Vec<Field>) -> (r: Option<i32>)
    ensures
        as_int(r) == trailer_after(as_int(known), list@),
{
    let want: Vec<u8> = vec![103u8, 114, 112, 99, 45, 115, 116, 97, 116, 117, 115];
    assert(want@ =~= trailer_name());
    let mut trailer: Option<i32> = known;
    let mut i: usize = 0;
    while i < list.len()
        invariant
            i <= list@.len(),
            want@ == trailer_name(),
            as_int(trailer) == trailer_after(as_int(known), list@.take(i as int)),
        decreases list@.len() - i,
    {
        assert(list@.take(i + 1).drop_last() =~= list@.take(i as int));
        if same_bytes(&list[i].0, &want) {
            trailer = header_integer(&list[i].1);
        }
        i += 1;
    }
    assert(list@.take(i as int) =~= list@);
    trailer
}

/// The message of a call: a few kilobytes, different from call to call.
pub open spec fn call_message(seed: u64, i: u64) -> Seq<u8> {
    let start = seed.wrapping_add(i);
    echo_bytes(start, (2048 + start % 2048) as nat)
}

/// The framed message of a call.
pub fn call_frame(seed: u64, i: u64) -> (out: Vec<u8>)
    ensures
        out@ == grpc_frame(call_message(seed, i)),
{
    let start: u64 = seed.wrapping_add(i);
    let message = echo_payload(start, 2048 + (start % 2048) as usize);
    frame_grpc(&message)
}

/// Why a call counts against the front.
#[derive(Debug, Clone, Copy, PartialEq, Eq, Structural)]
pub enum CallFault {
    Status(Option<u16>),
    /// The trailer was missing or not zero.
    Trailer(Option<i32>),
    Echo { got: usize, want: usize },
    /// The connection closed with the answer.
    Closed,
}

/// A number in decimal, with its sign if it is negative.
pub open spec fn signed_decimal(n: int) -> Seq<char> {
    if n < 0 {
        "-"@ + decimal((-n) as nat)
    } else {
        decimal(n as nat)
    }
}

/// A number that may be missing.
pub open spec fn shown(n: Option<int>) -> Seq<char> {
    match n {
        Some(v) => "Some("@ + signed_decimal(v) + ")"@,
        None => "None"@,
    }
}

fn push_shown(out: &mut String, n: Option<i64>)
    requires
        n matches Some(v) ==> v > i64::MIN,
    ensures
        final(out)@ == old(out)@ + shown(
            match n {
                Some(v) => Some(v as int),
                None => None,
            },
        ),
{
    match n {
        Some(v) => {
            out.append("Some(");
            if v < 0 {
                out.append("-");
                push_decimal(out, (-v) as u64);
            } else {
                push_decimal(out, v as u64);
            }
            out.append(")");
            assert(out@ =~= old(out)@ + shown(Some(v as int)));
        },
        None => {
            out.append("None");
        },
    }
}

impl CallFault {
    /// The message of the fault.
    pub open spec fn text(self) -> Seq<char> {
        match self {
            CallFault::Status(status) => "status "@ + shown(
                match status {
                    Some(s) => Some(s as int),
                    None => None,
                },
            ),
            CallFault::Trailer(trailer) => "grpc-status "@ + shown(as_int(trailer))
                + " (trailer drop?)"@,
            CallFault::Echo { got, want } => "echo mismatch ("@ + decimal(got as nat) + " vs "@
                + decimal(want as nat) + " bytes)"@,
            CallFault::Closed => "closed mid-response"@,
        }
    }

    /// The message of the fault.
    pub fn message(&self) -> (out: String)
        ensures
            out@ == self.text(),
    {
        match *self {
            CallFault::Status(status) => {
                let mut out: String = "status ".to_owned();
                push_shown(
                    &mut out,
                    match status {
                        Some(s) => Some(s as i64),
                        None => None,
                    },
                );
                out
            },
            CallFault::Trailer(trailer) => {
                let mut out: String = "grpc-status ".to_owned();
                push_shown(
                    &mut out,
                    match trailer {
                        Some(t) => Some(t as i64),
                        None => None,
                    },
                );
                out.append(" (trailer drop?)");
                out
            },
            CallFault::Echo { got, want } => {
                let mut out: String = "echo mismatch (".to_owned();
                push_decimal(&mut out, got as u64);
                out.append(" vs ");
                push_decimal(&mut out, want as u64);
                out.append(" bytes)");
                out
            },
            CallFault::Closed => "closed mid-response".to_owned(),
        }
    }
}

/// The judgement of an answer: the status is looked at first, then the
/// trailer, then the message.
pub open spec fn call_outcome(
    status: Option<u16>,
    trailer: Option<int>,
    body: Seq<u8>,
    framed: Seq<u8>,
    r: Option<CallFault>,
) -> bool {
    match r {
        Some(CallFault::Status(seen)) => seen == status && status != Some(200u16),
        Some(CallFault::Trailer(seen)) => {
            &&& status == Some(200u16)
            &&& as_int(seen) == trailer
            &&& trailer != Some(0int)
        },
        Some(CallFault::Echo { got, want }) => {
            &&& status == Some(200u16)
            &&& trailer == Some(0int)
            &&& body != framed
            &&& got == body.len()
            &&& want == framed.len()
        },
        Some(CallFault::Closed) => false,
        None => status == Some(200u16) && trailer == Some(0int) && body == framed,
    }
}

/// What is wrong with the answer to a call, if anything.
pub fn judge_call(status: Option<u16>, grpc_status: Option<i32>, body: &[u8], framed: &[u8]) -> (r:
    Option<CallFault>)
    ensures
        call_outcome(status, as_int(grpc_status), body@, framed@, r),
{
    match status {
        Some(s) => {
            if s != 200 {
                return Some(CallFault::Status(status));
            }
        },
        None => {
            return Some(CallFault::Status(None));
        },
    }
    match grpc_status {
        Some(s) => {
            if s != 0 {
                return Some(CallFault::Trailer(grpc_status));
            }
        },
        None => {
            return Some(CallFault::Trailer(None));
        },
    }
    if !same_bytes(body, framed) {
        return Some(CallFault::Echo { got: body.len(), want: framed.len() });
    }
    None
}

// ---------------------------------------------------------------------------
// Sessions
// ---------------------------------------------------------------------------

/// The headers of a call to a server, in order.
pub fn call_headers(server: &str) -> (out: Vec<(&'static str, String)>)
    ensures
        out@.len() == 6,
        out@[0].0@ == ":method"@ && out@[0].1@ == "POST"@,
        out@[1].0@ == ":scheme"@ && out@[1].1@ == "https"@,
        out@[2].0@ == ":authority"@ && out@[2].1@ == server@,
        out@[3].0@ == ":path"@ && out@[3].1@ == "/echo.Echo/Unary"@,
        out@[4].0@ == "content-type"@ && out@[4].1@ == "application/grpc"@,
        out@[5].0@ == "te"@ && out@[5].1@ == "trailers"@,
{
    let mut out: Vec<(&'static str, String)> = Vec::new();
    out.push((":method", "POST".to_owned()));
    out.push((":scheme", "https".to_owned()));
    out.push((":authority", server.to_owned()));
    out.push((":path", "/echo.Echo/Unary".to_owned()));
    out.push(("content-type", "application/grpc".to_owned()));
    out.push(("te", "trailers".to_owned()));
    out
}

/// The phases of a session.
#[derive(Debug, Clone, Copy, PartialEq, Eq, Structural)]
pub enum CallPhase {
    /// The connection is being established.
    Handshake,
    /// Between two calls.
    Idle,
    /// The request stream is being opened.
    Opening,
    /// The message is being sent.
    Sending,
    /// The answer is awaited.
    Awaiting,
    /// No further call is due.
    Ended,
}

/// How long a phase may last, in milliseconds; none without a limit.
pub fn phase_budget_ms(phase: CallPhase) -> (r: Option<u64>)
    ensures
        r == match phase {
            CallPhase::Handshake | CallPhase::Awaiting => Some(8_000u64),
            CallPhase::Sending => Some(5_000u64),
            CallPhase::Idle | CallPhase::Opening | CallPhase::Ended => None,
        },
{
    match phase {
        CallPhase::Handshake | CallPhase::Awaiting => Some(8_000),
        CallPhase::Sending => Some(5_000),
        CallPhase::Idle | CallPhase::Opening | CallPhase::Ended => None,
    }
}

/// What the connection reports of the stream of a call.
#[derive(Debug)]
pub enum AnswerEvent {
    Headers(Vec<Field>),
    Data(Vec<u8>),
    Finished,
    Other,
}

/// A session of calls, one after the other on one connection.
#[derive(Debug)]
pub struct CallSession {
    phase: CallPhase,
    seed: u64,
    call: u64,
    calls: u64,
    until_cancel: bool,
    stream: u64,
    framed: Vec<u8>,
    sent: usize,
    status: Option<u16>,
    trailer: Option<i32>,
    body: Vec<u8>,
    finished: bool,
}

/// A session as its phase, the number of calls that passed, and what was sent
/// and received of the present one.
pub struct SessionView {
    pub phase: CallPhase,
    pub seed: u64,
    pub call: u64,
    pub calls: u64,
    pub until_cancel: bool,
    pub stream: u64,
    pub framed: Seq<u8>,
    pub sent: nat,
    pub status: Option<u16>,
    pub trailer: Option<int>,
    pub body: Seq<u8>,
    pub finished: bool,
}

impl View for CallSession {
    type V = SessionView;

    closed spec fn view(&self) -> SessionView {
        SessionView {
            phase: self.phase,
            seed: self.seed,
            call: self.call,
            calls: self.calls,
            until_cancel: self.until_cancel,
            stream: self.stream,
            framed: self.framed@,
            sent: self.sent as nat,
            status: self.status,
            trailer: as_int(self.trailer),
            body: self.body@,
            finished: self.finished,
        }
    }
}

impl SessionView {
    /// The present call sends its own message, and what was sent is a part of
    /// it.
    pub open spec fn wf(self) -> bool {
        &&& self.sent <= self.framed.len()
        &&& self.phase == CallPhase::Opening || self.phase == CallPhase::Sending || self.phase
            == CallPhase::Awaiting ==> self.framed == grpc_frame(call_message(self.seed, self.call))
        &&& self.phase == CallPhase::Awaiting ==> self.sent == self.framed.len()
    }

    /// Whether another call is due.
    pub open spec fn goes_on(self, cancelled: bool) -> bool {
        session_goes_on(self.until_cancel, cancelled, self.call, self.calls)
    }

    /// The message of a session whose time is over or whose connection closed.
    /// Between two calls a closed connection is a failure only while another
    /// call is due.
    pub open spec fn failure(self, expired: bool, closed: bool, cancelled: bool) -> Option<
        Seq<char>,
    > {
        match self.phase {
            CallPhase::Handshake => if expired {
                Some("handshake timeout"@)
            } else if closed {
                Some("closed during handshake"@)
            } else {
                None
            },
            CallPhase::Idle => if closed && self.goes_on(cancelled) {
                Some("conn closed mid-session"@)
            } else {
                None
            },
            CallPhase::Opening => if closed {
                Some("closed before request"@)
            } else {
                None
            },
            CallPhase::Sending => if expired {
                Some("send timeout"@)
            } else {
                None
            },
            CallPhase::Awaiting => if expired {
                Some("response timeout (sid "@ + decimal(self.stream as nat) + ")"@)
            } else if closed {
                Some("closed mid-response"@)
            } else {
                None
            },
            CallPhase::Ended => None,
        }
    }

    /// The session once its connection is established.
    pub open spec fn ready(self) -> SessionView {
        SessionView { phase: CallPhase::Idle, ..self }
    }

    /// The session once it was asked for its next call.
    pub open spec fn asked(self, cancelled: bool) -> SessionView {
        if self.goes_on(cancelled) {
            SessionView {
                phase: CallPhase::Opening,
                framed: grpc_frame(call_message(self.seed, self.call)),
                sent: 0,
                status: None,
                trailer: None,
                body: Seq::empty(),
                finished: false,
                ..self
            }
        } else {
            SessionView { phase: CallPhase::Ended, ..self }
        }
    }

    /// The session once the stream of the call is open.
    pub open spec fn opened(self, stream: u64) -> SessionView {
        SessionView { phase: CallPhase::Sending, stream, ..self }
    }

    /// The session once `n` more bytes of the message were taken.
    pub open spec fn took(self, n: nat) -> SessionView {
        SessionView {
            sent: self.sent + n,
            phase: if self.sent + n == self.framed.len() {
                CallPhase::Awaiting
            } else {
                CallPhase::Sending
            },
            ..self
        }
    }

    /// The session once the call passed.
    pub open spec fn passed(self) -> SessionView {
        SessionView { phase: CallPhase::Idle, call: next_count(self.call), ..self }
    }

    /// The session after an event on the stream of the call.
    pub open spec fn heard(self, event: AnswerEvent) -> SessionView {
        match event {
            AnswerEvent::Headers(list) => SessionView {
                status: status_after(self.status, list@),
                trailer: trailer_after(self.trailer, list@),
                ..self
            },
            AnswerEvent::Data(bytes) => SessionView { body: self.body + bytes@, ..self },
            AnswerEvent::Finished => SessionView { finished: true, ..self },
            AnswerEvent::Other => self,
        }
    }
}

impl CallSession {
    /// A session that is to be established. It goes on until the run is
    /// cancelled, or ends after `calls` calls.
    pub fn new(seed: u64, calls: u64, until_cancel: bool) -> (r: Self)
        ensures
            r@ == (SessionView {
                phase: CallPhase::Handshake,
                seed,
                call: 0,
                calls,
                until_cancel,
                stream: 0,
                framed: Seq::empty(),
                sent: 0,
                status: None,
                trailer: None,
                body: Seq::empty(),
                finished: false,
            }),
            r@.wf(),
    {
        let framed: Vec<u8> = Vec::new();
        let body: Vec<u8> = Vec::new();
        assert(framed@ =~= Seq::empty() && body@ =~= Seq::empty());
        CallSession {
            phase: CallPhase::Handshake,
            seed,
            call: 0,
            calls,
            until_cancel,
            stream: 0,
            framed,
            sent: 0,
            status: None,
            trailer: None,
            body,
            finished: false,
        }
    }

    /// Where the session stands.
    pub fn phase(&self) -> (r: CallPhase)
        ensures
            r == self@.phase,
    {
        self.phase
    }

    /// How many calls passed.
    pub fn passed(&self) -> (n: u64)
        ensures
            n == self@.call,
    {
        self.call
    }

    /// Why the session fails in its present phase, if its time is over or its
    /// connection closed.
    pub fn check(&self, expired: bool, closed: bool, cancelled: bool) -> (r: Option<String>)
        ensures
            match r {
                Some(m) => self@.failure(expired, closed, cancelled) == Some(m@),
                None => self@.failure(expired, closed, cancelled) is None,
            },
    {
        match self.phase {
            CallPhase::Handshake => if expired {
                Some("handshake timeout".to_owned())
            } else if closed {
                Some("closed during handshake".to_owned())
            } else {
                None
            },
            CallPhase::Idle => if closed && goes_on(
                self.until_cancel,
                cancelled,
                self.call,
                self.calls,
            ) {
                Some("conn closed mid-session".to_owned())
            } else {
                None
            },
            CallPhase::Opening => if closed {
                Some("closed before request".to_owned())
            } else {
                None
            },
            CallPhase::Sending => if expired {
                Some("send timeout".to_owned())
            } else {
                None
            },
            CallPhase::Awaiting => if expired {
                let mut m: String = "response timeout (sid ".to_owned();
                push_decimal(&mut m, self.stream);
                m.append(")");
                Some(m)
            } else if closed {
                Some("closed mid-response".to_owned())
            } else {
                None
            },
            CallPhase::Ended => None,
        }
    }

    /// The connection is established.
    pub fn on_established(&mut self)
        requires
            old(self)@.phase == CallPhase::Handshake,
            old(self)@.wf(),
        ensures
            final(self)@ == old(self)@.ready(),
            final(self)@.wf(),
    {
        self.phase = CallPhase::Idle;
    }

    /// Goes on to the next call, if one is due.
    pub fn next_call(&mut self, cancelled: bool) -> (due: bool)
        requires
            old(self)@.phase == CallPhase::Idle,
            old(self)@.wf(),
        ensures
            due == old(self)@.goes_on(cancelled),
            final(self)@ == old(self)@.asked(cancelled),
            final(self)@.wf(),
    {
        if goes_on(self.until_cancel, cancelled, self.call, self.calls) {
            self.phase = CallPhase::Opening;
            self.framed = call_frame(self.seed, self.call);
            self.sent = 0;
            self.status = None;
            self.trailer = None;
            self.body = Vec::new();
            self.finished = false;
            assert(self.body@ =~= Seq::empty());
            true
        } else {
            self.phase = CallPhase::Ended;
            false
        }
    }

    /// The request stream is open.
    pub fn on_opened(&mut self, stream: u64)
        requires
            old(self)@.phase == CallPhase::Opening,
            old(self)@.wf(),
        ensures
            final(self)@ == old(self)@.opened(stream),
            final(self)@.wf(),
    {
        self.phase = CallPhase::Sending;
        self.stream = stream;
    }

    /// What is left to send of the message.
    pub fn unsent(&self) -> (out: Vec<u8>)
        requires
            self@.wf(),
        ensures
            out@ == self@.framed.skip(self@.sent as int),
    {
        let mut out: Vec<u8> = Vec::new();
        let mut i: usize = self.sent;
        while i < self.framed.len()
            invariant
                self.sent <= i <= self.framed@.len(),
                out@ =~= self.framed@.subrange(self.sent as int, i as int),
            decreases self.framed@.len() - i,
        {
            out.push(self.framed[i]);
            i += 1;
        }
        assert(out@ =~= self.framed@.skip(self.sent as int));
        out
    }

    /// The connection took `n` bytes of the message. Once it took all, the
    /// answer is awaited.
    pub fn on_sent(&mut self, n: usize)
        requires
            old(self)@.phase == CallPhase::Sending,
            old(self)@.wf(),
            n <= old(self)@.framed.len() - old(self)@.sent,
        ensures
            final(self)@ == old(self)@.took(n as nat),
            final(self)@.wf(),
    {
        self.sent = self.sent + n;
        if self.sent == self.framed.len() {
            self.phase = CallPhase::Awaiting;
        }
    }

    /// Takes in an event on the stream of the call.
    pub fn on_event(&mut self, event: &AnswerEvent)
        requires
            old(self)@.phase == CallPhase::Awaiting,
            old(self)@.wf(),
        ensures
            final(self)@ == old(self)@.heard(*event),
            final(self)@.wf(),
    {
        match event {
            AnswerEvent::Headers(list) => {
                self.status = read_status(self.status, list);
                self.trailer = read_trailer(self.trailer, list);
            },
            AnswerEvent::Data(bytes) => {
                let ghost before = self.body@;
                let mut i: usize = 0;
                while i < bytes.len()
                    invariant
                        i <= bytes@.len(),
                        self.body@ =~= before + bytes@.take(i as int),
                        self@ == (SessionView { body: self.body@, ..old(self)@ }),
                    decreases bytes@.len() - i,
                {
                    self.body.push(bytes[i]);
                    i += 1;
                }
                assert(bytes@.take(i as int) =~= bytes@);
            },
            AnswerEvent::Finished => {
                self.finished = true;
            },
            AnswerEvent::Other => {},
        }
    }

    /// Judges the answer once it is finished. A call whose answer has the
    /// status 200, the trailer 0 and the message that was sent counts as a
    /// success, and the session is ready for the next one. An answer that comes
    /// with the end of the connection is not looked at.
    pub fn on_answer(&mut self, closed: bool, stats: &mut LoadStats) -> (r: Option<CallFault>)
        requires
            old(self)@.phase == CallPhase::Awaiting,
            old(self)@.wf(),
            old(self)@.finished,
        ensures
            if closed {
                r == Some(CallFault::Closed)
            } else {
                call_outcome(
                    old(self)@.status,
                    old(self)@.trailer,
                    old(self)@.body,
                    old(self)@.framed,
                    r,
                )
            },
            final(stats).tally() == if r is None {
                (next_count(old(stats).tally().0), old(stats).tally().1)
            } else {
                old(stats).tally()
            },
            final(self)@ == if r is None {
                old(self)@.passed()
            } else {
                old(self)@
            },
            final(self)@.wf(),
    {
        if closed {
            return Some(CallFault::Closed);
        }
        let fault = judge_call(self.status, self.trailer, &self.body, &self.framed);
        if fault.is_none() {
            stats.ok();
            self.call = self.call.wrapping_add(1);
            self.phase = CallPhase::Idle;
        }
        fault
    }
}

/// Of an answer with the status 200 and the whole message, the trailer alone
/// decides: the call passes if and only if the trailer came and is zero.
pub proof fn law_trailer_decides(
    start: SessionView,
    head: Vec<Field>,
    data: Vec<u8>,
    tail: Vec<Field>,
    r: Option<CallFault>,
)
    requires
        start.phase == CallPhase::Awaiting,
        start.wf(),
        start.status is None,
        start.trailer is None,
        start.body.len() == 0,
        status_after(None, head@) == Some(200u16),
        trailer_after(None, head@) is None,
        status_after(Some(200u16), tail@) == Some(200u16),
        data@ == start.framed,
        ({
            let end = start.heard(AnswerEvent::Headers(head)).heard(AnswerEvent::Data(data)).heard(
                AnswerEvent::Headers(tail),
            ).heard(AnswerEvent::Finished);
            call_outcome(end.status, end.trailer, end.body, end.framed, r)
        }),
    ensures
        r is None <==> trailer_after(None, tail@) == Some(0int),
        r matches Some(fault) ==> fault is Trailer,
{
    assert(start.body + data@ =~= start.framed);
}

/// What may happen to a session, short of a fault.
pub enum SessionEvent {
    Established,
    Asked { cancelled: bool },
    Opened { stream: u64 },
    Took { n: nat },
    Heard { event: AnswerEvent },
    Answered,
}

/// Whether an event leads from one session and tally to another.
pub open spec fn session_step(
    before: (SessionView, (u64, u64)),
    event: SessionEvent,
    after: (SessionView, (u64, u64)),
) -> bool {
    let s = before.0;
    let same = after.1 == before.1;
    match event {
        SessionEvent::Established => same && s.phase == CallPhase::Handshake && after.0 == s.ready(),
        SessionEvent::Asked { cancelled } => same && s.phase == CallPhase::Idle && after.0 == s.asked(
            cancelled,
        ),
        SessionEvent::Opened { stream } => same && s.phase == CallPhase::Opening && after.0
            == s.opened(stream),
        SessionEvent::Took { n } => same && s.phase == CallPhase::Sending && after.0 == s.took(n),
        SessionEvent::Heard { event } => same && s.phase == CallPhase::Awaiting && after.0 == s.heard(
            event,
        ),
        SessionEvent::Answered => {
            &&& s.phase == CallPhase::Awaiting
            &&& s.finished
            &&& call_outcome(s.status, s.trailer, s.body, s.framed, None)
            &&& after.0 == s.passed()
            &&& after.1 == (next_count(before.1.0), before.1.1)
        },
    }
}

/// Whether a fresh session goes through these states without a fault.
pub open spec fn session_run(
    states: Seq<(SessionView, (u64, u64))>,
    events: Seq<SessionEvent>,
) -> bool {
    &&& states.len() == events.len() + 1
    &&& states[0].0.phase == CallPhase::Handshake
    &&& states[0].0.call == 0
    &&& forall|k: int|
        0 <= k < events.len() ==> session_step(states[k], #[trigger] events[k], states[k + 1])
}

/// A session without a fault counts a success for each call that passed and no
/// error. One that does not go on until the run is cancelled and that comes to
/// its end has counted exactly as many calls as it was to make; one that does
/// ends only once the run is cancelled.
pub proof fn law_session_counts_its_calls(
    states: Seq<(SessionView, (u64, u64))>,
    events: Seq<SessionEvent>,
)
    requires
        session_run(states, events),
    ensures
        ({
            let (start, (ok, err)) = states[0];
            let (end, tally) = states.last();
            &&& tally == (ok.wrapping_add(end.call), err)
            &&& end.phase == CallPhase::Ended && !start.until_cancel ==> tally == (
                ok.wrapping_add(start.calls),
                err,
            )
            &&& end.phase == CallPhase::Ended && start.until_cancel ==> exists|k: int|
                0 <= k < events.len() && #[trigger] events[k] == (SessionEvent::Asked {
                    cancelled: true,
                })
        }),
{
    lemma_session_run(states, events, events.len() as int);
}

proof fn lemma_session_run(
    states: Seq<(SessionView, (u64, u64))>,
    events: Seq<SessionEvent>,
    k: int,
)
    requires
        session_run(states, events),
        0 <= k <= events.len(),
    ensures
        ({
            let (start, (ok, err)) = states[0];
            let (now, tally) = states[k];
            &&& now.calls == start.calls
            &&& now.until_cancel == start.until_cancel
            &&& tally == (ok.wrapping_add(now.call), err)
            &&& !start.until_cancel ==> now.call <= start.calls
            &&& !start.until_cancel && (now.phase == CallPhase::Opening || now.phase
                == CallPhase::Sending || now.phase == CallPhase::Awaiting) ==> now.call < start.calls
            &&& !start.until_cancel && now.phase == CallPhase::Ended ==> now.call == start.calls
            &&& start.until_cancel && now.phase == CallPhase::Ended ==> exists|i: int|
                0 <= i < k && #[trigger] events[i] == (SessionEvent::Asked { cancelled: true })
        }),
    decreases k,
{
    if k > 0 {
        lemma_session_run(states, events, k - 1);
        assert(session_step(states[k - 1], events[k - 1], states[k - 1 + 1]));
    }
}

// ---------------------------------------------------------------------------
// Laws
// ---------------------------------------------------------------------------

/// A signed number of a header: without a minus the number itself, as long as it
/// fits; behind a minus its negative. A plus behind the minus is none.
pub proof fn law_header_integer(value: Vec<u8>, r: Option<i32>, rest: &[u8], n: Option<u64>, m: Option<u64>)
    requires
        call_ensures(header_integer, (&value,), r),
        call_ensures(header_number, (rest, 0x7fff_ffff), n),
        call_ensures(header_number, (rest, 0x8000_0000), m),
    ensures
        value@ == rest@ && !(rest@.len() > 0 && rest@[0] == 0x2d) ==> match n {
            Some(v) => r == Some(v as i32),
            None => r is None,
        },
        value@ == seq![0x2du8] + rest@ && rest@.len() > 0 && rest@[0] != 0x2b ==> match m {
            Some(v) => r is Some && r->0 == -(v as int),
            None => r is None,
        },
        value@ == seq![0x2du8, 0x2bu8] + rest@ ==> r is None,
{
    let s = byte_chars(value@);
    if value@ == rest@ && !(rest@.len() > 0 && rest@[0] == 0x2d) {
        assert(!(s.len() > 0 && s[0] == '-'));
        assert(signed_value(s) == match unsigned_value(s, 0x7fff_ffff) {
            Some(v) => Some(v as int),
            None => None,
        });
    }
    if value@ == seq![0x2du8] + rest@ && rest@.len() > 0 && rest@[0] != 0x2b {
        assert(value@[0] == 0x2du8);
        assert(s[0] == value@[0] as char);
        assert(s[0] == '-');
        assert(value@[1] == rest@[0]);
        assert(s[1] == rest@[0] as char);
        assert(s[1] != '+');
        assert(s.skip(1) =~= byte_chars(rest@));
    }
    if value@ == seq![0x2du8, 0x2bu8] + rest@ {
        assert(value@[0] == 0x2du8 && value@[1] == 0x2bu8);
        assert(s[0] == '-' && s[1] == '+');
    }
}

/// How the status of a call is read: a further field changes it exactly when its
/// name is `grpc-status`, and then it is the number of its value.
pub proof fn law_trailer_is_read(
    known: Option<i32>,
    before: Vec<Field>,
    after: Vec<Field>,
    field: Field,
    v: Option<i32>,
    x: Option<i32>,
    y: Option<i32>,
)
    requires
        after@ == before@.push(field),
        call_ensures(header_integer, (&field.1,), v),
        call_ensures(read_trailer, (known, &before), x),
        call_ensures(read_trailer, (known, &after), y),
    ensures
        before@.len() == 0 ==> x == known,
        byte_chars(field.0@) == "grpc-status"@ ==> y == v,
        byte_chars(field.0@) != "grpc-status"@ ==> y == x,
{
    assert(after@.drop_last() =~= before@);
    lemma_trailer_name(field.0@);
    assert(as_int(y) == as_int(v) ==> y == v);
    assert(as_int(y) == as_int(x) ==> y == x);
    assert(as_int(x) == as_int(known) ==> x == known);
}

proof fn lemma_trailer_name(name: Seq<u8>)
    ensures
        name == trailer_name() <==> byte_chars(name) == "grpc-status"@,
{
    reveal_strlit("grpc-status");
    let s = "grpc-status"@;
    assert(s.len() == 11);
    if byte_chars(name) == s {
        assert(name.len() == byte_chars(name).len());
        assert forall|i: int| 0 <= i < 11 implies #[trigger] name[i] == trailer_name()[i] by {
            assert(byte_chars(name)[i] == name[i] as char);
            assert(name[i] as char == s[i]);
            assert(i == 0 || i == 1 || i == 2 || i == 3 || i == 4 || i == 5 || i == 6 || i == 7 || i
                == 8 || i == 9 || i == 10);
        }
        assert(name =~= trailer_name());
    }
    if name == trailer_name() {
        assert(byte_chars(name) =~= s);
    }
}

/// What a call sends: a framed message of between 2048 and 4095 bytes, which is
/// the echo that starts at its seed and its number.
pub proof fn law_call_frame(
    seed: u64,
    i: u64,
    out: Vec<u8>,
    len: usize,
    message: Vec<u8>,
    bytes: &[u8],
    framed: Vec<u8>,
)
    requires
        seed + i <= u64::MAX,
        len == 2_048 + (seed + i) % 2_048,
        call_ensures(call_frame, (seed, i), out),
        call_ensures(echo_payload, ((seed + i) as u64, len), message),
        bytes@ == message@,
        call_ensures(frame_grpc, (bytes,), framed),
    ensures
        out@ == framed@,
        2_053 <= out@.len() < 4_101,
{
}

/// What a call is judged to be: it passes exactly with a status of 200, a
/// `grpc-status` of zero and the very bytes that were sent. What is wrong first,
/// in this order, is its fault.
pub proof fn law_call_is_judged(
    status: Option<u16>,
    grpc_status: Option<i32>,
    body: &[u8],
    framed: &[u8],
    r: Option<CallFault>,
)
    requires
        call_ensures(judge_call, (status, grpc_status, body, framed), r),
    ensures
        r is None <==> status == Some(200u16) && grpc_status == Some(0i32) && body@ == framed@,
        status != Some(200u16) ==> r == Some(CallFault::Status(status)),
        status == Some(200u16) && grpc_status != Some(0i32) ==> r == Some(
            CallFault::Trailer(grpc_status),
        ),
        status == Some(200u16) && grpc_status == Some(0i32) && body@ != framed@ ==> r is Some && r->0 is Echo,
{
    if r is Some && r->0 is Trailer {
        let seen = r->0->Trailer_0;
        assert(as_int(seen) == as_int(grpc_status));
        assert(seen == grpc_status);
    }
}

/// What ends a session early, and with which words: its time in the handshake, in
/// sending and in waiting for an answer, and a connection that closes before it
/// is done; nothing once it has ended.
pub proof fn law_session_check(
    s: CallSession,
    expired: bool,
    closed: bool,
    cancelled: bool,
    more: bool,
    r: Option<String>,
)
    requires
        call_ensures(CallSession::check, (&s, expired, closed, cancelled), r),
        call_ensures(goes_on, (s@.until_cancel, cancelled, s@.call, s@.calls), more),
    ensures
        s@.phase == CallPhase::Ended ==> r is None,
        s@.phase == CallPhase::Handshake ==> (r is Some <==> expired || closed) && (expired ==> r->0@
            == "handshake timeout"@) && (!expired && closed ==> r->0@ == "closed during handshake"@),
        s@.phase == CallPhase::Idle ==> (r is Some <==> closed && more) && (r is Some ==> r->0@
            == "conn closed mid-session"@),
        s@.phase == CallPhase::Opening ==> (r is Some <==> closed) && (r is Some ==> r->0@
            == "closed before request"@),
        s@.phase == CallPhase::Sending ==> (r is Some <==> expired) && (r is Some ==> r->0@
            == "send timeout"@),
        s@.phase == CallPhase::Awaiting ==> (r is Some <==> expired || closed) && (expired ==> r->0@
            == "response timeout (sid "@ + decimal(s@.stream as nat) + ")"@) && (!expired && closed
            ==> r->0@ == "closed mid-response"@),
{
}

/// A session asks for a call exactly while it goes on, with nothing of an earlier
/// answer left and the whole frame of this call to send; else it has ended.
pub proof fn law_next_call(
    s: &mut CallSession,
    cancelled: bool,
    due: bool,
    more: bool,
    frame: Vec<u8>,
    unsent: Vec<u8>,
)
    requires
        old(s)@.phase == CallPhase::Idle,
        old(s)@.wf(),
        call_ensures(CallSession::next_call, (s, cancelled), due),
        call_ensures(goes_on, (old(s)@.until_cancel, cancelled, old(s)@.call, old(s)@.calls), more),
        call_ensures(call_frame, (old(s)@.seed, old(s)@.call), frame),
        call_ensures(CallSession::unsent, (final(s),), unsent),
    ensures
        due == more,
        due ==> final(s)@.phase == CallPhase::Opening && unsent@ == frame@ && final(s)@.status is None
            && final(s)@.trailer is None && final(s)@.body.len() == 0 && !final(s)@.finished,
        !due ==> final(s)@.phase == CallPhase::Ended,
        final(s)@.call == old(s)@.call,
        final(s)@.calls == old(s)@.calls,
        final(s)@.seed == old(s)@.seed,
{
    if due {
        assert(final(s)@.framed.skip(0) =~= final(s)@.framed);
    }
}

/// What was taken of a frame is not sent again, and the answer is awaited exactly
/// when nothing is left.
pub proof fn law_frame_is_sent(s: &mut CallSession, n: usize, before: Vec<u8>, after: Vec<u8>)
    requires
        old(s)@.phase == CallPhase::Sending,
        old(s)@.wf(),
        call_ensures(CallSession::unsent, (old(s),), before),
        n <= before@.len(),
        call_ensures(CallSession::on_sent, (s, n), ()),
        call_ensures(CallSession::unsent, (final(s),), after),
    ensures
        before@.take(n as int) + after@ == before@,
        after@.len() == 0 <==> final(s)@.phase == CallPhase::Awaiting,
        after@.len() > 0 <==> final(s)@.phase == CallPhase::Sending,
        final(s)@.call == old(s)@.call,
{
    assert(before@.take(n as int) + after@ =~= before@);
}

/// What an event of the answer changes: headers both statuses, data the body, the
/// end that it is over; each only its own.
pub proof fn law_answer_event(
    s: &mut CallSession,
    event: AnswerEvent,
    list: Vec<Field>,
    status: Option<u16>,
    known: Option<i32>,
    trailer: Option<i32>,
)
    requires
        old(s)@.phase == CallPhase::Awaiting,
        old(s)@.wf(),
        call_ensures(CallSession::on_event, (s, &event), ()),
        event is Headers ==> event == AnswerEvent::Headers(list),
        call_ensures(read_status, (old(s)@.status, &list), status),
        as_int(known) == old(s)@.trailer,
        call_ensures(read_trailer, (known, &list), trailer),
    ensures
        event is Headers ==> final(s)@.status == status && final(s)@.trailer == as_int(trailer),
        !(event is Headers) ==> final(s)@.status == old(s)@.status && final(s)@.trailer == old(
            s)@.trailer,
        event matches AnswerEvent::Data(bytes) ==> final(s)@.body == old(s)@.body + bytes@,
        !(event is Data) ==> final(s)@.body == old(s)@.body,
        final(s)@.finished <==> old(s)@.finished || event is Finished,
        final(s)@.phase == old(s)@.phase,
        final(s)@.call == old(s)@.call,
{
}

/// How an answer is counted: a call that passes is one success and one call more,
/// and the session goes on; one with a fault changes nothing.
pub proof fn law_answer_is_counted(
    s: &mut CallSession,
    closed: bool,
    stats: &mut LoadStats,
    r: Option<CallFault>,
)
    requires
        old(s)@.phase == CallPhase::Awaiting,
        old(s)@.wf(),
        old(s)@.finished,
        call_ensures(CallSession::on_answer, (s, closed, stats), r),
        old(s)@.call < u64::MAX,
        old(stats).tally().0 < u64::MAX,
    ensures
        r is None <==> !closed && old(s)@.status == Some(200u16) && old(s)@.trailer == Some(0int)
            && old(s)@.body == old(s)@.framed,
        closed ==> r == Some(CallFault::Closed),
        r is None ==> final(stats).tally().0 == old(stats).tally().0 + 1 && final(s)@.call == old(
            s)@.call + 1 && final(s)@.phase == CallPhase::Idle,
        r is Some ==> final(stats).tally().0 == old(stats).tally().0 && final(s)@ == old(s)@,
        final(stats).tally().1 == old(stats).tally().1,
{
}

/// What is said of a call that failed: each fault in words of its own, with the
/// numbers that were seen.
pub proof fn law_call_words(f: CallFault, out: String)
    requires
        call_ensures(CallFault::message, (&f,), out),
    ensures
        f == CallFault::Status(None) ==> out@ == "status "@ + "None"@,
        f matches CallFault::Status(Some(s)) ==> out@ == "status "@ + ("Some("@ + decimal(s as nat)
            + ")"@),
        f == CallFault::Trailer(None) ==> out@ == "grpc-status "@ + "None"@ + " (trailer drop?)"@,
        f matches CallFault::Trailer(Some(n)) ==> (n >= 0 ==> out@ == "grpc-status "@ + ("Some("@
            + decimal(n as nat) + ")"@) + " (trailer drop?)"@) && (n < 0 ==> out@ == "grpc-status "@ + (
        "Some("@ + ("-"@ + decimal((-n) as nat)) + ")"@) + " (trailer drop?)"@),
        f matches CallFault::Echo { got, want } ==> out@ == "echo mismatch ("@ + decimal(got as nat)
            + " vs "@ + decimal(want as nat) + " bytes)"@,
        f == CallFault::Closed ==> out@ == "closed mid-response"@,
{
}

/// How a session gets to its calls: established it is between two calls, and a
/// stream that was opened is the one it sends on; nothing else changes.
pub proof fn law_session_opens(a: &mut CallSession, b: &mut CallSession, stream: u64)
    requires
        old(a)@.phase == CallPhase::Handshake,
        old(a)@.wf(),
        call_ensures(CallSession::on_established, (a,), ()),
        old(b)@.phase == CallPhase::Opening,
        old(b)@.wf(),
        call_ensures(CallSession::on_opened, (b, stream), ()),
    ensures
        final(a)@.phase == CallPhase::Idle,
        final(a)@.call == old(a)@.call,
        final(a)@.calls == old(a)@.calls,
        final(a)@.seed == old(a)@.seed,
        final(b)@.phase == CallPhase::Sending,
        final(b)@.stream == stream,
        final(b)@.framed == old(b)@.framed,
        final(b)@.sent == old(b)@.sent,
        final(b)@.call == old(b)@.call,
{
}

/// A session starts with its handshake, before its first call.
pub proof fn law_session_starts(seed: u64, calls: u64, until_cancel: bool, s: CallSession, n: u64)
    requires
        call_ensures(CallSession::new, (seed, calls, until_cancel), s),
        call_ensures(CallSession::passed, (&s,), n),
    ensures
        n == 0,
        s@.phase == CallPhase::Handshake,
        s@.seed == seed,
        s@.calls == calls,
        s@.until_cancel == until_cancel,
        s@.framed.len() == 0,
{
}

/// How long the phases of a session may last, in milliseconds.
pub proof fn law_phase_budgets(phase: CallPhase, r: Option<u64>)
    requires
        call_ensures(phase_budget_ms, (phase,), r),
    ensures
        phase == CallPhase::Handshake || phase == CallPhase::Awaiting <==> r == Some(8_000u64),
        phase == CallPhase::Sending <==> r == Some(5_000u64),
{
}

} // verus!
