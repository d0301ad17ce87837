//! Requests over HTTP/3: what is asked, what comes back, and what that proves
//! of the front.

use vstd::prelude::*;
use crate::soak::frames::{body_size, same_bytes, size_at};
use crate::text::{parse_unsigned, decimal, digits_value, is_digit, push_decimal, unsigned_body, unsigned_value};

verus! {

// ---------------------------------------------------------------------------
// Headers
// ---------------------------------------------------------------------------

/// Bytes as characters, one for one.
pub open spec fn byte_chars(bytes: Seq<u8>) -> Seq<char> {
    bytes.map_values(|b: u8| b as char)
}

/// The number in a header value; none when it is none or does not fit.
pub fn header_number(value: &[u8], max: u64) -> (r: Option<u64>)
    ensures
        match r {
            Some(n) => unsigned_value(byte_chars(value@), max as nat) == Some(n as nat),
            None => unsigned_value(byte_chars(value@), max as nat) is None,
        },
{
    let ghost chars = byte_chars(value@);
    let n: usize = value.len();
    let from: usize = if n > 0 && value[0] == 43 { 1 } else { 0 };
    let ghost body = unsigned_body(chars);
    assert(body =~= chars.skip(from as int));
    if from == n {
        return None;
    }
    let mut total: u64 = 0;
    let mut i: usize = from;
    assert(body.take(0) =~= Seq::empty());
    while i < n
        invariant
            from <= i <= n == value@.len(),
            chars == byte_chars(value@),
            body == unsigned_body(chars),
            body == chars.skip(from as int),
            total <= max,
            total == digits_value(body.take(i - from)),
            forall|j: int| 0 <= j < i - from ==> is_digit(#[trigger] body[j]),
        decreases n - i,
    {
        let b: u8 = value[i];
        let ghost at = i - from;
        assert(body[at] == b as char);
        if b < 48 || b > 57 {
            assert(!is_digit(body[at]));
            return None;
        }
        assert(body.take(at + 1).drop_last() =~= body.take(at));
        let d: u64 = (b - 48) as u64;
        let wide: u128 = total as u128 * 10 + d as u128;
        assert(wide == digits_value(body.take(at + 1)));
        if wide > max as u128 {
            proof {
                crate::text::lemma_digits_value_grows(body, at + 1);
            }
            return None;
        }
        total = wide as u64;
        i += 1;
    }
    assert(body.take(i - from) =~= body);
    Some(total)
}

/// A header: its name and its value.
pub type Field = (Vec<u8>, Vec<u8>);

/// The name of the status header.
pub open spec fn status_name() -> Seq<u8> {
    seq![58u8, 115u8, 116u8, 97u8, 116u8, 117u8, 115u8]
}

/// The status after one more header. A status header that holds no number
/// takes back what was known.
pub open spec fn status_with(known: Option<u16>, name: Seq<u8>, value: Seq<u8>) -> Option<u16> {
    if name == status_name() {
        match unsigned_value(byte_chars(value), u16::MAX as nat) {
            Some(n) => Some(n as u16),
            None => None,
        }
    } else {
        known
    }
}

/// The status after a list of headers.
pub open spec fn status_after(known: Option<u16>, list: Seq<Field>) -> Option<u16>
    decreases list.len(),
{
    if list.len() == 0 {
        known
    } else {
        status_with(status_after(known, list.drop_last()), list.last().0@, list.last().1@)
    }
}

/// The status after a list of headers.
pub fn read_status(known: Option<u16>, list: &Vec<Field>) -> (r: Option<u16>)
    ensures
        r == status_after(known, list@),
{
    let mut status: Option<u16> = known;
    let mut i: usize = 0;
    while i < list.len()
        invariant
            i <= list@.len(),
            status == status_after(known, list@.take(i as int)),
        decreases list@.len() - i,
    {
        assert(list@.take(i + 1).drop_last() =~= list@.take(i as int));
        if is_status_name(&list[i].0) {
            status = match header_number(&list[i].1, u16::MAX as u64) {
                Some(n) => Some(n as u16),
                None => None,
            };
        }
        i += 1;
    }
    assert(list@.take(i as int) =~= list@);
    status
}

fn is_status_name(name: &Vec<u8>) -> (r: bool)
    ensures
        r == (name@ == status_name()),
{
    let want: Vec<u8> = vec![58u8, 115, 116, 97, 116, 117, 115];
    assert(want@ =~= status_name());
    same_bytes(name, &want)
}

/// The message form of a status that may be missing.
pub open spec fn status_text(status: Option<u16>) -> Seq<char> {
    match status {
        Some(s) => "Some("@ + decimal(s as nat) + ")"@,
        None => "None"@,
    }
}

fn push_status(out: &mut String, status: Option<u16>)
    ensures
        final(out)@ == old(out)@ + status_text(status),
{
    match status {
        Some(s) => {
            out.append("Some(");
            push_decimal(out, s as u64);
            out.append(")");
            assert(out@ =~= old(out)@ + ("Some("@ + decimal(s as nat) + ")"@));
        },
        None => {
            out.append("None");
        },
    }
}

// ---------------------------------------------------------------------------
// One request
// ---------------------------------------------------------------------------

/// The time that a refused request may take to be answered, in milliseconds.
pub const RESPONSE_BUDGET_MS: u64 = 5_000;

/// The time that a request without a backend is watched, in milliseconds.
pub const DROP_WINDOW_MS: u64 = 600;

/// The time that a blocked stream may take to open, in milliseconds.
pub const OPEN_BUDGET_MS: u64 = 3_000;

/// A request: its class and the size of its body.
#[derive(Debug, Clone, Copy, PartialEq, Eq, Structural)]
pub struct H3Request {
    /// Whether the authority is one that a front has to refuse.
    pub bad_authority: bool,
    pub body_len: usize,
}

/// The request at position `i` of a session: the classes alternate, so that
/// every connection drives both.
pub fn request_at(seed: u64, i: u64) -> (r: H3Request)
    ensures
        r.bad_authority == (i % 2 == 0),
        r.body_len == size_at(seed + i),
{
    H3Request { bad_authority: i % 2 == 0, body_len: body_size(seed.wrapping_add(i)) }
}

impl H3Request {
    /// The authority that is asked for. A comma in it is refused.
    pub fn authority(&self) -> (r: &'static str)
        ensures
            r@ == if self.bad_authority {
                "victim.example,attacker.example"@
            } else {
                "example.test:443"@
            },
    {
        if self.bad_authority {
            "victim.example,attacker.example"
        } else {
            "example.test:443"
        }
    }

    /// The headers of the request, in order. One with a body says how long it
    /// is.
    pub fn headers(&self) -> (out: Vec<(&'static str, String)>)
        ensures
            out@.len() == if self.body_len > 0 {
                5int
            } else {
                4
            },
            out@[0].0@ == ":method"@,
            out@[0].1@ == if self.body_len == 0 {
                "GET"@
            } else {
                "POST"@
            },
            out@[1].0@ == ":scheme"@ && out@[1].1@ == "https"@,
            out@[2].0@ == ":path"@ && out@[2].1@ == "/soak"@,
            out@[3].0@ == ":authority"@,
            out@[3].1@ == if self.bad_authority {
                "victim.example,attacker.example"@
            } else {
                "example.test:443"@
            },
            self.body_len > 0 ==> out@[4].0@ == "content-length"@ && out@[4].1@ == decimal(
                self.body_len as nat,
            ),
    {
        let mut out: Vec<(&'static str, String)> = Vec::new();
        let method: &'static str = if self.body_len == 0 { "GET" } else { "POST" };
        out.push((":method", method.to_owned()));
        out.push((":scheme", "https".to_owned()));
        out.push((":path", "/soak".to_owned()));
        out.push((":authority", self.authority().to_owned()));
        if self.body_len > 0 {
            let mut len: String = String::new();
            push_decimal(&mut len, self.body_len as u64);
            assert(len@ =~= decimal(self.body_len as nat));
            out.push(("content-length", len));
        }
        out
    }

    /// How long the request is watched, in milliseconds: a refusal is waited
    /// for, a drop only looked at for a short while.
    pub fn budget_ms(&self) -> (ms: u64)
        ensures
            ms == if self.bad_authority {
                RESPONSE_BUDGET_MS
            } else {
                DROP_WINDOW_MS
            },
    {
        if self.bad_authority {
            RESPONSE_BUDGET_MS
        } else {
            DROP_WINDOW_MS
        }
    }
}

/// What became of the attempt to open a request stream.
#[derive(Debug, Clone, Copy, PartialEq, Eq, Structural)]
pub enum OpenAttempt {
    Opened,
    /// The peer allows no further stream yet.
    Blocked,
    /// The transport failed.
    Failed,
}

/// What follows an attempt to open a request stream.
#[derive(Debug, Clone, Copy, PartialEq, Eq, Structural)]
pub enum OpenStep {
    Go,
    /// Lets the peer catch up and tries again.
    Retry,
    /// It stayed blocked for too long.
    StayedBlocked,
    /// The connection closed meanwhile.
    ClosedBefore,
    /// The transport failed.
    Failed,
}

/// What follows an attempt to open a request stream. Being blocked is no
/// failure until the time for it is over; a connection that closed is found
/// after the peer was given time to catch up.
pub fn open_step(attempt: OpenAttempt, expired: bool, closed: bool) -> (r: OpenStep)
    ensures
        r == match attempt {
            OpenAttempt::Opened => OpenStep::Go,
            OpenAttempt::Failed => OpenStep::Failed,
            OpenAttempt::Blocked => if expired {
                OpenStep::StayedBlocked
            } else if closed {
                OpenStep::ClosedBefore
            } else {
                OpenStep::Retry
            },
        },
{
    match attempt {
        OpenAttempt::Opened => OpenStep::Go,
        OpenAttempt::Failed => OpenStep::Failed,
        OpenAttempt::Blocked => if expired {
            OpenStep::StayedBlocked
        } else if closed {
            OpenStep::ClosedBefore
        } else {
            OpenStep::Retry
        },
    }
}

/// What the transport reports on a request stream.
#[derive(Debug)]
pub enum StreamEvent {
    Headers(Vec<Field>),
    /// This many bytes of the body.
    Data(usize),
    Finished,
    Reset,
    /// Anything on another stream.
    Other,
}

/// What is known of a request so far.
#[derive(Debug, Clone, Copy, PartialEq, Eq, Structural)]
pub struct H3Progress {
    pub body_sent: usize,
    pub status: Option<u16>,
    pub response_bytes: usize,
    pub finished: bool,
}

impl H3Progress {
    /// Nothing sent, nothing received.
    pub fn new() -> (r: Self)
        ensures
            r == (H3Progress { body_sent: 0, status: None, response_bytes: 0, finished: false }),
    {
        H3Progress { body_sent: 0, status: None, response_bytes: 0, finished: false }
    }

    /// Part of the body was taken by the transport; or it refused the rest,
    /// after which nothing more is sent.
    pub fn on_body(&mut self, taken: Option<usize>, body_len: usize)
        requires
            old(self).body_sent <= body_len,
            taken matches Some(n) ==> n <= body_len - old(self).body_sent,
        ensures
            *final(self) == (H3Progress {
                body_sent: match taken {
                    Some(n) => (old(self).body_sent + n) as usize,
                    None => body_len,
                },
                ..*old(self)
            }),
    {
        match taken {
            Some(n) => {
                self.body_sent += n;
            },
            None => {
                self.body_sent = body_len;
            },
        }
    }

    /// What is known after an event. The end of the stream and a reset of it
    /// both finish the request.
    pub open spec fn after(self, event: StreamEvent) -> H3Progress {
        match event {
            StreamEvent::Headers(list) => H3Progress {
                status: status_after(self.status, list@),
                ..self
            },
            StreamEvent::Data(n) => H3Progress {
                response_bytes: (self.response_bytes + n) as usize,
                ..self
            },
            StreamEvent::Finished | StreamEvent::Reset => H3Progress { finished: true, ..self },
            StreamEvent::Other => self,
        }
    }

    /// Takes an event in.
    pub fn on_event(&mut self, event: &StreamEvent)
        requires
            *event matches StreamEvent::Data(n) ==> old(self).response_bytes + n <= usize::MAX,
        ensures
            *final(self) == old(self).after(*event),
    {
        match event {
            StreamEvent::Headers(list) => {
                self.status = read_status(self.status, list);
            },
            StreamEvent::Data(n) => {
                self.response_bytes += *n;
            },
            StreamEvent::Finished => {
                self.finished = true;
            },
            StreamEvent::Reset => {
                self.finished = true;
            },
            StreamEvent::Other => {},
        }
    }
}

/// What a request showed of the front.
#[derive(Debug, Clone, Copy, PartialEq, Eq, Structural)]
pub enum H3Outcome {
    /// A bad authority was refused with a 400 and a body.
    Verified400,
    /// A valid request without a backend was dropped, and nothing else.
    BoundedDrop,
}

/// Why a request counts against the front.
#[derive(Debug, Clone, Copy, PartialEq, Eq, Structural)]
pub enum H3Fault {
    /// A bad authority was not refused with a 400.
    NotRefused { seen: Option<u16> },
    /// The refusal had no body.
    EmptyRefusal,
    /// A success without a backend.
    Impossible2xx { status: u16 },
    /// A valid authority was refused.
    OverReject,
    /// Some other status.
    Unexpected { status: u16 },
    /// The whole connection was closed for one request.
    ConnectionClosed,
}

/// What a request shows, by its class and what came back.
pub open spec fn h3_verdict(
    bad_authority: bool,
    status: Option<u16>,
    response_bytes: usize,
    closed: bool,
) -> Result<H3Outcome, H3Fault> {
    if bad_authority {
        if status != Some(400u16) {
            Err(H3Fault::NotRefused { seen: status })
        } else if response_bytes == 0 {
            Err(H3Fault::EmptyRefusal)
        } else {
            Ok(H3Outcome::Verified400)
        }
    } else {
        match status {
            Some(s) => if 200 <= s < 300 {
                Err(H3Fault::Impossible2xx { status: s })
            } else if s == 400 {
                Err(H3Fault::OverReject)
            } else {
                Err(H3Fault::Unexpected { status: s })
            },
            None => if closed {
                Err(H3Fault::ConnectionClosed)
            } else {
                Ok(H3Outcome::BoundedDrop)
            },
        }
    }
}

/// What a request shows of the front.
pub fn judge_request(request: H3Request, progress: H3Progress, closed: bool) -> (r: Result<
    H3Outcome,
    H3Fault,
>)
    ensures
        r == h3_verdict(
            request.bad_authority,
            progress.status,
            progress.response_bytes,
            closed,
        ),
{
    if request.bad_authority {
        match progress.status {
            Some(s) => if s != 400 {
                Err(H3Fault::NotRefused { seen: progress.status })
            } else if progress.response_bytes == 0 {
                Err(H3Fault::EmptyRefusal)
            } else {
                Ok(H3Outcome::Verified400)
            },
            None => Err(H3Fault::NotRefused { seen: None }),
        }
    } else {
        match progress.status {
            Some(s) => if 200 <= s && s < 300 {
                Err(H3Fault::Impossible2xx { status: s })
            } else if s == 400 {
                Err(H3Fault::OverReject)
            } else {
                Err(H3Fault::Unexpected { status: s })
            },
            None => if closed {
                Err(H3Fault::ConnectionClosed)
            } else {
                Ok(H3Outcome::BoundedDrop)
            },
        }
    }
}

/// The verdict is never vacuous: a request passes only on the one outcome of
/// its class. A refusal has to be a 400 with bytes; a drop has to come without
/// any status and leave the connection open.
pub proof fn law_request_passes_only_as_its_class(
    bad_authority: bool,
    status: Option<u16>,
    response_bytes: usize,
    closed: bool,
)
    ensures
        h3_verdict(bad_authority, status, response_bytes, closed) is Ok <==> if bad_authority {
            status == Some(400u16) && response_bytes > 0
        } else {
            status is None && !closed
        },
{
}

impl H3Fault {
    /// The message of the fault.
    pub open spec fn text(self) -> Seq<char> {
        match self {
            H3Fault::NotRefused { seen } =>
                "bad-:authority must yield the inline 400 decoded egress within 5s; got status="@
                + status_text(seen)
                + " (hang \u{21d2} the migrated quiche::h3 ingress stalled)"@,
            H3Fault::EmptyRefusal =>
                "inline-400 must carry a body (\"bad request\"); read 0 bytes"@,
            H3Fault::Impossible2xx { status } => "valid-:authority unexpectedly got a 2xx ("@
                + decimal(status as nat)
                + ") \u{2014} the front is backend-less (F-S26-1), so no upstream response is possible"@,
            H3Fault::OverReject =>
                "valid-:authority was rejected 400 \u{2014} the H3 authority validator over-rejected"@,
            H3Fault::Unexpected { status } => "valid-:authority got an unexpected status "@
                + decimal(status as nat) + " on a backend-less front"@,
            H3Fault::ConnectionClosed =>
                "the connection closed while a valid-:authority request was dropped \u{2014} the ingress must drop the STREAM, not tear down the connection"@,
        }
    }

    /// The message of the fault.
    pub fn message(&self) -> (out: String)
        ensures
            out@ == self.text(),
    {
        match self {
            H3Fault::NotRefused { seen } => {
                let mut out: String =
                    "bad-:authority must yield the inline 400 decoded egress within 5s; got status=".to_owned();
                push_status(&mut out, *seen);
                out.append(" (hang \u{21d2} the migrated quiche::h3 ingress stalled)");
                out
            },
            H3Fault::EmptyRefusal => {
                "inline-400 must carry a body (\"bad request\"); read 0 bytes".to_owned()
            },
            H3Fault::Impossible2xx { status } => {
                let mut out: String = "valid-:authority unexpectedly got a 2xx (".to_owned();
                push_decimal(&mut out, *status as u64);
                out.append(") \u{2014} the front is backend-less (F-S26-1), so no upstream response is possible");
                out
            },
            H3Fault::OverReject => {
                "valid-:authority was rejected 400 \u{2014} the H3 authority validator over-rejected".to_owned()
            },
            H3Fault::Unexpected { status } => {
                let mut out: String = "valid-:authority got an unexpected status ".to_owned();
                push_decimal(&mut out, *status as u64);
                out.append(" on a backend-less front");
                out
            },
            H3Fault::ConnectionClosed => {
                "the connection closed while a valid-:authority request was dropped \u{2014} the ingress must drop the STREAM, not tear down the connection".to_owned()
            },
        }
    }
}

// ---------------------------------------------------------------------------
// Resets
// ---------------------------------------------------------------------------

/// The error code of a request that its client cancels.
pub const REQUEST_CANCELLED: u64 = 0x10c;

/// The side of a stream that is torn down.
#[derive(Debug, Clone, Copy, PartialEq, Eq, Structural)]
pub enum TornSide {
    /// What the client would send.
    Write,
    /// What the front would send.
    Read,
}

/// The headers of a request that is torn down: it promises a body that never
/// comes.
pub fn torn_headers() -> (out: Vec<(&'static str, String)>)
    ensures
        out@.len() == 5,
        out@[0].0@ == ":method"@ && out@[0].1@ == "POST"@,
        out@[1].0@ == ":scheme"@ && out@[1].1@ == "https"@,
        out@[2].0@ == ":path"@ && out@[2].1@ == "/soak"@,
        out@[3].0@ == ":authority"@ && out@[3].1@ == "example.test:443"@,
        out@[4].0@ == "content-length"@ && out@[4].1@ == "65536"@,
{
    let mut out: Vec<(&'static str, String)> = Vec::new();
    out.push((":method", "POST".to_owned()));
    out.push((":scheme", "https".to_owned()));
    out.push((":path", "/soak".to_owned()));
    out.push((":authority", "example.test:443".to_owned()));
    out.push(("content-length", "65536".to_owned()));
    out
}

/// How the stream at position `i` of a burst is torn down, and whether the
/// client then reads what came back.
pub fn reset_step(i: usize) -> (r: (TornSide, bool))
    ensures
        r.0 == if i % 2 == 0 {
            TornSide::Write
        } else {
            TornSide::Read
        },
        r.1 == (i % 16 == 0),
{
    (
        if i % 2 == 0 {
            TornSide::Write
        } else {
            TornSide::Read
        },
        i % 16 == 0,
    )
}

// ---------------------------------------------------------------------------
// Laws
// ---------------------------------------------------------------------------

/// A header's number is what its text stands for.
pub proof fn law_header_number(value: &[u8], max: u64, r: Option<u64>, text: &str, s: Option<u64>)
    requires
        text@.len() == value@.len(),
        forall|i: int| 0 <= i < value@.len() ==> #[trigger] text@[i] == value@[i] as char,
        call_ensures(header_number, (value, max), r),
        call_ensures(parse_unsigned, (text, max), s),
    ensures
        r == s,
{
    assert(byte_chars(value@) =~= text@);
}

/// How the status of an answer is read: a further field changes it exactly when
/// its name is `:status`, and then it is the number of its value.
pub proof fn law_status_is_read(
    known: Option<u16>,
    before: Vec<Field>,
    after: Vec<Field>,
    field: Field,
    value: &[u8],
    v: Option<u64>,
    x: Option<u16>,
    y: Option<u16>,
)
    requires
        after@ == before@.push(field),
        value@ == field.1@,
        call_ensures(header_number, (value, 65_535), v),
        call_ensures(read_status, (known, &before), x),
        call_ensures(read_status, (known, &after), y),
    ensures
        before@.len() == 0 ==> x == known,
        byte_chars(field.0@) == ":status"@ ==> match v {
            Some(n) => y == Some(n as u16) && n <= 65_535,
            None => y is None,
        },
        byte_chars(field.0@) != ":status"@ ==> y == x,
{
    assert(after@.drop_last() =~= before@);
    lemma_status_name(field.0@);
}

proof fn lemma_status_name(name: Seq<u8>)
    ensures
        name == status_name() <==> byte_chars(name) == ":status"@,
{
    reveal_strlit(":status");
    let s = ":status"@;
    assert(s.len() == 7);
    if byte_chars(name) == s {
        assert(name.len() == byte_chars(name).len());
        assert forall|i: int| 0 <= i < 7 implies #[trigger] name[i] == status_name()[i] by {
            assert(byte_chars(name)[i] == name[i] as char);
            assert(name[i] as char == s[i]);
            assert(i == 0 || i == 1 || i == 2 || i == 3 || i == 4 || i == 5 || i == 6);
        }
        assert(name =~= status_name());
    }
    if name == status_name() {
        assert(byte_chars(name) =~= s);
    }
}

/// The requests of a session: of two that follow one another exactly one has an
/// authority that is to be refused, and they differ in their authority and in the
/// time they are given. A request with a body is a `POST` that says how long it
/// is.
pub proof fn law_requests_alternate(
    seed: u64,
    i: u64,
    a: H3Request,
    b: H3Request,
    len: usize,
    name: &'static str,
    ms: u64,
    headers: Vec<(&'static str, String)>,
)
    requires
        seed + i <= u64::MAX,
        i < u64::MAX,
        call_ensures(request_at, (seed, i), a),
        call_ensures(request_at, (seed, (i + 1) as u64), b),
        call_ensures(body_size, ((seed + i) as u64,), len),
        call_ensures(H3Request::authority, (&a,), name),
        call_ensures(H3Request::budget_ms, (&a,), ms),
        call_ensures(H3Request::headers, (&a,), headers),
    ensures
        a.bad_authority != b.bad_authority,
        i % 2 == 0 <==> a.bad_authority,
        a.body_len == len,
        a.bad_authority ==> name@ == "victim.example,attacker.example"@ && ms == 5_000,
        !a.bad_authority ==> name@ == "example.test:443"@ && ms == 600,
        headers@.len() == if len > 0 {
            5int
        } else {
            4
        },
        headers@[0].0@ == ":method"@ && headers@[0].1@ == if len > 0 {
            "POST"@
        } else {
            "GET"@
        },
        headers@[3].0@ == ":authority"@ && headers@[3].1@ == name@,
        len > 0 ==> headers@[4].0@ == "content-length"@ && headers@[4].1@ == decimal(len as nat),
{
}

/// What an event of a stream changes: headers the status, data the count of the
/// body, and an end or a reset that it is over; each only its own.
pub proof fn law_stream_event(
    s: &mut H3Progress,
    event: StreamEvent,
    list: Vec<Field>,
    status: Option<u16>,
)
    requires
        event matches StreamEvent::Data(n) ==> old(s).response_bytes + n <= usize::MAX,
        call_ensures(H3Progress::on_event, (s, &event), ()),
        event is Headers ==> event == StreamEvent::Headers(list),
        call_ensures(read_status, (old(s).status, &list), status),
    ensures
        final(s).body_sent == old(s).body_sent,
        event is Headers ==> final(s).status == status,
        !(event is Headers) ==> final(s).status == old(s).status,
        event matches StreamEvent::Data(n) ==> final(s).response_bytes == old(s).response_bytes + n,
        !(event is Data) ==> final(s).response_bytes == old(s).response_bytes,
        final(s).finished <==> old(s).finished || event is Finished || event is Reset,
{
}

/// How much of a body is sent: what was taken is added, and a stream that takes
/// no more is given up as a whole.
pub proof fn law_body_is_sent(s: &mut H3Progress, taken: Option<usize>, body_len: usize)
    requires
        old(s).body_sent <= body_len,
        taken matches Some(n) ==> n <= body_len - old(s).body_sent,
        call_ensures(H3Progress::on_body, (s, taken, body_len), ()),
    ensures
        taken matches Some(n) ==> final(s).body_sent == old(s).body_sent + n,
        taken is None ==> final(s).body_sent == body_len,
        final(s).status == old(s).status,
        final(s).response_bytes == old(s).response_bytes,
        final(s).finished == old(s).finished,
{
}

/// What a request is judged to be. One with a bad authority passes exactly with a
/// 400 that has a body; one with a valid authority exactly when it was dropped
/// without an answer, on a connection that stays open. Every other course is a
/// fault of its own.
pub proof fn law_judged_by_class(
    request: H3Request,
    progress: H3Progress,
    closed: bool,
    r: Result<H3Outcome, H3Fault>,
)
    requires
        call_ensures(judge_request, (request, progress, closed), r),
    ensures
        request.bad_authority ==> {
            &&& r == Ok::<H3Outcome, H3Fault>(H3Outcome::Verified400) <==> progress.status == Some(
                400u16,
            ) && progress.response_bytes > 0
            &&& progress.status == Some(400u16) && progress.response_bytes == 0 ==> r == Err::<
                H3Outcome,
                H3Fault,
            >(H3Fault::EmptyRefusal)
            &&& progress.status != Some(400u16) ==> r == Err::<H3Outcome, H3Fault>(
                H3Fault::NotRefused { seen: progress.status },
            )
        },
        !request.bad_authority ==> {
            &&& r == Ok::<H3Outcome, H3Fault>(H3Outcome::BoundedDrop) <==> progress.status is None
                && !closed
            &&& progress.status is None && closed ==> r == Err::<H3Outcome, H3Fault>(
                H3Fault::ConnectionClosed,
            )
            &&& progress.status matches Some(s) ==> if 200 <= s <= 299 {
                r == Err::<H3Outcome, H3Fault>(H3Fault::Impossible2xx { status: s })
            } else if s == 400 {
                r == Err::<H3Outcome, H3Fault>(H3Fault::OverReject)
            } else {
                r == Err::<H3Outcome, H3Fault>(H3Fault::Unexpected { status: s })
            }
        },
{
}

/// What follows an attempt to open a stream: only one that is blocked is tried
/// again, as long as there is time and the connection is open.
pub proof fn law_open_step(attempt: OpenAttempt, expired: bool, closed: bool, r: OpenStep)
    requires
        call_ensures(open_step, (attempt, expired, closed), r),
    ensures
        r == OpenStep::Go <==> attempt is Opened,
        r == OpenStep::Failed <==> attempt is Failed,
        r == OpenStep::StayedBlocked <==> attempt is Blocked && expired,
        r == OpenStep::ClosedBefore <==> attempt is Blocked && !expired && closed,
        r == OpenStep::Retry <==> attempt is Blocked && !expired && !closed,
{
}

/// Which side of a torn stream is shut down: both in turn; and of sixteen streams
/// the first is waited for.
pub proof fn law_reset_step(i: usize, r: (TornSide, bool))
    requires
        call_ensures(reset_step, (i,), r),
    ensures
        i % 2 == 0 ==> r.0 is Write,
        i % 2 == 1 ==> r.0 is Read,
        r.1 <==> i % 16 == 0,
{
}

/// What is said of a request that failed: each fault in words of its own, with the
/// status that was seen.
pub proof fn law_fault_words(f: H3Fault, out: String)
    requires
        call_ensures(H3Fault::message, (&f,), out),
    ensures
        f == (H3Fault::NotRefused { seen: None }) ==> out@
            == "bad-:authority must yield the inline 400 decoded egress within 5s; got status="@
            + "None"@ + " (hang \u{21d2} the migrated quiche::h3 ingress stalled)"@,
        f matches H3Fault::NotRefused { seen: Some(s) } ==> out@
            == "bad-:authority must yield the inline 400 decoded egress within 5s; got status="@ + (
        "Some("@ + decimal(s as nat) + ")"@)
            + " (hang \u{21d2} the migrated quiche::h3 ingress stalled)"@,
        f == H3Fault::EmptyRefusal ==> out@
            == "inline-400 must carry a body (\"bad request\"); read 0 bytes"@,
        f matches H3Fault::Impossible2xx { status } ==> out@ == "valid-:authority unexpectedly got a 2xx ("@
            + decimal(status as nat)
            + ") \u{2014} the front is backend-less (F-S26-1), so no upstream response is possible"@,
        f == H3Fault::OverReject ==> out@
            == "valid-:authority was rejected 400 \u{2014} the H3 authority validator over-rejected"@,
        f matches H3Fault::Unexpected { status } ==> out@ == "valid-:authority got an unexpected status "@
            + decimal(status as nat) + " on a backend-less front"@,
        f == H3Fault::ConnectionClosed ==> out@
            == "the connection closed while a valid-:authority request was dropped \u{2014} the ingress must drop the STREAM, not tear down the connection"@,
{
}

} // verus!
