//! Echo streams over one QUIC connection: what is still to be sent on each of
//! them, what came back, and when the relay is found wanting.

use std::collections::HashMap;
use vstd::prelude::*;
use crate::text::{decimal, push_decimal};

verus! {

/// The time that the echoes may take, in milliseconds.
pub const RELAY_BUDGET_MS: u64 = 12_000;

/// The time that a handshake may take, in milliseconds.
pub const HANDSHAKE_BUDGET_MS: u64 = 8_000;

/// The longest datagram that a flood sends.
pub const DATAGRAM_CAP: usize = 1_024;

/// The id of the stream with number `s`: those that a client opens are four
/// apart.
pub open spec fn stream_id(s: int) -> int {
    s * 4
}

/// The streams of a session: what was sent on each, and what came back on
/// those that are not done.
#[derive(Debug)]
pub struct EchoStreams {
    streams: u64,
    payload: Vec<u8>,
    expecting: HashMap<u64, usize>,
    sent: HashMap<u64, usize>,
}

/// A stream on which something else came back than was sent.
#[derive(Debug, Clone, Copy, PartialEq, Eq, Structural)]
pub enum EchoMismatch {
    /// It ended too early, or more came back than was sent.
    Length { sid: u64, got: usize, want: usize },
    /// What came back from this position on differs from what was sent.
    Content { sid: u64, at: usize },
}

impl EchoMismatch {
    /// The message of the mismatch.
    pub fn message(&self) -> (out: String)
        ensures
            out@ == match *self {
                EchoMismatch::Length { sid, got, want } => "echo length mismatch sid="@ + decimal(
                    sid as nat,
                ) + ": got "@ + decimal(got as nat) + " want "@ + decimal(want as nat),
                EchoMismatch::Content { sid, at } => "echo content mismatch sid="@ + decimal(
                    sid as nat,
                ) + ": from byte "@ + decimal(at as nat),
            },
    {
        match *self {
            EchoMismatch::Length { sid, got, want } => {
                let mut out: String = "echo length mismatch sid=".to_owned();
                push_decimal(&mut out, sid);
                out.append(": got ");
                push_decimal(&mut out, got as u64);
                out.append(" want ");
                push_decimal(&mut out, want as u64);
                out
            },
            EchoMismatch::Content { sid, at } => {
                let mut out: String = "echo content mismatch sid=".to_owned();
                push_decimal(&mut out, sid);
                out.append(": from byte ");
                push_decimal(&mut out, at as u64);
                out
            },
        }
    }
}

/// Whether more can be read from a stream.
#[derive(Debug, Clone, Copy, PartialEq, Eq, Structural)]
pub enum ReadStep {
    More,
    Stop,
}

/// The ids of the first `n` streams.
pub open spec fn first_ids(n: int) -> Set<u64> {
    Set::new(|k: u64| exists|s: int| 0 <= s < n && k == #[trigger] stream_id(s))
}

/// Whether bytes continue the echo of a payload of which `got` bytes are back.
pub open spec fn continues(payload: Seq<u8>, got: int, bytes: Seq<u8>) -> bool {
    &&& got + bytes.len() <= payload.len()
    &&& payload.subrange(got, got + bytes.len()) == bytes
}

/// The streams that are awaited once bytes came back on one of them, the last
/// of them with its end if `fin` says so. A stream is done only when it ends
/// and all of its payload came back, byte for byte.
pub open spec fn awaited_after(
    before: Map<u64, usize>,
    payload: Seq<u8>,
    sid: u64,
    bytes: Seq<u8>,
    fin: bool,
) -> Map<u64, usize> {
    let got = before[sid] + bytes.len();
    if !before.contains_key(sid) || !continues(payload, before[sid] as int, bytes) {
        before
    } else if !fin {
        before.insert(sid, got as usize)
    } else if got == payload.len() {
        before.remove(sid)
    } else {
        before
    }
}

/// What such a read comes to: on an awaited stream, an end at another length
/// than that of the payload, an excess and any other byte are a mismatch.
pub open spec fn read_result(
    before: Map<u64, usize>,
    payload: Seq<u8>,
    sid: u64,
    bytes: Seq<u8>,
    fin: bool,
) -> Result<ReadStep, EchoMismatch> {
    let got = before[sid] + bytes.len();
    if before.contains_key(sid) && (got > payload.len() || (fin && got != payload.len())) {
        Err(
            EchoMismatch::Length {
                sid,
                got: if got <= usize::MAX {
                    got as usize
                } else {
                    usize::MAX
                },
                want: payload.len() as usize,
            },
        )
    } else if before.contains_key(sid) && !continues(payload, before[sid] as int, bytes) {
        Err(EchoMismatch::Content { sid, at: before[sid] })
    } else if fin || bytes.len() == 0 {
        Ok(ReadStep::Stop)
    } else {
        Ok(ReadStep::More)
    }
}

/// Whether the bytes stand in the payload at this position.
fn stands_at(payload: &Vec<u8>, at: usize, bytes: &[u8]) -> (r: bool)
    requires
        at + bytes@.len() <= payload@.len(),
    ensures
        r == continues(payload@, at as int, bytes@),
{
    let len: usize = payload.len();
    let mut i: usize = 0;
    while i < bytes.len()
        invariant
            i <= bytes@.len(),
            at + bytes@.len() <= payload@.len() == len,
            forall|j: int| 0 <= j < i ==> payload@[at + j] == #[trigger] bytes@[j],
        decreases bytes@.len() - i,
    {
        if payload[at + i] != bytes[i] {
            assert(payload@.subrange(at as int, at + bytes@.len())[i as int] != bytes@[i as int]);
            return false;
        }
        i += 1;
    }
    assert(payload@.subrange(at as int, at + bytes@.len()) =~= bytes@);
    true
}

impl EchoStreams {
    /// How many bytes came back on each stream that is not done.
    pub closed spec fn expecting(&self) -> Map<u64, usize> {
        self.expecting@
    }

    /// How many bytes were sent on each stream.
    pub closed spec fn sent(&self) -> Map<u64, usize> {
        self.sent@
    }

    /// How many streams there are.
    pub closed spec fn streams(&self) -> u64 {
        self.streams
    }

    /// What is sent on each stream.
    pub closed spec fn payload(&self) -> Seq<u8> {
        self.payload@
    }

    /// Streams that are awaited are streams of the session, and on none of them
    /// more was sent, or came back, than there is.
    pub closed spec fn wf(&self) -> bool {
        &&& self.streams * 4 <= u64::MAX
        &&& self.expecting@.dom().subset_of(first_ids(self.streams as int))
        &&& self.sent@.dom() == first_ids(self.streams as int)
        &&& forall|k: u64| self.sent@.contains_key(k) ==> #[trigger] self.sent@[k]
            <= self.payload@.len()
        &&& forall|k: u64| self.expecting@.contains_key(k) ==> #[trigger] self.expecting@[k]
            <= self.payload@.len()
    }

    /// Opens the books for `streams` streams with the same payload.
    pub fn new(streams: u64, payload: Vec<u8>) -> (r: Self)
        requires
            streams * 4 <= u64::MAX,
        ensures
            r.wf(),
            r.streams() == streams,
            r.payload() == payload@,
            r.expecting() == Map::new(|k: u64| first_ids(streams as int).contains(k), |k: u64| 0usize),
            r.sent() == r.expecting(),
    {
        broadcast use vstd::std_specs::hash::group_hash_axioms;

        let mut expecting: HashMap<u64, usize> = HashMap::new();
        let mut sent: HashMap<u64, usize> = HashMap::new();
        let mut s: u64 = 0;
        assert(first_ids(0) =~= Set::empty());
        while s < streams
            invariant
                s <= streams,
                streams * 4 <= u64::MAX,
                expecting@.dom() =~= first_ids(s as int),
                sent@.dom() =~= first_ids(s as int),
                forall|k: u64| expecting@.contains_key(k) ==> #[trigger] expecting@[k] == 0,
                forall|k: u64| sent@.contains_key(k) ==> #[trigger] sent@[k] == 0,
            decreases streams - s,
        {
            let sid: u64 = s * 4;
            assert(first_ids(s + 1) =~= first_ids(s as int).insert(sid)) by {
                assert(stream_id(s as int) == sid);
                assert forall|k: u64| first_ids(s + 1).contains(k) implies first_ids(
                    s as int,
                ).insert(sid).contains(k) by {
                    let t = choose|t: int| 0 <= t < s + 1 && k == #[trigger] stream_id(t);
                    if t < s {
                        assert(k == stream_id(t));
                    }
                }
                assert forall|k: u64| first_ids(s as int).insert(sid).contains(k) implies first_ids(
                    s + 1,
                ).contains(k) by {
                    if k != sid {
                        let t = choose|t: int| 0 <= t < s && k == #[trigger] stream_id(t);
                        assert(0 <= t < s + 1 && k == stream_id(t));
                    }
                }
            }
            expecting.insert(sid, 0);
            sent.insert(sid, 0);
            s += 1;
        }
        let ghost all = Map::new(
            |k: u64| first_ids(streams as int).contains(k),
            |k: u64| 0usize,
        );
        assert(expecting@ =~= all);
        assert(sent@ =~= all);
        EchoStreams { streams, payload, expecting, sent }
    }

    /// Whether every echo is back.
    pub fn done(&self) -> (r: bool)
        requires
            self.wf(),
        ensures
            r == (self.expecting().dom() =~= Set::empty()),
    {
        broadcast use vstd::std_specs::hash::group_hash_axioms;

        let n: usize = self.expecting.len();
        proof {
            if n == 0 {
                assert(self.expecting@.dom() =~= Set::empty());
            }
        }
        n == 0
    }

    /// Where the rest of the payload of the stream with number `s` starts;
    /// none when all of it was sent.
    pub fn to_send(&self, s: u64) -> (r: Option<usize>)
        requires
            self.wf(),
            s < self.streams(),
        ensures
            r == if self.sent()[(s * 4) as u64] < self.payload().len() {
                Some(self.sent()[(s * 4) as u64])
            } else {
                None
            },
    {
        broadcast use vstd::std_specs::hash::group_hash_axioms;

        let sid: u64 = s * 4;
        assert(first_ids(self.streams as int).contains(sid)) by {
            assert(stream_id(s as int) == sid);
        }
        match self.sent.get(&sid) {
            Some(off) => if *off < self.payload.len() {
                Some(*off)
            } else {
                None
            },
            None => None,
        }
    }

    /// The transport took `n` more bytes of the stream with number `s`; it
    /// may take fewer than were offered.
    pub fn on_sent(&mut self, s: u64, n: usize)
        requires
            old(self).wf(),
            s < old(self).streams(),
            old(self).sent()[(s * 4) as u64] + n <= old(self).payload().len(),
        ensures
            final(self).wf(),
            final(self).streams() == old(self).streams(),
            final(self).payload() == old(self).payload(),
            final(self).expecting() == old(self).expecting(),
            final(self).sent() == old(self).sent().insert(
                (s * 4) as u64,
                (old(self).sent()[(s * 4) as u64] + n) as usize,
            ),
    {
        broadcast use vstd::std_specs::hash::group_hash_axioms;

        let sid: u64 = s * 4;
        assert(first_ids(self.streams as int).contains(sid)) by {
            assert(stream_id(s as int) == sid);
        }
        let off: usize = match self.sent.get(&sid) {
            Some(off) => *off,
            None => 0,
        };
        let want: usize = self.payload.len();
        assert(off + n <= want);
        self.sent.insert(sid, off + n);
        assert(self.sent@.dom() =~= first_ids(self.streams as int));
    }

    /// Bytes came back on a stream, the last of them with its end if `fin` says
    /// so.
    pub fn on_received(&mut self, sid: u64, bytes: &[u8], fin: bool) -> (r: Result<
        ReadStep,
        EchoMismatch,
    >)
        requires
            old(self).wf(),
        ensures
            final(self).wf(),
            final(self).streams() == old(self).streams(),
            final(self).payload() == old(self).payload(),
            final(self).sent() == old(self).sent(),
            final(self).expecting() == awaited_after(
                old(self).expecting(),
                old(self).payload(),
                sid,
                bytes@,
                fin,
            ),
            r == read_result(old(self).expecting(), old(self).payload(), sid, bytes@, fin),
    {
        broadcast use vstd::std_specs::hash::group_hash_axioms;

        let ghost before = self.expecting@;
        let n: usize = bytes.len();
        let known: Option<usize> = match self.expecting.get(&sid) {
            Some(got) => Some(*got),
            None => None,
        };
        match known {
            Some(had) => {
                let want: usize = self.payload.len();
                if n > want - had || (fin && n != want - had) {
                    return Err(EchoMismatch::Length { sid, got: had.saturating_add(n), want });
                }
                if !stands_at(&self.payload, had, bytes) {
                    return Err(EchoMismatch::Content { sid, at: had });
                }
                if fin {
                    self.expecting.remove(&sid);
                    assert(self.expecting@ =~= before.remove(sid));
                    return Ok(ReadStep::Stop);
                }
                self.expecting.insert(sid, had + n);
                assert(self.expecting@ =~= before.insert(sid, (had + n) as usize));
                assert(self.expecting@.dom() =~= before.dom());
            },
            None => {
                if fin {
                    return Ok(ReadStep::Stop);
                }
            },
        }
        if n == 0 {
            Ok(ReadStep::Stop)
        } else {
            Ok(ReadStep::More)
        }
    }

    /// What is said of one stream that is not done.
    pub open spec fn stalled(self, s: int) -> Seq<char> {
        let sid = stream_id(s) as u64;
        "sid"@ + decimal(sid as nat) + "=got"@ + decimal(self.expecting()[sid] as nat) + "/sent"@
            + decimal(self.sent()[sid] as nat) + "/want"@ + decimal(self.payload().len())
    }

    /// What is said of the streams below `n` that are not done, in the order
    /// of their ids.
    pub open spec fn stalled_below(self, n: int) -> Seq<char>
        decreases n,
    {
        if n <= 0 {
            Seq::empty()
        } else {
            let before = self.stalled_below(n - 1);
            if !self.expecting().contains_key(stream_id(n - 1) as u64) {
                before
            } else if before.len() == 0 {
                self.stalled(n - 1)
            } else {
                before + " "@ + self.stalled(n - 1)
            }
        }
    }

    /// The message of a session whose echoes did not come back: which streams
    /// are left, and for each of them what came back, what was sent and what
    /// was wanted. Less sent than wanted is the client's own fault.
    pub fn stall_message(&self, closed: bool) -> (out: String)
        requires
            self.wf(),
        ensures
            out@ == "relay timeout / closed (streams left: "@ + decimal(
                self.expecting().dom().len(),
            ) + " ["@ + self.stalled_below(self.streams() as int) + "]); closed="@ + if closed {
                "true"@
            } else {
                "false"@
            },
    {
        broadcast use vstd::std_specs::hash::group_hash_axioms;

        let mut detail: String = String::new();
        let mut s: u64 = 0;
        let mut listed: bool = false;
        assert(detail@ =~= Seq::empty());
        while s < self.streams
            invariant
                self.wf(),
                s <= self.streams,
                detail@ == self.stalled_below(s as int),
                listed == (detail@.len() > 0),
            decreases self.streams - s,
        {
            let sid: u64 = s * 4;
            assert(first_ids(self.streams as int).contains(sid)) by {
                assert(stream_id(s as int) == sid);
            }
            let ghost before = detail@;
            match self.expecting.get(&sid) {
                Some(got) => {
                    let sent: usize = match self.sent.get(&sid) {
                        Some(off) => *off,
                        None => 0,
                    };
                    if listed {
                        detail.append(" ");
                    }
                    let ghost lead = detail@;
                    detail.append("sid");
                    push_decimal(&mut detail, sid);
                    detail.append("=got");
                    push_decimal(&mut detail, *got as u64);
                    detail.append("/sent");
                    push_decimal(&mut detail, sent as u64);
                    detail.append("/want");
                    push_decimal(&mut detail, self.payload.len() as u64);
                    proof {
                        reveal_strlit("sid");
                        assert(self.stalled(s as int).len() >= "sid"@.len());
                        assert(detail@ =~= lead + self.stalled(s as int));
                        if !listed {
                            assert(before =~= Seq::empty());
                            assert(detail@ =~= self.stalled(s as int));
                        } else {
                            assert(detail@ =~= before + " "@ + self.stalled(s as int));
                        }
                    }
                    listed = true;
                },
                None => {},
            }
            s += 1;
        }
        let mut out: String = "relay timeout / closed (streams left: ".to_owned();
        push_decimal(&mut out, self.expecting.len() as u64);
        out.append(" [");
        out.append(&detail);
        out.append("]); closed=");
        out.append(if closed { "true" } else { "false" });
        out
    }
}

/// A read on a stream: the bytes, and whether the stream ended with them.
pub struct EchoPart {
    pub sid: u64,
    pub bytes: Seq<u8>,
    pub fin: bool,
}

/// The books after a run of reads.
pub open spec fn books_after(
    start: Map<u64, usize>,
    payload: Seq<u8>,
    parts: Seq<EchoPart>,
) -> Map<u64, usize>
    decreases parts.len(),
{
    if parts.len() == 0 {
        start
    } else {
        let p = parts.last();
        awaited_after(books_after(start, payload, parts.drop_last()), payload, p.sid, p.bytes, p.fin)
    }
}

/// Whether no read of a run was found to be a mismatch.
pub open spec fn all_well(start: Map<u64, usize>, payload: Seq<u8>, parts: Seq<EchoPart>) -> bool
    decreases parts.len(),
{
    if parts.len() == 0 {
        true
    } else {
        let p = parts.last();
        let before = books_after(start, payload, parts.drop_last());
        &&& all_well(start, payload, parts.drop_last())
        &&& read_result(before, payload, p.sid, p.bytes, p.fin) is Ok
    }
}

/// All that came back on a stream.
pub open spec fn came_back(parts: Seq<EchoPart>, sid: u64) -> Seq<u8>
    decreases parts.len(),
{
    if parts.len() == 0 {
        Seq::empty()
    } else if parts.last().sid == sid {
        came_back(parts.drop_last(), sid) + parts.last().bytes
    } else {
        came_back(parts.drop_last(), sid)
    }
}

/// Whether a stream ended with the read at position `i`, when exactly the
/// payload had come back on it.
pub open spec fn echoed_at(payload: Seq<u8>, parts: Seq<EchoPart>, sid: u64, i: int) -> bool {
    &&& 0 <= i < parts.len()
    &&& parts[i].sid == sid
    &&& parts[i].fin
    &&& came_back(parts.take(i + 1), sid) == payload
}

/// An echo with any other byte is an error: a read on an awaited stream that
/// does not continue its payload is refused, whatever its length.
pub proof fn law_another_byte_is_refused(
    before: Map<u64, usize>,
    payload: Seq<u8>,
    sid: u64,
    bytes: Seq<u8>,
    fin: bool,
)
    requires
        before.contains_key(sid),
        bytes != payload.subrange(before[sid] as int, before[sid] + bytes.len()),
    ensures
        read_result(before, payload, sid, bytes, fin) is Err,
        awaited_after(before, payload, sid, bytes, fin) == before,
{
}

/// No stream leaves the books but one that ended when its payload had come
/// back on it, byte for byte: a session that is done has every echo back
/// unchanged.
pub proof fn law_only_true_echoes_leave(
    start: Map<u64, usize>,
    payload: Seq<u8>,
    parts: Seq<EchoPart>,
    sid: u64,
)
    requires
        start.contains_key(sid),
        start[sid] == 0,
        payload.len() <= usize::MAX,
        all_well(start, payload, parts),
        !books_after(start, payload, parts).contains_key(sid),
    ensures
        exists|i: int| echoed_at(payload, parts, sid, i),
{
    lemma_books(start, payload, parts, sid);
}

proof fn lemma_books(start: Map<u64, usize>, payload: Seq<u8>, parts: Seq<EchoPart>, sid: u64)
    requires
        start.contains_key(sid),
        start[sid] == 0,
        payload.len() <= usize::MAX,
        all_well(start, payload, parts),
    ensures
        ({
            let books = books_after(start, payload, parts);
            if books.contains_key(sid) {
                &&& books[sid] <= payload.len()
                &&& came_back(parts, sid) == payload.take(books[sid] as int)
            } else {
                exists|i: int| echoed_at(payload, parts, sid, i)
            }
        }),
    decreases parts.len(),
{
    if parts.len() == 0 {
        assert(came_back(parts, sid) =~= payload.take(0));
    } else {
        let init = parts.drop_last();
        let p = parts.last();
        lemma_books(start, payload, init, sid);
        let before = books_after(start, payload, init);
        let books = books_after(start, payload, parts);
        if before.contains_key(sid) {
            if p.sid == sid {
                let got = before[sid] as int;
                assert(continues(payload, got, p.bytes));
                assert(came_back(parts, sid) =~= payload.take(got + p.bytes.len()));
                if p.fin {
                    assert(payload.take(payload.len() as int) =~= payload);
                    assert(parts.take(parts.len() as int) =~= parts);
                    assert(echoed_at(payload, parts, sid, parts.len() - 1));
                }
            }
        } else {
            let i = choose|i: int| echoed_at(payload, init, sid, i);
            assert(init.take(i + 1) =~= parts.take(i + 1));
            assert(init[i] == parts[i]);
            assert(echoed_at(payload, parts, sid, i));
        }
    }
}

/// How much of a payload a datagram carries.
pub fn datagram_len(payload_len: usize) -> (n: usize)
    ensures
        n == if payload_len < DATAGRAM_CAP {
            payload_len
        } else {
            DATAGRAM_CAP
        },
{
    if payload_len < DATAGRAM_CAP {
        payload_len
    } else {
        DATAGRAM_CAP
    }
}

// ---------------------------------------------------------------------------
// Laws of the calls
// ---------------------------------------------------------------------------

/// What a part of an echo does to a stream that is awaited and has received `g`
/// bytes: it is an error exactly when it is no continuation of the payload, or
/// ends it elsewhere than at its end. A part that ends the payload leaves the
/// stream done; any other good part is added. Other streams are as they were, and
/// an error changes nothing.
pub proof fn law_part_is_compared(
    s: &mut EchoStreams,
    sid: u64,
    bytes: &[u8],
    fin: bool,
    r: Result<ReadStep, EchoMismatch>,
    other: u64,
)
    requires
        old(s).wf(),
        call_ensures(EchoStreams::on_received, (s, sid, bytes, fin), r),
        other != sid,
    ensures
        final(s).payload() == old(s).payload(),
        final(s).expecting().contains_key(other) <==> old(s).expecting().contains_key(other),
        old(s).expecting().contains_key(other) ==> final(s).expecting()[other] == old(s).expecting()[other],
        old(s).expecting().contains_key(sid) ==> ({
            let g = old(s).expecting()[sid] as int;
            let end = g + bytes@.len();
            let fits = end <= old(s).payload().len() && forall|i: int|
                0 <= i < bytes@.len() ==> #[trigger] bytes@[i] == old(s).payload()[g + i];
            &&& r is Ok <==> fits && (fin ==> end == old(s).payload().len())
            &&& r is Ok && fin ==> !final(s).expecting().contains_key(sid)
            &&& r is Ok && !fin ==> final(s).expecting().contains_key(sid) && final(
                s).expecting()[sid] == end
            &&& r is Err ==> final(s).expecting() == old(s).expecting()
        }),
        !old(s).expecting().contains_key(sid) ==> r is Ok && final(s).expecting() == old(
            s).expecting(),
        r is Ok ==> (r->Ok_0 == ReadStep::Stop <==> fin || bytes@.len() == 0),
{
    if old(s).expecting().contains_key(sid) {
        let g = old(s).expecting()[sid] as int;
        let end = g + bytes@.len();
        let payload = old(s).payload();
        assert(old(s).payload.len() == payload.len());
        if end <= payload.len() {
            let part = payload.subrange(g, end);
            if forall|i: int| 0 <= i < bytes@.len() ==> #[trigger] bytes@[i] == payload[g + i] {
                assert(part =~= bytes@);
            }
            if part == bytes@ {
                assert forall|i: int| 0 <= i < bytes@.len() implies #[trigger] bytes@[i] == payload[g
                    + i] by {
                    assert(part[i] == payload[g + i]);
                }
            }
        }
    }
}

/// What a relay starts with: every stream of the client is awaited and has sent
/// nothing; it is done exactly when none is awaited any more.
pub proof fn law_relay_starts(streams: u64, payload: Vec<u8>, s: EchoStreams, k: u64, done: bool)
    requires
        streams * 4 <= u64::MAX,
        call_ensures(EchoStreams::new, (streams, payload), s),
        call_ensures(EchoStreams::done, (&s,), done),
    ensures
        s.payload() == payload@,
        s.expecting().contains_key(k) <==> k % 4 == 0 && k < streams * 4,
        s.expecting().contains_key(k) ==> s.expecting()[k] == 0 && s.sent()[k] == 0,
        done <==> streams == 0,
{
    if k % 4 == 0 && k < streams * 4 {
        let i = k as int / 4;
        assert(0 <= i < streams && k == stream_id(i));
        assert(first_ids(streams as int).contains(k));
    }
    if s.expecting().contains_key(k) {
        let i = choose|i: int| 0 <= i < streams && k == #[trigger] stream_id(i);
        assert(k == 4 * i);
    }
    if streams > 0 {
        assert(stream_id(0) == 0);
        assert(first_ids(streams as int).contains(0u64));
        assert(s.expecting().contains_key(0u64));
    } else {
        assert(s.expecting().dom() =~= Set::empty());
    }
}

/// What a stream sends next: from where it stands, until the payload is sent.
pub proof fn law_stream_sends(s: &mut EchoStreams, i: u64, n: usize, before: Option<usize>, after: Option<usize>)
    requires
        old(s).wf(),
        i < old(s).streams(),
        call_ensures(EchoStreams::to_send, (old(s), i), before),
        before is Some,
        before->0 + n <= old(s).payload().len(),
        call_ensures(EchoStreams::on_sent, (s, i, n), ()),
        call_ensures(EchoStreams::to_send, (final(s), i), after),
    ensures
        before->0 < old(s).payload().len(),
        before->0 + n < old(s).payload().len() ==> after == Some((before->0 + n) as usize),
        before->0 + n == old(s).payload().len() ==> after is None,
        final(s).expecting() == old(s).expecting(),
{
    assert(old(s).payload.len() == old(s).payload().len());
    let at = (i * 4) as u64;
    assert(final(s).sent()[at] == before->0 + n);
}

/// A datagram carries the payload, or its first 1024 bytes.
pub proof fn law_datagram_len(payload_len: usize, n: usize)
    requires
        call_ensures(datagram_len, (payload_len,), n),
    ensures
        payload_len <= 1_024 ==> n == payload_len,
        payload_len > 1_024 ==> n == 1_024,
{
}

/// What is said of streams that got stuck: each that is still awaited, in order,
/// with what it received, what it sent and what it wants; the ones that are done
/// are left out.
pub proof fn law_stuck_streams(s: EchoStreams, n: int)
    requires
        n >= 0,
    ensures
        s.stalled_below(0).len() == 0,
        !s.expecting().contains_key((4 * n) as u64) ==> s.stalled_below(n + 1) == s.stalled_below(n),
        s.expecting().contains_key((4 * n) as u64) ==> ({
            let one = "sid"@ + decimal((4 * n) as u64 as nat) + "=got"@ + decimal(
                s.expecting()[(4 * n) as u64] as nat,
            ) + "/sent"@ + decimal(s.sent()[(4 * n) as u64] as nat) + "/want"@ + decimal(
                s.payload().len(),
            );
            &&& s.stalled_below(n).len() == 0 ==> s.stalled_below(n + 1) == one
            &&& s.stalled_below(n).len() > 0 ==> s.stalled_below(n + 1) == s.stalled_below(n) + " "@ + one
        }),
{
    assert(stream_id(n) == 4 * n);
}

} // verus!
