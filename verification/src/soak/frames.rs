//! Payloads and frames of the load drivers: WebSocket frames as a client masks
//! them, and gRPC messages with their length in front.

use vstd::prelude::*;

verus! {

/// Body sizes that requests cycle through.
pub const BODY_SIZES: [usize; 4] = [0, 256, 4096, 65_536];

/// The body size of the request with number `i`.
pub open spec fn size_at(i: int) -> nat {
    BODY_SIZES@[i % 4] as nat
}

/// The body size of the request with number `i`.
pub fn body_size(i: u64) -> (len: usize)
    ensures
        len == size_at(i as int),
        len <= 65_536,
{
    BODY_SIZES[(i % 4) as usize]
}

/// The body of the request with number `i`.
pub fn body_for(i: u64) -> (body: Vec<u8>)
    ensures
        body@ == Seq::new(size_at(i as int), |k: int| 120u8),
{
    let len: usize = body_size(i);
    let mut body: Vec<u8> = Vec::new();
    while body.len() < len
        invariant
            body@.len() <= len,
            body@ =~= Seq::new(body@.len(), |k: int| 120u8),
        decreases len - body@.len(),
    {
        body.push(120);
    }
    body
}

/// The byte at `k` of an echo payload: it runs through 251 values, so that no
/// shorter period hides a shifted echo.
pub open spec fn echo_byte(start: u64, k: int) -> u8 {
    (((start + k) % 0x1_0000_0000_0000_0000) % 251) as u8
}

/// An echo payload.
pub open spec fn echo_bytes(start: u64, len: nat) -> Seq<u8> {
    Seq::new(len, |k: int| echo_byte(start, k))
}

/// An echo payload.
pub fn echo_payload(start: u64, len: usize) -> (out: Vec<u8>)
    ensures
        out@ == echo_bytes(start, len as nat),
{
    let mut out: Vec<u8> = Vec::new();
    let mut k: usize = 0;
    while k < len
        invariant
            k <= len,
            out@ =~= echo_bytes(start, k as nat),
        decreases len - k,
    {
        out.push((start.wrapping_add(k as u64) % 251) as u8);
        k += 1;
    }
    out
}

/// A payload that differs from byte to byte.
pub open spec fn striding_bytes(len: nat) -> Seq<u8> {
    Seq::new(len, |i: int| ((i * 31 + 7) % 256) as u8)
}

/// A payload that differs from byte to byte.
pub fn striding_payload(len: usize) -> (out: Vec<u8>)
    ensures
        out@ == striding_bytes(len as nat),
{
    let mut out: Vec<u8> = Vec::new();
    let mut i: usize = 0;
    let mut byte: u64 = 7;
    while i < len
        invariant
            i <= len,
            byte == (i * 31 + 7) % 256,
            out@ =~= striding_bytes(i as nat),
        decreases len - i,
    {
        assert((byte + 31) % 256 == ((i + 1) * 31 + 7) % 256) by {
            vstd::arithmetic::div_mod::lemma_add_mod_noop(i * 31 + 7, 31, 256);
        }
        out.push(byte as u8);
        byte = (byte + 31) % 256;
        i += 1;
    }
    out
}

// ---------------------------------------------------------------------------
// WebSocket frames
// ---------------------------------------------------------------------------

/// The opcode of a frame with bytes.
pub const WS_BINARY: u8 = 0x2;

/// The opcode of a closing frame.
pub const WS_CLOSE: u8 = 0x8;

/// The four mask bytes.
pub open spec fn mask_byte(i: int) -> u8 {
    if i % 4 == 0 {
        0x3a
    } else if i % 4 == 1 {
        0x5b
    } else if i % 4 == 2 {
        0x7c
    } else {
        0x9d
    }
}

/// The frame that carries a payload: a final frame, masked, with a length of
/// seven bits.
pub open spec fn masked_frame(opcode: u8, payload: Seq<u8>) -> Seq<u8> {
    seq![
        0x80u8 | opcode,
        0x80u8 | ((payload.len() % 256) as u8),
        mask_byte(0),
        mask_byte(1),
        mask_byte(2),
        mask_byte(3),
    ] + Seq::new(payload.len(), |i: int| payload[i] ^ mask_byte(i))
}

/// Encodes a masked client frame. Payloads are shorter than 126 bytes; only
/// the low eight bits of a longer length would be kept.
pub fn ws_mask_frame(opcode: u8, payload: &[u8]) -> (f: Vec<u8>)
    ensures
        f@ == masked_frame(opcode, payload@),
{
    let mut f: Vec<u8> = Vec::new();
    f.push(0x80u8 | opcode);
    f.push(0x80u8 | ((payload.len() % 256) as u8));
    f.push(0x3a);
    f.push(0x5b);
    f.push(0x7c);
    f.push(0x9d);
    let ghost head = f@;
    let mut i: usize = 0;
    while i < payload.len()
        invariant
            i <= payload@.len(),
            head.len() == 6,
            f@ =~= head + Seq::new(i as nat, |k: int| payload@[k] ^ mask_byte(k)),
        decreases payload@.len() - i,
    {
        let phase: usize = i % 4;
        let mask: u8 = if phase == 0 {
            0x3a
        } else if phase == 1 {
            0x5b
        } else if phase == 2 {
            0x7c
        } else {
            0x9d
        };
        f.push(payload[i] ^ mask);
        i += 1;
    }
    f
}

/// The length of the payload and where what follows it starts; none when the
/// buffer is too short or the length takes eight bytes.
pub open spec fn frame_length(buf: Seq<u8>) -> Option<(nat, nat)> {
    if buf.len() < 2 {
        None
    } else if buf[1] % 128 < 126 {
        Some(((buf[1] % 128) as nat, 2))
    } else if buf[1] % 128 == 126 && buf.len() >= 4 {
        Some(((buf[2] * 256 + buf[3]) as nat, 4))
    } else {
        None
    }
}

/// The first frame of a buffer: opcode, payload and the bytes it takes; none
/// when it is not complete.
pub open spec fn first_frame(buf: Seq<u8>) -> Option<(u8, Seq<u8>, nat)> {
    match frame_length(buf) {
        None => None,
        Some((len, at)) => if buf[1] >= 128 {
            if buf.len() < at + 4 + len {
                None
            } else {
                Some(
                    (
                        buf[0] % 16,
                        Seq::new(len, |i: int| buf[at + 4 + i] ^ buf[at + i % 4]),
                        at + 4 + len,
                    ),
                )
            }
        } else if buf.len() < at + len {
            None
        } else {
            Some((buf[0] % 16, Seq::new(len, |i: int| buf[at + i]), at + len))
        },
    }
}

/// Reads the first complete frame of a buffer: its opcode, its payload and how
/// many bytes it takes.
pub fn ws_parse_one(buf: &[u8]) -> (r: Option<(u8, Vec<u8>, usize)>)
    ensures
        match r {
            Some(f) => first_frame(buf@) == Some((f.0, f.1@, f.2 as nat)) && 2 <= f.2 <= buf@.len(),
            None => first_frame(buf@) is None,
        },
{
    let n: usize = buf.len();
    if n < 2 {
        return None;
    }
    let len7: u8 = buf[1] % 128;
    let masked: bool = buf[1] >= 128;
    let mut at: usize = 2;
    let mut len: usize = len7 as usize;
    if len7 == 126 {
        if n < 4 {
            return None;
        }
        len = buf[2] as usize * 256 + buf[3] as usize;
        at = 4;
    } else if len7 > 126 {
        return None;
    }
    if masked {
        if n < at + 4 {
            return None;
        }
        if n < at + 4 + len {
            return None;
        }
        let mut payload: Vec<u8> = Vec::new();
        let mut i: usize = 0;
        while i < len
            invariant
                i <= len,
                at + 4 + len <= n == buf@.len(),
                payload@ =~= Seq::new(i as nat, |k: int| buf@[at + 4 + k] ^ buf@[at + k % 4]),
            decreases len - i,
        {
            payload.push(buf[at + 4 + i] ^ buf[at + i % 4]);
            i += 1;
        }
        Some((buf[0] % 16, payload, at + 4 + len))
    } else {
        if n < at + len {
            return None;
        }
        let mut payload: Vec<u8> = Vec::new();
        let mut i: usize = 0;
        while i < len
            invariant
                i <= len,
                at + len <= n == buf@.len(),
                payload@ =~= Seq::new(i as nat, |k: int| buf@[at + k]),
            decreases len - i,
        {
            payload.push(buf[at + i]);
            i += 1;
        }
        Some((buf[0] % 16, payload, at + len))
    }
}

/// A masked frame reads back as its opcode and payload, whatever bytes follow
/// it.
pub proof fn law_frame_round_trip(opcode: u8, payload: Seq<u8>, rest: Seq<u8>)
    requires
        opcode < 16,
        payload.len() < 126,
    ensures
        first_frame(masked_frame(opcode, payload) + rest) == Some(
            (opcode, payload, payload.len() + 6),
        ),
{
    let buf = masked_frame(opcode, payload) + rest;
    let n = payload.len() as u8;
    assert((0x80u8 | opcode) % 16 == opcode) by (bit_vector)
        requires
            opcode < 16,
    ;
    assert((0x80u8 | n) % 128 == n && (0x80u8 | n) >= 128) by (bit_vector)
        requires
            n < 126,
    ;
    assert(buf[0] == 0x80u8 | opcode);
    assert(buf[1] == 0x80u8 | n);
    assert(frame_length(buf) == Some((payload.len(), 2nat)));
    let read = Seq::new(payload.len(), |i: int| buf[2 + 4 + i] ^ buf[2 + i % 4]);
    assert forall|i: int| 0 <= i < payload.len() implies read[i] == payload[i] by {
        let a = payload[i];
        let m = mask_byte(i);
        assert(buf[2 + i % 4] == m);
        assert(buf[2 + 4 + i] == a ^ m);
        assert((a ^ m) ^ m == a) by (bit_vector);
    }
    assert(read =~= payload);
}

/// The frame that a server answers with: it is not masked.
pub open spec fn plain_frame(opcode: u8, payload: Seq<u8>) -> Seq<u8> {
    seq![0x80u8 | opcode, payload.len() as u8] + payload
}

/// A frame that a server sent reads as its opcode and payload, whatever bytes
/// follow it.
pub proof fn law_server_frame_reads(opcode: u8, payload: Seq<u8>, rest: Seq<u8>)
    requires
        opcode < 16,
        payload.len() < 126,
    ensures
        first_frame(plain_frame(opcode, payload) + rest) == Some(
            (opcode, payload, payload.len() + 2),
        ),
{
    let buf = plain_frame(opcode, payload) + rest;
    assert((0x80u8 | opcode) % 16 == opcode) by (bit_vector)
        requires
            opcode < 16,
    ;
    assert(buf[0] == 0x80u8 | opcode);
    assert(frame_length(buf) == Some((payload.len(), 2nat)));
    assert(Seq::new(payload.len(), |i: int| buf[2 + i]) =~= payload);
}

/// Frames of a buffer that carry exactly the payload, and what is left of the
/// buffer once its complete frames are taken.
pub open spec fn echoes(buf: Seq<u8>, payload: Seq<u8>) -> (nat, Seq<u8>)
    decreases buf.len(),
{
    match first_frame(buf) {
        None => (0, buf),
        Some((opcode, body, taken)) => if 0 < taken <= buf.len() {
            let (n, left) = echoes(buf.skip(taken as int), payload);
            (
                n + if opcode == WS_BINARY && body == payload {
                    1nat
                } else {
                    0
                },
                left,
            )
        } else {
            (0, buf)
        },
    }
}

/// Whether two byte strings are equal.
pub fn same_bytes(a: &[u8], b: &[u8]) -> (r: bool)
    ensures
        r == (a@ == b@),
{
    if a.len() != b.len() {
        return false;
    }
    let mut i: usize = 0;
    while i < a.len()
        invariant
            i <= a@.len() == b@.len(),
            forall|j: int| 0 <= j < i ==> a@[j] == b@[j],
        decreases a@.len() - i,
    {
        if a[i] != b[i] {
            return false;
        }
        i += 1;
    }
    assert(a@ =~= b@);
    true
}

fn tail(buf: &[u8], from: usize) -> (out: Vec<u8>)
    requires
        from <= buf@.len(),
    ensures
        out@ == buf@.skip(from as int),
{
    let mut out: Vec<u8> = Vec::new();
    let mut i: usize = from;
    while i < buf.len()
        invariant
            from <= i <= buf@.len(),
            out@ =~= buf@.subrange(from as int, i as int),
        decreases buf@.len() - i,
    {
        out.push(buf[i]);
        i += 1;
    }
    assert(out@ =~= buf@.skip(from as int));
    out
}

/// Takes every complete frame out of the receive buffer, and counts those that
/// echo the payload. Other frames are passed over.
pub fn take_echoes(rx: &mut Vec<u8>, payload: &[u8]) -> (n: usize)
    ensures
        n == echoes(old(rx)@, payload@).0,
        final(rx)@ == echoes(old(rx)@, payload@).1,
{
    let mut n: usize = 0;
    let ghost start = rx@;
    let room: usize = rx.len();
    let mut more: bool = true;
    while more
        invariant
            rx@.len() + 2 * n <= room,
            echoes(start, payload@) == (
                n as nat + echoes(rx@, payload@).0,
                echoes(rx@, payload@).1,
            ),
            !more ==> first_frame(rx@) is None,
        decreases more as int, rx@.len(),
    {
        match ws_parse_one(rx) {
            None => {
                more = false;
            },
            Some(f) => {
                if f.0 == WS_BINARY && same_bytes(&f.1, payload) {
                    n += 1;
                }
                let left = tail(rx, f.2);
                *rx = left;
            },
        }
    }
    n
}

// ---------------------------------------------------------------------------
// gRPC messages
// ---------------------------------------------------------------------------

/// A number of 32 bits in four bytes, the highest first.
pub open spec fn be_bytes(n: nat) -> Seq<u8> {
    seq![
        (n / 0x100_0000 % 256) as u8,
        (n / 0x1_0000 % 256) as u8,
        (n / 0x100 % 256) as u8,
        (n % 256) as u8,
    ]
}

/// A message that is not compressed, with its length in front.
pub open spec fn grpc_frame(payload: Seq<u8>) -> Seq<u8> {
    seq![0u8] + be_bytes(payload.len()) + payload
}

/// Puts the header of a message in front of it. Only the low 32 bits of the
/// length are kept.
pub fn frame_grpc(payload: &[u8]) -> (v: Vec<u8>)
    ensures
        v@ == grpc_frame(payload@),
{
    let n: usize = payload.len();
    let mut v: Vec<u8> = Vec::new();
    v.push(0u8);
    v.push((n / 0x100_0000 % 256) as u8);
    v.push((n / 0x1_0000 % 256) as u8);
    v.push((n / 0x100 % 256) as u8);
    v.push((n % 256) as u8);
    let ghost head = v@;
    assert(head =~= seq![0u8] + be_bytes(payload@.len()));
    let mut i: usize = 0;
    while i < n
        invariant
            i <= n == payload@.len(),
            v@ =~= head + payload@.take(i as int),
        decreases n - i,
    {
        v.push(payload[i]);
        i += 1;
    }
    assert(payload@.take(i as int) =~= payload@);
    v
}

/// The length in the header of a frame is that of the message behind it.
pub proof fn law_grpc_frame_measures_itself(payload: Seq<u8>)
    requires
        payload.len() < 0x1_0000_0000,
    ensures
        grpc_frame(payload).len() == 5 + payload.len(),
        grpc_frame(payload)[0] == 0,
        grpc_frame(payload)[1] * 0x100_0000 + grpc_frame(payload)[2] * 0x1_0000
            + grpc_frame(payload)[3] * 0x100 + grpc_frame(payload)[4] == payload.len(),
        grpc_frame(payload).skip(5) == payload,
{
    assert(grpc_frame(payload).skip(5) =~= payload);
}

// ---------------------------------------------------------------------------
// Laws
// ---------------------------------------------------------------------------

/// The sizes of bodies come round in four: none, 256, 4096 and 65536 bytes.
pub proof fn law_body_sizes(i: u64, len: usize, body: Vec<u8>)
    requires
        call_ensures(body_size, (i,), len),
        call_ensures(body_for, (i,), body),
    ensures
        i % 4 == 0 ==> len == 0,
        i % 4 == 1 ==> len == 256,
        i % 4 == 2 ==> len == 4_096,
        i % 4 == 3 ==> len == 65_536,
        body@.len() == len,
        forall|k: int| 0 <= k < body@.len() ==> #[trigger] body@[k] == 0x78,
{
}

/// The bytes of an echo count up from its start, and begin again after 250; that
/// of the next start is the same one byte further on.
pub proof fn law_echo_counts_up(start: u64, len: usize, a: Vec<u8>, b: Vec<u8>, k: int)
    requires
        start + len < u64::MAX,
        call_ensures(echo_payload, (start, len), a),
        call_ensures(echo_payload, ((start + 1) as u64, len), b),
    ensures
        a@.len() == len,
        0 <= k < len ==> a@[k] < 251 && (start + k - a@[k]) % 251 == 0,
        0 <= k < len - 1 ==> a@[k + 1] == b@[k],
{
    if 0 <= k < len {
        let x = (start + k) % 0x1_0000_0000_0000_0000 % 251;
        assert((start + k) % 0x1_0000_0000_0000_0000 == start + k);
        assert(a@[k] == x as u8);
        assert((start + k - x) % 251 == 0) by (nonlinear_arith)
            requires
                x == (start + k) % 251,
        ;
    }
}

/// The bytes of a striding payload start at seven, and each is 31 beyond the one
/// before, in a byte.
pub proof fn law_striding(len: usize, out: Vec<u8>, k: int)
    requires
        call_ensures(striding_payload, (len,), out),
    ensures
        out@.len() == len,
        len > 0 ==> out@[0] == 7,
        0 <= k < len - 1 ==> out@[k + 1] == (out@[k] + 31) % 256,
{
    if 0 <= k < len - 1 {
        let x = k * 31 + 7;
        let y = (k + 1) * 31 + 7;
        assert(y == x + 31);
        assert(out@[k] == (x % 256) as u8);
        assert(out@[k + 1] == (y % 256) as u8);
        assert((x + 31) % 256 == (x % 256 + 31) % 256);
    }
}

/// What a client sends is what a server reads: one frame, final and masked, with
/// the opcode and the payload that were given, whatever follows it.
pub proof fn law_sent_frame_is_read(
    opcode: u8,
    payload: &[u8],
    frame: Vec<u8>,
    buf: &[u8],
    rest: Seq<u8>,
    r: Option<(u8, Vec<u8>, usize)>,
)
    requires
        opcode < 16,
        payload@.len() < 126,
        call_ensures(ws_mask_frame, (opcode, payload), frame),
        buf@ == frame@ + rest,
        call_ensures(ws_parse_one, (buf,), r),
    ensures
        r is Some,
        (r->0).0 == opcode,
        (r->0).1@ == payload@,
        (r->0).2 == frame@.len(),
        frame@.len() == payload@.len() + 6,
        frame@[0] >= 128,
        frame@[1] == 128 + payload@.len(),
        frame@[2] == 0x3a && frame@[3] == 0x5b && frame@[4] == 0x7c && frame@[5] == 0x9d,
{
    law_frame_round_trip(opcode, payload@, rest);
    let n = payload@.len() as u8;
    assert(0x80u8 | opcode >= 128) by (bit_vector);
    assert(0x80u8 | n == 128 + n) by (bit_vector)
        requires
            n < 126,
    ;
}

/// Which bytes are a frame of a server: two of head, or four where the length
/// takes two bytes, and as many as the length says. Anything shorter is none yet,
/// and what follows is left alone.
pub proof fn law_server_frames(
    head: u8,
    payload: Seq<u8>,
    rest: Seq<u8>,
    buf: &[u8],
    r: Option<(u8, Vec<u8>, usize)>,
)
    requires
        call_ensures(ws_parse_one, (buf,), r),
    ensures
        buf@.len() < 2 ==> r is None,
        payload.len() < 126 && buf@ == seq![head, payload.len() as u8] + payload + rest ==> r is Some
            && (r->0).0 == head % 16 && (r->0).1@ == payload && (r->0).2 == payload.len() + 2,
        payload.len() < 65_536 && buf@ == seq![
            head,
            126u8,
            (payload.len() / 256) as u8,
            (payload.len() % 256) as u8,
        ] + payload + rest ==> r is Some && (r->0).0 == head % 16 && (r->0).1@ == payload && (r->0).2
            == payload.len() + 4,
        buf@.len() >= 2 && buf@[1] % 128 == 127 ==> r is None,
        buf@.len() >= 2 && buf@[1] < 126 && buf@.len() < 2 + buf@[1] ==> r is None,
{
    if payload.len() < 126 && buf@ == seq![head, payload.len() as u8] + payload + rest {
        let n = payload.len();
        assert(buf@[0] == head && buf@[1] == n);
        assert(frame_length(buf@) == Some((n, 2nat)));
        assert(Seq::new(n, |i: int| buf@[2 + i]) =~= payload);
        assert(first_frame(buf@) == Some((head % 16, payload, n + 2)));
    }
    if payload.len() < 65_536 && buf@ == seq![
        head,
        126u8,
        (payload.len() / 256) as u8,
        (payload.len() % 256) as u8,
    ] + payload + rest {
        let n = payload.len();
        assert(buf@[0] == head && buf@[1] == 126u8);
        assert(buf@[2] == n / 256 && buf@[3] == n % 256);
        assert(frame_length(buf@) == Some((n, 4nat)));
        assert(Seq::new(n, |i: int| buf@[4 + i]) =~= payload);
        assert(first_frame(buf@) == Some((head % 16, payload, n + 4)));
    }
}

/// How echoes are taken: a whole frame leaves the buffer, and counts exactly when
/// it is binary and holds the payload; a buffer that starts with no whole frame
/// is left alone.
pub proof fn law_echoes_are_taken(
    rx: &mut Vec<u8>,
    tail: &mut Vec<u8>,
    payload: &[u8],
    f: (u8, Vec<u8>, usize),
    n: usize,
    m: usize,
    buf: &[u8],
    r: Option<(u8, Vec<u8>, usize)>,
)
    requires
        buf@ == old(rx)@,
        call_ensures(ws_parse_one, (buf,), r),
        call_ensures(take_echoes, (rx, payload), n),
        call_ensures(take_echoes, (tail, payload), m),
        r is Some ==> r == Some(f) && old(tail)@ == old(rx)@.skip(f.2 as int),
    ensures
        r is None ==> n == 0 && final(rx)@ == old(rx)@,
        r is Some ==> final(rx)@ == final(tail)@ && n == m + if f.0 == 2 && f.1@ == payload@ {
            1int
        } else {
            0
        },
{
    if r is Some {
        assert(2 <= f.2 <= buf@.len());
        let left = old(rx)@.skip(f.2 as int);
        assert(left == old(tail)@);
    }
}

/// A message of gRPC goes out behind five bytes: a zero and its length, the
/// largest part first.
pub proof fn law_grpc_frame(payload: &[u8], v: Vec<u8>)
    requires
        payload@.len() < 0x1_0000_0000,
        call_ensures(frame_grpc, (payload,), v),
    ensures
        v@.len() == payload@.len() + 5,
        v@[0] == 0,
        v@[1] * 0x100_0000 + v@[2] * 0x1_0000 + v@[3] * 0x100 + v@[4] == payload@.len(),
        v@.skip(5) == payload@,
{
    law_grpc_frame_measures_itself(payload@);
}

/// Two byte strings are the same exactly when they have the same bytes.
pub proof fn law_same_bytes(a: &[u8], b: &[u8], r: bool)
    requires
        call_ensures(same_bytes, (a, b), r),
    ensures
        r <==> a@.len() == b@.len() && forall|i: int| 0 <= i < a@.len() ==> #[trigger] a@[i] == b@[i],
{
    if a@.len() == b@.len() && (forall|i: int| 0 <= i < a@.len() ==> #[trigger] a@[i] == b@[i]) {
        assert(a@ =~= b@);
    }
}

} // verus!
