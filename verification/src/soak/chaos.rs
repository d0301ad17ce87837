//! Misbehaving clients: what they send, how long they hold on, and what counts
//! as an attempt.

use vstd::prelude::*;
use crate::text::{decimal, push_decimal};

verus! {

/// Header bytes of an oversized request: more than a front accepts.
pub const OVERSIZE_HEADER: usize = 81_920;

/// Trickled headers after which a slow client starts over.
pub const SLOWLORIS_TICKS: u64 = 30;

/// The body that a slow client announces, in bytes.
pub const SLOW_POST_BODY: u64 = 1_000_000;

/// Streams that are opened and dropped on one connection.
pub const RESETS_PER_CONNECTION: u32 = 500;

/// Streams that are held open on one connection.
pub const HELD_STREAMS: u32 = 300;

/// What a client sends that drops the connection in the middle of a request.
pub const CUT_REQUEST: &'static str = "GET / HT";

/// What a slow client opens with; the request never ends.
pub const SLOWLORIS_OPENING: &'static str = "GET / HTTP/1.1\r\nHost: localhost\r\n";

/// What a client with a slow body opens with.
pub const SLOW_POST_HEAD: &'static str =
    "POST / HTTP/1.1\r\nHost: localhost\r\nContent-Length: 1000000\r\n\r\n";

/// What a client sends that leaves in the middle of the response.
pub const PLAIN_GET: &'static str = "GET / HTTP/1.1\r\nHost: localhost\r\n\r\n";

/// The header line that a slow client trickles at a tick.
pub fn trickle(worker: u64, tick: u64) -> (out: String)
    ensures
        out@ == "X-"@ + decimal(worker as nat) + "-"@ + decimal(tick as nat) + ": y\r\n"@,
{
    let mut out: String = "X-".to_owned();
    push_decimal(&mut out, worker);
    out.append("-");
    push_decimal(&mut out, tick);
    out.append(": y\r\n");
    out
}

/// How long an oversized request is left to be answered, in milliseconds: a
/// cycle that starts with none at all, the tightest race.
pub open spec fn abort_ms(iteration: u64) -> u64 {
    match iteration % 5 {
        0 => 0,
        1 => 1,
        2 => 2,
        3 => 4,
        _ => 8,
    }
}

/// How long an oversized request is left to be answered, in milliseconds.
pub fn abort_after(iteration: u64) -> (ms: u64)
    ensures
        ms == abort_ms(iteration),
{
    let phase: u64 = iteration % 5;
    if phase == 0 {
        0
    } else if phase == 1 {
        1
    } else if phase == 2 {
        2
    } else if phase == 3 {
        4
    } else {
        8
    }
}

/// Whether a slow client goes on: until it is stopped, its write failed, or it
/// has sent all that it meant to.
pub fn goes_on(stopped: bool, failed: bool, sent: u64, limit: u64) -> (r: bool)
    ensures
        r == (!stopped && !failed && sent < limit),
{
    !stopped && !failed && sent < limit
}

/// An oversized request succeeded only if its error response was seen before
/// the connection went away.
pub fn oversize_succeeded(saw_head: Option<bool>) -> (r: bool)
    ensures
        r == (saw_head == Some(true)),
{
    match saw_head {
        Some(seen) => seen,
        None => false,
    }
}

/// How a connection is made to suffer: it is aborted after 0, 1, 2, 4 and 8
/// milliseconds in turn; a slow sender goes on exactly while nothing stopped it,
/// nothing failed and its limit is not reached; an oversized request counts as
/// answered exactly when a head was seen.
pub proof fn law_chaos(
    iteration: u64,
    ms: u64,
    stopped: bool,
    failed: bool,
    sent: u64,
    limit: u64,
    more: bool,
    saw: Option<bool>,
    ok: bool,
)
    requires
        call_ensures(abort_after, (iteration,), ms),
        call_ensures(goes_on, (stopped, failed, sent, limit), more),
        call_ensures(oversize_succeeded, (saw,), ok),
    ensures
        iteration % 5 == 0 ==> ms == 0,
        iteration % 5 == 1 ==> ms == 1,
        iteration % 5 == 2 ==> ms == 2,
        iteration % 5 == 3 ==> ms == 4,
        iteration % 5 == 4 ==> ms == 8,
        stopped || failed || sent >= limit <==> !more,
        ok <==> saw is Some && saw->0,
{
}

} // verus!
