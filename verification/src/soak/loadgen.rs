//! Load drivers: tallies, seeds, and when a driver goes on.

use vstd::prelude::*;

verus! {

/// Success and error tally of a load driver.
#[derive(Debug)]
pub struct LoadStats {
    ok: u64,
    err: u64,
}

/// What follows a 64-bit counter: it wraps at the end of its range.
pub open spec fn next_count(n: u64) -> u64 {
    if n == u64::MAX {
        0
    } else {
        (n + 1) as u64
    }
}

impl LoadStats {
    /// Successful and failed units.
    pub closed spec fn tally(&self) -> (u64, u64) {
        (self.ok, self.err)
    }

    /// A fresh tally.
    pub fn new() -> (r: Self)
        ensures
            r.tally() == (0u64, 0u64),
    {
        LoadStats { ok: 0, err: 0 }
    }

    /// Records a successful unit of work.
    pub fn ok(&mut self)
        ensures
            final(self).tally() == (next_count(old(self).tally().0), old(self).tally().1),
    {
        self.ok = self.ok.wrapping_add(1);
    }

    /// Records `n` successful units of work.
    pub fn ok_many(&mut self, n: u64)
        ensures
            final(self).tally() == (old(self).tally().0.wrapping_add(n), old(self).tally().1),
    {
        self.ok = self.ok.wrapping_add(n);
    }

    /// Records a failed unit of work.
    pub fn err(&mut self)
        ensures
            final(self).tally() == (old(self).tally().0, next_count(old(self).tally().1)),
    {
        self.err = self.err.wrapping_add(1);
    }

    /// Successful units so far.
    pub fn ok_count(&self) -> (n: u64)
        ensures
            n == self.tally().0,
    {
        self.ok
    }

    /// Failed units so far.
    pub fn err_count(&self) -> (n: u64)
        ensures
            n == self.tally().1,
    {
        self.err
    }
}

impl Default for LoadStats {
    fn default() -> (r: Self)
        ensures
            r.tally() == (0u64, 0u64),
    {
        Self::new()
    }
}

/// A kind of driver, by how its workers are seeded.
#[derive(Debug, Clone, Copy, PartialEq, Eq, Structural)]
pub enum Driver {
    /// Long-lived WebSockets over TCP.
    WsLoad,
    /// WebSockets over TCP that are opened and closed.
    WsChurn,
    /// Long-lived tunnels and calls over HTTP/3.
    H3Load,
    /// Tunnels and calls over HTTP/3 that are opened and closed.
    H3Churn,
}

impl Driver {
    /// The seed that a worker starts from.
    pub open spec fn start(self, worker: u64) -> u64 {
        match self {
            Driver::WsLoad => worker.wrapping_mul(7),
            Driver::WsChurn => worker.wrapping_mul(13).wrapping_add(1),
            Driver::H3Load => worker.wrapping_mul(17).wrapping_add(3),
            Driver::H3Churn => worker.wrapping_mul(29).wrapping_add(7),
        }
    }

    /// How far apart the seeds of consecutive sessions are.
    pub open spec fn stride(self) -> u64 {
        match self {
            Driver::WsLoad | Driver::H3Load => 101,
            Driver::WsChurn | Driver::H3Churn => 53,
        }
    }

    /// The seed that a worker starts from.
    pub fn first_seed(self, worker: u64) -> (seed: u64)
        ensures
            seed == self.start(worker),
    {
        match self {
            Driver::WsLoad => worker.wrapping_mul(7),
            Driver::WsChurn => worker.wrapping_mul(13).wrapping_add(1),
            Driver::H3Load => worker.wrapping_mul(17).wrapping_add(3),
            Driver::H3Churn => worker.wrapping_mul(29).wrapping_add(7),
        }
    }

    /// The seed of the next session.
    pub fn next_seed(self, seed: u64) -> (next: u64)
        ensures
            next == seed.wrapping_add(self.stride()),
    {
        match self {
            Driver::WsLoad => seed.wrapping_add(101),
            Driver::H3Load => seed.wrapping_add(101),
            Driver::WsChurn => seed.wrapping_add(53),
            Driver::H3Churn => seed.wrapping_add(53),
        }
    }
}

/// Whether a session goes on: a long-lived one until it is cancelled, another
/// until it has done its share.
pub open spec fn session_goes_on(until_cancel: bool, cancelled: bool, done: u64, share: u64) -> bool {
    if until_cancel {
        !cancelled
    } else {
        done < share
    }
}

/// Whether a session goes on.
pub fn goes_on(until_cancel: bool, cancelled: bool, done: u64, share: u64) -> (r: bool)
    ensures
        r == session_goes_on(until_cancel, cancelled, done, share),
{
    (until_cancel && !cancelled) || (!until_cancel && done < share)
}

/// Whether the request at position `i` of a burst is a fetch or an upload.
pub fn burst_method(i: usize) -> (r: &'static str)
    ensures
        r@ == if i % 2 == 0 {
            "GET"@
        } else {
            "POST"@
        },
{
    if i % 2 == 0 {
        "GET"
    } else {
        "POST"
    }
}

/// Records a burst or a cycle: each unit that was served, or one failure.
pub fn record_cycle(stats: &mut LoadStats, served: Option<u64>)
    ensures
        final(stats).tally() == match served {
            Some(n) => (old(stats).tally().0.wrapping_add(n), old(stats).tally().1),
            None => (old(stats).tally().0, next_count(old(stats).tally().1)),
        },
{
    match served {
        Some(n) => stats.ok_many(n),
        None => stats.err(),
    }
}

/// Records the end of a session. A failure does not count once the run was
/// cancelled, if the driver says so.
pub fn record_session(stats: &mut LoadStats, failed: bool, cancelled: bool, excuse_cancelled: bool)
    ensures
        final(stats).tally() == if failed && !(cancelled && excuse_cancelled) {
            (old(stats).tally().0, next_count(old(stats).tally().1))
        } else {
            old(stats).tally()
        },
{
    if failed && !(cancelled && excuse_cancelled) {
        stats.err();
    }
}

/// How load is counted: each success and each error once, and several successes
/// at once as so many (counts wrap at their largest value).
pub proof fn law_load_counts(
    a: &mut LoadStats,
    b: &mut LoadStats,
    c: &mut LoadStats,
    n: u64,
    ok: u64,
    err: u64,
    good: u64,
    bad: u64,
    many: u64,
)
    requires
        call_ensures(LoadStats::ok, (a,), ()),
        *old(b) == *final(a),
        call_ensures(LoadStats::err, (b,), ()),
        *old(c) == *final(b),
        call_ensures(LoadStats::ok_many, (c, n), ()),
        call_ensures(LoadStats::ok_count, (old(a),), ok),
        call_ensures(LoadStats::err_count, (old(a),), err),
        call_ensures(LoadStats::ok_count, (final(b),), good),
        call_ensures(LoadStats::err_count, (final(b),), bad),
        call_ensures(LoadStats::ok_count, (final(c),), many),
        ok < u64::MAX,
        err < u64::MAX,
    ensures
        good == ok + 1,
        bad == err + 1,
        good + n <= u64::MAX ==> many == good + n,
{
}

/// How a session and a cycle are recorded: a session that failed is an error,
/// unless it was cancelled where that is excused; a cycle that served is so many
/// successes, and else an error.
pub proof fn law_sessions_are_recorded(
    s: &mut LoadStats,
    failed: bool,
    cancelled: bool,
    excuse: bool,
    t: &mut LoadStats,
    served: Option<u64>,
)
    requires
        call_ensures(record_session, (s, failed, cancelled, excuse), ()),
        call_ensures(record_cycle, (t, served), ()),
        old(s).tally().1 < u64::MAX,
        old(t).tally().1 < u64::MAX,
        served matches Some(n) ==> old(t).tally().0 + n <= u64::MAX,
    ensures
        final(s).tally().0 == old(s).tally().0,
        failed && !cancelled || failed && !excuse ==> final(s).tally().1 == old(s).tally().1 + 1,
        !failed || (cancelled && excuse) ==> final(s).tally().1 == old(s).tally().1,
        served matches Some(n) ==> final(t).tally() == ((old(t).tally().0 + n) as u64, old(t).tally().1),
        served is None ==> final(t).tally() == (old(t).tally().0, (old(t).tally().1 + 1) as u64),
{
}

/// When a session goes on: until it is cancelled, or until its share is done.
pub proof fn law_session_goes_on(until_cancel: bool, cancelled: bool, done: u64, share: u64, r: bool)
    requires
        call_ensures(goes_on, (until_cancel, cancelled, done, share), r),
    ensures
        until_cancel ==> r == !cancelled,
        !until_cancel ==> r == (done < share),
{
}

/// The seeds of the workers of a driver: each starts at its own, and goes on in
/// equal steps (both wrap at the largest value).
pub proof fn law_seeds(driver: Driver, worker: u64, seed: u64, next: u64)
    requires
        worker < 0x100_0000_0000_0000,
        call_ensures(Driver::first_seed, (driver, worker), seed),
        call_ensures(Driver::next_seed, (driver, seed), next),
    ensures
        driver == Driver::WsLoad ==> seed == 7 * worker && next == seed + 101,
        driver == Driver::WsChurn ==> seed == 13 * worker + 1 && next == seed + 53,
        driver == Driver::H3Load ==> seed == 17 * worker + 3 && next == seed + 101,
        driver == Driver::H3Churn ==> seed == 29 * worker + 7 && next == seed + 53,
{
}

} // verus!
