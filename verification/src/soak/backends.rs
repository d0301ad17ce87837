//! Origin servers that the gateway proxies to: the knobs that make one slow,
//! dropping or stopped at run time, and the echo bookkeeping of a QUIC stream.

use vstd::prelude::*;

verus! {

/// The kinds of origin servers.
#[derive(Debug, Clone, Copy, PartialEq, Eq, Structural)]
pub enum Origin {
    /// No origin: the gateway answers by itself.
    Nothing,
    /// One that speaks HTTP/1.1.
    H1,
    /// One that speaks HTTP/2.
    H2,
    /// One that serves gRPC calls over HTTP/2.
    Grpc,
    /// One that echoes WebSocket messages.
    WsEcho,
    /// One that echoes QUIC streams and datagrams.
    QuicEcho,
}

/// The multiplier that spreads consecutive request numbers over the thousand
/// drop slots.
pub const DROP_SPREAD: u64 = 2_654_435_761;

/// What the knobs of an origin stand at.
pub struct ControlState {
    pub slow_ms: u64,
    pub drop_permille: u32,
    pub stopped: bool,
    pub served: u64,
}

/// Runtime knobs of an origin server.
#[derive(Debug)]
pub struct BackendControl {
    slow_ms: u64,
    drop_permille: u32,
    stop: bool,
    served: u64,
}

/// Whether an origin that served `n` requests drops the next connection, at
/// `permille` drops in a thousand.
pub open spec fn drops(n: u64, permille: u32) -> bool {
    permille != 0 && (n * DROP_SPREAD) % 0x1_0000_0000_0000_0000 % 1000 < permille
}

impl BackendControl {
    #[verifier::type_invariant]
    spec fn inv(self) -> bool {
        self.drop_permille <= 1000
    }

    /// What the knobs stand at.
    pub closed spec fn state(&self) -> ControlState {
        ControlState {
            slow_ms: self.slow_ms,
            drop_permille: self.drop_permille,
            stopped: self.stop,
            served: self.served,
        }
    }

    /// An origin that answers at once, drops nothing and runs.
    pub fn new() -> (r: Self)
        ensures
            r.state() == (ControlState { slow_ms: 0, drop_permille: 0, stopped: false, served: 0 }),
    {
        BackendControl { slow_ms: 0, drop_permille: 0, stop: false, served: 0 }
    }

    /// Delays every answer by `ms` milliseconds.
    pub fn set_slow_ms(&mut self, ms: u64)
        ensures
            final(self).state() == (ControlState { slow_ms: ms, ..old(self).state() }),
    {
        proof {
            use_type_invariant(&*self);
        }
        self.slow_ms = ms;
    }

    /// Drops `permille` connections in a thousand; more than all is all.
    pub fn set_drop_permille(&mut self, permille: u32)
        ensures
            final(self).state() == (ControlState {
                drop_permille: if permille < 1000 {
                    permille
                } else {
                    1000
                },
                ..old(self).state()
            }),
    {
        self.drop_permille = if permille < 1000 { permille } else { 1000 };
    }

    /// Stops the origin for good.
    pub fn stop(&mut self)
        ensures
            final(self).state() == (ControlState { stopped: true, ..old(self).state() }),
    {
        proof {
            use_type_invariant(&*self);
        }
        self.stop = true;
    }

    /// How many requests were served.
    pub fn served(&self) -> (n: u64)
        ensures
            n == self.state().served,
    {
        self.served
    }

    /// Counts one served request.
    pub fn record_served(&mut self)
        ensures
            final(self).state() == (ControlState {
                served: if old(self).state().served == u64::MAX {
                    0
                } else {
                    (old(self).state().served + 1) as u64
                },
                ..old(self).state()
            }),
    {
        proof {
            use_type_invariant(&*self);
        }
        self.served = self.served.wrapping_add(1);
    }

    /// Whether the next connection is to be dropped.
    pub fn should_drop(&self) -> (r: bool)
        ensures
            r == drops(self.state().served, self.state().drop_permille),
    {
        let p: u32 = self.drop_permille;
        if p == 0 {
            return false;
        }
        let spread: u64 = self.served.wrapping_mul(DROP_SPREAD);
        spread % 1000 < p as u64
    }

    /// The delay before an answer, in milliseconds.
    pub fn slow(&self) -> (ms: u64)
        ensures
            ms == self.state().slow_ms,
    {
        self.slow_ms
    }

    /// Whether the origin was stopped.
    pub fn stopped(&self) -> (r: bool)
        ensures
            r == self.state().stopped,
    {
        self.stop
    }

    /// The drop rate never exceeds one thousand in a thousand.
    pub fn drop_permille(&self) -> (r: u32)
        ensures
            r == self.state().drop_permille,
            r <= 1000,
    {
        proof {
            use_type_invariant(self);
        }
        self.drop_permille
    }
}

impl Default for BackendControl {
    fn default() -> (r: Self)
        ensures
            r.state() == (ControlState { slow_ms: 0, drop_permille: 0, stopped: false, served: 0 }),
    {
        Self::new()
    }
}

/// At zero per mille nothing is dropped, and at a thousand everything is.
pub proof fn law_drop_extremes(n: u64)
    ensures
        !drops(n, 0),
        drops(n, 1000),
{
}

// ---------------------------------------------------------------------------
// Echo bookkeeping of one QUIC stream
// ---------------------------------------------------------------------------

/// One echoed stream: the bytes still to send back, whether the peer finished,
/// and whether our end of the stream was sent.
#[derive(Debug)]
pub struct EchoState {
    pub pending: Vec<u8>,
    pub peer_fin: bool,
    pub fin_sent: bool,
}

impl EchoState {
    /// A stream on which nothing was received.
    pub fn new() -> (r: Self)
        ensures
            r.pending@ == Seq::<u8>::empty(),
            !r.peer_fin,
            !r.fin_sent,
    {
        EchoState { pending: Vec::new(), peer_fin: false, fin_sent: false }
    }

    /// Takes received bytes and the end-of-stream mark; says whether to stop
    /// reading the stream for now.
    pub fn on_recv(&mut self, data: &[u8], fin: bool) -> (done: bool)
        ensures
            final(self).pending@ == old(self).pending@ + data@,
            final(self).peer_fin == (old(self).peer_fin || fin),
            final(self).fin_sent == old(self).fin_sent,
            done == (fin || data@.len() == 0),
    {
        self.pending.extend_from_slice(data);
        assert(self.pending@ =~= old(self).pending@ + data@);
        if fin {
            self.peer_fin = true;
        }
        fin || data.len() == 0
    }

    /// Drops the bytes that the transport accepted.
    pub fn on_sent(&mut self, accepted: usize)
        ensures
            final(self).pending@ == if accepted <= old(self).pending@.len() {
                old(self).pending@.skip(accepted as int)
            } else {
                Seq::<u8>::empty()
            },
            final(self).peer_fin == old(self).peer_fin,
            final(self).fin_sent == old(self).fin_sent,
    {
        let n: usize = self.pending.len();
        if accepted < n {
            let rest = self.pending.split_off(accepted);
            self.pending = rest;
            assert(self.pending@ =~= old(self).pending@.skip(accepted as int));
        } else {
            self.pending.clear();
            assert(accepted == n ==> old(self).pending@.skip(accepted as int) =~= Seq::<u8>::empty());
        }
    }

    /// Whether the end of the stream is due: the peer finished, everything was
    /// echoed and the end was not sent yet.
    pub fn fin_due(&self) -> (r: bool)
        ensures
            r == (self.peer_fin && self.pending@.len() == 0 && !self.fin_sent),
    {
        self.peer_fin && self.pending.len() == 0 && !self.fin_sent
    }

    /// Records that the end of the stream was sent.
    pub fn on_fin_sent(&mut self)
        ensures
            final(self).fin_sent,
            final(self).pending@ == old(self).pending@,
            final(self).peer_fin == old(self).peer_fin,
    {
        self.fin_sent = true;
    }
}

/// Whether a partial write ends a flush of the pending bytes: nothing was
/// accepted, or less than was offered.
pub fn write_stalled(accepted: usize, offered: usize) -> (r: bool)
    ensures
        r == (accepted == 0 || accepted < offered),
{
    accepted == 0 || accepted < offered
}

/// Which connections are dropped: none at a rate of zero and all at a thousand,
/// where every higher rate counts as a thousand; in between those whose count,
/// spread by a fixed odd number, falls below the rate. So what is dropped at one
/// rate is dropped at every higher one.
pub proof fn law_drops_grow_with_the_rate(
    a: BackendControl,
    b: BackendControl,
    low: bool,
    high: bool,
)
    requires
        call_ensures(BackendControl::should_drop, (&a,), low),
        call_ensures(BackendControl::should_drop, (&b,), high),
        a.state().served == b.state().served,
        a.state().drop_permille <= b.state().drop_permille,
    ensures
        low ==> high,
        a.state().drop_permille == 0 ==> !low,
        a.state().drop_permille >= 1000 ==> low,
        low <==> (a.state().served * 2_654_435_761) % 0x1_0000_0000_0000_0000 % 1000
            < a.state().drop_permille,
{
    let spread = (a.state().served * 2_654_435_761) % 0x1_0000_0000_0000_0000 % 1000;
    assert(0 <= spread < 1000);
}

/// Each knob sets its own value and leaves the others; a rate is capped at a
/// thousand, and serving one request counts it.
pub proof fn law_knobs(
    slow: &mut BackendControl,
    ms: u64,
    rate: &mut BackendControl,
    permille: u32,
    stop: &mut BackendControl,
    serve: &mut BackendControl,
)
    requires
        call_ensures(BackendControl::set_slow_ms, (slow, ms), ()),
        call_ensures(BackendControl::set_drop_permille, (rate, permille), ()),
        call_ensures(BackendControl::stop, (stop,), ()),
        call_ensures(BackendControl::record_served, (serve,), ()),
    ensures
        final(slow).state().slow_ms == ms,
        final(slow).state().drop_permille == old(slow).state().drop_permille,
        final(slow).state().stopped == old(slow).state().stopped,
        final(slow).state().served == old(slow).state().served,
        permille <= 1000 ==> final(rate).state().drop_permille == permille,
        permille > 1000 ==> final(rate).state().drop_permille == 1000,
        final(rate).state().slow_ms == old(rate).state().slow_ms,
        final(rate).state().stopped == old(rate).state().stopped,
        final(rate).state().served == old(rate).state().served,
        final(stop).state().stopped,
        final(stop).state().slow_ms == old(stop).state().slow_ms,
        final(stop).state().drop_permille == old(stop).state().drop_permille,
        final(stop).state().served == old(stop).state().served,
        old(serve).state().served < u64::MAX ==> final(serve).state().served
            == old(serve).state().served + 1,
        final(serve).state().slow_ms == old(serve).state().slow_ms,
        final(serve).state().drop_permille == old(serve).state().drop_permille,
        final(serve).state().stopped == old(serve).state().stopped,
{
}

/// What a stream still has to echo: what was received is taken up at the end and
/// what was sent leaves at the front, so bytes go back in the order they came.
/// The end is echoed once, when everything before it was.
pub proof fn law_bytes_go_back_in_order(
    s: &mut EchoState,
    data: &[u8],
    fin: bool,
    done: bool,
    t: &mut EchoState,
    accepted: usize,
    due: bool,
)
    requires
        call_ensures(EchoState::on_recv, (s, data, fin), done),
        call_ensures(EchoState::on_sent, (t, accepted), ()),
        call_ensures(EchoState::fin_due, (final(t),), due),
        *old(t) == *final(s),
    ensures
        accepted <= old(s).pending@.len() + data@.len() ==> (old(s).pending@ + data@).take(
            accepted as int,
        ) + final(t).pending@ == old(s).pending@ + data@,
        accepted > old(s).pending@.len() + data@.len() ==> final(t).pending@.len() == 0,
        done <==> fin || data@.len() == 0,
        due <==> (old(s).peer_fin || fin) && !old(s).fin_sent && accepted >= old(s).pending@.len()
            + data@.len(),
{
    let all = old(s).pending@ + data@;
    if accepted <= all.len() {
        assert(all.take(accepted as int) + all.skip(accepted as int) =~= all);
    }
}

} // verus!
