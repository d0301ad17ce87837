//! What the backends of a listener come to: addresses, protocols, server
//! names, trust roots and connection limits.

use vstd::prelude::*;
use crate::gateway::config::{BackendConfig, GrpcListenerConfig, H2SecurityConfig, HttpTimeoutsConfig, ListenerConfig, WebsocketConfig, copy_text};
use crate::text::{chars_of, decimal, find, parse_unsigned, position, push_decimal, same, split_once, string_of, unsigned_value};

verus! {

/// The text of a value as `{:?}` renders it, in quotes and with escapes.
pub uninterp spec fn quoted_text(text: Seq<char>) -> Seq<char>;

/// The `Debug` rendering of a `str` through `format!`; it depends on the text
/// alone. Which characters it escapes is left unsaid.
#[verifier::external_body]
pub(crate) fn quoted(text: &str) -> (r: String)
    ensures
        r@ == quoted_text(text@),
{
    format!("{text:?}")
}

// ---------------------------------------------------------------------------
// Host and port
// ---------------------------------------------------------------------------

/// Why a backend address has no host and port.
#[derive(Debug)]
pub enum HostPortError {
    /// An IPv6 literal is not followed by a colon.
    MissingPortAfterLiteral,
    /// What stands for the port is no port number.
    InvalidPort(String),
    /// An IPv6 literal has no closing bracket.
    UnterminatedLiteral,
    /// There is no colon at all.
    MissingPort(String),
}

impl HostPortError {
    /// The message of the error.
    pub fn message(&self) -> (out: String)
        ensures
            out@ == match *self {
                HostPortError::MissingPortAfterLiteral => "missing port after IPv6 literal"@,
                HostPortError::InvalidPort(p) => "invalid port: "@ + p@,
                HostPortError::UnterminatedLiteral => "unterminated IPv6 literal"@,
                HostPortError::MissingPort(s) => "missing port in "@ + s@,
            },
    {
        match self {
            HostPortError::MissingPortAfterLiteral => "missing port after IPv6 literal".to_owned(),
            HostPortError::InvalidPort(p) => {
                let mut out: String = "invalid port: ".to_owned();
                out.append(p);
                out
            },
            HostPortError::UnterminatedLiteral => "unterminated IPv6 literal".to_owned(),
            HostPortError::MissingPort(s) => {
                let mut out: String = "missing port in ".to_owned();
                out.append(s);
                out
            },
        }
    }
}

/// The last position of `c` in `s`, or the length of `s`.
pub open spec fn find_last(s: Seq<char>, c: char) -> nat
    decreases s.len(),
{
    if s.len() == 0 {
        0
    } else if s.last() == c {
        (s.len() - 1) as nat
    } else {
        let k = find_last(s.drop_last(), c);
        if k == s.len() - 1 {
            s.len()
        } else {
            k
        }
    }
}

/// Whether `r` is the host with the port that `port` stands for.
pub open spec fn with_port(
    host: Seq<char>,
    port: Seq<char>,
    r: Result<(String, u16), HostPortError>,
) -> bool {
    match unsigned_value(port, u16::MAX as nat) {
        Some(p) => r matches Ok(hp) && hp.0@ == host && hp.1 == p,
        None => r matches Err(HostPortError::InvalidPort(t)) && t@ == port,
    }
}

/// Whether `r` is what an address `host:port` or `[v6]:port` splits into.
pub open spec fn splits_into(s: Seq<char>, r: Result<(String, u16), HostPortError>) -> bool {
    if s.len() > 0 && s[0] == '[' {
        match split_once(s.skip(1), ']') {
            None => r matches Err(e) && e is UnterminatedLiteral,
            Some((host, tail)) => if tail.len() > 0 && tail[0] == ':' {
                with_port(host, tail.skip(1), r)
            } else {
                r matches Err(e) && e is MissingPortAfterLiteral
            },
        }
    } else {
        let k = find_last(s, ':') as int;
        if k < s.len() {
            with_port(s.take(k), s.skip(k + 1), r)
        } else {
            r matches Err(HostPortError::MissingPort(t)) && t@ == s
        }
    }
}

/// The last position of `c`, or the number of characters.
pub(crate) fn last_position(chars: &Vec<char>, c: char) -> (k: usize)
    ensures
        k == find_last(chars@, c),
        k <= chars@.len(),
{
    let n: usize = chars.len();
    let mut i: usize = n;
    assert(chars@.take(n as int) =~= chars@);
    while i > 0
        invariant
            i <= n == chars@.len(),
            find_last(chars@, c) == if find_last(chars@.take(i as int), c) == i {
                n as nat
            } else {
                find_last(chars@.take(i as int), c)
            },
        decreases i,
    {
        assert(chars@.take(i as int).drop_last() =~= chars@.take(i - 1));
        proof {
            lemma_find_last(chars@.take(i - 1), c);
        }
        if chars[i - 1] == c {
            return i - 1;
        }
        i -= 1;
    }
    n
}

/// `find_last` stays within the text.
pub proof fn lemma_find_last(s: Seq<char>, c: char)
    ensures
        find_last(s, c) <= s.len(),
        find_last(s, c) < s.len() ==> s[find_last(s, c) as int] == c,
    decreases s.len(),
{
    if s.len() > 0 {
        lemma_find_last(s.drop_last(), c);
    }
}

fn join_port(host: String, port: String) -> (r: Result<(String, u16), HostPortError>)
    ensures
        with_port(host@, port@, r),
{
    match parse_unsigned(&port, u16::MAX as u64) {
        Some(p) => Ok((host, p as u16)),
        None => Err(HostPortError::InvalidPort(port)),
    }
}

/// Splits a backend address into host and port.
pub fn split_host_port(s: &str) -> (r: Result<(String, u16), HostPortError>)
    ensures
        splits_into(s@, r),
{
    let chars = chars_of(s);
    let n: usize = chars.len();
    if n > 0 && chars[0] == '[' {
        let k = position(&chars, 1, n, ']');
        let ghost rest = s@.skip(1);
        assert(chars@.subrange(1, n as int) =~= rest);
        if k == n {
            return Err(HostPortError::UnterminatedLiteral);
        }
        let host = string_of(&chars, 1, k);
        assert(host@ =~= rest.take(k - 1));
        let ghost tail = rest.skip(k as int);
        assert(tail =~= chars@.subrange(k + 1, n as int));
        if k + 1 == n || chars[k + 1] != ':' {
            return Err(HostPortError::MissingPortAfterLiteral);
        }
        let port = string_of(&chars, k + 2, n);
        assert(port@ =~= tail.skip(1));
        return join_port(host, port);
    }
    let k = last_position(&chars, ':');
    if k == n {
        return Err(HostPortError::MissingPort(s.to_owned()));
    }
    let host = string_of(&chars, 0, k);
    let port = string_of(&chars, k + 1, n);
    assert(host@ =~= s@.take(k as int));
    assert(port@ =~= s@.skip(k + 1));
    join_port(host, port)
}

/// An address that joins a host and a port splits back into them: plainly when
/// the host does not start with a bracket, in brackets when it has none that
/// closes.
pub proof fn law_host_port_round_trip(host: Seq<char>, port: u16, r: Result<(String, u16), HostPortError>)
    ensures
        splits_into(host + seq![':'] + decimal(port as nat), r) && !(host.len() > 0 && host[0] == '[')
            ==> (r matches Ok(hp) && hp.0@ == host && hp.1 == port),
        splits_into(seq!['['] + host + seq![']', ':'] + decimal(port as nat), r) && !host.contains(']')
            ==> (r matches Ok(hp) && hp.0@ == host && hp.1 == port),
{
    let digits = decimal(port as nat);
    crate::text::lemma_decimal_parses(port as nat, u16::MAX as nat);
    crate::text::lemma_digits(port as nat, 10);
    let plain = host + seq![':'] + digits;
    if !(host.len() > 0 && host[0] == '[') {
        assert(plain[0] != '[') by {
            if host.len() > 0 {
                assert(plain[0] == host[0]);
            } else {
                assert(plain[0] == ':');
            }
        }
        lemma_last_separator(host, ':', digits);
        assert(plain.take(host.len() as int) =~= host);
        assert(plain.skip(host.len() as int + 1) =~= digits);
    }
    if !host.contains(']') {
        let boxed = seq!['['] + host + seq![']', ':'] + digits;
        let rest = boxed.skip(1);
        assert(rest =~= host + seq![']'] + (seq![':'] + digits));
        lemma_first_separator(host, ']', seq![':'] + digits);
        assert(rest.take(host.len() as int) =~= host);
        let tail = rest.skip(host.len() as int + 1);
        assert(tail =~= seq![':'] + digits);
        assert(tail.skip(1) =~= digits);
        assert(boxed[0] == '[');
    }
}

/// The last separator of a text is the one behind which there is none.
pub proof fn lemma_last_separator(a: Seq<char>, c: char, b: Seq<char>)
    requires
        !b.contains(c),
    ensures
        find_last(a + seq![c] + b, c) == a.len(),
    decreases b.len(),
{
    let s = a + seq![c] + b;
    if b.len() == 0 {
        assert(s.last() == c);
    } else {
        assert(s.last() == b.last());
        assert(b.contains(b.last())) by {
            assert(b[b.len() - 1] == b.last());
        }
        assert(s.drop_last() =~= a + seq![c] + b.drop_last());
        assert(!b.drop_last().contains(c)) by {
            if b.drop_last().contains(c) {
                let i = choose|i: int| 0 <= i < b.drop_last().len() && b.drop_last()[i] == c;
                assert(b[i] == c);
            }
        }
        lemma_last_separator(a, c, b.drop_last());
    }
}

proof fn lemma_first_separator(a: Seq<char>, c: char, b: Seq<char>)
    requires
        !a.contains(c),
    ensures
        find(a + seq![c] + b, c) == a.len(),
    decreases a.len(),
{
    let s = a + seq![c] + b;
    if a.len() == 0 {
        assert(s[0] == c);
    } else {
        assert(s[0] == a[0]);
        assert(a.contains(a[0]));
        assert(s.skip(1) =~= a.skip(1) + seq![c] + b);
        assert(!a.skip(1).contains(c)) by {
            if a.skip(1).contains(c) {
                let i = choose|i: int| 0 <= i < a.skip(1).len() && a.skip(1)[i] == c;
                assert(a[i + 1] == c);
            }
        }
        lemma_first_separator(a.skip(1), c, b);
    }
}

// ---------------------------------------------------------------------------
// Protocols
// ---------------------------------------------------------------------------

/// The protocol that a backend speaks.
#[derive(Debug, Clone, Copy, PartialEq, Eq, Structural)]
pub enum UpstreamProto {
    H1,
    H2,
    H3,
}

/// The protocol that a configured name stands for.
pub open spec fn proto_named(s: Seq<char>) -> Option<UpstreamProto> {
    if s == "tcp"@ || s == "h1"@ {
        Some(UpstreamProto::H1)
    } else if s == "h2"@ {
        Some(UpstreamProto::H2)
    } else if s == "h3"@ {
        Some(UpstreamProto::H3)
    } else {
        None
    }
}

/// The protocol that a configured name stands for.
pub fn parse_upstream_proto(s: &str) -> (r: Option<UpstreamProto>)
    ensures
        r == proto_named(s@),
{
    if same(s, "tcp") || same(s, "h1") {
        Some(UpstreamProto::H1)
    } else if same(s, "h2") {
        Some(UpstreamProto::H2)
    } else if same(s, "h3") {
        Some(UpstreamProto::H3)
    } else {
        None
    }
}

/// The message for a name that stands for no protocol.
pub fn unknown_protocol(s: &str) -> (out: String)
    ensures
        out@ == "unknown backend protocol "@ + quoted_text(s@)
            + " (expected one of: tcp, h1, h2, h3)"@,
{
    let mut out: String = "unknown backend protocol ".to_owned();
    let q = quoted(s);
    out.append(&q);
    out.append(" (expected one of: tcp, h1, h2, h3)");
    out
}

// ---------------------------------------------------------------------------
// Backends
// ---------------------------------------------------------------------------

/// A backend with its resolved address.
#[derive(Debug)]
pub struct UpstreamBackend {
    pub addr: String,
    pub proto: UpstreamProto,
    pub sni: Option<String>,
}

/// Why the backends of a listener cannot be used.
#[derive(Debug)]
pub enum UpstreamError {
    /// The listener has none.
    NoBackends,
    /// They were not resolved one for one.
    CountMismatch { addresses: usize, backends: usize },
    /// The protocol of the backend at this position is unknown.
    BadProtocol { index: usize },
}

/// The host part of an address that splits, if it does.
pub open spec fn host_part(address: Seq<char>) -> Option<Seq<char>> {
    let parted = if address.len() > 0 && address[0] == '[' {
        match split_once(address.skip(1), ']') {
            Some((host, tail)) => if tail.len() > 0 && tail[0] == ':' {
                Some((host, tail.skip(1)))
            } else {
                None
            },
            None => None,
        }
    } else {
        let k = find_last(address, ':') as int;
        if k < address.len() {
            Some((address.take(k), address.skip(k + 1)))
        } else {
            None
        }
    };
    match parted {
        Some((host, port)) => if unsigned_value(port, u16::MAX as nat) is Some {
            Some(host)
        } else {
            None
        },
        None => None,
    }
}

/// The server name that a backend is dialled with: only HTTP/3 needs one, and
/// an explicit name wins over the host part of the address.
pub open spec fn server_name(b: BackendConfig, proto: UpstreamProto) -> Option<Seq<char>> {
    if proto == UpstreamProto::H3 {
        match b.tls_verify_hostname {
            Some(name) => Some(name@),
            None => host_part(b.address@),
        }
    } else {
        None
    }
}

proof fn lemma_host_part(address: Seq<char>, r: Result<(String, u16), HostPortError>)
    requires
        splits_into(address, r),
    ensures
        host_part(address) == match r {
            Ok(hp) => Some(hp.0@),
            Err(_) => None,
        },
{
}

/// The host part of an address that joins a host and a port is that host; an
/// address without a colon has none.
pub proof fn lemma_host_of_address(address: Seq<char>, host: Seq<char>, port: u16)
    ensures
        address == host + seq![':'] + decimal(port as nat) && !(host.len() > 0 && host[0] == '[')
            ==> host_part(address) == Some(host),
        address == seq!['['] + host + seq![']', ':'] + decimal(port as nat) && !host.contains(']')
            ==> host_part(address) == Some(host),
        !address.contains(':') ==> host_part(address) is None,
{
    let digits = decimal(port as nat);
    crate::text::lemma_decimal_parses(port as nat, u16::MAX as nat);
    crate::text::lemma_digits(port as nat, 10);
    if address == host + seq![':'] + digits && !(host.len() > 0 && host[0] == '[') {
        assert(address[0] == if host.len() > 0 {
            host[0]
        } else {
            ':'
        });
        lemma_last_separator(host, ':', digits);
        assert(address.take(host.len() as int) =~= host);
        assert(address.skip(host.len() as int + 1) =~= digits);
    }
    if address == seq!['['] + host + seq![']', ':'] + digits && !host.contains(']') {
        let rest = address.skip(1);
        assert(rest =~= host + seq![']'] + (seq![':'] + digits));
        lemma_first_separator(host, ']', seq![':'] + digits);
        assert(rest.take(host.len() as int) =~= host);
        let tail = rest.skip(host.len() as int + 1);
        assert(tail =~= seq![':'] + digits);
        assert(tail.skip(1) =~= digits);
        assert(address[0] == '[');
    }
    if !address.contains(':') {
        lemma_find_last(address, ':');
        let k = find_last(address, ':') as int;
        if k < address.len() {
            assert(address.contains(address[k]));
        }
        if address.len() > 0 && address[0] == '[' {
            let rest = address.skip(1);
            let j = find(rest, ']') as int;
            crate::text::lemma_find(rest, ']');
            if j < rest.len() {
                let tail = rest.skip(j + 1);
                if tail.len() > 0 && tail[0] == ':' {
                    assert(address[j + 2] == ':');
                    assert(address.contains(address[j + 2]));
                }
            }
        }
    }
}

/// The host part of an address that splits, if it does.
pub fn host_of(address: &str) -> (r: Option<String>)
    ensures
        match r {
            Some(h) => host_part(address@) == Some(h@),
            None => host_part(address@) is None,
        },
{
    let split = split_host_port(address);
    proof {
        lemma_host_part(address@, split);
    }
    match split {
        Ok(hp) => Some(hp.0),
        Err(_) => None,
    }
}

fn server_name_of(b: &BackendConfig, proto: UpstreamProto) -> (r: Option<String>)
    ensures
        match r {
            Some(name) => server_name(*b, proto) == Some(name@),
            None => server_name(*b, proto) is None,
        },
{
    match proto {
        UpstreamProto::H3 => match &b.tls_verify_hostname {
            Some(name) => Some(name.clone()),
            None => host_of(&b.address),
        },
        UpstreamProto::H1 => None,
        UpstreamProto::H2 => None,
    }
}

/// Whether `u` is the backend `b` at the address `addr`.
pub open spec fn is_upstream(u: UpstreamBackend, b: BackendConfig, addr: Seq<char>) -> bool {
    &&& u.addr@ == addr
    &&& proto_named(b.protocol@) == Some(u.proto)
    &&& match u.sni {
        Some(name) => server_name(b, u.proto) == Some(name@),
        None => server_name(b, u.proto) is None,
    }
}

/// Whether `r` is what the backends of a listener and their resolved addresses
/// come to: all of them in order, or the first obstacle.
pub open spec fn upstream_outcome(
    backends: Seq<BackendConfig>,
    addresses: Seq<String>,
    r: Result<Vec<UpstreamBackend>, UpstreamError>,
) -> bool {
    match r {
        Ok(out) => {
            &&& backends.len() > 0
            &&& addresses.len() == backends.len()
            &&& out@.len() == backends.len()
            &&& forall|i: int|
                0 <= i < out@.len() ==> is_upstream(
                    #[trigger] out@[i],
                    backends[i],
                    addresses[i]@,
                )
        },
        Err(UpstreamError::NoBackends) => backends.len() == 0,
        Err(UpstreamError::CountMismatch { addresses: a, backends: b }) => {
            &&& backends.len() > 0
            &&& addresses.len() != backends.len()
            &&& a == addresses.len()
            &&& b == backends.len()
        },
        Err(UpstreamError::BadProtocol { index }) => {
            &&& addresses.len() == backends.len()
            &&& index < backends.len()
            &&& proto_named(backends[index as int].protocol@) is None
            &&& forall|j: int|
                0 <= j < index ==> proto_named((#[trigger] backends[j]).protocol@) is Some
        },
    }
}

/// The backends of a listener with their resolved addresses, in order.
pub fn build_upstream_backends(backends: &Vec<BackendConfig>, addresses: &Vec<String>) -> (r: Result<
    Vec<UpstreamBackend>,
    UpstreamError,
>)
    ensures
        upstream_outcome(backends@, addresses@, r),
{
    if backends.len() == 0 {
        return Err(UpstreamError::NoBackends);
    }
    if addresses.len() != backends.len() {
        return Err(
            UpstreamError::CountMismatch { addresses: addresses.len(), backends: backends.len() },
        );
    }
    let mut out: Vec<UpstreamBackend> = Vec::new();
    let mut i: usize = 0;
    while i < backends.len()
        invariant
            i <= backends@.len(),
            addresses@.len() == backends@.len(),
            out@.len() == i,
            forall|j: int|
                0 <= j < i ==> is_upstream(#[trigger] out@[j], backends@[j], addresses@[j]@),
            forall|j: int| 0 <= j < i ==> proto_named((#[trigger] backends@[j]).protocol@) is Some,
        decreases backends@.len() - i,
    {
        match parse_upstream_proto(&backends[i].protocol) {
            None => {
                return Err(UpstreamError::BadProtocol { index: i });
            },
            Some(proto) => {
                let sni = server_name_of(&backends[i], proto);
                out.push(UpstreamBackend { addr: addresses[i].clone(), proto, sni });
            },
        }
        i += 1;
    }
    Ok(out)
}

impl UpstreamError {
    /// The message of the error, for a listener and its backends.
    pub fn message(&self, listener: &ListenerConfig) -> (out: String)
        requires
            *self matches UpstreamError::BadProtocol { index } ==> index < listener.backends@.len(),
        ensures
            out@ == match *self {
                UpstreamError::NoBackends => "listener "@ + listener.address@
                    + " has no backends configured"@,
                UpstreamError::CountMismatch { addresses, backends } => "listener "@
                    + listener.address@ + ": resolved "@ + decimal(addresses as nat)
                    + " addresses for "@ + decimal(backends as nat) + " backends"@,
                UpstreamError::BadProtocol { index } => "listener "@ + listener.address@
                    + " backend "@ + decimal(index as nat) + " (address "@
                    + listener.backends@[index as int].address@ + ")"@,
            },
    {
        let mut out: String = "listener ".to_owned();
        out.append(&listener.address);
        match self {
            UpstreamError::NoBackends => {
                out.append(" has no backends configured");
            },
            UpstreamError::CountMismatch { addresses, backends } => {
                out.append(": resolved ");
                push_decimal(&mut out, *addresses as u64);
                out.append(" addresses for ");
                push_decimal(&mut out, *backends as u64);
                out.append(" backends");
            },
            UpstreamError::BadProtocol { index } => {
                out.append(" backend ");
                push_decimal(&mut out, *index as u64);
                out.append(" (address ");
                out.append(&listener.backends[*index].address);
                out.append(")");
            },
        }
        out
    }
}

/// Whether any backend speaks a protocol.
pub open spec fn speaks(upstreams: Seq<UpstreamBackend>, proto: UpstreamProto) -> bool {
    exists|i: int| 0 <= i < upstreams.len() && (#[trigger] upstreams[i]).proto == proto
}

/// Whether any backend speaks a protocol.
pub fn any_speaks(upstreams: &Vec<UpstreamBackend>, proto: UpstreamProto) -> (r: bool)
    ensures
        r == speaks(upstreams@, proto),
{
    let mut i: usize = 0;
    while i < upstreams.len()
        invariant
            i <= upstreams@.len(),
            forall|j: int| 0 <= j < i ==> (#[trigger] upstreams@[j]).proto != proto,
        decreases upstreams@.len() - i,
    {
        if upstreams[i].proto == proto {
            return true;
        }
        i += 1;
    }
    false
}

/// The backends whose protocol is HTTP/3, in order.
pub open spec fn h3_backends(backends: Seq<BackendConfig>) -> Seq<BackendConfig> {
    backends.filter(|b: BackendConfig| b.protocol@ == "h3"@)
}

/// The backends whose protocol is HTTP/3.
pub fn collect_h3_backends(backends: &Vec<BackendConfig>) -> (out: Vec<BackendConfig>)
    ensures
        out@ == h3_backends(backends@),
{
    let mut out: Vec<BackendConfig> = Vec::new();
    let mut i: usize = 0;
    proof {
        reveal(Seq::filter);
    }
    while i < backends.len()
        invariant
            i <= backends@.len(),
            out@ == h3_backends(backends@.take(i as int)),
        decreases backends@.len() - i,
    {
        reveal(Seq::filter);
        assert(backends@.take(i + 1).drop_last() =~= backends@.take(i as int));
        if same(&backends[i].protocol, "h3") {
            out.push(backends[i].clone());
        }
        i += 1;
    }
    assert(backends@.take(backends@.len() as int) =~= backends@);
    out
}

/// The name and the weight of each backend of a raw listener.
pub fn tcp_backends(backends: &Vec<BackendConfig>) -> (out: Vec<(String, u32)>)
    ensures
        out@.len() == backends@.len(),
        forall|i: int|
            0 <= i < out@.len() ==> {
                &&& (#[trigger] out@[i]).0@ == "backend-"@ + decimal(i as nat)
                &&& out@[i].1 == backends@[i].weight
            },
{
    let mut out: Vec<(String, u32)> = Vec::new();
    let mut i: usize = 0;
    while i < backends.len()
        invariant
            i <= backends@.len(),
            out@.len() == i,
            forall|j: int|
                0 <= j < i ==> {
                    &&& (#[trigger] out@[j]).0@ == "backend-"@ + decimal(j as nat)
                    &&& out@[j].1 == backends@[j].weight
                },
        decreases backends@.len() - i,
    {
        let mut name: String = "backend-".to_owned();
        push_decimal(&mut name, i as u64);
        out.push((name, backends[i].weight));
        i += 1;
    }
    out
}

/// What became of the lookup of a backend address.
#[derive(Debug)]
pub enum Lookup {
    /// The address could not be split.
    Unsplit,
    /// The resolver failed.
    Failed,
    /// The resolver answered with these addresses.
    Answer(Vec<String>),
}

/// Why a backend has no address.
#[derive(Debug, Clone, Copy, PartialEq, Eq, Structural)]
pub enum LookupError {
    Invalid,
    Unresolved,
    Empty,
}

impl LookupError {
    /// The message of the error for a backend address.
    pub fn message(&self, address: &str) -> (out: String)
        ensures
            out@ == match *self {
                LookupError::Invalid => "invalid backend address: "@,
                LookupError::Unresolved => "cannot resolve backend: "@,
                LookupError::Empty => "resolver returned no addresses for "@,
            } + address@,
    {
        let mut out: String = match self {
            LookupError::Invalid => "invalid backend address: ".to_owned(),
            LookupError::Unresolved => "cannot resolve backend: ".to_owned(),
            LookupError::Empty => "resolver returned no addresses for ".to_owned(),
        };
        out.append(address);
        out
    }
}

/// The address that a backend is dialled at: the first of the answer.
pub fn first_address(lookup: &Lookup) -> (r: Result<String, LookupError>)
    ensures
        match *lookup {
            Lookup::Unsplit => r == Err::<String, _>(LookupError::Invalid),
            Lookup::Failed => r == Err::<String, _>(LookupError::Unresolved),
            Lookup::Answer(found) => if found@.len() == 0 {
                r == Err::<String, _>(LookupError::Empty)
            } else {
                r matches Ok(a) && a@ == found@[0]@
            },
        },
{
    match lookup {
        Lookup::Unsplit => Err(LookupError::Invalid),
        Lookup::Failed => Err(LookupError::Unresolved),
        Lookup::Answer(found) => if found.len() == 0 {
            Err(LookupError::Empty)
        } else {
            Ok(found[0].clone())
        },
    }
}

/// The counter, with its help text, that a lookup adds to: a cache that grew
/// was missed.
pub fn dns_counter(before: usize, after: usize) -> (r: (&'static str, &'static str))
    ensures
        r.0@ == if after > before {
            "dns_cache_misses_total"@
        } else {
            "dns_cache_hits_total"@
        },
        r.1@ == if after > before {
            "DNS resolver cache misses"@
        } else {
            "DNS resolver cache hits"@
        },
{
    if after > before {
        ("dns_cache_misses_total", "DNS resolver cache misses")
    } else {
        ("dns_cache_hits_total", "DNS resolver cache hits")
    }
}

// ---------------------------------------------------------------------------
// Trust of HTTP/3 backends
// ---------------------------------------------------------------------------

/// How the HTTP/3 backends of a listener are verified.
#[derive(Debug)]
pub struct H3Trust {
    pub verify: bool,
    pub ca_path: Option<String>,
}

/// Why the HTTP/3 backends of a listener cannot share one pool.
#[derive(Debug)]
pub enum H3TrustError {
    /// There is none.
    NoBackends,
    /// Two of them disagree on verification or trust root.
    Mismatch { first: String, other: String },
    /// They are to be verified without a trust root.
    MissingCa { address: String },
}

impl H3TrustError {
    /// The message of the error.
    pub fn message(&self) -> (out: String)
        ensures
            out@ == match *self {
                H3TrustError::NoBackends => "build_h3_upstream_pool called with zero H3 backends"@,
                H3TrustError::Mismatch { first, other } =>
                    "H3 backends on a single listener must share tls_verify_peer + tls_ca_path (mismatch between "@
                    + first@ + " and "@ + other@
                    + "); one QuicUpstreamPool cannot dial multiple distinct trust roots"@,
                H3TrustError::MissingCa { address } => "H3 backend "@ + address@
                    + " requires tls_ca_path for verification; set it or explicitly opt out via tls_verify_peer = false (NOT RECOMMENDED)"@,
            },
    {
        match self {
            H3TrustError::NoBackends => {
                "build_h3_upstream_pool called with zero H3 backends".to_owned()
            },
            H3TrustError::Mismatch { first, other } => {
                let mut out: String =
                    "H3 backends on a single listener must share tls_verify_peer + tls_ca_path (mismatch between ".to_owned();
                out.append(first);
                out.append(" and ");
                out.append(other);
                out.append("); one QuicUpstreamPool cannot dial multiple distinct trust roots");
                out
            },
            H3TrustError::MissingCa { address } => {
                let mut out: String = "H3 backend ".to_owned();
                out.append(address);
                out.append(
                    " requires tls_ca_path for verification; set it or explicitly opt out via tls_verify_peer = false (NOT RECOMMENDED)",
                );
                out
            },
        }
    }
}

/// An optional text as characters.
pub open spec fn text_of(t: Option<String>) -> Option<Seq<char>> {
    match t {
        Some(s) => Some(s@),
        None => None,
    }
}

/// Whether two backends are verified the same way.
pub open spec fn same_trust(a: BackendConfig, b: BackendConfig) -> bool {
    a.tls_verify_peer == b.tls_verify_peer && text_of(a.tls_ca_path) == text_of(b.tls_ca_path)
}

/// Whether a backend names a trust root.
pub open spec fn has_ca(b: BackendConfig) -> bool {
    match b.tls_ca_path {
        Some(p) => p@.len() > 0,
        None => false,
    }
}

fn same_text(a: &Option<String>, b: &Option<String>) -> (r: bool)
    ensures
        r == (text_of(*a) == text_of(*b)),
{
    match a {
        Some(x) => match b {
            Some(y) => same(x, y),
            None => false,
        },
        None => match b {
            Some(_) => false,
            None => true,
        },
    }
}

/// Whether `r` is how HTTP/3 backends that share one pool are verified, or the
/// first reason why they cannot be.
pub open spec fn trust_outcome(backends: Seq<BackendConfig>, r: Result<H3Trust, H3TrustError>) -> bool {
    match r {
        Ok(t) => {
            &&& backends.len() > 0
            &&& forall|i: int|
                0 <= i < backends.len() ==> same_trust(#[trigger] backends[i], backends[0])
            &&& backends[0].tls_verify_peer ==> has_ca(backends[0])
            &&& t.verify == backends[0].tls_verify_peer
            &&& text_of(t.ca_path) == text_of(backends[0].tls_ca_path)
        },
        Err(H3TrustError::NoBackends) => backends.len() == 0,
        Err(H3TrustError::Mismatch { first, other }) => exists|k: int|
            {
                &&& 0 < k < backends.len()
                &&& !same_trust(#[trigger] backends[k], backends[0])
                &&& forall|i: int|
                    0 <= i < k ==> same_trust(#[trigger] backends[i], backends[0])
                &&& first@ == backends[0].address@
                &&& other@ == backends[k].address@
            },
        Err(H3TrustError::MissingCa { address }) => {
            &&& backends.len() > 0
            &&& forall|i: int|
                0 <= i < backends.len() ==> same_trust(#[trigger] backends[i], backends[0])
            &&& backends[0].tls_verify_peer
            &&& !has_ca(backends[0])
            &&& address@ == backends[0].address@
        },
    }
}

/// How the HTTP/3 backends of a listener are verified. They share one pool, so
/// they must agree; verification without a trust root is refused, so that a
/// peer is never verified against nothing.
pub fn build_h3_upstream_pool(backends: &Vec<BackendConfig>) -> (r: Result<H3Trust, H3TrustError>)
    ensures
        trust_outcome(backends@, r),
        r matches Ok(t) ==> t.verify ==> (t.ca_path matches Some(p) && p@.len() > 0),
{
    if backends.len() == 0 {
        return Err(H3TrustError::NoBackends);
    }
    let mut k: usize = 1;
    while k < backends.len()
        invariant
            1 <= k <= backends@.len(),
            forall|i: int| 0 <= i < k ==> same_trust(#[trigger] backends@[i], backends@[0]),
        decreases backends@.len() - k,
    {
        if backends[k].tls_verify_peer != backends[0].tls_verify_peer || !same_text(
            &backends[k].tls_ca_path,
            &backends[0].tls_ca_path,
        ) {
            assert(!same_trust(backends@[k as int], backends@[0]));
            return Err(
                H3TrustError::Mismatch {
                    first: backends[0].address.clone(),
                    other: backends[k].address.clone(),
                },
            );
        }
        k += 1;
    }
    let rooted: bool = match &backends[0].tls_ca_path {
        Some(p) => p.as_str().unicode_len() > 0,
        None => false,
    };
    if backends[0].tls_verify_peer && !rooted {
        return Err(H3TrustError::MissingCa { address: backends[0].address.clone() });
    }
    Ok(H3Trust { verify: backends[0].tls_verify_peer, ca_path: copy_text(&backends[0].tls_ca_path) })
}

// ---------------------------------------------------------------------------
// Limits
// ---------------------------------------------------------------------------

/// The limits of a QUIC connection to a backend.
#[derive(Debug, Clone, Copy, PartialEq, Eq, Structural)]
pub struct QuicLimits {
    pub max_idle_timeout_ms: u64,
    pub max_udp_payload: usize,
    pub initial_max_data: u64,
    pub initial_max_stream_data_bidi_local: u64,
    pub initial_max_stream_data_bidi_remote: u64,
    pub initial_max_stream_data_uni: u64,
    pub initial_max_streams_bidi: u64,
    pub initial_max_streams_uni: u64,
}

/// The limits of a pooled HTTP/3 upstream connection.
pub fn h3_pool_limits() -> (r: QuicLimits)
    ensures
        r == (QuicLimits {
            max_idle_timeout_ms: 30_000,
            max_udp_payload: 1_350,
            initial_max_data: 1_048_576,
            initial_max_stream_data_bidi_local: 65_536,
            initial_max_stream_data_bidi_remote: 65_536,
            initial_max_stream_data_uni: 65_536,
            initial_max_streams_bidi: 64,
            initial_max_streams_uni: 64,
        }),
{
    QuicLimits {
        max_idle_timeout_ms: 30_000,
        max_udp_payload: 1_350,
        initial_max_data: 1024 * 1024,
        initial_max_stream_data_bidi_local: 64 * 1024,
        initial_max_stream_data_bidi_remote: 64 * 1024,
        initial_max_stream_data_uni: 64 * 1024,
        initial_max_streams_bidi: 64,
        initial_max_streams_uni: 64,
    }
}

/// The limits of a dedicated raw-relay connection.
pub fn raw_relay_limits() -> (r: QuicLimits)
    ensures
        r == (QuicLimits {
            max_idle_timeout_ms: 30_000,
            max_udp_payload: 1_350,
            initial_max_data: 10_485_760,
            initial_max_stream_data_bidi_local: 1_048_576,
            initial_max_stream_data_bidi_remote: 1_048_576,
            initial_max_stream_data_uni: 1_048_576,
            initial_max_streams_bidi: 64,
            initial_max_streams_uni: 64,
        }),
{
    QuicLimits {
        max_idle_timeout_ms: 30_000,
        max_udp_payload: 1_350,
        initial_max_data: 10 * 1024 * 1024,
        initial_max_stream_data_bidi_local: 1024 * 1024,
        initial_max_stream_data_bidi_remote: 1024 * 1024,
        initial_max_stream_data_uni: 1024 * 1024,
        initial_max_streams_bidi: 64,
        initial_max_streams_uni: 64,
    }
}

/// The limits of a pool of HTTP/2 connections to backends. Times are in
/// milliseconds.
#[derive(Debug, Clone, Copy, PartialEq, Eq, Structural)]
pub struct Http2PoolConfig {
    pub max_concurrent_streams: u32,
    pub initial_stream_window: u32,
    pub keep_alive_interval_ms: u64,
    pub keep_alive_timeout_ms: u64,
}

/// A value, or the default when it is not set.
pub open spec fn set_or<T>(value: Option<T>, default: T) -> T {
    match value {
        Some(v) => v,
        None => default,
    }
}

/// The limits of the HTTP/2 pool: the defaults, with the configured overrides.
pub open spec fn pool_limits(defaults: Http2PoolConfig, cfg: Option<H2SecurityConfig>) -> Http2PoolConfig {
    match cfg {
        None => defaults,
        Some(c) => Http2PoolConfig {
            max_concurrent_streams: set_or(c.max_concurrent_streams, defaults.max_concurrent_streams),
            initial_stream_window: set_or(
                c.initial_stream_window_size,
                defaults.initial_stream_window,
            ),
            keep_alive_interval_ms: set_or(c.keep_alive_interval_ms, defaults.keep_alive_interval_ms),
            keep_alive_timeout_ms: set_or(c.keep_alive_timeout_ms, defaults.keep_alive_timeout_ms),
        },
    }
}

/// The limits of the HTTP/2 pool.
pub fn build_h2_upstream_pool(defaults: Http2PoolConfig, cfg: &Option<H2SecurityConfig>) -> (r:
    Http2PoolConfig)
    ensures
        r == pool_limits(defaults, *cfg),
{
    let mut out = defaults;
    match cfg {
        None => {},
        Some(c) => {
            match c.max_concurrent_streams {
                Some(v) => { out.max_concurrent_streams = v; },
                None => {},
            }
            match c.initial_stream_window_size {
                Some(v) => { out.initial_stream_window = v; },
                None => {},
            }
            match c.keep_alive_interval_ms {
                Some(v) => { out.keep_alive_interval_ms = v; },
                None => {},
            }
            match c.keep_alive_timeout_ms {
                Some(v) => { out.keep_alive_timeout_ms = v; },
                None => {},
            }
        },
    }
    out
}

/// The limits that an HTTP/2 front enforces. Times are in milliseconds; no
/// interval means that no keep-alive pings are sent.
#[derive(Debug, Clone, Copy, PartialEq, Eq, Structural)]
pub struct H2SecurityThresholds {
    pub max_pending_accept_reset_streams: usize,
    pub max_local_error_reset_streams: usize,
    pub max_concurrent_streams: u32,
    pub max_header_list_size: u32,
    pub max_send_buf_size: usize,
    pub keep_alive_interval_ms: Option<u64>,
    pub keep_alive_timeout_ms: u64,
    pub initial_stream_window_size: u32,
    pub initial_connection_window_size: u32,
}

/// The keep-alive interval: a configured zero switches the pings off.
pub open spec fn interval_or(value: Option<u64>, default: Option<u64>) -> Option<u64> {
    match value {
        Some(ms) => if ms == 0 {
            None
        } else {
            Some(ms)
        },
        None => default,
    }
}

/// The limits of an HTTP/2 front: the defaults, with the configured overrides.
pub open spec fn front_limits(defaults: H2SecurityThresholds, cfg: Option<H2SecurityConfig>) -> H2SecurityThresholds {
    match cfg {
        None => defaults,
        Some(c) => H2SecurityThresholds {
            max_pending_accept_reset_streams: set_or(
                c.max_pending_accept_reset_streams,
                defaults.max_pending_accept_reset_streams,
            ),
            max_local_error_reset_streams: set_or(
                c.max_local_error_reset_streams,
                defaults.max_local_error_reset_streams,
            ),
            max_concurrent_streams: set_or(c.max_concurrent_streams, defaults.max_concurrent_streams),
            max_header_list_size: set_or(c.max_header_list_size, defaults.max_header_list_size),
            max_send_buf_size: set_or(c.max_send_buf_size, defaults.max_send_buf_size),
            keep_alive_interval_ms: interval_or(
                c.keep_alive_interval_ms,
                defaults.keep_alive_interval_ms,
            ),
            keep_alive_timeout_ms: set_or(c.keep_alive_timeout_ms, defaults.keep_alive_timeout_ms),
            initial_stream_window_size: set_or(
                c.initial_stream_window_size,
                defaults.initial_stream_window_size,
            ),
            initial_connection_window_size: set_or(
                c.initial_connection_window_size,
                defaults.initial_connection_window_size,
            ),
        },
    }
}

/// The limits of an HTTP/2 front.
pub fn merge_h2_security(defaults: H2SecurityThresholds, cfg: &Option<H2SecurityConfig>) -> (r:
    H2SecurityThresholds)
    ensures
        r == front_limits(defaults, *cfg),
{
    let mut t = defaults;
    match cfg {
        None => {},
        Some(c) => {
            match c.max_pending_accept_reset_streams {
                Some(v) => { t.max_pending_accept_reset_streams = v; },
                None => {},
            }
            match c.max_local_error_reset_streams {
                Some(v) => { t.max_local_error_reset_streams = v; },
                None => {},
            }
            match c.max_concurrent_streams {
                Some(v) => { t.max_concurrent_streams = v; },
                None => {},
            }
            match c.max_header_list_size {
                Some(v) => { t.max_header_list_size = v; },
                None => {},
            }
            match c.max_send_buf_size {
                Some(v) => { t.max_send_buf_size = v; },
                None => {},
            }
            match c.keep_alive_interval_ms {
                Some(ms) => { t.keep_alive_interval_ms = if ms == 0 { None } else { Some(ms) }; },
                None => {},
            }
            match c.keep_alive_timeout_ms {
                Some(v) => { t.keep_alive_timeout_ms = v; },
                None => {},
            }
            match c.initial_stream_window_size {
                Some(v) => { t.initial_stream_window_size = v; },
                None => {},
            }
            match c.initial_connection_window_size {
                Some(v) => { t.initial_connection_window_size = v; },
                None => {},
            }
        },
    }
    t
}

/// HTTP timeouts at run time, in milliseconds.
#[derive(Debug, Clone, Copy, PartialEq, Eq, Structural)]
pub struct HttpTimeouts {
    pub header_ms: u64,
    pub body_ms: u64,
    pub total_ms: u64,
    pub head_ms: u64,
}

/// The HTTP timeouts of a listener: all configured, or all defaults.
pub open spec fn timeouts_of(defaults: HttpTimeouts, cfg: Option<HttpTimeoutsConfig>) -> HttpTimeouts {
    match cfg {
        Some(h) => HttpTimeouts {
            header_ms: h.header_timeout_ms,
            body_ms: h.body_timeout_ms,
            total_ms: h.total_timeout_ms,
            head_ms: h.head_timeout_ms,
        },
        None => defaults,
    }
}

/// The HTTP timeouts of a listener.
pub fn http_timeouts(defaults: HttpTimeouts, cfg: &Option<HttpTimeoutsConfig>) -> (r: HttpTimeouts)
    ensures
        r == timeouts_of(defaults, *cfg),
{
    match cfg {
        Some(h) => HttpTimeouts {
            header_ms: h.header_timeout_ms,
            body_ms: h.body_timeout_ms,
            total_ms: h.total_timeout_ms,
            head_ms: h.head_timeout_ms,
        },
        None => defaults,
    }
}

/// WebSocket relaying at run time. Times are in seconds.
#[derive(Debug, Clone, Copy, PartialEq, Eq, Structural)]
pub struct WsConfig {
    pub idle_timeout_secs: u64,
    pub max_message_size: usize,
    pub enabled: bool,
    pub ping_rate_limit_per_window: u32,
    pub ping_rate_limit_window_secs: u64,
    pub read_frame_timeout_secs: u64,
}

/// The run-time form of the WebSocket settings.
pub open spec fn ws_of(cfg: WebsocketConfig) -> WsConfig {
    WsConfig {
        idle_timeout_secs: cfg.idle_timeout_seconds,
        max_message_size: cfg.max_message_size_bytes,
        enabled: cfg.enabled,
        ping_rate_limit_per_window: cfg.ping_rate_limit_per_window,
        ping_rate_limit_window_secs: cfg.ping_rate_limit_window_seconds,
        read_frame_timeout_secs: cfg.read_frame_timeout_seconds,
    }
}

/// The run-time form of the WebSocket settings.
pub fn ws_config_to_runtime(cfg: &WebsocketConfig) -> (r: WsConfig)
    ensures
        r == ws_of(*cfg),
{
    WsConfig {
        idle_timeout_secs: cfg.idle_timeout_seconds,
        max_message_size: cfg.max_message_size_bytes,
        enabled: cfg.enabled,
        ping_rate_limit_per_window: cfg.ping_rate_limit_per_window,
        ping_rate_limit_window_secs: cfg.ping_rate_limit_window_seconds,
        read_frame_timeout_secs: cfg.read_frame_timeout_seconds,
    }
}

/// gRPC relaying at run time.
#[derive(Debug, Clone, Copy, PartialEq, Eq, Structural)]
pub struct GrpcConfig {
    pub enabled: bool,
    pub max_deadline_secs: u64,
    pub health_synthesized: bool,
}

/// The run-time form of the gRPC settings.
pub open spec fn grpc_of(cfg: GrpcListenerConfig) -> GrpcConfig {
    GrpcConfig {
        enabled: cfg.enabled,
        max_deadline_secs: cfg.max_deadline_seconds,
        health_synthesized: cfg.health_synthesized,
    }
}

/// The run-time form of the gRPC settings.
pub fn grpc_config_to_runtime(cfg: &GrpcListenerConfig) -> (r: GrpcConfig)
    ensures
        r == grpc_of(*cfg),
{
    GrpcConfig {
        enabled: cfg.enabled,
        max_deadline_secs: cfg.max_deadline_seconds,
        health_synthesized: cfg.health_synthesized,
    }
}

/// Socket options of a listener.
#[derive(Debug, Clone, Copy, PartialEq, Eq, Structural)]
pub struct ListenerSockOpts {
    pub reuseaddr: bool,
    pub reuseport: bool,
    pub rcvbuf: Option<u32>,
    pub sndbuf: Option<u32>,
    pub nodelay: bool,
    pub quickack: bool,
    pub keepalive: bool,
    pub tcp_fastopen: Option<u32>,
    pub backlog: Option<u32>,
}

/// Socket options of a listener.
pub fn listener_opts() -> (r: ListenerSockOpts)
    ensures
        r == (ListenerSockOpts {
            reuseaddr: true,
            reuseport: true,
            rcvbuf: Some(262_144),
            sndbuf: Some(262_144),
            nodelay: true,
            quickack: false,
            keepalive: true,
            tcp_fastopen: None,
            backlog: Some(50_000),
        }),
{
    ListenerSockOpts {
        reuseaddr: true,
        reuseport: true,
        rcvbuf: Some(262_144),
        sndbuf: Some(262_144),
        nodelay: true,
        quickack: false,
        keepalive: true,
        tcp_fastopen: None,
        backlog: Some(50_000),
    }
}

/// Socket options of a backend connection.
#[derive(Debug, Clone, Copy, PartialEq, Eq, Structural)]
pub struct BackendSockOpts {
    pub nodelay: bool,
    pub keepalive: bool,
    pub rcvbuf: Option<u32>,
    pub sndbuf: Option<u32>,
    pub quickack: bool,
    pub tcp_fastopen_connect: bool,
}

/// Socket options of a backend connection.
pub fn backend_opts() -> (r: BackendSockOpts)
    ensures
        r == (BackendSockOpts {
            nodelay: true,
            keepalive: true,
            rcvbuf: Some(262_144),
            sndbuf: Some(262_144),
            quickack: false,
            tcp_fastopen_connect: false,
        }),
{
    BackendSockOpts {
        nodelay: true,
        keepalive: true,
        rcvbuf: Some(262_144),
        sndbuf: Some(262_144),
        quickack: false,
        tcp_fastopen_connect: false,
    }
}

// ---------------------------------------------------------------------------
// Laws
// ---------------------------------------------------------------------------

/// What an address splits into: `host:port` into the host and the port, and
/// `[host]:port` into the host without its brackets. An address without a colon
/// does not split.
pub proof fn law_address_splits(
    s: &str,
    r: Result<(String, u16), HostPortError>,
    host: Seq<char>,
    port: u16,
)
    requires
        call_ensures(split_host_port, (s,), r),
    ensures
        s@ == host + seq![':'] + decimal(port as nat) && !(host.len() > 0 && host[0] == '[') ==> (
        r matches Ok(hp) && hp.0@ == host && hp.1 == port),
        s@ == seq!['['] + host + seq![']', ':'] + decimal(port as nat) && !host.contains(']') ==> (
        r matches Ok(hp) && hp.0@ == host && hp.1 == port),
        !s@.contains(':') ==> r is Err,
{
    law_host_port_round_trip(host, port, r);
    lemma_host_part(s@, r);
    lemma_host_of_address(s@, host, port);
}

/// Which protocol a name stands for.
pub proof fn law_protocol_names(s: &str, r: Option<UpstreamProto>)
    requires
        call_ensures(parse_upstream_proto, (s,), r),
    ensures
        s@ == "tcp"@ || s@ == "h1"@ ==> r == Some(UpstreamProto::H1),
        s@ == "h2"@ ==> r == Some(UpstreamProto::H2),
        s@ == "h3"@ ==> r == Some(UpstreamProto::H3),
        s@ != "tcp"@ && s@ != "h1"@ && s@ != "h2"@ && s@ != "h3"@ ==> r is None,
{
    lemma_protocols_differ();
}

/// The names of the protocols are different texts.
pub proof fn lemma_protocols_differ()
    ensures
        "tcp"@ != "h1"@,
        "tcp"@ != "h2"@,
        "tcp"@ != "h3"@,
        "h1"@ != "h2"@,
        "h1"@ != "h3"@,
        "h2"@ != "h3"@,
{
    reveal_strlit("tcp");
    reveal_strlit("h1");
    reveal_strlit("h2");
    reveal_strlit("h3");
    assert("tcp"@.len() == 3 && "h1"@.len() == 2 && "h2"@.len() == 2 && "h3"@.len() == 2);
    assert("h1"@[1] == '1' && "h2"@[1] == '2' && "h3"@[1] == '3');
}

/// Whether a name stands for a protocol that a backend can speak.
pub open spec fn is_protocol(name: Seq<char>) -> bool {
    name == "tcp"@ || name == "h1"@ || name == "h2"@ || name == "h3"@
}

/// What the backends of a listener come to. They can be used exactly when there
/// are any, each has an address, and each speaks a protocol that is known. Then
/// each is dialled at its own address, over the protocol that it names; only an
/// HTTP/3 backend has a server name, which is the explicit one, or the host of
/// its address.
pub proof fn law_backends_come_to(
    backends: Vec<BackendConfig>,
    addresses: Vec<String>,
    r: Result<Vec<UpstreamBackend>, UpstreamError>,
    i: int,
    host: Seq<char>,
    port: u16,
)
    requires
        call_ensures(build_upstream_backends, (&backends, &addresses), r),
    ensures
        r is Ok <==> backends@.len() > 0 && addresses@.len() == backends@.len() && forall|k: int|
            0 <= k < backends@.len() ==> is_protocol((#[trigger] backends@[k]).protocol@),
        r matches Ok(out) ==> out@.len() == backends@.len() && (0 <= i < backends@.len() ==> {
            let b = backends@[i];
            let u = out@[i];
            &&& u.addr@ == addresses@[i]@
            &&& u.proto == UpstreamProto::H1 <==> b.protocol@ == "tcp"@ || b.protocol@ == "h1"@
            &&& u.proto == UpstreamProto::H2 <==> b.protocol@ == "h2"@
            &&& u.proto == UpstreamProto::H3 <==> b.protocol@ == "h3"@
            &&& b.protocol@ != "h3"@ ==> u.sni is None
            &&& b.protocol@ == "h3"@ && b.tls_verify_hostname is Some ==> u.sni is Some && u.sni->0@
                == b.tls_verify_hostname->0@
            &&& b.protocol@ == "h3"@ && b.tls_verify_hostname is None && !(host.len() > 0 && host[0]
                == '[') && b.address@ == host + seq![':'] + decimal(port as nat) ==> u.sni is Some
                && u.sni->0@ == host
            &&& b.protocol@ == "h3"@ && b.tls_verify_hostname is None && !host.contains(']')
                && b.address@ == seq!['['] + host + seq![']', ':'] + decimal(port as nat) ==> u.sni is Some
                && u.sni->0@ == host
        }),
{
    lemma_protocols_differ();
    assert forall|name: Seq<char>| #[trigger] is_protocol(name) == (proto_named(name) is Some) by {}
    if r is Ok {
        let out = r->Ok_0;
        assert forall|k: int| 0 <= k < backends@.len() implies is_protocol(
            (#[trigger] backends@[k]).protocol@,
        ) by {
            assert(is_upstream(out@[k], backends@[k], addresses@[k]@));
        }
        if 0 <= i < backends@.len() {
            assert(is_upstream(out@[i], backends@[i], addresses@[i]@));
            lemma_host_of_address(backends@[i].address@, host, port);
        }
    } else {
        match r->Err_0 {
            UpstreamError::BadProtocol { index } => {
                assert(!is_protocol(backends@[index as int].protocol@));
            },
            _ => {},
        }
    }
}

/// Which backends share an HTTP/3 pool: those that speak `h3`, in order. This
/// says of every list how one more backend changes them.
pub proof fn law_h3_backends(backends: Seq<BackendConfig>, b: BackendConfig)
    ensures
        h3_backends(Seq::<BackendConfig>::empty()) == Seq::<BackendConfig>::empty(),
        b.protocol@ == "h3"@ ==> h3_backends(backends.push(b)) == h3_backends(backends).push(b),
        b.protocol@ != "h3"@ ==> h3_backends(backends.push(b)) == h3_backends(backends),
{
    reveal(Seq::filter);
    assert(backends.push(b).drop_last() =~= backends);
}

/// When HTTP/3 backends can share a pool: exactly when there are any, all of
/// them agree on verification and on the authority, and an authority is named
/// where the peer is verified. The pool then verifies as they say, against the
/// authority that they name.
pub proof fn law_h3_trust(
    backends: Vec<BackendConfig>,
    r: Result<H3Trust, H3TrustError>,
)
    requires
        call_ensures(build_h3_upstream_pool, (&backends,), r),
    ensures
        r is Ok <==> {
            &&& backends@.len() > 0
            &&& forall|k: int|
                0 <= k < backends@.len() ==> (#[trigger] backends@[k]).tls_verify_peer
                    == backends@[0].tls_verify_peer && text_of(backends@[k].tls_ca_path) == text_of(
                    backends@[0].tls_ca_path,
                )
            &&& backends@[0].tls_verify_peer ==> backends@[0].tls_ca_path is Some
                && backends@[0].tls_ca_path->0@.len() > 0
        },
        r matches Ok(t) ==> {
            &&& t.verify == backends@[0].tls_verify_peer
            &&& t.verify ==> t.ca_path is Some && t.ca_path->0@ == backends@[0].tls_ca_path->0@
                && t.ca_path->0@.len() > 0
            &&& t.ca_path is Some <==> backends@[0].tls_ca_path is Some
        },
{
    if r is Ok {
        assert forall|k: int| 0 <= k < backends@.len() implies (#[trigger] backends@[k]).tls_verify_peer
            == backends@[0].tls_verify_peer && text_of(backends@[k].tls_ca_path) == text_of(
            backends@[0].tls_ca_path,
        ) by {
            assert(same_trust(backends@[k], backends@[0]));
        }
        let t = r->Ok_0;
        assert(text_of(t.ca_path) == text_of(backends@[0].tls_ca_path));
    } else {
        match r->Err_0 {
            H3TrustError::Mismatch { first, other } => {
                let k = choose|k: int|
                    {
                        &&& 0 < k < backends@.len()
                        &&& !same_trust(#[trigger] backends@[k], backends@[0])
                        &&& forall|i: int|
                            0 <= i < k ==> same_trust(#[trigger] backends@[i], backends@[0])
                        &&& first@ == backends@[0].address@
                        &&& other@ == backends@[k].address@
                    };
                assert(!same_trust(backends@[k], backends@[0]));
            },
            _ => {},
        }
    }
}

/// A configured limit of HTTP/2 takes the place of the default, and one that is
/// not configured leaves it; for the front an interval of zero switches the
/// keep-alive off.
pub proof fn law_limits_override(
    pool: Http2PoolConfig,
    front: H2SecurityThresholds,
    cfg: Option<H2SecurityConfig>,
    p: Http2PoolConfig,
    f: H2SecurityThresholds,
)
    requires
        call_ensures(build_h2_upstream_pool, (pool, &cfg), p),
        call_ensures(merge_h2_security, (front, &cfg), f),
    ensures
        cfg is None ==> p == pool && f == front,
        cfg matches Some(c) ==> {
            &&& c.max_concurrent_streams matches Some(v) ==> p.max_concurrent_streams == v
                && f.max_concurrent_streams == v
            &&& c.max_concurrent_streams is None ==> p.max_concurrent_streams
                == pool.max_concurrent_streams && f.max_concurrent_streams
                == front.max_concurrent_streams
            &&& c.initial_stream_window_size matches Some(v) ==> p.initial_stream_window == v
                && f.initial_stream_window_size == v
            &&& c.initial_stream_window_size is None ==> p.initial_stream_window
                == pool.initial_stream_window && f.initial_stream_window_size
                == front.initial_stream_window_size
            &&& c.keep_alive_interval_ms matches Some(v) ==> p.keep_alive_interval_ms == v && (v > 0
                ==> f.keep_alive_interval_ms == Some(v)) && (v == 0
                ==> f.keep_alive_interval_ms is None)
            &&& c.keep_alive_interval_ms is None ==> p.keep_alive_interval_ms
                == pool.keep_alive_interval_ms && f.keep_alive_interval_ms
                == front.keep_alive_interval_ms
            &&& c.keep_alive_timeout_ms matches Some(v) ==> p.keep_alive_timeout_ms == v
                && f.keep_alive_timeout_ms == v
            &&& c.keep_alive_timeout_ms is None ==> p.keep_alive_timeout_ms
                == pool.keep_alive_timeout_ms && f.keep_alive_timeout_ms
                == front.keep_alive_timeout_ms
            &&& c.max_pending_accept_reset_streams matches Some(v)
                ==> f.max_pending_accept_reset_streams == v
            &&& c.max_pending_accept_reset_streams is None ==> f.max_pending_accept_reset_streams
                == front.max_pending_accept_reset_streams
            &&& c.max_local_error_reset_streams matches Some(v) ==> f.max_local_error_reset_streams
                == v
            &&& c.max_local_error_reset_streams is None ==> f.max_local_error_reset_streams
                == front.max_local_error_reset_streams
            &&& c.max_header_list_size matches Some(v) ==> f.max_header_list_size == v
            &&& c.max_header_list_size is None ==> f.max_header_list_size
                == front.max_header_list_size
            &&& c.max_send_buf_size matches Some(v) ==> f.max_send_buf_size == v
            &&& c.max_send_buf_size is None ==> f.max_send_buf_size == front.max_send_buf_size
            &&& c.initial_connection_window_size matches Some(v)
                ==> f.initial_connection_window_size == v
            &&& c.initial_connection_window_size is None ==> f.initial_connection_window_size
                == front.initial_connection_window_size
        },
{
}

/// The times, the WebSocket settings and the gRPC settings of a listener come
/// over one for one.
pub proof fn law_settings_come_over(
    defaults: HttpTimeouts,
    http: Option<HttpTimeoutsConfig>,
    t: HttpTimeouts,
    websocket: WebsocketConfig,
    w: WsConfig,
    grpc: GrpcListenerConfig,
    g: GrpcConfig,
)
    requires
        call_ensures(http_timeouts, (defaults, &http), t),
        call_ensures(ws_config_to_runtime, (&websocket,), w),
        call_ensures(grpc_config_to_runtime, (&grpc,), g),
    ensures
        http is None ==> t == defaults,
        http matches Some(h) ==> t.header_ms == h.header_timeout_ms && t.body_ms == h.body_timeout_ms
            && t.total_ms == h.total_timeout_ms && t.head_ms == h.head_timeout_ms,
        w.enabled == websocket.enabled,
        w.idle_timeout_secs == websocket.idle_timeout_seconds,
        w.max_message_size == websocket.max_message_size_bytes,
        w.ping_rate_limit_per_window == websocket.ping_rate_limit_per_window,
        w.ping_rate_limit_window_secs == websocket.ping_rate_limit_window_seconds,
        w.read_frame_timeout_secs == websocket.read_frame_timeout_seconds,
        g.enabled == grpc.enabled,
        g.max_deadline_secs == grpc.max_deadline_seconds,
        g.health_synthesized == grpc.health_synthesized,
{
}

/// Raw backends are told apart by their position and keep their weights.
pub proof fn law_tcp_backends(backends: Vec<BackendConfig>, out: Vec<(String, u32)>, i: int, j: int)
    requires
        call_ensures(tcp_backends, (&backends,), out),
    ensures
        out@.len() == backends@.len(),
        0 <= i < out@.len() ==> out@[i].1 == backends@[i].weight,
        0 <= i < out@.len() && 0 <= j < out@.len() && i != j ==> out@[i].0@ != out@[j].0@,
{
    if 0 <= i < out@.len() && 0 <= j < out@.len() && out@[i].0@ == out@[j].0@ {
        let p = "backend-"@;
        assert(out@[i].0@ == p + decimal(i as nat));
        assert(out@[j].0@ == p + decimal(j as nat));
        assert((p + decimal(i as nat)).skip(p.len() as int) =~= decimal(i as nat));
        assert((p + decimal(j as nat)).skip(p.len() as int) =~= decimal(j as nat));
        crate::text::lemma_digits(i as nat, 10);
        crate::text::lemma_digits(j as nat, 10);
    }
}

/// The address that a lookup gives is the first one of the answer; an answer
/// without any, a failed lookup and a text that is no address give none.
pub proof fn law_first_answer_counts(lookup: Lookup, r: Result<String, LookupError>)
    requires
        call_ensures(first_address, (&lookup,), r),
    ensures
        r is Ok <==> lookup is Answer && lookup->Answer_0@.len() > 0,
        r is Ok ==> r->Ok_0@ == lookup->Answer_0@[0]@,
{
}

/// The host of an address: what it splits into, where it splits.
pub proof fn law_host_of(address: &str, r: Option<String>, s: Result<(String, u16), HostPortError>)
    requires
        call_ensures(host_of, (address,), r),
        call_ensures(split_host_port, (address,), s),
    ensures
        s matches Ok(hp) ==> r is Some && r->0@ == hp.0@,
        s is Err ==> r is None,
{
    lemma_host_part(address@, s);
}

/// The HTTP/3 backends of a list are those that speak it, in order, and a list of
/// upstreams speaks a protocol exactly when one of them does.
pub proof fn law_who_speaks(
    before: Vec<BackendConfig>,
    after: Vec<BackendConfig>,
    b: BackendConfig,
    x: Vec<BackendConfig>,
    y: Vec<BackendConfig>,
    ups: Vec<UpstreamBackend>,
    proto: UpstreamProto,
    any: bool,
)
    requires
        after@ == before@.push(b),
        call_ensures(collect_h3_backends, (&before,), x),
        call_ensures(collect_h3_backends, (&after,), y),
        call_ensures(any_speaks, (&ups, proto), any),
    ensures
        before@.len() == 0 ==> x@.len() == 0,
        b.protocol@ == "h3"@ ==> y@ == x@.push(b),
        b.protocol@ != "h3"@ ==> y@ == x@,
        any <==> exists|i: int| 0 <= i < ups@.len() && (#[trigger] ups@[i]).proto == proto,
{
    law_h3_backends(before@, b);
    if before@.len() == 0 {
        assert(before@ =~= Seq::<BackendConfig>::empty());
    }
}

/// A lookup that made the cache larger was a miss, any other a hit.
pub proof fn law_cache_counters(before: usize, after: usize, r: (&'static str, &'static str))
    requires
        call_ensures(dns_counter, (before, after), r),
    ensures
        after > before ==> r.0@ == "dns_cache_misses_total"@,
        after <= before ==> r.0@ == "dns_cache_hits_total"@,
{
}

/// A backend that speaks HTTP/3 is among those that do.
pub proof fn lemma_is_h3(backends: Seq<BackendConfig>, k: int)
    requires
        0 <= k < backends.len(),
        backends[k].protocol@ == "h3"@,
    ensures
        h3_backends(backends).contains(backends[k]),
    decreases backends.len(),
{
    let before = backends.drop_last();
    assert(before.push(backends.last()) =~= backends);
    law_h3_backends(before, backends.last());
    let all = h3_backends(backends);
    if k < before.len() {
        lemma_is_h3(before, k);
        let head = h3_backends(before);
        let j = choose|j: int| 0 <= j < head.len() && head[j] == before[k];
        assert(all[j] == backends[k]);
    } else {
        assert(all[all.len() - 1] == backends[k]);
    }
}

/// There are HTTP/3 backends exactly when some backend speaks HTTP/3.
pub proof fn lemma_some_h3(backends: Seq<BackendConfig>)
    ensures
        h3_backends(backends).len() > 0 <==> exists|k: int|
            0 <= k < backends.len() && (#[trigger] backends[k]).protocol@ == "h3"@,
    decreases backends.len(),
{
    if exists|k: int| 0 <= k < backends.len() && (#[trigger] backends[k]).protocol@ == "h3"@ {
        let k = choose|k: int| 0 <= k < backends.len() && (#[trigger] backends[k]).protocol@ == "h3"@;
        lemma_is_h3(backends, k);
    }
    if backends.len() == 0 {
        law_h3_backends(backends, arbitrary());
        assert(backends =~= Seq::<BackendConfig>::empty());
    } else {
        let before = backends.drop_last();
        assert(before.push(backends.last()) =~= backends);
        law_h3_backends(before, backends.last());
        lemma_some_h3(before);
        if h3_backends(backends).len() > 0 {
            if backends.last().protocol@ == "h3"@ {
                assert(backends[backends.len() - 1].protocol@ == "h3"@);
            } else {
                let k = choose|k: int|
                    0 <= k < before.len() && (#[trigger] before[k]).protocol@ == "h3"@;
                assert(backends[k].protocol@ == "h3"@);
            }
        }
    }
}

/// Whether the backends of a listener can be used.
pub open spec fn usable(backends: Seq<BackendConfig>, addresses: Seq<String>) -> bool {
    &&& backends.len() > 0
    &&& addresses.len() == backends.len()
    &&& forall|k: int|
        0 <= k < backends.len() ==> is_protocol((#[trigger] backends[k]).protocol@)
}

/// When the backends of a listener come to upstreams.
pub proof fn lemma_usable(
    backends: Seq<BackendConfig>,
    addresses: Seq<String>,
    r: Result<Vec<UpstreamBackend>, UpstreamError>,
)
    requires
        upstream_outcome(backends, addresses, r),
    ensures
        r is Ok <==> usable(backends, addresses),
{
    lemma_protocols_differ();
    assert forall|name: Seq<char>| #[trigger] is_protocol(name) == (proto_named(name) is Some) by {}
    if r is Ok {
        let out = r->Ok_0;
        assert forall|k: int| 0 <= k < backends.len() implies is_protocol(
            (#[trigger] backends[k]).protocol@,
        ) by {
            assert(is_upstream(out@[k], backends[k], addresses[k]@));
        }
    } else {
        match r->Err_0 {
            UpstreamError::BadProtocol { index } => {
                assert(!is_protocol(backends[index as int].protocol@));
            },
            _ => {},
        }
    }
}

/// When HTTP/3 backends can share a pool.
pub open spec fn agreed(backends: Seq<BackendConfig>) -> bool {
    &&& backends.len() > 0
    &&& forall|k: int| 0 <= k < backends.len() ==> same_trust(#[trigger] backends[k], backends[0])
    &&& backends[0].tls_verify_peer ==> has_ca(backends[0])
}

/// A pool comes about exactly when the backends can share one.
pub proof fn lemma_agreed(backends: Seq<BackendConfig>, r: Result<H3Trust, H3TrustError>)
    requires
        trust_outcome(backends, r),
    ensures
        r is Ok <==> agreed(backends),
{
}

/// What is wrong with an address that does not split: a bracket that is not
/// closed, no port behind one that is, no colon at all, or a port that is no
/// number of sixteen bits.
pub proof fn law_address_errors(
    s: &str,
    r: Result<(String, u16), HostPortError>,
    host: Seq<char>,
    port: Seq<char>,
)
    requires
        call_ensures(split_host_port, (s,), r),
    ensures
        s@ == seq!['['] + host && !host.contains(']') ==> r is Err && r->Err_0 is UnterminatedLiteral,
        s@ == seq!['['] + host + (seq![']'] + port) && !host.contains(']') && !(port.len() > 0
            && port[0] == ':') ==> r is Err && r->Err_0 is MissingPortAfterLiteral,
        !s@.contains(':') && !(s@.len() > 0 && s@[0] == '[') ==> r is Err && r->Err_0 is MissingPort,
        s@ == host + seq![':'] + port && !port.contains(':') && !(host.len() > 0 && host[0] == '[')
            && unsigned_value(port, 65_535) is None ==> r is Err && r->Err_0 is InvalidPort
            && r->Err_0->InvalidPort_0@ == port,
{
    if s@ == seq!['['] + host && !host.contains(']') {
        assert(s@[0] == '[');
        assert(s@.skip(1) =~= host);
        crate::text::lemma_find(host, ']');
        if find(host, ']') < host.len() {
            assert(host.contains(']'));
        }
    }
    if s@ == seq!['['] + host + (seq![']'] + port) && !host.contains(']') {
        assert(s@[0] == '[');
        assert(s@.skip(1) =~= host + seq![']'] + port);
        lemma_first_separator(host, ']', port);
        let rest = host + seq![']'] + port;
        assert(rest.take(host.len() as int) =~= host);
        assert(rest.skip(host.len() as int + 1) =~= port);
    }
    if !s@.contains(':') {
        lemma_find_last(s@, ':');
        if find_last(s@, ':') < s@.len() {
            assert(s@[find_last(s@, ':') as int] == ':');
        }
    }
    if s@ == host + seq![':'] + port && !port.contains(':') && !(host.len() > 0 && host[0] == '[') {
        lemma_last_separator(host, ':', port);
        assert(s@[0] != '[') by {
            if host.len() > 0 {
                assert(s@[0] == host[0]);
            } else {
                assert(s@[0] == ':');
            }
        }
        assert(s@.take(host.len() as int) =~= host);
        assert(s@.skip(host.len() as int + 1) =~= port);
    }
}

} // verus!
