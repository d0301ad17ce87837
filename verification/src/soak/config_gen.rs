//! The gateway configuration text for each soak datapath. Addresses and paths
//! come rendered; a wrong key would silently disable the datapath under test,
//! so every block is fixed here.

use vstd::prelude::*;
use crate::text::{decimal, push_decimal, texts};

verus! {

/// Where the TLS material of a run lies.
#[derive(Debug)]
pub struct Certs {
    pub cert: String,
    pub key: String,
    pub ca: String,
}

/// A path below a directory.
pub open spec fn below(dir: Seq<char>, name: Seq<char>) -> Seq<char> {
    if dir.len() == 0 {
        name
    } else if dir.last() == '/' {
        dir + name
    } else {
        dir + "/"@ + name
    }
}

/// A path below a directory.
pub fn join(dir: &str, name: &str) -> (out: String)
    ensures
        out@ == below(dir@, name@),
{
    let n: usize = dir.unicode_len();
    let mut out: String = dir.to_owned();
    if n > 0 && dir.get_char(n - 1) != '/' {
        out.append("/");
    }
    out.append(name);
    assert(n == 0 ==> out@ =~= name@);
    out
}

/// Whether a certificate may sign others.
#[derive(Debug, Clone, Copy, PartialEq, Eq, Structural)]
pub enum Authority {
    /// It may not.
    Leaf,
    /// It may, without a limit on the length of the chain.
    Own,
}

/// What a certificate is for.
#[derive(Debug, Clone, Copy, PartialEq, Eq, Structural)]
pub enum KeyUse {
    Server,
    Client,
}

/// What a certificate is made from.
#[derive(Debug)]
pub struct CertificateTerms {
    pub names: Vec<String>,
    pub authority: Authority,
    pub usage: KeyUse,
}

/// `rcgen::CertificateParams::self_signed` on these terms, with a key from
/// `rcgen::KeyPair::generate`: the certificate and the key as text, or the text
/// of the error. Keys are drawn at random, so that nothing is said of what
/// comes out, nor of when it fails.
#[verifier::external_body]
fn self_signed(terms: CertificateTerms) -> (r: Result<(String, String), String>) {
    let mut params = rcgen::CertificateParams::new(terms.names).map_err(|e| e.to_string())?;
    params.is_ca = match terms.authority {
        Authority::Leaf => rcgen::IsCa::NoCa,
        Authority::Own => rcgen::IsCa::Ca(rcgen::BasicConstraints::Unconstrained),
    };
    params.extended_key_usages.push(match terms.usage {
        KeyUse::Server => rcgen::ExtendedKeyUsagePurpose::ServerAuth,
        KeyUse::Client => rcgen::ExtendedKeyUsagePurpose::ClientAuth,
    });
    let key = rcgen::KeyPair::generate().map_err(|e| e.to_string())?;
    let cert = params.self_signed(&key).map_err(|e| e.to_string())?;
    Ok((cert.pem(), key.serialize_pem()))
}

/// What the certificate of a run is made from: it is valid for the loopback and
/// for the name of the run, it is its own authority, and it is a server's.
pub fn certificate_terms(sni: &str) -> (r: CertificateTerms)
    ensures
        texts(r.names@) == seq!["127.0.0.1"@, "localhost"@, sni@],
        r.authority == Authority::Own,
        r.usage == KeyUse::Server,
{
    let mut names: Vec<String> = Vec::new();
    names.push("127.0.0.1".to_owned());
    names.push("localhost".to_owned());
    names.push(sni.to_owned());
    assert(texts(names@) =~= seq!["127.0.0.1"@, "localhost"@, sni@]);
    CertificateTerms { names, authority: Authority::Own, usage: KeyUse::Server }
}

/// Where the TLS material of a run goes.
pub fn certificate_paths(dir: &str) -> (r: Certs)
    ensures
        r.cert@ == below(dir@, "cert.pem"@),
        r.key@ == below(dir@, "key.pem"@),
        r.ca@ == below(dir@, "ca.pem"@),
{
    Certs { cert: join(dir, "cert.pem"), key: join(dir, "key.pem"), ca: join(dir, "ca.pem") }
}

/// The TLS material of a run: where it goes, and what is written there. The
/// certificate is also its own authority.
#[derive(Debug)]
pub struct Material {
    pub paths: Certs,
    pub cert_pem: String,
    pub key_pem: String,
}

impl Material {
    /// These texts, bound for their places below a directory.
    pub open spec fn holds(self, dir: Seq<char>, cert: Seq<char>, key: Seq<char>) -> bool {
        &&& self.paths.cert@ == below(dir, "cert.pem"@)
        &&& self.paths.key@ == below(dir, "key.pem"@)
        &&& self.paths.ca@ == below(dir, "ca.pem"@)
        &&& self.cert_pem@ == cert
        &&& self.key_pem@ == key
    }
}

/// The TLS material of a run from a certificate and its key; without them, the
/// error that stands in their place.
pub fn material(dir: &str, pair: Result<(String, String), String>) -> (r: Result<Material, String>)
    ensures
        match pair {
            Ok(p) => r matches Ok(m) && m.holds(dir@, p.0@, p.1@),
            Err(e) => r == Err::<Material, String>(e),
        },
{
    match pair {
        Ok(p) => Ok(Material { paths: certificate_paths(dir), cert_pem: p.0, key_pem: p.1 }),
        Err(e) => Err(e),
    }
}

/// The TLS material of a run, on the terms of the run; an error when no
/// certificate could be made. Which certificate it is, is left open.
pub fn generate_certs(dir: &str, sni: &str) -> (r: Result<Material, String>)
    ensures
        r matches Ok(m) ==> m.holds(dir@, m.cert_pem@, m.key_pem@),
{
    material(dir, self_signed(certificate_terms(sni)))
}

/// The runtime block that every configuration starts with.
pub open spec fn runtime_text() -> Seq<char> {
    "[runtime]\ndrain_timeout_ms = 5000\nreadiness_settle_ms = 100\n\n"@
}

/// The runtime block that every configuration starts with.
pub fn runtime_block() -> (r: &'static str)
    ensures
        r@ == runtime_text(),
{
    "[runtime]\ndrain_timeout_ms = 5000\nreadiness_settle_ms = 100\n\n"
}

/// The observability block that every configuration ends with.
pub open spec fn observability_text(metrics: Seq<char>) -> Seq<char> {
    "[observability]\nmetrics_bind = \""@ + metrics + "\"\n"@
}

/// The observability block that every configuration ends with.
pub fn observability_block(metrics: &str) -> (out: String)
    ensures
        out@ == observability_text(metrics@),
{
    let mut out = String::new();
    out.append("[observability]\nmetrics_bind = \"");
    out.append(metrics);
    out.append("\"\n");
    assert(out@ =~= observability_text(metrics@));
    out
}

/// A plaintext HTTP/1 front with one backend.
pub open spec fn h1_front_text(
    listener: Seq<char>,
    backend: Seq<char>,
    backend_proto: Seq<char>,
    metrics: Seq<char>,
) -> Seq<char> {
    runtime_text()
        + "[[listeners]]\naddress = \""@
        + listener
        + "\"\nprotocol = \"h1\"\n\n[[listeners.backends]]\naddress = \""@
        + backend
        + "\"\nprotocol = \""@
        + backend_proto
        + "\"\nweight = 1\n\n"@
        + observability_text(metrics)
}

/// A plaintext HTTP/1 front with one backend.
pub fn h1_front(
    listener: &str,
    backend: &str,
    backend_proto: &str,
    metrics: &str,
) -> (out: String)
    ensures
        out@ == h1_front_text(listener@, backend@, backend_proto@, metrics@),
{
    let mut out = String::new();
    out.append(runtime_block());
    out.append("[[listeners]]\naddress = \"");
    out.append(listener);
    out.append("\"\nprotocol = \"h1\"\n\n[[listeners.backends]]\naddress = \"");
    out.append(backend);
    out.append("\"\nprotocol = \"");
    out.append(backend_proto);
    out.append("\"\nweight = 1\n\n");
    let obs = observability_block(metrics);
    out.append(&obs);
    assert(Seq::<char>::empty() + runtime_text() =~= runtime_text());
    out
}

/// A plaintext HTTP/1 front with WebSocket upgrades enabled, and an HTTP/1
/// backend.
pub open spec fn h1_front_ws_text(
    listener: Seq<char>,
    backend: Seq<char>,
    metrics: Seq<char>,
    idle_timeout_seconds: u64,
    read_frame_timeout_seconds: u64,
) -> Seq<char> {
    runtime_text()
        + "[[listeners]]\naddress = \""@
        + listener
        + "\"\nprotocol = \"h1\"\n\n[listeners.websocket]\nenabled = true\nidle_timeout_seconds = "@
        + decimal(idle_timeout_seconds as nat)
        + "\nread_frame_timeout_seconds = "@
        + decimal(read_frame_timeout_seconds as nat)
        + "\n\n[[listeners.backends]]\naddress = \""@
        + backend
        + "\"\nprotocol = \"h1\"\nweight = 1\n\n"@
        + observability_text(metrics)
}

/// A plaintext HTTP/1 front with WebSocket upgrades enabled, and an HTTP/1
/// backend.
pub fn h1_front_ws(
    listener: &str,
    backend: &str,
    metrics: &str,
    idle_timeout_seconds: u64,
    read_frame_timeout_seconds: u64,
) -> (out: String)
    ensures
        out@ == h1_front_ws_text(
            listener@,
            backend@,
            metrics@,
            idle_timeout_seconds,
            read_frame_timeout_seconds,
        ),
{
    let mut out = String::new();
    out.append(runtime_block());
    out.append("[[listeners]]\naddress = \"");
    out.append(listener);
    out.append("\"\nprotocol = \"h1\"\n\n[listeners.websocket]\nenabled = true\nidle_timeout_seconds = ");
    push_decimal(&mut out, idle_timeout_seconds);
    out.append("\nread_frame_timeout_seconds = ");
    push_decimal(&mut out, read_frame_timeout_seconds);
    out.append("\n\n[[listeners.backends]]\naddress = \"");
    out.append(backend);
    out.append("\"\nprotocol = \"h1\"\nweight = 1\n\n");
    let obs = observability_block(metrics);
    out.append(&obs);
    assert(Seq::<char>::empty() + runtime_text() =~= runtime_text());
    out
}

/// A TLS front with WebSocket upgrades enabled, extended CONNECT over HTTP/2
/// opted in, and an HTTP/1 backend.
pub open spec fn h1s_front_ws_text(
    listener: Seq<char>,
    backend: Seq<char>,
    metrics: Seq<char>,
    certs: Certs,
    idle_timeout_seconds: u64,
    read_frame_timeout_seconds: u64,
) -> Seq<char> {
    runtime_text()
        + "[[listeners]]\naddress = \""@
        + listener
        + "\"\nprotocol = \"h1s\"\n\n[listeners.tls]\ncert_path = \""@
        + certs.cert@
        + "\"\nkey_path = \""@
        + certs.key@
        + "\"\n\n[listeners.websocket]\nenabled = true\nh2_extended_connect = true\nidle_timeout_seconds = "@
        + decimal(idle_timeout_seconds as nat)
        + "\nread_frame_timeout_seconds = "@
        + decimal(read_frame_timeout_seconds as nat)
        + "\n\n[[listeners.backends]]\naddress = \""@
        + backend
        + "\"\nprotocol = \"h1\"\nweight = 1\n\n"@
        + observability_text(metrics)
}

/// A TLS front with WebSocket upgrades enabled, extended CONNECT over HTTP/2
/// opted in, and an HTTP/1 backend.
pub fn h1s_front_ws(
    listener: &str,
    backend: &str,
    metrics: &str,
    certs: &Certs,
    idle_timeout_seconds: u64,
    read_frame_timeout_seconds: u64,
) -> (out: String)
    ensures
        out@ == h1s_front_ws_text(
            listener@,
            backend@,
            metrics@,
            *certs,
            idle_timeout_seconds,
            read_frame_timeout_seconds,
        ),
{
    let mut out = String::new();
    out.append(runtime_block());
    out.append("[[listeners]]\naddress = \"");
    out.append(listener);
    out.append("\"\nprotocol = \"h1s\"\n\n[listeners.tls]\ncert_path = \"");
    out.append(&certs.cert);
    out.append("\"\nkey_path = \"");
    out.append(&certs.key);
    out.append("\"\n\n[listeners.websocket]\nenabled = true\nh2_extended_connect = true\nidle_timeout_seconds = ");
    push_decimal(&mut out, idle_timeout_seconds);
    out.append("\nread_frame_timeout_seconds = ");
    push_decimal(&mut out, read_frame_timeout_seconds);
    out.append("\n\n[[listeners.backends]]\naddress = \"");
    out.append(backend);
    out.append("\"\nprotocol = \"h1\"\nweight = 1\n\n");
    let obs = observability_block(metrics);
    out.append(&obs);
    assert(Seq::<char>::empty() + runtime_text() =~= runtime_text());
    out
}

/// A TLS front with one backend.
pub open spec fn h1s_front_text(
    listener: Seq<char>,
    backend: Seq<char>,
    backend_proto: Seq<char>,
    metrics: Seq<char>,
    certs: Certs,
) -> Seq<char> {
    runtime_text()
        + "[[listeners]]\naddress = \""@
        + listener
        + "\"\nprotocol = \"h1s\"\n\n[listeners.tls]\ncert_path = \""@
        + certs.cert@
        + "\"\nkey_path = \""@
        + certs.key@
        + "\"\n\n[[listeners.backends]]\naddress = \""@
        + backend
        + "\"\nprotocol = \""@
        + backend_proto
        + "\"\nweight = 1\n\n"@
        + observability_text(metrics)
}

/// A TLS front with one backend.
pub fn h1s_front(
    listener: &str,
    backend: &str,
    backend_proto: &str,
    metrics: &str,
    certs: &Certs,
) -> (out: String)
    ensures
        out@ == h1s_front_text(listener@, backend@, backend_proto@, metrics@, *certs),
{
    let mut out = String::new();
    out.append(runtime_block());
    out.append("[[listeners]]\naddress = \"");
    out.append(listener);
    out.append("\"\nprotocol = \"h1s\"\n\n[listeners.tls]\ncert_path = \"");
    out.append(&certs.cert);
    out.append("\"\nkey_path = \"");
    out.append(&certs.key);
    out.append("\"\n\n[[listeners.backends]]\naddress = \"");
    out.append(backend);
    out.append("\"\nprotocol = \"");
    out.append(backend_proto);
    out.append("\"\nweight = 1\n\n");
    let obs = observability_block(metrics);
    out.append(&obs);
    assert(Seq::<char>::empty() + runtime_text() =~= runtime_text());
    out
}

/// A QUIC front that terminates and relays raw streams to one QUIC backend,
/// whose certificate authority is pinned.
pub open spec fn quic_mode_b_text(
    listener: Seq<char>,
    backend: Seq<char>,
    backend_sni: Seq<char>,
    metrics: Seq<char>,
    front_certs: Certs,
    retry_secret: Seq<char>,
    backend_ca: Seq<char>,
    dgram_queue_cap: u64,
    max_relay_streams: u64,
) -> Seq<char> {
    runtime_text()
        + "[[listeners]]\naddress = \""@
        + listener
        + "\"\nprotocol = \"quic\"\n\n[listeners.quic]\ncert_path = \""@
        + front_certs.cert@
        + "\"\nkey_path = \""@
        + front_certs.key@
        + "\"\nretry_secret_path = \""@
        + retry_secret
        + "\"\n\n[listeners.quic.raw_proxy]\nbackend_addr = \""@
        + backend
        + "\"\nsni = \""@
        + backend_sni
        + "\"\nbackend_ca_path = \""@
        + backend_ca
        + "\"\ndgram_queue_cap = "@
        + decimal(dgram_queue_cap as nat)
        + "\nmax_relay_streams = "@
        + decimal(max_relay_streams as nat)
        + "\n\n"@
        + observability_text(metrics)
}

/// A QUIC front that terminates and relays raw streams to one QUIC backend,
/// whose certificate authority is pinned.
pub fn quic_mode_b(
    listener: &str,
    backend: &str,
    backend_sni: &str,
    metrics: &str,
    front_certs: &Certs,
    retry_secret: &str,
    backend_ca: &str,
    dgram_queue_cap: u64,
    max_relay_streams: u64,
) -> (out: String)
    ensures
        out@ == quic_mode_b_text(
            listener@,
            backend@,
            backend_sni@,
            metrics@,
            *front_certs,
            retry_secret@,
            backend_ca@,
            dgram_queue_cap,
            max_relay_streams,
        ),
{
    let mut out = String::new();
    out.append(runtime_block());
    out.append("[[listeners]]\naddress = \"");
    out.append(listener);
    out.append("\"\nprotocol = \"quic\"\n\n[listeners.quic]\ncert_path = \"");
    out.append(&front_certs.cert);
    out.append("\"\nkey_path = \"");
    out.append(&front_certs.key);
    out.append("\"\nretry_secret_path = \"");
    out.append(retry_secret);
    out.append("\"\n\n[listeners.quic.raw_proxy]\nbackend_addr = \"");
    out.append(backend);
    out.append("\"\nsni = \"");
    out.append(backend_sni);
    out.append("\"\nbackend_ca_path = \"");
    out.append(backend_ca);
    out.append("\"\ndgram_queue_cap = ");
    push_decimal(&mut out, dgram_queue_cap);
    out.append("\nmax_relay_streams = ");
    push_decimal(&mut out, max_relay_streams);
    out.append("\n\n");
    let obs = observability_block(metrics);
    out.append(&obs);
    assert(Seq::<char>::empty() + runtime_text() =~= runtime_text());
    out
}

/// A QUIC front that terminates HTTP/3, with no raw proxy and no backend.
pub open spec fn quic_h3_terminate_text(
    listener: Seq<char>,
    metrics: Seq<char>,
    front_certs: Certs,
    retry_secret: Seq<char>,
) -> Seq<char> {
    runtime_text()
        + "[[listeners]]\naddress = \""@
        + listener
        + "\"\nprotocol = \"quic\"\n\n[listeners.quic]\ncert_path = \""@
        + front_certs.cert@
        + "\"\nkey_path = \""@
        + front_certs.key@
        + "\"\nretry_secret_path = \""@
        + retry_secret
        + "\"\n\n"@
        + observability_text(metrics)
}

/// A QUIC front that terminates HTTP/3, with no raw proxy and no backend.
pub fn quic_h3_terminate(
    listener: &str,
    metrics: &str,
    front_certs: &Certs,
    retry_secret: &str,
) -> (out: String)
    ensures
        out@ == quic_h3_terminate_text(listener@, metrics@, *front_certs, retry_secret@),
{
    let mut out = String::new();
    out.append(runtime_block());
    out.append("[[listeners]]\naddress = \"");
    out.append(listener);
    out.append("\"\nprotocol = \"quic\"\n\n[listeners.quic]\ncert_path = \"");
    out.append(&front_certs.cert);
    out.append("\"\nkey_path = \"");
    out.append(&front_certs.key);
    out.append("\"\nretry_secret_path = \"");
    out.append(retry_secret);
    out.append("\"\n\n");
    let obs = observability_block(metrics);
    out.append(&obs);
    assert(Seq::<char>::empty() + runtime_text() =~= runtime_text());
    out
}

/// A QUIC front that terminates HTTP/3 with extended CONNECT opted in, and an
/// HTTP/1 backend.
pub open spec fn quic_h3_terminate_ws_text(
    listener: Seq<char>,
    backend: Seq<char>,
    metrics: Seq<char>,
    front_certs: Certs,
    retry_secret: Seq<char>,
    idle_timeout_seconds: u64,
    read_frame_timeout_seconds: u64,
) -> Seq<char> {
    runtime_text()
        + "[[listeners]]\naddress = \""@
        + listener
        + "\"\nprotocol = \"quic\"\n\n[listeners.quic]\ncert_path = \""@
        + front_certs.cert@
        + "\"\nkey_path = \""@
        + front_certs.key@
        + "\"\nretry_secret_path = \""@
        + retry_secret
        + "\"\n\n[listeners.websocket]\nenabled = true\nh3_extended_connect = true\nidle_timeout_seconds = "@
        + decimal(idle_timeout_seconds as nat)
        + "\nread_frame_timeout_seconds = "@
        + decimal(read_frame_timeout_seconds as nat)
        + "\n\n[[listeners.backends]]\naddress = \""@
        + backend
        + "\"\nprotocol = \"h1\"\nweight = 1\n\n"@
        + observability_text(metrics)
}

/// A QUIC front that terminates HTTP/3 with extended CONNECT opted in, and an
/// HTTP/1 backend.
pub fn quic_h3_terminate_ws(
    listener: &str,
    backend: &str,
    metrics: &str,
    front_certs: &Certs,
    retry_secret: &str,
    idle_timeout_seconds: u64,
    read_frame_timeout_seconds: u64,
) -> (out: String)
    ensures
        out@ == quic_h3_terminate_ws_text(
            listener@,
            backend@,
            metrics@,
            *front_certs,
            retry_secret@,
            idle_timeout_seconds,
            read_frame_timeout_seconds,
        ),
{
    let mut out = String::new();
    out.append(runtime_block());
    out.append("[[listeners]]\naddress = \"");
    out.append(listener);
    out.append("\"\nprotocol = \"quic\"\n\n[listeners.quic]\ncert_path = \"");
    out.append(&front_certs.cert);
    out.append("\"\nkey_path = \"");
    out.append(&front_certs.key);
    out.append("\"\nretry_secret_path = \"");
    out.append(retry_secret);
    out.append("\"\n\n[listeners.websocket]\nenabled = true\nh3_extended_connect = true\nidle_timeout_seconds = ");
    push_decimal(&mut out, idle_timeout_seconds);
    out.append("\nread_frame_timeout_seconds = ");
    push_decimal(&mut out, read_frame_timeout_seconds);
    out.append("\n\n[[listeners.backends]]\naddress = \"");
    out.append(backend);
    out.append("\"\nprotocol = \"h1\"\nweight = 1\n\n");
    let obs = observability_block(metrics);
    out.append(&obs);
    assert(Seq::<char>::empty() + runtime_text() =~= runtime_text());
    out
}

/// A QUIC front that terminates HTTP/3, with an HTTP/2 backend.
pub open spec fn quic_h3_terminate_h2_text(
    listener: Seq<char>,
    backend: Seq<char>,
    metrics: Seq<char>,
    front_certs: Certs,
    retry_secret: Seq<char>,
) -> Seq<char> {
    runtime_text()
        + "[[listeners]]\naddress = \""@
        + listener
        + "\"\nprotocol = \"quic\"\n\n[listeners.quic]\ncert_path = \""@
        + front_certs.cert@
        + "\"\nkey_path = \""@
        + front_certs.key@
        + "\"\nretry_secret_path = \""@
        + retry_secret
        + "\"\n\n[[listeners.backends]]\naddress = \""@
        + backend
        + "\"\nprotocol = \"h2\"\nweight = 1\n\n"@
        + observability_text(metrics)
}

/// A QUIC front that terminates HTTP/3, with an HTTP/2 backend.
pub fn quic_h3_terminate_h2(
    listener: &str,
    backend: &str,
    metrics: &str,
    front_certs: &Certs,
    retry_secret: &str,
) -> (out: String)
    ensures
        out@ == quic_h3_terminate_h2_text(
            listener@,
            backend@,
            metrics@,
            *front_certs,
            retry_secret@,
        ),
{
    let mut out = String::new();
    out.append(runtime_block());
    out.append("[[listeners]]\naddress = \"");
    out.append(listener);
    out.append("\"\nprotocol = \"quic\"\n\n[listeners.quic]\ncert_path = \"");
    out.append(&front_certs.cert);
    out.append("\"\nkey_path = \"");
    out.append(&front_certs.key);
    out.append("\"\nretry_secret_path = \"");
    out.append(retry_secret);
    out.append("\"\n\n[[listeners.backends]]\naddress = \"");
    out.append(backend);
    out.append("\"\nprotocol = \"h2\"\nweight = 1\n\n");
    let obs = observability_block(metrics);
    out.append(&obs);
    assert(Seq::<char>::empty() + runtime_text() =~= runtime_text());
    out
}

/// QUIC passthrough: no listener, and the gateway never mints a Retry.
pub open spec fn passthrough_mode_a_text(
    bind: Seq<char>,
    backend: Seq<char>,
    metrics: Seq<char>,
    retry_secret: Seq<char>,
    max_quic_connections: u64,
    flow_idle_timeout_ms: u64,
) -> Seq<char> {
    runtime_text()
        + "[passthrough]\nbind_addr = \""@
        + bind
        + "\"\nbackends = [\""@
        + backend
        + "\"]\nretry_secret_path = \""@
        + retry_secret
        + "\"\nmax_quic_connections = "@
        + decimal(max_quic_connections as nat)
        + "\nmint_retry = false\nflow_idle_timeout_ms = "@
        + decimal(flow_idle_timeout_ms as nat)
        + "\n\n"@
        + observability_text(metrics)
}

/// QUIC passthrough: no listener, and the gateway never mints a Retry.
pub fn passthrough_mode_a(
    bind: &str,
    backend: &str,
    metrics: &str,
    retry_secret: &str,
    max_quic_connections: u64,
    flow_idle_timeout_ms: u64,
) -> (out: String)
    ensures
        out@ == passthrough_mode_a_text(
            bind@,
            backend@,
            metrics@,
            retry_secret@,
            max_quic_connections,
            flow_idle_timeout_ms,
        ),
{
    let mut out = String::new();
    out.append(runtime_block());
    out.append("[passthrough]\nbind_addr = \"");
    out.append(bind);
    out.append("\"\nbackends = [\"");
    out.append(backend);
    out.append("\"]\nretry_secret_path = \"");
    out.append(retry_secret);
    out.append("\"\nmax_quic_connections = ");
    push_decimal(&mut out, max_quic_connections);
    out.append("\nmint_retry = false\nflow_idle_timeout_ms = ");
    push_decimal(&mut out, flow_idle_timeout_ms);
    out.append("\n\n");
    let obs = observability_block(metrics);
    out.append(&obs);
    assert(Seq::<char>::empty() + runtime_text() =~= runtime_text());
    out
}

/// What the configuration of a run is made from. Certificates that the run
/// does without have empty paths.
#[derive(Debug)]
pub struct FrontParts {
    pub listener: String,
    pub backend: String,
    pub metrics: String,
    /// The certificate that the gateway shows.
    pub front: Certs,
    /// The certificate that a QUIC backend shows.
    pub far: Certs,
    pub retry_secret: String,
    pub idle_timeout_seconds: u64,
    pub read_frame_timeout_seconds: u64,
    pub flow_idle_timeout_ms: u64,
}

/// Which certificates a run needs.
#[derive(Debug, Clone, Copy, PartialEq, Eq, Structural)]
pub struct CertNeeds {
    /// One for the gateway.
    pub front: bool,
    /// One for a QUIC backend.
    pub far: bool,
}

impl CertNeeds {
    /// The authority that clients of the run trust: the one of the gateway, or
    /// of the backend where the gateway shows no certificate.
    pub fn client_ca(&self, parts: &FrontParts) -> (r: String)
        ensures
            r@ == if self.front {
                parts.front.ca@
            } else if self.far {
                parts.far.ca@
            } else {
                Seq::empty()
            },
    {
        if self.front {
            parts.front.ca.clone()
        } else if self.far {
            parts.far.ca.clone()
        } else {
            let none = String::new();
            assert(none@ =~= Seq::empty());
            none
        }
    }
}

/// Paths to no certificate.
pub fn no_certs() -> (r: Certs)
    ensures
        r.cert@.len() == 0,
        r.key@.len() == 0,
        r.ca@.len() == 0,
{
    Certs { cert: String::new(), key: String::new(), ca: String::new() }
}

// ---------------------------------------------------------------------------
// Laws
// ---------------------------------------------------------------------------

/// A name below a directory: behind one slash, which is not doubled; below no
/// directory the name itself.
pub proof fn law_join(dir: &str, name: &str, out: String)
    requires
        call_ensures(join, (dir, name), out),
    ensures
        dir@.len() == 0 ==> out@ == name@,
        dir@.len() > 0 && dir@.last() == '/' ==> out@ == dir@ + name@,
        dir@.len() > 0 && dir@.last() != '/' ==> out@ == dir@ + seq!['/'] + name@,
{
    reveal_strlit("/");
    assert("/"@ =~= seq!['/']);
}

/// What a certificate of a run is: it names the loopback address, `localhost` and
/// the name that clients ask for, is its own authority and good for servers; it
/// is kept below its directory in three files, the authority in one of its own.
pub proof fn law_certificate(
    dir: &str,
    sni: &str,
    t: CertificateTerms,
    p: Certs,
    pair: Result<(String, String), String>,
    m: Result<Material, String>,
    cert: String,
    key: String,
    ca: String,
)
    requires
        call_ensures(certificate_terms, (sni,), t),
        call_ensures(certificate_paths, (dir,), p),
        call_ensures(material, (dir, pair), m),
        call_ensures(join, (dir, "cert.pem"), cert),
        call_ensures(join, (dir, "key.pem"), key),
        call_ensures(join, (dir, "ca.pem"), ca),
    ensures
        t.names@.len() == 3,
        t.names@[0]@ == "127.0.0.1"@ && t.names@[1]@ == "localhost"@ && t.names@[2]@ == sni@,
        t.authority == Authority::Own,
        t.usage == KeyUse::Server,
        p.cert@ == cert@ && p.key@ == key@ && p.ca@ == ca@,
        m is Ok <==> pair is Ok,
        pair matches Err(e) ==> m == Err::<Material, String>(e),
        pair matches Ok(made) ==> {
            let got = m->Ok_0;
            &&& got.cert_pem@ == made.0@
            &&& got.key_pem@ == made.1@
            &&& got.paths.cert@ == cert@
            &&& got.paths.key@ == key@
            &&& got.paths.ca@ == ca@
        },
{
    let n = texts(t.names@);
    assert(n.len() == t.names@.len());
    assert(n[0] == t.names@[0]@ && n[1] == t.names@[1]@ && n[2] == t.names@[2]@);
}

/// Which authority clients trust: that of the front where it has a certificate,
/// else that of the far end where that has one, else none.
pub proof fn law_client_ca(needs: CertNeeds, parts: FrontParts, r: String)
    requires
        call_ensures(CertNeeds::client_ca, (&needs, &parts), r),
    ensures
        needs.front ==> r@ == parts.front.ca@,
        !needs.front && needs.far ==> r@ == parts.far.ca@,
        !needs.front && !needs.far ==> r@.len() == 0,
{
}

} // verus!
