//! The parsed configuration, as far as the gateway's decisions read it.

use vstd::prelude::*;

verus! {

/// One backend of a listener.
#[derive(Debug)]
pub struct BackendConfig {
    pub address: String,
    pub protocol: String,
    pub weight: u32,
    pub tls_ca_path: Option<String>,
    pub tls_verify_hostname: Option<String>,
    pub tls_verify_peer: bool,
}

/// TLS termination.
#[derive(Debug)]
pub struct TlsConfig {
    pub cert_path: String,
    pub key_path: String,
    pub ticket_rotation_interval_seconds: u64,
    pub ticket_rotation_overlap_seconds: u64,
}

/// The raw relay of a QUIC listener.
#[derive(Debug)]
pub struct RawQuicProxyConfig {
    pub backend_addr: String,
    pub sni: String,
    pub backend_ca_path: Option<String>,
    pub dgram_queue_cap: usize,
    pub max_relay_streams: usize,
}

/// A QUIC listener.
#[derive(Debug)]
pub struct QuicListenerConfig {
    pub cert_path: String,
    pub key_path: String,
    pub retry_secret_path: String,
    pub max_idle_timeout_ms: u64,
    pub max_recv_udp_payload_size: usize,
    pub raw_proxy: Option<RawQuicProxyConfig>,
}

/// The advertisement of HTTP/3 to other clients.
#[derive(Debug, Clone, Copy, PartialEq, Eq, Structural)]
pub struct AltSvcConfig {
    pub h3_port: u16,
    pub max_age: u32,
}

/// HTTP timeouts, in milliseconds.
#[derive(Debug, Clone, Copy, PartialEq, Eq, Structural)]
pub struct HttpTimeoutsConfig {
    pub header_timeout_ms: u64,
    pub body_timeout_ms: u64,
    pub total_timeout_ms: u64,
    pub head_timeout_ms: u64,
}

/// Overrides of the HTTP/2 limits.
#[derive(Debug, Clone, Copy, PartialEq, Eq, Structural)]
pub struct H2SecurityConfig {
    pub max_pending_accept_reset_streams: Option<usize>,
    pub max_local_error_reset_streams: Option<usize>,
    pub max_concurrent_streams: Option<u32>,
    pub max_header_list_size: Option<u32>,
    pub max_send_buf_size: Option<usize>,
    pub keep_alive_interval_ms: Option<u64>,
    pub keep_alive_timeout_ms: Option<u64>,
    pub initial_stream_window_size: Option<u32>,
    pub initial_connection_window_size: Option<u32>,
}

/// WebSocket relaying.
#[derive(Debug, Clone, Copy, PartialEq, Eq, Structural)]
pub struct WebsocketConfig {
    pub enabled: bool,
    pub h2_extended_connect: bool,
    pub h3_extended_connect: bool,
    pub idle_timeout_seconds: u64,
    pub max_message_size_bytes: usize,
    pub ping_rate_limit_per_window: u32,
    pub ping_rate_limit_window_seconds: u64,
    pub read_frame_timeout_seconds: u64,
}

/// gRPC relaying.
#[derive(Debug, Clone, Copy, PartialEq, Eq, Structural)]
pub struct GrpcListenerConfig {
    pub enabled: bool,
    pub max_deadline_seconds: u64,
    pub health_synthesized: bool,
}

/// One listener.
#[derive(Debug)]
pub struct ListenerConfig {
    pub address: String,
    pub protocol: String,
    pub tls: Option<TlsConfig>,
    pub quic: Option<QuicListenerConfig>,
    pub alt_svc: Option<AltSvcConfig>,
    pub http: Option<HttpTimeoutsConfig>,
    pub h2_security: Option<H2SecurityConfig>,
    pub websocket: Option<WebsocketConfig>,
    pub grpc: Option<GrpcListenerConfig>,
    pub backends: Vec<BackendConfig>,
}

/// Process-wide settings.
#[derive(Debug, Clone, Copy, PartialEq, Eq, Structural)]
pub struct RuntimeConfig {
    pub handshake_timeout_ms: u64,
    pub max_inflight_connections: u32,
    pub connect_timeout_ms: u64,
    pub max_keepalive_requests: u32,
    pub max_requests_per_h3_connection: u32,
    pub per_ip_connection_cap: u32,
    pub drain_timeout_ms: u64,
    pub readiness_settle_ms: u64,
}

impl Clone for BackendConfig {
    fn clone(&self) -> (r: Self)
        ensures
            r == *self,
    {
        BackendConfig {
            address: self.address.clone(),
            protocol: self.protocol.clone(),
            weight: self.weight,
            tls_ca_path: copy_text(&self.tls_ca_path),
            tls_verify_hostname: copy_text(&self.tls_verify_hostname),
            tls_verify_peer: self.tls_verify_peer,
        }
    }
}

/// A copy of an optional text.
pub fn copy_text(text: &Option<String>) -> (r: Option<String>)
    ensures
        r == *text,
{
    match text {
        Some(s) => Some(s.clone()),
        None => None,
    }
}

} // verus!
