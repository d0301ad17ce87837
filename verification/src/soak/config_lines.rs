//! What each generated configuration says, line by line.

use vstd::prelude::*;
use crate::soak::config_gen::{
    h1_front, h1_front_ws, h1s_front, h1s_front_ws, passthrough_mode_a, quic_h3_terminate,
    quic_h3_terminate_h2, quic_h3_terminate_ws, quic_mode_b, Certs,
};
use crate::text::decimal;

verus! {

/// The end of a line.
pub open spec fn end() -> Seq<char> {
    seq!['\n']
}

/// A line as a text.
pub open spec fn row(line: Seq<char>) -> Seq<char> {
    line + end()
}

broadcast proof fn lemma_regroup(a: Seq<char>, b: Seq<char>, c: Seq<char>)
    ensures
        #[trigger] (a + (b + c)) == a + b + c,
{
    assert(a + (b + c) =~= a + b + c);
}

broadcast proof fn lemma_blank(a: Seq<char>)
    ensures
        #[trigger] (a + ""@) == a,
{
    reveal_strlit("");
    assert(a + ""@ =~= a);
}

/// The pieces of the texts between the parts of a configuration, line by line.
proof fn lemma_pieces()
    ensures
        "[runtime]\ndrain_timeout_ms = 5000\nreadiness_settle_ms = 100\n\n"@ == "[runtime]"@ + end() + "drain_timeout_ms = 5000"@ + end() + "readiness_settle_ms = 100"@ + end() + end(),
        "[[listeners]]\naddress = \""@ == "[[listeners]]"@ + end() + "address = \""@,
        "\"\nprotocol = \"h1\"\n\n[[listeners.backends]]\naddress = \""@ == "\""@ + end() + "protocol = \"h1\""@ + end() + end() + "[[listeners.backends]]"@ + end() + "address = \""@,
        "\"\nprotocol = \""@ == "\""@ + end() + "protocol = \""@,
        "\"\nweight = 1\n\n"@ == "\""@ + end() + "weight = 1"@ + end() + end(),
        "[observability]\nmetrics_bind = \""@ == "[observability]"@ + end() + "metrics_bind = \""@,
        "\"\n"@ == "\""@ + end(),
        "\"\nprotocol = \"h1\"\n\n[listeners.websocket]\nenabled = true\nidle_timeout_seconds = "@ == "\""@ + end() + "protocol = \"h1\""@ + end() + end() + "[listeners.websocket]"@ + end() + "enabled = true"@ + end() + "idle_timeout_seconds = "@,
        "\nread_frame_timeout_seconds = "@ == end() + "read_frame_timeout_seconds = "@,
        "\n\n[[listeners.backends]]\naddress = \""@ == end() + end() + "[[listeners.backends]]"@ + end() + "address = \""@,
        "\"\nprotocol = \"h1\"\nweight = 1\n\n"@ == "\""@ + end() + "protocol = \"h1\""@ + end() + "weight = 1"@ + end() + end(),
        "\"\nprotocol = \"h1s\"\n\n[listeners.tls]\ncert_path = \""@ == "\""@ + end() + "protocol = \"h1s\""@ + end() + end() + "[listeners.tls]"@ + end() + "cert_path = \""@,
        "\"\nkey_path = \""@ == "\""@ + end() + "key_path = \""@,
        "\"\n\n[[listeners.backends]]\naddress = \""@ == "\""@ + end() + end() + "[[listeners.backends]]"@ + end() + "address = \""@,
        "\"\n\n[listeners.websocket]\nenabled = true\nh2_extended_connect = true\nidle_timeout_seconds = "@ == "\""@ + end() + end() + "[listeners.websocket]"@ + end() + "enabled = true"@ + end() + "h2_extended_connect = true"@ + end() + "idle_timeout_seconds = "@,
        "\"\nprotocol = \"quic\"\n\n[listeners.quic]\ncert_path = \""@ == "\""@ + end() + "protocol = \"quic\""@ + end() + end() + "[listeners.quic]"@ + end() + "cert_path = \""@,
        "\"\nretry_secret_path = \""@ == "\""@ + end() + "retry_secret_path = \""@,
        "\"\n\n[listeners.quic.raw_proxy]\nbackend_addr = \""@ == "\""@ + end() + end() + "[listeners.quic.raw_proxy]"@ + end() + "backend_addr = \""@,
        "\"\nsni = \""@ == "\""@ + end() + "sni = \""@,
        "\"\nbackend_ca_path = \""@ == "\""@ + end() + "backend_ca_path = \""@,
        "\"\ndgram_queue_cap = "@ == "\""@ + end() + "dgram_queue_cap = "@,
        "\nmax_relay_streams = "@ == end() + "max_relay_streams = "@,
        "\n\n"@ == end() + end(),
        "\"\n\n"@ == "\""@ + end() + end(),
        "\"\n\n[listeners.websocket]\nenabled = true\nh3_extended_connect = true\nidle_timeout_seconds = "@ == "\""@ + end() + end() + "[listeners.websocket]"@ + end() + "enabled = true"@ + end() + "h3_extended_connect = true"@ + end() + "idle_timeout_seconds = "@,
        "\"\nprotocol = \"h2\"\nweight = 1\n\n"@ == "\""@ + end() + "protocol = \"h2\""@ + end() + "weight = 1"@ + end() + end(),
        "[passthrough]\nbind_addr = \""@ == "[passthrough]"@ + end() + "bind_addr = \""@,
        "\"\nbackends = [\""@ == "\""@ + end() + "backends = [\""@,
        "\"]\nretry_secret_path = \""@ == "\"]"@ + end() + "retry_secret_path = \""@,
        "\"\nmax_quic_connections = "@ == "\""@ + end() + "max_quic_connections = "@,
        "\nmint_retry = false\nflow_idle_timeout_ms = "@ == end() + "mint_retry = false"@ + end() + "flow_idle_timeout_ms = "@,
{
    assert("[runtime]\ndrain_timeout_ms = 5000\nreadiness_settle_ms = 100\n\n"@ == "[runtime]"@ + end() + "drain_timeout_ms = 5000"@ + end() + "readiness_settle_ms = 100"@ + end() + end()) by {
        reveal_strlit("[runtime]\ndrain_timeout_ms = 5000\nreadiness_settle_ms = 100\n\n");
        reveal_strlit("[runtime]");
        reveal_strlit("drain_timeout_ms = 5000");
        reveal_strlit("readiness_settle_ms = 100");
        assert("[runtime]\ndrain_timeout_ms = 5000\nreadiness_settle_ms = 100\n\n"@ =~= "[runtime]"@ + end() + "drain_timeout_ms = 5000"@ + end() + "readiness_settle_ms = 100"@ + end() + end());
    }
    assert("[[listeners]]\naddress = \""@ == "[[listeners]]"@ + end() + "address = \""@) by {
        reveal_strlit("[[listeners]]\naddress = \"");
        reveal_strlit("[[listeners]]");
        reveal_strlit("address = \"");
        assert("[[listeners]]\naddress = \""@ =~= "[[listeners]]"@ + end() + "address = \""@);
    }
    assert("\"\nprotocol = \"h1\"\n\n[[listeners.backends]]\naddress = \""@ == "\""@ + end() + "protocol = \"h1\""@ + end() + end() + "[[listeners.backends]]"@ + end() + "address = \""@) by {
        reveal_strlit("\"\nprotocol = \"h1\"\n\n[[listeners.backends]]\naddress = \"");
        reveal_strlit("\"");
        reveal_strlit("protocol = \"h1\"");
        reveal_strlit("[[listeners.backends]]");
        reveal_strlit("address = \"");
        assert("\"\nprotocol = \"h1\"\n\n[[listeners.backends]]\naddress = \""@ =~= "\""@ + end() + "protocol = \"h1\""@ + end() + end() + "[[listeners.backends]]"@ + end() + "address = \""@);
    }
    assert("\"\nprotocol = \""@ == "\""@ + end() + "protocol = \""@) by {
        reveal_strlit("\"\nprotocol = \"");
        reveal_strlit("\"");
        reveal_strlit("protocol = \"");
        assert("\"\nprotocol = \""@ =~= "\""@ + end() + "protocol = \""@);
    }
    assert("\"\nweight = 1\n\n"@ == "\""@ + end() + "weight = 1"@ + end() + end()) by {
        reveal_strlit("\"\nweight = 1\n\n");
        reveal_strlit("\"");
        reveal_strlit("weight = 1");
        assert("\"\nweight = 1\n\n"@ =~= "\""@ + end() + "weight = 1"@ + end() + end());
    }
    assert("[observability]\nmetrics_bind = \""@ == "[observability]"@ + end() + "metrics_bind = \""@) by {
        reveal_strlit("[observability]\nmetrics_bind = \"");
        reveal_strlit("[observability]");
        reveal_strlit("metrics_bind = \"");
        assert("[observability]\nmetrics_bind = \""@ =~= "[observability]"@ + end() + "metrics_bind = \""@);
    }
    assert("\"\n"@ == "\""@ + end()) by {
        reveal_strlit("\"\n");
        reveal_strlit("\"");
        assert("\"\n"@ =~= "\""@ + end());
    }
    assert("\"\nprotocol = \"h1\"\n\n[listeners.websocket]\nenabled = true\nidle_timeout_seconds = "@ == "\""@ + end() + "protocol = \"h1\""@ + end() + end() + "[listeners.websocket]"@ + end() + "enabled = true"@ + end() + "idle_timeout_seconds = "@) by {
        reveal_strlit("\"\nprotocol = \"h1\"\n\n[listeners.websocket]\nenabled = true\nidle_timeout_seconds = ");
        reveal_strlit("\"");
        reveal_strlit("protocol = \"h1\"");
        reveal_strlit("[listeners.websocket]");
        reveal_strlit("enabled = true");
        reveal_strlit("idle_timeout_seconds = ");
        assert("\"\nprotocol = \"h1\"\n\n[listeners.websocket]\nenabled = true\nidle_timeout_seconds = "@ =~= "\""@ + end() + "protocol = \"h1\""@ + end() + end() + "[listeners.websocket]"@ + end() + "enabled = true"@ + end() + "idle_timeout_seconds = "@);
    }
    assert("\nread_frame_timeout_seconds = "@ == end() + "read_frame_timeout_seconds = "@) by {
        reveal_strlit("\nread_frame_timeout_seconds = ");
        reveal_strlit("read_frame_timeout_seconds = ");
        assert("\nread_frame_timeout_seconds = "@ =~= end() + "read_frame_timeout_seconds = "@);
    }
    assert("\n\n[[listeners.backends]]\naddress = \""@ == end() + end() + "[[listeners.backends]]"@ + end() + "address = \""@) by {
        reveal_strlit("\n\n[[listeners.backends]]\naddress = \"");
        reveal_strlit("[[listeners.backends]]");
        reveal_strlit("address = \"");
        assert("\n\n[[listeners.backends]]\naddress = \""@ =~= end() + end() + "[[listeners.backends]]"@ + end() + "address = \""@);
    }
    assert("\"\nprotocol = \"h1\"\nweight = 1\n\n"@ == "\""@ + end() + "protocol = \"h1\""@ + end() + "weight = 1"@ + end() + end()) by {
        reveal_strlit("\"\nprotocol = \"h1\"\nweight = 1\n\n");
        reveal_strlit("\"");
        reveal_strlit("protocol = \"h1\"");
        reveal_strlit("weight = 1");
        assert("\"\nprotocol = \"h1\"\nweight = 1\n\n"@ =~= "\""@ + end() + "protocol = \"h1\""@ + end() + "weight = 1"@ + end() + end());
    }
    assert("\"\nprotocol = \"h1s\"\n\n[listeners.tls]\ncert_path = \""@ == "\""@ + end() + "protocol = \"h1s\""@ + end() + end() + "[listeners.tls]"@ + end() + "cert_path = \""@) by {
        reveal_strlit("\"\nprotocol = \"h1s\"\n\n[listeners.tls]\ncert_path = \"");
        reveal_strlit("\"");
        reveal_strlit("protocol = \"h1s\"");
        reveal_strlit("[listeners.tls]");
        reveal_strlit("cert_path = \"");
        assert("\"\nprotocol = \"h1s\"\n\n[listeners.tls]\ncert_path = \""@ =~= "\""@ + end() + "protocol = \"h1s\""@ + end() + end() + "[listeners.tls]"@ + end() + "cert_path = \""@);
    }
    assert("\"\nkey_path = \""@ == "\""@ + end() + "key_path = \""@) by {
        reveal_strlit("\"\nkey_path = \"");
        reveal_strlit("\"");
        reveal_strlit("key_path = \"");
        assert("\"\nkey_path = \""@ =~= "\""@ + end() + "key_path = \""@);
    }
    assert("\"\n\n[[listeners.backends]]\naddress = \""@ == "\""@ + end() + end() + "[[listeners.backends]]"@ + end() + "address = \""@) by {
        reveal_strlit("\"\n\n[[listeners.backends]]\naddress = \"");
        reveal_strlit("\"");
        reveal_strlit("[[listeners.backends]]");
        reveal_strlit("address = \"");
        assert("\"\n\n[[listeners.backends]]\naddress = \""@ =~= "\""@ + end() + end() + "[[listeners.backends]]"@ + end() + "address = \""@);
    }
    assert("\"\n\n[listeners.websocket]\nenabled = true\nh2_extended_connect = true\nidle_timeout_seconds = "@ == "\""@ + end() + end() + "[listeners.websocket]"@ + end() + "enabled = true"@ + end() + "h2_extended_connect = true"@ + end() + "idle_timeout_seconds = "@) by {
        reveal_strlit("\"\n\n[listeners.websocket]\nenabled = true\nh2_extended_connect = true\nidle_timeout_seconds = ");
        reveal_strlit("\"");
        reveal_strlit("[listeners.websocket]");
        reveal_strlit("enabled = true");
        reveal_strlit("h2_extended_connect = true");
        reveal_strlit("idle_timeout_seconds = ");
        assert("\"\n\n[listeners.websocket]\nenabled = true\nh2_extended_connect = true\nidle_timeout_seconds = "@ =~= "\""@ + end() + end() + "[listeners.websocket]"@ + end() + "enabled = true"@ + end() + "h2_extended_connect = true"@ + end() + "idle_timeout_seconds = "@);
    }
    assert("\"\nprotocol = \"quic\"\n\n[listeners.quic]\ncert_path = \""@ == "\""@ + end() + "protocol = \"quic\""@ + end() + end() + "[listeners.quic]"@ + end() + "cert_path = \""@) by {
        reveal_strlit("\"\nprotocol = \"quic\"\n\n[listeners.quic]\ncert_path = \"");
        reveal_strlit("\"");
        reveal_strlit("protocol = \"quic\"");
        reveal_strlit("[listeners.quic]");
        reveal_strlit("cert_path = \"");
        assert("\"\nprotocol = \"quic\"\n\n[listeners.quic]\ncert_path = \""@ =~= "\""@ + end() + "protocol = \"quic\""@ + end() + end() + "[listeners.quic]"@ + end() + "cert_path = \""@);
    }
    assert("\"\nretry_secret_path = \""@ == "\""@ + end() + "retry_secret_path = \""@) by {
        reveal_strlit("\"\nretry_secret_path = \"");
        reveal_strlit("\"");
        reveal_strlit("retry_secret_path = \"");
        assert("\"\nretry_secret_path = \""@ =~= "\""@ + end() + "retry_secret_path = \""@);
    }
    assert("\"\n\n[listeners.quic.raw_proxy]\nbackend_addr = \""@ == "\""@ + end() + end() + "[listeners.quic.raw_proxy]"@ + end() + "backend_addr = \""@) by {
        reveal_strlit("\"\n\n[listeners.quic.raw_proxy]\nbackend_addr = \"");
        reveal_strlit("\"");
        reveal_strlit("[listeners.quic.raw_proxy]");
        reveal_strlit("backend_addr = \"");
        assert("\"\n\n[listeners.quic.raw_proxy]\nbackend_addr = \""@ =~= "\""@ + end() + end() + "[listeners.quic.raw_proxy]"@ + end() + "backend_addr = \""@);
    }
    assert("\"\nsni = \""@ == "\""@ + end() + "sni = \""@) by {
        reveal_strlit("\"\nsni = \"");
        reveal_strlit("\"");
        reveal_strlit("sni = \"");
        assert("\"\nsni = \""@ =~= "\""@ + end() + "sni = \""@);
    }
    assert("\"\nbackend_ca_path = \""@ == "\""@ + end() + "backend_ca_path = \""@) by {
        reveal_strlit("\"\nbackend_ca_path = \"");
        reveal_strlit("\"");
        reveal_strlit("backend_ca_path = \"");
        assert("\"\nbackend_ca_path = \""@ =~= "\""@ + end() + "backend_ca_path = \""@);
    }
    assert("\"\ndgram_queue_cap = "@ == "\""@ + end() + "dgram_queue_cap = "@) by {
        reveal_strlit("\"\ndgram_queue_cap = ");
        reveal_strlit("\"");
        reveal_strlit("dgram_queue_cap = ");
        assert("\"\ndgram_queue_cap = "@ =~= "\""@ + end() + "dgram_queue_cap = "@);
    }
    assert("\nmax_relay_streams = "@ == end() + "max_relay_streams = "@) by {
        reveal_strlit("\nmax_relay_streams = ");
        reveal_strlit("max_relay_streams = ");
        assert("\nmax_relay_streams = "@ =~= end() + "max_relay_streams = "@);
    }
    assert("\n\n"@ == end() + end()) by {
        reveal_strlit("\n\n");
        assert("\n\n"@ =~= end() + end());
    }
    assert("\"\n\n"@ == "\""@ + end() + end()) by {
        reveal_strlit("\"\n\n");
        reveal_strlit("\"");
        assert("\"\n\n"@ =~= "\""@ + end() + end());
    }
    assert("\"\n\n[listeners.websocket]\nenabled = true\nh3_extended_connect = true\nidle_timeout_seconds = "@ == "\""@ + end() + end() + "[listeners.websocket]"@ + end() + "enabled = true"@ + end() + "h3_extended_connect = true"@ + end() + "idle_timeout_seconds = "@) by {
        reveal_strlit("\"\n\n[listeners.websocket]\nenabled = true\nh3_extended_connect = true\nidle_timeout_seconds = ");
        reveal_strlit("\"");
        reveal_strlit("[listeners.websocket]");
        reveal_strlit("enabled = true");
        reveal_strlit("h3_extended_connect = true");
        reveal_strlit("idle_timeout_seconds = ");
        assert("\"\n\n[listeners.websocket]\nenabled = true\nh3_extended_connect = true\nidle_timeout_seconds = "@ =~= "\""@ + end() + end() + "[listeners.websocket]"@ + end() + "enabled = true"@ + end() + "h3_extended_connect = true"@ + end() + "idle_timeout_seconds = "@);
    }
    assert("\"\nprotocol = \"h2\"\nweight = 1\n\n"@ == "\""@ + end() + "protocol = \"h2\""@ + end() + "weight = 1"@ + end() + end()) by {
        reveal_strlit("\"\nprotocol = \"h2\"\nweight = 1\n\n");
        reveal_strlit("\"");
        reveal_strlit("protocol = \"h2\"");
        reveal_strlit("weight = 1");
        assert("\"\nprotocol = \"h2\"\nweight = 1\n\n"@ =~= "\""@ + end() + "protocol = \"h2\""@ + end() + "weight = 1"@ + end() + end());
    }
    assert("[passthrough]\nbind_addr = \""@ == "[passthrough]"@ + end() + "bind_addr = \""@) by {
        reveal_strlit("[passthrough]\nbind_addr = \"");
        reveal_strlit("[passthrough]");
        reveal_strlit("bind_addr = \"");
        assert("[passthrough]\nbind_addr = \""@ =~= "[passthrough]"@ + end() + "bind_addr = \""@);
    }
    assert("\"\nbackends = [\""@ == "\""@ + end() + "backends = [\""@) by {
        reveal_strlit("\"\nbackends = [\"");
        reveal_strlit("\"");
        reveal_strlit("backends = [\"");
        assert("\"\nbackends = [\""@ =~= "\""@ + end() + "backends = [\""@);
    }
    assert("\"]\nretry_secret_path = \""@ == "\"]"@ + end() + "retry_secret_path = \""@) by {
        reveal_strlit("\"]\nretry_secret_path = \"");
        reveal_strlit("\"]");
        reveal_strlit("retry_secret_path = \"");
        assert("\"]\nretry_secret_path = \""@ =~= "\"]"@ + end() + "retry_secret_path = \""@);
    }
    assert("\"\nmax_quic_connections = "@ == "\""@ + end() + "max_quic_connections = "@) by {
        reveal_strlit("\"\nmax_quic_connections = ");
        reveal_strlit("\"");
        reveal_strlit("max_quic_connections = ");
        assert("\"\nmax_quic_connections = "@ =~= "\""@ + end() + "max_quic_connections = "@);
    }
    assert("\nmint_retry = false\nflow_idle_timeout_ms = "@ == end() + "mint_retry = false"@ + end() + "flow_idle_timeout_ms = "@) by {
        reveal_strlit("\nmint_retry = false\nflow_idle_timeout_ms = ");
        reveal_strlit("mint_retry = false");
        reveal_strlit("flow_idle_timeout_ms = ");
        assert("\nmint_retry = false\nflow_idle_timeout_ms = "@ =~= end() + "mint_retry = false"@ + end() + "flow_idle_timeout_ms = "@);
    }
}

/// A plain HTTP/1.1 front with one backend, line by line.
pub proof fn law_h1_front_lines(
    listener: &str,
    backend: &str,
    backend_proto: &str,
    metrics: &str,
    out: String,
)
    requires
        call_ensures(h1_front, (listener, backend, backend_proto, metrics), out),
    ensures
        out@ ==
            row("[runtime]"@)
            + row("drain_timeout_ms = 5000"@)
            + row("readiness_settle_ms = 100"@)
            + row(""@)
            + row("[[listeners]]"@)
            + row("address = \""@ + listener@ + "\""@)
            + row("protocol = \"h1\""@)
            + row(""@)
            + row("[[listeners.backends]]"@)
            + row("address = \""@ + backend@ + "\""@)
            + row("protocol = \""@ + backend_proto@ + "\""@)
            + row("weight = 1"@)
            + row(""@)
            + row("[observability]"@)
            + row("metrics_bind = \""@ + metrics@ + "\""@),
{
    broadcast use lemma_regroup, lemma_blank;

    lemma_pieces();
}

/// A plain HTTP/1.1 front that takes WebSockets, line by line.
pub proof fn law_h1_front_ws_lines(
    listener: &str,
    backend: &str,
    metrics: &str,
    idle_timeout_seconds: u64,
    read_frame_timeout_seconds: u64,
    out: String,
)
    requires
        call_ensures(h1_front_ws, (listener, backend, metrics, idle_timeout_seconds, read_frame_timeout_seconds), out),
    ensures
        out@ ==
            row("[runtime]"@)
            + row("drain_timeout_ms = 5000"@)
            + row("readiness_settle_ms = 100"@)
            + row(""@)
            + row("[[listeners]]"@)
            + row("address = \""@ + listener@ + "\""@)
            + row("protocol = \"h1\""@)
            + row(""@)
            + row("[listeners.websocket]"@)
            + row("enabled = true"@)
            + row("idle_timeout_seconds = "@ + decimal(idle_timeout_seconds as nat))
            + row("read_frame_timeout_seconds = "@ + decimal(read_frame_timeout_seconds as nat))
            + row(""@)
            + row("[[listeners.backends]]"@)
            + row("address = \""@ + backend@ + "\""@)
            + row("protocol = \"h1\""@)
            + row("weight = 1"@)
            + row(""@)
            + row("[observability]"@)
            + row("metrics_bind = \""@ + metrics@ + "\""@),
{
    broadcast use lemma_regroup, lemma_blank;

    lemma_pieces();
}

/// A front behind TLS with one backend, line by line.
pub proof fn law_h1s_front_lines(
    listener: &str,
    backend: &str,
    backend_proto: &str,
    metrics: &str,
    certs: &Certs,
    out: String,
)
    requires
        call_ensures(h1s_front, (listener, backend, backend_proto, metrics, certs), out),
    ensures
        out@ ==
            row("[runtime]"@)
            + row("drain_timeout_ms = 5000"@)
            + row("readiness_settle_ms = 100"@)
            + row(""@)
            + row("[[listeners]]"@)
            + row("address = \""@ + listener@ + "\""@)
            + row("protocol = \"h1s\""@)
            + row(""@)
            + row("[listeners.tls]"@)
            + row("cert_path = \""@ + certs.cert@ + "\""@)
            + row("key_path = \""@ + certs.key@ + "\""@)
            + row(""@)
            + row("[[listeners.backends]]"@)
            + row("address = \""@ + backend@ + "\""@)
            + row("protocol = \""@ + backend_proto@ + "\""@)
            + row("weight = 1"@)
            + row(""@)
            + row("[observability]"@)
            + row("metrics_bind = \""@ + metrics@ + "\""@),
{
    broadcast use lemma_regroup, lemma_blank;

    lemma_pieces();
}

/// A front behind TLS that takes WebSockets over HTTP/2 too, line by line.
pub proof fn law_h1s_front_ws_lines(
    listener: &str,
    backend: &str,
    metrics: &str,
    certs: &Certs,
    idle_timeout_seconds: u64,
    read_frame_timeout_seconds: u64,
    out: String,
)
    requires
        call_ensures(h1s_front_ws, (listener, backend, metrics, certs, idle_timeout_seconds, read_frame_timeout_seconds), out),
    ensures
        out@ ==
            row("[runtime]"@)
            + row("drain_timeout_ms = 5000"@)
            + row("readiness_settle_ms = 100"@)
            + row(""@)
            + row("[[listeners]]"@)
            + row("address = \""@ + listener@ + "\""@)
            + row("protocol = \"h1s\""@)
            + row(""@)
            + row("[listeners.tls]"@)
            + row("cert_path = \""@ + certs.cert@ + "\""@)
            + row("key_path = \""@ + certs.key@ + "\""@)
            + row(""@)
            + row("[listeners.websocket]"@)
            + row("enabled = true"@)
            + row("h2_extended_connect = true"@)
            + row("idle_timeout_seconds = "@ + decimal(idle_timeout_seconds as nat))
            + row("read_frame_timeout_seconds = "@ + decimal(read_frame_timeout_seconds as nat))
            + row(""@)
            + row("[[listeners.backends]]"@)
            + row("address = \""@ + backend@ + "\""@)
            + row("protocol = \"h1\""@)
            + row("weight = 1"@)
            + row(""@)
            + row("[observability]"@)
            + row("metrics_bind = \""@ + metrics@ + "\""@),
{
    broadcast use lemma_regroup, lemma_blank;

    lemma_pieces();
}

/// A QUIC listener that relays to one backend, line by line.
pub proof fn law_quic_mode_b_lines(
    listener: &str,
    backend: &str,
    backend_sni: &str,
    metrics: &str,
    front_certs: &Certs,
    retry_secret: &str,
    backend_ca: &str,
    dgram_queue_cap: u64,
    max_relay_streams: u64,
    out: String,
)
    requires
        call_ensures(quic_mode_b, (listener, backend, backend_sni, metrics, front_certs, retry_secret, backend_ca, dgram_queue_cap, max_relay_streams), out),
    ensures
        out@ ==
            row("[runtime]"@)
            + row("drain_timeout_ms = 5000"@)
            + row("readiness_settle_ms = 100"@)
            + row(""@)
            + row("[[listeners]]"@)
            + row("address = \""@ + listener@ + "\""@)
            + row("protocol = \"quic\""@)
            + row(""@)
            + row("[listeners.quic]"@)
            + row("cert_path = \""@ + front_certs.cert@ + "\""@)
            + row("key_path = \""@ + front_certs.key@ + "\""@)
            + row("retry_secret_path = \""@ + retry_secret@ + "\""@)
            + row(""@)
            + row("[listeners.quic.raw_proxy]"@)
            + row("backend_addr = \""@ + backend@ + "\""@)
            + row("sni = \""@ + backend_sni@ + "\""@)
            + row("backend_ca_path = \""@ + backend_ca@ + "\""@)
            + row("dgram_queue_cap = "@ + decimal(dgram_queue_cap as nat))
            + row("max_relay_streams = "@ + decimal(max_relay_streams as nat))
            + row(""@)
            + row("[observability]"@)
            + row("metrics_bind = \""@ + metrics@ + "\""@),
{
    broadcast use lemma_regroup, lemma_blank;

    lemma_pieces();
}

/// An HTTP/3 front without a backend, line by line.
pub proof fn law_quic_h3_terminate_lines(
    listener: &str,
    metrics: &str,
    front_certs: &Certs,
    retry_secret: &str,
    out: String,
)
    requires
        call_ensures(quic_h3_terminate, (listener, metrics, front_certs, retry_secret), out),
    ensures
        out@ ==
            row("[runtime]"@)
            + row("drain_timeout_ms = 5000"@)
            + row("readiness_settle_ms = 100"@)
            + row(""@)
            + row("[[listeners]]"@)
            + row("address = \""@ + listener@ + "\""@)
            + row("protocol = \"quic\""@)
            + row(""@)
            + row("[listeners.quic]"@)
            + row("cert_path = \""@ + front_certs.cert@ + "\""@)
            + row("key_path = \""@ + front_certs.key@ + "\""@)
            + row("retry_secret_path = \""@ + retry_secret@ + "\""@)
            + row(""@)
            + row("[observability]"@)
            + row("metrics_bind = \""@ + metrics@ + "\""@),
{
    broadcast use lemma_regroup, lemma_blank;

    lemma_pieces();
}

/// An HTTP/3 front that takes WebSockets, line by line.
pub proof fn law_quic_h3_terminate_ws_lines(
    listener: &str,
    backend: &str,
    metrics: &str,
    front_certs: &Certs,
    retry_secret: &str,
    idle_timeout_seconds: u64,
    read_frame_timeout_seconds: u64,
    out: String,
)
    requires
        call_ensures(quic_h3_terminate_ws, (listener, backend, metrics, front_certs, retry_secret, idle_timeout_seconds, read_frame_timeout_seconds), out),
    ensures
        out@ ==
            row("[runtime]"@)
            + row("drain_timeout_ms = 5000"@)
            + row("readiness_settle_ms = 100"@)
            + row(""@)
            + row("[[listeners]]"@)
            + row("address = \""@ + listener@ + "\""@)
            + row("protocol = \"quic\""@)
            + row(""@)
            + row("[listeners.quic]"@)
            + row("cert_path = \""@ + front_certs.cert@ + "\""@)
            + row("key_path = \""@ + front_certs.key@ + "\""@)
            + row("retry_secret_path = \""@ + retry_secret@ + "\""@)
            + row(""@)
            + row("[listeners.websocket]"@)
            + row("enabled = true"@)
            + row("h3_extended_connect = true"@)
            + row("idle_timeout_seconds = "@ + decimal(idle_timeout_seconds as nat))
            + row("read_frame_timeout_seconds = "@ + decimal(read_frame_timeout_seconds as nat))
            + row(""@)
            + row("[[listeners.backends]]"@)
            + row("address = \""@ + backend@ + "\""@)
            + row("protocol = \"h1\""@)
            + row("weight = 1"@)
            + row(""@)
            + row("[observability]"@)
            + row("metrics_bind = \""@ + metrics@ + "\""@),
{
    broadcast use lemma_regroup, lemma_blank;

    lemma_pieces();
}

/// An HTTP/3 front with one backend behind HTTP/2, line by line.
pub proof fn law_quic_h3_terminate_h2_lines(
    listener: &str,
    backend: &str,
    metrics: &str,
    front_certs: &Certs,
    retry_secret: &str,
    out: String,
)
    requires
        call_ensures(quic_h3_terminate_h2, (listener, backend, metrics, front_certs, retry_secret), out),
    ensures
        out@ ==
            row("[runtime]"@)
            + row("drain_timeout_ms = 5000"@)
            + row("readiness_settle_ms = 100"@)
            + row(""@)
            + row("[[listeners]]"@)
            + row("address = \""@ + listener@ + "\""@)
            + row("protocol = \"quic\""@)
            + row(""@)
            + row("[listeners.quic]"@)
            + row("cert_path = \""@ + front_certs.cert@ + "\""@)
            + row("key_path = \""@ + front_certs.key@ + "\""@)
            + row("retry_secret_path = \""@ + retry_secret@ + "\""@)
            + row(""@)
            + row("[[listeners.backends]]"@)
            + row("address = \""@ + backend@ + "\""@)
            + row("protocol = \"h2\""@)
            + row("weight = 1"@)
            + row(""@)
            + row("[observability]"@)
            + row("metrics_bind = \""@ + metrics@ + "\""@),
{
    broadcast use lemma_regroup, lemma_blank;

    lemma_pieces();
}

/// Packets that are passed through to one backend, line by line.
pub proof fn law_passthrough_mode_a_lines(
    bind: &str,
    backend: &str,
    metrics: &str,
    retry_secret: &str,
    max_quic_connections: u64,
    flow_idle_timeout_ms: u64,
    out: String,
)
    requires
        call_ensures(passthrough_mode_a, (bind, backend, metrics, retry_secret, max_quic_connections, flow_idle_timeout_ms), out),
    ensures
        out@ ==
            row("[runtime]"@)
            + row("drain_timeout_ms = 5000"@)
            + row("readiness_settle_ms = 100"@)
            + row(""@)
            + row("[passthrough]"@)
            + row("bind_addr = \""@ + bind@ + "\""@)
            + row("backends = [\""@ + backend@ + "\"]"@)
            + row("retry_secret_path = \""@ + retry_secret@ + "\""@)
            + row("max_quic_connections = "@ + decimal(max_quic_connections as nat))
            + row("mint_retry = false"@)
            + row("flow_idle_timeout_ms = "@ + decimal(flow_idle_timeout_ms as nat))
            + row(""@)
            + row("[observability]"@)
            + row("metrics_bind = \""@ + metrics@ + "\""@),
{
    broadcast use lemma_regroup, lemma_blank;

    lemma_pieces();
}

} // verus!
