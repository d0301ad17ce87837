//! The metric families that the gateway registers before it serves.

use vstd::prelude::*;

verus! {

/// The shape of a metric family.
#[derive(Debug, Clone, Copy, PartialEq, Eq, Structural)]
pub enum Shape {
    Counter,
    Gauge,
    Histogram,
}

/// A metric family.
#[derive(Debug)]
pub struct MetricRow {
    pub shape: Shape,
    pub name: &'static str,
    pub help: &'static str,
    pub labels: Vec<&'static str>,
}

/// Whether a family is the given one.
pub open spec fn is_row(
    row: MetricRow,
    shape: Shape,
    name: Seq<char>,
    help: Seq<char>,
    labels: Seq<Seq<char>>,
) -> bool {
    &&& row.shape == shape
    &&& row.name@ == name
    &&& row.help@ == help
    &&& row.labels@.len() == labels.len()
    &&& forall|i: int| 0 <= i < labels.len() ==> (#[trigger] row.labels@[i])@ == labels[i]
}

fn plain(shape: Shape, name: &'static str, help: &'static str) -> (r: MetricRow)
    ensures
        is_row(r, shape, name@, help@, Seq::empty()),
{
    MetricRow { shape, name, help, labels: Vec::new() }
}

fn labelled(shape: Shape, name: &'static str, help: &'static str, label: &'static str) -> (r: MetricRow)
    ensures
        is_row(r, shape, name@, help@, seq![label@]),
{
    let mut labels: Vec<&'static str> = Vec::new();
    labels.push(label);
    MetricRow { shape, name, help, labels }
}

/// What the accept loops, the pool and the resolver count.
pub fn hotpath_metrics() -> (rows: Vec<MetricRow>)
    ensures
        rows@.len() == 10,
        is_row(
            rows@[0],
            Shape::Counter,
            "pool_acquires_total"@,
            "TcpPool acquire attempts"@,
            Seq::empty(),
        ),
        is_row(
            rows@[1],
            Shape::Counter,
            "pool_probe_failures_total"@,
            "TcpPool probe failures"@,
            Seq::empty(),
        ),
        is_row(
            rows@[2],
            Shape::Counter,
            "dns_cache_hits_total"@,
            "DNS resolver cache hits"@,
            Seq::empty(),
        ),
        is_row(
            rows@[3],
            Shape::Counter,
            "dns_cache_misses_total"@,
            "DNS resolver cache misses"@,
            Seq::empty(),
        ),
        is_row(
            rows@[4],
            Shape::Counter,
            "http_requests_total"@,
            "HTTP requests terminated by the L7 proxy"@,
            seq!["listener"@, "route"@, "version"@, "status_class"@],
        ),
        is_row(
            rows@[5],
            Shape::Histogram,
            "http_request_duration_seconds"@,
            "L7 request duration from accept to response body sent"@,
            seq!["listener"@, "route"@, "version"@],
        ),
        is_row(
            rows@[6],
            Shape::Gauge,
            "pool_idle_gauge"@,
            "TcpPool idle connection count"@,
            Seq::empty(),
        ),
        is_row(
            rows@[7],
            Shape::Counter,
            "accept_shed_total"@,
            "Accepts shed because the per-listener inflight cap was hit"@,
            Seq::empty(),
        ),
        is_row(
            rows@[8],
            Shape::Counter,
            "accept_errors_total"@,
            "accept(2) errors classified by kind (transient backoff vs. fatal)"@,
            seq!["kind"@],
        ),
        is_row(
            rows@[9],
            Shape::Counter,
            "backend_connect_timeout_total"@,
            "Backend TcpStream::connect timeouts"@,
            Seq::empty(),
        ),
{
    let mut rows: Vec<MetricRow> = Vec::new();
    rows.push(
        plain(Shape::Counter, "pool_acquires_total", "TcpPool acquire attempts"),
    );
    rows.push(
        plain(Shape::Counter, "pool_probe_failures_total", "TcpPool probe failures"),
    );
    rows.push(
        plain(Shape::Counter, "dns_cache_hits_total", "DNS resolver cache hits"),
    );
    rows.push(
        plain(Shape::Counter, "dns_cache_misses_total", "DNS resolver cache misses"),
    );
    rows.push(
        MetricRow {
            shape: Shape::Counter,
            name: "http_requests_total",
            help: "HTTP requests terminated by the L7 proxy",
            labels: vec!["listener", "route", "version", "status_class"],
        },
    );
    rows.push(
        MetricRow {
            shape: Shape::Histogram,
            name: "http_request_duration_seconds",
            help: "L7 request duration from accept to response body sent",
            labels: vec!["listener", "route", "version"],
        },
    );
    rows.push(
        plain(Shape::Gauge, "pool_idle_gauge", "TcpPool idle connection count"),
    );
    rows.push(
        plain(Shape::Counter, "accept_shed_total", "Accepts shed because the per-listener inflight cap was hit"),
    );
    rows.push(
        labelled(
            Shape::Counter,
            "accept_errors_total",
            "accept(2) errors classified by kind (transient backoff vs. fatal)",
            "kind",
        ),
    );
    rows.push(
        plain(Shape::Counter, "backend_connect_timeout_total", "Backend TcpStream::connect timeouts"),
    );
    rows
}

/// What reloads of certificates count.
pub fn certificate_metrics() -> (rows: Vec<MetricRow>)
    ensures
        rows@.len() == 3,
        is_row(
            rows@[0],
            Shape::Counter,
            "cert_rotation_succeeded_total"@,
            "REL-2-03: number of successful TLS cert reloads (SIGUSR1 or inotify)"@,
            Seq::empty(),
        ),
        is_row(
            rows@[1],
            Shape::Counter,
            "cert_rotation_failed_total"@,
            "REL-2-03: number of failed TLS cert reloads, labelled by reason"@,
            seq!["reason"@],
        ),
        is_row(
            rows@[2],
            Shape::Gauge,
            "cert_loaded_at_seconds"@,
            "REL-2-03: wall-clock unix timestamp the listener's TLS bundle was last (re)loaded"@,
            seq!["listener"@],
        ),
{
    let mut rows: Vec<MetricRow> = Vec::new();
    rows.push(
        plain(Shape::Counter, "cert_rotation_succeeded_total", "REL-2-03: number of successful TLS cert reloads (SIGUSR1 or inotify)"),
    );
    rows.push(
        labelled(
            Shape::Counter,
            "cert_rotation_failed_total",
            "REL-2-03: number of failed TLS cert reloads, labelled by reason",
            "reason",
        ),
    );
    rows.push(
        labelled(
            Shape::Gauge,
            "cert_loaded_at_seconds",
            "REL-2-03: wall-clock unix timestamp the listener's TLS bundle was last (re)loaded",
            "listener",
        ),
    );
    rows
}

/// What reloads of the configuration count.
pub fn reload_metrics() -> (rows: Vec<MetricRow>)
    ensures
        rows@.len() == 5,
        is_row(
            rows@[0],
            Shape::Counter,
            "config_reload_succeeded_total"@,
            "S37-C: number of SIGHUP config reloads that applied the swappable subset"@,
            Seq::empty(),
        ),
        is_row(
            rows@[1],
            Shape::Counter,
            "config_reload_failed_total"@,
            "S37-C: number of SIGHUP config reloads rejected by validation (nothing applied)"@,
            Seq::empty(),
        ),
        is_row(
            rows@[2],
            Shape::Counter,
            "config_reload_applied_swappable_total"@,
            "S37-C: swappable config changes applied live, labelled by field"@,
            seq!["field"@],
        ),
        is_row(
            rows@[3],
            Shape::Counter,
            "config_reload_restart_required_fields_total"@,
            "S37-C: detected config changes that require a restart and were NOT applied (honesty metric), labelled by field"@,
            seq!["field"@],
        ),
        is_row(
            rows@[4],
            Shape::Gauge,
            "config_reload_applied_version"@,
            "S37-C: monotonic version of the currently-applied config (1 = boot)"@,
            Seq::empty(),
        ),
{
    let mut rows: Vec<MetricRow> = Vec::new();
    rows.push(
        plain(Shape::Counter, "config_reload_succeeded_total", "S37-C: number of SIGHUP config reloads that applied the swappable subset"),
    );
    rows.push(
        plain(Shape::Counter, "config_reload_failed_total", "S37-C: number of SIGHUP config reloads rejected by validation (nothing applied)"),
    );
    rows.push(
        labelled(
            Shape::Counter,
            "config_reload_applied_swappable_total",
            "S37-C: swappable config changes applied live, labelled by field",
            "field",
        ),
    );
    rows.push(
        labelled(
            Shape::Counter,
            "config_reload_restart_required_fields_total",
            "S37-C: detected config changes that require a restart and were NOT applied (honesty metric), labelled by field",
            "field",
        ),
    );
    rows.push(
        plain(Shape::Gauge, "config_reload_applied_version", "S37-C: monotonic version of the currently-applied config (1 = boot)"),
    );
    rows
}

/// The version of the configuration that the process started with.
pub const BOOT_VERSION: i64 = 1;

/// Every metric of a reload has a name of its own; all but the version of the
/// configuration count up, and the two that concern a field say which.
pub proof fn law_reload_metrics(rows: Vec<MetricRow>, i: int)
    requires
        call_ensures(reload_metrics, (), rows),
        0 <= i < rows@.len(),
    ensures
        rows@.len() == 5,
        rows@[i].shape == Shape::Gauge <==> rows@[i].name@ == "config_reload_applied_version"@,
        rows@[i].shape == Shape::Counter <==> rows@[i].name@ != "config_reload_applied_version"@,
        rows@[i].labels@.len() == 1 <==> rows@[i].name@ == "config_reload_applied_swappable_total"@
            || rows@[i].name@ == "config_reload_restart_required_fields_total"@,
        rows@[i].labels@.len() == 1 ==> rows@[i].labels@[0]@ == "field"@,
        rows@[i].labels@.len() <= 1,
{
    reveal_strlit("config_reload_succeeded_total");
    reveal_strlit("config_reload_failed_total");
    reveal_strlit("config_reload_applied_swappable_total");
    reveal_strlit("config_reload_restart_required_fields_total");
    reveal_strlit("config_reload_applied_version");
    assert("config_reload_succeeded_total"@.len() == 29 && "config_reload_succeeded_total"@[14] == 's');
    assert("config_reload_failed_total"@.len() == 26);
    assert("config_reload_applied_swappable_total"@.len() == 37);
    assert("config_reload_restart_required_fields_total"@.len() == 43);
    assert("config_reload_applied_version"@.len() == 29 && "config_reload_applied_version"@[14] == 'a');
    assert(i == 0 || i == 1 || i == 2 || i == 3 || i == 4);
    if i == 2 || i == 3 {
        assert(rows@[i].labels@[0]@ == "field"@);
    }
}

} // verus!
