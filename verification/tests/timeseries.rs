use expressgateway::sample::{in_order, nan, MISSING};
use expressgateway::soak::metrics::{parse as parse_raw, MetricSet, RawSample};
use expressgateway::soak::sampler::{build_row, get_request, parse_response, scrape_accepts, series_columns};
use expressgateway::soak::scenario::{
    any_drift, marker_text, modea_kinds, modeb_gauges, modeb_kinds, overall, render_summary, tcp_gauges,
    tcp_kinds, ws_gauges, ws_kinds, ReportRow, TallyRow,
};
use expressgateway::soak::timeseries::{
    extent, halves, judge, kind_of, kind_str, middle, monotone_steps, steady_state, thirds,
    MetricKind, Middle, TimeSeries, TrendFacts, Verdict,
};

struct Analysis {
    verdict: Verdict,
    rel_growth: f64,
    monotone_frac: f64,
}

fn slope(values: &[u64]) -> f64 {
    let n = values.len();
    if n < 2 {
        return 0.0;
    }
    let nf = n as f64;
    let (mut sx, mut sy, mut sxx, mut sxy) = (0.0, 0.0, 0.0, 0.0);
    for (i, bits) in values.iter().enumerate() {
        let (x, y) = (i as f64, f64::from_bits(*bits));
        sx += x;
        sy += y;
        sxx += x * x;
        sxy += x * y;
    }
    let denom = nf * sxx - sx * sx;
    if denom.abs() < f64::EPSILON {
        0.0
    } else {
        (nf * sxy - sx * sy) / denom
    }
}

fn median(values: &Vec<u64>) -> f64 {
    match middle(values) {
        Some(Middle::One(a)) => f64::from_bits(a),
        Some(Middle::Two(a, b)) => (f64::from_bits(a) + f64::from_bits(b)) / 2.0,
        None => 0.0,
    }
}

/// The verdict on a column, with the ten percent of warm-up cut off.
fn analyze(values: &[f64], kind: MetricKind) -> Analysis {
    let bits: Vec<u64> = values.iter().map(|v| v.to_bits()).collect();
    let ext = extent(&bits);
    let trimmed = steady_state(&bits, (ext.n as f64 * 0.10).floor() as usize);
    let (rel_growth, monotone_frac, facts) = if trimmed.is_empty() {
        (0.0, 0.0, TrendFacts { over_band: false, monotone: false, accelerating: false })
    } else {
        let (first, last) = thirds(&trimmed);
        let (f3, l3) = (median(&first), median(&last));
        let growth = (l3 - f3) / f3.abs().max(1.0);
        let (rising, steps) = monotone_steps(&trimmed);
        let frac = if steps == 0 { 0.0 } else { rising as f64 / steps as f64 };
        let (head, tail) = halves(&trimmed);
        let (s1, s2) = (slope(&head), slope(&tail));
        (
            growth,
            frac,
            TrendFacts {
                over_band: growth > 0.10,
                monotone: frac >= 0.60,
                accelerating: s2 > s1 * 1.8 + 1.0 && s2 > 0.0,
            },
        )
    };
    Analysis { verdict: judge(kind, ext.max, trimmed.len(), 8, facts), rel_growth, monotone_frac }
}

#[test]
fn flat_series_is_bounded() {
    let vals: Vec<f64> =
        (0..40).map(|i| 50_000.0 + if i % 2 == 0 { 50.0 } else { -50.0 }).collect();
    assert_eq!(analyze(&vals, MetricKind::Trend).verdict, Verdict::Bounded);
}

#[test]
fn linear_climb_is_drift() {
    let vals: Vec<f64> = (0..40).map(|i| 50_000.0 + (i as f64) * 500.0).collect();
    let v = analyze(&vals, MetricKind::Trend);
    assert_eq!(v.verdict, Verdict::Drift);
    assert!(v.rel_growth > 0.10);
    assert!(v.monotone_frac > 0.9);
}

#[test]
fn sawtooth_around_constant_is_bounded() {
    let vals: Vec<f64> = (0..60).map(|i| ((i % 20) * 10) as f64).collect();
    assert_eq!(analyze(&vals, MetricKind::Trend).verdict, Verdict::Bounded);
}

#[test]
fn warmup_spike_then_flat_is_bounded() {
    let mut vals: Vec<f64> = vec![10_000.0, 80_000.0, 70_000.0, 60_000.0];
    vals.extend((0..40).map(|i| 50_000.0 + if i % 2 == 0 { 30.0 } else { -30.0 }));
    assert_eq!(analyze(&vals, MetricKind::Trend).verdict, Verdict::Bounded);
}

#[test]
fn counter_constant_rate_is_bounded() {
    let vals: Vec<f64> = (0..40).map(|i| (i as f64) * 10.0).collect();
    assert_eq!(analyze(&vals, MetricKind::Counter).verdict, Verdict::Bounded);
}

#[test]
fn counter_accelerating_is_drift() {
    let vals: Vec<f64> = (0..40).map(|i| (i as f64).powi(2)).collect();
    assert_eq!(analyze(&vals, MetricKind::Counter).verdict, Verdict::Drift);
}

#[test]
fn panic_counter_zero_is_bounded() {
    let vals: Vec<f64> = vec![0.0; 30];
    assert_eq!(analyze(&vals, MetricKind::CounterMustBeZero).verdict, Verdict::Bounded);
}

#[test]
fn panic_counter_nonzero_is_drift() {
    let mut vals: Vec<f64> = vec![0.0; 20];
    vals.push(1.0);
    vals.extend(vec![1.0; 9]);
    assert_eq!(
        analyze(&vals, MetricKind::CounterMustBeZero).verdict,
        Verdict::Drift,
        "any panic must be a drift"
    );
}

#[test]
fn too_few_samples_inconclusive() {
    let vals: Vec<f64> = vec![1.0, 2.0, 3.0];
    assert_eq!(analyze(&vals, MetricKind::Trend).verdict, Verdict::Inconclusive);
}

fn cell(bits: u64) -> String {
    let v = f64::from_bits(bits);
    if v.is_nan() {
        String::new()
    } else {
        format!("{}", v)
    }
}

fn csv(ts: &TimeSeries) -> String {
    let mut text: Vec<(String, Vec<String>)> = Vec::new();
    for row in ts.rows() {
        let t = format!("{:.3}", f64::from_bits(row.t));
        text.push((t, row.cells.iter().map(|c| cell(*c)).collect()));
    }
    ts.to_csv(&text)
}

#[test]
fn csv_roundtrip_shape() {
    let mut ts = TimeSeries::new(vec!["rss_kb".to_string(), "fds".to_string()]);
    ts.push(0.0f64.to_bits(), vec![100.0f64.to_bits(), 5.0f64.to_bits()]);
    ts.push(15.0f64.to_bits(), vec![110.0f64.to_bits(), 5.0f64.to_bits()]);
    let csv = csv(&ts);
    assert_eq!(csv.lines().next().unwrap(), "t_secs,rss_kb,fds");
    assert_eq!(csv.lines().count(), 3, "header + 2 rows");
    assert_eq!(ts.len(), 2);
    assert_eq!(ts.column_values("fds").unwrap(), vec![5.0f64.to_bits(), 5.0f64.to_bits()]);
    assert_eq!(csv, "t_secs,rss_kb,fds\n0.000,100,5\n15.000,110,5\n");
}

#[test]
fn push_fills_missing_columns_with_nan() {
    let mut ts = TimeSeries::new(vec!["a".to_string(), "b".to_string(), "c".to_string()]);
    ts.push(0.0f64.to_bits(), vec![1.0f64.to_bits()]);
    let row = ts.column_values("c").unwrap();
    assert!(f64::from_bits(row[0]).is_nan(), "missing column must be NaN, kept aligned");
    assert!(csv(&ts).lines().nth(1).unwrap().starts_with("0.000,1,,"));
    assert_eq!(ts.column_values("d"), None);
    assert!(!ts.is_empty());
    assert_eq!(ts.columns().len(), 3);
}

#[test]
fn extents_skip_what_is_no_number() {
    let bits: Vec<u64> = vec![f64::NAN.to_bits(), 3.0f64.to_bits(), (-1.0f64).to_bits(), MISSING];
    let e = extent(&bits);
    assert_eq!(e.n, 2);
    assert_eq!(f64::from_bits(e.first), 3.0);
    assert_eq!(f64::from_bits(e.min), -1.0);
    assert_eq!(f64::from_bits(e.max), 3.0);
    assert!(nan(MISSING));
    assert_eq!(median(&bits), 1.0);
    let negatives: Vec<u64> = vec![(-5.0f64).to_bits(), (-7.0f64).to_bits(), 2.0f64.to_bits()];
    assert_eq!(median(&negatives), -5.0);
    assert_eq!(monotone_steps(&negatives), (1, 2));
}

#[test]
fn equal_zeros_stay_in_place() {
    let bits = |vals: &[f64]| -> Vec<u64> { vals.iter().map(|v| v.to_bits()).collect() };
    let zero = 0.0f64.to_bits();
    let minus = (-0.0f64).to_bits();
    assert_eq!(middle(&bits(&[0.0, -0.0, 0.0])), Some(Middle::One(minus)));
    assert_eq!(middle(&bits(&[-0.0, 0.0, -0.0])), Some(Middle::One(zero)));
    assert_eq!(middle(&bits(&[0.0, -0.0])), Some(Middle::Two(zero, minus)));
    assert_eq!(middle(&bits(&[-0.0, 0.0])), Some(Middle::Two(minus, zero)));
    assert_eq!(in_order(&bits(&[1.0, 0.0, -2.0, -0.0])), bits(&[-2.0, 0.0, -0.0, 1.0]));
    assert_eq!(middle(&bits(&[f64::NAN])), None);
    let huge = f64::MAX.to_bits();
    assert_eq!(middle(&vec![huge, huge]), Some(Middle::Two(huge, huge)));
    assert_eq!(median(&vec![huge, huge]), f64::INFINITY);
}

#[test]
fn missing_samples_change_no_verdict() {
    let full: Vec<f64> = (0..40).map(|i| 1_000.0 + 50.0 * i as f64).collect();
    let mut gaps: Vec<f64> = vec![f64::NAN];
    for (i, v) in full.iter().enumerate() {
        gaps.push(*v);
        if i % 3 == 0 {
            gaps.push(f64::NAN);
        }
    }
    let bits = |vals: &[f64]| -> Vec<u64> { vals.iter().map(|v| v.to_bits()).collect() };
    let (a, b) = (extent(&bits(&full)), extent(&bits(&gaps)));
    assert_eq!((a.n, a.first, a.last, a.min, a.max), (b.n, b.first, b.last, b.min, b.max));
    assert_eq!(steady_state(&bits(&full), 4), steady_state(&bits(&gaps), 4));
    let (x, y) = (analyze(&full, MetricKind::Trend), analyze(&gaps, MetricKind::Trend));
    assert_eq!(x.verdict, Verdict::Drift);
    assert_eq!(x.verdict, y.verdict);
    assert_eq!((x.rel_growth, x.monotone_frac), (y.rel_growth, y.monotone_frac));
}

#[test]
fn kinds_and_verdicts_have_names() {
    assert_eq!(Verdict::Bounded.as_str(), "BOUNDED");
    assert_eq!(Verdict::Drift.as_str(), "DRIFT");
    assert_eq!(Verdict::Inconclusive.as_str(), "INCONCLUSIVE");
    assert_eq!(kind_str(MetricKind::Trend), "trend");
    assert_eq!(kind_str(MetricKind::Counter), "counter");
    assert_eq!(kind_str(MetricKind::CounterMustBeZero), "counter_must_be_zero");
    assert_eq!(kind_of(&tcp_kinds(), "panic_total"), MetricKind::CounterMustBeZero);
    assert_eq!(kind_of(&tcp_kinds(), "no such column"), MetricKind::Trend);
    assert_eq!(tcp_gauges().is_empty(), false);
    assert_eq!(kind_of(&modeb_kinds(), "panic_total"), MetricKind::CounterMustBeZero);
    assert_eq!(kind_of(&modea_kinds(), "panic_total"), MetricKind::CounterMustBeZero);
    assert_eq!(kind_of(&ws_kinds(), "panic_total"), MetricKind::CounterMustBeZero);
    assert!(modeb_gauges().contains(&"quic_modeb_streams_active".to_string()));
    assert!(!ws_gauges().is_empty());
}

#[test]
fn only_a_drift_fails_a_run() {
    assert!(!any_drift(&vec![Verdict::Bounded, Verdict::Inconclusive]));
    assert!(any_drift(&vec![Verdict::Bounded, Verdict::Drift]));
    assert_ne!(overall(true), overall(false));
    let row = ReportRow {
        column: "rss_kb".to_string(),
        verdict: Verdict::Drift,
        note: "grew".to_string(),
        first: "1".to_string(),
        last: "2".to_string(),
        min: "1".to_string(),
        max: "2".to_string(),
    };
    let text = render_summary(
        "sc1_h1h1",
        60,
        4,
        true,
        &vec![row],
        &vec![TallyRow { name: "h1_load".to_string(), ok: 5, err: 1 }],
    );
    for part in ["sc1_h1h1", "rss_kb", "DRIFT", "grew", "h1_load"] {
        assert!(text.contains(part), "{} is missing in {}", part, text);
    }
    assert!(marker_text("sc1_h1h1", 60, 4, true).contains("sc1_h1h1"));
}

const SAMPLE: &str = "\
# HELP quic_modeb_streams_active Active Mode B streams
# TYPE quic_modeb_streams_active gauge
quic_modeb_streams_active 12
# HELP quic_modeb_connections Active Mode B connections
# TYPE quic_modeb_connections gauge
quic_modeb_connections 3
# HELP accept_inflight Inflight connections per listener
# TYPE accept_inflight gauge
accept_inflight{listener=\"127.0.0.1:8080\"} 7
accept_inflight{listener=\"127.0.0.1:8443\"} 5
# HELP quic_modeb_datagrams_dropped_total Dropped datagrams
# TYPE quic_modeb_datagrams_dropped_total counter
quic_modeb_datagrams_dropped_total 41
# HELP panic_total panics
# TYPE panic_total counter
panic_total 0
http_request_seconds_sum 1.5
";

fn parse(body: &str) -> MetricSet {
    let raw: Vec<RawSample> = parse_raw(body);
    let values: Vec<Option<u64>> =
        raw.iter().map(|s| s.value.parse::<f64>().ok().map(f64::to_bits)).collect();
    MetricSet::collect(raw, &values)
}

fn sum(set: &MetricSet, name: &str) -> Option<f64> {
    set.values(name).map(|v| v.iter().map(|b| f64::from_bits(*b)).sum())
}

#[test]
fn joined_texts_say_what_both_say() {
    let facts = |m: &MetricSet| -> Vec<(String, Vec<(String, String)>, u64)> {
        m.samples.iter().map(|s| (s.name.clone(), s.labels.clone(), s.value)).collect()
    };
    for a in ["", "up 1", "up 1\r", "up 1\n", "# HELP up\nup 1\r\n", "not a sample line x"] {
        let both = parse(&format!("{}\n{}", a, SAMPLE));
        let mut apart = facts(&parse(a));
        apart.extend(facts(&parse(SAMPLE)));
        assert_eq!(facts(&both), apart, "after {:?}", a);
    }
}

#[test]
fn parses_unlabelled_gauge() {
    let m = parse(SAMPLE);
    assert_eq!(sum(&m, "quic_modeb_streams_active"), Some(12.0));
    assert_eq!(sum(&m, "quic_modeb_connections"), Some(3.0));
    assert_eq!(sum(&m, "panic_total"), Some(0.0));
}

#[test]
fn sums_labelled_series() {
    let m = parse(SAMPLE);
    assert_eq!(sum(&m, "accept_inflight"), Some(12.0));
    assert_eq!(m.max("accept_inflight").map(f64::from_bits), Some(7.0));
}

#[test]
fn labels_are_captured() {
    let m = parse(SAMPLE);
    let s = m
        .samples
        .iter()
        .find(|s| s.name == "accept_inflight" && f64::from_bits(s.value) == 7.0)
        .expect("first accept_inflight series");
    assert_eq!(s.labels, vec![("listener".to_string(), "127.0.0.1:8080".to_string())]);
}

#[test]
fn float_values_parse() {
    let m = parse(SAMPLE);
    assert_eq!(sum(&m, "http_request_seconds_sum"), Some(1.5));
}

#[test]
fn absent_name_is_none_not_zero() {
    let m = parse(SAMPLE);
    assert_eq!(sum(&m, "quic_passthrough_flows"), None);
    assert_eq!(sum(&m, "panic_total"), Some(0.0));
}

#[test]
fn comments_and_blanks_skipped() {
    let m = parse("# just a comment\n\n  \n# TYPE x gauge\n");
    assert!(m.samples.is_empty());
}

#[test]
fn value_with_trailing_timestamp() {
    let m = parse("foo_total 99 1700000000000\n");
    assert_eq!(sum(&m, "foo_total"), Some(99.0));
}

#[test]
fn malformed_value_line_skipped_not_fatal() {
    let m = parse("good 1\nbad notanumber\nalsogood 2\n");
    assert_eq!(sum(&m, "good"), Some(1.0));
    assert_eq!(sum(&m, "alsogood"), Some(2.0));
    assert_eq!(sum(&m, "bad"), None);
}

#[test]
fn responses_are_split_into_status_and_body() {
    assert!(get_request("/metrics").starts_with("GET /metrics HTTP/1.1\r\n"));
    let text = "HTTP/1.1 200 OK\r\nContent-Length: 5\r\nConnection: close\r\n\r\nhello";
    assert_eq!(parse_response(text), (200, "hello".to_string()));
    assert_eq!(parse_response("").0, 0);
    assert!(scrape_accepts(200));
    assert!(!scrape_accepts(503));
}

#[test]
fn rows_hold_the_footprint_and_the_gauges() {
    let names = series_columns(&vec!["g".to_string()]);
    assert_eq!(names, vec!["rss_kb", "vmhwm_kb", "fds", "threads", "g"]);
    let seven = 7.0f64.to_bits();
    let full = build_row(Some((1, 2, 3, 4)), &vec![Some(seven)]);
    assert_eq!(full, vec![1, 2, 3, 4, seven]);
    let empty = build_row(None, &vec![None]);
    assert_eq!(empty.len(), 5);
    assert!(empty.iter().all(|v| nan(*v)));
}
