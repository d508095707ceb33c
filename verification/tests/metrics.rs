use justkv::metrics::families::Seconds;
use justkv::metrics::{Metrics, Outcome, BUCKETS};

fn micros(n: u128) -> Option<u128> {
    Some(n * 1000)
}

fn render(m: &Metrics, keys: usize, arena_bytes: usize, uptime_seconds: u64) -> String {
    let sum = m.sum_nanos() as f64 / 1e9;
    let sum = Seconds::new(sum.to_string()).unwrap();
    m.render(keys, arena_bytes, uptime_seconds, &sum)
}

fn line<'a>(out: &'a str, name: &str) -> &'a str {
    out.lines()
        .find(|l| l.starts_with(name) && !l.starts_with('#'))
        .unwrap_or_else(|| panic!("missing metric {name} in:\n{out}"))
}

#[test]
fn counts_hits_misses_and_defaults_separately() {
    let mut m = Metrics::new();
    m.record(Outcome::Hit, 10, None);
    m.record(Outcome::Miss, 0, None);
    m.record(Outcome::Default, 3, None);
    let out = render(&m, 2, 16, 5);
    assert_eq!(line(&out, "justkv_requests_total"), "justkv_requests_total 3");
    assert_eq!(line(&out, "justkv_hits_total"), "justkv_hits_total 1");
    assert_eq!(line(&out, "justkv_response_bytes_total"), "justkv_response_bytes_total 13");
}

#[test]
fn a_default_served_response_counts_as_a_miss_not_a_hit() {
    let mut m = Metrics::new();
    m.record(Outcome::Default, 3, None);
    let out = render(&m, 0, 0, 1);
    assert_eq!(line(&out, "justkv_misses_total"), "justkv_misses_total 1");
    assert_eq!(line(&out, "justkv_hits_total"), "justkv_hits_total 0");
    assert_eq!(line(&out, "justkv_defaults_served_total"), "justkv_defaults_served_total 1");
}

#[test]
fn renders_gauges_from_arguments() {
    let out = render(&Metrics::new(), 42, 4096, 7);
    assert_eq!(line(&out, "justkv_keys"), "justkv_keys 42");
    assert_eq!(line(&out, "justkv_arena_bytes"), "justkv_arena_bytes 4096");
    assert_eq!(line(&out, "justkv_uptime_seconds"), "justkv_uptime_seconds 7");
}

#[test]
fn histogram_buckets_are_cumulative_and_end_with_inf() {
    let mut m = Metrics::new();
    m.record(Outcome::Hit, 1, micros(30)); // > 25us
    m.record(Outcome::Hit, 1, micros(200)); // > 100us
    let out = render(&m, 0, 0, 1);
    assert!(out.contains(r#"justkv_request_duration_seconds_bucket{le="0.000025"} 0"#), "{out}");
    assert!(out.contains(r#"justkv_request_duration_seconds_bucket{le="0.00005"} 1"#), "{out}");
    assert!(out.contains(r#"justkv_request_duration_seconds_bucket{le="0.00025"} 2"#), "{out}");
    assert!(out.contains(r#"justkv_request_duration_seconds_bucket{le="+Inf"} 2"#), "{out}");
    assert!(out.contains("justkv_request_duration_seconds_count 2"), "{out}");
}

#[test]
fn untimed_requests_are_excluded_from_the_histogram() {
    let mut m = Metrics::new();
    m.record(Outcome::Hit, 1, None);
    let out = render(&m, 0, 0, 1);
    assert!(out.contains("justkv_request_duration_seconds_count 0"), "{out}");
    assert_eq!(line(&out, "justkv_requests_total"), "justkv_requests_total 1");
}

#[test]
fn output_declares_help_and_type_for_every_metric() {
    let out = render(&Metrics::new(), 0, 0, 1);
    for name in [
        "justkv_requests_total", "justkv_hits_total", "justkv_misses_total",
        "justkv_defaults_served_total", "justkv_response_bytes_total",
        "justkv_request_duration_seconds", "justkv_keys",
        "justkv_arena_bytes", "justkv_uptime_seconds",
    ] {
        assert!(out.contains(&format!("# TYPE {name} ")), "missing TYPE for {name}:\n{out}");
        assert!(out.contains(&format!("# HELP {name} ")), "missing HELP for {name}:\n{out}");
    }
}

#[test]
fn the_whole_text_is_as_scrapers_expect_it() {
    let mut m = Metrics::default();
    m.record(Outcome::Hit, 7, micros(25));
    m.record(Outcome::Miss, 0, Some(100_000_001));
    let expected = "\
# HELP justkv_requests_total Total key lookups served.
# TYPE justkv_requests_total counter
justkv_requests_total 2
# HELP justkv_hits_total Lookups that found a key.
# TYPE justkv_hits_total counter
justkv_hits_total 1
# HELP justkv_misses_total Lookups with no matching key, including those served a default.
# TYPE justkv_misses_total counter
justkv_misses_total 1
# HELP justkv_defaults_served_total Misses answered with the configured default value.
# TYPE justkv_defaults_served_total counter
justkv_defaults_served_total 0
# HELP justkv_response_bytes_total Value bytes written to clients.
# TYPE justkv_response_bytes_total counter
justkv_response_bytes_total 7
# HELP justkv_request_duration_seconds Lookup handling latency.
# TYPE justkv_request_duration_seconds histogram
justkv_request_duration_seconds_bucket{le=\"0.000025\"} 1
justkv_request_duration_seconds_bucket{le=\"0.00005\"} 1
justkv_request_duration_seconds_bucket{le=\"0.0001\"} 1
justkv_request_duration_seconds_bucket{le=\"0.00025\"} 1
justkv_request_duration_seconds_bucket{le=\"0.0005\"} 1
justkv_request_duration_seconds_bucket{le=\"0.001\"} 1
justkv_request_duration_seconds_bucket{le=\"0.0025\"} 1
justkv_request_duration_seconds_bucket{le=\"0.005\"} 1
justkv_request_duration_seconds_bucket{le=\"0.01\"} 1
justkv_request_duration_seconds_bucket{le=\"0.025\"} 1
justkv_request_duration_seconds_bucket{le=\"0.05\"} 1
justkv_request_duration_seconds_bucket{le=\"0.1\"} 1
justkv_request_duration_seconds_bucket{le=\"+Inf\"} 2
justkv_request_duration_seconds_sum 0.100025001
justkv_request_duration_seconds_count 2
# HELP justkv_keys Keys loaded.
# TYPE justkv_keys gauge
justkv_keys 10
# HELP justkv_arena_bytes Bytes of key and value data held in memory.
# TYPE justkv_arena_bytes gauge
justkv_arena_bytes 20
# HELP justkv_uptime_seconds Seconds since the server finished loading.
# TYPE justkv_uptime_seconds gauge
justkv_uptime_seconds 30
";
    assert_eq!(render(&m, 10, 20, 30), expected);
}

#[test]
fn the_labels_are_the_bounds_in_seconds() {
    let out = render(&Metrics::new(), 0, 0, 0);
    for nanos in BUCKETS {
        let label = format!("_bucket{{le=\"{}\"}} 0", nanos as f64 / 1e9);
        assert!(out.contains(&label), "{label}");
    }
}

#[test]
fn a_latency_on_a_bound_belongs_to_its_bucket() {
    for (i, nanos) in BUCKETS.iter().enumerate() {
        let mut m = Metrics::new();
        m.record(Outcome::Hit, 0, Some(*nanos as u128));
        m.record(Outcome::Hit, 0, Some(*nanos as u128 + 1));
        let out = render(&m, 0, 0, 0);
        let counts: Vec<&str> = out
            .lines()
            .filter(|l| l.contains("_bucket{"))
            .map(|l| l.rsplit(' ').next().unwrap())
            .collect();
        assert_eq!(counts.len(), 13);
        for (j, count) in counts.iter().enumerate() {
            let expected = if j < i { "0" } else if j == i { "1" } else { "2" };
            assert_eq!(*count, expected, "bucket {j} after {nanos}");
        }
    }
}

#[test]
fn every_request_is_a_hit_or_a_miss() {
    let mut m = Metrics::new();
    for i in 0..30u64 {
        let outcome = match i % 3 {
            0 => Outcome::Hit,
            1 => Outcome::Miss,
            _ => Outcome::Default,
        };
        m.record(outcome, 1, Some(i as u128));
    }
    let out = render(&m, 0, 0, 0);
    assert_eq!(line(&out, "justkv_requests_total"), "justkv_requests_total 30");
    assert_eq!(line(&out, "justkv_hits_total"), "justkv_hits_total 10");
    assert_eq!(line(&out, "justkv_misses_total"), "justkv_misses_total 20");
    assert_eq!(line(&out, "justkv_defaults_served_total"), "justkv_defaults_served_total 10");
    assert_eq!(m.sum_nanos(), 435);
}

#[test]
fn every_metric_is_introduced_exactly_once() {
    let mut m = Metrics::new();
    m.record(Outcome::Default, 3, micros(30));
    let out = render(&m, 1, 2, 3);
    assert!(out.ends_with('\n'));
    let lines: Vec<&str> = out.lines().collect();
    for (name, kind, samples) in [
        ("justkv_requests_total", "counter", 1),
        ("justkv_hits_total", "counter", 1),
        ("justkv_misses_total", "counter", 1),
        ("justkv_defaults_served_total", "counter", 1),
        ("justkv_response_bytes_total", "counter", 1),
        ("justkv_request_duration_seconds", "histogram", 15),
        ("justkv_keys", "gauge", 1),
        ("justkv_arena_bytes", "gauge", 1),
        ("justkv_uptime_seconds", "gauge", 1),
    ] {
        let starts = |mark: &str| -> Vec<usize> {
            let start = format!("# {mark} {name} ");
            (0..lines.len()).filter(|i| lines[*i].starts_with(&start)).collect()
        };
        let (help, kinds) = (starts("HELP"), starts("TYPE"));
        assert_eq!(help.len(), 1, "{name}");
        assert_eq!(kinds, vec![help[0] + 1], "{name}");
        assert_eq!(lines[kinds[0]], format!("# TYPE {name} {kind}"));
        for i in 0..samples {
            assert!(lines[kinds[0] + 1 + i].starts_with(name), "{name}");
        }
    }
    assert_eq!(lines.len(), 9 * 2 + 8 + 15);
}

#[test]
fn the_order_of_calls_does_not_matter() {
    let calls = [
        (Outcome::Hit, 3, micros(10)),
        (Outcome::Miss, 0, None),
        (Outcome::Default, 5, micros(70)),
        (Outcome::Hit, 1, micros(70)),
        (Outcome::Hit, 9, None),
    ];
    let run = |order: [usize; 5]| {
        let mut m = Metrics::new();
        for i in order {
            let (outcome, bytes, elapsed) = calls[i];
            m.record(outcome, bytes, elapsed);
        }
        render(&m, 1, 2, 3)
    };
    let text = run([0, 1, 2, 3, 4]);
    for order in [[4, 3, 2, 1, 0], [2, 0, 4, 1, 3], [1, 3, 0, 4, 2]] {
        assert_eq!(run(order), text);
    }
    // The defaults are some of the misses, and the timed requests some of the requests.
    assert_eq!(line(&text, "justkv_requests_total"), "justkv_requests_total 5");
    assert_eq!(line(&text, "justkv_misses_total"), "justkv_misses_total 2");
    assert_eq!(line(&text, "justkv_defaults_served_total"), "justkv_defaults_served_total 1");
    assert!(text.contains("justkv_request_duration_seconds_count 3\n"));
}

#[test]
fn seconds_are_on_one_line() {
    assert!(Seconds::new("0.1".to_string()).is_some());
    assert!(Seconds::new(String::new()).is_some());
    assert!(Seconds::new("0.1\n# HELP justkv_keys x".to_string()).is_none());
    assert!(Seconds::new("\n".to_string()).is_none());
}
