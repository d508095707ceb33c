use bytes::Bytes;
use justkv::metrics::families::Seconds;
use justkv::metrics::{Metrics, Outcome};
use justkv::server::handlers::{
    health, kv_path, kv_query, lookup, metrics, reply_to, stats, Body, Reply,
};
use justkv::server::{
    content_type_for, next_backoff, AppState, BINARY_CONTENT_TYPE, DEFAULT_CONTENT_TYPE,
    FIRST_BACKOFF_MS, LONGEST_BACKOFF_MS,
};
use justkv::store::compiled::FLAG_BINARY;
use justkv::store::csv_loader::LoadOptions;
use justkv::store::{load, Entry, Store};

fn state_with(default_value: Option<&str>) -> AppState {
    // keys: "a"->"1", "b"->"2", "a/b"->"slash", ""->"empty"
    let arena = b"a1b2a/bslashempty".to_vec();
    let entries = vec![
        Entry { k_off: 0, k_len: 1, v_off: 1, v_len: 1 },
        Entry { k_off: 2, k_len: 1, v_off: 3, v_len: 1 },
        Entry { k_off: 4, k_len: 3, v_off: 7, v_len: 5 },
        Entry { k_off: 0, k_len: 0, v_off: 12, v_len: 5 },
    ];
    let store = Store::from_parts(arena, entries);
    AppState {
        keys: store.len(),
        arena_bytes: store.arena_len(),
        source: "test".into(),
        format: "csv",
        store,
        default_value: default_value.map(|d| Bytes::from(d.to_string().into_bytes())),
        content_type: "text/plain; charset=utf-8".to_string(),
        timing: true,
    }
}

fn body(r: &Reply) -> Vec<u8> {
    match &r.body {
        Body::Empty => Vec::new(),
        Body::Value(v) => v.to_vec(),
        Body::Text(t) => t.clone().into_bytes(),
    }
}

fn scrape(s: &AppState, m: &Metrics) -> String {
    let sum = Seconds::new((m.sum_nanos() as f64 / 1e9).to_string()).unwrap();
    let r = metrics(s, m, 1, &sum);
    assert_eq!(r.status, 200);
    assert_eq!(r.content_type.as_deref(), Some("text/plain; version=0.0.4; charset=utf-8"));
    assert!(r.counted.is_none());
    String::from_utf8(body(&r)).unwrap()
}

#[test]
fn hit_returns_value_with_text_plain() {
    let s = state_with(None);
    let r = kv_path(&s, "a", false);
    assert_eq!(r.status, 200);
    assert_eq!(body(&r), b"1");
    assert_eq!(r.content_type.as_deref(), Some("text/plain; charset=utf-8"));
    assert_eq!(body(&r).len(), 1);
    assert!(!r.marks_default);
}

#[test]
fn miss_without_default_returns_404_and_empty_body() {
    let s = state_with(None);
    let r = kv_path(&s, "zzz", false);
    assert_eq!(r.status, 404);
    assert!(body(&r).is_empty(), "body was {:?}", body(&r));
    assert!(r.content_type.is_none());
}

#[test]
fn miss_with_default_returns_200_and_marker_header() {
    let s = state_with(Some("NA"));
    let r = kv_path(&s, "zzz", false);
    assert_eq!(r.status, 200);
    assert_eq!(body(&r), b"NA");
    assert!(r.marks_default);
}

#[test]
fn default_served_response_counts_as_miss_in_metrics() {
    let s = state_with(Some("NA"));
    let mut m = Metrics::new();
    kv_path(&s, "zzz", false).record(&mut m, Some(1));
    let text = scrape(&s, &m);
    assert!(text.contains("justkv_hits_total 0\n"), "{text}");
    assert!(text.contains("justkv_misses_total 1\n"), "{text}");
    assert!(text.contains("justkv_defaults_served_total 1\n"), "{text}");
}

#[test]
fn key_containing_slash_works_via_query_form() {
    let s = state_with(None);
    let r = kv_query(&s, Some("k=a%2Fb"), false);
    assert_eq!(r.status, 200);
    assert_eq!(body(&r), b"slash");
}

#[test]
fn a_decoded_path_segment_may_contain_a_slash() {
    let s = state_with(None);
    let r = kv_path(&s, "a/b", false);
    assert_eq!(r.status, 200);
    assert_eq!(body(&r), b"slash");
}

#[test]
fn the_empty_key_is_reachable_via_the_query_form() {
    let s = state_with(None);
    assert_eq!(body(&kv_query(&s, Some("k="), false)), b"empty");
}

#[test]
fn query_form_without_k_is_a_400() {
    let s = state_with(Some("NA"));
    for q in [Some("j=1"), Some(""), None] {
        let r = kv_query(&s, q, false);
        assert_eq!(r.status, 400);
        assert_eq!(body(&r), b"missing required query parameter: k\n");
        assert!(r.counted.is_none() && !r.marks_default);
        let mut m = Metrics::new();
        r.record(&mut m, Some(1));
        assert!(scrape(&s, &m).contains("justkv_requests_total 0\n"));
    }
}

#[test]
fn health_returns_ok() {
    assert_eq!(health(), "ok");
}

#[test]
fn stats_reports_dataset_shape() {
    let s = state_with(None);
    let r = stats(&s, "0.0", 9);
    assert_eq!(r.status, 200);
    assert_eq!(r.content_type.as_deref(), Some("application/json"));
    let v: serde_json::Value = serde_json::from_slice(&body(&r)).unwrap();
    assert_eq!(v["keys"], 4);
    assert_eq!(v["arena_bytes"], 17);
    assert_eq!(v["format"], "csv");
    assert_eq!(v["default_value_configured"], false);
    assert_eq!(v["source"], "test");
    assert_eq!(v["uptime_seconds"], 9);
    assert_eq!(v["load_ms"], 0.0);
    // The text is the one that serde_json writes for the same object.
    assert_eq!(body(&r), v.to_string().into_bytes());
}

#[test]
fn stats_escape_the_source() {
    let mut s = state_with(Some("NA"));
    s.source = "a \"b\"\\\n\u{1}\u{e9}".to_string();
    let r = stats(&s, "12.5", 0);
    let v: serde_json::Value = serde_json::from_slice(&body(&r)).unwrap();
    assert_eq!(v["source"], "a \"b\"\\\n\u{1}\u{e9}");
    assert_eq!(v["default_value_configured"], true);
    assert_eq!(v["load_ms"], 12.5);
}

#[test]
fn stats_write_every_character_as_json_has_it() {
    let mut s = state_with(None);
    s.source = "\u{8}\t\n\u{c}\r\"\\/\u{1f}\u{7f}\u{e9}\u{1f600}".to_string();
    let text = String::from_utf8(body(&stats(&s, "1", 2))).unwrap();
    assert_eq!(
        text,
        "{\"arena_bytes\":17,\"default_value_configured\":false,\"format\":\"csv\",\"keys\":4,\
         \"load_ms\":1,\"source\":\"\\b\\t\\n\\f\\r\\\"\\\\/\\u001f\u{7f}\u{e9}\u{1f600}\",\
         \"uptime_seconds\":2}"
    );
}

#[test]
fn metrics_accumulate_hits_and_bytes() {
    let s = state_with(None);
    let mut m = Metrics::new();
    kv_path(&s, "a", false).record(&mut m, Some(1));
    kv_path(&s, "b", false).record(&mut m, Some(1));
    let text = scrape(&s, &m);
    assert!(text.contains("justkv_requests_total 2\n"), "{text}");
    assert!(text.contains("justkv_hits_total 2\n"), "{text}");
    assert!(text.contains("justkv_response_bytes_total 2\n"), "{text}");
    assert!(text.contains("justkv_keys 4\n"), "{text}");
}

#[test]
fn head_request_does_not_count_bytes_it_never_sends() {
    let s = state_with(None);
    let mut m = Metrics::new();
    let h = kv_path(&s, "a", true);
    assert_eq!(h.status, 200);
    h.record(&mut m, Some(1));
    let text = scrape(&s, &m);
    assert!(text.contains("justkv_response_bytes_total 0\n"), "HEAD inflated byte accounting:\n{text}");
    // The lookup itself still counts as a request and a hit.
    assert!(text.contains("justkv_hits_total 1\n"), "{text}");
}

#[test]
fn head_and_get_agree_but_for_the_counted_bytes() {
    let s = state_with(Some("NA"));
    for key in [&b"a"[..], b"", b"zzz"] {
        let (get, head) = (lookup(&s, key, false), lookup(&s, key, true));
        assert_eq!(get.status, head.status);
        assert_eq!(get.content_type, head.content_type);
        assert_eq!(get.marks_default, head.marks_default);
        assert_eq!(body(&get), body(&head));
        assert_eq!(get.counted.unwrap().1, body(&get).len());
        assert_eq!(head.counted.unwrap().1, 0);
    }
}

#[test]
fn latencies_are_recorded_exactly_when_timing_is_on() {
    for (timing, expected) in [(true, "3"), (false, "0")] {
        let mut s = state_with(Some("NA"));
        s.timing = timing;
        let mut m = Metrics::new();
        for key in ["a", "b", "zzz"] {
            let r = kv_path(&s, key, false);
            assert_eq!(r.timed, timing);
            r.record(&mut m, Some(7_000));
        }
        let text = scrape(&s, &m);
        assert!(text.contains("justkv_requests_total 3\n"), "{text}");
        let count = format!("justkv_request_duration_seconds_count {expected}\n");
        assert!(text.contains(&count), "{text}");
        assert_eq!(m.sum_nanos(), if timing { 21_000 } else { 0 });
    }
    // With timing off there need not be a latency at all.
    let mut s = state_with(None);
    s.timing = false;
    let mut m = Metrics::new();
    kv_path(&s, "a", false).record(&mut m, None);
    assert!(scrape(&s, &m).contains("justkv_hits_total 1\n"));
    // Only lookups are timed.
    let s = state_with(None);
    assert!(!kv_query(&s, None, false).timed);
    assert!(!stats(&s, "0.0", 0).timed);
}

#[test]
fn each_outcome_has_its_reply() {
    let s = state_with(None);
    let hit = reply_to(&s, Some(Bytes::from_static(b"xy")), false);
    assert_eq!((hit.status, body(&hit)), (200, b"xy".to_vec()));
    assert!(matches!(hit.counted, Some((Outcome::Hit, 2))));
    let miss = reply_to(&s, None, false);
    assert_eq!(miss.status, 404);
    assert!(matches!(miss.counted, Some((Outcome::Miss, 0))));
    let s = state_with(Some("NA"));
    let default = reply_to(&s, None, false);
    assert_eq!((default.status, default.marks_default), (200, true));
    assert!(matches!(default.counted, Some((Outcome::Default, 2))));
}

#[test]
fn an_empty_default_is_a_default() {
    let s = state_with(Some(""));
    let r = lookup(&s, b"zzz", false);
    assert_eq!((r.status, r.marks_default), (200, true));
    assert!(body(&r).is_empty());
}

#[test]
fn the_content_type_follows_the_dataset_unless_one_is_given() {
    assert_eq!(content_type_for(None, 0), DEFAULT_CONTENT_TYPE);
    assert_eq!(content_type_for(None, 0), "text/plain; charset=utf-8");
    assert_eq!(content_type_for(None, FLAG_BINARY), BINARY_CONTENT_TYPE);
    assert_eq!(content_type_for(None, FLAG_BINARY | 4), "application/octet-stream");
    assert_eq!(content_type_for(None, 4), "text/plain; charset=utf-8");
    let given = Some("application/json".to_string());
    assert_eq!(content_type_for(given.clone(), 0), "application/json");
    assert_eq!(content_type_for(given, FLAG_BINARY), "application/json");
}

#[test]
fn a_loaded_dataset_is_served_as_it_was_written() {
    let opts = LoadOptions { allow_binary: true, ..LoadOptions::default() };
    let l = load(Ok(b"a,1\nbc,\xff\n".to_vec()), "data/kv.csv", &opts).ok().unwrap();
    let s = AppState::for_dataset(l, Some(b"NA".to_vec()), None, false);
    assert_eq!((s.keys, s.arena_bytes, s.format), (2, 5, "csv"));
    assert_eq!((s.source.as_str(), s.timing), ("data/kv.csv", false));
    assert_eq!(s.content_type, "application/octet-stream");
    assert_eq!(body(&lookup(&s, b"bc", false)), b"\xff");
    assert_eq!(body(&lookup(&s, b"b", false)), b"NA");
}

#[test]
fn waits_double_up_to_a_ceiling() {
    let mut waits = vec![FIRST_BACKOFF_MS];
    for _ in 0..10 {
        waits.push(next_backoff(waits[waits.len() - 1]));
    }
    assert_eq!(waits, vec![1, 2, 4, 8, 16, 32, 64, 128, 256, 256, 256]);
    assert_eq!(next_backoff(200), LONGEST_BACKOFF_MS);
    assert_eq!(next_backoff(u64::MAX), LONGEST_BACKOFF_MS);
}
