//! The handlers behind the routes: from a request to the reply.

use crate::metrics::families::{metrics_text, Seconds};
use crate::metrics::{plus, Metrics, Outcome, Tally};
use crate::server::query::{key_from_query, key_in};
use crate::server::AppState;
use crate::store::arena::{as_slice, bytes_if_any, bytes_of, share_again};
use crate::store::csv_loader::{layout, loaded, packed};
use crate::store::laws::{
    law_a_dataset_holds_exactly_its_pairs, law_loaded_pairs_are_distinct_and_fit, pairs_have_key,
};
use crate::store::{has_key, has_pair, is_found};
use crate::text::{decimal, hex_char, push_decimal, push_len};
use bytes::Bytes;
use vstd::prelude::*;
use vstd::string::StringExecFns;
use vstd::utf8::encode_utf8;

verus! {

/// The body of a reply.
pub enum Body {
    Empty,
    Value(Bytes),
    Text(String),
}

/// A reply to a request. What it says of the content type it borrows from the state.
pub struct Reply<'a> {
    pub status: u16,
    pub content_type: Option<&'a str>,
    /// The body stands in for a missing value, and the reply says so in `x-justkv-default`.
    pub marks_default: bool,
    pub body: Body,
    /// How a lookup came out, and how many bytes of its value are sent.
    pub counted: Option<(Outcome, usize)>,
    /// Whether the time that the lookup took is recorded.
    pub timed: bool,
}

/// What a [`Body`] holds.
pub enum Content {
    Empty,
    Value(Seq<u8>),
    Text(Seq<char>),
}

/// What a [`Reply`] says.
pub struct Answer {
    pub status: u16,
    pub content_type: Option<Seq<char>>,
    pub marks_default: bool,
    pub content: Content,
    pub counted: Option<(Outcome, nat)>,
    pub timed: bool,
}

impl View for Body {
    type V = Content;

    open spec fn view(&self) -> Content {
        match *self {
            Body::Empty => Content::Empty,
            Body::Value(v) => Content::Value(bytes_of(v)),
            Body::Text(t) => Content::Text(t@),
        }
    }
}

impl<'a> View for Reply<'a> {
    type V = Answer;

    open spec fn view(&self) -> Answer {
        Answer {
            status: self.status,
            content_type: match self.content_type {
                Some(t) => Some(t@),
                None => None,
            },
            marks_default: self.marks_default,
            content: self.body@,
            counted: match self.counted {
                Some((outcome, bytes)) => Some((outcome, bytes as nat)),
                None => None,
            },
            timed: self.timed,
        }
    }
}

impl Answer {
    /// The counts after this answer was given in `elapsed` nanoseconds. A lookup counts
    /// once, with its latency exactly where it is timed; nothing else counts.
    pub open spec fn counted_in(self, t: Tally, elapsed: Option<u128>) -> Tally {
        match self.counted {
            Some((outcome, bytes)) => t.with(
                outcome,
                bytes as u64,
                if self.timed {
                    elapsed
                } else {
                    None
                },
            ),
            None => t,
        }
    }
}

impl<'a> Reply<'a> {
    /// Count the lookup that this is the reply to, if it is one. The latency in
    /// nanoseconds is needed only where the lookup is timed, and is not looked at elsewhere.
    pub fn record(&self, metrics: &mut Metrics, elapsed: Option<u128>)
        requires
            self.timed ==> elapsed is Some,
        ensures
            final(metrics)@ == self@.counted_in(old(metrics)@, elapsed),
    {
        if let Some((outcome, bytes)) = self.counted {
            let latency: Option<u128> = if self.timed {
                elapsed
            } else {
                None
            };
            metrics.record(outcome, bytes, latency);
        }
    }
}

/// How many bytes of a value are sent. The reply to `HEAD` has no body.
pub open spec fn sent(value: Seq<u8>, head: bool) -> nat {
    if head {
        0
    } else {
        value.len()
    }
}

/// The answer to a lookup that found `found`.
pub open spec fn lookup_answer(s: AppState, found: Option<Seq<u8>>, head: bool) -> Answer {
    match (found, s.default_bytes()) {
        (Some(value), _) => Answer {
            status: 200,
            content_type: Some(s.content_type@),
            marks_default: false,
            content: Content::Value(value),
            counted: Some((Outcome::Hit, sent(value, head))),
            timed: s.timing,
        },
        (None, Some(value)) => Answer {
            status: 200,
            content_type: Some(s.content_type@),
            marks_default: true,
            content: Content::Value(value),
            counted: Some((Outcome::Default, sent(value, head))),
            timed: s.timing,
        },
        (None, None) => Answer {
            status: 404,
            content_type: None,
            marks_default: false,
            content: Content::Empty,
            counted: Some((Outcome::Miss, 0)),
            timed: s.timing,
        },
    }
}

/// The answer is the one to a lookup of the key.
pub open spec fn answers_lookup(s: AppState, key: Seq<u8>, head: bool, a: Answer) -> bool {
    exists|found: Option<Seq<u8>>| #[trigger]
        is_found(s.store, key, found) && a == lookup_answer(s, found, head)
}

/// The answer to a request that names no key.
pub open spec fn missing_key_answer() -> Answer {
    Answer {
        status: 400,
        content_type: None,
        marks_default: false,
        content: Content::Text("missing required query parameter: k\n"@),
        counted: None,
        timed: false,
    }
}

/// How many bytes of a value are sent.
fn sent_len(value: &Bytes, head: bool) -> (n: usize)
    ensures
        n == sent(bytes_of(*value), head),
{
    if head {
        0
    } else {
        as_slice(value).len()
    }
}

/// The reply to a lookup that found `found`.
pub fn reply_to<'a>(s: &'a AppState, found: Option<Bytes>, head: bool) -> (r: Reply<'a>)
    ensures
        r@ == lookup_answer(*s, bytes_if_any(found), head),
{
    let (outcome, body, status, is_default) = match found {
        Some(v) => (Outcome::Hit, Some(v), 200u16, false),
        None => match &s.default_value {
            Some(d) => (Outcome::Default, Some(share_again(d)), 200u16, true),
            None => (Outcome::Miss, None, 404u16, false),
        },
    };
    match body {
        Some(v) => {
            let bytes: usize = sent_len(&v, head);
            Reply {
                status,
                content_type: Some(s.content_type.as_str()),
                marks_default: is_default,
                body: Body::Value(v),
                counted: Some((outcome, bytes)),
                timed: s.timing,
            }
        },
        None => Reply {
            status,
            content_type: None,
            marks_default: false,
            body: Body::Empty,
            counted: Some((outcome, 0)),
            timed: s.timing,
        },
    }
}

/// Look a key up and say what to reply.
pub fn lookup<'a>(s: &'a AppState, key: &[u8], head: bool) -> (r: Reply<'a>)
    ensures
        answers_lookup(*s, key@, head, r@),
{
    let found = s.store.get(key);
    assert(is_found(s.store, key@, bytes_if_any(found)));
    reply_to(s, found, head)
}

/// `GET /kv/{key}`, with the path segment already percent-decoded.
pub fn kv_path<'a>(s: &'a AppState, key: &str, head: bool) -> (r: Reply<'a>)
    ensures
        answers_lookup(*s, encode_utf8(key@), head, r@),
{
    lookup(s, key.as_bytes(), head)
}

/// `GET /kv?k={key}`. No `k` at all is a malformed request, distinct from `k=`, which
/// asks for the empty key.
pub fn kv_query<'a>(s: &'a AppState, q: Option<&str>, head: bool) -> (r: Reply<'a>)
    ensures
        match q {
            Some(q) => match key_in(encode_utf8(q@)) {
                Some(key) => answers_lookup(*s, key, head, r@),
                None => r@ == missing_key_answer(),
            },
            None => r@ == missing_key_answer(),
        },
{
    match key_from_query(q) {
        Some(key) => lookup(s, key.as_slice(), head),
        None => Reply {
            status: 400,
            content_type: None,
            marks_default: false,
            body: Body::Text("missing required query parameter: k\n".to_owned()),
            counted: None,
            timed: false,
        },
    }
}

/// `GET /health`.
pub fn health() -> (s: &'static str)
    ensures
        s@ == "ok"@,
{
    "ok"
}

/// `GET /metrics`. `sum_seconds` is the sum of all latencies in seconds, as text.
pub fn metrics(s: &AppState, m: &Metrics, uptime_seconds: u64, sum_seconds: &Seconds) -> (r: Reply<
    'static,
>)
    ensures
        r@ == (Answer {
            status: 200,
            content_type: Some("text/plain; version=0.0.4; charset=utf-8"@),
            marks_default: false,
            content: Content::Text(
                metrics_text(
                    m@,
                    s.keys as u64,
                    s.arena_bytes as u64,
                    uptime_seconds,
                    sum_seconds@,
                ),
            ),
            counted: None,
            timed: false,
        }),
{
    Reply {
        status: 200,
        content_type: Some("text/plain; version=0.0.4; charset=utf-8"),
        marks_default: false,
        body: Body::Text(m.render(s.keys, s.arena_bytes, uptime_seconds, sum_seconds)),
        counted: None,
        timed: false,
    }
}

/// A character as it stands in a JSON string: quotes, backslashes and the control
/// characters before the space are escaped.
pub open spec fn json_char(c: char) -> Seq<char> {
    if c == '"' {
        seq!['\\', '"']
    } else if c == '\\' {
        seq!['\\', '\\']
    } else if c == '\u{8}' {
        seq!['\\', 'b']
    } else if c == '\t' {
        seq!['\\', 't']
    } else if c == '\n' {
        seq!['\\', 'n']
    } else if c == '\u{c}' {
        seq!['\\', 'f']
    } else if c == '\r' {
        seq!['\\', 'r']
    } else if 0x20 > c as u32 {
        seq!['\\', 'u', '0', '0', hex_char(c as nat / 16), hex_char(c as nat % 16)]
    } else {
        seq![c]
    }
}

/// The characters of a text as they stand in a JSON string.
pub open spec fn json_chars(text: Seq<char>) -> Seq<char>
    decreases text.len(),
{
    if text.len() == 0 {
        Seq::empty()
    } else {
        json_chars(text.drop_last()) + json_char(text.last())
    }
}

/// A text as a JSON string, quotes and all.
pub open spec fn json_string(text: Seq<char>) -> Seq<char> {
    seq!['"'] + json_chars(text) + seq!['"']
}

/// `serde_json::Value::from` a text, then its `Display`: the text as a JSON string, with
/// escapes for quotes, backslashes and control characters, and all else as it is.
#[verifier::external_body]
fn quote_json(text: &str) -> (s: String)
    ensures
        s@ == json_string(text@),
{
    serde_json::Value::from(text).to_string()
}

/// The JSON object that `GET /stats` answers with, its members in the order of their
/// names. `load_ms` is a JSON number.
pub open spec fn stats_text(s: AppState, load_ms: Seq<char>, uptime_seconds: u64) -> Seq<char> {
    "{\"arena_bytes\":"@ + decimal(s.arena_bytes as nat) + ",\"default_value_configured\":"@ + (
    if s.default_value is Some {
        "true"@
    } else {
        "false"@
    }) + ",\"format\":"@ + json_string(s.format@) + ",\"keys\":"@ + decimal(s.keys as nat)
        + ",\"load_ms\":"@ + load_ms + ",\"source\":"@ + json_string(s.source@)
        + ",\"uptime_seconds\":"@ + decimal(uptime_seconds as nat) + "}"@
}

/// `GET /stats`. `load_ms` is how long loading took, as a JSON number.
pub fn stats(s: &AppState, load_ms: &str, uptime_seconds: u64) -> (r: Reply<'static>)
    ensures
        r@ == (Answer {
            status: 200,
            content_type: Some("application/json"@),
            marks_default: false,
            content: Content::Text(stats_text(*s, load_ms@, uptime_seconds)),
            counted: None,
            timed: false,
        }),
{
    let mut o = String::new();
    o.append("{\"arena_bytes\":");
    push_len(&mut o, s.arena_bytes);
    o.append(",\"default_value_configured\":");
    o.append(
        if s.default_value.is_some() {
            "true"
        } else {
            "false"
        },
    );
    o.append(",\"format\":");
    o.append(quote_json(s.format).as_str());
    o.append(",\"keys\":");
    push_len(&mut o, s.keys);
    o.append(",\"load_ms\":");
    o.append(load_ms);
    o.append(",\"source\":");
    o.append(quote_json(s.source.as_str()).as_str());
    o.append(",\"uptime_seconds\":");
    push_decimal(&mut o, uptime_seconds);
    o.append("}");
    assert(o@ =~= stats_text(*s, load_ms@, uptime_seconds));
    Reply {
        status: 200,
        content_type: Some("application/json"),
        marks_default: false,
        body: Body::Text(o),
        counted: None,
        timed: false,
    }
}

/// A configured default makes lookups total: every one is answered with 200.
pub proof fn law_a_default_makes_every_lookup_succeed(
    s: AppState,
    key: Seq<u8>,
    head: bool,
    a: Answer,
)
    requires
        s.default_value is Some,
        answers_lookup(s, key, head, a),
    ensures
        a.status == 200,
{
}

/// Without a default, a lookup is answered with 200 where the key is there, and with 404
/// and nothing else where it is not.
pub proof fn law_without_a_default_a_missing_key_is_not_found(
    s: AppState,
    key: Seq<u8>,
    head: bool,
    a: Answer,
)
    requires
        s.default_value is None,
        answers_lookup(s, key, head, a),
    ensures
        has_key(s.store.entries(), s.store.bytes(), key) ==> a.status == 200,
        has_key(s.store.entries(), s.store.bytes(), key) ==> a.content is Value,
        !has_key(s.store.entries(), s.store.bytes(), key) ==> a == lookup_answer(s, None, head),
        !has_key(s.store.entries(), s.store.bytes(), key) ==> a == (Answer {
            status: 404,
            content_type: None,
            marks_default: false,
            content: Content::Empty,
            counted: Some((Outcome::Miss, 0)),
            timed: s.timing,
        }),
{
    let (entries, arena) = (s.store.entries(), s.store.bytes());
    let found = choose|found: Option<Seq<u8>>| #[trigger]
        is_found(s.store, key, found) && a == lookup_answer(s, found, head);
    if let Some(value) = found {
        let i = choose|i: int|
            0 <= i < entries.len() && (#[trigger] entries[i]).key_in(arena) == key
                && entries[i].value_in(arena) == value;
        assert(entries[i].key_in(arena) == key);
    }
}

/// The marker, the count of served defaults and a missing key with a default to serve
/// always come together; a served default is never counted as a hit.
pub proof fn law_exactly_the_served_defaults_are_marked(
    s: AppState,
    found: Option<Seq<u8>>,
    head: bool,
)
    ensures
        ({
            let a = lookup_answer(s, found, head);
            &&& a.marks_default <==> found is None && s.default_value is Some
            &&& a.marks_default <==> (a.counted->0).0 is Default
            &&& (a.counted->0).0 is Hit <==> found is Some
        }),
{
}

/// A lookup counts once. Its latency goes into the histogram exactly where timing is on;
/// with timing off the histogram stays as it was, whatever the clock says.
pub proof fn law_latencies_are_recorded_exactly_when_timing_is_on(
    s: AppState,
    key: Seq<u8>,
    head: bool,
    a: Answer,
    t: Tally,
    elapsed: Option<u128>,
)
    requires
        answers_lookup(s, key, head, a),
        elapsed is Some,
    ensures
        ({
            let after = a.counted_in(t, elapsed);
            &&& after.requests == plus(t.requests, 1)
            &&& s.timing ==> after == t.with(
                (a.counted->0).0,
                (a.counted->0).1 as u64,
                elapsed,
            ) && after.timed == plus(t.timed, 1)
            &&& !s.timing ==> after == t.with(
                (a.counted->0).0,
                (a.counted->0).1 as u64,
                None,
            ) && after.timed == t.timed && after.buckets == t.buckets && after.sum_nanos
                == t.sum_nanos
        }),
{
}

/// `HEAD` is answered and counted as `GET` is, but for the bytes, which it never sends.
pub proof fn law_head_counts_no_bytes(s: AppState, found: Option<Seq<u8>>)
    ensures
        ({
            let get = lookup_answer(s, found, false);
            let head = lookup_answer(s, found, true);
            &&& head.counted == Some(((get.counted->0).0, 0nat))
            &&& head.status == get.status
            &&& head.content_type == get.content_type
            &&& head.marks_default == get.marks_default
            &&& head.content == get.content
            &&& head.timed == get.timed
        }),
{
}

/// What a dataset says is what the server answers: a key of a clean CSV dataset is
/// answered with 200 and its value, byte for byte and counted as a hit, and any other key
/// with the default, byte for byte and counted as one, or with 404 where there is none.
pub proof fn law_a_loaded_dataset_is_served_as_it_was_written(
    s: AppState,
    rows: Seq<Result<(u64, Seq<Seq<u8>>), Seq<char>>>,
    allow_binary: bool,
    key: Seq<u8>,
    head: bool,
    a: Answer,
)
    requires
        s.store.bytes() == packed(loaded(rows, allow_binary).pairs),
        s.store.entries() == layout(loaded(rows, allow_binary).pairs),
        answers_lookup(s, key, head, a),
    ensures
        ({
            let pairs = loaded(rows, allow_binary).pairs;
            &&& forall|i: int|
                0 <= i < pairs.len() && (#[trigger] pairs[i]).key == key ==> a == lookup_answer(
                    s,
                    Some(pairs[i].value),
                    head,
                )
            &&& !pairs_have_key(pairs, key) ==> a == lookup_answer(s, None, head)
            &&& forall|i: int|
                0 <= i < pairs.len() && (#[trigger] pairs[i]).key == key ==> a == (Answer {
                    status: 200,
                    content_type: Some(s.content_type@),
                    marks_default: false,
                    content: Content::Value(pairs[i].value),
                    counted: Some(
                        (
                            Outcome::Hit,
                            if head {
                                0
                            } else {
                                pairs[i].value.len()
                            },
                        ),
                    ),
                    timed: s.timing,
                })
            &&& (forall|i: int| 0 <= i < pairs.len() ==> (#[trigger] pairs[i]).key != key) ==> a
                == (match s.default_value {
                Some(d) => Answer {
                    status: 200,
                    content_type: Some(s.content_type@),
                    marks_default: true,
                    content: Content::Value(bytes_of(d)),
                    counted: Some(
                        (
                            Outcome::Default,
                            if head {
                                0
                            } else {
                                bytes_of(d).len()
                            },
                        ),
                    ),
                    timed: s.timing,
                },
                None => Answer {
                    status: 404,
                    content_type: None,
                    marks_default: false,
                    content: Content::Empty,
                    counted: Some((Outcome::Miss, 0)),
                    timed: s.timing,
                },
            })
        }),
{
    let pairs = loaded(rows, allow_binary).pairs;
    let (entries, arena) = (s.store.entries(), s.store.bytes());
    law_loaded_pairs_are_distinct_and_fit(rows, allow_binary);
    law_a_dataset_holds_exactly_its_pairs(pairs);
    let found = choose|found: Option<Seq<u8>>| #[trigger]
        is_found(s.store, key, found) && a == lookup_answer(s, found, head);
    assert(has_key(entries, arena, key) <==> pairs_have_key(pairs, key));
    assert forall|i: int| 0 <= i < pairs.len() && (#[trigger] pairs[i]).key == key implies a
        == lookup_answer(s, Some(pairs[i].value), head) by {
        assert(pairs_have_key(pairs, key));
        assert(has_pair(entries, arena, pairs[i].key, found->0));
    }
    if let Some(value) = found {
        let i = choose|i: int|
            0 <= i < entries.len() && (#[trigger] entries[i]).key_in(arena) == key
                && entries[i].value_in(arena) == value;
        assert(entries[i].key_in(arena) == key);
    }
}

} // verus!
