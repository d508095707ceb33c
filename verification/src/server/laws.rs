//! What every reply has to satisfy, in terms of the state and the request.

use crate::metrics::{plus, Outcome, Tally};
use crate::server::handlers::{
    answers_lookup, json_char, json_chars, json_string, lookup_answer,
    missing_key_answer, stats_text, Answer, Body, Content, Reply,
};
use crate::server::AppState;
use crate::store::arena::bytes_of;
use crate::store::format_laws::{
    law_a_dataset_knows_where_it_came_from, law_a_value_is_found_whole_under_its_key,
    starts_with_magic,
};
use crate::store::csv_loader::LoadOptions;
use crate::store::{is_found, loads_to, Loaded, SourceFormat};
use crate::text::{
    decimal, hex_char, hex_digit_value, law_a_hex_digit_reads_back, law_a_number_reads_back,
    law_different_numbers_are_written_differently,
};
use vstd::prelude::*;

verus! {

/// The answer to a lookup is the value that was found, byte for byte; where none was, the
/// configured default, byte for byte and marked as such; and else nothing, with 404. The
/// bytes that count are those of the content, or none for `HEAD`.
pub proof fn law_a_lookup_is_answered_with_the_whole_value(
    s: AppState,
    found: Option<Seq<u8>>,
    head: bool,
)
    ensures
        ({
            let a = lookup_answer(s, found, head);
            &&& a.timed == s.timing
            &&& found matches Some(value) ==> {
                &&& a.status == 200
                &&& a.content == Content::Value(value)
                &&& a.content_type == Some(s.content_type@)
                &&& !a.marks_default
                &&& a.counted == Some(
                    (
                        Outcome::Hit,
                        if head {
                            0
                        } else {
                            value.len()
                        },
                    ),
                )
            }
            &&& found is None ==> match s.default_value {
                Some(d) => {
                    &&& a.status == 200
                    &&& a.content == Content::Value(bytes_of(d))
                    &&& a.content_type == Some(s.content_type@)
                    &&& a.marks_default
                    &&& a.counted == Some(
                        (
                            Outcome::Default,
                            if head {
                                0
                            } else {
                                bytes_of(d).len()
                            },
                        ),
                    )
                },
                None => {
                    &&& a.status == 404
                    &&& a.content == Content::Empty
                    &&& a.content_type is None
                    &&& !a.marks_default
                    &&& a.counted == Some((Outcome::Miss, 0nat))
                },
            }
        }),
{
}

/// A lookup is answered from the store: with the whole of what the windows of an entry
/// show, where an entry shows the key, and as a missing key only where none does.
pub proof fn law_a_lookup_is_answered_from_the_store(
    s: AppState,
    key: Seq<u8>,
    head: bool,
    a: Answer,
)
    requires
        answers_lookup(s, key, head, a),
    ensures
        ({
            let (entries, arena) = (s.store.entries(), s.store.bytes());
            ||| exists|i: int|
                0 <= i < entries.len() && {
                    let e = #[trigger] entries[i];
                    &&& arena.subrange(e.k_off as int, e.k_off + e.k_len) == key
                    &&& a.content == Content::Value(
                        arena.subrange(e.v_off as int, e.v_off + e.v_len),
                    )
                    &&& a.status == 200
                    &&& !a.marks_default
                    &&& (a.counted->0).0 is Hit
                }
            ||| {
                &&& forall|i: int|
                    0 <= i < entries.len() ==> {
                        let e = #[trigger] entries[i];
                        arena.subrange(e.k_off as int, e.k_off + e.k_len) != key
                    }
                &&& match s.default_value {
                    Some(d) => a.status == 200 && a.content == Content::Value(bytes_of(d))
                        && a.marks_default && (a.counted->0).0 is Default,
                    None => a.status == 404 && a.content == Content::Empty && !a.marks_default
                        && (a.counted->0).0 is Miss,
                }
            }
        }),
{
    let found = choose|found: Option<Seq<u8>>| #[trigger]
        is_found(s.store, key, found) && a == lookup_answer(s, found, head);
    law_a_value_is_found_whole_under_its_key(s.store, key, found);
    law_a_lookup_is_answered_with_the_whole_value(s, found, head);
    if let Some(value) = found {
        let (entries, arena) = (s.store.entries(), s.store.bytes());
        let i = choose|i: int|
            0 <= i < entries.len() && {
                let e = #[trigger] entries[i];
                &&& arena.subrange(e.k_off as int, e.k_off + e.k_len) == key
                &&& arena.subrange(e.v_off as int, e.v_off + e.v_len) == value
            };
        let e = entries[i];
        assert(a.content == Content::Value(arena.subrange(e.v_off as int, e.v_off + e.v_len)));
    }
}

/// A lookup is counted once, as what it was: the requests go up by one, and with them
/// exactly one of hits and misses; the bytes go up by those that are sent. What is not a
/// lookup is not counted at all.
pub proof fn law_a_reply_is_counted_as_what_it_was(a: Answer, t: Tally, elapsed: Option<u128>)
    requires
        a.counted matches Some((_, bytes)) ==> bytes <= u64::MAX,
    ensures
        ({
            let after = a.counted_in(t, elapsed);
            &&& a.counted is None ==> after == t
            &&& a.counted matches Some((outcome, bytes)) ==> {
                &&& after.requests == plus(t.requests, 1)
                &&& after.bytes == plus(t.bytes, bytes as u64)
                &&& after.hits == (if outcome is Hit {
                    plus(t.hits, 1)
                } else {
                    t.hits
                })
                &&& after.misses == (if outcome is Hit {
                    t.misses
                } else {
                    plus(t.misses, 1)
                })
                &&& after.defaults == (if outcome is Default {
                    plus(t.defaults, 1)
                } else {
                    t.defaults
                })
                &&& a.timed && elapsed is Some ==> after.timed == plus(t.timed, 1)
                &&& !a.timed ==> after.timed == t.timed && after.buckets == t.buckets
                    && after.sum_nanos == t.sum_nanos
            }
        }),
{
}

/// A request without a key is refused with 400 and a sentence, and is not counted.
pub proof fn law_a_request_without_a_key_is_refused()
    ensures
        missing_key_answer().status == 400,
        missing_key_answer().content == Content::Text("missing required query parameter: k\n"@),
        missing_key_answer().content_type is None,
        !missing_key_answer().marks_default,
        missing_key_answer().counted is None,
        !missing_key_answer().timed,
{
}

/// A reply says what it holds, field by field.
pub proof fn law_a_reply_says_what_it_holds(r: Reply)
    ensures
        r@.status == r.status,
        r.content_type is None <==> r@.content_type is None,
        r.content_type matches Some(t) ==> r@.content_type == Some(t@),
        r@.marks_default == r.marks_default,
        r@.timed == r.timed,
        r.counted is None <==> r@.counted is None,
        r.counted matches Some((outcome, bytes)) ==> r@.counted == Some((outcome, bytes as nat)),
        r.body is Empty <==> r@.content is Empty,
        r.body matches Body::Value(v) ==> r@.content == Content::Value(bytes_of(v)),
        r.body matches Body::Text(t) ==> r@.content == Content::Text(t@),
{
}

/// The character that stands behind a backslash for another one.
pub open spec fn meant_by(c: char) -> char {
    if c == 'b' {
        8 as char
    } else if c == 't' {
        9 as char
    } else if c == 'n' {
        10 as char
    } else if c == 'f' {
        12 as char
    } else if c == 'r' {
        13 as char
    } else {
        c
    }
}

/// What a JSON string, from behind its first quote on, stands for: its text, and what
/// follows its closing quote.
pub open spec fn json_read(s: Seq<char>) -> (Seq<char>, Seq<char>)
    decreases s.len(),
{
    if s.len() == 0 || s[0] == '"' {
        (Seq::empty(), s.skip(1))
    } else if s[0] == '\\' && s.len() >= 6 && s[1] == 'u' {
        let (text, rest) = json_read(s.skip(6));
        let code = 4096 * hex_digit_value(s[2]) + 256 * hex_digit_value(s[3]) + 16
            * hex_digit_value(s[4]) + hex_digit_value(s[5]);
        (seq![code as char] + text, rest)
    } else if s[0] == '\\' && s.len() >= 2 {
        let (text, rest) = json_read(s.skip(2));
        (seq![meant_by(s[1])] + text, rest)
    } else {
        let (text, rest) = json_read(s.skip(1));
        (seq![s[0]] + text, rest)
    }
}

proof fn lemma_json_chars_split(a: Seq<char>, b: Seq<char>)
    ensures
        json_chars(a + b) == json_chars(a) + json_chars(b),
    decreases b.len(),
{
    if b.len() == 0 {
        assert(a + b =~= a);
        assert(json_chars(a) =~= json_chars(a) + json_chars(b));
    } else {
        lemma_json_chars_split(a, b.drop_last());
        assert((a + b).drop_last() =~= a + b.drop_last());
        assert(json_chars(a + b) =~= json_chars(a) + json_chars(b));
    }
}

proof fn lemma_json_reads_one(c: char, s: Seq<char>)
    ensures
        json_read(json_char(c) + s) == (seq![c] + json_read(s).0, json_read(s).1),
{
    let all = json_char(c) + s;
    let n = json_char(c).len() as int;
    assert(all.skip(n) =~= s);
    law_a_hex_digit_reads_back(0);
    if c == '"' || c == '\\' || c == '\u{8}' || c == '\t' || c == '\n' || c == '\u{c}' || c
        == '\r' {
        assert(all[0] == '\\');
        assert(n == 2);
        assert(all[1] != 'u');
        assert(meant_by(all[1]) == c);
    } else if 0x20 > c as u32 {
        let (high, low) = (c as nat / 16, c as nat % 16);
        law_a_hex_digit_reads_back(high);
        law_a_hex_digit_reads_back(low);
        assert(n == 6);
        assert(all[0] == '\\' && all[1] == 'u' && all[2] == '0' && all[3] == '0');
        assert(all[4] == hex_char(high) && all[5] == hex_char(low));
        assert(16 * high + low == c as nat);
    } else {
        assert(n == 1);
        assert(all[0] == c);
    }
}

/// A text as a JSON string reads back as the text, whatever follows the string.
pub proof fn law_a_json_string_reads_back(text: Seq<char>, more: Seq<char>)
    ensures
        json_string(text).len() >= 2,
        json_string(text)[0] == '"',
        json_string(text).last() == '"',
        json_read((json_string(text) + more).skip(1)) == (text, more),
    decreases text.len(),
{
    let tail = (json_string(text) + more).skip(1);
    assert(tail =~= json_chars(text) + seq!['"'] + more);
    if text.len() == 0 {
        assert(tail.skip(1) =~= more);
        assert(text =~= Seq::empty());
    } else {
        let (first, rest) = (text[0], text.skip(1));
        law_a_json_string_reads_back(rest, more);
        let later = (json_string(rest) + more).skip(1);
        assert(later =~= json_chars(rest) + seq!['"'] + more);
        assert(text =~= seq![first] + rest);
        lemma_json_chars_split(seq![first], rest);
        assert(seq![first].drop_last() =~= Seq::empty());
        assert(json_chars(seq![first]) =~= json_char(first)) by {
            reveal_with_fuel(json_chars, 2);
        }
        assert(tail =~= json_char(first) + later);
        lemma_json_reads_one(first, later);
        assert(seq![first] + rest =~= text);
    }
}

/// Different texts are different JSON strings, and what follows them does not blur that.
proof fn lemma_json_strings_differ(
    a: Seq<char>,
    b: Seq<char>,
    after_a: Seq<char>,
    after_b: Seq<char>,
)
    requires
        json_string(a) + after_a == json_string(b) + after_b,
    ensures
        a == b,
        after_a == after_b,
{
    law_a_json_string_reads_back(a, after_a);
    law_a_json_string_reads_back(b, after_b);
}

/// What stands before the first comma can be told from anything else that does.
proof fn lemma_until_comma(a: Seq<char>, b: Seq<char>, after_a: Seq<char>, after_b: Seq<char>)
    requires
        a + after_a == b + after_b,
        !a.contains(','),
        !b.contains(','),
        after_a.len() > 0,
        after_b.len() > 0,
        after_a[0] == ',',
        after_b[0] == ',',
    ensures
        a == b,
        after_a == after_b,
{
    let (whole, same) = (a + after_a, b + after_b);
    if a.len() < b.len() {
        assert(whole[a.len() as int] == ',');
        assert(b.contains(b[a.len() as int]));
    } else if b.len() < a.len() {
        assert(same[b.len() as int] == ',');
        assert(a.contains(a[b.len() as int]));
    }
    assert(a =~= whole.take(a.len() as int));
    assert(b =~= same.take(a.len() as int));
    assert(after_a =~= whole.skip(a.len() as int));
    assert(after_b =~= same.skip(a.len() as int));
}

proof fn lemma_same_front(front: Seq<char>, a: Seq<char>, b: Seq<char>)
    requires
        front + a == front + b,
    ensures
        a == b,
{
    assert(a =~= (front + a).skip(front.len() as int));
    assert(b =~= (front + b).skip(front.len() as int));
}

proof fn lemma_same_back(back: Seq<char>, a: Seq<char>, b: Seq<char>)
    requires
        a + back == b + back,
    ensures
        a == b,
{
    assert((a + back).len() == a.len() + back.len());
    assert((b + back).len() == b.len() + back.len());
    assert(a =~= (a + back).take(a.len() as int));
    assert(b =~= (b + back).take(a.len() as int));
}

/// The text of whether a default is configured.
spec fn yes_or_no(yes: bool) -> Seq<char> {
    if yes {
        "true"@
    } else {
        "false"@
    }
}

spec fn stats_from_uptime(uptime_seconds: u64) -> Seq<char> {
    ",\"uptime_seconds\":"@ + (decimal(uptime_seconds as nat) + "}"@)
}

spec fn stats_from_source(s: AppState, uptime_seconds: u64) -> Seq<char> {
    ",\"source\":"@ + (json_string(s.source@) + stats_from_uptime(uptime_seconds))
}

spec fn stats_from_load(s: AppState, load_ms: Seq<char>, uptime_seconds: u64) -> Seq<char> {
    ",\"load_ms\":"@ + (load_ms + stats_from_source(s, uptime_seconds))
}

spec fn stats_from_keys(s: AppState, load_ms: Seq<char>, uptime_seconds: u64) -> Seq<char> {
    ",\"keys\":"@ + (decimal(s.keys as nat) + stats_from_load(s, load_ms, uptime_seconds))
}

spec fn stats_from_format(s: AppState, load_ms: Seq<char>, uptime_seconds: u64) -> Seq<char> {
    ",\"format\":"@ + (json_string(s.format@) + stats_from_keys(s, load_ms, uptime_seconds))
}

spec fn stats_from_default(s: AppState, load_ms: Seq<char>, uptime_seconds: u64) -> Seq<char> {
    ",\"default_value_configured\":"@ + (yes_or_no(s.default_value is Some) + stats_from_format(
        s,
        load_ms,
        uptime_seconds,
    ))
}

proof fn lemma_stats_text(s: AppState, load_ms: Seq<char>, uptime_seconds: u64)
    ensures
        stats_text(s, load_ms, uptime_seconds) == "{\"arena_bytes\":"@ + (decimal(
            s.arena_bytes as nat,
        ) + stats_from_default(s, load_ms, uptime_seconds)),
{
    let arena = "{\"arena_bytes\":"@ + decimal(s.arena_bytes as nat);
    let default = arena + ",\"default_value_configured\":"@ + yes_or_no(
        s.default_value is Some,
    );
    let format = default + ",\"format\":"@ + json_string(s.format@);
    let keys = format + ",\"keys\":"@ + decimal(s.keys as nat);
    let load = keys + ",\"load_ms\":"@ + load_ms;
    let source = load + ",\"source\":"@ + json_string(s.source@);
    let u = stats_from_uptime(uptime_seconds);
    let o = stats_from_source(s, uptime_seconds);
    let l = stats_from_load(s, load_ms, uptime_seconds);
    let k = stats_from_keys(s, load_ms, uptime_seconds);
    let f = stats_from_format(s, load_ms, uptime_seconds);
    let d = stats_from_default(s, load_ms, uptime_seconds);
    lemma_regroup(
        source,
        ",\"uptime_seconds\":"@,
        decimal(uptime_seconds as nat),
        "}"@,
    );
    lemma_regroup(load, ",\"source\":"@, json_string(s.source@), u);
    lemma_regroup(keys, ",\"load_ms\":"@, load_ms, o);
    lemma_regroup(format, ",\"keys\":"@, decimal(s.keys as nat), l);
    lemma_regroup(default, ",\"format\":"@, json_string(s.format@), k);
    lemma_regroup(
        arena,
        ",\"default_value_configured\":"@,
        yes_or_no(s.default_value is Some),
        f,
    );
    lemma_regroup(Seq::empty(), "{\"arena_bytes\":"@, decimal(s.arena_bytes as nat), d);
    assert(Seq::<char>::empty() + "{\"arena_bytes\":"@ =~= "{\"arena_bytes\":"@);
    let whole = "{\"arena_bytes\":"@ + (decimal(s.arena_bytes as nat) + d);
    assert(Seq::<char>::empty() + whole =~= whole);
}

proof fn lemma_regroup(front: Seq<char>, name: Seq<char>, value: Seq<char>, rest: Seq<char>)
    ensures
        front + name + value + rest == front + (name + (value + rest)),
{
    assert(front + name + value + rest =~= front + (name + (value + rest)));
}

/// The part stands in the text somewhere.
pub open spec fn has_part(text: Seq<char>, part: Seq<char>) -> bool {
    exists|at: int|
        0 <= at && at + part.len() <= text.len() && #[trigger] text.subrange(
            at,
            at + part.len(),
        ) == part
}

proof fn lemma_has_part(before: Seq<char>, part: Seq<char>, after: Seq<char>)
    ensures
        has_part(before + (part + after), part),
{
    let text = before + (part + after);
    let at = before.len() as int;
    assert(text.subrange(at, at + part.len()) =~= part);
}

proof fn lemma_part_of_part(text: Seq<char>, before: Seq<char>, rest: Seq<char>, part: Seq<char>)
    requires
        text == before + rest,
        has_part(rest, part),
    ensures
        has_part(text, part),
{
    let at = choose|at: int|
        0 <= at && at + part.len() <= rest.len() && #[trigger] rest.subrange(
            at,
            at + part.len(),
        ) == part;
    let n = before.len() + at;
    assert(text.subrange(n, n + part.len()) =~= part);
}

/// The stats name each member of the state and, right behind the name, what the state has
/// for it: numbers in decimal, texts as JSON strings, and whether there is a default as
/// `true` or `false`.
#[verifier::rlimit(40)]
pub proof fn law_stats_say_what_the_state_has(
    s: AppState,
    load_ms: Seq<char>,
    uptime_seconds: u64,
)
    ensures
        ({
            let text = stats_text(s, load_ms, uptime_seconds);
            &&& text.len() > 1 && text[0] == '{' && text.last() == '}'
            &&& has_part(text, "{\"arena_bytes\":"@ + decimal(s.arena_bytes as nat) + ","@)
            &&& s.default_value is Some ==> has_part(
                text,
                ",\"default_value_configured\":true,"@,
            )
            &&& s.default_value is None ==> has_part(
                text,
                ",\"default_value_configured\":false,"@,
            )
            &&& has_part(text, ",\"format\":"@ + json_string(s.format@) + ","@)
            &&& has_part(text, ",\"keys\":"@ + decimal(s.keys as nat) + ","@)
            &&& has_part(text, ",\"load_ms\":"@ + load_ms + ","@)
            &&& has_part(text, ",\"source\":"@ + json_string(s.source@) + ","@)
            &&& has_part(text, ",\"uptime_seconds\":"@ + decimal(uptime_seconds as nat) + "}"@)
        }),
{
    let text = stats_text(s, load_ms, uptime_seconds);
    let (d, f, k, l, o, u) = (
        stats_from_default(s, load_ms, uptime_seconds),
        stats_from_format(s, load_ms, uptime_seconds),
        stats_from_keys(s, load_ms, uptime_seconds),
        stats_from_load(s, load_ms, uptime_seconds),
        stats_from_source(s, uptime_seconds),
        stats_from_uptime(uptime_seconds),
    );
    let arena = "{\"arena_bytes\":"@ + decimal(s.arena_bytes as nat);
    let default = ",\"default_value_configured\":"@ + yes_or_no(s.default_value is Some);
    let format = ",\"format\":"@ + json_string(s.format@);
    let keys = ",\"keys\":"@ + decimal(s.keys as nat);
    let load = ",\"load_ms\":"@ + load_ms;
    let source = ",\"source\":"@ + json_string(s.source@);
    lemma_stats_text(s, load_ms, uptime_seconds);
    reveal_strlit("{\"arena_bytes\":");
    reveal_strlit(",\"default_value_configured\":");
    reveal_strlit(",\"format\":");
    reveal_strlit(",\"keys\":");
    reveal_strlit(",\"load_ms\":");
    reveal_strlit(",\"source\":");
    reveal_strlit(",\"uptime_seconds\":");
    reveal_strlit(",");
    reveal_strlit("}");
    assert(text =~= arena + d);
    assert(d =~= default + f);
    assert(f =~= format + k);
    assert(k =~= keys + l);
    assert(l =~= load + o);
    assert(o =~= source + u);
    lemma_member(text, arena, d);
    lemma_member(d, default, f);
    lemma_member(f, format, k);
    lemma_member(k, keys, l);
    lemma_member(l, load, o);
    lemma_member(o, source, u);
    let last = ",\"uptime_seconds\":"@ + decimal(uptime_seconds as nat) + "}"@;
    assert(u =~= last);
    lemma_has_part(Seq::empty(), last, Seq::empty());
    assert(Seq::empty() + (last + Seq::empty()) =~= u);
    lemma_part_of_part(o, source, u, last);
    lemma_part_of_part(l, load, o, last);
    lemma_part_of_part(k, keys, l, last);
    lemma_part_of_part(f, format, k, last);
    lemma_part_of_part(d, default, f, last);
    lemma_part_of_part(text, arena, d, last);
    lemma_part_of_part(l, load, o, source + ","@);
    lemma_part_of_part(k, keys, l, source + ","@);
    lemma_part_of_part(f, format, k, source + ","@);
    lemma_part_of_part(d, default, f, source + ","@);
    lemma_part_of_part(text, arena, d, source + ","@);
    lemma_part_of_part(k, keys, l, load + ","@);
    lemma_part_of_part(f, format, k, load + ","@);
    lemma_part_of_part(d, default, f, load + ","@);
    lemma_part_of_part(text, arena, d, load + ","@);
    lemma_part_of_part(f, format, k, keys + ","@);
    lemma_part_of_part(d, default, f, keys + ","@);
    lemma_part_of_part(text, arena, d, keys + ","@);
    lemma_part_of_part(d, default, f, format + ","@);
    lemma_part_of_part(text, arena, d, format + ","@);
    lemma_part_of_part(text, arena, d, default + ","@);
    lemma_yes_or_no(s.default_value is Some);
    assert(text.last() == u.last());
}

proof fn lemma_yes_or_no(yes: bool)
    ensures
        ",\"default_value_configured\":"@ + yes_or_no(yes) + ","@ == (if yes {
            ",\"default_value_configured\":true,"@
        } else {
            ",\"default_value_configured\":false,"@
        }),
{
    reveal_strlit(",\"default_value_configured\":");
    reveal_strlit(",\"default_value_configured\":true,");
    reveal_strlit(",\"default_value_configured\":false,");
    reveal_strlit("true");
    reveal_strlit("false");
    reveal_strlit(",");
    let made = ",\"default_value_configured\":"@ + yes_or_no(yes) + ","@;
    if yes {
        assert(made =~= ",\"default_value_configured\":true,"@);
    } else {
        assert(made =~= ",\"default_value_configured\":false,"@);
    }
}

proof fn lemma_member(text: Seq<char>, member: Seq<char>, rest: Seq<char>)
    requires
        text == member + rest,
        rest.len() > 0,
        rest[0] == ',',
    ensures
        has_part(text, member + ","@),
{
    reveal_strlit(",");
    let after = rest.skip(1);
    assert(rest =~= ","@ + after);
    assert(text =~= Seq::empty() + ((member + ","@) + after));
    lemma_has_part(Seq::empty(), member + ","@, after);
}

/// Stats tell states apart: where the text is the same, so are the arena bytes, whether
/// there is a default, the format, the keys, the source, the load time and the uptime. A
/// load time is a number, without commas.
#[verifier::rlimit(40)]
pub proof fn law_stats_tell_states_apart(
    a: AppState,
    b: AppState,
    load_a: Seq<char>,
    load_b: Seq<char>,
    uptime_a: u64,
    uptime_b: u64,
)
    requires
        stats_text(a, load_a, uptime_a) == stats_text(b, load_b, uptime_b),
        !load_a.contains(','),
        !load_b.contains(','),
    ensures
        a.arena_bytes == b.arena_bytes,
        a.default_value is Some <==> b.default_value is Some,
        a.format@ == b.format@,
        a.keys == b.keys,
        load_a == load_b,
        a.source@ == b.source@,
        uptime_a == uptime_b,
{
    lemma_stats_text(a, load_a, uptime_a);
    lemma_stats_text(b, load_b, uptime_b);
    reveal_strlit(",\"default_value_configured\":");
    reveal_strlit(",\"format\":");
    reveal_strlit(",\"load_ms\":");
    reveal_strlit(",\"source\":");
    reveal_strlit("true");
    reveal_strlit("false");
    let (da, db) = (
        stats_from_default(a, load_a, uptime_a),
        stats_from_default(b, load_b, uptime_b),
    );
    let (fa, fb) = (
        stats_from_format(a, load_a, uptime_a),
        stats_from_format(b, load_b, uptime_b),
    );
    let (ka, kb) = (stats_from_keys(a, load_a, uptime_a), stats_from_keys(b, load_b, uptime_b));
    let (la, lb) = (stats_from_load(a, load_a, uptime_a), stats_from_load(b, load_b, uptime_b));
    let (oa, ob) = (stats_from_source(a, uptime_a), stats_from_source(b, uptime_b));
    let (na, nb) = (decimal(a.arena_bytes as nat), decimal(b.arena_bytes as nat));
    lemma_same_front("{\"arena_bytes\":"@, na + da, nb + db);
    lemma_decimal_has_no_comma(a.arena_bytes as nat);
    lemma_decimal_has_no_comma(b.arena_bytes as nat);
    lemma_until_comma(na, nb, da, db);
    law_different_numbers_are_written_differently(a.arena_bytes as nat, b.arena_bytes as nat);
    let (ya, yb) = (yes_or_no(a.default_value is Some), yes_or_no(b.default_value is Some));
    lemma_same_front(",\"default_value_configured\":"@, ya + fa, yb + fb);
    assert((ya + fa)[0] == ya[0] && (yb + fb)[0] == yb[0]);
    assert(ya == yb);
    lemma_same_front(ya, fa, fb);
    lemma_same_front(",\"format\":"@, json_string(a.format@) + ka, json_string(b.format@) + kb);
    lemma_json_strings_differ(a.format@, b.format@, ka, kb);
    let (ma, mb) = (decimal(a.keys as nat), decimal(b.keys as nat));
    lemma_same_front(",\"keys\":"@, ma + la, mb + lb);
    lemma_decimal_has_no_comma(a.keys as nat);
    lemma_decimal_has_no_comma(b.keys as nat);
    lemma_until_comma(ma, mb, la, lb);
    law_different_numbers_are_written_differently(a.keys as nat, b.keys as nat);
    lemma_same_front(",\"load_ms\":"@, load_a + oa, load_b + ob);
    lemma_until_comma(load_a, load_b, oa, ob);
    let (ua, ub) = (stats_from_uptime(uptime_a), stats_from_uptime(uptime_b));
    lemma_same_front(",\"source\":"@, json_string(a.source@) + ua, json_string(b.source@) + ub);
    lemma_json_strings_differ(a.source@, b.source@, ua, ub);
    let (ta, tb) = (decimal(uptime_a as nat), decimal(uptime_b as nat));
    lemma_same_front(",\"uptime_seconds\":"@, ta + "}"@, tb + "}"@);
    lemma_same_back("}"@, ta, tb);
    law_different_numbers_are_written_differently(uptime_a as nat, uptime_b as nat);
}

proof fn lemma_decimal_has_no_comma(n: nat)
    ensures
        !decimal(n).contains(','),
{
    law_a_number_reads_back(n);
}

/// The stats of a dataset say what kind of file it came from: `"compiled"` where the bytes
/// start with the magic of compiled files, and `"csv"` everywhere else.
#[verifier::rlimit(40)]
pub proof fn law_stats_say_where_a_dataset_came_from(
    data: Seq<u8>,
    opts: LoadOptions,
    l: Loaded,
    s: AppState,
    load_ms: Seq<char>,
    uptime_seconds: u64,
)
    requires
        loads_to(data, opts, Ok(l)),
        s.format@ == (match l.format {
            SourceFormat::Csv => "csv"@,
            SourceFormat::Compiled => "compiled"@,
        }),
    ensures
        starts_with_magic(data) ==> has_part(
            stats_text(s, load_ms, uptime_seconds),
            ",\"format\":\"compiled\","@,
        ),
        !starts_with_magic(data) ==> has_part(
            stats_text(s, load_ms, uptime_seconds),
            ",\"format\":\"csv\","@,
        ),
{
    law_a_dataset_knows_where_it_came_from(data, opts, l);
    law_stats_say_what_the_state_has(s, load_ms, uptime_seconds);
    let part = ",\"format\":"@ + json_string(s.format@) + ","@;
    reveal_strlit(",\"format\":");
    reveal_strlit(",");
    if starts_with_magic(data) {
        reveal_strlit("compiled");
        reveal_strlit(",\"format\":\"compiled\",");
        lemma_plain_json_chars("compiled"@);
        assert(part =~= ",\"format\":\"compiled\","@);
    } else {
        reveal_strlit("csv");
        reveal_strlit(",\"format\":\"csv\",");
        lemma_plain_json_chars("csv"@);
        assert(part =~= ",\"format\":\"csv\","@);
    }
}

proof fn lemma_plain_json_chars(text: Seq<char>)
    requires
        forall|i: int|
            0 <= i < text.len() ==> (#[trigger] text[i]) as u32 >= 0x20 && text[i] != '"'
                && text[i] != '\\',
    ensures
        json_chars(text) == text,
    decreases text.len(),
{
    if text.len() > 0 {
        lemma_plain_json_chars(text.drop_last());
        assert(text =~= text.drop_last().push(text.last()));
    }
}

/// A text without quotes, backslashes and control characters stands in JSON as it is,
/// between two quotes.
pub proof fn law_a_plain_text_is_its_own_json(text: Seq<char>)
    requires
        forall|i: int|
            0 <= i < text.len() ==> (#[trigger] text[i]) as u32 >= 0x20 && text[i] != '"'
                && text[i] != '\\',
    ensures
        json_string(text) == seq!['"'] + text + seq!['"'],
{
    lemma_plain_json_chars(text);
}

} // verus!
