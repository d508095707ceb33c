//! What a caller can count on: from the bytes of a file, a request or a command line to
//! what the public functions return for them.

use crate::cli::compile::{cmd_build, scratch_suffix, Plan};
use crate::cli::health::{cmd_healthcheck, probe_address, probe_request};
use crate::cli::laws::{
    bytes_in, law_a_failed_load_ends_the_server, law_a_health_check_says_what_it_heard,
    law_build_writes_the_pairs_of_its_source, law_check_says_what_it_found, law_only_200_is_healthy,
    law_the_loopback_address_stands_in_for_every_interface, located,
};
use crate::cli::{cmd_check, listening_line, report_load_failure, Report};
use crate::config::{
    in_lower_case, law_the_extension_decides_where_no_delimiter_is_given, options_for, BuildArgs,
    DataArgs, ParseArgs,
};
use crate::metrics::families::Seconds;
use crate::metrics::laws::law_the_text_says_what_was_counted;
use crate::metrics::{Metrics, Outcome};
use crate::path::DataPath;
use crate::server::handlers::{
    health, json_string, kv_path, kv_query, law_a_loaded_dataset_is_served_as_it_was_written,
    lookup_answer, metrics, stats, Body, Reply,
};
use crate::server::laws::{
    has_part, law_stats_say_what_the_state_has, law_stats_say_where_a_dataset_came_from,
};
use crate::server::query::{key_from_query, key_in, law_a_plain_value_is_the_key};
use crate::server::{
    content_type_for, law_the_content_type_follows_the_flags, next_backoff, AppState,
};
use crate::store::arena::bytes_of;
use crate::store::compiled::{dataset_flags, image, is_compiled, read_compiled, CompiledError};
use crate::store::csv_loader::{layout, loaded, packed, parse_csv, DataError, LoadOptions};
use crate::store::format_laws::{
    first_stray_entry, law_a_compiled_file_is_read_byte_by_byte,
    law_a_dataset_knows_where_it_came_from, law_a_readable_file_is_whole_and_stays_inside_its_arena,
    law_a_value_is_found_whole_under_its_key, law_bytes_load_as_what_they_are,
    law_compiled_files_start_with_their_magic, law_each_refusal_has_its_reason, number_at,
    starts_with_magic,
};
use crate::store::row_laws::law_a_load_returns_what_it_found;
use crate::store::rows::csv_rows;
use crate::store::{is_found, load, Entry, LoadFailure, Loaded, Store};
use crate::text::{decimal, lines, unlines};
use bytes::Bytes;
use vstd::prelude::*;
use vstd::utf8::encode_utf8;

verus! {

/// A reply with the value, byte for byte: a hit, with 200 and the content type.
pub open spec fn holds(r: Reply, value: Seq<u8>, content_type: Seq<char>, head: bool) -> bool {
    &&& r.status == 200
    &&& r.content_type matches Some(t)
    &&& t@ == content_type
    &&& !r.marks_default
    &&& r.body matches Body::Value(v)
    &&& bytes_of(v) == value
    &&& r.counted matches Some((outcome, sent))
    &&& outcome is Hit
    &&& sent == (if head {
        0
    } else {
        value.len()
    })
}

/// A reply for a missing key: the default, byte for byte and marked, or 404 and nothing.
pub open spec fn stands_in(
    r: Reply,
    default_value: Option<Vec<u8>>,
    content_type: Seq<char>,
    head: bool,
) -> bool {
    match default_value {
        Some(d) => {
            &&& r.status == 200
            &&& r.content_type matches Some(t)
            &&& t@ == content_type
            &&& r.marks_default
            &&& r.body matches Body::Value(v)
            &&& bytes_of(v) == d@
            &&& r.counted matches Some((outcome, sent))
            &&& outcome is Default
            &&& sent == (if head {
                0
            } else {
                d@.len()
            })
        },
        None => {
            &&& r.status == 404
            &&& r.content_type is None
            &&& !r.marks_default
            &&& r.body is Empty
            &&& r.counted == Some((Outcome::Miss, 0usize))
        },
    }
}

/// From the bytes of a CSV file to the reply on the path of a key: the value of the pair
/// with that key, and for any other key the default or 404. The content type is the given
/// one; else text, or bytes where binary values were allowed.
pub proof fn law_a_csv_file_is_served_as_it_was_written(
    data: Vec<u8>,
    source: &str,
    opts: &LoadOptions,
    l: Loaded,
    default_value: Option<Vec<u8>>,
    content_type: Option<String>,
    timing: bool,
    s: &AppState,
    key: &str,
    head: bool,
    r: Reply,
)
    requires
        !starts_with_magic(data@),
        call_ensures(load, (Ok(data), source, opts), Ok(l)),
        call_ensures(AppState::for_dataset, (l, default_value, content_type, timing), *s),
        call_ensures(kv_path, (s, key, head), r),
    ensures
        ({
            let rows = csv_rows(data@, opts.delimiter, opts.has_header);
            let pairs = loaded(rows, opts.allow_binary).pairs;
            let kind = match content_type {
                Some(given) => given@,
                None => if opts.allow_binary {
                    "application/octet-stream"@
                } else {
                    "text/plain; charset=utf-8"@
                },
            };
            &&& r.timed == timing
            &&& forall|i: int|
                0 <= i < pairs.len() && (#[trigger] pairs[i]).key == encode_utf8(key@)
                    ==> holds(r, pairs[i].value, kind, head)
            &&& (forall|i: int|
                0 <= i < pairs.len() ==> (#[trigger] pairs[i]).key != encode_utf8(key@))
                ==> stands_in(r, default_value, kind, head)
        }),
{
    let rows = csv_rows(data@, opts.delimiter, opts.has_header);
    law_bytes_load_as_what_they_are(data@, *opts, Ok(l));
    law_a_dataset_knows_where_it_came_from(data@, *opts, l);
    let given = match content_type {
        Some(given) => given@,
        None => Seq::empty(),
    };
    law_the_content_type_follows_the_flags(given, l.flags);
    law_a_loaded_dataset_is_served_as_it_was_written(
        *s,
        rows,
        opts.allow_binary,
        encode_utf8(key@),
        head,
        r@,
    );
}

/// The key of an entry of a compiled file.
pub open spec fn key_of_entry(data: Seq<u8>, i: int) -> Seq<u8> {
    let start = 24 + 16 * number_at(data, 12) + number_at(data, 24 + 16 * i);
    data.subrange(start, start + number_at(data, 28 + 16 * i))
}

/// The value of an entry of a compiled file.
pub open spec fn value_of_entry(data: Seq<u8>, i: int) -> Seq<u8> {
    let start = 24 + 16 * number_at(data, 12) + number_at(data, 32 + 16 * i);
    data.subrange(start, start + number_at(data, 36 + 16 * i))
}

/// From the bytes of a compiled file to the reply on the path of a key: the value of an
/// entry with that key, as it stands in the file, and where no entry has the key the
/// default or 404.
pub proof fn law_a_compiled_file_is_served_as_it_was_written(
    data: Vec<u8>,
    source: &str,
    opts: &LoadOptions,
    l: Loaded,
    default_value: Option<Vec<u8>>,
    content_type: Option<String>,
    timing: bool,
    s: &AppState,
    key: &str,
    head: bool,
    r: Reply,
)
    requires
        starts_with_magic(data@),
        call_ensures(load, (Ok(data), source, opts), Ok(l)),
        call_ensures(AppState::for_dataset, (l, default_value, content_type, timing), *s),
        call_ensures(kv_path, (s, key, head), r),
    ensures
        ({
            let count = number_at(data@, 12);
            let kind = match content_type {
                Some(given) => given@,
                None => if number_at(data@, 8) % 2 == 1 {
                    "application/octet-stream"@
                } else {
                    "text/plain; charset=utf-8"@
                },
            };
            &&& r.timed == timing
            &&& {
                ||| exists|i: int|
                    0 <= i < count && #[trigger] key_of_entry(data@, i) == encode_utf8(key@)
                        && holds(r, value_of_entry(data@, i), kind, head)
                ||| {
                    &&& forall|i: int|
                        0 <= i < count ==> #[trigger] key_of_entry(data@, i) != encode_utf8(key@)
                    &&& stands_in(r, default_value, kind, head)
                }
            }
        }),
{
    let bytes = data@;
    let count = number_at(bytes, 12);
    let wanted = encode_utf8(key@);
    law_bytes_load_as_what_they_are(bytes, *opts, Ok(l));
    law_a_dataset_knows_where_it_came_from(bytes, *opts, l);
    law_a_readable_file_is_whole_and_stays_inside_its_arena(bytes);
    law_a_compiled_file_is_read_byte_by_byte(bytes);
    let given = match content_type {
        Some(given) => given@,
        None => Seq::empty(),
    };
    law_the_content_type_follows_the_flags(given, l.flags);
    let (arena, entries) = (s.store.bytes(), s.store.entries());
    assert forall|i: int| 0 <= i < count implies {
        let e = entries[i];
        &&& arena.subrange(e.k_off as int, e.k_off + e.k_len) == #[trigger] key_of_entry(bytes, i)
        &&& arena.subrange(e.v_off as int, e.v_off + e.v_len) == value_of_entry(bytes, i)
    } by {
        let e = entries[i];
        assert(number_at(bytes, 24 + 16 * i) == e.k_off);
        assert(arena.subrange(e.k_off as int, e.k_off + e.k_len) =~= key_of_entry(bytes, i));
        assert(arena.subrange(e.v_off as int, e.v_off + e.v_len) =~= value_of_entry(bytes, i));
    }
    let found = choose|found: Option<Seq<u8>>| #[trigger]
        is_found(s.store, wanted, found) && r@
            == lookup_answer(*s, found, head);
    law_a_value_is_found_whole_under_its_key(s.store, wanted, found);
    match found {
        Some(value) => {
            let i = choose|i: int|
                0 <= i < entries.len() && {
                    let e = #[trigger] entries[i];
                    &&& arena.subrange(e.k_off as int, e.k_off + e.k_len) == wanted
                    &&& arena.subrange(e.v_off as int, e.v_off + e.v_len) == value
                };
            assert(key_of_entry(bytes, i) == wanted);
            assert(holds(
                r,
                value_of_entry(bytes, i),
                match content_type {
                    Some(given) => given@,
                    None => if number_at(bytes, 8) % 2 == 1 {
                        "application/octet-stream"@
                    } else {
                        "text/plain; charset=utf-8"@
                    },
                },
                head,
            ));
        },
        None => {
            assert forall|i: int| 0 <= i < count implies #[trigger] key_of_entry(bytes, i)
                != wanted by {
                let e = entries[i];
                assert(arena.subrange(e.k_off as int, e.k_off + e.k_len) != wanted);
            }
        },
    }
}

/// A query is answered as the path of its key is: from the store, with what an entry with
/// that key shows, and as a missing key where none has it. Without `k` it is refused.
pub proof fn law_a_query_is_answered_from_the_store(
    s: &AppState,
    q: Option<&str>,
    head: bool,
    r: Reply,
)
    requires
        call_ensures(kv_query, (s, q, head), r),
    ensures
        ({
            let (entries, arena) = (s.store.entries(), s.store.bytes());
            let asked = match q {
                Some(q) => key_in(encode_utf8(q@)),
                None => None,
            };
            match asked {
                Some(key) => {
                    ||| exists|i: int|
                        0 <= i < entries.len() && {
                            let e = #[trigger] entries[i];
                            &&& arena.subrange(e.k_off as int, e.k_off + e.k_len) == key
                            &&& holds(
                                r,
                                arena.subrange(e.v_off as int, e.v_off + e.v_len),
                                s.content_type@,
                                head,
                            )
                        }
                    ||| {
                        &&& forall|i: int|
                            0 <= i < entries.len() ==> {
                                let e = #[trigger] entries[i];
                                arena.subrange(e.k_off as int, e.k_off + e.k_len) != key
                            }
                        &&& s.default_value is None ==> stands_in(r, None, s.content_type@, head)
                        &&& s.default_value matches Some(d) ==> {
                            &&& r.status == 200
                            &&& r.marks_default
                            &&& r.body matches Body::Value(v)
                            &&& bytes_of(v) == bytes_of(d)
                        }
                    }
                },
                None => {
                    &&& r.status == 400
                    &&& r.content_type is None
                    &&& !r.marks_default
                    &&& r.body matches Body::Text(t)
                    &&& t@ == "missing required query parameter: k\n"@
                    &&& r.counted is None
                    &&& !r.timed
                },
            }
        }),
{
    let (entries, arena) = (s.store.entries(), s.store.bytes());
    let asked = match q {
        Some(q) => key_in(encode_utf8(q@)),
        None => None,
    };
    if let Some(key) = asked {
        let found = choose|found: Option<Seq<u8>>| #[trigger]
            is_found(s.store, key, found) && r@ == lookup_answer(*s, found, head);
        law_a_value_is_found_whole_under_its_key(s.store, key, found);
        if let Some(value) = found {
            let i = choose|i: int|
                0 <= i < entries.len() && {
                    let e = #[trigger] entries[i];
                    &&& arena.subrange(e.k_off as int, e.k_off + e.k_len) == key
                    &&& arena.subrange(e.v_off as int, e.v_off + e.v_len) == value
                };
            let e = entries[i];
            assert(holds(
                r,
                arena.subrange(e.v_off as int, e.v_off + e.v_len),
                s.content_type@,
                head,
            ));
        }
    }
}

/// A query `k=` and a value without `&`, `%` and `+`, alone or before further parameters,
/// has that value for its key, byte for byte.
pub proof fn law_a_plain_query_has_its_value_for_a_key(
    q: &str,
    value: Seq<u8>,
    more: Seq<u8>,
    key: Option<Vec<u8>>,
)
    requires
        call_ensures(key_from_query, (Some(q),), key),
        encode_utf8(q@) == seq![107u8, 61] + value + more,
        !value.contains(38),
        !value.contains(37),
        !value.contains(43),
        more.len() > 0 ==> more[0] == 38,
    ensures
        key is Some,
        key->0@ == value,
{
    law_a_plain_value_is_the_key(value, more);
}

/// A lookup in a store gives the value of an entry with the key, whole, and nothing only
/// where no entry has it.
pub proof fn law_a_store_gives_back_whole_values(s: &Store, key: &[u8], r: Option<Bytes>)
    requires
        call_ensures(Store::get, (s, key), r),
    ensures
        r matches Some(value) ==> exists|i: int|
            0 <= i < s.entries().len() && {
                let e = #[trigger] s.entries()[i];
                &&& s.bytes().subrange(e.k_off as int, e.k_off + e.k_len) == key@
                &&& s.bytes().subrange(e.v_off as int, e.v_off + e.v_len) == bytes_of(value)
            },
        r is None ==> forall|i: int|
            0 <= i < s.entries().len() ==> {
                let e = #[trigger] s.entries()[i];
                s.bytes().subrange(e.k_off as int, e.k_off + e.k_len) != key@
            },
{
    law_a_value_is_found_whole_under_its_key(
        *s,
        key@,
        match r {
            Some(value) => Some(bytes_of(value)),
            None => None,
        },
    );
}

/// What is loaded and got ready is reported as what it is: `/stats` says the source, the
/// kind of file, the number of entries and the bytes of the arena.
#[verifier::rlimit(40)]
pub proof fn law_stats_describe_the_dataset_that_was_loaded(
    data: Vec<u8>,
    source: &str,
    opts: &LoadOptions,
    l: Loaded,
    default_value: Option<Vec<u8>>,
    content_type: Option<String>,
    timing: bool,
    s: &AppState,
    load_ms: &str,
    uptime_seconds: u64,
    r: Reply,
)
    requires
        call_ensures(load, (Ok(data), source, opts), Ok(l)),
        call_ensures(AppState::for_dataset, (l, default_value, content_type, timing), *s),
        call_ensures(stats, (s, load_ms, uptime_seconds), r),
    ensures
        r.status == 200,
        r.content_type is Some,
        r.content_type->0@ == "application/json"@,
        !r.marks_default,
        r.counted is None,
        !r.timed,
        r.body is Text,
        ({
            let text = r.body->Text_0@;
            &&& starts_with_magic(data@) ==> has_part(text, ",\"format\":\"compiled\","@)
            &&& !starts_with_magic(data@) ==> has_part(text, ",\"format\":\"csv\","@)
            &&& has_part(text, ",\"source\":"@ + json_string(source@) + ","@)
            &&& has_part(text, ",\"keys\":"@ + decimal(l.store.entries().len()) + ","@)
            &&& has_part(text, "{\"arena_bytes\":"@ + decimal(l.store.bytes().len()) + ","@)
            &&& has_part(text, ",\"load_ms\":"@ + load_ms@ + ","@)
            &&& has_part(text, ",\"uptime_seconds\":"@ + decimal(uptime_seconds as nat) + "}"@)
            &&& default_value is Some ==> has_part(text, ",\"default_value_configured\":true,"@)
            &&& default_value is None ==> has_part(text, ",\"default_value_configured\":false,"@)
        }),
{
    law_stats_say_what_the_state_has(*s, load_ms@, uptime_seconds);
    law_stats_say_where_a_dataset_came_from(data@, *opts, l, *s, load_ms@, uptime_seconds);
}

/// `/metrics` says every counter, the sum that was given, and the numbers of the state.
#[verifier::rlimit(40)]
pub proof fn law_metrics_report_the_counters_and_the_state(
    s: &AppState,
    m: &Metrics,
    uptime_seconds: u64,
    sum_seconds: &Seconds,
    r: Reply,
)
    requires
        call_ensures(metrics, (s, m, uptime_seconds, sum_seconds), r),
        !sum_seconds@.contains('\n'),
    ensures
        r.status == 200,
        r.content_type is Some,
        r.content_type->0@ == "text/plain; version=0.0.4; charset=utf-8"@,
        !r.marks_default,
        r.counted is None,
        !r.timed,
        r.body is Text,
        ({
            let ls = lines(r.body->Text_0@);
            &&& ls.len() == 41
            &&& ls[2] == "justkv_requests_total"@ + " "@ + decimal(m@.requests as nat)
            &&& ls[5] == "justkv_hits_total"@ + " "@ + decimal(m@.hits as nat)
            &&& ls[8] == "justkv_misses_total"@ + " "@ + decimal(m@.misses as nat)
            &&& ls[11] == "justkv_defaults_served_total"@ + " "@ + decimal(m@.defaults as nat)
            &&& ls[14] == "justkv_response_bytes_total"@ + " "@ + decimal(m@.bytes as nat)
            &&& ls[30] == "justkv_request_duration_seconds_sum "@ + sum_seconds@
            &&& ls[31] == "justkv_request_duration_seconds_count "@ + decimal(m@.timed as nat)
            &&& ls[34] == "justkv_keys"@ + " "@ + decimal(s.keys as nat)
            &&& ls[37] == "justkv_arena_bytes"@ + " "@ + decimal(s.arena_bytes as nat)
            &&& ls[40] == "justkv_uptime_seconds"@ + " "@ + decimal(uptime_seconds as nat)
        }),
{
    law_the_text_says_what_was_counted(
        m@,
        s.keys as u64,
        s.arena_bytes as u64,
        uptime_seconds,
        sum_seconds@,
    );
}

/// A server that is there says `ok`, and what it says first is where it listens, how many
/// keys it has and how many bytes.
pub proof fn law_a_server_says_that_it_is_there(
    s: &str,
    addr: &str,
    keys: usize,
    bytes: usize,
    line: String,
)
    requires
        call_ensures(health, (), s),
        call_ensures(listening_line, (addr, keys, bytes), line),
    ensures
        s@ == "ok"@,
        line@ == "justkv listening on "@ + addr@ + " ("@ + decimal(keys as nat) + " keys, "@
            + decimal(bytes as nat) + " bytes)\n"@,
{
}

/// How a dataset is read: with the delimiter that is given, where it is a byte, whatever
/// the path is called; without one with tab for `tsv` in any case and comma for the rest.
pub proof fn law_a_dataset_is_read_as_asked(parse: &ParseArgs, path: &DataPath, opts: LoadOptions)
    requires
        call_ensures(ParseArgs::load_options, (parse, path), opts),
    ensures
        parse.delimiter matches Some(c) ==> (0x100 > c as u32
            ==> opts.delimiter == c as u32),
        parse.delimiter is None ==> opts.delimiter == (if path.extension is Some && in_lower_case(
            path.extension->0@,
        ) == seq!['t', 's', 'v'] {
            9u8
        } else {
            44
        }),
        opts.has_header == parse.header,
        opts.allow_binary == parse.allow_binary,
{
    if parse.delimiter is None {
        law_the_extension_decides_where_no_delimiter_is_given(*parse, path@);
    }
}

/// A compiled file is read exactly where it is whole and every entry stays inside the
/// arena, as what it holds byte by byte; and else refused for the first thing wrong.
pub proof fn law_a_compiled_file_is_read_or_refused(
    data: &[u8],
    r: Result<(Vec<u8>, Vec<Entry>, u32), CompiledError>,
)
    requires
        call_ensures(read_compiled, (data,), r),
    ensures
        r matches Ok((arena, entries, flags)) ==> {
            let count = number_at(data@, 12);
            let start = 24 + 16 * count;
            &&& starts_with_magic(data@)
            &&& data@.len() >= start + number_at(data@, 16)
            &&& flags == number_at(data@, 8)
            &&& entries@.len() == count
            &&& arena@ == data@.subrange(start, start + number_at(data@, 16))
            &&& forall|i: int|
                0 <= i < count ==> {
                    &&& (#[trigger] entries@[i]).k_off == number_at(data@, 24 + 16 * i)
                    &&& entries@[i].k_len == number_at(data@, 28 + 16 * i)
                    &&& entries@[i].v_off == number_at(data@, 32 + 16 * i)
                    &&& entries@[i].v_len == number_at(data@, 36 + 16 * i)
                    &&& entries@[i].k_off + entries@[i].k_len <= arena@.len()
                    &&& entries@[i].v_off + entries@[i].v_len <= arena@.len()
                }
        },
        r == Err::<(Vec<u8>, Vec<Entry>, u32), _>(CompiledError::BadMagic) ==> data@.len() >= 8
            && !starts_with_magic(data@),
        r == Err::<(Vec<u8>, Vec<Entry>, u32), _>(CompiledError::Truncated) ==> data@.len() < 8
            || (starts_with_magic(data@) && (data@.len() < 24 || data@.len() < 24 + 16 * number_at(
            data@,
            12,
        ) + number_at(data@, 16))),
        r matches Err(CompiledError::OutOfBounds { index }) ==> {
            &&& starts_with_magic(data@)
            &&& data@.len() >= 24
            &&& data@.len() >= 24 + 16 * number_at(data@, 12) + number_at(data@, 16)
            &&& first_stray_entry(data@, index as int)
        },
{
    match r {
        Ok((arena, entries, _)) => {
            law_a_readable_file_is_whole_and_stays_inside_its_arena(data@);
            law_a_compiled_file_is_read_byte_by_byte(data@);
            assert forall|i: int| 0 <= i < entries@.len() implies (
            #[trigger] entries@[i]).k_off + entries@[i].k_len <= arena@.len()
                && entries@[i].v_off + entries@[i].v_len <= arena@.len() by {
                assert(number_at(data@, 24 + 16 * i) == entries@[i].k_off);
            }
        },
        Err(CompiledError::OutOfBounds { index }) => {
            law_each_refusal_has_its_reason(data@, index);
        },
        Err(_) => {
            law_each_refusal_has_its_reason(data@, 0);
        },
    }
}

/// A dataset loads exactly where it was read and nothing is wrong with it, and knows its
/// source and the kind of its file; and a failure says which of these it was.
pub proof fn law_a_load_succeeds_or_says_why(
    data: Result<Vec<u8>, String>,
    source: &str,
    opts: &LoadOptions,
    r: Result<Loaded, LoadFailure>,
)
    requires
        call_ensures(load, (data, source, opts), r),
    ensures
        data matches Err(message) ==> {
            &&& r matches Err(LoadFailure::Io(said))
            &&& said@ == message@
        },
        data matches Ok(bytes) ==> {
            let rows = csv_rows(bytes@, opts.delimiter, opts.has_header);
            let read = loaded(rows, opts.allow_binary);
            &&& starts_with_magic(bytes@) ==> (r is Ok || r->Err_0 is Compiled)
            &&& !starts_with_magic(bytes@) ==> {
                &&& r is Ok <==> read.problems.len() == 0
                &&& r is Err ==> r->Err_0 is Data && (r->Err_0->Data_0)@.len()
                    == read.problems.len()
            }
        },
        r matches Ok(l) ==> {
            &&& l.source@ == source@
            &&& l.format is Compiled <==> starts_with_magic(data->Ok_0@)
        },
{
    if let Ok(bytes) = data {
        law_bytes_load_as_what_they_are(bytes@, *opts, r);
        if let Ok(l) = r {
            law_a_dataset_knows_where_it_came_from(bytes@, *opts, l);
        }
    }
}

/// `check` ends with 2 and the message where the file was not read; with 1, every problem
/// and their number where it has some; and else with 0, its keys and its bytes.
pub proof fn law_a_check_ends_with_what_it_found(
    args: &DataArgs,
    data: Result<Vec<u8>, String>,
    r: Report,
)
    requires
        call_ensures(cmd_check, (args, data), r),
    ensures
        ({
            let path = args.data.text@;
            match data {
                Err(message) => {
                    &&& r.code == 2
                    &&& r.out@ == Seq::<char>::empty()
                    &&& r.err@ == "error: cannot read "@ + path + ": "@ + message@ + "\n"@
                },
                Ok(bytes) => {
                    let opts = options_for(args.parse, args.data@);
                    let rows = csv_rows(bytes@, opts.delimiter, args.parse.header);
                    let read = loaded(rows, args.parse.allow_binary);
                    let n = read.problems.len();
                    &&& n > 0 ==> {
                        &&& r.code == 1
                        &&& r.out@ == Seq::<char>::empty()
                        &&& r.err@ == unlines(located(path, read.problems)) + decimal(n)
                            + " problem(s) found in "@ + path + "\n"@
                    }
                    &&& n == 0 ==> {
                        &&& r.code == 0
                        &&& r.out@ == "ok: "@ + decimal(read.pairs.len()) + " keys, "@ + decimal(
                            bytes_in(read.pairs),
                        ) + " bytes of data in "@ + path + "\n"@
                        &&& r.err@ == Seq::<char>::empty()
                    }
                },
            }
        }),
{
    law_check_says_what_it_found(*args, data);
}

/// `build` plans exactly where the file was read and is clean: the image of its pairs, to
/// be written beside the destination first, under a name that has the number of the process.
pub proof fn law_a_build_plans_the_image_of_its_source(
    args: &BuildArgs,
    data: Result<Vec<u8>, String>,
    process: u32,
    r: Result<Plan, Report>,
)
    requires
        call_ensures(cmd_build, (args, data, process), r),
    ensures
        data is Err ==> r is Err && r->Err_0.code == 2,
        data matches Ok(bytes) ==> {
            let opts = options_for(args.parse, args.data@);
            let rows = csv_rows(bytes@, opts.delimiter, args.parse.header);
            let read = loaded(rows, args.parse.allow_binary);
            &&& r is Ok <==> read.problems.len() == 0
            &&& r matches Err(report) ==> {
                &&& report.code == 1
                &&& report.out@ == Seq::<char>::empty()
                &&& report.err@ == unlines(located(args.data.text@, read.problems)) + decimal(
                    read.problems.len(),
                ) + " problem(s) found in "@ + args.data.text@ + "\n"@
            }
            &&& r matches Ok(plan) ==> {
                &&& plan.image@ == image(
                    packed(read.pairs),
                    layout(read.pairs),
                    if args.parse.allow_binary {
                        1
                    } else {
                        0
                    },
                )
                &&& plan.scratch@ == args.out@ + (".justkv-"@ + decimal(process as nat) + ".tmp"@)
                &&& plan.out@ == args.out@
                &&& plan.keys == read.pairs.len()
                &&& plan.arena_bytes == packed(read.pairs).len()
            }
        },
{
    law_build_writes_the_pairs_of_its_source(*args, data);
}

/// `serve` without a dataset ends with 2 where the file was not read and with 1 where it is
/// no dataset, and with a line that says why.
pub proof fn law_a_server_without_a_dataset_ends(path: &str, why: &LoadFailure, r: Report)
    requires
        call_ensures(report_load_failure, (path, why), r),
    ensures
        r.code == (if why is Io {
            2u8
        } else {
            1
        }),
        r.out@ == Seq::<char>::empty(),
        r.err@ == "error: cannot load "@ + path@ + ": "@ + why.text() + "\n"@,
{
    law_a_failed_load_ends_the_server(path@, *why);
}

/// `healthcheck` asks the server where it listens, at the loopback address where that is
/// every interface, for `/health`, and ends with 0 exactly where the reply is a 200.
pub proof fn law_a_health_check_asks_the_server(
    bind: &str,
    rest: Seq<char>,
    addr: String,
    asked: &str,
    request: String,
    reply: Result<Vec<u8>, String>,
    r: Report,
)
    requires
        call_ensures(probe_address, (bind,), addr),
        call_ensures(probe_request, (asked,), request),
        call_ensures(cmd_healthcheck, (asked, reply), r),
    ensures
        bind@ == "0.0.0.0"@ ==> addr@ == "127.0.0.1"@,
        bind@ == "0.0.0.0:"@ + rest ==> addr@ == "127.0.0.1:"@ + rest,
        bind@ != "0.0.0.0"@ && !"0.0.0.0:"@.is_prefix_of(bind@) ==> addr@ == bind@,
        request@ == "GET /health HTTP/1.1\r\nHost: "@ + asked@
            + "\r\nConnection: close\r\n\r\n"@,
        r.code <= 1,
        r.out@ == Seq::<char>::empty(),
        r.code == 0 <==> {
            &&& reply matches Ok(bytes)
            &&& bytes@.len() >= 12
            &&& bytes@[0] == 'H' as u8 && bytes@[1] == 'T' as u8 && bytes@[2] == 'T' as u8
            &&& bytes@[3] == 'P' as u8 && bytes@[4] == '/' as u8 && bytes@[5] == '1' as u8
            &&& bytes@[6] == '.' as u8 && bytes@[8] == ' ' as u8
            &&& bytes@[9] == '2' as u8 && bytes@[10] == '0' as u8 && bytes@[11] == '0' as u8
            &&& bytes@.len() == 12 || bytes@[12] == ' ' as u8 || bytes@[12] == '\r' as u8
        },
        r.code == 0 ==> r.err@ == Seq::<char>::empty(),
        r.code == 1 && reply is Ok ==> r.err@ == "error: "@ + asked@ + " is not healthy\n"@,
        reply matches Err(message) ==> r.err@ == "error: cannot reach "@ + asked@ + ": "@
            + message@ + "\n"@,
{
    law_the_loopback_address_stands_in_for_every_interface(rest, bind@);
    law_a_health_check_says_what_it_heard(asked@, reply);
    if let Ok(bytes) = reply {
        law_only_200_is_healthy(bytes@);
    }
}

/// A store holds what it was built from: the arena, and an entry for each that was given.
pub proof fn law_a_store_holds_what_it_was_built_from(
    arena: Vec<u8>,
    entries: Vec<Entry>,
    s: Store,
    n: usize,
    size: usize,
    empty: bool,
    bytes: &[u8],
)
    requires
        call_ensures(Store::from_parts, (arena, entries), s),
        call_ensures(Store::len, (&s,), n),
        call_ensures(Store::arena_len, (&s,), size),
        call_ensures(Store::is_empty, (&s,), empty),
        call_ensures(Store::arena, (&s,), bytes),
    ensures
        s.bytes() == arena@,
        s.entries() == entries@,
        n == entries@.len(),
        size == arena@.len(),
        empty <==> entries@.len() == 0,
        bytes@ == arena@,
{
}

/// Parsing returns a dataset exactly where it found no problem: the pairs, packed; and else
/// every problem, each on its line.
pub proof fn law_parsing_returns_the_pairs_or_every_problem(
    data: &[u8],
    opts: &LoadOptions,
    r: Result<(Vec<u8>, Vec<Entry>), Vec<DataError>>,
)
    requires
        call_ensures(parse_csv, (data, opts), r),
    ensures
        ({
            let rows = csv_rows(data@, opts.delimiter, opts.has_header);
            let read = loaded(rows, opts.allow_binary);
            &&& r is Ok <==> read.problems.len() == 0
            &&& r matches Ok((arena, entries)) ==> arena@ == packed(read.pairs) && entries@
                == layout(read.pairs)
            &&& r matches Err(errors) ==> {
                &&& errors@.len() == read.problems.len()
                &&& forall|i: int|
                    0 <= i < errors@.len() ==> (#[trigger] errors@[i]).line
                        == read.problems[i].line
            }
        }),
{
    let rows = csv_rows(data@, opts.delimiter, opts.has_header);
    law_a_load_returns_what_it_found(r, loaded(rows, opts.allow_binary));
}

/// The small decisions: which file is a compiled one, which flags a dataset has, what its
/// content type is, what a scratch file is called, and how long to wait.
pub proof fn law_small_decisions_follow_from_what_is_given(
    data: &[u8],
    compiled: bool,
    allow_binary: bool,
    flags: u32,
    explicit: Option<String>,
    kind: String,
    process: u32,
    suffix: String,
    ms: u64,
    next: u64,
)
    requires
        call_ensures(is_compiled, (data,), compiled),
        call_ensures(dataset_flags, (allow_binary,), flags),
        call_ensures(content_type_for, (explicit, flags), kind),
        call_ensures(scratch_suffix, (process,), suffix),
        call_ensures(next_backoff, (ms,), next),
    ensures
        compiled <==> starts_with_magic(data@),
        flags == (if allow_binary {
            1u32
        } else {
            0
        }),
        explicit matches Some(given) ==> kind@ == given@,
        explicit is None ==> kind@ == (if allow_binary {
            "application/octet-stream"@
        } else {
            "text/plain; charset=utf-8"@
        }),
        suffix@ == ".justkv-"@ + decimal(process as nat) + ".tmp"@,
        next == (if ms <= 128 {
            ms + ms
        } else {
            256
        }),
{
    law_compiled_files_start_with_their_magic(data@);
    law_the_content_type_follows_the_flags(kind@, flags);
}

} // verus!
