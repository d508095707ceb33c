//! The text of the counters: families of samples, each introduced by two lines.

use crate::metrics::{up_to, Tally};
use crate::text::{
    decimal, law_lines_come_apart_again, lemma_decimal_is_digits, lemma_unlines_concat,
    lemma_unlines_push, lines, push_decimal, unlines,
};
use vstd::prelude::*;
use vstd::string::{StrSliceExecFns, StringExecFns};

verus! {

/// A number of seconds as text, on one line.
pub struct Seconds {
    text: String,
}

impl View for Seconds {
    type V = Seq<char>;

    closed spec fn view(&self) -> Seq<char> {
        self.text@
    }
}

impl Seconds {
    #[verifier::type_invariant]
    closed spec fn well_formed(self) -> bool {
        !self.text@.contains('\n')
    }

    /// The text, if it is on one line.
    pub fn new(text: String) -> (r: Option<Seconds>)
        ensures
            match r {
                Some(s) => s@ == text@ && !text@.contains('\n'),
                None => text@.contains('\n'),
            },
    {
        let n: usize = text.as_str().unicode_len();
        let mut i: usize = 0;
        while i < n
            invariant
                i <= n,
                n == text@.len(),
                forall|j: int| 0 <= j < i ==> text@[j] != '\n',
            decreases n - i,
        {
            if text.as_str().get_char(i) == '\n' {
                assert(text@[i as int] == '\n');
                return None;
            }
            i += 1;
        }
        Some(Seconds { text })
    }

    pub(crate) fn as_str(&self) -> (s: &str)
        ensures
            s@ == self@,
            !self@.contains('\n'),
    {
        proof {
            use_type_invariant(self);
        }
        self.text.as_str()
    }
}

/// A metric: its name, what kind it is, a sentence on it, and its sample lines.
pub struct Family {
    pub name: Seq<char>,
    pub kind: Seq<char>,
    pub help: Seq<char>,
    pub samples: Seq<Seq<char>>,
}

/// What a line that explains a metric starts with.
pub open spec fn help_start(name: Seq<char>) -> Seq<char> {
    "# HELP "@ + name + " "@
}

/// What a line that tells the kind of a metric starts with.
pub open spec fn type_start(name: Seq<char>) -> Seq<char> {
    "# TYPE "@ + name + " "@
}

impl Family {
    pub open spec fn help_line(self) -> Seq<char> {
        help_start(self.name) + self.help
    }

    pub open spec fn type_line(self) -> Seq<char> {
        type_start(self.name) + self.kind
    }

    /// All the lines of the metric.
    pub open spec fn lines(self) -> Seq<Seq<char>> {
        seq![self.help_line(), self.type_line()] + self.samples
    }
}

/// The lines of all the families, one family after the other.
pub open spec fn all_lines(fs: Seq<Family>) -> Seq<Seq<char>>
    decreases fs.len(),
{
    if fs.len() == 0 {
        Seq::empty()
    } else {
        all_lines(fs.drop_last()) + fs.last().lines()
    }
}

/// The bound of a bucket in seconds, as text.
pub open spec fn bucket_label(i: int) -> Seq<char> {
    if i == 0 {
        "0.000025"@
    } else if i == 1 {
        "0.00005"@
    } else if i == 2 {
        "0.0001"@
    } else if i == 3 {
        "0.00025"@
    } else if i == 4 {
        "0.0005"@
    } else if i == 5 {
        "0.001"@
    } else if i == 6 {
        "0.0025"@
    } else if i == 7 {
        "0.005"@
    } else if i == 8 {
        "0.01"@
    } else if i == 9 {
        "0.025"@
    } else if i == 10 {
        "0.05"@
    } else if i == 11 {
        "0.1"@
    } else {
        "+Inf"@
    }
}

/// A metric that is one number.
pub open spec fn number(name: Seq<char>, kind: Seq<char>, help: Seq<char>, v: u64) -> Family {
    Family { name, kind, help, samples: seq![name + " "@ + decimal(v as nat)] }
}

/// The line of a bucket. It counts all the latencies up to its bound.
pub open spec fn bucket_line(buckets: Seq<u64>, i: int) -> Seq<char> {
    "justkv_request_duration_seconds_bucket{le=\""@ + bucket_label(i) + "\"} "@ + decimal(
        up_to(buckets, i + 1) as nat,
    )
}

/// The lines of the buckets.
pub open spec fn bucket_lines(buckets: Seq<u64>) -> Seq<Seq<char>> {
    Seq::new(13, |i: int| bucket_line(buckets, i))
}

/// The line of the sum of all latencies.
pub open spec fn sum_line(sum_seconds: Seq<char>) -> Seq<char> {
    "justkv_request_duration_seconds_sum "@ + sum_seconds
}

/// The line of the number of timed requests.
pub open spec fn count_line(timed: u64) -> Seq<char> {
    "justkv_request_duration_seconds_count "@ + decimal(timed as nat)
}

/// The latency histogram. `sum_seconds` is the text of the sum of all latencies.
pub open spec fn histogram(buckets: Seq<u64>, timed: u64, sum_seconds: Seq<char>) -> Family {
    Family {
        name: "justkv_request_duration_seconds"@,
        kind: "histogram"@,
        help: "Lookup handling latency."@,
        samples: bucket_lines(buckets) + seq![sum_line(sum_seconds), count_line(timed)],
    }
}

/// Everything that is reported: the lookup counters, the latency histogram, and the
/// numbers that describe the server rather than its lookups.
pub open spec fn families(
    t: Tally,
    keys: u64,
    arena_bytes: u64,
    uptime_seconds: u64,
    sum_seconds: Seq<char>,
) -> Seq<Family> {
    seq![
        number(
            "justkv_requests_total"@,
            "counter"@,
            "Total key lookups served."@,
            t.requests,
        ),
        number("justkv_hits_total"@, "counter"@, "Lookups that found a key."@, t.hits),
        number(
            "justkv_misses_total"@,
            "counter"@,
            "Lookups with no matching key, including those served a default."@,
            t.misses,
        ),
        number(
            "justkv_defaults_served_total"@,
            "counter"@,
            "Misses answered with the configured default value."@,
            t.defaults,
        ),
        number(
            "justkv_response_bytes_total"@,
            "counter"@,
            "Value bytes written to clients."@,
            t.bytes,
        ),
        histogram(t.buckets, t.timed, sum_seconds),
        number("justkv_keys"@, "gauge"@, "Keys loaded."@, keys),
        number(
            "justkv_arena_bytes"@,
            "gauge"@,
            "Bytes of key and value data held in memory."@,
            arena_bytes,
        ),
        number(
            "justkv_uptime_seconds"@,
            "gauge"@,
            "Seconds since the server finished loading."@,
            uptime_seconds,
        ),
    ]
}

/// The text for a scraper.
pub open spec fn metrics_text(
    t: Tally,
    keys: u64,
    arena_bytes: u64,
    uptime_seconds: u64,
    sum_seconds: Seq<char>,
) -> Seq<char> {
    unlines(all_lines(families(t, keys, arena_bytes, uptime_seconds, sum_seconds)))
}

/// The text of the first `k` families.
pub(crate) open spec fn text_of_first(fs: Seq<Family>, k: int) -> Seq<char> {
    unlines(all_lines(fs.take(k)))
}

proof fn lemma_next_family(fs: Seq<Family>, k: int)
    requires
        0 <= k < fs.len(),
    ensures
        text_of_first(fs, k + 1) == text_of_first(fs, k) + unlines(fs[k].lines()),
{
    assert(fs.take(k + 1).drop_last() =~= fs.take(k));
    lemma_unlines_concat(all_lines(fs.take(k)), fs[k].lines());
}

/// Append the two lines that introduce a metric.
fn push_head(o: &mut String, name: &str, kind: &str, help: &str)
    ensures
        final(o)@ == old(o)@ + unlines(
            seq![help_start(name@) + help@, type_start(name@) + kind@],
        ),
{
    let ghost before = o@;
    o.append("# HELP ");
    o.append(name);
    o.append(" ");
    o.append(help);
    o.append("\n");
    o.append("# TYPE ");
    o.append(name);
    o.append(" ");
    o.append(kind);
    o.append("\n");
    proof {
        let (h, t) = (help_start(name@) + help@, type_start(name@) + kind@);
        lemma_unlines_push(Seq::empty(), h);
        lemma_unlines_push(seq![h], t);
        assert(Seq::empty().push(h) =~= seq![h]);
        assert(seq![h].push(t) =~= seq![h, t]);
        assert(o@ =~= before + unlines(seq![h, t]));
    }
}

/// Append a metric that is one number, the next of the families.
pub(crate) fn push_number(
    o: &mut String,
    name: &str,
    kind: &str,
    help: &str,
    v: u64,
    Ghost(fs): Ghost<Seq<Family>>,
    Ghost(k): Ghost<int>,
)
    requires
        0 <= k < fs.len(),
        fs[k] == number(name@, kind@, help@, v),
        old(o)@ == text_of_first(fs, k),
    ensures
        final(o)@ == text_of_first(fs, k + 1),
{
    push_head(o, name, kind, help);
    let ghost before = o@;
    o.append(name);
    o.append(" ");
    push_decimal(o, v);
    o.append("\n");
    proof {
        let sample = name@ + " "@ + decimal(v as nat);
        lemma_unlines_push(Seq::empty(), sample);
        assert(Seq::empty().push(sample) =~= seq![sample]);
        assert(o@ =~= before + unlines(seq![sample]));
        lemma_unlines_concat(seq![fs[k].help_line(), fs[k].type_line()], fs[k].samples);
        lemma_next_family(fs, k);
        assert(o@ =~= text_of_first(fs, k + 1));
    }
}

/// The bound of a bucket in seconds, as text.
fn label_text(i: usize) -> (s: &'static str)
    ensures
        s@ == bucket_label(i as int),
{
    match i {
        0 => "0.000025",
        1 => "0.00005",
        2 => "0.0001",
        3 => "0.00025",
        4 => "0.0005",
        5 => "0.001",
        6 => "0.0025",
        7 => "0.005",
        8 => "0.01",
        9 => "0.025",
        10 => "0.05",
        11 => "0.1",
        _ => "+Inf",
    }
}

/// Append the latency histogram, the next of the families.
pub(crate) fn push_histogram(
    o: &mut String,
    buckets: &[u64; 13],
    timed: u64,
    sum_seconds: &str,
    Ghost(fs): Ghost<Seq<Family>>,
    Ghost(k): Ghost<int>,
)
    requires
        0 <= k < fs.len(),
        fs[k] == histogram(buckets@, timed, sum_seconds@),
        old(o)@ == text_of_first(fs, k),
    ensures
        final(o)@ == text_of_first(fs, k + 1),
{
    push_head(
        o,
        "justkv_request_duration_seconds",
        "histogram",
        "Lookup handling latency.",
    );
    let ghost start = o@;
    let ghost all = bucket_lines(buckets@);
    let mut cumulative: u64 = 0;
    let mut i: usize = 0;
    assert(all.take(0) =~= Seq::empty());
    assert(o@ =~= start + unlines(all.take(0)));
    while i < 13
        invariant
            i <= 13,
            all == bucket_lines(buckets@),
            cumulative == up_to(buckets@, i as int),
            o@ == start + unlines(all.take(i as int)),
        decreases 13 - i,
    {
        let ghost before = o@;
        cumulative = cumulative.wrapping_add(buckets[i]);
        o.append("justkv_request_duration_seconds_bucket{le=\"");
        o.append(label_text(i));
        o.append("\"} ");
        push_decimal(o, cumulative);
        o.append("\n");
        proof {
            let line = bucket_line(buckets@, i as int);
            lemma_unlines_push(all.take(i as int), line);
            assert(all.take(i as int).push(line) =~= all.take(i + 1));
            assert(o@ =~= before + line + "\n"@);
            assert(o@ =~= start + unlines(all.take(i + 1)));
        }
        i += 1;
    }
    assert(all.take(13) =~= all);
    o.append("justkv_request_duration_seconds_sum ");
    o.append(sum_seconds);
    o.append("\n");
    o.append("justkv_request_duration_seconds_count ");
    push_decimal(o, timed);
    o.append("\n");
    proof {
        let (s, c) = (sum_line(sum_seconds@), count_line(timed));
        lemma_unlines_push(all, s);
        lemma_unlines_push(all.push(s), c);
        assert(all.push(s).push(c) =~= fs[k].samples);
        assert(o@ =~= start + unlines(fs[k].samples));
        lemma_unlines_concat(seq![fs[k].help_line(), fs[k].type_line()], fs[k].samples);
        lemma_next_family(fs, k);
        assert(o@ =~= text_of_first(fs, k + 1));
    }
}

/// None of the first `n` characters is `c`.
spec fn clear_of(text: Seq<char>, c: char, n: int) -> bool
    decreases n,
{
    n <= 0 || text[n - 1] != c && clear_of(text, c, n - 1)
}

proof fn lemma_clear_of(text: Seq<char>, c: char, n: int)
    requires
        n <= text.len(),
        clear_of(text, c, n),
    ensures
        forall|i: int| 0 <= i < n ==> text[i] != c,
    decreases n,
{
    if n > 0 {
        lemma_clear_of(text, c, n - 1);
    }
}

/// The names of the metrics start with a letter and hold neither a space nor the end of a
/// line.
proof fn lemma_names()
    ensures
        "justkv_requests_total"@.len() > 0 && "justkv_requests_total"@[0] == 'j',
        !"justkv_requests_total"@.contains(' '),
        !"justkv_requests_total"@.contains('\n'),
        "justkv_hits_total"@.len() > 0 && "justkv_hits_total"@[0] == 'j',
        !"justkv_hits_total"@.contains(' '),
        !"justkv_hits_total"@.contains('\n'),
        "justkv_misses_total"@.len() > 0 && "justkv_misses_total"@[0] == 'j',
        !"justkv_misses_total"@.contains(' '),
        !"justkv_misses_total"@.contains('\n'),
        "justkv_defaults_served_total"@.len() > 0 && "justkv_defaults_served_total"@[0] == 'j',
        !"justkv_defaults_served_total"@.contains(' '),
        !"justkv_defaults_served_total"@.contains('\n'),
        "justkv_response_bytes_total"@.len() > 0 && "justkv_response_bytes_total"@[0] == 'j',
        !"justkv_response_bytes_total"@.contains(' '),
        !"justkv_response_bytes_total"@.contains('\n'),
        "justkv_request_duration_seconds"@.len() > 0 && "justkv_request_duration_seconds"@[0] == 'j',
        !"justkv_request_duration_seconds"@.contains(' '),
        !"justkv_request_duration_seconds"@.contains('\n'),
        "justkv_keys"@.len() > 0 && "justkv_keys"@[0] == 'j',
        !"justkv_keys"@.contains(' '),
        !"justkv_keys"@.contains('\n'),
        "justkv_arena_bytes"@.len() > 0 && "justkv_arena_bytes"@[0] == 'j',
        !"justkv_arena_bytes"@.contains(' '),
        !"justkv_arena_bytes"@.contains('\n'),
        "justkv_uptime_seconds"@.len() > 0 && "justkv_uptime_seconds"@[0] == 'j',
        !"justkv_uptime_seconds"@.contains(' '),
        !"justkv_uptime_seconds"@.contains('\n'),
{
    reveal_with_fuel(clear_of, 40);
    reveal_strlit("justkv_requests_total");
    lemma_clear_of("justkv_requests_total"@, ' ', 21);
    lemma_clear_of("justkv_requests_total"@, '\n', 21);
    reveal_strlit("justkv_hits_total");
    lemma_clear_of("justkv_hits_total"@, ' ', 17);
    lemma_clear_of("justkv_hits_total"@, '\n', 17);
    reveal_strlit("justkv_misses_total");
    lemma_clear_of("justkv_misses_total"@, ' ', 19);
    lemma_clear_of("justkv_misses_total"@, '\n', 19);
    reveal_strlit("justkv_defaults_served_total");
    lemma_clear_of("justkv_defaults_served_total"@, ' ', 28);
    lemma_clear_of("justkv_defaults_served_total"@, '\n', 28);
    reveal_strlit("justkv_response_bytes_total");
    lemma_clear_of("justkv_response_bytes_total"@, ' ', 27);
    lemma_clear_of("justkv_response_bytes_total"@, '\n', 27);
    reveal_strlit("justkv_request_duration_seconds");
    lemma_clear_of("justkv_request_duration_seconds"@, ' ', 31);
    lemma_clear_of("justkv_request_duration_seconds"@, '\n', 31);
    reveal_strlit("justkv_keys");
    lemma_clear_of("justkv_keys"@, ' ', 11);
    lemma_clear_of("justkv_keys"@, '\n', 11);
    reveal_strlit("justkv_arena_bytes");
    lemma_clear_of("justkv_arena_bytes"@, ' ', 18);
    lemma_clear_of("justkv_arena_bytes"@, '\n', 18);
    reveal_strlit("justkv_uptime_seconds");
    lemma_clear_of("justkv_uptime_seconds"@, ' ', 21);
    lemma_clear_of("justkv_uptime_seconds"@, '\n', 21);
}

/// The sentences and the kinds of the metrics are on one line each.
proof fn lemma_sentences()
    ensures
        !"Total key lookups served."@.contains('\n'),
        !"Lookups that found a key."@.contains('\n'),
        !"Lookups with no matching key, including those served a default."@.contains('\n'),
        !"Misses answered with the configured default value."@.contains('\n'),
        !"Value bytes written to clients."@.contains('\n'),
        !"Lookup handling latency."@.contains('\n'),
        !"Keys loaded."@.contains('\n'),
        !"Bytes of key and value data held in memory."@.contains('\n'),
        !"Seconds since the server finished loading."@.contains('\n'),
        !"counter"@.contains('\n'),
        !"gauge"@.contains('\n'),
        !"histogram"@.contains('\n'),
{
    reveal_with_fuel(clear_of, 70);
    reveal_strlit("Total key lookups served.");
    lemma_clear_of("Total key lookups served."@, '\n', 25);
    reveal_strlit("Lookups that found a key.");
    lemma_clear_of("Lookups that found a key."@, '\n', 25);
    reveal_strlit("Lookups with no matching key, including those served a default.");
    lemma_clear_of("Lookups with no matching key, including those served a default."@, '\n', 63);
    reveal_strlit("Misses answered with the configured default value.");
    lemma_clear_of("Misses answered with the configured default value."@, '\n', 50);
    reveal_strlit("Value bytes written to clients.");
    lemma_clear_of("Value bytes written to clients."@, '\n', 31);
    reveal_strlit("Lookup handling latency.");
    lemma_clear_of("Lookup handling latency."@, '\n', 24);
    reveal_strlit("Keys loaded.");
    lemma_clear_of("Keys loaded."@, '\n', 12);
    reveal_strlit("Bytes of key and value data held in memory.");
    lemma_clear_of("Bytes of key and value data held in memory."@, '\n', 43);
    reveal_strlit("Seconds since the server finished loading.");
    lemma_clear_of("Seconds since the server finished loading."@, '\n', 42);
    reveal_strlit("counter");
    lemma_clear_of("counter"@, '\n', 7);
    reveal_strlit("gauge");
    lemma_clear_of("gauge"@, '\n', 5);
    reveal_strlit("histogram");
    lemma_clear_of("histogram"@, '\n', 9);
}

/// The bounds are on one line each.
proof fn lemma_labels(i: int)
    ensures
        !bucket_label(i).contains('\n'),
{
    reveal_with_fuel(clear_of, 10);
    reveal_strlit("0.000025");
    lemma_clear_of("0.000025"@, '\n', 8);
    reveal_strlit("0.00005");
    lemma_clear_of("0.00005"@, '\n', 7);
    reveal_strlit("0.0001");
    lemma_clear_of("0.0001"@, '\n', 6);
    reveal_strlit("0.00025");
    lemma_clear_of("0.00025"@, '\n', 7);
    reveal_strlit("0.0005");
    lemma_clear_of("0.0005"@, '\n', 6);
    reveal_strlit("0.001");
    lemma_clear_of("0.001"@, '\n', 5);
    reveal_strlit("0.0025");
    lemma_clear_of("0.0025"@, '\n', 6);
    reveal_strlit("0.005");
    lemma_clear_of("0.005"@, '\n', 5);
    reveal_strlit("0.01");
    lemma_clear_of("0.01"@, '\n', 4);
    reveal_strlit("0.025");
    lemma_clear_of("0.025"@, '\n', 5);
    reveal_strlit("0.05");
    lemma_clear_of("0.05"@, '\n', 4);
    reveal_strlit("0.1");
    lemma_clear_of("0.1"@, '\n', 3);
    reveal_strlit("+Inf");
    lemma_clear_of("+Inf"@, '\n', 4);
}

/// The fixed parts of sample lines are on one line each.
proof fn lemma_sample_parts()
    ensures
        !"justkv_request_duration_seconds_bucket{le=\""@.contains('\n'),
        !"\"} "@.contains('\n'),
        !"justkv_request_duration_seconds_sum "@.contains('\n'),
        !"justkv_request_duration_seconds_count "@.contains('\n'),
        !" "@.contains('\n'),
        "justkv_request_duration_seconds_bucket{le=\""@.len() > 0,
        "justkv_request_duration_seconds_bucket{le=\""@[0] == 'j',
        "justkv_request_duration_seconds_sum "@.len() > 0,
        "justkv_request_duration_seconds_sum "@[0] == 'j',
        "justkv_request_duration_seconds_count "@.len() > 0,
        "justkv_request_duration_seconds_count "@[0] == 'j',
{
    reveal_with_fuel(clear_of, 50);
    reveal_strlit("justkv_request_duration_seconds_bucket{le=\"");
    lemma_clear_of("justkv_request_duration_seconds_bucket{le=\""@, '\n', 43);
    reveal_strlit("\"} ");
    lemma_clear_of("\"} "@, '\n', 3);
    reveal_strlit("justkv_request_duration_seconds_sum ");
    lemma_clear_of("justkv_request_duration_seconds_sum "@, '\n', 36);
    reveal_strlit("justkv_request_duration_seconds_count ");
    lemma_clear_of("justkv_request_duration_seconds_count "@, '\n', 38);
    reveal_strlit(" ");
    lemma_clear_of(" "@, '\n', 1);
}

/// A metric whose lines can be told apart: its name is one word, nothing breaks a line,
/// and no sample looks like a comment.
spec fn is_tidy(f: Family) -> bool {
    &&& !f.name.contains(' ')
    &&& !f.help_line().contains('\n')
    &&& !f.type_line().contains('\n')
    &&& forall|i: int|
        0 <= i < f.samples.len() ==> {
            &&& (#[trigger] f.samples[i]).len() > 0
            &&& f.samples[i][0] != '#'
            &&& !f.samples[i].contains('\n')
        }
}

proof fn lemma_concat_clear(a: Seq<char>, b: Seq<char>, c: char)
    requires
        !a.contains(c),
        !b.contains(c),
    ensures
        !(a + b).contains(c),
{
    assert forall|i: int| 0 <= i < (a + b).len() implies (a + b)[i] != c by {
        if i < a.len() {
            assert(a.contains(a[i]));
        } else {
            assert(b.contains(b[i - a.len()]));
        }
    }
}

proof fn lemma_head_is_tidy(name: Seq<char>, rest: Seq<char>)
    requires
        !name.contains('\n'),
        !rest.contains('\n'),
    ensures
        !(help_start(name) + rest).contains('\n'),
        !(type_start(name) + rest).contains('\n'),
{
    reveal_strlit("# HELP ");
    reveal_strlit("# TYPE ");
    reveal_strlit(" ");
    reveal_with_fuel(clear_of, 8);
    lemma_clear_of("# HELP "@, '\n', 7);
    lemma_clear_of("# TYPE "@, '\n', 7);
    lemma_clear_of(" "@, '\n', 1);
    lemma_concat_clear("# HELP "@, name, '\n');
    lemma_concat_clear("# HELP "@ + name, " "@, '\n');
    lemma_concat_clear(help_start(name), rest, '\n');
    lemma_concat_clear("# TYPE "@, name, '\n');
    lemma_concat_clear("# TYPE "@ + name, " "@, '\n');
    lemma_concat_clear(type_start(name), rest, '\n');
}

proof fn lemma_number_is_tidy(name: Seq<char>, kind: Seq<char>, help: Seq<char>, v: u64)
    requires
        name.len() > 0,
        name[0] == 'j',
        !name.contains(' '),
        !name.contains('\n'),
        !kind.contains('\n'),
        !help.contains('\n'),
    ensures
        is_tidy(number(name, kind, help, v)),
{
    lemma_sample_parts();
    lemma_head_is_tidy(name, help);
    lemma_head_is_tidy(name, kind);
    lemma_decimal_is_digits(v as nat, '\n');
    lemma_concat_clear(name, " "@, '\n');
    lemma_concat_clear(name + " "@, decimal(v as nat), '\n');
}

proof fn lemma_histogram_is_tidy(buckets: Seq<u64>, timed: u64, sum_seconds: Seq<char>)
    requires
        !sum_seconds.contains('\n'),
    ensures
        is_tidy(histogram(buckets, timed, sum_seconds)),
{
    lemma_names();
    lemma_sentences();
    lemma_sample_parts();
    let f = histogram(buckets, timed, sum_seconds);
    lemma_head_is_tidy(f.name, f.help);
    lemma_head_is_tidy(f.name, f.kind);
    lemma_concat_clear("justkv_request_duration_seconds_sum "@, sum_seconds, '\n');
    lemma_decimal_is_digits(timed as nat, '\n');
    lemma_concat_clear(
        "justkv_request_duration_seconds_count "@,
        decimal(timed as nat),
        '\n',
    );
    assert forall|i: int| 0 <= i < f.samples.len() implies (#[trigger] f.samples[i]).len() > 0
        && f.samples[i][0] != '#' && !f.samples[i].contains('\n') by {
        if i < 13 {
            let start = "justkv_request_duration_seconds_bucket{le=\""@;
            let n = decimal(up_to(buckets, i + 1) as nat);
            assert(f.samples[i] == bucket_line(buckets, i));
            lemma_decimal_is_digits(up_to(buckets, i + 1) as nat, '\n');
            lemma_labels(i);
            lemma_concat_clear(start, bucket_label(i), '\n');
            lemma_concat_clear(start + bucket_label(i), "\"} "@, '\n');
            lemma_concat_clear(start + bucket_label(i) + "\"} "@, n, '\n');
        } else if i == 13 {
            assert(f.samples[i] == sum_line(sum_seconds));
        } else {
            assert(f.samples[i] == count_line(timed));
        }
    }
}

/// A word with a space behind it starts a text only if the text's first word is that word.
proof fn lemma_first_word(word: Seq<char>, first: Seq<char>, rest: Seq<char>)
    requires
        !word.contains(' '),
        !first.contains(' '),
        (word + " "@).is_prefix_of(first + " "@ + rest),
    ensures
        word == first,
{
    reveal_strlit(" ");
    let (a, b) = (word + " "@, first + " "@ + rest);
    assert(a == b.take(a.len() as int));
    if word.len() < first.len() {
        assert(a[word.len() as int] == b[word.len() as int]);
        assert(first.contains(first[word.len() as int]));
    } else if word.len() > first.len() {
        assert(a[first.len() as int] == b[first.len() as int]);
        assert(word.contains(word[first.len() as int]));
    } else {
        assert forall|i: int| 0 <= i < word.len() implies word[i] == first[i] by {
            assert(a[i] == b[i]);
        }
        assert(word =~= first);
    }
}

/// Where the lines of a family start.
pub open spec fn first_line(fs: Seq<Family>, k: int) -> int {
    all_lines(fs.take(k)).len() as int
}

/// The lines of a family stand together, from [`first_line`] on.
proof fn lemma_lines_of_family(fs: Seq<Family>, k: int)
    requires
        0 <= k < fs.len(),
    ensures
        0 <= first_line(fs, k),
        first_line(fs, k) + fs[k].lines().len() <= all_lines(fs).len(),
        all_lines(fs).subrange(first_line(fs, k), first_line(fs, k) + fs[k].lines().len())
            == fs[k].lines(),
    decreases fs.len(),
{
    let front = fs.drop_last();
    assert(fs.take(k) =~= front.take(k));
    let (at, n) = (first_line(fs, k), fs[k].lines().len() as int);
    if k == fs.len() - 1 {
        assert(front.take(k) =~= front);
    } else {
        lemma_lines_of_family(front, k);
        assert(front[k] == fs[k]);
    }
    let part = all_lines(fs).subrange(at, at + n);
    assert forall|i: int| 0 <= i < n implies part[i] == fs[k].lines()[i] by {
        if k < fs.len() - 1 {
            assert(all_lines(front).subrange(at, at + n)[i] == fs[k].lines()[i]);
        }
    }
    assert(part =~= fs[k].lines());
}

/// A line that starts like the introduction of a metric is one: it stands first or second
/// among the lines of a family of that name.
proof fn lemma_introduction(fs: Seq<Family>, name: Seq<char>, i: int) -> (k: int)
    requires
        forall|k: int| 0 <= k < fs.len() ==> is_tidy(#[trigger] fs[k]),
        !name.contains(' '),
        0 <= i < all_lines(fs).len(),
        help_start(name).is_prefix_of(all_lines(fs)[i]) || type_start(name).is_prefix_of(
            all_lines(fs)[i],
        ),
    ensures
        0 <= k < fs.len(),
        fs[k].name == name,
        help_start(name).is_prefix_of(all_lines(fs)[i]) ==> i == first_line(fs, k),
        type_start(name).is_prefix_of(all_lines(fs)[i]) ==> i == first_line(fs, k) + 1,
    decreases fs.len(),
{
    reveal_strlit("# HELP ");
    reveal_strlit("# TYPE ");
    let front = fs.drop_last();
    let last = fs.last();
    let line = all_lines(fs)[i];
    let n = all_lines(front).len() as int;
    assert(last == fs[fs.len() - 1]);
    assert(fs.take(fs.len() - 1) =~= front);
    if i < n {
        assert(line == all_lines(front)[i]);
        assert forall|k: int| 0 <= k < front.len() implies is_tidy(#[trigger] front[k]) by {
            assert(front[k] == fs[k]);
        }
        let k = lemma_introduction(front, name, i);
        assert(fs.take(k) =~= front.take(k));
        assert(front[k] == fs[k]);
        k
    } else {
        assert(line == last.lines()[i - n]);
        let (h, t) = (help_start(name), type_start(name));
        if i - n >= 2 {
            assert(line == last.samples[i - n - 2]);
            assert(h.is_prefix_of(line) ==> h[0] == line.take(h.len() as int)[0]);
            assert(t.is_prefix_of(line) ==> t[0] == line.take(t.len() as int)[0]);
            assert(false);
        } else if i == n {
            assert(line == last.help_line());
            assert(t.is_prefix_of(line) ==> t[2] == line.take(t.len() as int)[2]);
            lemma_same_start("# HELP "@, name, last.name, last.help);
        } else {
            assert(line == last.type_line());
            assert(h.is_prefix_of(line) ==> h[2] == line.take(h.len() as int)[2]);
            lemma_same_start("# TYPE "@, name, last.name, last.kind);
        }
        fs.len() - 1
    }
}

proof fn lemma_same_start(mark: Seq<char>, word: Seq<char>, first: Seq<char>, rest: Seq<char>)
    requires
        !word.contains(' '),
        !first.contains(' '),
        (mark + word + " "@).is_prefix_of(mark + first + " "@ + rest),
    ensures
        word == first,
{
    let (a, b) = (word + " "@, first + " "@ + rest);
    let (long, all) = (mark + word + " "@, mark + first + " "@ + rest);
    assert(long =~= mark + a);
    assert(all =~= mark + b);
    assert(long == all.take(long.len() as int));
    assert(a =~= b.take(a.len() as int)) by {
        assert forall|i: int| 0 <= i < a.len() implies a[i] == b[i] by {
            assert(long[mark.len() + i] == all[mark.len() + i]);
        }
    }
    lemma_first_word(word, first, rest);
}

proof fn lemma_families_are_tidy(
    t: Tally,
    keys: u64,
    arena_bytes: u64,
    uptime_seconds: u64,
    sum_seconds: Seq<char>,
)
    requires
        !sum_seconds.contains('\n'),
    ensures
        forall|k: int|
            0 <= k < 9 ==> is_tidy(
                #[trigger] families(t, keys, arena_bytes, uptime_seconds, sum_seconds)[k],
            ),
{
    lemma_names();
    lemma_sentences();
    lemma_histogram_is_tidy(t.buckets, t.timed, sum_seconds);
    let fs = families(t, keys, arena_bytes, uptime_seconds, sum_seconds);
    assert forall|k: int| 0 <= k < 9 implies is_tidy(#[trigger] fs[k]) by {
        if k != 5 {
            let v = if k == 0 {
                t.requests
            } else if k == 1 {
                t.hits
            } else if k == 2 {
                t.misses
            } else if k == 3 {
                t.defaults
            } else if k == 4 {
                t.bytes
            } else if k == 6 {
                keys
            } else if k == 7 {
                arena_bytes
            } else {
                uptime_seconds
            };
            lemma_number_is_tidy(fs[k].name, fs[k].kind, fs[k].help, v);
        }
    }
}

/// No two metrics have the same name.
proof fn lemma_names_differ(
    t: Tally,
    keys: u64,
    arena_bytes: u64,
    uptime_seconds: u64,
    sum_seconds: Seq<char>,
)
    ensures
        ({
            let fs = families(t, keys, arena_bytes, uptime_seconds, sum_seconds);
            forall|i: int, j: int|
                0 <= i < j < 9 ==> (#[trigger] fs[i]).name != (#[trigger] fs[j]).name
        }),
{
    reveal_strlit("justkv_requests_total");
    reveal_strlit("justkv_hits_total");
    reveal_strlit("justkv_misses_total");
    reveal_strlit("justkv_defaults_served_total");
    reveal_strlit("justkv_response_bytes_total");
    reveal_strlit("justkv_request_duration_seconds");
    reveal_strlit("justkv_keys");
    reveal_strlit("justkv_arena_bytes");
    reveal_strlit("justkv_uptime_seconds");
    let fs = families(t, keys, arena_bytes, uptime_seconds, sum_seconds);
    // Only these two are equally long.
    assert(fs[0].name[7] != fs[8].name[7]);
}

/// The text introduces a family once: it has exactly one line that explains it, directly
/// followed by exactly one that tells its kind, and then by its samples.
pub open spec fn is_introduced_once(text: Seq<char>, fs: Seq<Family>, k: int) -> bool {
    let ls = lines(text);
    let at = first_line(fs, k);
    let f = fs[k];
    &&& 0 <= at && at + 2 + f.samples.len() <= ls.len()
    &&& ls[at] == f.help_line()
    &&& ls[at + 1] == f.type_line()
    &&& ls.subrange(at + 2, at + 2 + f.samples.len()) == f.samples
    &&& forall|i: int|
        0 <= i < ls.len() && help_start(f.name).is_prefix_of(#[trigger] ls[i]) ==> i == at
    &&& forall|i: int|
        0 <= i < ls.len() && type_start(f.name).is_prefix_of(#[trigger] ls[i]) ==> i == at + 1
}

/// Every metric is introduced once in the whole text, and the text ends with the end of a
/// line. The sum is the one part of the text that is given, and is on one line.
pub proof fn law_every_metric_is_introduced_once(
    t: Tally,
    keys: u64,
    arena_bytes: u64,
    uptime_seconds: u64,
    sum_seconds: Seq<char>,
    k: int,
)
    requires
        !sum_seconds.contains('\n'),
        0 <= k < families(t, keys, arena_bytes, uptime_seconds, sum_seconds).len(),
    ensures
        ({
            let fs = families(t, keys, arena_bytes, uptime_seconds, sum_seconds);
            let text = metrics_text(t, keys, arena_bytes, uptime_seconds, sum_seconds);
            &&& text.len() > 0 && text.last() == '\n'
            &&& is_introduced_once(text, fs, k)
        }),
{
    let fs = families(t, keys, arena_bytes, uptime_seconds, sum_seconds);
    let all = all_lines(fs);
    let at = first_line(fs, k);
    let f = fs[k];
    lemma_families_are_tidy(t, keys, arena_bytes, uptime_seconds, sum_seconds);
    lemma_names_differ(t, keys, arena_bytes, uptime_seconds, sum_seconds);
    lemma_lines_of_family(fs, k);
    assert forall|i: int| 0 <= i < all.len() implies !(#[trigger] all[i]).contains('\n') by {
        lemma_tidy_lines(fs, i);
    }
    law_lines_come_apart_again(all);
    let part = all.subrange(at, at + f.lines().len());
    assert(part[0] == all[at] && part[1] == all[at + 1]);
    assert(all.subrange(at + 2, at + 2 + f.samples.len()) =~= f.samples) by {
        assert forall|i: int| 0 <= i < f.samples.len() implies all[at + 2 + i] == f.samples[i] by {
            assert(part[2 + i] == f.lines()[2 + i]);
        }
    }
    assert forall|i: int|
        0 <= i < all.len() && help_start(f.name).is_prefix_of(#[trigger] all[i]) implies i
        == at by {
        let j = lemma_introduction(fs, f.name, i);
        assert(j == k);
    }
    assert forall|i: int|
        0 <= i < all.len() && type_start(f.name).is_prefix_of(#[trigger] all[i]) implies i == at
        + 1 by {
        let j = lemma_introduction(fs, f.name, i);
        assert(j == k);
    }
}

proof fn lemma_tidy_lines(fs: Seq<Family>, i: int)
    requires
        forall|k: int| 0 <= k < fs.len() ==> is_tidy(#[trigger] fs[k]),
        0 <= i < all_lines(fs).len(),
    ensures
        !all_lines(fs)[i].contains('\n'),
    decreases fs.len(),
{
    let front = fs.drop_last();
    let n = all_lines(front).len() as int;
    assert(is_tidy(fs[fs.len() - 1]));
    if i < n {
        assert forall|k: int| 0 <= k < front.len() implies is_tidy(#[trigger] front[k]) by {
            assert(front[k] == fs[k]);
        }
        lemma_tidy_lines(front, i);
    } else if i - n >= 2 {
        assert(all_lines(fs)[i] == fs.last().samples[i - n - 2]);
    }
}

/// The lines of the text are the lines of the families.
pub(crate) proof fn lemma_lines_of_text(
    t: Tally,
    keys: u64,
    arena_bytes: u64,
    uptime_seconds: u64,
    sum_seconds: Seq<char>,
)
    requires
        !sum_seconds.contains('\n'),
    ensures
        lines(metrics_text(t, keys, arena_bytes, uptime_seconds, sum_seconds)) == all_lines(
            families(t, keys, arena_bytes, uptime_seconds, sum_seconds),
        ),
{
    let fs = families(t, keys, arena_bytes, uptime_seconds, sum_seconds);
    let all = all_lines(fs);
    lemma_families_are_tidy(t, keys, arena_bytes, uptime_seconds, sum_seconds);
    assert forall|i: int| 0 <= i < all.len() implies !(#[trigger] all[i]).contains('\n') by {
        lemma_tidy_lines(fs, i);
    }
    law_lines_come_apart_again(all);
}

/// The lines of a family stand behind those of the families before it.
pub(crate) proof fn lemma_family_at(fs: Seq<Family>, k: int)
    requires
        0 <= k < fs.len(),
    ensures
        first_line(fs, 0) == 0,
        first_line(fs, k + 1) == first_line(fs, k) + 2 + fs[k].samples.len(),
        first_line(fs, fs.len() as int) == all_lines(fs).len(),
        first_line(fs, k + 1) <= all_lines(fs).len(),
        all_lines(fs)[first_line(fs, k)] == fs[k].help_line(),
        all_lines(fs)[first_line(fs, k) + 1] == fs[k].type_line(),
        forall|i: int|
            0 <= i < fs[k].samples.len() ==> #[trigger] fs[k].samples[i] == all_lines(
                fs,
            )[first_line(fs, k) + 2 + i],
{
    let at = first_line(fs, k);
    lemma_lines_of_family(fs, k);
    assert(fs.take(k + 1).drop_last() =~= fs.take(k));
    assert(fs.take(fs.len() as int) =~= fs);
    let part = all_lines(fs).subrange(at, at + fs[k].lines().len());
    assert(part[0] == all_lines(fs)[at] && part[1] == all_lines(fs)[at + 1]);
    assert forall|i: int| 0 <= i < fs[k].samples.len() implies #[trigger] fs[k].samples[i]
        == all_lines(fs)[at + 2 + i] by {
        assert(part[2 + i] == fs[k].lines()[2 + i]);
    }
}

} // verus!
