//! What holds of the counters over many requests.

use crate::metrics::families::{
    bucket_label, bucket_line, count_line, families, histogram, lemma_family_at,
    lemma_lines_of_text, metrics_text, sum_line,
};
use crate::metrics::{
    bucket_from, bucket_of, lemma_up_to_update, plus, up_to, Outcome, Tally, BUCKETS,
};
use crate::text::{decimal, lines};
use vstd::prelude::*;
use vstd::seq_lib::{commutative_foldl, lemma_fold_left_permutation};

verus! {

/// A served default counts as a miss and never as a hit.
pub proof fn law_a_served_default_is_a_miss(t: Tally, bytes: u64, elapsed: Option<u128>)
    ensures
        ({
            let after = t.with(Outcome::Default, bytes, elapsed);
            &&& after.hits == t.hits
            &&& after.misses == plus(t.misses, 1)
            &&& after.defaults == plus(t.defaults, 1)
            &&& after.requests == plus(t.requests, 1)
        }),
{
}

/// A request that was not timed leaves the histogram alone.
pub proof fn law_untimed_requests_leave_the_histogram_alone(t: Tally, outcome: Outcome, bytes: u64)
    ensures
        ({
            let after = t.with(outcome, bytes, None);
            &&& after.buckets == t.buckets
            &&& after.sum_nanos == t.sum_nanos
            &&& after.timed == t.timed
        }),
{
}

/// Counting keeps the books balanced: hits and misses make up the requests, and the
/// last cumulative bucket is the number of timed requests.
pub proof fn law_counting_keeps_the_books_balanced(
    t: Tally,
    outcome: Outcome,
    bytes: u64,
    elapsed: Option<u128>,
)
    requires
        t.adds_up(),
    ensures
        t.with(outcome, bytes, elapsed).adds_up(),
{
    if let Some(nanos) = elapsed {
        law_a_latency_falls_into_the_first_bucket_that_holds_it(nanos as nat);
        lemma_up_to_update(t.buckets, bucket_of(nanos as nat), 13);
    }
}

proof fn lemma_bucket_from(nanos: nat, i: int)
    requires
        0 <= i <= 12,
        forall|j: int| 0 <= j < i ==> nanos > #[trigger] BUCKETS@[j],
    ensures
        0 <= bucket_from(nanos, i) <= 12,
        bucket_from(nanos, i) < 12 ==> nanos <= BUCKETS@[bucket_from(nanos, i)],
        forall|j: int| 0 <= j < bucket_from(nanos, i) ==> nanos > #[trigger] BUCKETS@[j],
    decreases 12 - i,
{
    if i < 12 && nanos > BUCKETS@[i] {
        lemma_bucket_from(nanos, i + 1);
    }
}

/// A latency falls into the first bucket whose bound is not below it, and above all
/// bounds into the last one.
pub proof fn law_a_latency_falls_into_the_first_bucket_that_holds_it(nanos: nat)
    ensures
        0 <= bucket_of(nanos) <= 12,
        bucket_of(nanos) < 12 ==> nanos <= BUCKETS@[bucket_of(nanos)],
        forall|j: int| 0 <= j < bucket_of(nanos) ==> nanos > #[trigger] BUCKETS@[j],
{
    lemma_bucket_from(nanos, 0);
}

/// The plain sum of the first `n` buckets.
pub open spec fn sum_to(buckets: Seq<u64>, n: int) -> nat
    decreases n,
{
    if n <= 0 {
        0
    } else {
        sum_to(buckets, n - 1) + buckets[n - 1] as nat
    }
}

/// As long as no counter has wrapped, the bucket lines are plain sums: they never go down.
pub proof fn law_cumulative_buckets_never_go_down(buckets: Seq<u64>, m: int, n: int)
    requires
        0 <= m <= n <= buckets.len(),
        sum_to(buckets, n) <= u64::MAX,
    ensures
        up_to(buckets, n) == sum_to(buckets, n),
        up_to(buckets, m) <= up_to(buckets, n),
    decreases n,
{
    if m < n {
        law_cumulative_buckets_never_go_down(buckets, m, n - 1);
    } else if n > 0 {
        law_cumulative_buckets_never_go_down(buckets, n - 1, n - 1);
    }
}

/// One call of `record`.
pub struct Call {
    pub outcome: Outcome,
    pub bytes: u64,
    pub elapsed: Option<u128>,
}

/// What has been counted after a run of calls.
pub open spec fn tally_of(calls: Seq<Call>) -> Tally
    decreases calls.len(),
{
    if calls.len() == 0 {
        Tally::zero()
    } else {
        let last = calls.last();
        tally_of(calls.drop_last()).with(last.outcome, last.bytes, last.elapsed)
    }
}

/// How many of the calls ended in a hit.
pub open spec fn hits_in(calls: Seq<Call>) -> nat {
    calls.filter(|c: Call| c.outcome is Hit).len()
}

/// How many of the calls were served a default.
pub open spec fn defaults_in(calls: Seq<Call>) -> nat {
    calls.filter(|c: Call| c.outcome is Default).len()
}

/// How many of the calls were timed.
pub open spec fn timed_in(calls: Seq<Call>) -> nat {
    calls.filter(|c: Call| c.elapsed is Some).len()
}

proof fn lemma_filter_last(calls: Seq<Call>, keep: spec_fn(Call) -> bool)
    requires
        calls.len() > 0,
    ensures
        calls.filter(keep).len() == calls.drop_last().filter(keep).len() + (if keep(
            calls.last(),
        ) {
            1int
        } else {
            0
        }),
        calls.filter(keep).len() <= calls.len(),
{
    reveal(Seq::filter);
    calls.lemma_filter_len(keep);
}

proof fn lemma_sum_to_update(buckets: Seq<u64>, i: int, n: int)
    requires
        0 <= i < buckets.len(),
        0 <= n <= buckets.len(),
        buckets[i] < u64::MAX,
    ensures
        sum_to(buckets.update(i, plus(buckets[i], 1)), n) == sum_to(buckets, n) + (if i < n {
            1int
        } else {
            0
        }),
    decreases n,
{
    if n > 0 {
        lemma_sum_to_update(buckets, i, n - 1);
    }
}

proof fn lemma_bucket_within_sum(buckets: Seq<u64>, i: int, n: int)
    requires
        0 <= i < n <= buckets.len(),
    ensures
        buckets[i] <= sum_to(buckets, n),
    decreases n,
{
    if i < n - 1 {
        lemma_bucket_within_sum(buckets, i, n - 1);
    }
}

proof fn lemma_tally(calls: Seq<Call>)
    requires
        calls.len() <= u64::MAX,
    ensures
        ({
            let t = tally_of(calls);
            &&& t.buckets.len() == 13
            &&& t.requests == calls.len()
            &&& t.hits == hits_in(calls)
            &&& t.misses == calls.len() - hits_in(calls)
            &&& t.defaults == defaults_in(calls)
            &&& t.timed == timed_in(calls)
            &&& sum_to(t.buckets, 13) == timed_in(calls)
            &&& hits_in(calls) + defaults_in(calls) <= calls.len()
            &&& timed_in(calls) <= calls.len()
        }),
    decreases calls.len(),
{
    if calls.len() == 0 {
        reveal(Seq::filter);
        reveal_with_fuel(sum_to, 14);
    } else {
        let front = calls.drop_last();
        let last = calls.last();
        let before = tally_of(front);
        lemma_tally(front);
        lemma_filter_last(calls, |c: Call| c.outcome is Hit);
        lemma_filter_last(calls, |c: Call| c.outcome is Default);
        lemma_filter_last(calls, |c: Call| c.elapsed is Some);
        if let Some(nanos) = last.elapsed {
            let i = bucket_of(nanos as nat);
            law_a_latency_falls_into_the_first_bucket_that_holds_it(nanos as nat);
            lemma_bucket_within_sum(before.buckets, i, 13);
            lemma_sum_to_update(before.buckets, i, 13);
        }
    }
}

/// After any run of calls, as long as no counter can have wrapped, the counters are what
/// their names say: hits and misses make up the requests, the served defaults are some of
/// the misses, and the timed requests are some of the requests.
pub proof fn law_counters_count(calls: Seq<Call>)
    requires
        calls.len() <= u64::MAX,
    ensures
        ({
            let t = tally_of(calls);
            &&& t.requests == calls.len()
            &&& t.hits == hits_in(calls)
            &&& t.defaults == defaults_in(calls)
            &&& t.timed == timed_in(calls)
            &&& t.requests == t.hits + t.misses
            &&& t.defaults <= t.misses
            &&& t.timed <= t.requests
        }),
{
    lemma_tally(calls);
}

/// After any run of calls, as long as no counter can have wrapped, the histogram has a
/// line for each of the twelve bounds and one for `+Inf`, with numbers that never go down
/// from line to line; the last of them is the number of timed requests.
pub proof fn law_the_histogram_is_cumulative(calls: Seq<Call>, sum_seconds: Seq<char>)
    requires
        calls.len() <= u64::MAX,
    ensures
        ({
            let t = tally_of(calls);
            let samples = histogram(t.buckets, t.timed, sum_seconds).samples;
            &&& samples.len() == 15
            &&& forall|i: int|
                0 <= i < 13 ==> #[trigger] samples[i]
                    == "justkv_request_duration_seconds_bucket{le=\""@ + bucket_label(i)
                    + "\"} "@ + decimal(up_to(t.buckets, i + 1) as nat)
            &&& samples[13] == sum_line(sum_seconds)
            &&& samples[14] == count_line(t.timed)
            &&& forall|m: int, n: int|
                0 <= m <= n <= 13 ==> #[trigger] up_to(t.buckets, m) <= #[trigger] up_to(
                    t.buckets,
                    n,
                )
            &&& bucket_label(12) == "+Inf"@
            &&& up_to(t.buckets, 13) == t.timed
        }),
{
    let t = tally_of(calls);
    lemma_tally(calls);
    law_cumulative_buckets_never_go_down(t.buckets, 13, 13);
    assert forall|m: int, n: int| 0 <= m <= n <= 13 implies #[trigger] up_to(t.buckets, m)
        <= #[trigger] up_to(t.buckets, n) by {
        lemma_sum_to_grows(t.buckets, n, 13);
        law_cumulative_buckets_never_go_down(t.buckets, m, n);
    }
}

proof fn lemma_sum_to_grows(buckets: Seq<u64>, m: int, n: int)
    requires
        0 <= m <= n <= buckets.len(),
    ensures
        sum_to(buckets, m) <= sum_to(buckets, n),
    decreases n,
{
    if m < n {
        lemma_sum_to_grows(buckets, m, n - 1);
    }
}

/// One call more, on counters that have all their buckets.
spec fn step(t: Tally, c: Call) -> Tally {
    if t.buckets.len() == 13 {
        t.with(c.outcome, c.bytes, c.elapsed)
    } else {
        t
    }
}

/// Two calls may be swapped.
proof fn lemma_calls_commute(t: Tally, c: Call, d: Call)
    ensures
        step(step(t, c), d) == step(step(t, d), c),
{
    if t.buckets.len() == 13 {
        if let Some(nanos) = c.elapsed {
            law_a_latency_falls_into_the_first_bucket_that_holds_it(nanos as nat);
        }
        if let Some(nanos) = d.elapsed {
            law_a_latency_falls_into_the_first_bucket_that_holds_it(nanos as nat);
        }
        assert(step(step(t, c), d).buckets =~= step(step(t, d), c).buckets);
    }
}

proof fn lemma_tally_is_a_fold(calls: Seq<Call>)
    ensures
        tally_of(calls) == calls.fold_left(Tally::zero(), |t: Tally, c: Call| step(t, c)),
        tally_of(calls).buckets.len() == 13,
    decreases calls.len(),
{
    if calls.len() > 0 {
        lemma_tally_is_a_fold(calls.drop_last());
        if let Some(nanos) = calls.last().elapsed {
            law_a_latency_falls_into_the_first_bucket_that_holds_it(nanos as nat);
        }
    }
}

/// The order in which requests are recorded does not matter: two runs of the same calls
/// come to the same counters, and so to the same text.
pub proof fn law_the_order_of_calls_does_not_matter(
    a: Seq<Call>,
    b: Seq<Call>,
    keys: u64,
    arena_bytes: u64,
    uptime_seconds: u64,
    sum_seconds: Seq<char>,
)
    requires
        a.to_multiset() == b.to_multiset(),
    ensures
        tally_of(a) == tally_of(b),
        metrics_text(tally_of(a), keys, arena_bytes, uptime_seconds, sum_seconds)
            == metrics_text(tally_of(b), keys, arena_bytes, uptime_seconds, sum_seconds),
{
    let f = |t: Tally, c: Call| step(t, c);
    assert(commutative_foldl(f)) by {
        assert forall|x: Call, y: Call, v: Tally| #[trigger] f(f(v, x), y) == f(f(v, y), x) by {
            lemma_calls_commute(v, x, y);
        }
    }
    lemma_fold_left_permutation(a, b, f, Tally::zero());
    lemma_tally_is_a_fold(a);
    lemma_tally_is_a_fold(b);
}

/// A counter goes round at 64 bits.
pub proof fn law_counters_go_round(counter: u64, n: u64)
    ensures
        plus(counter, n) == (counter + n) % 0x1_0000_0000_0000_0000,
{
}

/// What one call does to every counter. Only the bucket of the latency goes up, and the
/// latency goes into the first bucket whose bound is not below it.
pub proof fn law_one_call_more(t: Tally, outcome: Outcome, bytes: u64, elapsed: Option<u128>)
    requires
        t.buckets.len() == 13,
    ensures
        ({
            let after = t.with(outcome, bytes, elapsed);
            let round = 0x1_0000_0000_0000_0000int;
            &&& after.requests == (t.requests + 1) % round
            &&& after.bytes == (t.bytes + bytes) % round
            &&& outcome is Hit ==> after.hits == (t.hits + 1) % round && after.misses == t.misses
                && after.defaults == t.defaults
            &&& outcome is Miss ==> after.hits == t.hits && after.misses == (t.misses + 1) % round
                && after.defaults == t.defaults
            &&& outcome is Default ==> after.hits == t.hits && after.misses == (t.misses + 1)
                % round && after.defaults == (t.defaults + 1) % round
            &&& after.buckets.len() == 13
            &&& elapsed is None ==> after.timed == t.timed && after.sum_nanos == t.sum_nanos
                && after.buckets == t.buckets
            &&& elapsed matches Some(nanos) ==> {
                &&& after.timed == (t.timed + 1) % round
                &&& after.sum_nanos == (t.sum_nanos + nanos) % round
                &&& forall|i: int|
                    0 <= i < 13 ==> #[trigger] after.buckets[i] == (if (i == 12 || nanos
                        <= BUCKETS@[i]) && (i == 0 || nanos > BUCKETS@[i - 1]) {
                        (t.buckets[i] + 1) % round
                    } else {
                        t.buckets[i] as int
                    })
            }
        }),
{
    if let Some(nanos) = elapsed {
        let j = bucket_of(nanos as nat);
        let after = t.with(outcome, bytes, elapsed);
        law_a_latency_falls_into_the_first_bucket_that_holds_it(nanos as nat);
        law_the_bounds_go_up();
        assert forall|i: int| 0 <= i < 13 implies #[trigger] after.buckets[i] == (if (i == 12
            || nanos <= BUCKETS@[i]) && (i == 0 || nanos > BUCKETS@[i - 1]) {
            (t.buckets[i] + 1) % 0x1_0000_0000_0000_0000
        } else {
            t.buckets[i] as int
        }) by {
            if i < j {
                assert(nanos > BUCKETS@[i]);
            } else if j < i {
                assert(BUCKETS@[j] <= BUCKETS@[i - 1]);
            } else if i > 0 {
                assert(nanos > BUCKETS@[i - 1]);
            }
        }
    }
}

/// The bounds of the buckets go up, from 25 microseconds to 100 milliseconds.
pub proof fn law_the_bounds_go_up()
    ensures
        BUCKETS@.len() == 12,
        BUCKETS@[0] == 25_000,
        BUCKETS@[11] == 100_000_000,
        forall|i: int, j: int| 0 <= i < j < 12 ==> #[trigger] BUCKETS@[i] < #[trigger] BUCKETS@[j],
{
}

/// How many of the calls took at most that long, of those that were timed.
pub open spec fn within(calls: Seq<Call>, bound: nat) -> nat
    decreases calls.len(),
{
    if calls.len() == 0 {
        0
    } else {
        within(calls.drop_last(), bound) + (if calls.last().elapsed is Some
            && calls.last().elapsed->0 <= bound {
            1nat
        } else {
            0
        })
    }
}

/// The bytes of all the calls.
pub open spec fn bytes_in(calls: Seq<Call>) -> nat
    decreases calls.len(),
{
    if calls.len() == 0 {
        0
    } else {
        bytes_in(calls.drop_last()) + calls.last().bytes as nat
    }
}

/// The nanoseconds of all the calls that were timed.
pub open spec fn nanos_in(calls: Seq<Call>) -> nat
    decreases calls.len(),
{
    if calls.len() == 0 {
        0
    } else {
        nanos_in(calls.drop_last()) + (match calls.last().elapsed {
            Some(nanos) => nanos as nat,
            None => 0,
        })
    }
}

/// After any run of calls the bytes are all those that were sent and the nanoseconds all
/// those that were measured, both going round at 64 bits.
pub proof fn law_bytes_and_nanoseconds_add_up(calls: Seq<Call>)
    ensures
        tally_of(calls).bytes == bytes_in(calls) % 0x1_0000_0000_0000_0000,
        tally_of(calls).sum_nanos == nanos_in(calls) % 0x1_0000_0000_0000_0000,
    decreases calls.len(),
{
    if calls.len() > 0 {
        law_bytes_and_nanoseconds_add_up(calls.drop_last());
    }
}

/// After any run of calls, as long as no counter can have wrapped, the buckets up to each
/// bound hold exactly the timed calls that took at most that long.
pub proof fn law_a_bucket_counts_what_is_within_its_bound(calls: Seq<Call>, i: int)
    requires
        calls.len() <= u64::MAX,
        0 <= i < 12,
    ensures
        up_to(tally_of(calls).buckets, i + 1) == within(calls, BUCKETS@[i] as nat),
        within(calls, BUCKETS@[i] as nat) <= calls.len(),
    decreases calls.len(),
{
    let t = tally_of(calls);
    if calls.len() == 0 {
        reveal_with_fuel(up_to, 14);
    } else {
        let front = calls.drop_last();
        let before = tally_of(front).buckets;
        law_a_bucket_counts_what_is_within_its_bound(front, i);
        lemma_tally(front);
        if let Some(nanos) = calls.last().elapsed {
            let j = bucket_of(nanos as nat);
            law_a_latency_falls_into_the_first_bucket_that_holds_it(nanos as nat);
            law_the_bounds_go_up();
            lemma_up_to_update(before, j, i + 1);
            assert(t.buckets == before.update(j, plus(before[j], 1)));
            if j <= i {
                assert(BUCKETS@[j] <= BUCKETS@[i]);
            } else {
                assert(nanos > BUCKETS@[i]);
            }
        }
    }
}

/// The lines from `at` on explain a metric, tell its kind and give its one number.
pub open spec fn is_number_at(
    ls: Seq<Seq<char>>,
    at: int,
    name: Seq<char>,
    kind: Seq<char>,
    help: Seq<char>,
    v: u64,
) -> bool {
    &&& ls[at] == "# HELP "@ + name + " "@ + help
    &&& ls[at + 1] == "# TYPE "@ + name + " "@ + kind
    &&& ls[at + 2] == name + " "@ + decimal(v as nat)
}

/// A line that says how many calls took at most that many seconds.
pub open spec fn bucket_says(seconds: Seq<char>, n: nat) -> Seq<char> {
    "justkv_request_duration_seconds_bucket{le=\""@ + seconds + "\"} "@ + decimal(n)
}

/// The lines of the text: for every counter and every number about the server, what it is
/// called, what it is and how much it is; and for the latencies each bound in seconds with
/// the sum of the buckets up to it, going round at 64 bits, the sum and the count.
#[verifier::rlimit(40)]
pub proof fn law_the_text_says_what_was_counted(
    t: Tally,
    keys: u64,
    arena_bytes: u64,
    uptime_seconds: u64,
    sum_seconds: Seq<char>,
)
    requires
        !sum_seconds.contains('\n'),
    ensures
        ({
            let ls = lines(metrics_text(t, keys, arena_bytes, uptime_seconds, sum_seconds));
            let round = 0x1_0000_0000_0000_0000nat;
            &&& ls.len() == 41
            &&& is_number_at(
                ls,
                0,
                "justkv_requests_total"@,
                "counter"@,
                "Total key lookups served."@,
                t.requests,
            )
            &&& is_number_at(
                ls,
                3,
                "justkv_hits_total"@,
                "counter"@,
                "Lookups that found a key."@,
                t.hits,
            )
            &&& is_number_at(
                ls,
                6,
                "justkv_misses_total"@,
                "counter"@,
                "Lookups with no matching key, including those served a default."@,
                t.misses,
            )
            &&& is_number_at(
                ls,
                9,
                "justkv_defaults_served_total"@,
                "counter"@,
                "Misses answered with the configured default value."@,
                t.defaults,
            )
            &&& is_number_at(
                ls,
                12,
                "justkv_response_bytes_total"@,
                "counter"@,
                "Value bytes written to clients."@,
                t.bytes,
            )
            &&& is_number_at(
                ls,
                32,
                "justkv_keys"@,
                "gauge"@,
                "Keys loaded."@,
                keys,
            )
            &&& is_number_at(
                ls,
                35,
                "justkv_arena_bytes"@,
                "gauge"@,
                "Bytes of key and value data held in memory."@,
                arena_bytes,
            )
            &&& is_number_at(
                ls,
                38,
                "justkv_uptime_seconds"@,
                "gauge"@,
                "Seconds since the server finished loading."@,
                uptime_seconds,
            )
            &&& ls[15] == "# HELP "@ + "justkv_request_duration_seconds"@ + " "@
                + "Lookup handling latency."@
            &&& ls[16] == "# TYPE "@ + "justkv_request_duration_seconds"@ + " "@ + "histogram"@
            &&& ls[17] == bucket_says("0.000025"@, sum_to(t.buckets, 1) % round)
            &&& ls[18] == bucket_says("0.00005"@, sum_to(t.buckets, 2) % round)
            &&& ls[19] == bucket_says("0.0001"@, sum_to(t.buckets, 3) % round)
            &&& ls[20] == bucket_says("0.00025"@, sum_to(t.buckets, 4) % round)
            &&& ls[21] == bucket_says("0.0005"@, sum_to(t.buckets, 5) % round)
            &&& ls[22] == bucket_says("0.001"@, sum_to(t.buckets, 6) % round)
            &&& ls[23] == bucket_says("0.0025"@, sum_to(t.buckets, 7) % round)
            &&& ls[24] == bucket_says("0.005"@, sum_to(t.buckets, 8) % round)
            &&& ls[25] == bucket_says("0.01"@, sum_to(t.buckets, 9) % round)
            &&& ls[26] == bucket_says("0.025"@, sum_to(t.buckets, 10) % round)
            &&& ls[27] == bucket_says("0.05"@, sum_to(t.buckets, 11) % round)
            &&& ls[28] == bucket_says("0.1"@, sum_to(t.buckets, 12) % round)
            &&& ls[29] == bucket_says("+Inf"@, sum_to(t.buckets, 13) % round)
            &&& ls[30] == "justkv_request_duration_seconds_sum "@ + sum_seconds
            &&& ls[31] == "justkv_request_duration_seconds_count "@ + decimal(t.timed as nat)
        }),
{
    let fs = families(t, keys, arena_bytes, uptime_seconds, sum_seconds);
    lemma_text_lines(t, keys, arena_bytes, uptime_seconds, sum_seconds);
    assert(fs[0].samples.len() == 1 && fs[1].samples.len() == 1 && fs[2].samples.len() == 1);
    assert(fs[3].samples.len() == 1 && fs[4].samples.len() == 1);
    assert(fs[6].samples.len() == 1 && fs[7].samples.len() == 1 && fs[8].samples.len() == 1);
    assert forall|i: int| 0 <= i < 13 implies #[trigger] fs[5].samples[i] == bucket_says(
        bucket_label(i),
        sum_to(t.buckets, i + 1) % 0x1_0000_0000_0000_0000,
    ) by {
        lemma_up_to_goes_round(t.buckets, i + 1);
        assert(fs[5].samples[i] == bucket_line(t.buckets, i));
    }
    // The lines of the bounds, one by one.
    assert(fs[5].samples[0].len() >= 0);
    assert(fs[5].samples[1].len() >= 0);
    assert(fs[5].samples[2].len() >= 0);
    assert(fs[5].samples[3].len() >= 0);
    assert(fs[5].samples[4].len() >= 0);
    assert(fs[5].samples[5].len() >= 0);
    assert(fs[5].samples[6].len() >= 0);
    assert(fs[5].samples[7].len() >= 0);
    assert(fs[5].samples[8].len() >= 0);
    assert(fs[5].samples[9].len() >= 0);
    assert(fs[5].samples[10].len() >= 0);
    assert(fs[5].samples[11].len() >= 0);
    assert(fs[5].samples[12].len() >= 0);
    assert(fs[5].samples[13] == sum_line(sum_seconds));
    assert(fs[5].samples[14] == count_line(t.timed));
}

proof fn lemma_up_to_goes_round(buckets: Seq<u64>, n: int)
    ensures
        up_to(buckets, n) == sum_to(buckets, n) % 0x1_0000_0000_0000_0000,
    decreases n,
{
    if n > 0 {
        lemma_up_to_goes_round(buckets, n - 1);
    }
}

#[verifier::rlimit(40)]
proof fn lemma_text_lines(
    t: Tally,
    keys: u64,
    arena_bytes: u64,
    uptime_seconds: u64,
    sum_seconds: Seq<char>,
)
    requires
        !sum_seconds.contains('\n'),
    ensures
        ({
            let ls = lines(metrics_text(t, keys, arena_bytes, uptime_seconds, sum_seconds));
            let fs = families(t, keys, arena_bytes, uptime_seconds, sum_seconds);
            &&& ls.len() == 41
            &&& forall|k: int|
                0 <= k < 5 ==> ls[3 * k] == (#[trigger] fs[k]).help_line() && ls[3 * k + 1]
                    == fs[k].type_line() && ls[3 * k + 2] == fs[k].samples[0]
            &&& ls[15] == fs[5].help_line()
            &&& ls[16] == fs[5].type_line()
            &&& forall|i: int| 0 <= i < 15 ==> #[trigger] fs[5].samples[i] == ls[17 + i]
            &&& forall|k: int|
                6 <= k < 9 ==> ls[3 * k + 14] == (#[trigger] fs[k]).help_line() && ls[3 * k + 15]
                    == fs[k].type_line() && ls[3 * k + 16] == fs[k].samples[0]
        }),
{
    let fs = families(t, keys, arena_bytes, uptime_seconds, sum_seconds);
    lemma_lines_of_text(t, keys, arena_bytes, uptime_seconds, sum_seconds);
    lemma_family_at(fs, 0);
    lemma_family_at(fs, 1);
    lemma_family_at(fs, 2);
    lemma_family_at(fs, 3);
    lemma_family_at(fs, 4);
    lemma_family_at(fs, 5);
    lemma_family_at(fs, 6);
    lemma_family_at(fs, 7);
    lemma_family_at(fs, 8);
    assert(fs[0].samples.len() == 1 && fs[1].samples.len() == 1 && fs[2].samples.len() == 1);
    assert(fs[3].samples.len() == 1 && fs[4].samples.len() == 1 && fs[5].samples.len() == 15);
    assert(fs[6].samples.len() == 1 && fs[7].samples.len() == 1 && fs[8].samples.len() == 1);
}

/// After any run of calls, as long as no counter can have wrapped, the histogram says for
/// each bound in seconds how many timed calls took at most that many nanoseconds, and for
/// `+Inf` how many were timed at all.
#[verifier::rlimit(40)]
pub proof fn law_the_histogram_says_how_many_were_within_each_bound(
    calls: Seq<Call>,
    keys: u64,
    arena_bytes: u64,
    uptime_seconds: u64,
    sum_seconds: Seq<char>,
)
    requires
        calls.len() <= u64::MAX,
        !sum_seconds.contains('\n'),
    ensures
        ({
            let ls = lines(
                metrics_text(
                    tally_of(calls),
                    keys,
                    arena_bytes,
                    uptime_seconds,
                    sum_seconds,
                ),
            );
            &&& ls.len() == 41
            &&& ls[17] == bucket_says("0.000025"@, within(calls, 25_000))
            &&& ls[18] == bucket_says("0.00005"@, within(calls, 50_000))
            &&& ls[19] == bucket_says("0.0001"@, within(calls, 100_000))
            &&& ls[20] == bucket_says("0.00025"@, within(calls, 250_000))
            &&& ls[21] == bucket_says("0.0005"@, within(calls, 500_000))
            &&& ls[22] == bucket_says("0.001"@, within(calls, 1_000_000))
            &&& ls[23] == bucket_says("0.0025"@, within(calls, 2_500_000))
            &&& ls[24] == bucket_says("0.005"@, within(calls, 5_000_000))
            &&& ls[25] == bucket_says("0.01"@, within(calls, 10_000_000))
            &&& ls[26] == bucket_says("0.025"@, within(calls, 25_000_000))
            &&& ls[27] == bucket_says("0.05"@, within(calls, 50_000_000))
            &&& ls[28] == bucket_says("0.1"@, within(calls, 100_000_000))
            &&& ls[29] == bucket_says("+Inf"@, timed_in(calls))
            &&& ls[31] == "justkv_request_duration_seconds_count "@ + decimal(timed_in(calls))
        }),
{
    let t = tally_of(calls);
    let fs = families(t, keys, arena_bytes, uptime_seconds, sum_seconds);
    lemma_tally(calls);
    lemma_text_lines(t, keys, arena_bytes, uptime_seconds, sum_seconds);
    law_cumulative_buckets_never_go_down(t.buckets, 13, 13);
    assert forall|i: int| 0 <= i < 12 implies #[trigger] fs[5].samples[i] == bucket_says(
        bucket_label(i),
        within(calls, BUCKETS@[i] as nat),
    ) by {
        law_a_bucket_counts_what_is_within_its_bound(calls, i);
        assert(fs[5].samples[i] == bucket_line(t.buckets, i));
    }
    // The lines of the bounds, one by one.
    assert(fs[5].samples[0].len() >= 0);
    assert(fs[5].samples[1].len() >= 0);
    assert(fs[5].samples[2].len() >= 0);
    assert(fs[5].samples[3].len() >= 0);
    assert(fs[5].samples[4].len() >= 0);
    assert(fs[5].samples[5].len() >= 0);
    assert(fs[5].samples[6].len() >= 0);
    assert(fs[5].samples[7].len() >= 0);
    assert(fs[5].samples[8].len() >= 0);
    assert(fs[5].samples[9].len() >= 0);
    assert(fs[5].samples[10].len() >= 0);
    assert(fs[5].samples[11].len() >= 0);
    assert(fs[5].samples[12] == bucket_line(t.buckets, 12));
    assert(fs[5].samples[14] == count_line(t.timed));
}

} // verus!
