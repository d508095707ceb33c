//! Counters, a latency histogram, and their text for a scraper.

use crate::metrics::families::{
    families, is_introduced_once, law_every_metric_is_introduced_once, metrics_text,
    push_histogram, push_number, text_of_first, Seconds,
};
use vstd::prelude::*;

pub mod families;
pub mod laws;

verus! {

/// Upper bounds of the latency buckets in nanoseconds. A 13th implicit bucket catches
/// everything above.
pub const BUCKETS: [u64; 12] = [
    25_000,
    50_000,
    100_000,
    250_000,
    500_000,
    1_000_000,
    2_500_000,
    5_000_000,
    10_000_000,
    25_000_000,
    50_000_000,
    100_000_000,
];

/// How a lookup ended.
#[derive(Clone, Copy, Debug, PartialEq, Eq, Structural)]
pub enum Outcome {
    Hit,
    /// Key absent and no default configured — a 404.
    Miss,
    /// Key absent but a default was served — still a miss, served as 200.
    Default,
}

/// What has been counted. Every counter wraps around at 64 bits.
pub struct Tally {
    pub requests: u64,
    pub hits: u64,
    pub misses: u64,
    pub defaults: u64,
    pub bytes: u64,
    pub buckets: Seq<u64>,
    pub sum_nanos: u64,
    pub timed: u64,
}

/// A counter that went up by `n`.
pub open spec fn plus(counter: u64, n: u64) -> u64 {
    if counter + n <= u64::MAX {
        (counter + n) as u64
    } else {
        (counter + n - 0x1_0000_0000_0000_0000) as u64
    }
}

/// The first bucket from `i` on whose bound is not below `nanos`.
pub open spec fn bucket_from(nanos: nat, i: int) -> int
    decreases 12 - i,
{
    if i >= 12 || nanos <= BUCKETS@[i] {
        i
    } else {
        bucket_from(nanos, i + 1)
    }
}

/// The bucket that a latency falls into.
pub open spec fn bucket_of(nanos: nat) -> int {
    bucket_from(nanos, 0)
}

/// How many timed requests fell into the first `n` buckets.
pub open spec fn up_to(buckets: Seq<u64>, n: int) -> u64
    decreases n,
{
    if n <= 0 {
        0
    } else {
        plus(up_to(buckets, n - 1), buckets[n - 1])
    }
}

impl Tally {
    /// Nothing counted yet.
    pub open spec fn zero() -> Tally {
        Tally {
            requests: 0,
            hits: 0,
            misses: 0,
            defaults: 0,
            bytes: 0,
            buckets: Seq::new(13, |i: int| 0u64),
            sum_nanos: 0,
            timed: 0,
        }
    }

    /// One request more, with the bytes sent for it.
    pub open spec fn with_request(self, outcome: Outcome, bytes: u64) -> Tally {
        Tally {
            requests: plus(self.requests, 1),
            hits: if outcome is Hit {
                plus(self.hits, 1)
            } else {
                self.hits
            },
            misses: if outcome is Hit {
                self.misses
            } else {
                plus(self.misses, 1)
            },
            defaults: if outcome is Default {
                plus(self.defaults, 1)
            } else {
                self.defaults
            },
            bytes: plus(self.bytes, bytes),
            ..self
        }
    }

    /// One latency more.
    pub open spec fn with_latency(self, nanos: nat) -> Tally {
        let i = bucket_of(nanos);
        Tally {
            buckets: self.buckets.update(i, plus(self.buckets[i], 1)),
            sum_nanos: plus(self.sum_nanos, (nanos % 0x1_0000_0000_0000_0000) as u64),
            timed: plus(self.timed, 1),
            ..self
        }
    }

    /// One request more, timed or not.
    pub open spec fn with(self, outcome: Outcome, bytes: u64, elapsed: Option<u128>) -> Tally {
        match elapsed {
            Some(nanos) => self.with_request(outcome, bytes).with_latency(nanos as nat),
            None => self.with_request(outcome, bytes),
        }
    }

    /// Every request is a hit or a miss, and every latency is in one bucket.
    pub open spec fn adds_up(self) -> bool {
        &&& self.buckets.len() == 13
        &&& self.requests == plus(self.hits, self.misses)
        &&& self.timed == up_to(self.buckets, 13)
    }
}

/// Plain numbers rather than a metrics crate: nine numbers and a fixed
/// histogram render in a few dozen lines and drop a dependency tree.
pub struct Metrics {
    requests: u64,
    hits: u64,
    misses: u64,
    defaults: u64,
    bytes: u64,
    buckets: [u64; 13],
    sum_nanos: u64,
    timed: u64,
}

impl View for Metrics {
    type V = Tally;

    closed spec fn view(&self) -> Tally {
        Tally {
            requests: self.requests,
            hits: self.hits,
            misses: self.misses,
            defaults: self.defaults,
            bytes: self.bytes,
            buckets: self.buckets@,
            sum_nanos: self.sum_nanos,
            timed: self.timed,
        }
    }
}

impl Default for Metrics {
    fn default() -> (m: Metrics)
        ensures
            m@ == Tally::zero(),
    {
        Metrics::new()
    }
}

/// The bucket that a latency falls into.
fn find_bucket(nanos: u128) -> (i: usize)
    ensures
        i == bucket_of(nanos as nat),
        i <= 12,
{
    let mut i: usize = 0;
    while i < 12 && nanos > BUCKETS[i] as u128
        invariant
            i <= 12,
            bucket_of(nanos as nat) == bucket_from(nanos as nat, i as int),
        decreases 12 - i,
    {
        i += 1;
    }
    i
}

pub(crate) proof fn lemma_up_to_update(buckets: Seq<u64>, i: int, n: int)
    requires
        0 <= i < buckets.len(),
        0 <= n <= buckets.len(),
    ensures
        up_to(buckets.update(i, plus(buckets[i], 1)), n) == (if i < n {
            plus(up_to(buckets, n), 1)
        } else {
            up_to(buckets, n)
        }),
    decreases n,
{
    if n > 0 {
        lemma_up_to_update(buckets, i, n - 1);
    }
}

impl Metrics {
    #[verifier::type_invariant]
    closed spec fn well_formed(self) -> bool {
        self@.adds_up()
    }

    pub fn new() -> (m: Metrics)
        ensures
            m@ == Tally::zero(),
            m@.adds_up(),
    {
        let buckets: [u64; 13] = [0, 0, 0, 0, 0, 0, 0, 0, 0, 0, 0, 0, 0];
        proof {
            assert(buckets@ =~= Tally::zero().buckets);
            reveal_with_fuel(up_to, 14);
        }
        Metrics {
            requests: 0,
            hits: 0,
            misses: 0,
            defaults: 0,
            bytes: 0,
            buckets,
            sum_nanos: 0,
            timed: 0,
        }
    }

    /// Count one request: how it ended, the bytes sent for it, and how long it took in
    /// nanoseconds if that was measured.
    pub fn record(&mut self, outcome: Outcome, bytes: usize, elapsed: Option<u128>)
        ensures
            final(self)@ == old(self)@.with(outcome, bytes as u64, elapsed),
            final(self)@.adds_up(),
    {
        proof {
            use_type_invariant(&*self);
        }
        let (hits, misses, defaults) = match outcome {
            Outcome::Hit => (self.hits.wrapping_add(1), self.misses, self.defaults),
            Outcome::Miss => (self.hits, self.misses.wrapping_add(1), self.defaults),
            // Deliberate: the status code says 200, the metrics say miss.
            Outcome::Default => (
                self.hits,
                self.misses.wrapping_add(1),
                self.defaults.wrapping_add(1),
            ),
        };
        let mut buckets = self.buckets;
        let mut sum_nanos: u64 = self.sum_nanos;
        let mut timed: u64 = self.timed;
        if let Some(nanos) = elapsed {
            let i: usize = find_bucket(nanos);
            proof {
                lemma_up_to_update(buckets@, i as int, 13);
            }
            buckets[i] = buckets[i].wrapping_add(1);
            sum_nanos = sum_nanos.wrapping_add((nanos % 0x1_0000_0000_0000_0000) as u64);
            timed = timed.wrapping_add(1);
        }
        *self = Metrics {
            requests: self.requests.wrapping_add(1),
            hits,
            misses,
            defaults,
            bytes: self.bytes.wrapping_add(bytes as u64),
            buckets,
            sum_nanos,
            timed,
        };
    }

    /// The sum of all measured latencies in nanoseconds.
    pub fn sum_nanos(&self) -> (n: u64)
        ensures
            n == self@.sum_nanos,
    {
        self.sum_nanos
    }

    /// The text for a scraper. `sum_seconds` is [`Metrics::sum_nanos`] in seconds, as text.
    pub fn render(
        &self,
        keys: usize,
        arena_bytes: usize,
        uptime_seconds: u64,
        sum_seconds: &Seconds,
    ) -> (o: String)
        ensures
            o@ == metrics_text(
                self@,
                keys as u64,
                arena_bytes as u64,
                uptime_seconds,
                sum_seconds@,
            ),
            forall|k: int|
                0 <= k < 9 ==> #[trigger] is_introduced_once(
                    o@,
                    families(
                        self@,
                        keys as u64,
                        arena_bytes as u64,
                        uptime_seconds,
                        sum_seconds@,
                    ),
                    k,
                ),
            self@.adds_up(),
    {
        proof {
            use_type_invariant(self);
        }
        let sum: &str = sum_seconds.as_str();
        let mut o = String::new();
        let ghost fs = families(
            self@,
            keys as u64,
            arena_bytes as u64,
            uptime_seconds,
            sum_seconds@,
        );
        assert(o@ =~= text_of_first(fs, 0));
        push_number(
            &mut o,
            "justkv_requests_total",
            "counter",
            "Total key lookups served.",
            self.requests,
            Ghost(fs),
            Ghost(0),
        );
        push_number(
            &mut o,
            "justkv_hits_total",
            "counter",
            "Lookups that found a key.",
            self.hits,
            Ghost(fs),
            Ghost(1),
        );
        push_number(
            &mut o,
            "justkv_misses_total",
            "counter",
            "Lookups with no matching key, including those served a default.",
            self.misses,
            Ghost(fs),
            Ghost(2),
        );
        push_number(
            &mut o,
            "justkv_defaults_served_total",
            "counter",
            "Misses answered with the configured default value.",
            self.defaults,
            Ghost(fs),
            Ghost(3),
        );
        push_number(
            &mut o,
            "justkv_response_bytes_total",
            "counter",
            "Value bytes written to clients.",
            self.bytes,
            Ghost(fs),
            Ghost(4),
        );
        push_histogram(&mut o, &self.buckets, self.timed, sum, Ghost(fs), Ghost(5));
        push_number(
            &mut o,
            "justkv_keys",
            "gauge",
            "Keys loaded.",
            keys as u64,
            Ghost(fs),
            Ghost(6),
        );
        push_number(
            &mut o,
            "justkv_arena_bytes",
            "gauge",
            "Bytes of key and value data held in memory.",
            arena_bytes as u64,
            Ghost(fs),
            Ghost(7),
        );
        push_number(
            &mut o,
            "justkv_uptime_seconds",
            "gauge",
            "Seconds since the server finished loading.",
            uptime_seconds,
            Ghost(fs),
            Ghost(8),
        );
        proof {
            assert(fs.take(9) =~= fs);
            assert forall|k: int| 0 <= k < 9 implies #[trigger] is_introduced_once(
                o@,
                fs,
                k,
            ) by {
                law_every_metric_is_introduced_once(
                    self@,
                    keys as u64,
                    arena_bytes as u64,
                    uptime_seconds,
                    sum_seconds@,
                    k,
                );
            }
        }
        o
    }
}

} // verus!
