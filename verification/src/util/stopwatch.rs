use std::collections::VecDeque;
use std::time::{Duration, Instant};
use vstd::prelude::*;

verus! {

/// A reading of the monotonic clock.
#[verifier::external_type_specification]
#[verifier::external_body]
pub struct ExInstant(Instant);

/// The largest number of nanoseconds a `Duration` holds
/// (`Duration::MAX`, `u64::MAX` seconds and 999,999,999 nanoseconds).
pub open spec fn max_duration_nanos() -> int {
    u64::MAX * 1_000_000_000 + 999_999_999
}

/// `Duration::new(secs, nanos)` for `nanos` below one second.
pub uninterp spec fn duration_of(secs: u64, nanos: u32) -> Duration;

/// `Instant::now`: a reading of the monotonic clock. Nothing is promised of
/// its value.
#[verifier::external_body]
fn instant_now() -> Instant {
    Instant::now()
}

/// `Instant::duration_since`: the time elapsed from `earlier` to `now`,
/// zero if `earlier` is later. It depends on the clock, so nothing is
/// promised of it.
#[verifier::external_body]
fn duration_since(now: &Instant, earlier: &Instant) -> Duration {
    now.duration_since(*earlier)
}

/// `Duration::as_nanos`: the whole nanoseconds of a duration, which are at
/// most those of `Duration::MAX`. The duration itself is opaque here, so its
/// exact value is not stated.
#[verifier::external_body]
fn duration_as_nanos(d: &Duration) -> (n: u128)
    ensures
        n <= max_duration_nanos(),
{
    d.as_nanos()
}

/// `Duration::new`: with fewer than a second of nanoseconds nothing carries
/// over and it does not panic.
#[verifier::external_body]
fn duration_new(secs: u64, nanos: u32) -> (d: Duration)
    requires
        nanos < 1_000_000_000,
    ensures
        d == duration_of(secs, nanos),
{
    Duration::new(secs, nanos)
}

/// The sum of a sequence of sample lengths.
pub open spec fn sum_nanos(s: Seq<u128>) -> int
    decreases s.len(),
{
    if s.len() == 0 {
        0
    } else {
        sum_nanos(s.drop_last()) + s.last()
    }
}

proof fn lemma_sum_prefix(s: Seq<u128>, j: int)
    requires
        0 <= j <= s.len(),
    ensures
        sum_nanos(s.take(j)) <= sum_nanos(s),
    decreases s.len() - j,
{
    if j == s.len() {
        assert(s.take(j) == s);
    } else {
        lemma_sum_prefix(s, j + 1);
        assert(s.take(j + 1).drop_last() == s.take(j));
    }
}

/// `samples` with `nanos` put in front, the oldest sample dropped where
/// more than `max` would be kept.
pub open spec fn recorded(samples: Seq<u128>, max: usize, nanos: u128) -> Seq<u128> {
    if samples.len() + 1 > max {
        (seq![nanos] + samples).take(max as int)
    } else {
        seq![nanos] + samples
    }
}

/// Measures the time between ticks and averages the most recent ones.
pub struct Stopwatch {
    last: Instant,
    samples: VecDeque<u128>,
    max_samples: usize,
}

impl Stopwatch {
    #[verifier::type_invariant]
    spec fn well_formed(self) -> bool {
        &&& self.samples@.len() <= self.max_samples
        &&& forall|i: int|
            0 <= i < self.samples@.len() ==> #[trigger] self.samples@[i] <= max_duration_nanos()
    }

    /// The kept intervals in nanoseconds, most recent first.
    pub closed spec fn samples_view(self) -> Seq<u128> {
        self.samples@
    }

    /// The instant the current interval started at: creation, or the
    /// latest tick.
    pub closed spec fn last_view(self) -> Instant {
        self.last
    }

    /// How many intervals are kept at most.
    pub closed spec fn max_samples_view(self) -> usize {
        self.max_samples
    }

    pub fn new(max_samples: usize) -> (r: Self)
        ensures
            r.samples_view() == Seq::<u128>::empty(),
            r.max_samples_view() == max_samples,
    {
        Self { last: instant_now(), samples: VecDeque::with_capacity(max_samples), max_samples }
    }

    /// Records `nanos` as the newest sample and drops the oldest one when
    /// more than `max_samples` are kept.
    pub fn record(&mut self, nanos: u128)
        requires
            nanos <= max_duration_nanos(),
        ensures
            final(self).last_view() == old(self).last_view(),
            final(self).max_samples_view() == old(self).max_samples_view(),
            final(self).samples_view() == recorded(
                old(self).samples_view(),
                old(self).max_samples_view(),
                nanos,
            ),
    {
        proof {
            use_type_invariant(&*self);
        }
        let mut samples = VecDeque::new();
        std::mem::swap(&mut samples, &mut self.samples);
        let ghost before = samples@;
        samples.push_front(nanos);
        if samples.len() > self.max_samples {
            samples.pop_back();
        }
        assert(samples@ =~= recorded(before, self.max_samples, nanos));
        assert forall|i: int| 0 <= i < samples@.len() implies #[trigger] samples@[i]
            <= max_duration_nanos() by {
            if i > 0 {
                assert(samples@[i] == before[i - 1]);
            }
        }
        self.samples = samples;
    }

    /// Records the time since the previous tick as the newest sample, as
    /// `record` does, and restarts the interval from the clock reading it
    /// takes. The interval itself comes from the clock.
    pub fn tick(&mut self)
        ensures
            final(self).max_samples_view() == old(self).max_samples_view(),
            final(self).samples_view().len() <= final(self).max_samples_view(),
            exists|nanos: u128|
                nanos <= max_duration_nanos() && final(self).samples_view() == recorded(
                    old(self).samples_view(),
                    old(self).max_samples_view(),
                    nanos,
                ),
    {
        let now = instant_now();
        self.tick_at(now);
    }

    /// Records the time from the previous tick (or from creation) to `now`
    /// as the newest sample, as `record` does, and restarts the interval at
    /// `now`: the next tick measures from `now`.
    pub fn tick_at(&mut self, now: Instant)
        ensures
            final(self).last_view() == now,
            final(self).max_samples_view() == old(self).max_samples_view(),
            final(self).samples_view().len() <= final(self).max_samples_view(),
            exists|nanos: u128|
                nanos <= max_duration_nanos() && final(self).samples_view() == recorded(
                    old(self).samples_view(),
                    old(self).max_samples_view(),
                    nanos,
                ),
    {
        proof {
            use_type_invariant(&*self);
        }
        let ghost start = self.samples_view();
        let ghost max = self.max_samples_view();
        let elapsed = duration_since(&now, &self.last);
        let nanos = duration_as_nanos(&elapsed);
        self.last = now;
        self.record(nanos);
        proof {
            use_type_invariant(&*self);
            assert(self.samples_view() == recorded(start, max, nanos));
        }
    }

    /// The mean of the kept samples in nanoseconds, rounded down; the count
    /// is taken as a `u32`.
    pub fn running_average_nanos(&self) -> (r: u128)
        requires
            self.samples_view().len() as u32 != 0,
            sum_nanos(self.samples_view()) <= max_duration_nanos(),
        ensures
            r == sum_nanos(self.samples_view()) / (self.samples_view().len() as u32) as int,
    {
        proof {
            use_type_invariant(self);
        }
        let mut sum: u128 = 0;
        let mut i: usize = 0;
        assert forall|j: int| 0 <= j <= self.samples@.len() implies sum_nanos(
            #[trigger] self.samples@.take(j),
        ) <= sum_nanos(self.samples@) by {
            lemma_sum_prefix(self.samples@, j);
        }
        assert(self.samples@.take(0) =~= Seq::<u128>::empty());
        while i < self.samples.len()
            invariant
                0 <= i <= self.samples@.len(),
                sum == sum_nanos(self.samples@.take(i as int)),
                sum_nanos(self.samples@) <= max_duration_nanos(),
                forall|j: int|
                    0 <= j <= self.samples@.len() ==> sum_nanos(#[trigger] self.samples@.take(j))
                        <= sum_nanos(self.samples@),
            decreases self.samples@.len() - i,
        {
            assert(self.samples@.take(i + 1).drop_last() == self.samples@.take(i as int));
            assert(sum_nanos(self.samples@.take(i + 1)) <= max_duration_nanos());
            sum = sum + self.samples[i];
            i = i + 1;
        }
        assert(self.samples@.take(i as int) == self.samples@);
        let count = self.samples.len() as u32;
        sum / (count as u128)
    }

    /// The mean of the kept samples, rounded down to whole nanoseconds.
    pub fn running_average(&self) -> (r: Duration)
        requires
            self.samples_view().len() as u32 != 0,
            sum_nanos(self.samples_view()) <= max_duration_nanos(),
        ensures
            ({
                let avg = sum_nanos(self.samples_view()) / (self.samples_view().len() as u32) as int;
                r == duration_of((avg / 1_000_000_000) as u64, (avg % 1_000_000_000) as u32)
            }),
    {
        let avg = self.running_average_nanos();
        let secs = (avg / 1_000_000_000) as u64;
        let nanos = (avg % 1_000_000_000) as u32;
        duration_new(secs, nanos)
    }
}

impl Default for Stopwatch {
    fn default() -> (r: Self)
        ensures
            r.samples_view() == Seq::<u128>::empty(),
            r.max_samples_view() == 60,
    {
        Self::new(60)
    }
}

} // verus!
