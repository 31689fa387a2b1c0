//! From a cumulative CPU counter to a history of rates, per pod.
//!
//! Everything is an integer. A counter value is CPU time in nanoseconds, a
//! sample's timestamp is in milliseconds since the epoch. A rate is in
//! millionths of one core, which is nanoseconds of CPU per millisecond of
//! wall time: 1 000 000 is one full core, 10 000 is one percent. A rate
//! holds between the two samples that gave it, so it is dated at their
//! midpoint; to keep midpoints exact, the history's timestamps are in half
//! milliseconds, the sum of the two samples' timestamps.
use vstd::prelude::*;
use vstd::arithmetic::div_mod::lemma_fundamental_div_mod;
use vstd::arithmetic::div_mod::lemma_fundamental_div_mod_converse;

verus! {

/// The rate between two samples: the counter's growth per millisecond.
pub open spec fn rate_between(cpu_before: u64, cpu_after: u64, time_before: i64, time_after: i64) -> int {
    (cpu_after - cpu_before) / (time_after - time_before)
}

/// The midpoint of two samples' timestamps, in half milliseconds.
pub open spec fn midpoint(time_before: i64, time_after: i64) -> int {
    time_before + time_after
}

/// The value at `t` of the line through `(t1, v1)` and `(t2, v2)`, rounded
/// down.
pub open spec fn lerp(t1: int, v1: int, t2: int, v2: int, t: int) -> int {
    v1 + ((v2 - v1) * (t - t1)) / (t2 - t1)
}

/// Rate non-negativity: of two samples of which the later has the later
/// timestamp and no smaller a counter, the rate is not negative, and the
/// midpoint lies strictly between the two timestamps.
pub proof fn lemma_rate_is_sound(cpu_before: u64, cpu_after: u64, time_before: i64, time_after: i64)
    requires
        cpu_after >= cpu_before,
        time_after > time_before,
    ensures
        0 <= rate_between(cpu_before, cpu_after, time_before, time_after) <= cpu_after - cpu_before,
        2 * time_before < midpoint(time_before, time_after) < 2 * time_after,
{
    let grown = cpu_after - cpu_before;
    let elapsed = time_after - time_before;
    lemma_fundamental_div_mod(grown, elapsed);
    assert(0 <= grown / elapsed <= grown) by (nonlinear_arith)
        requires
            grown >= 0,
            elapsed >= 1,
            grown == elapsed * (grown / elapsed) + (grown % elapsed),
            0 <= grown % elapsed < elapsed,
    ;
}

/// A line through two points stays between them.
pub proof fn lemma_lerp_between(t1: int, v1: int, t2: int, v2: int, t: int)
    requires
        t1 <= t <= t2,
        t1 < t2,
    ensures
        v1 <= v2 ==> v1 <= lerp(t1, v1, t2, v2, t) <= v2,
        v2 <= v1 ==> v2 <= lerp(t1, v1, t2, v2, t) <= v1,
        t == t1 ==> lerp(t1, v1, t2, v2, t) == v1,
        t == t2 ==> lerp(t1, v1, t2, v2, t) == v2,
{
    let gap = t2 - t1;
    let run = t - t1;
    let rise = v2 - v1;
    let product = rise * run;
    lemma_fundamental_div_mod(product, gap);
    let q = product / gap;
    let r = product % gap;
    assert(product == gap * q + r);
    assert(0 <= r < gap);
    if rise >= 0 {
        assert(0 <= q <= rise) by (nonlinear_arith)
            requires
                rise >= 0,
                0 <= run <= gap,
                gap > 0,
                product == rise * run,
                product == gap * q + r,
                0 <= r < gap,
        ;
    }
    if rise <= 0 {
        assert(rise <= q <= 0) by (nonlinear_arith)
            requires
                rise <= 0,
                0 <= run <= gap,
                gap > 0,
                product == rise * run,
                product == gap * q + r,
                0 <= r < gap,
        ;
    }
    if t == t1 {
        assert(product == 0) by (nonlinear_arith)
            requires
                product == rise * run,
                run == 0,
        ;
        lemma_fundamental_div_mod_converse(product, gap, 0, 0);
    }
    if t == t2 {
        assert(product == rise * gap + 0) by (nonlinear_arith)
            requires
                product == rise * run,
                run == gap,
        ;
        lemma_fundamental_div_mod_converse(product, gap, rise, 0);
    }
}

/// The rate at `t` on the line between two points of a history.
pub fn interpolate(t: i128, t1: i128, v1: u64, t2: i128, v2: u64) -> (v: u64)
    requires
        t1 <= t <= t2,
        t1 < t2,
        t2 - t1 <= u64::MAX,
    ensures
        v == lerp(t1 as int, v1 as int, t2 as int, v2 as int, t as int),
{
    let gap: u128 = (t2 - t1) as u128;
    let run: u128 = (t - t1) as u128;
    proof {
        lemma_lerp_between(t1 as int, v1 as int, t2 as int, v2 as int, t as int);
    }
    if v2 >= v1 {
        let rise: u128 = (v2 - v1) as u128;
        assert(rise * run <= u128::MAX) by (nonlinear_arith)
            requires
                0 <= rise <= 0xffff_ffff_ffff_ffff,
                0 <= run <= 0xffff_ffff_ffff_ffff,
        ;
        let part: u128 = rise * run / gap;
        assert(part == ((v2 - v1) * (t - t1)) / (t2 - t1));
        v1 + part as u64
    } else {
        let fall: u128 = (v1 - v2) as u128;
        assert(fall * run <= u128::MAX) by (nonlinear_arith)
            requires
                0 <= fall <= 0xffff_ffff_ffff_ffff,
                0 <= run <= 0xffff_ffff_ffff_ffff,
        ;
        let product: u128 = fall * run;
        let whole: u128 = product / gap;
        let rest: u128 = product % gap;
        proof {
            lemma_fundamental_div_mod(product as int, gap as int);
            let down = (v2 - v1) * (t - t1);
            assert(down == -(product as int)) by (nonlinear_arith)
                requires
                    down == (v2 - v1) * (t - t1),
                    product == fall * run,
                    fall == v1 - v2,
                    run == t - t1,
            ;
            if rest == 0 {
                assert(down == (-(whole as int)) * (gap as int) + 0) by (nonlinear_arith)
                    requires
                        down == -(product as int),
                        product as int == (gap as int) * (whole as int) + 0,
                ;
                lemma_fundamental_div_mod_converse(down, gap as int, -(whole as int), 0);
            } else {
                assert(down == (-(whole as int) - 1) * (gap as int) + (gap - rest))
                    by (nonlinear_arith)
                    requires
                        down == -(product as int),
                        product as int == (gap as int) * (whole as int) + (rest as int),
                ;
                lemma_fundamental_div_mod_converse(
                    down,
                    gap as int,
                    -(whole as int) - 1,
                    gap - rest,
                );
            }
        }
        let part: u128 = if rest == 0 {
            whole
        } else {
            whole + 1
        };
        assert(-(part as int) == ((v2 - v1) * (t - t1)) / (t2 - t1));
        v1 - part as u64
    }
}

/// The dates `i - 1` and `i` are no more than `u64::MAX` apart.
pub open spec fn near(dates: Seq<i128>, i: int) -> bool {
    dates[i] - dates[i - 1] <= u64::MAX
}

/// The rate history of one pod, with the sample that the next rate will be
/// measured from.
#[derive(Debug, PartialEq, Eq)]
pub struct NodeMetricCollector {
    /// Whether a first sample has been taken.
    pub seeded: bool,
    /// The counter of the last sample, in nanoseconds of CPU.
    pub prev_cpu: u64,
    /// The timestamp of the last sample, in milliseconds.
    pub prev_time: i64,
    /// The recorded rates, in millionths of a core.
    pub rates: Vec<u64>,
    /// The recorded rates' dates, in half milliseconds.
    pub timestamps: Vec<i128>,
}

/// The rate history of a counter that sums over pods: it is kept by the
/// same rules.
pub type TotalMetric = NodeMetricCollector;

impl NodeMetricCollector {
    /// The history pairs each rate with its date, the dates grow strictly
    /// and lie before the last sample, and two neighbours are less than
    /// 2^64 half milliseconds apart.
    pub open spec fn wf(&self) -> bool {
        let n = self.timestamps@.len() as int;
        &&& self.rates@.len() == n
        &&& forall|i: int, j: int|
            0 <= i < j < n ==> #[trigger] self.timestamps@[i] < #[trigger] self.timestamps@[j]
        &&& forall|i: int| 0 < i < n ==> #[trigger] near(self.timestamps@, i)
        &&& n > 0 ==> {
            &&& self.seeded
            &&& self.timestamps@[n - 1] < 2 * self.prev_time
            &&& self.timestamps@[n - 1] >= self.prev_time + i64::MIN
        }
    }

    /// The last recorded point, if there is one.
    pub open spec fn last_point(&self) -> Option<(i128, u64)> {
        if self.timestamps@.len() == 0 {
            None
        } else {
            Some((self.timestamps@.last(), self.rates@.last()))
        }
    }

    /// The `i`-th point of the history is dated `time`.
    pub open spec fn dated(&self, i: int, time: int) -> bool {
        0 <= i < self.timestamps@.len() && self.timestamps@[i] == time
    }

    /// `time` lies strictly between the dates of the points `i - 1` and `i`.
    pub open spec fn spans(&self, i: int, time: int) -> bool {
        0 < i < self.timestamps@.len() && self.timestamps@[i - 1] < time < self.timestamps@[i]
    }

    /// The rate that the history gives for the date `time`: the recorded
    /// rate where `time` is a recorded date, the line between the two
    /// neighbours where it lies between two dates, and 0 outside the
    /// recorded range.
    pub open spec fn rate_at(&self, time: int) -> int {
        if exists|i: int| self.dated(i, time) {
            let i = choose|i: int| self.dated(i, time);
            self.rates@[i] as int
        } else if exists|i: int| self.spans(i, time) {
            let i = choose|i: int| self.spans(i, time);
            lerp(
                self.timestamps@[i - 1] as int,
                self.rates@[i - 1] as int,
                self.timestamps@[i] as int,
                self.rates@[i] as int,
                time,
            )
        } else {
            0
        }
    }

    /// A collector that has seen nothing: no baseline, no history, and the
    /// fields of the last sample at 0 until the first sample fills them.
    pub fn new() -> (collector: Self)
        ensures
            collector.wf(),
            !collector.seeded,
            collector.prev_cpu == 0,
            collector.prev_time == 0,
            collector.timestamps@.len() == 0,
            collector.rates@.len() == 0,
    {
        NodeMetricCollector {
            seeded: false,
            prev_cpu: 0,
            prev_time: 0,
            rates: Vec::new(),
            timestamps: Vec::new(),
        }
    }

    /// Whether [`NodeMetricCollector::next`] can take this sample: a sample
    /// with a new timestamp must be later than the last one and must not
    /// have a smaller counter.
    pub open spec fn admits(&self, time: i64, cpu: u64) -> bool {
        self.seeded && time != self.prev_time ==> time > self.prev_time && cpu >= self.prev_cpu
    }

    /// Whether [`NodeMetricCollector::next`] can take this sample.
    pub fn accepts(&self, time: i64, cpu: u64) -> (ok: bool)
        ensures
            ok == self.admits(time, cpu),
    {
        !self.seeded || time == self.prev_time || (time > self.prev_time && cpu >= self.prev_cpu)
    }

    /// The point that the sample `(time, cpu)` gives: none for the first
    /// sample, the last recorded point for a sample with the timestamp of
    /// the last one, and else the rate since the last sample, dated at the
    /// midpoint.
    pub open spec fn point_of(&self, time: i64, cpu: u64) -> Option<(i128, u64)> {
        if !self.seeded {
            None
        } else if time == self.prev_time {
            self.last_point()
        } else {
            Some(
                (
                    midpoint(self.prev_time, time) as i128,
                    rate_between(self.prev_cpu, cpu, self.prev_time, time) as u64,
                ),
            )
        }
    }

    /// Whether `self` and `point` are what [`NodeMetricCollector::next`]
    /// makes of `before` and the sample `(time, cpu)`: the first sample
    /// becomes the baseline, a sample with the timestamp of the last one
    /// changes nothing, and any other sample is recorded and becomes the
    /// last sample.
    pub open spec fn took(
        &self,
        before: &NodeMetricCollector,
        time: i64,
        cpu: u64,
        point: Option<(i128, u64)>,
    ) -> bool {
        &&& point == before.point_of(time, cpu)
        &&& if !before.seeded {
            *self == (NodeMetricCollector {
                seeded: true,
                prev_cpu: cpu,
                prev_time: time,
                ..*before
            })
        } else if time == before.prev_time {
            *self == *before
        } else {
            &&& self.seeded
            &&& self.prev_cpu == cpu
            &&& self.prev_time == time
            &&& self.timestamps@ == before.timestamps@.push(point->Some_0.0)
            &&& self.rates@ == before.rates@.push(point->Some_0.1)
        }
    }

    /// Idempotent zero-delta read: once a baseline is there, the same
    /// sample taken twice gives the same point both times, and the second
    /// time records nothing.
    pub proof fn lemma_same_sample_twice(
        before: NodeMetricCollector,
        time: i64,
        cpu: u64,
        once: NodeMetricCollector,
        first: Option<(i128, u64)>,
        twice: NodeMetricCollector,
        second: Option<(i128, u64)>,
    )
        requires
            before.wf(),
            before.seeded,
            once.took(&before, time, cpu, first),
            twice.took(&once, time, cpu, second),
        ensures
            second == first,
            twice == once,
            twice.timestamps@.len() == once.timestamps@.len(),
    {
    }

    /// Takes the next sample of the counter.
    ///
    /// The first sample is the baseline and gives no rate. A sample with
    /// the timestamp of the last one reads the last recorded point again
    /// and records nothing. Any other sample records the rate since the
    /// last sample, dated at the midpoint, and becomes the last sample.
    pub fn next(&mut self, time: i64, cpu: u64) -> (point: Option<(i128, u64)>)
        requires
            old(self).wf(),
            old(self).admits(time, cpu),
        ensures
            final(self).wf(),
            final(self).took(old(self), time, cpu, point),
    {
        if !self.seeded {
            self.seeded = true;
            self.prev_cpu = cpu;
            self.prev_time = time;
            return None;
        }
        if time == self.prev_time {
            let n = self.timestamps.len();
            if n == 0 {
                return None;
            }
            return Some((self.timestamps[n - 1], self.rates[n - 1]));
        }
        let elapsed: u64 = (time as i128 - self.prev_time as i128) as u64;
        let grown: u64 = cpu - self.prev_cpu;
        let rate: u64 = grown / elapsed;
        let timestamp: i128 = time as i128 + self.prev_time as i128;
        proof {
            lemma_rate_is_sound(self.prev_cpu, cpu, self.prev_time, time);
            let before = self.timestamps@;
            let after = before.push(timestamp);
            let n = before.len() as int;
            assert forall|i: int, j: int| 0 <= i < j < after.len() implies #[trigger] after[i]
                < #[trigger] after[j] by {
                if j == n {
                    if i < n - 1 {
                        assert(before[i] < before[n - 1]);
                    }
                }
            }
            assert forall|i: int| 0 < i < after.len() implies #[trigger] near(after, i) by {
                if i < n {
                    assert(near(before, i));
                }
            }
        }
        self.timestamps.push(timestamp);
        self.rates.push(rate);
        self.prev_cpu = cpu;
        self.prev_time = time;
        Some((timestamp, rate))
    }

    /// The rate at the date `time`, in half milliseconds: the recorded rate
    /// at a recorded date, the line between the neighbours elsewhere inside
    /// the recorded range, and 0 before the first point, after the last,
    /// and of an empty history.
    pub fn interporlate(&self, time: i128) -> (rate: u64)
        requires
            self.wf(),
        ensures
            rate == self.rate_at(time as int),
    {
        let n = self.timestamps.len();
        let mut i: usize = 0;
        while i < n && self.timestamps[i] < time
            invariant
                n == self.timestamps@.len(),
                i <= n,
                forall|j: int| 0 <= j < i ==> (#[trigger] self.timestamps@[j]) < time,
            decreases n - i,
        {
            i += 1;
        }
        if i == n {
            proof {
                self.lemma_rate_outside(time as int);
            }
            return 0;
        }
        let current = self.timestamps[i];
        if current == time {
            proof {
                self.lemma_rate_at_point(i as int);
            }
            return self.rates[i];
        }
        if i == 0 {
            proof {
                self.lemma_rate_outside(time as int);
            }
            return 0;
        }
        proof {
            self.lemma_rate_inside(i as int, time as int);
            assert(near(self.timestamps@, i as int));
        }
        interpolate(time, self.timestamps[i - 1], self.rates[i - 1], current, self.rates[i])
    }

    /// Interpolation exactness, at a point: the rate at a recorded date is
    /// the rate that was recorded.
    pub proof fn lemma_rate_at_point(&self, i: int)
        requires
            self.wf(),
            0 <= i < self.timestamps@.len(),
        ensures
            self.rate_at(self.timestamps@[i] as int) == self.rates@[i],
    {
        let time = self.timestamps@[i] as int;
        assert(self.dated(i, time));
        let k = choose|k: int| self.dated(k, time);
        if k < i {
            assert(self.timestamps@[k] < self.timestamps@[i]);
        }
        if i < k {
            assert(self.timestamps@[i] < self.timestamps@[k]);
        }
    }

    /// Interpolation exactness, outside: the rate is 0 before the first
    /// recorded date, after the last one, and of an empty history.
    pub proof fn lemma_rate_outside(&self, time: int)
        requires
            self.wf(),
            self.timestamps@.len() == 0 || time < self.timestamps@[0] || time
                > self.timestamps@.last(),
        ensures
            self.rate_at(time) == 0,
    {
        let n = self.timestamps@.len() as int;
        assert forall|i: int| !self.dated(i, time) by {
            if 0 <= i < n {
                if 0 < i {
                    assert(self.timestamps@[0] < self.timestamps@[i]);
                }
                if i < n - 1 {
                    assert(self.timestamps@[i] < self.timestamps@[n - 1]);
                }
            }
        }
        assert forall|i: int| !self.spans(i, time) by {
            if 0 < i < n {
                if 0 < i - 1 {
                    assert(self.timestamps@[0] < self.timestamps@[i - 1]);
                }
                if i < n - 1 {
                    assert(self.timestamps@[i] < self.timestamps@[n - 1]);
                }
            }
        }
    }

    /// Between two neighbouring dates the rate is on the line between
    /// their rates.
    pub proof fn lemma_rate_inside(&self, i: int, time: int)
        requires
            self.wf(),
            0 < i < self.timestamps@.len(),
            self.timestamps@[i - 1] < time < self.timestamps@[i],
        ensures
            self.rate_at(time) == lerp(
                self.timestamps@[i - 1] as int,
                self.rates@[i - 1] as int,
                self.timestamps@[i] as int,
                self.rates@[i] as int,
                time,
            ),
    {
        let n = self.timestamps@.len() as int;
        assert forall|k: int| !self.dated(k, time) by {
            if 0 <= k < n {
                if k < i - 1 {
                    assert(self.timestamps@[k] < self.timestamps@[i - 1]);
                }
                if i < k {
                    assert(self.timestamps@[i] < self.timestamps@[k]);
                }
            }
        }
        assert(self.spans(i, time));
        let k = choose|k: int| self.spans(k, time);
        if k < i {
            if k < i - 1 {
                assert(self.timestamps@[k] < self.timestamps@[i - 1]);
            }
        }
        if i < k {
            if i < k - 1 {
                assert(self.timestamps@[i] < self.timestamps@[k - 1]);
            }
        }
    }
}

} // verus!
