//! Per-trial measurements and their aggregation into one record per strategy.

use vstd::prelude::*;

verus! {

/// How many trials `Runner::run` executes a strategy for before aggregating.
pub const TRIAL_COUNT: usize = 10;

/// One timed, memory-measured execution of a strategy. Ephemeral: it is
/// folded into a [`Stats`] record as soon as a strategy's trials are done.
#[derive(Clone, Copy, Debug)]
pub struct Trial {
    /// Wall-clock duration of the call, in microseconds.
    pub time_micros: u64,
    /// Byte length of the output the call returned.
    pub output_size: usize,
    /// Highest number of heap bytes allocated at any point during the call.
    pub peak_memory: u64,
    /// Net heap bytes still allocated after the call's result was discarded.
    pub leaked: i64,
}

/// The durable, aggregated result for one strategy. Once built it is never
/// updated again.
#[derive(Clone, Copy, Debug)]
pub struct Stats {
    /// The caller-chosen strategy name.
    pub name: &'static str,
    /// Mean wall-clock duration per trial, in microseconds.
    pub time_micros: u64,
    /// Mean output size across the trials, in bytes.
    pub output_size: usize,
    /// Maximum peak heap use observed across the trials, in bytes.
    pub peak_memory: u64,
    /// Residual heap bytes of the most recent trial.
    pub leaked_last: i64,
    /// Mean residual heap bytes across the trials, truncated toward zero.
    pub leaked_avg: i64,
}

pub open spec fn sum_time(s: Seq<Trial>) -> int
    decreases s.len(),
{
    if s.len() == 0 {
        0
    } else {
        sum_time(s.drop_last()) + s.last().time_micros
    }
}

pub open spec fn sum_size(s: Seq<Trial>) -> int
    decreases s.len(),
{
    if s.len() == 0 {
        0
    } else {
        sum_size(s.drop_last()) + s.last().output_size
    }
}

pub open spec fn sum_leaked(s: Seq<Trial>) -> int
    decreases s.len(),
{
    if s.len() == 0 {
        0
    } else {
        sum_leaked(s.drop_last()) + s.last().leaked
    }
}

pub open spec fn max_peak(s: Seq<Trial>) -> int
    decreases s.len(),
{
    if s.len() == 0 {
        0
    } else if s.last().peak_memory > max_peak(s.drop_last()) {
        s.last().peak_memory as int
    } else {
        max_peak(s.drop_last())
    }
}

/// Integer division truncating toward zero, as Rust's `/` does.
pub open spec fn tdiv(a: int, b: int) -> int
    recommends
        b > 0,
{
    if a >= 0 {
        a / b
    } else {
        -((-a) / b)
    }
}

/// What it means for `rec` to be the aggregate of `trials` under `name`:
/// time and output size are averaged, peak memory is the worst case, and the
/// residual ("leaked") figure is reported both from the most recent trial and
/// as the truncated mean across all trials.
pub open spec fn is_aggregate_of(rec: Stats, name: Seq<char>, trials: Seq<Trial>) -> bool {
    &&& trials.len() > 0
    &&& rec.name@ == name
    &&& rec.time_micros == sum_time(trials) / trials.len() as int
    &&& rec.output_size == sum_size(trials) / trials.len() as int
    &&& rec.peak_memory == max_peak(trials)
    &&& rec.leaked_last == trials.last().leaked
    &&& rec.leaked_avg == tdiv(sum_leaked(trials), trials.len() as int)
}

proof fn lemma_sum_bounds(s: Seq<Trial>)
    ensures
        0 <= sum_time(s) <= s.len() * (u64::MAX as int),
        0 <= sum_size(s) <= s.len() * (usize::MAX as int),
        s.len() * (i64::MIN as int) <= sum_leaked(s) <= s.len() * (i64::MAX as int),
        0 <= max_peak(s) <= u64::MAX as int,
    decreases s.len(),
{
    if s.len() > 0 {
        lemma_sum_bounds(s.drop_last());
        assert((s.len() - 1) * (u64::MAX as int) + (u64::MAX as int) == s.len() * (
        u64::MAX as int)) by (nonlinear_arith);
        assert((s.len() - 1) * (usize::MAX as int) + (usize::MAX as int) == s.len() * (
        usize::MAX as int)) by (nonlinear_arith);
        assert((s.len() - 1) * (i64::MAX as int) + (i64::MAX as int) == s.len() * (
        i64::MAX as int)) by (nonlinear_arith);
        assert((s.len() - 1) * (i64::MIN as int) + (i64::MIN as int) == s.len() * (
        i64::MIN as int)) by (nonlinear_arith);
    }
}

/// Law: across any non-empty trial sequence the recorded peak equals the
/// maximum of the individually observed peaks — an upper bound on every
/// trial, and attained by one of them.
pub proof fn lemma_peak_is_max(trials: Seq<Trial>)
    requires
        trials.len() > 0,
    ensures
        forall|i: int| 0 <= i < trials.len() ==> trials[i].peak_memory <= max_peak(trials),
        exists|i: int| 0 <= i < trials.len() && trials[i].peak_memory == max_peak(trials),
    decreases trials.len(),
{
    if trials.len() == 1 {
        assert(trials[0].peak_memory == max_peak(trials));
    } else {
        lemma_peak_is_max(trials.drop_last());
        assert forall|i: int| 0 <= i < trials.len() implies trials[i].peak_memory <= max_peak(
            trials,
        ) by {
            if i < trials.len() - 1 {
                assert(trials.drop_last()[i] == trials[i]);
            }
        }
        if trials.last().peak_memory > max_peak(trials.drop_last()) {
            assert(trials[trials.len() - 1].peak_memory == max_peak(trials));
        } else {
            let j = choose|j: int|
                0 <= j < trials.drop_last().len() && trials.drop_last()[j].peak_memory == max_peak(
                    trials.drop_last(),
                );
            assert(trials.drop_last()[j] == trials[j]);
            assert(trials[j].peak_memory == max_peak(trials));
        }
    }
}

proof fn lemma_sum_time_constant(trials: Seq<Trial>, c: u64)
    requires
        forall|i: int| 0 <= i < trials.len() ==> trials[i].time_micros == c,
    ensures
        sum_time(trials) == trials.len() * c,
    decreases trials.len(),
{
    if trials.len() > 0 {
        lemma_sum_time_constant(trials.drop_last(), c);
        assert((trials.len() - 1) * c + c == trials.len() * c) by (nonlinear_arith);
    }
}

/// Law: a strategy whose per-trial cost is the same constant `c` in every
/// trial is recorded with a mean time of exactly `c`.
pub proof fn lemma_mean_time_constant(trials: Seq<Trial>, c: u64)
    requires
        trials.len() > 0,
        forall|i: int| 0 <= i < trials.len() ==> trials[i].time_micros == c,
    ensures
        sum_time(trials) / trials.len() as int == c,
{
    lemma_sum_time_constant(trials, c);
    vstd::arithmetic::div_mod::lemma_div_multiples_vanish(
        c as int,
        trials.len() as int,
    );
}

impl Stats {
    /// Folds one strategy's trials into its durable record.
    pub fn aggregate(name: &'static str, trials: &Vec<Trial>) -> (rec: Stats)
        requires
            trials@.len() > 0,
        ensures
            is_aggregate_of(rec, name@, trials@),
    {
        let n: usize = trials.len();
        let mut sum_t: u128 = 0;
        let mut sum_sz: u128 = 0;
        let mut sum_lk: i128 = 0;
        let mut peak: u64 = 0;
        let mut i: usize = 0;
        while i < n
            invariant
                n == trials@.len(),
                i <= n,
                sum_t == sum_time(trials@.subrange(0, i as int)),
                sum_sz == sum_size(trials@.subrange(0, i as int)),
                sum_lk == sum_leaked(trials@.subrange(0, i as int)),
                peak == max_peak(trials@.subrange(0, i as int)),
            decreases n - i,
        {
            let t = trials[i];
            proof {
                let pre = trials@.subrange(0, i as int);
                let post = trials@.subrange(0, i as int + 1);
                assert(post.drop_last() =~= pre);
                assert(post.last() == trials@[i as int]);
                lemma_sum_bounds(pre);
                assert((i as int) * (u64::MAX as int) + (u64::MAX as int) < u128::MAX)
                    by (nonlinear_arith)
                    requires
                        0 <= i < 0xFFFFFFFFFFFFFFFF,
                ;
                assert((i as int) * (usize::MAX as int) + (usize::MAX as int) < u128::MAX)
                    by (nonlinear_arith)
                    requires
                        0 <= i < 0xFFFFFFFFFFFFFFFF,
                        usize::MAX <= u64::MAX,
                ;
                assert((i as int) * (i64::MAX as int) + (i64::MAX as int) < i128::MAX)
                    by (nonlinear_arith)
                    requires
                        0 <= i < 0xFFFFFFFFFFFFFFFF,
                ;
                assert((i as int) * (i64::MIN as int) + (i64::MIN as int) > i128::MIN)
                    by (nonlinear_arith)
                    requires
                        0 <= i < 0xFFFFFFFFFFFFFFFF,
                ;
            }
            sum_t = sum_t + (t.time_micros as u128);
            sum_sz = sum_sz + (t.output_size as u128);
            sum_lk = sum_lk + (t.leaked as i128);
            if t.peak_memory > peak {
                peak = t.peak_memory;
            }
            i = i + 1;
        }
        proof {
            assert(trials@.subrange(0, n as int) =~= trials@);
            lemma_sum_bounds(trials@);
            vstd::arithmetic::div_mod::lemma_div_is_ordered(
                sum_t as int,
                (trials@.len() as int) * (u64::MAX as int),
                n as int,
            );
            vstd::arithmetic::div_mod::lemma_div_multiples_vanish(u64::MAX as int, n as int);
            vstd::arithmetic::div_mod::lemma_div_is_ordered(
                sum_sz as int,
                (trials@.len() as int) * (usize::MAX as int),
                n as int,
            );
            vstd::arithmetic::div_mod::lemma_div_multiples_vanish(usize::MAX as int, n as int);
        }
        let time_micros: u64 = (sum_t / (n as u128)) as u64;
        let output_size: usize = (sum_sz / (n as u128)) as usize;
        let leaked_avg: i64 = if sum_lk >= 0 {
            proof {
                vstd::arithmetic::div_mod::lemma_div_is_ordered(
                    sum_lk as int,
                    (trials@.len() as int) * (i64::MAX as int),
                    n as int,
                );
                vstd::arithmetic::div_mod::lemma_div_multiples_vanish(i64::MAX as int, n as int);
            }
            ((sum_lk as u128) / (n as u128)) as i64
        } else {
            let neg: u128 = (-sum_lk) as u128;
            let q: u128 = neg / (n as u128);
            proof {
                vstd::arithmetic::div_mod::lemma_div_is_ordered(
                    neg as int,
                    (trials@.len() as int) * 0x8000000000000000int,
                    n as int,
                );
                vstd::arithmetic::div_mod::lemma_div_multiples_vanish(0x8000000000000000int, n as int);
            }
            if q >= 0x8000000000000000 {
                i64::MIN
            } else {
                -(q as i64)
            }
        };
        let leaked_last: i64 = trials[n - 1].leaked;
        proof {
            assert(trials@[n - 1] == trials@.last());
        }
        Stats { name, time_micros, output_size, peak_memory: peak, leaked_last, leaked_avg }
    }
}

} // verus!
