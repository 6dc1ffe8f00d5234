//! Per-activity statistics: total distance, and the mean over laps of each
//! lap's mean heart rate.
//!
//! Heart-rate means are in millionths of a beat per minute, each rounded
//! down (towards negative infinity): a lap's mean from its samples, then the
//! activity's mean from the laps' means. Every lap counts once, however many
//! samples it has.

use vstd::prelude::*;
use vstd::arithmetic::div_mod::{
    lemma_div_is_ordered, lemma_div_multiples_vanish, lemma_fundamental_div_mod,
    lemma_fundamental_div_mod_converse, lemma_mod_pos_bound,
};

use crate::common::{lap_views, Lap, LapView, TrackPoint};
use crate::error::Error;
use crate::units::Length;

verus! {

/// Millionths of a beat per minute in one beat per minute.
pub const MICROS_PER_BPM: i128 = 1_000_000;

/// The smallest mean, in millionths of a beat per minute, that samples of
/// `i32` heart rates can have.
pub const MIN_MEAN: i128 = -2_147_483_648_000_000;

/// The largest mean, in millionths of a beat per minute, that samples of
/// `i32` heart rates can have.
pub const MAX_MEAN: i128 = 2_147_483_647_000_000;

/// The sum of the heart rates of some track points.
pub open spec fn heart_rate_total(points: Seq<TrackPoint>) -> int
    decreases points.len(),
{
    if points.len() == 0 {
        0
    } else {
        heart_rate_total(points.drop_last()) + points.last().heart_rate as int
    }
}

/// A lap's mean heart rate, in millionths of a beat per minute, rounded down.
pub open spec fn lap_mean(points: Seq<TrackPoint>) -> int
    recommends
        points.len() > 0,
{
    heart_rate_total(points) * MICROS_PER_BPM / (points.len() as int)
}

/// The sum of the laps' mean heart rates.
pub open spec fn lap_means_total(laps: Seq<LapView>) -> int
    decreases laps.len(),
{
    if laps.len() == 0 {
        0
    } else {
        lap_means_total(laps.drop_last()) + lap_mean(laps.last().track_points)
    }
}

/// An activity's mean heart rate: the mean of its laps' means, in millionths
/// of a beat per minute, rounded down.
pub open spec fn average_heart_rate(laps: Seq<LapView>) -> int
    recommends
        laps.len() > 0,
{
    lap_means_total(laps) / (laps.len() as int)
}

/// The sum of the laps' distances, in millimetres.
pub open spec fn distance_total(laps: Seq<LapView>) -> nat
    decreases laps.len(),
{
    if laps.len() == 0 {
        0
    } else {
        distance_total(laps.drop_last()) + laps.last().distance.millimeters as nat
    }
}

/// Whether a mean is undefined: there are no laps, or a lap has no samples.
pub open spec fn has_empty_input(laps: Seq<LapView>) -> bool {
    laps.len() == 0 || exists|i: int| 0 <= i < laps.len() && (#[trigger] laps[i]).track_points.len() == 0
}

proof fn lemma_step_bounds(i: int, lo: int, hi: int)
    requires
        0 <= i < 0x1_0000_0000_0000_0000,
        lo <= 0 <= hi,
    ensures
        (i + 1) * lo == i * lo + lo,
        (i + 1) * hi == i * hi + hi,
        0x1_0000_0000_0000_0000 * lo <= (i + 1) * lo,
        (i + 1) * hi <= 0x1_0000_0000_0000_0000 * hi,
{
    assert((i + 1) * lo == i * lo + lo) by (nonlinear_arith);
    assert((i + 1) * hi == i * hi + hi) by (nonlinear_arith);
    assert(0x1_0000_0000_0000_0000 * lo <= (i + 1) * lo) by (nonlinear_arith)
        requires
            i + 1 <= 0x1_0000_0000_0000_0000,
            lo <= 0,
    ;
    assert((i + 1) * hi <= 0x1_0000_0000_0000_0000 * hi) by (nonlinear_arith)
        requires
            i + 1 <= 0x1_0000_0000_0000_0000,
            hi >= 0,
    ;
}

/// A sum of at most 2^64 means lies well within `i128`.
proof fn lemma_scaled_within(x: int, n: int, lo: int, hi: int)
    requires
        0 <= n <= 0x1_0000_0000_0000_0000,
        n * lo <= x <= n * hi,
        lo == -2_147_483_648_000_000,
        hi == 2_147_483_647_000_000,
    ensures
        -0x100_0000_0000_0000_0000_0000_0000_0000 <= x <= 0x100_0000_0000_0000_0000_0000_0000_0000,
{
    assert(0x1_0000_0000_0000_0000 * lo <= n * lo) by (nonlinear_arith)
        requires
            n <= 0x1_0000_0000_0000_0000,
            lo <= 0,
    ;
    assert(n * hi <= 0x1_0000_0000_0000_0000 * hi) by (nonlinear_arith)
        requires
            n <= 0x1_0000_0000_0000_0000,
            hi >= 0,
    ;
}

/// A sum bounded by `n` times `lo` and `hi`, divided by `n`, lies between
/// `lo` and `hi`.
proof fn lemma_mean_bounds(total: int, n: int, lo: int, hi: int)
    requires
        n > 0,
        n * lo <= total <= n * hi,
    ensures
        lo <= total / n <= hi,
{
    lemma_div_is_ordered(n * lo, total, n);
    lemma_div_is_ordered(total, n * hi, n);
    assert(n * lo == lo * n && n * hi == hi * n) by (nonlinear_arith);
    lemma_div_multiples_vanish(lo, n);
    lemma_div_multiples_vanish(hi, n);
}

/// `a` divided by `n`, rounded down.
fn floor_div(a: i128, n: i128) -> (q: i128)
    requires
        n > 0,
        -0x100_0000_0000_0000_0000_0000_0000_0000 <= a <= 0x100_0000_0000_0000_0000_0000_0000_0000,
    ensures
        q == a as int / n as int,
{
    if a >= 0 {
        ((a as u128) / (n as u128)) as i128
    } else {
        let b: u128 = (0 - a) as u128;
        let m: u128 = n as u128;
        let c: u128 = (b + m - 1) / m;
        let r: u128 = (b + m - 1) % m;
        proof {
            lemma_fundamental_div_mod((b + m - 1) as int, m as int);
            lemma_mod_pos_bound((b + m - 1) as int, m as int);
            assert(c <= b) by (nonlinear_arith)
                requires
                    (b + m - 1) as int == m as int * c as int + r as int,
                    r >= 0,
                    m >= 1,
                    b >= 1,
            ;
            assert(a as int == (0 - c as int) * (n as int) + (m - 1 - r)) by (nonlinear_arith)
                requires
                    (b + m - 1) as int == m as int * c as int + r as int,
                    b as int == 0 - a as int,
                    m as int == n as int,
            ;
            lemma_fundamental_div_mod_converse(a as int, n as int, 0 - c as int, (m - 1 - r) as int);
        }
        0 - (c as i128)
    }
}

/// The mean heart rate of a lap's samples, in millionths of a beat per
/// minute, rounded down.
pub fn lap_heart_rate_mean(points: &Vec<TrackPoint>) -> (r: i64)
    requires
        points@.len() > 0,
    ensures
        r == lap_mean(points@),
        MIN_MEAN <= r <= MAX_MEAN,
{
    let n = points.len();
    let mut total: i128 = 0;
    let mut i: usize = 0;
    while i < n
        invariant
            n == points@.len(),
            i <= n,
            total == heart_rate_total(points@.subrange(0, i as int)),
            i * (-0x8000_0000i128) <= total <= i * 0x7fff_ffffi128,
        decreases n - i,
    {
        assert(points@.subrange(0, i + 1).drop_last() =~= points@.subrange(0, i as int));
        proof {
            lemma_step_bounds(i as int, -0x8000_0000, 0x7fff_ffff);
        }
        total = total + points[i].heart_rate as i128;
        i += 1;
    }
    assert(points@.subrange(0, n as int) =~= points@);
    proof {
        assert(n * MIN_MEAN <= total * MICROS_PER_BPM <= n * MAX_MEAN) by (nonlinear_arith)
            requires
                n * (-0x8000_0000i128) <= total <= n * 0x7fff_ffffi128,
                n >= 0,
                MIN_MEAN == -0x8000_0000i128 * MICROS_PER_BPM,
                MAX_MEAN == 0x7fff_ffffi128 * MICROS_PER_BPM,
                MICROS_PER_BPM == 1_000_000,
        ;
        lemma_scaled_within(total * MICROS_PER_BPM, n as int, MIN_MEAN as int, MAX_MEAN as int);
        lemma_mean_bounds(
            total * MICROS_PER_BPM,
            n as int,
            MIN_MEAN as int,
            MAX_MEAN as int,
        );
    }
    let mean = floor_div(total * MICROS_PER_BPM, n as i128);
    mean as i64
}

/// The statistics of an activity's laps: its mean heart rate (the mean of
/// the laps' means, in millionths of a beat per minute) and its total
/// distance.
///
/// Fails with `EmptyAggregationInput` when there are no laps or a lap has no
/// samples, and otherwise with `MalformedSession` when the total distance
/// does not fit in a `u64` count of millimetres.
pub fn aggregate(laps: &Vec<Lap>) -> (r: Result<(i64, Length), Error>)
    ensures
        r matches Err(e) && e == Error::EmptyAggregationInput <==> has_empty_input(lap_views(laps@)),
        r matches Err(e) && e == Error::MalformedSession <==> !has_empty_input(lap_views(laps@))
            && distance_total(lap_views(laps@)) > u64::MAX,
        r matches Err(e) ==> e == Error::EmptyAggregationInput || e == Error::MalformedSession,
        r matches Ok((heart_rate, distance)) ==> heart_rate == average_heart_rate(lap_views(laps@))
            && distance.millimeters == distance_total(lap_views(laps@)),
{
    let ghost views = lap_views(laps@);
    let n = laps.len();
    if n == 0 {
        return Err(Error::EmptyAggregationInput);
    }
    let mut i: usize = 0;
    while i < n
        invariant
            n == laps@.len(),
            views == lap_views(laps@),
            i <= n,
            forall|j: int| 0 <= j < i ==> (#[trigger] views[j]).track_points.len() > 0,
        decreases n - i,
    {
        if laps[i].track_points.len() == 0 {
            assert(views[i as int].track_points.len() == 0);
            return Err(Error::EmptyAggregationInput);
        }
        i += 1;
    }
    assert(!has_empty_input(views));
    let mut means: i128 = 0;
    let mut distance: u128 = 0;
    i = 0;
    while i < n
        invariant
            n == laps@.len(),
            views == lap_views(laps@),
            i <= n,
            forall|j: int| 0 <= j < n ==> (#[trigger] views[j]).track_points.len() > 0,
            means == lap_means_total(views.subrange(0, i as int)),
            i * MIN_MEAN <= means <= i * MAX_MEAN,
            distance == distance_total(views.subrange(0, i as int)),
            distance <= i * 0xffff_ffff_ffff_ffffu128,
        decreases n - i,
    {
        assert(views.subrange(0, i + 1).drop_last() =~= views.subrange(0, i as int));
        assert(views[i as int] == laps@[i as int]@);
        let mean = lap_heart_rate_mean(&laps[i].track_points);
        proof {
            lemma_step_bounds(i as int, MIN_MEAN as int, MAX_MEAN as int);
            lemma_step_bounds(i as int, 0, 0xffff_ffff_ffff_ffff);
        }
        means = means + mean as i128;
        distance = distance + laps[i].distance.millimeters as u128;
        i += 1;
    }
    assert(views.subrange(0, n as int) =~= views);
    if distance > u64::MAX as u128 {
        return Err(Error::MalformedSession);
    }
    proof {
        lemma_scaled_within(means as int, n as int, MIN_MEAN as int, MAX_MEAN as int);
        lemma_mean_bounds(means as int, n as int, MIN_MEAN as int, MAX_MEAN as int);
    }
    let average = floor_div(means, n as i128);
    Ok((average as i64, Length { millimeters: distance as u64 }))
}

} // verus!
