//! Velocity estimation for one touch, and the detection of flicks.
//!
//! A tracker keeps the last few samples of a touch and fits a parabola through
//! them by least squares; the slope of that parabola at the newest sample is the
//! velocity of the touch. All of it is exact integer arithmetic: the sums of the
//! normal equations are kept as integers, and only the last division rounds
//! (toward zero).

use vstd::prelude::*;
use std::collections::VecDeque;
use crate::units::{
    magnitude, quotient, Point, Vector, FLICK_REFERENCE_DPI, FLICK_RELEASE_THRESHOLD,
    FLICK_SPEED_THRESHOLD, MILLIS,
};

verus! {

/// Longest distance in time, in milliseconds, between the newest sample and a
/// sample that still counts for the velocity. The sums of the fit stay within
/// 128 bits for samples this near.
pub const SPAN_MAX: i64 = 10_000;

/// Largest magnitude of a velocity component, in position units per second.
pub const SPEED_MAX: i64 = 1_000_000_000;

/// One recorded position of a touch: the time in milliseconds, and the place.
pub type Sample = (i32, Point);

/// The sums that the normal equations of the fit are made of, over the samples
/// that are recent. `T` sums powers of the time offsets, `X` and `Y` sum a
/// coordinate weighted by a power of the offset.
pub enum Moment {
    /// The number of samples.
    N,
    T1,
    T2,
    T3,
    T4,
    X0,
    X1,
    X2,
    Y0,
    Y1,
    Y2,
}

/// Whether a sample is recent: no further than `SPAN_MAX` from `origin`.
pub open spec fn recent(sample: Sample, origin: int) -> bool {
    -SPAN_MAX <= sample.0 - origin <= SPAN_MAX
}

/// What one sample adds to a moment, with times counted from `origin`: nothing
/// unless it is recent.
pub open spec fn term(sample: Sample, origin: int, m: Moment) -> int {
    let t = sample.0 - origin;
    if !recent(sample, origin) {
        0
    } else {
        match m {
            Moment::N => 1,
            Moment::T1 => t,
            Moment::T2 => t * t,
            Moment::T3 => t * t * t,
            Moment::T4 => t * t * t * t,
            Moment::X0 => sample.1.x as int,
            Moment::X1 => t * sample.1.x,
            Moment::X2 => t * t * sample.1.x,
            Moment::Y0 => sample.1.y as int,
            Moment::Y1 => t * sample.1.y,
            Moment::Y2 => t * t * sample.1.y,
        }
    }
}

/// A moment of a window of samples.
pub open spec fn moment(samples: Seq<Sample>, origin: int, m: Moment) -> int
    decreases samples.len(),
{
    if samples.len() == 0 {
        0
    } else {
        moment(samples.drop_last(), origin, m) + term(samples.last(), origin, m)
    }
}

/// The moments that the fit of one coordinate needs.
pub struct Sums {
    pub n: int,
    pub t1: int,
    pub t2: int,
    pub t3: int,
    pub t4: int,
    pub v0: int,
    pub v1: int,
    pub v2: int,
}

/// The moments of the recent samples of a window for the horizontal or the
/// vertical coordinate, with times counted from the newest sample.
pub open spec fn sums_of(samples: Seq<Sample>, horizontal: bool) -> Sums {
    let origin = samples.last().0 as int;
    Sums {
        n: moment(samples, origin, Moment::N),
        t1: moment(samples, origin, Moment::T1),
        t2: moment(samples, origin, Moment::T2),
        t3: moment(samples, origin, Moment::T3),
        t4: moment(samples, origin, Moment::T4),
        v0: moment(samples, origin, if horizontal { Moment::X0 } else { Moment::Y0 }),
        v1: moment(samples, origin, if horizontal { Moment::X1 } else { Moment::Y1 }),
        v2: moment(samples, origin, if horizontal { Moment::X2 } else { Moment::Y2 }),
    }
}

/// A speed held inside `-SPEED_MAX ..= SPEED_MAX`.
pub open spec fn saturate(v: int) -> int {
    if v > SPEED_MAX { SPEED_MAX as int } else if v < -SPEED_MAX { -SPEED_MAX } else { v }
}

/// Determinant of the normal equations of the quadratic fit, times `n * n`.
pub open spec fn fit_denominator(s: Sums) -> int {
    let a = s.n * s.t2 - s.t1 * s.t1;
    let c = s.n * s.t3 - s.t1 * s.t2;
    let e = s.n * s.t4 - s.t2 * s.t2;
    a * e - c * c
}

/// Numerator of the linear coefficient of the quadratic fit, times `n * n`.
pub open spec fn fit_numerator(s: Sums) -> int {
    let c = s.n * s.t3 - s.t1 * s.t2;
    let e = s.n * s.t4 - s.t2 * s.t2;
    let b = s.n * s.v1 - s.v0 * s.t1;
    let d = s.n * s.v2 - s.v0 * s.t2;
    b * e - d * c
}

/// Slope at the newest sample of the parabola fitted by least squares, in position
/// units per second; zero where the fit is degenerate.
pub open spec fn fit_slope(s: Sums) -> int {
    if fit_denominator(s) == 0 {
        0
    } else {
        saturate(quotient(MILLIS * fit_numerator(s), fit_denominator(s)))
    }
}

/// The velocity that a window of samples shows: the slopes of the fits through
/// its recent samples, and no motion for an empty window.
pub open spec fn fit_speed(samples: Seq<Sample>) -> Vector {
    if samples.len() == 0 {
        Vector::zero()
    } else {
        Vector {
            x: fit_slope(sums_of(samples, true)) as i64,
            y: fit_slope(sums_of(samples, false)) as i64,
        }
    }
}

/// Whether a velocity exceeds the flick threshold on a screen of `dpi` dots per inch.
pub open spec fn is_fast(speed: Vector, dpi: u32) -> bool {
    FLICK_REFERENCE_DPI * FLICK_REFERENCE_DPI * speed.norm_squared() > (FLICK_SPEED_THRESHOLD
        * dpi) * (FLICK_SPEED_THRESHOLD * dpi)
}

/// Whether a velocity has dropped to the release threshold on a screen of `dpi`
/// dots per inch.
pub open spec fn is_slow(speed: Vector, dpi: u32) -> bool {
    FLICK_REFERENCE_DPI * FLICK_REFERENCE_DPI * speed.norm_squared() <= (FLICK_RELEASE_THRESHOLD
        * dpi) * (FLICK_RELEASE_THRESHOLD * dpi)
}

/// Whether two motions differ in direction by a cosine under three fifths.
/// A motion at rest has no direction and deviates from nothing.
pub open spec fn deviates(from: Vector, speed: Vector) -> bool {
    &&& from != Vector::zero()
    &&& speed != Vector::zero()
    &&& (from.dot(speed) < 0 || 25 * (from.dot(speed) * from.dot(speed)) < 9 * (from.norm_squared()
        * speed.norm_squared()))
}

/// Whether a component is a speed that `fit_speed` can give.
pub open spec fn bounded(v: Vector) -> bool {
    &&& -SPEED_MAX <= v.x <= SPEED_MAX
    &&& -SPEED_MAX <= v.y <= SPEED_MAX
}

/// A product of two bounded numbers is bounded by the product of the bounds.
proof fn lemma_product_bound(a: int, ka: int, b: int, kb: int)
    by (nonlinear_arith)
    requires
        -ka <= a <= ka,
        -kb <= b <= kb,
    ensures
        -(ka * kb) <= a * b <= ka * kb,
{
}

/// No square is below zero.
proof fn lemma_square_nonnegative(a: int)
    by (nonlinear_arith)
    ensures
        a * a >= 0,
{
}

/// Quotient of two 128-bit integers, rounded toward zero and saturated.
fn saturated_quotient(num: i128, den: i128) -> (q: i64)
    requires
        den != 0,
        i128::MIN < num,
        i128::MIN < den,
    ensures
        q == saturate(quotient(num as int, den as int)),
{
    let n: u128 = if num >= 0 { num as u128 } else { (-num) as u128 };
    let d: u128 = if den >= 0 { den as u128 } else { (-den) as u128 };
    let m: u128 = n / d;
    let positive = (num >= 0) == (den > 0);
    if m > SPEED_MAX as u128 {
        if positive { SPEED_MAX } else { -SPEED_MAX }
    } else {
        let m: i64 = m as i64;
        if positive { m } else { -m }
    }
}

/// The slope of the fit from its moments.
fn slope(n: i128, t1: i128, t2: i128, t3: i128, t4: i128, v0: i128, v1: i128, v2: i128) -> (r: i64)
    requires
        0 <= n <= 10,
        -100_000 <= t1 <= 100_000,
        0 <= t2 <= 1_000_000_000,
        -10_000_000_000_000 <= t3 <= 10_000_000_000_000,
        0 <= t4 <= 100_000_000_000_000_000,
        -21_474_836_480 <= v0 <= 21_474_836_480,
        -214_748_364_800_000 <= v1 <= 214_748_364_800_000,
        -2_147_483_648_000_000_000 <= v2 <= 2_147_483_648_000_000_000,
    ensures
        r == fit_slope(
            Sums {
                n: n as int,
                t1: t1 as int,
                t2: t2 as int,
                t3: t3 as int,
                t4: t4 as int,
                v0: v0 as int,
                v1: v1 as int,
                v2: v2 as int,
            },
        ),
{
    proof {
        lemma_product_bound(n as int, 10, t2 as int, 1_000_000_000);
        lemma_product_bound(n as int, 10, t3 as int, 10_000_000_000_000);
        lemma_product_bound(n as int, 10, t4 as int, 100_000_000_000_000_000);
        lemma_product_bound(n as int, 10, v1 as int, 214_748_364_800_000);
        lemma_product_bound(n as int, 10, v2 as int, 2_147_483_648_000_000_000);
        lemma_product_bound(t1 as int, 100_000, t1 as int, 100_000);
        lemma_product_bound(t1 as int, 100_000, t2 as int, 1_000_000_000);
        lemma_product_bound(t2 as int, 1_000_000_000, t2 as int, 1_000_000_000);
        lemma_product_bound(v0 as int, 21_474_836_480, t1 as int, 100_000);
        lemma_product_bound(v0 as int, 21_474_836_480, t2 as int, 1_000_000_000);
    }
    let a: i128 = n * t2 - t1 * t1;
    let c: i128 = n * t3 - t1 * t2;
    let e: i128 = n * t4 - t2 * t2;
    let b: i128 = n * v1 - v0 * t1;
    let d: i128 = n * v2 - v0 * t2;
    proof {
        lemma_product_bound(a as int, 20_000_000_000, e as int, 2_000_000_000_000_000_000);
        lemma_product_bound(c as int, 200_000_000_000_000, c as int, 200_000_000_000_000);
        lemma_product_bound(
            b as int,
            4_294_967_296_000_000,
            e as int,
            2_000_000_000_000_000_000,
        );
        lemma_product_bound(
            d as int,
            42_949_672_960_000_000_000,
            c as int,
            200_000_000_000_000,
        );
    }
    let den: i128 = a * e - c * c;
    let num: i128 = b * e - d * c;
    assert(-20_000_000_000_000_000_000_000_000_000_000_000 <= num
        <= 20_000_000_000_000_000_000_000_000_000_000_000);
    if den == 0 {
        0
    } else {
        let per_second: i128 = 1_000 * num;
        saturated_quotient(per_second, den)
    }
}

/// What a tracker holds, as plain values.
pub struct TrackerView {
    /// The samples in the window, oldest first.
    pub samples: Seq<Sample>,
    /// The velocity at which the last flick was consumed.
    pub last_dir: Vector,
    /// Whether a consumed flick still holds further flicks back.
    pub waiting: bool,
}

impl TrackerView {
    /// The window holds at most ten samples, and the direction of the last
    /// flick is a velocity that `fit_speed` can give.
    pub open spec fn wf(self) -> bool {
        &&& self.samples.len() <= 10
        &&& bounded(self.last_dir)
    }

    /// A tracker without samples.
    pub open spec fn empty() -> TrackerView {
        TrackerView { samples: Seq::empty(), last_dir: Vector::zero(), waiting: false }
    }

    /// A tracker that holds the first sample of a touch.
    pub open spec fn fresh(sample: Sample) -> TrackerView {
        TrackerView { samples: seq![sample], last_dir: Vector::zero(), waiting: false }
    }

    /// The tracker after one more sample; the oldest one leaves a full window.
    pub open spec fn push(self, sample: Sample) -> TrackerView {
        TrackerView {
            samples: if self.samples.len() >= 10 {
                self.samples.subrange(1, self.samples.len() as int).push(sample)
            } else {
                self.samples.push(sample)
            },
            ..self
        }
    }

    /// The velocity that the window shows.
    pub open spec fn speed(self) -> Vector {
        fit_speed(self.samples)
    }

    /// The tracker after a look for a flick on a screen of `dpi` dots per inch:
    /// it stops waiting once the touch is slow or has turned.
    pub open spec fn settle(self, dpi: u32) -> TrackerView {
        TrackerView {
            waiting: self.waiting && !(is_slow(self.speed(), dpi) || deviates(
                self.last_dir,
                self.speed(),
            )),
            ..self
        }
    }

    /// Whether a look for a flick finds one.
    pub open spec fn flicks(self, dpi: u32) -> bool {
        !self.settle(dpi).waiting && is_fast(self.speed(), dpi)
    }

    /// The tracker after its flick was taken.
    pub open spec fn consume(self) -> TrackerView {
        TrackerView { last_dir: self.speed(), waiting: true, ..self }
    }
}

/// Sliding window over the recent positions of one touch.
pub struct VelocityTracker {
    movements: VecDeque<Sample>,
    last_dir: Vector,
    wait: bool,
}

impl View for VelocityTracker {
    type V = TrackerView;

    /// What the tracker holds.
    closed spec fn view(&self) -> TrackerView {
        TrackerView { samples: self.movements@, last_dir: self.last_dir, waiting: self.wait }
    }
}

impl VelocityTracker {
    /// Number of samples that the window holds at most.
    pub const RECORD_MAX: usize = 10;

    /// The invariant of a tracker.
    pub open spec fn wf(&self) -> bool {
        self@.wf()
    }

    /// A tracker without samples.
    pub fn empty() -> (r: Self)
        ensures
            r.wf(),
            r@ == TrackerView::empty(),
    {
        Self { movements: VecDeque::with_capacity(10), last_dir: Vector { x: 0, y: 0 }, wait: false }
    }

    /// A tracker that holds the first sample of a touch.
    pub fn new(time: i32, point: Point) -> (r: Self)
        ensures
            r.wf(),
            r@ == TrackerView::fresh((time, point)),
    {
        let mut res = Self::empty();
        res.push(time, point);
        assert(res@.samples =~= seq![(time, point)]);
        res
    }

    /// Forgets every sample and any flick consumed.
    pub fn reset(&mut self)
        ensures
            final(self).wf(),
            final(self)@ == TrackerView::empty(),
    {
        self.movements.clear();
        self.last_dir = Vector { x: 0, y: 0 };
        self.wait = false;
    }

    /// Records a sample; the oldest one leaves a full window.
    pub fn push(&mut self, time: i32, position: Point)
        requires
            old(self).wf(),
        ensures
            final(self).wf(),
            final(self)@ == old(self)@.push((time, position)),
    {
        if self.movements.len() == 10 {
            self.movements.pop_front();
        }
        self.movements.push_back((time, position));
    }

    /// Estimated velocity of the touch at its newest sample.
    pub fn speed(&self) -> (v: Vector)
        requires
            self.wf(),
        ensures
            v == self@.speed(),
            bounded(v),
    {
        let n = self.movements.len();
        if n == 0 {
            return Vector { x: 0, y: 0 };
        }
        let last: i64 = self.movements[n - 1].0 as i64;
        let ghost origin = last as int;
        let ghost samples = self.movements@;
        let mut m: i128 = 0;
        let mut t1: i128 = 0;
        let mut t2: i128 = 0;
        let mut t3: i128 = 0;
        let mut t4: i128 = 0;
        let mut x0: i128 = 0;
        let mut x1: i128 = 0;
        let mut x2: i128 = 0;
        let mut y0: i128 = 0;
        let mut y1: i128 = 0;
        let mut y2: i128 = 0;
        let mut i: usize = 0;
        while i < n
            invariant
                0 < n <= 10,
                i <= n,
                n == samples.len(),
                samples == self.movements@,
                origin == samples.last().0,
                last == origin,
                m == moment(samples.take(i as int), origin, Moment::N),
                t1 == moment(samples.take(i as int), origin, Moment::T1),
                t2 == moment(samples.take(i as int), origin, Moment::T2),
                t3 == moment(samples.take(i as int), origin, Moment::T3),
                t4 == moment(samples.take(i as int), origin, Moment::T4),
                x0 == moment(samples.take(i as int), origin, Moment::X0),
                x1 == moment(samples.take(i as int), origin, Moment::X1),
                x2 == moment(samples.take(i as int), origin, Moment::X2),
                y0 == moment(samples.take(i as int), origin, Moment::Y0),
                y1 == moment(samples.take(i as int), origin, Moment::Y1),
                y2 == moment(samples.take(i as int), origin, Moment::Y2),
                0 <= m <= i,
                -(i * 10_000) <= t1 <= i * 10_000,
                0 <= t2 <= i * 100_000_000,
                -(i * 1_000_000_000_000) <= t3 <= i * 1_000_000_000_000,
                0 <= t4 <= i * 10_000_000_000_000_000,
                -(i * 2_147_483_648) <= x0 <= i * 2_147_483_648,
                -(i * 21_474_836_480_000) <= x1 <= i * 21_474_836_480_000,
                -(i * 214_748_364_800_000_000) <= x2 <= i * 214_748_364_800_000_000,
                -(i * 2_147_483_648) <= y0 <= i * 2_147_483_648,
                -(i * 21_474_836_480_000) <= y1 <= i * 21_474_836_480_000,
                -(i * 214_748_364_800_000_000) <= y2 <= i * 214_748_364_800_000_000,
            decreases n - i,
        {
            let sample = self.movements[i];
            let t: i64 = sample.0 as i64 - last;
            proof {
                assert(samples.take(i + 1).drop_last() =~= samples.take(i as int));
                assert(samples.take(i + 1).last() == sample);
            }
            if t <= SPAN_MAX && t >= -SPAN_MAX {
                let w1: i128 = t as i128;
                let x: i128 = sample.1.x as i128;
                let y: i128 = sample.1.y as i128;
                proof {
                    lemma_product_bound(w1 as int, 10_000, w1 as int, 10_000);
                    lemma_square_nonnegative(w1 as int);
                }
                let w2: i128 = w1 * w1;
                proof {
                    lemma_product_bound(w2 as int, 100_000_000, w1 as int, 10_000);
                }
                let w3: i128 = w2 * w1;
                proof {
                    lemma_product_bound(w3 as int, 1_000_000_000_000, w1 as int, 10_000);
                    lemma_square_nonnegative(w2 as int);
                    assert(w3 * w1 == w2 * w2) by (nonlinear_arith)
                        requires
                            w3 == w2 * w1,
                            w2 == w1 * w1,
                    ;
                    lemma_product_bound(w1 as int, 10_000, x as int, 2_147_483_648);
                    lemma_product_bound(w2 as int, 100_000_000, x as int, 2_147_483_648);
                    lemma_product_bound(w1 as int, 10_000, y as int, 2_147_483_648);
                    lemma_product_bound(w2 as int, 100_000_000, y as int, 2_147_483_648);
                }
                m = m + 1;
                t1 = t1 + w1;
                t2 = t2 + w2;
                t3 = t3 + w3;
                t4 = t4 + w3 * w1;
                x0 = x0 + x;
                x1 = x1 + w1 * x;
                x2 = x2 + w2 * x;
                y0 = y0 + y;
                y1 = y1 + w1 * y;
                y2 = y2 + w2 * y;
            }
            i = i + 1;
        }
        proof {
            assert(samples.take(n as int) =~= samples);
        }
        let vx = slope(m, t1, t2, t3, t4, x0, x1, x2);
        let vy = slope(m, t1, t2, t3, t4, y0, y1, y2);
        Vector { x: vx, y: vy }
    }

    /// Whether the touch is flicking on a screen of `dpi` dots per inch.
    ///
    /// A consumed flick holds further ones back until the touch slows down to the
    /// release threshold or turns away from the direction of the consumed flick.
    pub fn has_flick(&mut self, dpi: u32) -> (flick: bool)
        requires
            old(self).wf(),
        ensures
            final(self).wf(),
            final(self)@ == old(self)@.settle(dpi),
            flick == old(self)@.flicks(dpi),
    {
        let spd = self.speed();
        let from = self.last_dir;
        proof {
            lemma_product_bound(spd.x as int, 1_000_000_000, spd.x as int, 1_000_000_000);
            lemma_product_bound(spd.y as int, 1_000_000_000, spd.y as int, 1_000_000_000);
            lemma_product_bound(from.x as int, 1_000_000_000, from.x as int, 1_000_000_000);
            lemma_product_bound(from.y as int, 1_000_000_000, from.y as int, 1_000_000_000);
            lemma_product_bound(from.x as int, 1_000_000_000, spd.x as int, 1_000_000_000);
            lemma_product_bound(from.y as int, 1_000_000_000, spd.y as int, 1_000_000_000);
            lemma_square_nonnegative(spd.x as int);
            lemma_square_nonnegative(spd.y as int);
            lemma_square_nonnegative(from.x as int);
            lemma_square_nonnegative(from.y as int);
        }
        let norm2: i128 = spd.x as i128 * spd.x as i128 + spd.y as i128 * spd.y as i128;
        let scaled: i128 = 75_625 * norm2;
        let high: i128 = 18_000 * (dpi as i128);
        let low: i128 = 12_000 * (dpi as i128);
        proof {
            lemma_product_bound(high as int, 80_000_000_000_000, high as int, 80_000_000_000_000);
            lemma_product_bound(low as int, 80_000_000_000_000, low as int, 80_000_000_000_000);
            assert(FLICK_REFERENCE_DPI * FLICK_REFERENCE_DPI * spd.norm_squared() == scaled);
            assert(FLICK_SPEED_THRESHOLD * dpi == high);
            assert(FLICK_RELEASE_THRESHOLD * dpi == low);
        }
        let fast = scaled > high * high;
        let slow = scaled <= low * low;
        if self.wait {
            let from2: i128 = from.x as i128 * from.x as i128 + from.y as i128 * from.y as i128;
            let dot: i128 = from.x as i128 * spd.x as i128 + from.y as i128 * spd.y as i128;
            proof {
                lemma_product_bound(
                    dot as int,
                    2_000_000_000_000_000_000,
                    dot as int,
                    2_000_000_000_000_000_000,
                );
                lemma_product_bound(
                    from2 as int,
                    2_000_000_000_000_000_000,
                    norm2 as int,
                    2_000_000_000_000_000_000,
                );
            }
            let moving = (from.x != 0 || from.y != 0) && (spd.x != 0 || spd.y != 0);
            let turned = moving && (dot < 0 || 25 * (dot * dot) < 9 * (from2 * norm2));
            if slow || turned {
                self.wait = false;
            }
        }
        !self.wait && fast
    }

    /// Takes the flick that the touch shows now: further flicks are held back
    /// until `has_flick` sees the touch slow down or turn.
    pub fn consume_flick(&mut self)
        requires
            old(self).wf(),
        ensures
            final(self).wf(),
            final(self)@ == old(self)@.consume(),
    {
        self.last_dir = self.speed();
        self.wait = true;
    }
}

/// A touch whose speed does not exceed the threshold does not flick.
pub proof fn lemma_no_flick_up_to_threshold(tracker: TrackerView, dpi: u32)
    requires
        !is_fast(tracker.speed(), dpi),
    ensures
        !tracker.flicks(dpi),
{
}

/// A touch whose speed exceeds the threshold flicks unless a consumed flick holds
/// it back.
pub proof fn lemma_flick_above_threshold(tracker: TrackerView, dpi: u32)
    requires
        is_fast(tracker.speed(), dpi),
        !tracker.waiting,
    ensures
        tracker.flicks(dpi),
{
}

/// A touch whose flick was consumed does not flick again while it goes on as it
/// was: as long as its velocity is the one at which the flick was consumed, and
/// above the release threshold.
pub proof fn lemma_consumed_flick_is_held_back(tracker: TrackerView, dpi: u32)
    requires
        !is_slow(tracker.speed(), dpi),
    ensures
        tracker.consume().settle(dpi).waiting,
        !tracker.consume().flicks(dpi),
{
    let v = tracker.speed();
    let d = v.dot(v);
    assert(d == v.norm_squared());
    assert(v.x * v.x >= 0 && v.y * v.y >= 0) by (nonlinear_arith);
    assert(25 * (d * d) >= 9 * (d * d)) by (nonlinear_arith);
}

/// A touch whose flick was consumed flicks again once it has slowed down to the
/// release threshold and picked up speed anew.
pub proof fn lemma_slow_touch_is_released(tracker: TrackerView, dpi: u32)
    requires
        is_slow(tracker.speed(), dpi),
    ensures
        !tracker.settle(dpi).waiting,
        tracker.flicks(dpi) == is_fast(tracker.speed(), dpi),
{
}

/// The horizontal or the vertical coordinate of a sample.
pub open spec fn coordinate(sample: Sample, horizontal: bool) -> int {
    if horizontal { sample.1.x as int } else { sample.1.y as int }
}

/// Whether the samples are those of a touch in uniform motion: by `vx` and `vy`
/// position units in each millisecond.
pub open spec fn uniform(samples: Seq<Sample>, vx: int, vy: int) -> bool {
    forall|i: int|
        0 <= i < samples.len() ==> {
            &&& (#[trigger] samples[i]).1.x == samples.last().1.x + vx * (samples[i].0
                - samples.last().0)
            &&& samples[i].1.y == samples.last().1.y + vy * (samples[i].0 - samples.last().0)
        }
}

/// The moments of a coordinate that is `x0` at `origin` and grows by `v` in each
/// millisecond, in terms of the moments of the time alone.
proof fn lemma_moments_of_a_line(p: Seq<Sample>, origin: int, x0: int, v: int, horizontal: bool)
    requires
        forall|i: int|
            0 <= i < p.len() ==> coordinate(#[trigger] p[i], horizontal) == x0 + v * (p[i].0
                - origin),
    ensures
        moment(p, origin, if horizontal { Moment::X0 } else { Moment::Y0 }) == moment(
            p,
            origin,
            Moment::N,
        ) * x0 + v * moment(p, origin, Moment::T1),
        moment(p, origin, if horizontal { Moment::X1 } else { Moment::Y1 }) == x0 * moment(
            p,
            origin,
            Moment::T1,
        ) + v * moment(p, origin, Moment::T2),
        moment(p, origin, if horizontal { Moment::X2 } else { Moment::Y2 }) == x0 * moment(
            p,
            origin,
            Moment::T2,
        ) + v * moment(p, origin, Moment::T3),
    decreases p.len(),
{
    if p.len() > 0 {
        let q = p.drop_last();
        assert forall|i: int| 0 <= i < q.len() implies coordinate(#[trigger] q[i], horizontal)
            == x0 + v * (q[i].0 - origin) by {
            assert(q[i] == p[i]);
        }
        lemma_moments_of_a_line(q, origin, x0, v, horizontal);
        let t = p.last().0 - origin;
        let y = coordinate(p.last(), horizontal);
        let n = moment(q, origin, Moment::N);
        let m1 = moment(q, origin, Moment::T1);
        let m2 = moment(q, origin, Moment::T2);
        let m3 = moment(q, origin, Moment::T3);
        assert(y == x0 + v * t);
        if recent(p.last(), origin) {
        assert((n + 1) * x0 + v * (m1 + t) == (n * x0 + v * m1) + y) by (nonlinear_arith)
            requires
                y == x0 + v * t,
        ;
        assert(x0 * (m1 + t) + v * (m2 + t * t) == (x0 * m1 + v * m2) + t * y) by (nonlinear_arith)
            requires
                y == x0 + v * t,
        ;
        assert(x0 * (m2 + t * t) + v * (m3 + t * t * t) == (x0 * m2 + v * m3) + t * t * y)
            by (nonlinear_arith)
            requires
                y == x0 + v * t,
        ;
        }
    }
}

/// The fit of a coordinate that grows by `v` in each millisecond has `v` for
/// its slope.
proof fn lemma_fit_of_a_line(s: Sums, x0: int, v: int)
    requires
        s.v0 == s.n * x0 + v * s.t1,
        s.v1 == x0 * s.t1 + v * s.t2,
        s.v2 == x0 * s.t2 + v * s.t3,
    ensures
        fit_numerator(s) == v * fit_denominator(s),
{
    let a = s.n * s.t2 - s.t1 * s.t1;
    let c = s.n * s.t3 - s.t1 * s.t2;
    let e = s.n * s.t4 - s.t2 * s.t2;
    let b = s.n * s.v1 - s.v0 * s.t1;
    let d = s.n * s.v2 - s.v0 * s.t2;
    assert(b == v * a) by (nonlinear_arith)
        requires
            b == s.n * s.v1 - s.v0 * s.t1,
            a == s.n * s.t2 - s.t1 * s.t1,
            s.v0 == s.n * x0 + v * s.t1,
            s.v1 == x0 * s.t1 + v * s.t2,
    ;
    assert(d == v * c) by (nonlinear_arith)
        requires
            d == s.n * s.v2 - s.v0 * s.t2,
            c == s.n * s.t3 - s.t1 * s.t2,
            s.v0 == s.n * x0 + v * s.t1,
            s.v2 == x0 * s.t2 + v * s.t3,
    ;
    assert(b * e - d * c == v * (a * e - c * c)) by (nonlinear_arith)
        requires
            b == v * a,
            d == v * c,
    ;
}

/// The quotient of a multiple of a number by the number.
pub proof fn lemma_quotient_of_multiple(k: int, d: int)
    requires
        d != 0,
    ensures
        quotient(k * d, d) == k,
{
    let mk = magnitude(k);
    let md = magnitude(d);
    assert(magnitude(k * d) == mk * md) by (nonlinear_arith)
        requires
            mk == magnitude(k),
            md == magnitude(d),
    ;
    assert((mk * md) / md == mk) by (nonlinear_arith)
        requires
            md > 0,
            mk >= 0,
    ;
    assert(((k * d >= 0) == (d > 0)) || k <= 0) by (nonlinear_arith)
        requires
            d != 0,
    ;
    assert(((k * d >= 0) == (d > 0)) ==> k >= 0 || k * d == 0) by (nonlinear_arith)
        requires
            d != 0,
    ;
    assert(k * d == 0 ==> k == 0) by (nonlinear_arith)
        requires
            d != 0,
    ;
}

/// The velocity estimated for a touch in uniform motion is the velocity of the
/// motion, in position units per second and saturated, wherever the fit is not
/// degenerate.
pub proof fn lemma_speed_of_uniform_motion(samples: Seq<Sample>, vx: int, vy: int)
    requires
        samples.len() > 0,
        uniform(samples, vx, vy),
    ensures
        fit_denominator(sums_of(samples, true)) == fit_denominator(sums_of(samples, false)),
        fit_denominator(sums_of(samples, true)) != 0 ==> fit_speed(samples) == (Vector {
            x: saturate(MILLIS * vx) as i64,
            y: saturate(MILLIS * vy) as i64,
        }),
        fit_denominator(sums_of(samples, true)) == 0 ==> fit_speed(samples) == Vector::zero(),
{
    let origin = samples.last().0 as int;
    lemma_moments_of_a_line(samples, origin, samples.last().1.x as int, vx, true);
    lemma_moments_of_a_line(samples, origin, samples.last().1.y as int, vy, false);
    let sx = sums_of(samples, true);
    let sy = sums_of(samples, false);
    lemma_fit_of_a_line(sx, samples.last().1.x as int, vx);
    lemma_fit_of_a_line(sy, samples.last().1.y as int, vy);
    let den = fit_denominator(sx);
    assert(fit_denominator(sy) == den);
    if den != 0 {
        assert(MILLIS * (vx * den) == (MILLIS * vx) * den) by (nonlinear_arith);
        assert(MILLIS * (vy * den) == (MILLIS * vy) * den) by (nonlinear_arith);
        lemma_quotient_of_multiple(MILLIS * vx, den);
        lemma_quotient_of_multiple(MILLIS * vy, den);
    }
}

} // verus!
