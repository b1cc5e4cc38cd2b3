//! Scalar smoothing: linear interpolation between a previous and a target
//! value, plus a wall-clock-windowed variant with an ease-out curve.
//!
//! Control values (speed, volume, progress) are unsigned fixed-point
//! integers; the interpolation parameter `t` of the textbook formula
//! `t*to + (1-t)*from` is carried as a fraction `num / den`.

use vstd::prelude::*;
use vstd::arithmetic::div_mod::{lemma_div_is_ordered, lemma_div_multiples_vanish, lemma_div_pos_is_pos};

verus! {

/// Denominator of the eased time ratio used by `TimedSmooth`.
pub const RATIO_DEN: u64 = 65536;

/// Mathematical value of the interpolation `num/den` of the way from `from`
/// to `to`, rounded down.
pub open spec fn interp(from: int, to: int, num: int, den: int) -> int {
    (num * to + (den - num) * from) / den
}

/// A scalar easing from a previous value toward a target value.
pub struct Smooth {
    from: u64,
    to: u64,
}

impl Smooth {
    /// The endpoint the transition starts from.
    pub closed spec fn from_val(&self) -> u64 {
        self.from
    }

    /// The endpoint the transition is heading to.
    pub closed spec fn to_val(&self) -> u64 {
        self.to
    }

    /// Both endpoints start at `value`: no transition is in progress.
    pub fn new(value: u64) -> (r: Self)
        ensures
            r.from_val() == value,
            r.to_val() == value,
    {
        Self { from: value, to: value }
    }

    /// The value `num/den` of the way from `from` to `to`.
    pub fn interpolate(&self, num: u32, den: u32) -> (r: u64)
        requires
            0 < den,
            num <= den,
        ensures
            r == interp(self.from_val() as int, self.to_val() as int, num as int, den as int),
    {
        let n = num as u128;
        let d = den as u128;
        proof {
            assert(n * (self.to as u128) + (d - n) * (self.from as u128) < u128::MAX) by (nonlinear_arith)
                requires
                    n <= d < 0x1_0000_0000u128,
                    (self.to as u128) < 0x1_0000_0000_0000_0000u128,
                    (self.from as u128) < 0x1_0000_0000_0000_0000u128,
            ;
        }
        let v: u128 = (n * (self.to as u128) + (d - n) * (self.from as u128)) / d;
        proof {
            lemma_interp_bounds(self.from as int, self.to as int, num as int, den as int);
        }
        v as u64
    }

    /// Aim at a new target without touching the starting endpoint.
    pub fn set(&mut self, to: u64)
        ensures
            final(self).from_val() == old(self).from_val(),
            final(self).to_val() == to,
    {
        self.to = to;
    }

    /// Collapse the transition: the current target becomes the new start.
    pub fn stabilize(&mut self)
        ensures
            final(self).from_val() == old(self).to_val(),
            final(self).to_val() == old(self).to_val(),
    {
        self.from = self.to;
    }

    /// Capture the value currently `num/den` of the way through the
    /// transition as the new starting endpoint, then aim at `to`.
    pub fn shift_set(&mut self, to: u64, num: u32, den: u32)
        requires
            0 < den,
            num <= den,
        ensures
            final(self).from_val() == interp(
                old(self).from_val() as int,
                old(self).to_val() as int,
                num as int,
                den as int,
            ),
            final(self).to_val() == to,
    {
        self.from = self.interpolate(num, den);
        self.to = to;
    }
}

/// The interpolated value always lies between the two endpoints.
pub proof fn lemma_interp_bounds(from: int, to: int, num: int, den: int)
    requires
        0 <= from,
        0 <= to,
        0 < den,
        0 <= num <= den,
    ensures
        0 <= interp(from, to, num, den),
        from <= to ==> from <= interp(from, to, num, den) <= to,
        to <= from ==> to <= interp(from, to, num, den) <= from,
{
    let lo = if from <= to { from } else { to };
    let hi = if from <= to { to } else { from };
    assert(den * lo <= num * to + (den - num) * from <= den * hi) by (nonlinear_arith)
        requires
            0 < den,
            0 <= num <= den,
            lo <= from <= hi,
            lo <= to <= hi,
    ;
    lemma_div_is_ordered(den * lo, num * to + (den - num) * from, den);
    lemma_div_is_ordered(num * to + (den - num) * from, den * hi, den);
    lemma_div_multiples_vanish(lo, den);
    lemma_div_multiples_vanish(hi, den);
}

/// At `t = 0` the interpolation sits on the starting endpoint, and at
/// `t = 1` (that is, `num == den`) exactly on the target.  Together with the
/// contracts of `set`, `stabilize` and `shift_set` this pins the endpoints
/// of every `set`/`stabilize` sequence: `interpolate(0)` is the value
/// recorded by the last `stabilize` or `shift_set`, and `interpolate(1)` is
/// the most recent target.
pub proof fn lemma_interp_endpoints(from: int, to: int, den: int)
    requires
        0 < den,
    ensures
        interp(from, to, 0, den) == from,
        interp(from, to, den, den) == to,
{
    assert(0 * to + (den - 0) * from == den * from) by (nonlinear_arith);
    assert(den * to + (den - den) * from == den * to) by (nonlinear_arith);
    lemma_div_multiples_vanish(from, den);
    lemma_div_multiples_vanish(to, den);
}

/// `shift_set` preserves continuity: immediately after it, `interpolate(0)`
/// equals what `interpolate` returned at the captured parameter before the
/// call, whatever the new target is.
pub proof fn lemma_shift_set_continuity(
    from: int,
    to: int,
    num: int,
    den: int,
    new_to: int,
    den2: int,
)
    requires
        0 <= from,
        0 <= to,
        0 < den,
        0 <= num <= den,
        0 < den2,
    ensures
        interp(interp(from, to, num, den), new_to, 0, den2) == interp(from, to, num, den),
{
    lemma_interp_endpoints(interp(from, to, num, den), new_to, den2);
}

/// For a fixed pair of endpoints with `from <= to`, the interpolation is
/// monotonically non-decreasing in `num`.
pub proof fn lemma_interp_monotone(from: int, to: int, n1: int, n2: int, den: int)
    requires
        0 <= from <= to,
        0 < den,
        0 <= n1 <= n2 <= den,
    ensures
        interp(from, to, n1, den) <= interp(from, to, n2, den),
{
    assert(n1 * to + (den - n1) * from <= n2 * to + (den - n2) * from) by (nonlinear_arith)
        requires
            from <= to,
            n1 <= n2,
    ;
    lemma_div_is_ordered(n1 * to + (den - n1) * from, n2 * to + (den - n2) * from, den);
}

/// `a - b`, floored at zero.
pub open spec fn monus(a: int, b: int) -> int {
    if a >= b {
        a - b
    } else {
        0
    }
}

/// Fraction of the transition window that has elapsed, in `RATIO_DEN`ths,
/// clamped to `[0, RATIO_DEN]`.  A zero-length window counts as complete.
pub open spec fn ratio_num(elapsed: int, duration: int) -> int {
    if duration <= 0 {
        RATIO_DEN as int
    } else {
        let q = elapsed * (RATIO_DEN as int) / duration;
        if q >= RATIO_DEN as int {
            RATIO_DEN as int
        } else {
            q
        }
    }
}

/// Ease-out curve `r * (2 - r)` over `RATIO_DEN`-scaled ratios.
pub open spec fn eased(r: int) -> int {
    r * (2 * (RATIO_DEN as int) - r) / (RATIO_DEN as int)
}

/// The value a time-windowed smoother shows `elapsed` time units after its
/// transition toward `to` began.
pub open spec fn timed_value(from: int, to: int, duration: int, elapsed: int) -> int {
    interp(from, to, eased(ratio_num(elapsed, duration)), RATIO_DEN as int)
}

/// A `Smooth` driven by a wall clock: transitions ease out over a fixed
/// duration.  Clock readings are supplied by the caller in microseconds.
pub struct TimedSmooth {
    smooth: Smooth,
    last_modified: u64,
    now_cached: u64,
    transition_duration: u64,
}

impl TimedSmooth {
    pub closed spec fn from_val(&self) -> u64 {
        self.smooth.from_val()
    }

    pub closed spec fn to_val(&self) -> u64 {
        self.smooth.to_val()
    }

    /// Clock reading at the last target change.
    pub closed spec fn last_modified_val(&self) -> u64 {
        self.last_modified
    }

    /// The most recent clock reading handed to `update`.
    pub closed spec fn now_val(&self) -> u64 {
        self.now_cached
    }

    pub closed spec fn duration_val(&self) -> u64 {
        self.transition_duration
    }

    /// Time elapsed since the last target change, saturating at zero if the
    /// clock was handed in out of order.
    pub open spec fn elapsed(&self) -> int {
        monus(self.now_val() as int, self.last_modified_val() as int)
    }

    pub fn new(value: u64, transition_duration: u64, now: u64) -> (r: Self)
        ensures
            r.from_val() == value,
            r.to_val() == value,
            r.last_modified_val() == now,
            r.now_val() == now,
            r.duration_val() == transition_duration,
    {
        Self { smooth: Smooth::new(value), last_modified: now, now_cached: now, transition_duration }
    }

    /// Cache the current clock reading.
    pub fn update(&mut self, now: u64)
        ensures
            final(self).now_val() == now,
            final(self).last_modified_val() == old(self).last_modified_val(),
            final(self).duration_val() == old(self).duration_val(),
            final(self).from_val() == old(self).from_val(),
            final(self).to_val() == old(self).to_val(),
    {
        self.now_cached = now;
    }

    /// The eased, clamped elapsed-time ratio, in `RATIO_DEN`ths.
    fn ratio_curved(&self) -> (r: u64)
        ensures
            r == eased(ratio_num(self.elapsed(), self.duration_val() as int)),
            r <= RATIO_DEN,
    {
        let elapsed: u64 = if self.now_cached >= self.last_modified {
            self.now_cached - self.last_modified
        } else {
            0
        };
        let rnum: u64 = if self.transition_duration == 0 {
            RATIO_DEN
        } else {
            let q: u128 = (elapsed as u128) * (RATIO_DEN as u128) / (self.transition_duration as u128);
            proof {
                lemma_div_pos_is_pos(elapsed as int * (RATIO_DEN as int), self.transition_duration as int);
            }
            if q >= RATIO_DEN as u128 {
                RATIO_DEN
            } else {
                q as u64
            }
        };
        assert(rnum == ratio_num(self.elapsed(), self.duration_val() as int));
        proof {
            assert(rnum * (2 * RATIO_DEN - rnum) <= RATIO_DEN * RATIO_DEN) by (nonlinear_arith)
                requires
                    rnum <= RATIO_DEN,
            ;
        }
        let curved: u64 = rnum * (2 * RATIO_DEN - rnum) / RATIO_DEN;
        proof {
            lemma_eased_bounds(rnum as int);
        }
        curved
    }

    /// The value the smoother currently shows.
    pub fn interpolate(&self) -> (r: u64)
        ensures
            r == timed_value(
                self.from_val() as int,
                self.to_val() as int,
                self.duration_val() as int,
                self.elapsed(),
            ),
    {
        let c = self.ratio_curved();
        self.smooth.interpolate(c as u32, RATIO_DEN as u32)
    }

    /// Capture the current eased value as the new starting endpoint, aim at
    /// `to`, and restart the transition window at the cached clock reading.
    pub fn shift_set(&mut self, to: u64)
        ensures
            final(self).from_val() == timed_value(
                old(self).from_val() as int,
                old(self).to_val() as int,
                old(self).duration_val() as int,
                old(self).elapsed(),
            ),
            final(self).to_val() == to,
            final(self).last_modified_val() == old(self).now_val(),
            final(self).now_val() == old(self).now_val(),
            final(self).duration_val() == old(self).duration_val(),
    {
        let c = self.ratio_curved();
        self.smooth.shift_set(to, c as u32, RATIO_DEN as u32);
        self.last_modified = self.now_cached;
    }
}

/// The ease-out curve stays within `[0, RATIO_DEN]` on `[0, RATIO_DEN]`.
pub proof fn lemma_eased_bounds(r: int)
    requires
        0 <= r <= RATIO_DEN,
    ensures
        0 <= eased(r) <= RATIO_DEN,
{
    let d = RATIO_DEN as int;
    assert(0 <= r * (2 * d - r) <= d * d) by (nonlinear_arith)
        requires
            0 <= r <= d,
    ;
    lemma_div_pos_is_pos(r * (2 * d - r), d);
    lemma_div_is_ordered(r * (2 * d - r), d * d, d);
    lemma_div_multiples_vanish(d, d);
}

/// The ease-out curve is monotone on `[0, RATIO_DEN]` and reaches
/// `RATIO_DEN` exactly at `RATIO_DEN`.
pub proof fn lemma_eased_monotone(r1: int, r2: int)
    requires
        0 <= r1 <= r2 <= RATIO_DEN,
    ensures
        eased(r1) <= eased(r2),
        eased(RATIO_DEN as int) == RATIO_DEN as int,
{
    let d = RATIO_DEN as int;
    assert(r1 * (2 * d - r1) <= r2 * (2 * d - r2)) by (nonlinear_arith)
        requires
            0 <= r1 <= r2 <= d,
    ;
    lemma_div_is_ordered(r1 * (2 * d - r1), r2 * (2 * d - r2), d);
    assert(d * (2 * d - d) == d * d) by (nonlinear_arith);
    lemma_div_multiples_vanish(d, d);
}

/// The clamped elapsed-time ratio stays within `[0, RATIO_DEN]`, is monotone
/// in elapsed time, and saturates once the whole window has elapsed.
pub proof fn lemma_ratio_num_props(e1: int, e2: int, duration: int)
    requires
        0 <= e1 <= e2,
        0 <= duration,
    ensures
        0 <= ratio_num(e1, duration) <= RATIO_DEN,
        ratio_num(e1, duration) <= ratio_num(e2, duration),
        e1 >= duration ==> ratio_num(e1, duration) == RATIO_DEN as int,
{
    let d = RATIO_DEN as int;
    if duration > 0 {
        assert(e1 * d <= e2 * d) by (nonlinear_arith)
            requires
                0 <= e1 <= e2,
                0 < d,
        ;
        lemma_div_pos_is_pos(e1 * d, duration);
        lemma_div_is_ordered(e1 * d, e2 * d, duration);
        if e1 >= duration {
            assert(duration * d <= e1 * d) by (nonlinear_arith)
                requires
                    0 < duration <= e1,
                    0 < d,
            ;
            lemma_div_is_ordered(duration * d, e1 * d, duration);
            lemma_div_multiples_vanish(d, duration);
        }
    }
}

/// While easing upward (`from <= to`), the shown value never decreases as
/// wall time elapses, never overshoots the target, and equals the target
/// exactly once the configured duration has fully elapsed.
pub proof fn lemma_timed_monotone(from: int, to: int, duration: int, e1: int, e2: int)
    requires
        0 <= from <= to,
        0 <= duration,
        0 <= e1 <= e2,
    ensures
        timed_value(from, to, duration, e1) <= timed_value(from, to, duration, e2),
        from <= timed_value(from, to, duration, e1) <= to,
        e1 >= duration ==> timed_value(from, to, duration, e1) == to,
{
    let r1 = ratio_num(e1, duration);
    let r2 = ratio_num(e2, duration);
    lemma_ratio_num_props(e1, e2, duration);
    lemma_eased_monotone(r1, r2);
    lemma_eased_bounds(r1);
    lemma_eased_bounds(r2);
    lemma_interp_monotone(from, to, eased(r1), eased(r2), RATIO_DEN as int);
    lemma_interp_bounds(from, to, eased(r1), RATIO_DEN as int);
    if e1 >= duration {
        lemma_interp_endpoints(from, to, RATIO_DEN as int);
    }
}

} // verus!
