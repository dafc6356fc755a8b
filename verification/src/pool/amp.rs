//! Amplification coefficient with a linear ramp over time. The value returned
//! is `factor * AMP_PRECISION`, the `amplification` argument the stable math
//! expects (effective A = factor).
use vstd::prelude::*;

use super::state::Pool;
use crate::math::{AMP_PRECISION, MAX_AMP, MIN_AMP};

verus! {

/// `x / d` rounded toward zero, as Rust's integer division rounds.
pub open spec fn div_toward_zero(x: int, d: int) -> int {
    if x >= 0 {
        x / d
    } else {
        -((-x) / d)
    }
}

/// The amplification (times `AMP_PRECISION`) at time `now` of a ramp from
/// `initial` to `target` over `[start, stop]`: the endpoints outside the
/// window, linear interpolation (rounded toward zero) inside it, and the
/// target for an empty window.
pub open spec fn spec_ramp_amp(initial: u32, target: u32, start: u64, stop: u64, now: u64) -> int {
    let a0 = initial * AMP_PRECISION;
    let a1 = target * AMP_PRECISION;
    if stop <= start || now >= stop {
        a1
    } else if now <= start {
        a0
    } else {
        a0 + div_toward_zero((a1 - a0) * (now - start), (stop - start) as int)
    }
}

pub open spec fn min_int(a: int, b: int) -> int {
    if a <= b {
        a
    } else {
        b
    }
}

pub open spec fn max_int(a: int, b: int) -> int {
    if a >= b {
        a
    } else {
        b
    }
}

/// The interpolated step never overshoots the distance between the endpoints.
proof fn lemma_ramp_step_bounded(diff: int, elapsed: int, duration: int)
    requires
        0 < elapsed < duration,
    ensures
        diff >= 0 ==> 0 <= div_toward_zero(diff * elapsed, duration) <= diff,
        diff < 0 ==> diff <= div_toward_zero(diff * elapsed, duration) <= 0,
{
    if diff >= 0 {
        assert(0 <= diff * elapsed <= diff * duration) by (nonlinear_arith)
            requires
                diff >= 0,
                0 < elapsed < duration,
        ;
        vstd::arithmetic::div_mod::lemma_div_is_ordered(diff * elapsed, diff * duration, duration);
        vstd::arithmetic::div_mod::lemma_div_by_multiple(diff, duration);
        vstd::arithmetic::div_mod::lemma_div_pos_is_pos(diff * elapsed, duration);
    } else {
        let m = -diff;
        assert(0 <= m * elapsed <= m * duration) by (nonlinear_arith)
            requires
                m > 0,
                0 < elapsed < duration,
        ;
        assert(-(diff * elapsed) == m * elapsed) by (nonlinear_arith)
            requires
                m == -diff,
        ;
        vstd::arithmetic::div_mod::lemma_div_is_ordered(m * elapsed, m * duration, duration);
        vstd::arithmetic::div_mod::lemma_div_by_multiple(m, duration);
        vstd::arithmetic::div_mod::lemma_div_pos_is_pos(m * elapsed, duration);
    }
}

/// Interpolate the amplification factor linearly between `initial_factor`
/// and `target_factor` over `[start_ts, stop_ts]`; outside the window it
/// clamps to the endpoints, and an empty window (`stop_ts <= start_ts`)
/// is static at the target. The result is `factor * AMP_PRECISION` and
/// always lies between the two endpoints.
pub fn ramp_amp(initial_factor: u32, target_factor: u32, start_ts: u64, stop_ts: u64, now: u64) -> (r:
    u64)
    ensures
        r == spec_ramp_amp(initial_factor, target_factor, start_ts, stop_ts, now),
        min_int(initial_factor * AMP_PRECISION, target_factor * AMP_PRECISION) <= r <= max_int(
            initial_factor * AMP_PRECISION,
            target_factor * AMP_PRECISION,
        ),
{
    let a0 = initial_factor as i128 * AMP_PRECISION as i128;
    let a1 = target_factor as i128 * AMP_PRECISION as i128;
    let amp = if stop_ts <= start_ts || now >= stop_ts {
        a1
    } else if now <= start_ts {
        a0
    } else {
        let elapsed = (now - start_ts) as i128;
        let duration = (stop_ts - start_ts) as i128;
        proof {
            lemma_ramp_step_bounded(a1 - a0, elapsed as int, duration as int);
        }
        assert(-0x1_0000_0000_0000_0000_0000_0000_0000 <= (a1 - a0) * elapsed
            <= 0x1_0000_0000_0000_0000_0000_0000_0000) by (nonlinear_arith)
            requires
                -0x1_0000_0000_0000 <= a1 - a0 <= 0x1_0000_0000_0000,
                0 < elapsed <= 0x1_0000_0000_0000_0000,
        ;
        a0 + (a1 - a0) * elapsed / duration
    };
    amp as u64
}

/// The amplification of `pool` at time `now`.
pub fn current_amp(pool: &Pool, now: u64) -> (r: u64)
    ensures
        r == spec_ramp_amp(
            pool.amp_initial_factor,
            pool.amp_target_factor,
            pool.ramp_start_ts,
            pool.ramp_stop_ts,
            now,
        ),
        min_int(pool.amp_initial_factor * AMP_PRECISION, pool.amp_target_factor * AMP_PRECISION)
            <= r <= max_int(
            pool.amp_initial_factor * AMP_PRECISION,
            pool.amp_target_factor * AMP_PRECISION,
        ),
{
    ramp_amp(
        pool.amp_initial_factor,
        pool.amp_target_factor,
        pool.ramp_start_ts,
        pool.ramp_stop_ts,
        now,
    )
}

/// Whether `factor` lies in `[MIN_AMP, MAX_AMP]`.
pub fn is_valid_amp_factor(factor: u32) -> (r: bool)
    ensures
        r == (MIN_AMP <= factor <= MAX_AMP),
{
    factor >= MIN_AMP as u32 && factor <= MAX_AMP as u32
}


/// Law: a ramp whose endpoints agree is static at that factor, at every
/// time and for every window.
pub proof fn law_static_ramp(factor: u32, start: u64, stop: u64, now: u64)
    ensures
        spec_ramp_amp(factor, factor, start, stop, now) == factor * AMP_PRECISION,
{
    if !(stop <= start || now >= stop) && !(now <= start) {
        lemma_ramp_step_bounded(0, (now - start) as int, (stop - start) as int);
    }
}

/// Law: a ramp moves monotonically toward its target: never downward while
/// ramping up, never upward while ramping down.
pub proof fn law_ramp_monotone(initial: u32, target: u32, start: u64, stop: u64, t1: u64, t2: u64)
    requires
        t1 <= t2,
    ensures
        initial <= target ==> spec_ramp_amp(initial, target, start, stop, t1) <= spec_ramp_amp(
            initial,
            target,
            start,
            stop,
            t2,
        ),
        initial >= target ==> spec_ramp_amp(initial, target, start, stop, t1) >= spec_ramp_amp(
            initial,
            target,
            start,
            stop,
            t2,
        ),
{
    let a0 = initial * AMP_PRECISION;
    let a1 = target * AMP_PRECISION;
    let diff = a1 - a0;
    if stop > start {
        let duration = (stop - start) as int;
        if start < t1 < stop {
            lemma_ramp_step_bounded(diff, (t1 - start) as int, duration);
        }
        if start < t2 < stop {
            lemma_ramp_step_bounded(diff, (t2 - start) as int, duration);
        }
        if start < t1 && t2 < stop {
            let e1 = (t1 - start) as int;
            let e2 = (t2 - start) as int;
            if diff >= 0 {
                assert(diff * e1 <= diff * e2) by (nonlinear_arith)
                    requires
                        diff >= 0,
                        e1 <= e2,
                ;
                assert(0 <= diff * e1) by (nonlinear_arith)
                    requires
                        diff >= 0,
                        e1 >= 0,
                ;
                vstd::arithmetic::div_mod::lemma_div_is_ordered(diff * e1, diff * e2, duration);
            } else {
                let m = -diff;
                assert(m * e1 <= m * e2) by (nonlinear_arith)
                    requires
                        m > 0,
                        e1 <= e2,
                ;
                assert(-(diff * e1) == m * e1 && -(diff * e2) == m * e2) by (nonlinear_arith)
                    requires
                        m == -diff,
                ;
                assert(0 <= m * e1) by (nonlinear_arith)
                    requires
                        m > 0,
                        e1 >= 0,
                ;
                vstd::arithmetic::div_mod::lemma_div_is_ordered(m * e1, m * e2, duration);
            }
        }
    }
}


/// A ramp's amplification lies between its endpoints.
pub proof fn lemma_ramp_within_endpoints(initial: u32, target: u32, start: u64, stop: u64, now: u64)
    ensures
        min_int(initial * AMP_PRECISION, target * AMP_PRECISION) <= spec_ramp_amp(
            initial,
            target,
            start,
            stop,
            now,
        ) <= max_int(initial * AMP_PRECISION, target * AMP_PRECISION),
{
    if !(stop <= start || now >= stop) && !(now <= start) {
        lemma_ramp_step_bounded(
            target * AMP_PRECISION - initial * AMP_PRECISION,
            (now - start) as int,
            (stop - start) as int,
        );
    }
}

} // verus!
