//! The pose interpolator: component-wise linear interpolation between two
//! bracketing trajectory samples.

use vstd::prelude::*;

verus! {

use vstd::arithmetic::div_mod::{
    lemma_div_basics,
    lemma_div_by_multiple,
    lemma_div_is_ordered,
    lemma_div_pos_is_pos,
};
use vstd::arithmetic::mul::{lemma_mul_inequality, lemma_mul_nonnegative, lemma_mul_upper_bound};
use crate::position::Position;

/// One component linearly interpolated between the bracket ends:
/// `bv + (av - bv) * (t - bt) / (at - bt)`, with the scaled offset from the
/// `before` value rounded toward zero.  The degenerate bracket
/// (`at == bt`) yields the `before` value unchanged, avoiding a division by
/// zero.
pub open spec fn lerp(bt: int, at: int, bv: int, av: int, t: int) -> int {
    if at == bt {
        bv
    } else if av >= bv {
        bv + ((av - bv) * (t - bt)) / (at - bt)
    } else {
        bv - ((bv - av) * (t - bt)) / (at - bt)
    }
}

/// A nonnegative offset scaled by `n / m` with `n <= m` stays between `0`
/// and the offset itself.
proof fn lemma_scaled_offset_bounds(d: int, n: int, m: int)
    requires
        0 <= d,
        0 <= n <= m,
        0 < m,
    ensures
        0 <= (d * n) / m <= d,
{
    lemma_mul_nonnegative(d, n);
    lemma_div_pos_is_pos(d * n, m);
    lemma_mul_inequality(n, m, d);
    lemma_div_is_ordered(d * n, d * m, m);
    lemma_div_by_multiple(d, m);
}

/// Interpolating at a bracket end reproduces that end's value exactly: at
/// `bt` the `before` value, and — whenever the bracket is non-degenerate —
/// at `at` the `after` value.
pub proof fn lemma_lerp_bracket_ends(bt: int, at: int, bv: int, av: int)
    requires
        bt <= at,
    ensures
        lerp(bt, at, bv, av, bt) == bv,
        bt < at ==> lerp(bt, at, bv, av, at) == av,
{
    if bt < at {
        let m = at - bt;
        lemma_div_basics(m);
        if av >= bv {
            assert((av - bv) * 0 == 0);
            lemma_div_by_multiple(av - bv, m);
        } else {
            assert((bv - av) * 0 == 0);
            lemma_div_by_multiple(bv - av, m);
        }
    }
}

/// An interpolated component never leaves the closed interval spanned by
/// the two bracket values.
pub proof fn lemma_lerp_in_bracket_range(bt: int, at: int, bv: int, av: int, t: int)
    requires
        bt <= t <= at,
    ensures
        bv <= av ==> bv <= lerp(bt, at, bv, av, t) <= av,
        av <= bv ==> av <= lerp(bt, at, bv, av, t) <= bv,
{
    if at != bt {
        if av >= bv {
            lemma_scaled_offset_bounds(av - bv, t - bt, at - bt);
        } else {
            lemma_scaled_offset_bounds(bv - av, t - bt, at - bt);
        }
    }
}

/// One interpolated component, computed in 128-bit arithmetic so that no
/// input can overflow.
fn lerp_exec(bt: i64, at: i64, bv: i64, av: i64, t: i64) -> (r: i64)
    requires
        bt <= t <= at,
    ensures
        r as int == lerp(bt as int, at as int, bv as int, av as int, t as int),
{
    if at == bt {
        bv
    } else {
        let m_wide: i128 = at as i128 - bt as i128;
        let n_wide: i128 = t as i128 - bt as i128;
        let m_u: u128 = m_wide as u128;
        let n_u: u128 = n_wide as u128;
        proof {
            lemma_lerp_in_bracket_range(bt as int, at as int, bv as int, av as int, t as int);
        }
        if av >= bv {
            let d_u: u128 = (av as i128 - bv as i128) as u128;
            proof {
                lemma_mul_upper_bound(
                    d_u as int,
                    0xffff_ffff_ffff_ffff,
                    n_u as int,
                    0xffff_ffff_ffff_ffff,
                );
                lemma_scaled_offset_bounds(d_u as int, n_u as int, m_u as int);
            }
            let q: u128 = (d_u * n_u) / m_u;
            let r_wide: i128 = bv as i128 + q as i128;
            r_wide as i64
        } else {
            let d_u: u128 = (bv as i128 - av as i128) as u128;
            proof {
                lemma_mul_upper_bound(
                    d_u as int,
                    0xffff_ffff_ffff_ffff,
                    n_u as int,
                    0xffff_ffff_ffff_ffff,
                );
                lemma_scaled_offset_bounds(d_u as int, n_u as int, m_u as int);
            }
            let q: u128 = (d_u * n_u) / m_u;
            let r_wide: i128 = bv as i128 - q as i128;
            r_wide as i64
        }
    }
}

/// Given two bracketing samples with `before.time <= target <= after.time`,
/// the pose at `target`: each of the six components interpolated
/// independently and linearly, with no wraparound handling for the angular
/// components.
pub fn interpolate(before: &Position, after: &Position, target: i64) -> (p: Position)
    requires
        before.time <= target <= after.time,
    ensures
        p.time == target,
        p.longitude as int == lerp(
            before.time as int,
            after.time as int,
            before.longitude as int,
            after.longitude as int,
            target as int,
        ),
        p.latitude as int == lerp(
            before.time as int,
            after.time as int,
            before.latitude as int,
            after.latitude as int,
            target as int,
        ),
        p.height as int == lerp(
            before.time as int,
            after.time as int,
            before.height as int,
            after.height as int,
            target as int,
        ),
        p.roll as int == lerp(
            before.time as int,
            after.time as int,
            before.roll as int,
            after.roll as int,
            target as int,
        ),
        p.pitch as int == lerp(
            before.time as int,
            after.time as int,
            before.pitch as int,
            after.pitch as int,
            target as int,
        ),
        p.yaw as int == lerp(
            before.time as int,
            after.time as int,
            before.yaw as int,
            after.yaw as int,
            target as int,
        ),
{
    Position {
        time: target,
        longitude: lerp_exec(before.time, after.time, before.longitude, after.longitude, target),
        latitude: lerp_exec(before.time, after.time, before.latitude, after.latitude, target),
        height: lerp_exec(before.time, after.time, before.height, after.height, target),
        roll: lerp_exec(before.time, after.time, before.roll, after.roll, target),
        pitch: lerp_exec(before.time, after.time, before.pitch, after.pitch, target),
        yaw: lerp_exec(before.time, after.time, before.yaw, after.yaw, target),
    }
}

} // verus!
