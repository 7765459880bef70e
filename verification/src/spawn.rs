//! Population seeding: random positions inside the inset rectangle and
//! random velocities with a uniform direction and a bounded speed, all drawn
//! from the injected deterministic generator.

use crate::num::{
    div_trunc, iabs, isqrt, lemma_mul_bound, lemma_qdiv_bound, lemma_sqrt_dominates, qdiv,
    sqrt_floor,
};
use crate::rng::{draw_spec, next_state, state_after, SeededRng};
use crate::vec2::{seq_view, GPoint, GVec, Point, Vec2};
use crate::{EXTENT_LIMIT, RADIUS_LIMIT, SPEED_MAX, SPEED_MIN};
use vstd::prelude::*;

verus! {

/// The sampling interval for one axis: the inset `[r, extent - r]`, collapsed
/// to the centre when the viewport is too small for the inset to exist.
pub open spec fn axis_lo(extent: int, r: int) -> int {
    if 2 * r <= extent {
        r
    } else {
        extent / 2
    }
}

/// The upper end of the sampling interval for one axis.
pub open spec fn axis_hi(extent: int, r: int) -> int {
    if 2 * r <= extent {
        extent - r
    } else {
        extent / 2
    }
}

/// The velocity drawn from generator state `s`: a direction drawn uniformly
/// from a square (re-aimed to a fixed direction if degenerate), normalised
/// and scaled to a speed drawn from `[SPEED_MIN, SPEED_MAX]`.
pub open spec fn rand_vel_spec(s: u64) -> GVec {
    let speed = draw_spec(s, SPEED_MIN as int, SPEED_MAX as int);
    let s1 = next_state(s);
    let ux = draw_spec(s1, -1000, 1000);
    let s2 = next_state(s1);
    let uy = draw_spec(s2, -1000, 1000);
    let dx = if ux == 0 && uy == 0 {
        1000int
    } else {
        ux
    };
    let len = sqrt_floor((dx * dx + uy * uy) as nat) as int;
    GVec { x: qdiv(dx * speed, len), y: qdiv(uy * speed, len) }
}

/// The particle spawned from generator state `s` (two position draws, then
/// three velocity draws).
pub open spec fn spawn_spec(s: u64, r: int, w: int, h: int) -> GPoint {
    let px = draw_spec(s, axis_lo(w, r), axis_hi(w, r));
    let s1 = next_state(s);
    let py = draw_spec(s1, axis_lo(h, r), axis_hi(h, r));
    let s2 = next_state(s1);
    GPoint { pos: GVec { x: px, y: py }, vel: rand_vel_spec(s2) }
}

/// The whole population spawned from generator state `s`: particle `i` uses
/// the state after `5 * i` draws.
pub open spec fn reset_spec(s: u64, n: nat, r: int, w: int, h: int) -> Seq<GPoint>
    decreases n,
{
    if n == 0 {
        Seq::empty()
    } else {
        reset_spec(s, (n - 1) as nat, r, w, h).push(
            spawn_spec(state_after(s, 5 * ((n - 1) as nat)), r, w, h),
        )
    }
}

/// What holds of every freshly spawned particle: position inside the
/// viewport, speed componentwise within `SPEED_MAX`.
pub open spec fn spawned_bounds(p: GPoint, w: int, h: int) -> bool {
    0 <= p.pos.x <= w && 0 <= p.pos.y <= h && iabs(p.vel.x) <= SPEED_MAX && iabs(p.vel.y)
        <= SPEED_MAX
}

/// Populations reseeded from equal generator states and equal parameters are
/// identical: spawning consumes nothing but the generator state and the
/// given geometry.
pub proof fn lemma_reset_deterministic(s1: u64, s2: u64, n: nat, r: int, w: int, h: int)
    requires
        s1 == s2,
    ensures
        reset_spec(s1, n, r, w, h) == reset_spec(s2, n, r, w, h),
{
}

/// Draw a velocity with uniform random direction and a speed in
/// `[SPEED_MIN, SPEED_MAX]`.
pub fn rand_vel(rng: &mut SeededRng) -> (v: Vec2)
    ensures
        v@ == rand_vel_spec(old(rng).state),
        final(rng).state == state_after(old(rng).state, 3),
        iabs(v@.x) <= SPEED_MAX,
        iabs(v@.y) <= SPEED_MAX,
{
    let ghost s0 = rng.state;
    let speed = rng.gen_range(SPEED_MIN, SPEED_MAX);
    let ux = rng.gen_range(-1000, 1000);
    let uy = rng.gen_range(-1000, 1000);
    proof {
        assert(state_after(s0, 0) == s0);
        assert(state_after(s0, 1) == next_state(state_after(s0, 0)));
        assert(state_after(s0, 2) == next_state(state_after(s0, 1)));
        assert(state_after(s0, 3) == next_state(state_after(s0, 2)));
    }
    let dx: i64 = if ux == 0 && uy == 0 {
        1000
    } else {
        ux
    };
    proof {
        lemma_mul_bound(dx as int, dx as int, 1000, 1000);
        lemma_mul_bound(uy as int, uy as int, 1000, 1000);
    }
    let d2: i64 = dx * dx + uy * uy;
    proof {
        assert(1 <= d2 <= 2000000 && dx * dx >= 0 && uy * uy >= 0 && iabs(dx as int) * iabs(
            dx as int,
        ) == dx * dx && iabs(uy as int) * iabs(uy as int) == uy * uy) by (nonlinear_arith)
            requires
                d2 == dx * dx + uy * uy && -1000 <= dx <= 1000 && -1000 <= uy <= 1000 && (dx != 0
                    || uy != 0) && iabs(
                    dx as int,
                ) == (if dx < 0 {
                    -(dx as int)
                } else {
                    dx as int
                }) && iabs(uy as int) == (if uy < 0 {
                    -(uy as int)
                } else {
                    uy as int
                }),
        ;
    }
    let len128 = isqrt(d2 as u128);
    proof {
        lemma_sqrt_dominates(d2 as nat, iabs(dx as int));
        lemma_sqrt_dominates(d2 as nat, iabs(uy as int));
        assert(len128 <= 1500) by (nonlinear_arith)
            requires
                (len128 as int) * (len128 as int) <= d2 && d2 <= 2000000 && len128 >= 0,
        ;
        assert(len128 >= 1) by (nonlinear_arith)
            requires
                d2 < ((len128 as int) + 1) * ((len128 as int) + 1) && d2 >= 1 && len128 >= 0,
        ;
    }
    let len: i64 = len128 as i64;
    proof {
        lemma_mul_bound(dx as int, speed as int, iabs(dx as int), SPEED_MAX as int);
        lemma_mul_bound(uy as int, speed as int, iabs(uy as int), SPEED_MAX as int);
        lemma_mul_bound(dx as int, speed as int, 1000, SPEED_MAX as int);
        lemma_mul_bound(uy as int, speed as int, 1000, SPEED_MAX as int);
        assert(iabs(dx * speed) <= (SPEED_MAX as int) * (len as int) && iabs(uy * speed) <= (
        SPEED_MAX as int) * (len as int)) by (nonlinear_arith)
            requires
                iabs(dx * speed) <= iabs(dx as int) * (SPEED_MAX as int) && iabs(uy * speed) <= iabs(
                    uy as int,
                ) * (SPEED_MAX as int) && iabs(dx as int) <= len && iabs(uy as int) <= len && iabs(
                    dx * speed,
                ) >= 0 && iabs(uy * speed) >= 0 && SPEED_MAX as int > 0 && len >= 1,
        ;
        lemma_qdiv_bound(dx * speed, len as int, SPEED_MAX as int);
        lemma_qdiv_bound(uy * speed, len as int, SPEED_MAX as int);
    }
    let vx = div_trunc((dx as i128) * (speed as i128), len as i128) as i64;
    let vy = div_trunc((uy as i128) * (speed as i128), len as i128) as i64;
    Vec2 { x: vx, y: vy }
}

/// Replace the whole population: `n` particles with positions uniform in the
/// inset rectangle and velocities from `rand_vel`, drawn in index order from
/// the given generator.
pub fn reset_points(points: &mut Vec<Point>, rng: &mut SeededRng, n: usize, r: i64, w: i64, h: i64)
    requires
        1 <= r <= RADIUS_LIMIT,
        0 <= w <= EXTENT_LIMIT,
        0 <= h <= EXTENT_LIMIT,
    ensures
        final(points)@.len() == n,
        seq_view(final(points)@) == reset_spec(old(rng).state, n as nat, r as int, w as int, h as int),
        final(rng).state == state_after(old(rng).state, 5 * (n as nat)),
        forall|i: int|
            0 <= i < n ==> spawned_bounds(#[trigger] final(points)@[i]@, w as int, h as int),
{
    let ghost s0 = rng.state;
    points.clear();
    let mut i: usize = 0;
    while i < n
        invariant
            1 <= r <= RADIUS_LIMIT,
            0 <= w <= EXTENT_LIMIT,
            0 <= h <= EXTENT_LIMIT,
            0 <= i <= n,
            points@.len() == i,
            seq_view(points@) == reset_spec(s0, i as nat, r as int, w as int, h as int),
            rng.state == state_after(s0, 5 * (i as nat)),
            forall|k: int|
                0 <= k < i ==> spawned_bounds(#[trigger] points@[k]@, w as int, h as int),
        decreases n - i,
    {
        let ghost si = rng.state;
        let px = if 2 * r <= w {
            rng.gen_range(r, w - r)
        } else {
            let c = ((w as u64) / 2) as i64;
            rng.gen_range(c, c)
        };
        let py = if 2 * r <= h {
            rng.gen_range(r, h - r)
        } else {
            let c = ((h as u64) / 2) as i64;
            rng.gen_range(c, c)
        };
        proof {
            assert(px == draw_spec(si, axis_lo(w as int, r as int), axis_hi(w as int, r as int)));
            assert(py == draw_spec(
                next_state(si),
                axis_lo(h as int, r as int),
                axis_hi(h as int, r as int),
            ));
        }
        let vel = rand_vel(rng);
        let p = Point { pos: Vec2 { x: px, y: py }, vel };
        points.push(p);
        proof {
            assert(state_after(si, 0) == si);
            assert(state_after(si, 1) == next_state(state_after(si, 0)));
            assert(state_after(si, 2) == next_state(state_after(si, 1)));
            assert(p@ == spawn_spec(si, r as int, w as int, h as int));
            crate::rng::lemma_state_after_add(si, 2, 3);
            crate::rng::lemma_state_after_add(s0, 5 * (i as nat), 5);
            assert(rng.state == state_after(s0, 5 * ((i + 1) as nat)));
            assert(seq_view(points@) =~= reset_spec(
                s0,
                (i + 1) as nat,
                r as int,
                w as int,
                h as int,
            ));
        }
        i = i + 1;
    }
}

} // verus!
