//! Velocity integration and wall bouncing for a single particle.

use crate::num::{div_trunc, iabs, lemma_qdiv_bound, qdiv};
use crate::vec2::{GPoint, GVec, Point};
use crate::{DT_LIMIT, EXTENT_LIMIT, SCALE, STATE_LIMIT};
use vstd::prelude::*;

verus! {

/// One integration step: the position advances by `vel * dt / SCALE`
/// (truncating), the velocity is unchanged. `dt` is in `SCALE`-ths of a
/// second.
pub open spec fn integrate_spec(p: GPoint, dt: int) -> GPoint {
    GPoint {
        pos: GVec {
            x: p.pos.x + qdiv(p.vel.x * dt, SCALE as int),
            y: p.pos.y + qdiv(p.vel.y * dt, SCALE as int),
        },
        vel: p.vel,
    }
}

/// Wall resolution for one axis: a position below `r` is clamped to `r` and
/// the velocity component forced non-negative; a position above `hi - r` is
/// clamped to `hi - r` and the component forced non-positive. The speed
/// magnitude on that axis is kept, only its sign is overridden.
pub open spec fn clamp_pos_spec(x: int, hi: int, r: int) -> int {
    if x < r {
        r
    } else if x > hi - r {
        hi - r
    } else {
        x
    }
}

/// The velocity component after wall resolution on one axis.
pub open spec fn bounce_vel_spec(x: int, v: int, hi: int, r: int) -> int {
    if x < r {
        iabs(v)
    } else if x > hi - r {
        -iabs(v)
    } else {
        v
    }
}

/// Wall resolution for a whole particle, both axes independently.
pub open spec fn bounce_spec(p: GPoint, w: int, h: int, r: int) -> GPoint {
    GPoint {
        pos: GVec { x: clamp_pos_spec(p.pos.x, w, r), y: clamp_pos_spec(p.pos.y, h, r) },
        vel: GVec {
            x: bounce_vel_spec(p.pos.x, p.vel.x, w, r),
            y: bounce_vel_spec(p.pos.y, p.vel.y, h, r),
        },
    }
}

/// Advance a particle by `dt` (in `SCALE`-ths of a second).
pub fn integrate(p: &mut Point, dt: i64)
    requires
        0 <= dt <= DT_LIMIT,
        iabs(old(p)@.pos.x) <= STATE_LIMIT,
        iabs(old(p)@.pos.y) <= STATE_LIMIT,
        iabs(old(p)@.vel.x) <= STATE_LIMIT,
        iabs(old(p)@.vel.y) <= STATE_LIMIT,
    ensures
        final(p)@ == integrate_spec(old(p)@, dt as int),
        final(p).vel == old(p).vel,
        iabs(final(p)@.pos.x) <= 0x80000000000000,
        iabs(final(p)@.pos.y) <= 0x80000000000000,
{
    proof {
        crate::num::lemma_mul_bound(old(p)@.vel.x, dt as int, STATE_LIMIT as int, DT_LIMIT as int);
        crate::num::lemma_mul_bound(old(p)@.vel.y, dt as int, STATE_LIMIT as int, DT_LIMIT as int);
        lemma_qdiv_bound(old(p)@.vel.x * dt, SCALE as int, 0x20000000000000);
        lemma_qdiv_bound(old(p)@.vel.y * dt, SCALE as int, 0x20000000000000);
    }
    let sx = div_trunc((p.vel.x as i128) * (dt as i128), SCALE as i128);
    let sy = div_trunc((p.vel.y as i128) * (dt as i128), SCALE as i128);
    p.pos.x = ((p.pos.x as i128) + sx) as i64;
    p.pos.y = ((p.pos.y as i128) + sy) as i64;
}

/// Clamp a particle into the rectangle `[r, w - r] x [r, h - r]` and point
/// the velocity inward on any axis that was out of bounds.
pub fn bounce_walls(p: &mut Point, w: i64, h: i64, r: i64)
    requires
        0 <= r,
        2 * r <= w <= EXTENT_LIMIT,
        2 * r <= h <= EXTENT_LIMIT,
        iabs(old(p)@.vel.x) <= 0x1000000000000000,
        iabs(old(p)@.vel.y) <= 0x1000000000000000,
    ensures
        final(p)@ == bounce_spec(old(p)@, w as int, h as int, r as int),
        r <= final(p).pos.x <= w - r,
        r <= final(p).pos.y <= h - r,
        iabs(final(p)@.vel.x) == iabs(old(p)@.vel.x),
        iabs(final(p)@.vel.y) == iabs(old(p)@.vel.y),
{
    if p.pos.x < r {
        p.pos.x = r;
        if p.vel.x < 0 {
            p.vel.x = -p.vel.x;
        }
    } else if p.pos.x > w - r {
        p.pos.x = w - r;
        if p.vel.x > 0 {
            p.vel.x = -p.vel.x;
        }
    }
    if p.pos.y < r {
        p.pos.y = r;
        if p.vel.y < 0 {
            p.vel.y = -p.vel.y;
        }
    } else if p.pos.y > h - r {
        p.pos.y = h - r;
        if p.vel.y > 0 {
            p.vel.y = -p.vel.y;
        }
    }
}

} // verus!
