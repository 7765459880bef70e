//! Pairwise elastic collision between two equal-mass discs: positional
//! correction that splits the overlap equally, then an impulse that reflects
//! the relative velocity along the centre line when the discs are closing.

use crate::num::{
    div_away, div_trunc, iabs, isqrt, lemma_mul_bound, lemma_qdiv_away_bound, lemma_qdiv_bound,
    lemma_sqrt_dominates, qdiv, qdiv_away, sqrt_floor,
};
use crate::vec2::{point_bounded, GPoint, GVec, Point};
use crate::{COORD_GUARD, RADIUS_LIMIT};
use vstd::prelude::*;

verus! {

/// The centre offset from `a` to `b`.
pub open spec fn delta_spec(a: GPoint, b: GPoint) -> GVec {
    GVec { x: b.pos.x - a.pos.x, y: b.pos.y - a.pos.y }
}

/// Squared centre distance.
pub open spec fn pair_dist2(a: GPoint, b: GPoint) -> int {
    let d = delta_spec(a, b);
    d.x * d.x + d.y * d.y
}

/// The distance used to normalise the centre line: the floor of the true
/// distance, clamped to at least one step (the guard for coincident centres).
pub open spec fn pair_dist(a: GPoint, b: GPoint) -> int {
    let d = sqrt_floor(pair_dist2(a, b) as nat) as int;
    if d < 1 {
        1
    } else {
        d
    }
}

/// The relative velocity of `b` with respect to `a`, projected on the centre
/// offset (not normalised). Negative means the discs are approaching.
pub open spec fn closing_dot(a: GPoint, b: GPoint) -> int {
    let d = delta_spec(a, b);
    (b.vel.x - a.vel.x) * d.x + (b.vel.y - a.vel.y) * d.y
}

/// Whether the discs of radius `r` overlap.
pub open spec fn overlapping(a: GPoint, b: GPoint, r: int) -> bool {
    pair_dist2(a, b) < (2 * r) * (2 * r)
}

/// The positional correction applied to each disc: half the penetration along
/// the centre line, rounded away from zero so that a correction never
/// undershoots for want of a fractional step.
pub open spec fn correction_spec(a: GPoint, b: GPoint, r: int) -> GVec {
    let d = delta_spec(a, b);
    let dist = pair_dist(a, b);
    let pen = 2 * r - dist;
    GVec { x: qdiv_away(pen * d.x, 2 * dist), y: qdiv_away(pen * d.y, 2 * dist) }
}

/// The impulse added to `b`'s velocity (and subtracted from `a`'s): the
/// reflection of the closing component of the relative velocity, computed
/// against the squared distance so that no square root enters the velocities.
pub open spec fn impulse_spec(a: GPoint, b: GPoint) -> GVec {
    let d = delta_spec(a, b);
    let d2 = pair_dist2(a, b);
    let q = if d2 < 1 {
        1int
    } else {
        d2
    };
    let cs = closing_dot(a, b);
    GVec { x: qdiv((-cs) * d.x, q), y: qdiv((-cs) * d.y, q) }
}

/// One collision resolution on an unordered pair, exactly once: non-touching
/// pairs are unchanged; overlapping pairs are pushed apart symmetrically; the
/// velocity impulse applies only when the pair is not already separating.
pub open spec fn collide_spec(a: GPoint, b: GPoint, r: int) -> (GPoint, GPoint) {
    if !overlapping(a, b, r) {
        (a, b)
    } else {
        let c = correction_spec(a, b, r);
        let apos = GVec { x: a.pos.x - c.x, y: a.pos.y - c.y };
        let bpos = GVec { x: b.pos.x + c.x, y: b.pos.y + c.y };
        if closing_dot(a, b) > 0 {
            (GPoint { pos: apos, vel: a.vel }, GPoint { pos: bpos, vel: b.vel })
        } else {
            let imp = impulse_spec(a, b);
            (
                GPoint { pos: apos, vel: GVec { x: a.vel.x - imp.x, y: a.vel.y - imp.y } },
                GPoint { pos: bpos, vel: GVec { x: b.vel.x + imp.x, y: b.vel.y + imp.y } },
            )
        }
    }
}

/// The impulse components are bounded by the relative speed: the quotient of
/// `-(rx * dx + ry * dy) * dx` by the (clamped) squared distance is at most
/// `|rx| + |ry|` in magnitude.
proof fn lemma_impulse_component(rx: int, ry: int, dx: int, dy: int)
    ensures
        iabs(qdiv(
            -(rx * dx + ry * dy) * dx,
            (if dx * dx + dy * dy < 1 {
                1int
            } else {
                dx * dx + dy * dy
            }),
        )) <= iabs(rx) + iabs(ry),
{
    let d2 = dx * dx + dy * dy;
    let t = rx * dx + ry * dy;
    let ax = iabs(rx);
    let ay = iabs(ry);
    let bx = iabs(dx);
    let by = iabs(dy);
    assert(bx * bx == dx * dx && by * by == dy * dy) by (nonlinear_arith)
        requires
            bx == (if dx < 0 {
                -dx
            } else {
                dx
            }) && by == (if dy < 0 {
                -dy
            } else {
                dy
            }),
    ;
    lemma_mul_bound(rx, dx, ax, bx);
    lemma_mul_bound(ry, dy, ay, by);
    assert(iabs(t) <= ax * bx + ay * by);
    lemma_mul_bound(t, dx, ax * bx + ay * by, bx);
    assert(iabs(t * dx) <= (ax * bx + ay * by) * bx);
    assert((ax * bx + ay * by) * bx <= (ax + ay) * d2 && d2 >= 0) by (nonlinear_arith)
        requires
            ax >= 0 && ay >= 0 && bx >= 0 && by >= 0 && bx * bx == dx * dx && by * by == dy * dy
                && d2 == dx * dx + dy * dy,
    ;
    assert((-t) * dx == -(t * dx)) by (nonlinear_arith);
    assert(iabs((-t) * dx) <= (ax + ay) * d2);
    if d2 < 1 {
        assert(dx * dx == 0 && dy * dy == 0) by (nonlinear_arith)
            requires
                dx * dx + dy * dy < 1,
        ;
        assert(t * dx == 0) by (nonlinear_arith)
            requires
                dx * dx == 0,
        ;
        lemma_qdiv_bound((-t) * dx, 1, ax + ay);
    } else {
        lemma_qdiv_bound((-t) * dx, d2, ax + ay);
    }
}

/// One axis of the separation argument: when the correction share covers the
/// exact half-penetration (from above for a non-negative offset, from below
/// for a negative one), the corrected offset, scaled by the clamped
/// distance, covers the `2 r`-scaled old offset in square.
proof fn lemma_axis_covers(dxc: int, cc: int, d: int, r: int, pen: int, nxc: int)
    requires
        d >= 1,
        r >= 1,
        pen == 2 * r - d,
        nxc == dxc + 2 * cc,
        dxc >= 0 ==> cc * (2 * d) >= pen * dxc,
        dxc < 0 ==> cc * (2 * d) <= pen * dxc,
    ensures
        (nxc * nxc) * (d * d) >= ((2 * r) * (2 * r)) * (dxc * dxc),
{
    let u = nxc * d;
    let v = 2 * r * dxc;
    assert(u == dxc * d + cc * (2 * d)) by (nonlinear_arith)
        requires
            u == nxc * d && nxc == dxc + 2 * cc,
    ;
    if dxc >= 0 {
        assert(v >= 0) by (nonlinear_arith)
            requires
                v == 2 * r * dxc && dxc >= 0 && r >= 1,
        ;
        assert(u >= v) by (nonlinear_arith)
            requires
                u == dxc * d + cc * (2 * d) && cc * (2 * d) >= pen * dxc && pen == 2 * r - d && v
                    == 2 * r * dxc,
        ;
        assert(u * u >= v * v) by (nonlinear_arith)
            requires
                u >= v && v >= 0,
        ;
    } else {
        assert(v <= 0) by (nonlinear_arith)
            requires
                v == 2 * r * dxc && dxc < 0 && r >= 1,
        ;
        assert(u <= v) by (nonlinear_arith)
            requires
                u == dxc * d + cc * (2 * d) && cc * (2 * d) <= pen * dxc && pen == 2 * r - d && v
                    == 2 * r * dxc,
        ;
        assert(u * u >= v * v) by (nonlinear_arith)
            requires
                u <= v && v <= 0,
        ;
    }
    assert(u * u == (nxc * nxc) * (d * d)) by (nonlinear_arith)
        requires
            u == nxc * d,
    ;
    assert(v * v == ((2 * r) * (2 * r)) * (dxc * dxc)) by (nonlinear_arith)
        requires
            v == 2 * r * dxc,
    ;
}

/// No residual overlap: an overlapping pair with distinct centres is pushed
/// apart to at least one full diameter by a single resolution. The floor in
/// the square root and the away-from-zero rounding of the correction both
/// err on the side of extra separation, never less.
pub proof fn lemma_collide_separates(a: GPoint, b: GPoint, r: int)
    requires
        r >= 1,
        overlapping(a, b, r),
        pair_dist2(a, b) >= 1,
    ensures
        pair_dist2(collide_spec(a, b, r).0, collide_spec(a, b, r).1) >= (2 * r) * (2 * r),
{
    let dx = delta_spec(a, b).x;
    let dy = delta_spec(a, b).y;
    let d2 = pair_dist2(a, b);
    let d = pair_dist(a, b);
    let pen = 2 * r - d;
    crate::num::lemma_sqrt_floor(d2 as nat);
    lemma_sqrt_dominates(d2 as nat, 1);
    let sf = sqrt_floor(d2 as nat) as int;
    assert(sf >= 1 && d == sf);
    assert(d < 2 * r) by (nonlinear_arith)
        requires
            sf * sf <= d2 && d2 < (2 * r) * (2 * r) && sf >= 1 && r >= 1 && d == sf,
    ;
    crate::num::lemma_qdiv_away_covers(pen * dx, 2 * d);
    crate::num::lemma_qdiv_away_covers(pen * dy, 2 * d);
    let cx = qdiv_away(pen * dx, 2 * d);
    let cy = qdiv_away(pen * dy, 2 * d);
    let a2 = collide_spec(a, b, r).0;
    let b2 = collide_spec(a, b, r).1;
    let nx = delta_spec(a2, b2).x;
    let ny = delta_spec(a2, b2).y;
    assert(nx == dx + 2 * cx && ny == dy + 2 * cy);
    assert(pen * dx >= 0 <==> dx >= 0) by (nonlinear_arith)
        requires
            pen >= 1,
    ;
    assert(pen * dy >= 0 <==> dy >= 0) by (nonlinear_arith)
        requires
            pen >= 1,
    ;
    // Componentwise, the corrected offset covers the exact `2 r / d` scaling
    // of the old offset: the rounding only ever widens it.
    lemma_axis_covers(dx, cx, d, r, pen, nx);
    lemma_axis_covers(dy, cy, d, r, pen, ny);
    let n2 = pair_dist2(a2, b2);
    assert(n2 * (d * d) >= ((2 * r) * (2 * r)) * d2) by (nonlinear_arith)
        requires
            (nx * nx) * (d * d) >= ((2 * r) * (2 * r)) * (dx * dx) && (ny * ny) * (d * d) >= ((2
                * r) * (2 * r)) * (dy * dy) && n2 == nx * nx + ny * ny && d2 == dx * dx + dy * dy,
    ;
    assert(n2 >= (2 * r) * (2 * r)) by (nonlinear_arith)
        requires
            n2 * (d * d) >= ((2 * r) * (2 * r)) * d2 && d * d <= d2 && d >= 1 && (2 * r) * (2 * r)
                >= 0 && d2 >= 1,
    ;
}

/// An equal-mass, restitution-one exchange: when a closing overlapping pair
/// is resolved and the impulse divides evenly along both axes, the closing
/// component of the relative velocity flips sign exactly and the tangential
/// component is unchanged.
#[verifier::rlimit(100)]
pub proof fn lemma_collide_elastic(a: GPoint, b: GPoint, r: int)
    requires
        overlapping(a, b, r),
        closing_dot(a, b) <= 0,
        pair_dist2(a, b) >= 1,
        ((-closing_dot(a, b)) * delta_spec(a, b).x) % pair_dist2(a, b) == 0,
        ((-closing_dot(a, b)) * delta_spec(a, b).y) % pair_dist2(a, b) == 0,
    ensures
        ({
            let a2 = collide_spec(a, b, r).0;
            let b2 = collide_spec(a, b, r).1;
            (b2.vel.x - a2.vel.x) * delta_spec(a, b).x + (b2.vel.y - a2.vel.y) * delta_spec(
                a,
                b,
            ).y == -closing_dot(a, b)
        }),
        ({
            let a2 = collide_spec(a, b, r).0;
            let b2 = collide_spec(a, b, r).1;
            (b2.vel.x - a2.vel.x) * (-delta_spec(a, b).y) + (b2.vel.y - a2.vel.y) * delta_spec(
                a,
                b,
            ).x == (b.vel.x - a.vel.x) * (-delta_spec(a, b).y) + (b.vel.y - a.vel.y) * delta_spec(
                a,
                b,
            ).x
        }),
        ({
            let a2 = collide_spec(a, b, r).0;
            let b2 = collide_spec(a, b, r).1;
            a2.vel.x * a2.vel.x + a2.vel.y * a2.vel.y + b2.vel.x * b2.vel.x + b2.vel.y * b2.vel.y
                == a.vel.x * a.vel.x + a.vel.y * a.vel.y + b.vel.x * b.vel.x + b.vel.y * b.vel.y
        }),
{
    let dx = delta_spec(a, b).x;
    let dy = delta_spec(a, b).y;
    let d2 = pair_dist2(a, b);
    let cs = closing_dot(a, b);
    let c = -cs;
    crate::num::lemma_qdiv_exact(c * dx, d2);
    crate::num::lemma_qdiv_exact(c * dy, d2);
    let ix = impulse_spec(a, b).x;
    let iy = impulse_spec(a, b).y;
    assert(ix == qdiv(c * dx, d2) && iy == qdiv(c * dy, d2));
    assert(ix * d2 == c * dx && iy * d2 == c * dy);
    let a2 = collide_spec(a, b, r).0;
    let b2 = collide_spec(a, b, r).1;
    let rx = b.vel.x - a.vel.x;
    let ry = b.vel.y - a.vel.y;
    assert(b2.vel.x - a2.vel.x == rx + 2 * ix && b2.vel.y - a2.vel.y == ry + 2 * iy);
    assert((ix * dx + iy * dy) * d2 == c * d2) by (nonlinear_arith)
        requires
            ix * d2 == c * dx && iy * d2 == c * dy && d2 == dx * dx + dy * dy,
    ;
    assert(ix * dx + iy * dy == c) by (nonlinear_arith)
        requires
            (ix * dx + iy * dy) * d2 == c * d2 && d2 >= 1,
    ;
    assert((rx + 2 * ix) * dx + (ry + 2 * iy) * dy == cs + 2 * (ix * dx + iy * dy))
        by (nonlinear_arith)
        requires
            cs == rx * dx + ry * dy,
    ;
    assert((ix * (-dy) + iy * dx) * d2 == 0) by (nonlinear_arith)
        requires
            ix * d2 == c * dx && iy * d2 == c * dy,
    ;
    assert(ix * (-dy) + iy * dx == 0) by (nonlinear_arith)
        requires
            (ix * (-dy) + iy * dx) * d2 == 0 && d2 >= 1,
    ;
    assert((rx + 2 * ix) * (-dy) + (ry + 2 * iy) * dx == rx * (-dy) + ry * dx + 2 * (ix * (-dy) + iy
        * dx)) by (nonlinear_arith);
    // Kinetic energy is exchanged, not created: the impulse moves the pair's
    // energy change to `2 (imp . rel) + 2 |imp|^2`, which cancels exactly.
    let e1 = a.vel.x * a.vel.x + a.vel.y * a.vel.y + b.vel.x * b.vel.x + b.vel.y * b.vel.y;
    let e2 = a2.vel.x * a2.vel.x + a2.vel.y * a2.vel.y + b2.vel.x * b2.vel.x + b2.vel.y
        * b2.vel.y;
    assert((ix * rx) * d2 == (c * dx) * rx) by (nonlinear_arith)
        requires
            ix * d2 == c * dx,
    ;
    assert((iy * ry) * d2 == (c * dy) * ry) by (nonlinear_arith)
        requires
            iy * d2 == c * dy,
    ;
    assert((c * dx) * rx + (c * dy) * ry == c * cs) by (nonlinear_arith)
        requires
            cs == rx * dx + ry * dy,
    ;
    assert((ix * rx + iy * ry) * d2 == (ix * rx) * d2 + (iy * ry) * d2) by (nonlinear_arith);
    assert((ix * rx + iy * ry) * d2 == c * cs);
    assert((ix * ix + iy * iy) * d2 == c * c) by (nonlinear_arith)
        requires
            ix * d2 == c * dx && iy * d2 == c * dy && ix * dx + iy * dy == c,
    ;
    assert(e2 == e1 + 2 * (ix * rx + iy * ry) + 2 * (ix * ix + iy * iy)) by (nonlinear_arith)
        requires
            a2.vel.x == a.vel.x - ix && a2.vel.y == a.vel.y - iy && b2.vel.x == b.vel.x + ix
                && b2.vel.y == b.vel.y + iy && rx == b.vel.x - a.vel.x && ry == b.vel.y - a.vel.y
                && e1 == a.vel.x * a.vel.x + a.vel.y * a.vel.y + b.vel.x * b.vel.x + b.vel.y
                * b.vel.y && e2 == a2.vel.x * a2.vel.x + a2.vel.y * a2.vel.y + b2.vel.x * b2.vel.x
                + b2.vel.y * b2.vel.y,
    ;
    assert((e2 - e1) * d2 == 0) by (nonlinear_arith)
        requires
            e2 == e1 + 2 * (ix * rx + iy * ry) + 2 * (ix * ix + iy * iy) && (ix * rx + iy * ry)
                * d2 == c * cs && (ix * ix + iy * iy) * d2 == c * c && c == -cs,
    ;
    assert(e2 == e1) by (nonlinear_arith)
        requires
            (e2 - e1) * d2 == 0 && d2 >= 1,
    ;
}

/// Resolve one potential collision between discs `a` and `b` of radius `r`.
/// Overlapping discs are moved apart, each by half the penetration along the
/// centre line; if they were not already separating, the closing component of
/// the relative velocity is reflected (equal mass, restitution one).
#[verifier::rlimit(100)]
pub fn collide(a: &mut Point, b: &mut Point, r: i64)
    requires
        1 <= r <= RADIUS_LIMIT,
        point_bounded(old(a)@, COORD_GUARD as int, COORD_GUARD as int),
        point_bounded(old(b)@, COORD_GUARD as int, COORD_GUARD as int),
    ensures
        (final(a)@, final(b)@) == collide_spec(old(a)@, old(b)@, r as int),
        !overlapping(old(a)@, old(b)@, r as int) ==> *final(a) == *old(a) && *final(b) == *old(b),
        closing_dot(old(a)@, old(b)@) > 0 ==> final(a).vel == old(a).vel && final(b).vel == old(
            b,
        ).vel,
        point_bounded(final(a)@, COORD_GUARD + RADIUS_LIMIT, 5 * COORD_GUARD as int),
        point_bounded(final(b)@, COORD_GUARD + RADIUS_LIMIT, 5 * COORD_GUARD as int),
{
    let ghost ga = a@;
    let ghost gb = b@;
    let dx = b.pos.x - a.pos.x;
    let dy = b.pos.y - a.pos.y;
    proof {
        lemma_mul_bound(dx as int, dx as int, 0x200000000, 0x200000000);
        lemma_mul_bound(dy as int, dy as int, 0x200000000, 0x200000000);
    }
    let d2: i128 = (dx as i128) * (dx as i128) + (dy as i128) * (dy as i128);
    proof {
        assert(d2 == pair_dist2(ga, gb));
        assert(dx * dx >= 0 && dy * dy >= 0 && iabs(dx as int) * iabs(dx as int) == dx * dx && iabs(
            dy as int,
        ) * iabs(dy as int) == dy * dy) by (nonlinear_arith)
            requires
                iabs(dx as int) == (if dx < 0 {
                    -(dx as int)
                } else {
                    dx as int
                }) && iabs(dy as int) == (if dy < 0 {
                    -(dy as int)
                } else {
                    dy as int
                }),
        ;
        lemma_mul_bound(2 * r as int, 2 * r as int, 0x200000, 0x200000);
    }
    let min_d = 2 * r;
    if d2 >= (min_d as i128) * (min_d as i128) {
        return ;
    }
    // The discs overlap, so the centre offset is shorter than one diameter.
    proof {
        assert(iabs(dx as int) < 2 * r && iabs(dy as int) < 2 * r) by (nonlinear_arith)
            requires
                dx * dx + dy * dy < (2 * (r as int)) * (2 * (r as int)) && dx * dx >= 0 && dy * dy
                    >= 0 && iabs(dx as int) * iabs(dx as int) == dx * dx && iabs(dy as int) * iabs(
                dy as int,
            ) == dy * dy && iabs(dx as int) >= 0 && iabs(dy as int) >= 0 && r >= 1,
        ;
    }
    let du = isqrt(d2 as u128);
    proof {
        lemma_sqrt_dominates(d2 as nat, iabs(dx as int));
        lemma_sqrt_dominates(d2 as nat, iabs(dy as int));
        assert(du < 2 * r) by (nonlinear_arith)
            requires
                (du as int) * (du as int) <= d2 && d2 < (2 * (r as int)) * (2 * (r as int)) && du
                    >= 0 && r >= 1,
        ;
    }
    let dist: i64 = if du < 1 {
        1
    } else {
        du as i64
    };
    proof {
        assert(dist == pair_dist(ga, gb));
        assert(iabs(dx as int) <= dist && iabs(dy as int) <= dist);
    }
    let pen = min_d - dist;
    // Half the penetration along the centre line, shared equally; each share
    // is at most the radius.
    proof {
        lemma_mul_bound(pen as int, dx as int, pen as int, iabs(dx as int));
        lemma_mul_bound(pen as int, dy as int, pen as int, iabs(dy as int));
        lemma_mul_bound(pen as int, dx as int, 0x200000, 0x200000);
        lemma_mul_bound(pen as int, dy as int, 0x200000, 0x200000);
        assert(iabs(pen * dx) <= (r as int) * (2 * dist) && iabs(pen * dy) <= (r as int) * (2
            * dist)) by (nonlinear_arith)
            requires
                1 <= pen <= 2 * (r as int) - 1 && iabs(dx as int) <= dist && iabs(dy as int) <= dist
                    && 1 <= dist && iabs(pen * dx) <= pen * iabs(dx as int) && iabs(pen * dy) <= pen
                    * iabs(dy as int) && r >= 1,
        ;
    }
    let cx128 = div_away((pen as i128) * (dx as i128), 2 * (dist as i128));
    let cy128 = div_away((pen as i128) * (dy as i128), 2 * (dist as i128));
    proof {
        lemma_qdiv_away_bound(pen * dx, 2 * (dist as int), r as int);
        lemma_qdiv_away_bound(pen * dy, 2 * (dist as int), r as int);
    }
    let cx = cx128 as i64;
    let cy = cy128 as i64;
    a.pos.x = a.pos.x - cx;
    a.pos.y = a.pos.y - cy;
    b.pos.x = b.pos.x + cx;
    b.pos.y = b.pos.y + cy;
    proof {
        assert(GVec { x: cx as int, y: cy as int } == correction_spec(ga, gb, r as int));
    }
    let rx = b.vel.x - a.vel.x;
    let ry = b.vel.y - a.vel.y;
    proof {
        lemma_mul_bound(rx as int, dx as int, 0x200000000, 0x200000);
        lemma_mul_bound(ry as int, dy as int, 0x200000000, 0x200000);
    }
    let cs: i128 = (rx as i128) * (dx as i128) + (ry as i128) * (dy as i128);
    proof {
        assert(cs == closing_dot(ga, gb));
    }
    if cs > 0 {
        return ;
    }
    let q: i128 = if d2 < 1 {
        1
    } else {
        d2
    };
    proof {
        lemma_mul_bound(-(cs as int), dx as int, 0x100000000000000, 0x200000);
        lemma_mul_bound(-(cs as int), dy as int, 0x100000000000000, 0x200000);
    }
    let ix128 = div_trunc((-cs) * (dx as i128), q);
    let iy128 = div_trunc((-cs) * (dy as i128), q);
    proof {
        lemma_impulse_component(rx as int, ry as int, dx as int, dy as int);
        lemma_impulse_component(ry as int, rx as int, dy as int, dx as int);
        assert(ix128 == impulse_spec(ga, gb).x && iy128 == impulse_spec(ga, gb).y);
        assert(iabs(ix128 as int) <= iabs(rx as int) + iabs(ry as int));
        assert(iabs(iy128 as int) <= iabs(rx as int) + iabs(ry as int));
    }
    let ix = ix128 as i64;
    let iy = iy128 as i64;
    a.vel.x = a.vel.x - ix;
    a.vel.y = a.vel.y - iy;
    b.vel.x = b.vel.x + ix;
    b.vel.y = b.vel.y + iy;
}

} // verus!
