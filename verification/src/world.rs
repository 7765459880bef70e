//! The simulation context: the particle population and the grab state, with
//! the per-frame step that integrates motion, resolves walls, applies the
//! pointer override and runs the all-pairs collision pass.

use crate::collide::{collide, collide_spec};
use crate::num::{iabs, isqrt, lemma_mul_bound, lemma_qdiv_bound, lemma_sqrt_dominates, qdiv,
    sqrt_floor};
use crate::particle::{bounce_spec, bounce_walls, integrate, integrate_spec};
use crate::pick::nearest_point;
use crate::rng::SeededRng;
use crate::spawn::{reset_points, reset_spec, spawned_bounds};
use crate::vec2::{dist2, point_bounded, seq_view, GPoint, GVec, Point, Vec2};
use crate::{COORD_GUARD, DT_LIMIT, EXTENT_LIMIT, RADIUS_LIMIT, SCALE, STATE_LIMIT};
use vstd::prelude::*;

verus! {

/// The grab state machine: either no particle is held, or exactly one is.
#[derive(Clone, Copy, PartialEq, Eq, Structural, Debug)]
pub enum Grab {
    Idle,
    Held(usize),
}

/// Whether index `i` is excluded from collision resolution by grab `g`.
pub open spec fn grab_skips(g: Grab, i: int) -> bool {
    match g {
        Grab::Held(k) => i == k as int,
        Grab::Idle => false,
    }
}

/// Whether a particle is inside the operating range of collision arithmetic.
pub open spec fn in_guard(p: GPoint) -> bool {
    point_bounded(p, COORD_GUARD as int, COORD_GUARD as int)
}

/// One visit of the unordered pair `(i, j)` in the collision pass: skipped
/// entirely when either member is held or out of operating range.
pub open spec fn pair_step(s: Seq<GPoint>, i: int, j: int, g: Grab, r: int) -> Seq<GPoint> {
    if grab_skips(g, i) || grab_skips(g, j) || !in_guard(s[i]) || !in_guard(s[j]) {
        s
    } else {
        let c = collide_spec(s[i], s[j], r);
        s.update(i, c.0).update(j, c.1)
    }
}

/// The population after row `i` has visited pairs `(i, i+1) .. (i, i+m)`.
pub open spec fn row_upto(s: Seq<GPoint>, i: int, m: nat, g: Grab, r: int) -> Seq<GPoint>
    decreases m,
{
    if m == 0 {
        s
    } else {
        pair_step(row_upto(s, i, (m - 1) as nat, g, r), i, i + m, g, r)
    }
}

/// A whole row `i`: pairs `(i, j)` for every `j` above `i`.
pub open spec fn row_full(s: Seq<GPoint>, i: int, g: Grab, r: int) -> Seq<GPoint> {
    if 0 <= i && i + 1 <= s.len() {
        row_upto(s, i, (s.len() - i - 1) as nat, g, r)
    } else {
        s
    }
}

/// The population after the first `k` rows of the pass.
pub open spec fn pass_upto(s: Seq<GPoint>, k: nat, g: Grab, r: int) -> Seq<GPoint>
    decreases k,
{
    if k == 0 {
        s
    } else {
        row_full(pass_upto(s, (k - 1) as nat, g, r), k - 1, g, r)
    }
}

/// The full all-pairs collision pass: every unordered pair exactly once,
/// outer index ascending, inner index ascending.
pub open spec fn pass_spec(s: Seq<GPoint>, g: Grab, r: int) -> Seq<GPoint> {
    pass_upto(s, s.len(), g, r)
}

/// A pair visit leaves a held index untouched.
proof fn lemma_pair_skip(s: Seq<GPoint>, i: int, j: int, g: Grab, r: int, t: int)
    requires
        0 <= t < s.len(),
        0 <= i < s.len(),
        0 <= j < s.len(),
        grab_skips(g, t),
    ensures
        pair_step(s, i, j, g, r).len() == s.len(),
        pair_step(s, i, j, g, r)[t] == s[t],
{
    if !(grab_skips(g, i) || grab_skips(g, j) || !in_guard(s[i]) || !in_guard(s[j])) {
        assert(t != i && t != j);
        let c = collide_spec(s[i], s[j], r);
        assert(s.update(i, c.0).update(j, c.1)[t] == s[t]);
    }
}

/// A row leaves a held index untouched.
proof fn lemma_row_skip(s: Seq<GPoint>, i: int, m: nat, g: Grab, r: int, t: int)
    requires
        0 <= t < s.len(),
        0 <= i,
        m == 0 || i + m < s.len(),
        grab_skips(g, t),
    ensures
        row_upto(s, i, m, g, r).len() == s.len(),
        row_upto(s, i, m, g, r)[t] == s[t],
    decreases m,
{
    if m > 0 {
        lemma_row_skip(s, i, (m - 1) as nat, g, r, t);
        lemma_pair_skip(row_upto(s, i, (m - 1) as nat, g, r), i, i + m, g, r, t);
    }
}

/// The whole collision pass leaves a held index untouched: the grabbed
/// particle is a fixed handle, excluded from every pair.
pub proof fn lemma_pass_skip(s: Seq<GPoint>, k: nat, g: Grab, r: int, t: int)
    requires
        0 <= t < s.len(),
        grab_skips(g, t),
    ensures
        pass_upto(s, k, g, r).len() == s.len(),
        pass_upto(s, k, g, r)[t] == s[t],
    decreases k,
{
    if k > 0 {
        lemma_pass_skip(s, (k - 1) as nat, g, r, t);
        let prev = pass_upto(s, (k - 1) as nat, g, r);
        if 0 <= k - 1 && k <= prev.len() {
            lemma_row_skip(prev, k - 1, (prev.len() - k) as nat, g, r, t);
        }
    }
}

/// The population after integration and wall resolution, pointwise.
pub open spec fn move_spec(s: Seq<GPoint>, dt: int, w: int, h: int, r: int) -> Seq<GPoint> {
    Seq::new(s.len(), |i: int| bounce_spec(integrate_spec(s[i], dt), w, h, r))
}

/// After integration and wall resolution every particle sits inside the
/// inset rectangle `[r, w - r] x [r, h - r]`.
pub proof fn lemma_move_contained(s: Seq<GPoint>, dt: int, w: int, h: int, r: int, i: int)
    requires
        0 <= i < s.len(),
        0 <= r,
        2 * r <= w,
        2 * r <= h,
    ensures
        r <= move_spec(s, dt, w, h, r)[i].pos.x <= w - r,
        r <= move_spec(s, dt, w, h, r)[i].pos.y <= h - r,
{
}

/// The population after the grab override: the held particle is pinned to
/// the pointer and carries the (capped) pointer velocity.
pub open spec fn override_spec(s: Seq<GPoint>, g: Grab, mouse: GVec, vel: GVec) -> Seq<GPoint> {
    match g {
        Grab::Idle => s,
        Grab::Held(i) => if (i as int) < s.len() {
            s.update(i as int, GPoint { pos: mouse, vel })
        } else {
            s
        },
    }
}

/// A velocity clamped to magnitude at most `cap`: kept as it is when already
/// within the cap, otherwise rescaled along its own direction.
pub open spec fn clamp_mag_spec(v: GVec, cap: int) -> GVec {
    if v.x * v.x + v.y * v.y <= cap * cap {
        v
    } else {
        let len = sqrt_floor((v.x * v.x + v.y * v.y) as nat) as int;
        GVec { x: qdiv(v.x * cap, len), y: qdiv(v.y * cap, len) }
    }
}

/// The pointer velocity estimate: displacement over the clamped time delta,
/// in steps per second.
pub open spec fn pointer_vel_spec(mouse: GVec, last: GVec, dt: int) -> GVec {
    let d = if dt < 1 {
        1int
    } else {
        dt
    };
    GVec { x: qdiv((mouse.x - last.x) * SCALE, d), y: qdiv((mouse.y - last.y) * SCALE, d) }
}

/// One whole frame: integrate and bounce every particle, pin the held
/// particle to the pointer, then run the collision pass with the held index
/// excluded.
pub open spec fn frame_spec(
    s: Seq<GPoint>,
    g: Grab,
    dt: int,
    w: int,
    h: int,
    r: int,
    mouse: GVec,
    mvel: GVec,
    cap: int,
) -> Seq<GPoint> {
    pass_spec(override_spec(move_spec(s, dt, w, h, r), g, mouse, clamp_mag_spec(mvel, cap)), g, r)
}

/// Whether a particle is inside the collision operating range.
fn in_range(p: &Point) -> (r: bool)
    ensures
        r == in_guard(p@),
{
    -COORD_GUARD <= p.pos.x && p.pos.x <= COORD_GUARD && -COORD_GUARD <= p.pos.y && p.pos.y
        <= COORD_GUARD && -COORD_GUARD <= p.vel.x && p.vel.x <= COORD_GUARD && -COORD_GUARD
        <= p.vel.y && p.vel.y <= COORD_GUARD
}

/// Clamp a velocity to magnitude at most `cap`.
pub fn clamp_magnitude(v: Vec2, cap: i64) -> (r: Vec2)
    requires
        0 <= cap <= COORD_GUARD,
        iabs(v@.x) <= 0x4000000000000,
        iabs(v@.y) <= 0x4000000000000,
    ensures
        r@ == clamp_mag_spec(v@, cap as int),
        iabs(r@.x) <= cap,
        iabs(r@.y) <= cap,
{
    proof {
        lemma_mul_bound(v@.x, v@.x, 0x4000000000000, 0x4000000000000);
        lemma_mul_bound(v@.y, v@.y, 0x4000000000000, 0x4000000000000);
        lemma_mul_bound(cap as int, cap as int, COORD_GUARD as int, COORD_GUARD as int);
    }
    let v2: i128 = (v.x as i128) * (v.x as i128) + (v.y as i128) * (v.y as i128);
    let cap2: i128 = (cap as i128) * (cap as i128);
    if v2 <= cap2 {
        proof {
            assert(v@.x * v@.x >= 0 && v@.y * v@.y >= 0) by (nonlinear_arith);
            assert(v@.x * v@.x <= cap * cap) by (nonlinear_arith)
                requires
                    v@.x * v@.x + v@.y * v@.y <= cap * cap && v@.x * v@.x >= 0 && v@.y * v@.y >= 0,
            ;
            assert(v@.y * v@.y <= cap * cap) by (nonlinear_arith)
                requires
                    v@.x * v@.x + v@.y * v@.y <= cap * cap && v@.x * v@.x >= 0 && v@.y * v@.y >= 0,
            ;
            assert(iabs(v@.x) <= cap && iabs(v@.y) <= cap) by (nonlinear_arith)
                requires
                    v@.x * v@.x <= cap * cap && v@.y * v@.y <= cap * cap && cap >= 0 && iabs(v@.x)
                        == (if v@.x < 0 {
                        -v@.x
                    } else {
                        v@.x
                    }) && iabs(v@.y) == (if v@.y < 0 {
                        -v@.y
                    } else {
                        v@.y
                    }),
            ;
        }
        v
    } else {
        let len128 = isqrt(v2 as u128);
        proof {
            assert(v2 >= 1) by (nonlinear_arith)
                requires
                    v2 == v@.x * v@.x + v@.y * v@.y && v2 > cap * cap && cap >= 0,
            ;
            assert(len128 >= 1) by (nonlinear_arith)
                requires
                    v2 < ((len128 as int) + 1) * ((len128 as int) + 1) && v2 >= 1 && len128 >= 0,
            ;
            assert(len128 < 0x8000000000000) by (nonlinear_arith)
                requires
                    (len128 as int) * (len128 as int) <= v2 && v2 <= 0x20000000000000000000000000
                        && len128 >= 0,
            ;
            assert(iabs(v@.x) * iabs(v@.x) == v@.x * v@.x && iabs(v@.y) * iabs(v@.y) == v@.y
                * v@.y) by (nonlinear_arith)
                requires
                    iabs(v@.x) == (if v@.x < 0 {
                        -v@.x
                    } else {
                        v@.x
                    }) && iabs(v@.y) == (if v@.y < 0 {
                        -v@.y
                    } else {
                        v@.y
                    }),
            ;
            lemma_sqrt_dominates(v2 as nat, iabs(v@.x));
            lemma_sqrt_dominates(v2 as nat, iabs(v@.y));
            lemma_mul_bound(v@.x, cap as int, iabs(v@.x), cap as int);
            lemma_mul_bound(v@.y, cap as int, iabs(v@.y), cap as int);
            lemma_mul_bound(v@.x, cap as int, 0x4000000000000, COORD_GUARD as int);
            lemma_mul_bound(v@.y, cap as int, 0x4000000000000, COORD_GUARD as int);
            assert(iabs(v@.x * cap) <= (cap as int) * (len128 as int) && iabs(v@.y * cap) <= (
            cap as int) * (len128 as int)) by (nonlinear_arith)
                requires
                    iabs(v@.x * cap) <= iabs(v@.x) * (cap as int) && iabs(v@.y * cap) <= iabs(v@.y)
                        * (cap as int) && iabs(v@.x) <= len128 && iabs(v@.y) <= len128 && cap >= 0
                        && len128 >= 1 && iabs(v@.x * cap) >= 0 && iabs(v@.y * cap) >= 0 && iabs(
                        v@.x,
                    ) >= 0 && iabs(v@.y) >= 0,
            ;
            lemma_qdiv_bound(v@.x * cap, len128 as int, cap as int);
            lemma_qdiv_bound(v@.y * cap, len128 as int, cap as int);
        }
        let len = len128 as i64;
        let rx = crate::num::div_trunc((v.x as i128) * (cap as i128), len as i128) as i64;
        let ry = crate::num::div_trunc((v.y as i128) * (cap as i128), len as i128) as i64;
        Vec2 { x: rx, y: ry }
    }
}

/// Estimate the pointer velocity from its displacement over `dt` (given in
/// `SCALE`-ths of a second, clamped to at least one to avoid a division by
/// zero on pathologically small deltas).
pub fn pointer_velocity(mouse: Vec2, last: Vec2, dt: i64) -> (r: Vec2)
    requires
        0 <= dt <= DT_LIMIT,
        iabs(mouse@.x) <= EXTENT_LIMIT,
        iabs(mouse@.y) <= EXTENT_LIMIT,
        iabs(last@.x) <= EXTENT_LIMIT,
        iabs(last@.y) <= EXTENT_LIMIT,
    ensures
        r@ == pointer_vel_spec(mouse@, last@, dt as int),
        iabs(r@.x) <= 0x4000000000000,
        iabs(r@.y) <= 0x4000000000000,
{
    let d: i64 = if dt < 1 {
        1
    } else {
        dt
    };
    let ex = mouse.x - last.x;
    let ey = mouse.y - last.y;
    proof {
        lemma_mul_bound(ex as int, SCALE as int, 2 * EXTENT_LIMIT as int, SCALE as int);
        lemma_mul_bound(ey as int, SCALE as int, 2 * EXTENT_LIMIT as int, SCALE as int);
        lemma_qdiv_bound(ex * SCALE, d as int, 2 * (EXTENT_LIMIT as int) * (SCALE as int));
        lemma_qdiv_bound(ey * SCALE, d as int, 2 * (EXTENT_LIMIT as int) * (SCALE as int));
        assert(iabs(ex * SCALE) <= 2 * (EXTENT_LIMIT as int) * (SCALE as int) * (d as int) && iabs(
            ey * SCALE,
        ) <= 2 * (EXTENT_LIMIT as int) * (SCALE as int) * (d as int)) by (nonlinear_arith)
            requires
                iabs(ex * SCALE) <= 2 * (EXTENT_LIMIT as int) * (SCALE as int) && iabs(ey * SCALE)
                    <= 2 * (EXTENT_LIMIT as int) * (SCALE as int) && d >= 1 && iabs(ex * SCALE) >= 0
                    && iabs(ey * SCALE) >= 0,
        ;
    }
    let rx = crate::num::div_trunc((ex as i128) * (SCALE as i128), d as i128) as i64;
    let ry = crate::num::div_trunc((ey as i128) * (SCALE as i128), d as i128) as i64;
    Vec2 { x: rx, y: ry }
}

/// The simulation context: the population and the grab state, owned by one
/// value and passed explicitly to each step.
pub struct World {
    pub points: Vec<Point>,
    pub grab: Grab,
}

impl World {
    /// Well-formedness: a held index is in range, and every stored component
    /// is within `STATE_LIMIT`.
    pub open spec fn wf(self) -> bool {
        (match self.grab {
            Grab::Held(i) => (i as int) < self.points@.len(),
            Grab::Idle => true,
        }) && forall|k: int|
            0 <= k < self.points@.len() ==> point_bounded(
                #[trigger] self.points@[k]@,
                STATE_LIMIT as int,
                STATE_LIMIT as int,
            )
    }

    /// An empty world with nothing held.
    pub fn new() -> (w: World)
        ensures
            w.points@.len() == 0,
            w.grab == Grab::Idle,
            w.wf(),
    {
        World { points: Vec::new(), grab: Grab::Idle }
    }

    /// Reseed the whole population and drop any grab.
    pub fn reset(&mut self, rng: &mut SeededRng, n: usize, r: i64, w: i64, h: i64)
        requires
            1 <= r <= RADIUS_LIMIT,
            0 <= w <= EXTENT_LIMIT,
            0 <= h <= EXTENT_LIMIT,
        ensures
            final(self).points@.len() == n,
            seq_view(final(self).points@) == reset_spec(
                old(rng).state,
                n as nat,
                r as int,
                w as int,
                h as int,
            ),
            final(rng).state == crate::rng::state_after(old(rng).state, 5 * (n as nat)),
            final(self).grab == Grab::Idle,
            final(self).wf(),
    {
        reset_points(&mut self.points, rng, n, r, w, h);
        self.grab = Grab::Idle;
        proof {
            assert forall|k: int| 0 <= k < self.points@.len() implies point_bounded(
                #[trigger] self.points@[k]@,
                STATE_LIMIT as int,
                STATE_LIMIT as int,
            ) by {
                assert(spawned_bounds(self.points@[k]@, w as int, h as int));
            }
        }
    }

    /// Try to pick up the particle nearest to the pointer: the grab becomes
    /// `Held` of the nearest index strictly within `max_dist`, or `Idle` when
    /// none is near enough.
    pub fn pick_start(&mut self, mouse: Vec2, max_dist: i64)
        requires
            old(self).wf(),
            0 <= max_dist <= COORD_GUARD,
            iabs(mouse@.x) <= STATE_LIMIT,
            iabs(mouse@.y) <= STATE_LIMIT,
        ensures
            final(self).points == old(self).points,
            final(self).wf(),
            match final(self).grab {
                Grab::Held(i) => (i as int) < old(self).points@.len() && dist2(
                    old(self).points@[i as int]@.pos,
                    mouse@,
                ) < max_dist * max_dist && (forall|j: int|
                    0 <= j < i ==> #[trigger] dist2(old(self).points@[j]@.pos, mouse@) > dist2(
                        old(self).points@[i as int]@.pos,
                        mouse@,
                    )) && (forall|j: int|
                    i < j < old(self).points@.len() ==> #[trigger] dist2(
                        old(self).points@[j]@.pos,
                        mouse@,
                    ) >= dist2(old(self).points@[i as int]@.pos, mouse@)),
                Grab::Idle => forall|j: int|
                    0 <= j < old(self).points@.len() ==> #[trigger] dist2(
                        old(self).points@[j]@.pos,
                        mouse@,
                    ) >= max_dist * max_dist,
            },
    {
        self.grab = match nearest_point(&self.points, mouse, max_dist) {
            Some(i) => Grab::Held(i),
            None => Grab::Idle,
        };
    }

    /// Release any grab; the held particle keeps its last velocity, which is
    /// what produces a throw.
    pub fn pick_release(&mut self)
        requires
            old(self).wf(),
        ensures
            final(self).points == old(self).points,
            final(self).grab == Grab::Idle,
            final(self).wf(),
    {
        self.grab = Grab::Idle;
    }

    /// One frame: integrate and bounce every particle, pin the held particle
    /// to the pointer with the capped pointer velocity, then resolve all
    /// pairs once. The held particle is excluded from the pass, so its
    /// override survives the frame exactly.
    pub fn step(
        &mut self,
        dt: i64,
        width: i64,
        height: i64,
        r: i64,
        mouse: Vec2,
        mouse_vel: Vec2,
        cap: i64,
    )
        requires
            old(self).wf(),
            0 <= dt <= DT_LIMIT,
            1 <= r <= RADIUS_LIMIT,
            2 * r <= width <= EXTENT_LIMIT,
            2 * r <= height <= EXTENT_LIMIT,
            iabs(mouse@.x) <= COORD_GUARD,
            iabs(mouse@.y) <= COORD_GUARD,
            iabs(mouse_vel@.x) <= 0x4000000000000,
            iabs(mouse_vel@.y) <= 0x4000000000000,
            0 <= cap <= COORD_GUARD,
        ensures
            final(self).wf(),
            final(self).grab == old(self).grab,
            final(self).points@.len() == old(self).points@.len(),
            seq_view(final(self).points@) == frame_spec(
                seq_view(old(self).points@),
                old(self).grab,
                dt as int,
                width as int,
                height as int,
                r as int,
                mouse@,
                mouse_vel@,
                cap as int,
            ),
            match old(self).grab {
                Grab::Held(gi) => final(self).points@[gi as int]@.pos == mouse@
                    && final(self).points@[gi as int]@.vel == clamp_mag_spec(
                    mouse_vel@,
                    cap as int,
                ),
                Grab::Idle => true,
            },
    {
        let ghost s0 = seq_view(self.points@);
        let len = self.points.len();
        // Integration and wall resolution.
        let mut i: usize = 0;
        while i < len
            invariant
                len == self.points@.len(),
                self.grab == old(self).grab,
                0 <= i <= len,
                0 <= dt <= DT_LIMIT,
                1 <= r <= RADIUS_LIMIT,
                2 * r <= width <= EXTENT_LIMIT,
                2 * r <= height <= EXTENT_LIMIT,
                s0.len() == len,
                forall|k: int|
                    0 <= k < i ==> seq_view(self.points@)[k] == #[trigger] move_spec(
                        s0,
                        dt as int,
                        width as int,
                        height as int,
                        r as int,
                    )[k],
                forall|k: int| i <= k < len ==> seq_view(self.points@)[k] == s0[k],
                forall|k: int|
                    0 <= k < len ==> point_bounded(
                        #[trigger] self.points@[k]@,
                        STATE_LIMIT as int,
                        STATE_LIMIT as int,
                    ),
            decreases len - i,
        {
            let mut p = self.points[i];
            integrate(&mut p, dt);
            bounce_walls(&mut p, width, height, r);
            self.points.set(i, p);
            i = i + 1;
        }
        proof {
            assert(seq_view(self.points@) =~= move_spec(
                s0,
                dt as int,
                width as int,
                height as int,
                r as int,
            ));
        }
        let ghost s1 = seq_view(self.points@);
        // Grab override.
        let vcap = clamp_magnitude(mouse_vel, cap);
        let g = self.grab;
        match g {
            Grab::Held(gi) => {
                self.points.set(gi, Point { pos: mouse, vel: vcap });
                proof {
                    assert(seq_view(self.points@) =~= override_spec(s1, g, mouse@, vcap@));
                }
            },
            Grab::Idle => {
                proof {
                    assert(seq_view(self.points@) =~= override_spec(s1, g, mouse@, vcap@));
                }
            },
        }
        let ghost s2 = seq_view(self.points@);
        // Collision pass.
        collide_pairs(&mut self.points, g, r);
        proof {
            match g {
                Grab::Held(gi) => {
                    lemma_pass_skip(s2, s2.len(), g, r as int, gi as int);
                },
                Grab::Idle => {},
            }
        }
    }
}

/// Run the all-pairs collision pass over the population, visiting each
/// unordered pair exactly once in ascending order and skipping any pair that
/// involves the held index or a particle outside the operating range.
pub fn collide_pairs(points: &mut Vec<Point>, g: Grab, r: i64)
    requires
        1 <= r <= RADIUS_LIMIT,
        forall|k: int|
            0 <= k < old(points)@.len() ==> point_bounded(
                #[trigger] old(points)@[k]@,
                STATE_LIMIT as int,
                STATE_LIMIT as int,
            ),
    ensures
        final(points)@.len() == old(points)@.len(),
        seq_view(final(points)@) == pass_spec(seq_view(old(points)@), g, r as int),
        forall|k: int|
            0 <= k < final(points)@.len() ==> point_bounded(
                #[trigger] final(points)@[k]@,
                STATE_LIMIT as int,
                STATE_LIMIT as int,
            ),
{
    let ghost s_entry = seq_view(points@);
    let len = points.len();
    let mut a_i: usize = 0;
    while a_i < len
        invariant
            len == points@.len(),
            s_entry.len() == len,
            0 <= a_i <= len,
            1 <= r <= RADIUS_LIMIT,
            seq_view(points@) == pass_upto(s_entry, a_i as nat, g, r as int),
            forall|k: int|
                0 <= k < len ==> point_bounded(
                    #[trigger] points@[k]@,
                    STATE_LIMIT as int,
                    STATE_LIMIT as int,
                ),
        decreases len - a_i,
    {
        let ghost row_entry = seq_view(points@);
        let mut b_i: usize = a_i + 1;
        while b_i < len
            invariant
                len == points@.len(),
                row_entry.len() == len,
                0 <= a_i < len,
                a_i + 1 <= b_i <= len,
                1 <= r <= RADIUS_LIMIT,
                seq_view(points@) == row_upto(
                    row_entry,
                    a_i as int,
                    (b_i - a_i - 1) as nat,
                    g,
                    r as int,
                ),
                forall|k: int|
                    0 <= k < len ==> point_bounded(
                        #[trigger] points@[k]@,
                        STATE_LIMIT as int,
                        STATE_LIMIT as int,
                    ),
            decreases len - b_i,
        {
            let ghost cur = seq_view(points@);
            let skip_pair = match g {
                Grab::Held(gi) => gi == a_i || gi == b_i,
                Grab::Idle => false,
            };
            if !skip_pair {
                let pa = points[a_i];
                let pb = points[b_i];
                if in_range(&pa) && in_range(&pb) {
                    let mut ca = pa;
                    let mut cb = pb;
                    collide(&mut ca, &mut cb, r);
                    points.set(a_i, ca);
                    points.set(b_i, cb);
                    proof {
                        assert(seq_view(points@) =~= cur.update(a_i as int, ca@).update(
                            b_i as int,
                            cb@,
                        ));
                    }
                }
            }
            proof {
                assert(seq_view(points@) =~= pair_step(cur, a_i as int, b_i as int, g, r as int));
                assert(seq_view(points@) =~= row_upto(
                    row_entry,
                    a_i as int,
                    (b_i - a_i) as nat,
                    g,
                    r as int,
                ));
            }
            b_i = b_i + 1;
        }
        proof {
            assert(seq_view(points@) == row_full(row_entry, a_i as int, g, r as int));
            assert(seq_view(points@) == pass_upto(s_entry, (a_i + 1) as nat, g, r as int));
        }
        a_i = a_i + 1;
    }
}

} // verus!
