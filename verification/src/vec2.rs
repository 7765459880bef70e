//! Planar vectors and particles, with their mathematical models.

use crate::num::iabs;
use vstd::prelude::*;

verus! {

/// A planar vector in fixed-point integer coordinates.
#[derive(Clone, Copy, PartialEq, Eq, Structural, Debug)]
pub struct Vec2 {
    pub x: i64,
    pub y: i64,
}

/// The mathematical value of a `Vec2`: a pair of unbounded integers.
pub ghost struct GVec {
    pub x: int,
    pub y: int,
}

impl View for Vec2 {
    type V = GVec;

    open spec fn view(&self) -> GVec {
        GVec { x: self.x as int, y: self.y as int }
    }
}

/// A particle: a position and a velocity, both in fixed-point coordinates.
/// Radius and mass are simulation-wide constants, not stored per particle.
#[derive(Clone, Copy, PartialEq, Eq, Structural, Debug)]
pub struct Point {
    pub pos: Vec2,
    pub vel: Vec2,
}

/// The mathematical value of a `Point`.
pub ghost struct GPoint {
    pub pos: GVec,
    pub vel: GVec,
}

impl View for Point {
    type V = GPoint;

    open spec fn view(&self) -> GPoint {
        GPoint { pos: self.pos@, vel: self.vel@ }
    }
}

/// Both components no larger than `b` in magnitude.
pub open spec fn vec_bounded(v: GVec, b: int) -> bool {
    iabs(v.x) <= b && iabs(v.y) <= b
}

/// Position within `pb` and velocity within `vb`, componentwise.
pub open spec fn point_bounded(p: GPoint, pb: int, vb: int) -> bool {
    vec_bounded(p.pos, pb) && vec_bounded(p.vel, vb)
}

/// Squared distance between two vectors.
pub open spec fn dist2(u: GVec, v: GVec) -> int {
    (u.x - v.x) * (u.x - v.x) + (u.y - v.y) * (u.y - v.y)
}

/// The mathematical values of a sequence of particles.
pub open spec fn seq_view(s: Seq<Point>) -> Seq<GPoint> {
    Seq::new(s.len(), |i: int| s[i]@)
}

} // verus!
