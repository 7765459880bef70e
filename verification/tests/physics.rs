use particles::collide::collide;
use particles::particle::{bounce_walls, integrate};
use particles::vec2::{Point, Vec2};
use particles::SCALE;

fn pt(px: i64, py: i64, vx: i64, vy: i64) -> Point {
    Point { pos: Vec2 { x: px, y: py }, vel: Vec2 { x: vx, y: vy } }
}

/// Head-on overlap: discs at (10, 50) and (15, 50) units with radius 4 are
/// pushed apart to exactly one diameter and swap their approach velocities.
#[test]
fn head_on_collision_separates_and_swaps() {
    let r = 4 * SCALE;
    let mut a = pt(10 * SCALE, 50 * SCALE, 20 * SCALE, 0);
    let mut b = pt(15 * SCALE, 50 * SCALE, -20 * SCALE, 0);
    collide(&mut a, &mut b, r);
    assert_eq!(b.pos.x - a.pos.x, 8 * SCALE);
    assert_eq!(a.pos.y, 50 * SCALE);
    assert_eq!(b.pos.y, 50 * SCALE);
    assert_eq!(a.vel, Vec2 { x: -20 * SCALE, y: 0 });
    assert_eq!(b.vel, Vec2 { x: 20 * SCALE, y: 0 });
}

/// A separating overlapping pair keeps its velocities; only positions move.
#[test]
fn separating_pair_keeps_velocities() {
    let r = 4 * SCALE;
    let mut a = pt(0, 0, 0, 0);
    let mut b = pt(5 * SCALE, 0, 10 * SCALE, 0);
    collide(&mut a, &mut b, r);
    assert_eq!(a.vel, Vec2 { x: 0, y: 0 });
    assert_eq!(b.vel, Vec2 { x: 10 * SCALE, y: 0 });
    assert_eq!(b.pos.x - a.pos.x, 8 * SCALE);
}

/// A diagonal overlap (3-4-5 triangle) separates to exactly one diameter.
#[test]
fn diagonal_overlap_separates_exactly() {
    let r = 4 * SCALE;
    let mut a = pt(0, 0, 0, 0);
    let mut b = pt(3 * SCALE, 4 * SCALE, 0, 0);
    collide(&mut a, &mut b, r);
    let dx = (b.pos.x - a.pos.x) as i128;
    let dy = (b.pos.y - a.pos.y) as i128;
    let diam = (8 * SCALE) as i128;
    assert_eq!(dx * dx + dy * dy, diam * diam);
}

/// The impulse acts along the centre line only: tangential velocity
/// components are untouched by the exchange.
#[test]
fn tangential_velocity_unchanged() {
    let r = 4 * SCALE;
    let mut a = pt(10 * SCALE, 50 * SCALE, 20 * SCALE, 5 * SCALE);
    let mut b = pt(15 * SCALE, 50 * SCALE, -20 * SCALE, 7 * SCALE);
    collide(&mut a, &mut b, r);
    assert_eq!(a.vel, Vec2 { x: -20 * SCALE, y: 5 * SCALE });
    assert_eq!(b.vel, Vec2 { x: 20 * SCALE, y: 7 * SCALE });
}

/// Discs a full diameter (or more) apart are left exactly as they are.
#[test]
fn non_overlapping_pair_untouched() {
    let r = 4 * SCALE;
    let mut a = pt(0, 0, 3, 4);
    let mut b = pt(8 * SCALE, 0, -5, 6);
    collide(&mut a, &mut b, r);
    assert_eq!(a, pt(0, 0, 3, 4));
    assert_eq!(b, pt(8 * SCALE, 0, -5, 6));
}

/// Coincident centres are the guarded degenerate case: the centre line has
/// no direction, so nothing moves and nothing panics.
#[test]
fn coincident_centres_are_stable() {
    let r = 4 * SCALE;
    let mut a = pt(7 * SCALE, 7 * SCALE, 100, 0);
    let mut b = pt(7 * SCALE, 7 * SCALE, -100, 0);
    collide(&mut a, &mut b, r);
    assert_eq!(a.pos, Vec2 { x: 7 * SCALE, y: 7 * SCALE });
    assert_eq!(b.pos, Vec2 { x: 7 * SCALE, y: 7 * SCALE });
}

/// Integration advances the position by `vel * dt / SCALE` exactly.
#[test]
fn integrate_advances_position() {
    let mut p = pt(1000, 2000, 3 * SCALE, -2 * SCALE);
    integrate(&mut p, SCALE);
    assert_eq!(p.pos, Vec2 { x: 1000 + 3 * SCALE, y: 2000 - 2 * SCALE });
    assert_eq!(p.vel, Vec2 { x: 3 * SCALE, y: -2 * SCALE });
    let mut q = pt(0, 0, 10 * SCALE, 0);
    integrate(&mut q, SCALE / 2);
    assert_eq!(q.pos.x, 5 * SCALE);
}

/// A disc past the low wall is clamped to the inset and its velocity on that
/// axis is forced inward (magnitude kept, sign overridden).
#[test]
fn bounce_low_wall_clamps_and_reflects() {
    let r = 4 * SCALE;
    let (w, h) = (100 * SCALE, 100 * SCALE);
    let mut p = pt(SCALE, 50 * SCALE, -9 * SCALE, 3 * SCALE);
    bounce_walls(&mut p, w, h, r);
    assert_eq!(p.pos, Vec2 { x: r, y: 50 * SCALE });
    assert_eq!(p.vel, Vec2 { x: 9 * SCALE, y: 3 * SCALE });
}

/// A disc past the high wall is clamped and pointed back inward; an inward
/// velocity keeps its sign but not its direction choice.
#[test]
fn bounce_high_wall_clamps_and_reflects() {
    let r = 4 * SCALE;
    let (w, h) = (100 * SCALE, 100 * SCALE);
    let mut p = pt(99 * SCALE, 50 * SCALE, 9 * SCALE, 0);
    bounce_walls(&mut p, w, h, r);
    assert_eq!(p.pos, Vec2 { x: 96 * SCALE, y: 50 * SCALE });
    assert_eq!(p.vel, Vec2 { x: -9 * SCALE, y: 0 });
}

/// A corner contact corrects both axes in the same call.
#[test]
fn bounce_corner_corrects_both_axes() {
    let r = 4 * SCALE;
    let (w, h) = (100 * SCALE, 100 * SCALE);
    let mut p = pt(0, 101 * SCALE, -2 * SCALE, 2 * SCALE);
    bounce_walls(&mut p, w, h, r);
    assert_eq!(p.pos, Vec2 { x: r, y: 96 * SCALE });
    assert_eq!(p.vel, Vec2 { x: 2 * SCALE, y: -2 * SCALE });
}
