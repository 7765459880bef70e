use particles::pick::nearest_point;
use particles::rng::SeededRng;
use particles::spawn::{rand_vel, reset_points};
use particles::vec2::{Point, Vec2};
use particles::world::{clamp_magnitude, pointer_velocity, Grab, World};
use particles::{PICK_RADIUS, SCALE, SPEED_MAX, THROW_CAP};

fn pt(px: i64, py: i64, vx: i64, vy: i64) -> Point {
    Point { pos: Vec2 { x: px, y: py }, vel: Vec2 { x: vx, y: vy } }
}

/// Pick selection is deterministic: with particles at (0,0), (5,5) and
/// (100,100) and the pointer at (1,1), the nearest (index 0) wins.
#[test]
fn nearest_picks_closest_index() {
    let points = vec![
        pt(0, 0, 0, 0),
        pt(5 * SCALE, 5 * SCALE, 0, 0),
        pt(100 * SCALE, 100 * SCALE, 0, 0),
    ];
    let mouse = Vec2 { x: SCALE, y: SCALE };
    assert_eq!(nearest_point(&points, mouse, 10 * SCALE), Some(0));
}

/// Nothing within range (or an empty population) yields no pick.
#[test]
fn nearest_none_when_out_of_range() {
    let points = vec![pt(100 * SCALE, 100 * SCALE, 0, 0)];
    let mouse = Vec2 { x: 0, y: 0 };
    assert_eq!(nearest_point(&points, mouse, 10 * SCALE), None);
    let empty: Vec<Point> = vec![];
    assert_eq!(nearest_point(&empty, mouse, PICK_RADIUS), None);
}

/// An exact distance tie keeps the first minimum: the lowest index.
#[test]
fn nearest_tie_breaks_to_lowest_index() {
    let points = vec![pt(-SCALE, 0, 0, 0), pt(SCALE, 0, 0, 0)];
    let mouse = Vec2 { x: 0, y: 0 };
    assert_eq!(nearest_point(&points, mouse, 10 * SCALE), Some(0));
}

/// Grab override: with index 2 held, after a step the held particle sits at
/// the pointer exactly and carries the capped pointer velocity, whatever its
/// kinematics were before.
#[test]
fn grab_override_pins_to_pointer() {
    let r = 4 * SCALE;
    let (w, h) = (200 * SCALE, 200 * SCALE);
    let mut world = World {
        points: vec![
            pt(20 * SCALE, 20 * SCALE, 0, 0),
            pt(60 * SCALE, 60 * SCALE, 0, 0),
            pt(90 * SCALE, 90 * SCALE, 55 * SCALE, -44 * SCALE),
        ],
        grab: Grab::Held(2),
    };
    let mouse = Vec2 { x: 123 * SCALE + 7, y: 45 * SCALE + 3 };
    let mouse_vel = Vec2 { x: 10 * SCALE, y: -2 * SCALE };
    world.step(SCALE / 60, w, h, r, mouse, mouse_vel, THROW_CAP);
    assert_eq!(world.points[2].pos, mouse);
    assert_eq!(world.points[2].vel, mouse_vel);
    assert_eq!(world.grab, Grab::Held(2));
}

/// The held particle is excluded from collision resolution: an overlapping
/// neighbour does not push it (nor get an impulse from it).
#[test]
fn grabbed_pair_skips_collision() {
    let r = 4 * SCALE;
    let (w, h) = (200 * SCALE, 200 * SCALE);
    let mouse = Vec2 { x: 50 * SCALE, y: 50 * SCALE };
    let mut world = World {
        points: vec![pt(50 * SCALE, 50 * SCALE, 0, 0), pt(53 * SCALE, 50 * SCALE, 0, 0)],
        grab: Grab::Held(0),
    };
    world.step(0, w, h, r, mouse, Vec2 { x: 0, y: 0 }, THROW_CAP);
    // The free neighbour was not pushed out of the overlap...
    assert_eq!(world.points[1], pt(53 * SCALE, 50 * SCALE, 0, 0));
    // ...and the held one sits at the pointer.
    assert_eq!(world.points[0].pos, mouse);
}

/// Without a grab the same overlapping pair does resolve during a step.
#[test]
fn free_pair_resolves_during_step() {
    let r = 4 * SCALE;
    let (w, h) = (200 * SCALE, 200 * SCALE);
    let mut world = World {
        points: vec![pt(50 * SCALE, 50 * SCALE, 0, 0), pt(53 * SCALE, 50 * SCALE, 0, 0)],
        grab: Grab::Idle,
    };
    world.step(0, w, h, r, Vec2 { x: 0, y: 0 }, Vec2 { x: 0, y: 0 }, THROW_CAP);
    assert_eq!(world.points[1].pos.x - world.points[0].pos.x, 8 * SCALE);
}

/// A step keeps every particle inside the walls after boundary resolution
/// (here with no collisions to disturb them afterwards).
#[test]
fn step_contains_particles_in_walls() {
    let r = 4 * SCALE;
    let (w, h) = (100 * SCALE, 80 * SCALE);
    let mut world = World {
        points: vec![pt(SCALE, 79 * SCALE, -30 * SCALE, 30 * SCALE), pt(60 * SCALE, 40 * SCALE, 0, 0)],
        grab: Grab::Idle,
    };
    world.step(SCALE, w, h, r, Vec2 { x: 0, y: 0 }, Vec2 { x: 0, y: 0 }, THROW_CAP);
    for p in &world.points {
        assert!(r <= p.pos.x && p.pos.x <= w - r);
        assert!(r <= p.pos.y && p.pos.y <= h - r);
    }
}

/// Pick-start takes the nearest particle in range; pick-release drops it.
#[test]
fn pick_lifecycle_transitions() {
    let mut world = World {
        points: vec![pt(10 * SCALE, 10 * SCALE, 0, 0), pt(90 * SCALE, 90 * SCALE, 0, 0)],
        grab: Grab::Idle,
    };
    world.pick_start(Vec2 { x: 11 * SCALE, y: 10 * SCALE }, PICK_RADIUS);
    assert_eq!(world.grab, Grab::Held(0));
    world.pick_release();
    assert_eq!(world.grab, Grab::Idle);
    // Pressing far from everything leaves nothing held.
    world.pick_start(Vec2 { x: 50 * SCALE, y: 50 * SCALE }, PICK_RADIUS);
    assert_eq!(world.grab, Grab::Idle);
}

/// Reset determinism: the same seed and the same geometry give the same
/// population, twice over.
#[test]
fn reset_is_deterministic_under_fixed_seed() {
    let mut rng1 = SeededRng::new(42);
    let mut rng2 = SeededRng::new(42);
    let mut p1: Vec<Point> = Vec::new();
    let mut p2: Vec<Point> = Vec::new();
    reset_points(&mut p1, &mut rng1, 50, 4 * SCALE, 640 * SCALE, 480 * SCALE);
    reset_points(&mut p2, &mut rng2, 50, 4 * SCALE, 640 * SCALE, 480 * SCALE);
    assert_eq!(p1.len(), 50);
    assert_eq!(p1, p2);
    // A different seed diverges somewhere.
    let mut rng3 = SeededRng::new(43);
    let mut p3: Vec<Point> = Vec::new();
    reset_points(&mut p3, &mut rng3, 50, 4 * SCALE, 640 * SCALE, 480 * SCALE);
    assert_ne!(p1, p3);
}

/// Freshly seeded particles sit inside the inset rectangle and have bounded
/// speeds.
#[test]
fn reset_spawns_inside_inset() {
    let r = 4 * SCALE;
    let (w, h) = (640 * SCALE, 480 * SCALE);
    let mut rng = SeededRng::new(7);
    let mut points: Vec<Point> = Vec::new();
    reset_points(&mut points, &mut rng, 200, r, w, h);
    for p in &points {
        assert!(r <= p.pos.x && p.pos.x <= w - r);
        assert!(r <= p.pos.y && p.pos.y <= h - r);
        assert!(p.vel.x.abs() <= SPEED_MAX && p.vel.y.abs() <= SPEED_MAX);
        assert!(p.vel.x != 0 || p.vel.y != 0);
    }
}

/// A viewport too small for the inset pins every particle at the centre
/// instead of failing.
#[test]
fn reset_degenerate_viewport_pins_centre() {
    let r = 4 * SCALE;
    let (w, h) = (3 * SCALE, 480 * SCALE);
    let mut rng = SeededRng::new(9);
    let mut points: Vec<Point> = Vec::new();
    reset_points(&mut points, &mut rng, 10, r, w, h);
    for p in &points {
        assert_eq!(p.pos.x, w / 2);
        assert!(r <= p.pos.y && p.pos.y <= h - r);
    }
}

/// An empty population is a no-op everywhere, not a fault.
#[test]
fn empty_population_steps_quietly() {
    let mut world = World { points: Vec::new(), grab: Grab::Idle };
    world.step(
        SCALE / 60,
        100 * SCALE,
        100 * SCALE,
        4 * SCALE,
        Vec2 { x: 0, y: 0 },
        Vec2 { x: 0, y: 0 },
        THROW_CAP,
    );
    assert_eq!(world.points.len(), 0);
}

/// A world reset reseeds the population and drops any grab; equal seeds give
/// equal worlds.
#[test]
fn world_reset_reseeds_and_releases() {
    let mut rng1 = SeededRng::new(5);
    let mut rng2 = SeededRng::new(5);
    let mut w1 = World::new();
    let mut w2 = World {
        points: vec![pt(1, 2, 3, 4)],
        grab: Grab::Held(0),
    };
    w1.reset(&mut rng1, 30, 4 * SCALE, 320 * SCALE, 240 * SCALE);
    w2.reset(&mut rng2, 30, 4 * SCALE, 320 * SCALE, 240 * SCALE);
    assert_eq!(w2.grab, Grab::Idle);
    assert_eq!(w1.points, w2.points);
    assert_eq!(w1.points.len(), 30);
}

/// Random velocities stay within the speed cap on each component.
#[test]
fn rand_vel_within_speed_bounds() {
    let mut rng = SeededRng::new(1234);
    for _ in 0..100 {
        let v = rand_vel(&mut rng);
        assert!(v.x.abs() <= SPEED_MAX);
        assert!(v.y.abs() <= SPEED_MAX);
        assert!(v.x != 0 || v.y != 0);
    }
}

/// The pointer velocity estimate is displacement over the clamped delta.
#[test]
fn pointer_velocity_estimate() {
    let mouse = Vec2 { x: 2 * SCALE, y: 0 };
    let last = Vec2 { x: SCALE, y: 0 };
    let v = pointer_velocity(mouse, last, SCALE / 2);
    assert_eq!(v, Vec2 { x: 2 * SCALE, y: 0 });
    // dt of zero divides by one step instead of faulting.
    let v0 = pointer_velocity(mouse, last, 0);
    assert_eq!(v0, Vec2 { x: SCALE * SCALE, y: 0 });
}

/// Magnitude clamping keeps short vectors and rescales long ones along
/// their own direction.
#[test]
fn clamp_magnitude_caps_speed() {
    let v = Vec2 { x: 3 * SCALE, y: 4 * SCALE };
    assert_eq!(clamp_magnitude(v, 5 * SCALE), v);
    let c = clamp_magnitude(v, SCALE);
    assert_eq!(c, Vec2 { x: 600, y: 800 });
}
