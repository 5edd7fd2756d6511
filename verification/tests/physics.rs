use verlet_arena::particle::Particle;
use verlet_arena::state::{GameState, SimConfig};
use verlet_arena::vecmath::Vec2i;
use verlet_arena::world::World;

fn config(gravity: Vec2i, arena_radius: i64, particle_radius: i64) -> SimConfig {
    SimConfig {
        gravity,
        arena_center: Vec2i::new(0, 0),
        arena_radius,
        particle_radius,
    }
}

fn dist2(a: Vec2i, b: Vec2i) -> i64 {
    (a.x - b.x) * (a.x - b.x) + (a.y - b.y) * (a.y - b.y)
}

#[test]
fn resting_separated_particles_never_move() {
    let mut world = World::new();
    world.spawn(Vec2i::new(-100, 0), 1);
    world.spawn(Vec2i::new(100, 0), 2);
    world.spawn(Vec2i::new(0, 150), 3);
    let mut game = GameState {
        screen_dimensions: Vec2i::new(800, 600),
        world,
    };
    let cfg = config(Vec2i::new(0, 0), 1000, 4);
    for _ in 0..25 {
        game.update(cfg, 8);
    }
    let ps = game.world.particles();
    assert_eq!(ps.len(), 3);
    assert_eq!((ps[0].current_position.x, ps[0].current_position.y), (-100, 0));
    assert_eq!((ps[1].current_position.x, ps[1].current_position.y), (100, 0));
    assert_eq!((ps[2].current_position.x, ps[2].current_position.y), (0, 150));
}

#[test]
fn free_fall_accumulates_verlet_displacement() {
    // From rest, k integrations of step dt add g * dt * dt * k * (k + 1) / 2.
    let mut game = GameState {
        screen_dimensions: Vec2i::new(800, 600),
        world: World::new(),
    };
    game.world.spawn(Vec2i::new(0, -500000), 7);
    let cfg = config(Vec2i::new(0, 4), 1000000, 4);
    let k: i64 = 5;
    let mut expected_delta: i64 = 0;
    for step in 1..=k {
        game.update(cfg, 1);
        expected_delta += 4 * step; // the implicit velocity grows by g*dt*dt each step
        let p = &game.world.particles()[0];
        assert_eq!(p.current_position.y, -500000 + expected_delta);
        assert_eq!(p.current_position.x, 0);
    }
    assert_eq!(expected_delta, 4 * k * (k + 1) / 2);
}

#[test]
fn confine_snaps_escaped_particle_onto_boundary() {
    let mut p = Particle::new(Vec2i::new(300, 400), 0);
    p.apply_constraint(Vec2i::new(0, 0), 100, 4);
    // distance was 500, allowed radius is 96: rescaled by 96/500 toward zero
    assert_eq!((p.current_position.x, p.current_position.y), (57, 76));
    let d2 = dist2(p.current_position, Vec2i::new(0, 0));
    let l: i64 = 96;
    assert!(l * l - 4 * l - 1 <= d2 && d2 <= l * l + 2 * l);
    // direction kept: both components still positive and not grown
    assert!(p.current_position.x > 0 && p.current_position.x <= 300);
    assert!(p.current_position.y > 0 && p.current_position.y <= 400);
}

#[test]
fn confine_leaves_interior_particle_alone() {
    let mut p = Particle::new(Vec2i::new(30, -40), 0);
    p.apply_constraint(Vec2i::new(0, 0), 100, 4);
    assert_eq!((p.current_position.x, p.current_position.y), (30, -40));
}

#[test]
fn collision_separates_pair_and_keeps_midpoint() {
    let mut a = Particle::new(Vec2i::new(3, 0), 0);
    let mut b = Particle::new(Vec2i::new(0, 0), 0);
    a.check_collision(&mut b, 4);
    // overlap depth 8 - 3 = 5, half of it (floored to 2) pushed each way
    assert_eq!((a.current_position.x, a.current_position.y), (5, 0));
    assert_eq!((b.current_position.x, b.current_position.y), (-2, 0));
    // midpoint (doubled) unchanged: 3 + 0 == 5 + (-2)
    assert_eq!(a.current_position.x + b.current_position.x, 3);
    assert_eq!(a.current_position.y + b.current_position.y, 0);
    // distance is 2r up to rounding
    let d2 = dist2(a.current_position, b.current_position);
    assert!(4 * 4 * 4 - 20 * 4 - 7 <= d2 && d2 <= 4 * 4 * 4 + 8 * 4);
}

#[test]
fn collision_leaves_separated_pair_alone() {
    let mut a = Particle::new(Vec2i::new(20, 0), 0);
    let mut b = Particle::new(Vec2i::new(0, 0), 0);
    a.check_collision(&mut b, 4);
    assert_eq!(a.current_position.x, 20);
    assert_eq!(b.current_position.x, 0);
}

#[test]
fn repeated_substeps_converge_to_separation() {
    // Overlapping cluster, zero gravity: sub-stepping spreads it out until
    // every pairwise distance is at least 2r up to rounding.
    let mut game = GameState {
        screen_dimensions: Vec2i::new(800, 600),
        world: World::new(),
    };
    game.world.spawn(Vec2i::new(0, 0), 0);
    game.world.spawn(Vec2i::new(1, 0), 1);
    game.world.spawn(Vec2i::new(0, 1), 2);
    game.world.spawn(Vec2i::new(1, 1), 3);
    game.world.spawn(Vec2i::new(2, 1), 4);
    let cfg = config(Vec2i::new(0, 0), 1000, 4);
    for _ in 0..100 {
        game.update(cfg, 1);
    }
    let ps = game.world.particles();
    let r: i64 = 4;
    for i in 0..ps.len() {
        for j in (i + 1)..ps.len() {
            let d2 = dist2(ps[i].current_position, ps[j].current_position);
            assert!(
                d2 >= (2 * r - 2) * (2 * r - 2),
                "pair ({}, {}) still too close: d2 = {}",
                i,
                j,
                d2
            );
        }
    }
}

#[test]
fn spawn_appends_exactly_one_resting_particle() {
    let mut world = World::new();
    world.spawn(Vec2i::new(5, -7), 42);
    assert_eq!(world.particles().len(), 1);
    world.spawn(Vec2i::new(8, 9), 77);
    assert_eq!(world.particles().len(), 2);
    let last = &world.particles()[1];
    assert_eq!((last.current_position.x, last.current_position.y), (8, 9));
    assert_eq!((last.old_position.x, last.old_position.y), (8, 9));
    assert_eq!((last.acceleration.x, last.acceleration.y), (0, 0));
    assert_eq!(last.color, 77);
    // the earlier particle is untouched and still first in render order
    assert_eq!(world.particles()[0].color, 42);
}

#[test]
fn coincident_pair_separates_to_exact_diameter() {
    let mut world = World::new();
    world.spawn(Vec2i::new(5, 5), 0);
    world.spawn(Vec2i::new(5, 5), 1);
    world.solve_collisions(4);
    let ps = world.particles();
    // the fallback axis separates them along x, each by one radius
    assert_eq!((ps[0].current_position.x, ps[0].current_position.y), (9, 5));
    assert_eq!((ps[1].current_position.x, ps[1].current_position.y), (1, 5));
    assert_eq!(dist2(ps[0].current_position, ps[1].current_position), 64);
}

#[test]
fn freeze_zeroes_implicit_velocity() {
    let mut game = GameState {
        screen_dimensions: Vec2i::new(800, 600),
        world: World::new(),
    };
    game.world.spawn(Vec2i::new(0, 0), 0);
    let cfg = config(Vec2i::new(0, 4), 1000000, 4);
    game.update(cfg, 2);
    let moving = game.world.particles()[0];
    assert_ne!(moving.current_position.y, moving.old_position.y);
    game.world.freeze();
    let frozen = game.world.particles()[0];
    assert_eq!(frozen.current_position.y, frozen.old_position.y);
    // with gravity off it now rests
    let calm = config(Vec2i::new(0, 0), 1000000, 4);
    let before = game.world.particles()[0].current_position;
    game.update(calm, 2);
    let after = game.world.particles()[0].current_position;
    assert_eq!((before.x, before.y), (after.x, after.y));
}

#[test]
fn fill_spawns_up_to_requested_population() {
    let mut world = World::new();
    let positions = vec![Vec2i::new(1, 2), Vec2i::new(3, 4), Vec2i::new(5, 6)];
    let colors = vec![10u32, 20, 30];
    world.fill(3, &positions, &colors);
    assert_eq!(world.particles().len(), 3);
    for k in 0..3 {
        let p = &world.particles()[k];
        assert_eq!(p.current_position.x, positions[k].x);
        assert_eq!(p.current_position.y, positions[k].y);
        assert_eq!(p.color, colors[k]);
    }
    // a second fill with a smaller target changes nothing
    world.fill(2, &positions, &colors);
    assert_eq!(world.particles().len(), 3);
}

#[test]
fn advance_frame_runs_substeps_and_respects_pause() {
    let mut a = GameState {
        screen_dimensions: Vec2i::new(800, 600),
        world: World::new(),
    };
    a.world.spawn(Vec2i::new(0, -500000), 0);
    let mut b = GameState {
        screen_dimensions: Vec2i::new(800, 600),
        world: World::new(),
    };
    b.world.spawn(Vec2i::new(0, -500000), 0);
    let cfg = config(Vec2i::new(0, 4), 1000000, 4);
    // one frame of 10 ticks in 5 sub-steps equals 5 plain updates of 2 ticks
    a.advance_frame(cfg, 10, 5, false);
    for _ in 0..5 {
        b.update(cfg, 2);
    }
    assert_eq!(
        a.world.particles()[0].current_position.y,
        b.world.particles()[0].current_position.y
    );
    // paused frames change nothing
    let before = a.world.particles()[0].current_position;
    a.advance_frame(cfg, 10, 5, true);
    let after = a.world.particles()[0].current_position;
    assert_eq!((before.x, before.y), (after.x, after.y));
}

#[test]
fn accelerate_accumulates_until_integration() {
    let mut p = Particle::new(Vec2i::new(0, 0), 0);
    p.accelerate(Vec2i::new(3, -2));
    p.accelerate(Vec2i::new(1, 1));
    assert_eq!((p.acceleration.x, p.acceleration.y), (4, -1));
    p.apply_gravity(Vec2i::new(0, 5));
    assert_eq!((p.acceleration.x, p.acceleration.y), (4, 4));
    p.update(Vec2i::new(0, 0), 1);
    // the accumulator acted for dt * dt and was reset
    assert_eq!((p.current_position.x, p.current_position.y), (4, 4));
    assert_eq!((p.acceleration.x, p.acceleration.y), (0, 0));
    assert_eq!((p.old_position.x, p.old_position.y), (0, 0));
}

#[test]
fn empty_world_and_zero_substeps_are_noops() {
    let mut game = GameState {
        screen_dimensions: Vec2i::new(800, 600),
        world: World::new(),
    };
    let cfg = config(Vec2i::new(0, 2000), 350, 4);
    game.update(cfg, 2);
    assert_eq!(game.world.particles().len(), 0);
    game.world.spawn(Vec2i::new(0, 0), 0);
    let before = game.world.particles()[0].current_position;
    game.advance_frame(cfg, 16, 0, false);
    let after = game.world.particles()[0].current_position;
    assert_eq!((before.x, before.y), (after.x, after.y));
}
