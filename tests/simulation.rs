use nbody::body::{Body, Config, SimError, Vec2};
use nbody::center::center_of_mass;
use nbody::collision::{continuous_collision_detection, resolve_pair};
use nbody::forces::{calculate_gravitational_force, compute_pair_force};
use nbody::simulation::Simulation;

fn body(mass: i128, radius: i128, x: i128, y: i128, vx: i128, vy: i128) -> Body {
    Body::new(mass, radius, Vec2::new(x, y), Vec2::new(vx, vy)).unwrap()
}

fn config(g: i128, min_distance: i128, collisions: bool) -> Config {
    Config::new(1, 20, g, min_distance, collisions).unwrap()
}

fn momentum(sim: &Simulation) -> (i128, i128) {
    let mut px = 0;
    let mut py = 0;
    for b in &sim.bodies {
        px += b.mass * b.velocity.x;
        py += b.mass * b.velocity.y;
    }
    (px, py)
}

fn kinetic_energy_doubled(sim: &Simulation) -> i128 {
    sim.bodies
        .iter()
        .map(|b| b.mass * (b.velocity.x * b.velocity.x + b.velocity.y * b.velocity.y))
        .sum()
}

#[test]
fn two_body_force_points_toward_partner() {
    let mut bodies = vec![body(100, 0, 200, 0, 0, 100), body(100, 0, -200, 0, 0, -100)];
    calculate_gravitational_force(&mut bodies, &config(100000, 0, false));
    // G * 100 * 100 / 400^3 = 15.625, times the displacement (-400, 0).
    assert_eq!(bodies[0].force, Vec2::new(-6250, 0));
    assert_eq!(bodies[1].force, Vec2::new(6250, 0));
}

#[test]
fn two_body_step_recomputes_force_after_moving() {
    let bodies = vec![body(100, 0, 200, 0, 0, 100), body(100, 0, -200, 0, 0, -100)];
    let mut sim = Simulation::new(bodies, config(100000, 300, false)).unwrap();
    sim.step().unwrap();
    assert_eq!(sim.bodies[0].position, Vec2::new(200, 5));
    assert_eq!(sim.bodies[1].position, Vec2::new(-200, -5));
    assert_eq!(sim.bodies[0].previous_position, Vec2::new(200, 0));
    // Displacement (-400, -10), length 400.12 rounded up to 401:
    // (-400, -10) * 1e9 / 401^3, rounded away from zero.
    assert_eq!(sim.bodies[0].force, Vec2::new(-6204, -156));
    assert_eq!(sim.bodies[1].force, Vec2::new(6204, 156));
    assert_eq!(sim.bodies[0].acceleration_current, Vec2::new(-62, -1));
    assert_eq!(sim.bodies[0].acceleration_previous, Vec2::new(0, 0));
    // 0 + (-62 + 0) * 0.05 / 2 = -1.55, rounded toward zero.
    assert_eq!(sim.bodies[0].velocity, Vec2::new(-1, 100));
    assert_eq!(sim.bodies[1].velocity, Vec2::new(1, -100));
}

#[test]
fn softening_floor_replaces_short_distance() {
    let mut bodies = vec![body(100, 0, 50, 0, 0, 0), body(100, 0, -50, 0, 0, 0)];
    calculate_gravitational_force(&mut bodies, &config(100000, 200, false));
    // Distance 100 is raised to 200: -100 * 1e9 / 200^3 = -12500.
    assert_eq!(bodies[0].force, Vec2::new(-12500, 0));
    let mut unfloored = vec![body(100, 0, 50, 0, 0, 0), body(100, 0, -50, 0, 0, 0)];
    calculate_gravitational_force(&mut unfloored, &config(100000, 0, false));
    assert_eq!(unfloored[0].force, Vec2::new(-100000, 0));
}

#[test]
fn coincident_bodies_without_floor_feel_no_force() {
    let mut bodies = vec![body(10, 0, 7, 7, 0, 0), body(10, 0, 7, 7, 0, 0)];
    calculate_gravitational_force(&mut bodies, &config(1000, 0, false));
    assert_eq!(bodies[0].force, Vec2::new(0, 0));
    assert_eq!(bodies[1].force, Vec2::new(0, 0));
}

#[test]
fn pair_forces_are_exact_opposites() {
    let cfg = config(100000, 0, false);
    let a = body(50, 20, 250, 50, 0, 0);
    let b = body(70, 20, -200, 150, 0, 0);
    let f = compute_pair_force(&a, &b, &cfg);
    let g = compute_pair_force(&b, &a, &cfg);
    assert_eq!(f, Vec2::new(-g.x, -g.y));
    assert!(f.x < 0 && f.y > 0);
}

#[test]
fn net_forces_of_three_bodies_cancel() {
    let cfg = config(100000, 0, false);
    let mut bodies = vec![
        body(50, 20, 250, 50, 0, 0),
        body(50, 20, -200, 150, 0, 0),
        body(50, 20, -150, -150, 0, 0),
    ];
    calculate_gravitational_force(&mut bodies, &cfg);
    let sx: i128 = bodies.iter().map(|b| b.force.x).sum();
    let sy: i128 = bodies.iter().map(|b| b.force.y).sum();
    assert_eq!((sx, sy), (0, 0));
    let f01 = compute_pair_force(&bodies[0], &bodies[1], &cfg);
    let f02 = compute_pair_force(&bodies[0], &bodies[2], &cfg);
    assert_eq!(bodies[0].force, Vec2::new(f01.x + f02.x, f01.y + f02.y));
}

#[test]
fn single_body_moves_in_a_straight_line() {
    let mut sim = Simulation::new(vec![body(30, 5, 10, 20, 100, -40)], config(100000, 0, true)).unwrap();
    for k in 1..=10 {
        sim.step().unwrap();
        assert_eq!(sim.bodies[0].force, Vec2::new(0, 0));
        assert_eq!(sim.bodies[0].velocity, Vec2::new(100, -40));
        assert_eq!(sim.bodies[0].position, Vec2::new(10 + 5 * k, 20 - 2 * k));
    }
}

#[test]
fn empty_simulation_steps_without_effect() {
    let mut sim = Simulation::new(vec![], config(100000, 0, true)).unwrap();
    assert_eq!(sim.step(), Ok(()));
    assert!(sim.bodies.is_empty());
    assert_eq!(sim.center_of_mass(), None);
}

#[test]
fn head_on_collision_is_rolled_back_and_reflected() {
    let bodies = vec![body(100, 40, 50, 0, -400, 0), body(100, 40, -50, 0, 400, 0)];
    let mut sim = Simulation::new(bodies, config(0, 0, true)).unwrap();
    let energy = kinetic_energy_doubled(&sim);
    sim.step().unwrap();
    // Contact at t = 0.025 at (40, 0) and (-40, 0); the velocities swap and
    // the bodies move apart for the remaining 0.025.
    assert_eq!(sim.bodies[0].velocity, Vec2::new(400, 0));
    assert_eq!(sim.bodies[1].velocity, Vec2::new(-400, 0));
    assert_eq!(sim.bodies[0].position, Vec2::new(50, 0));
    assert_eq!(sim.bodies[1].position, Vec2::new(-50, 0));
    let gap = sim.bodies[0].position.x - sim.bodies[1].position.x;
    assert!(gap >= 80);
    assert_eq!(kinetic_energy_doubled(&sim), energy);
    assert_eq!(momentum(&sim), (0, 0));
}

#[test]
fn unequal_masses_collision_keeps_energy_and_momentum() {
    let bodies = vec![body(300, 40, 50, 0, -400, 0), body(100, 40, -50, 0, 400, 0)];
    let mut sim = Simulation::new(bodies, config(0, 0, true)).unwrap();
    let energy = kinetic_energy_doubled(&sim);
    let before = momentum(&sim);
    sim.step().unwrap();
    // 1D elastic: v1' = (300-100)/400 * -400 + 2*100/400 * 400 = 0,
    // v2' = 2*300/400 * -400 + (100-300)/400 * 400 = -800.
    assert_eq!(sim.bodies[0].velocity, Vec2::new(0, 0));
    assert_eq!(sim.bodies[1].velocity, Vec2::new(-800, 0));
    assert_eq!(momentum(&sim), before);
    assert_eq!(kinetic_energy_doubled(&sim), energy);
}

#[test]
fn resting_overlap_without_relative_motion_is_left_alone() {
    let a = body(100, 40, 30, 0, 0, 0);
    let b = body(100, 40, -30, 0, 0, 0);
    let cfg = config(100000, 0, true);
    assert_eq!(resolve_pair(&a, &b, &cfg), Some((a, b)));
}

#[test]
fn distant_paths_never_trigger_a_collision() {
    let bodies = vec![body(10, 10, 0, 0, 100, 0), body(10, 10, 1000, 200, -100, 0)];
    let mut sim = Simulation::new(bodies, config(0, 0, true)).unwrap();
    for k in 1..=5 {
        sim.step().unwrap();
        assert_eq!(sim.bodies[0].position, Vec2::new(5 * k, 0));
        assert_eq!(sim.bodies[1].position, Vec2::new(1000 - 5 * k, 200));
        assert_eq!(sim.bodies[0].velocity, Vec2::new(100, 0));
        assert_eq!(sim.bodies[1].velocity, Vec2::new(-100, 0));
    }
}

#[test]
fn collision_beyond_this_step_is_not_resolved_yet() {
    // Contact would come at t = 0.1, after the step of 0.05.
    let a = body(100, 40, 50, 0, -100, 0);
    let b = body(100, 40, -50, 0, 100, 0);
    let cfg = config(0, 0, true);
    assert_eq!(resolve_pair(&a, &b, &cfg), Some((a, b)));
}

#[test]
fn symmetric_system_keeps_momentum_and_center() {
    let bodies = vec![body(100, 0, 200, 0, 0, 100), body(100, 0, -200, 0, 0, -100)];
    let mut sim = Simulation::new(bodies, config(100000, 100, true)).unwrap();
    for _ in 0..50 {
        sim.step().unwrap();
        assert_eq!(momentum(&sim), (0, 0));
        assert_eq!(sim.center_of_mass(), Some(Vec2::new(0, 0)));
    }
}

#[test]
fn center_of_mass_is_weighted_average() {
    let bodies = vec![body(1, 0, 0, 0, 0, 0), body(3, 0, 100, -40, 0, 0)];
    assert_eq!(center_of_mass(&bodies), Vec2::new(75, -30));
    let sim = Simulation::new(bodies, config(1, 0, false)).unwrap();
    assert_eq!(sim.center_of_mass(), Some(Vec2::new(75, -30)));
}

#[test]
fn invalid_bodies_are_refused() {
    let p = Vec2::new(0, 0);
    assert_eq!(Body::new(0, 1, p, p), Err(SimError::NonPositiveMass));
    assert_eq!(Body::new(-5, 1, p, p), Err(SimError::NonPositiveMass));
    assert_eq!(Body::new(5, -1, p, p), Err(SimError::NegativeRadius));
    assert_eq!(Body::new(0x1_0001, 1, p, p), Err(SimError::MassTooLarge));
    assert_eq!(Body::new(5, 1, Vec2::new(0x100_0001, 0), p), Err(SimError::ValueOutOfRange));
    let b = Body::new(5, 1, Vec2::new(3, 4), Vec2::new(-1, 2)).unwrap();
    assert_eq!(b.previous_position, Vec2::new(3, 4));
    assert_eq!(b.force, Vec2::zero());
}

#[test]
fn invalid_configurations_are_refused() {
    assert_eq!(Config::new(0, 20, 1, 0, false), Err(SimError::InvalidTimeStep));
    assert_eq!(Config::new(1, 0, 1, 0, false), Err(SimError::InvalidTimeStep));
    assert_eq!(Config::new(65, 1, 1, 0, false), Err(SimError::InvalidTimeStep));
    assert_eq!(Config::new(1, 20, -1, 0, false), Err(SimError::InvalidConstant));
    assert_eq!(Config::new(1, 20, 1, -3, false), Err(SimError::InvalidConstant));
    assert!(Config::new(1, 20, 100000, 300, true).is_ok());
}

#[test]
fn step_out_of_range_changes_nothing() {
    let mut b = body(10, 0, 0, 0, 0, 0);
    b.velocity = Vec2::new(0x100_0001, 0);
    let mut sim = Simulation { bodies: vec![b], config: config(1, 0, false) };
    assert_eq!(sim.step(), Err(SimError::ValueOutOfRange));
    assert_eq!(sim.bodies[0], b);
    assert!(Simulation::new(vec![b], config(1, 0, false)).is_err());
}

#[test]
fn weak_force_does_not_vanish() {
    let mut bodies = vec![body(1, 0, 0, 0, 0, 0), body(1, 0, 1000, 0, 0, 0)];
    calculate_gravitational_force(&mut bodies, &config(1, 0, false));
    assert_eq!(bodies[0].force, Vec2::new(1, 0));
    assert_eq!(bodies[1].force, Vec2::new(-1, 0));
}

#[test]
fn distance_is_rounded_up() {
    // |(1, 1)| = 1.41 is taken as 2: (1, 1) * 1 / 8, rounded away from zero.
    let mut bodies = vec![body(1, 0, 0, 0, 0, 0), body(1, 0, 1, 1, 0, 0)];
    calculate_gravitational_force(&mut bodies, &config(1, 1, false));
    assert_eq!(bodies[0].force, Vec2::new(1, 1));
    let mut heavy = vec![body(100, 0, 0, 0, 0, 0), body(100, 0, 1, 1, 0, 0)];
    calculate_gravitational_force(&mut heavy, &config(8, 1, false));
    // 80000 / 8 = 10000 per component; a rounded-down distance of 1 would give 80000.
    assert_eq!(heavy[0].force, Vec2::new(10000, 10000));
}

#[test]
fn slow_motion_is_not_lost() {
    let cfg = Config::new(1, 2, 0, 0, false).unwrap();
    let mut sim = Simulation::new(vec![body(1, 0, 0, 0, 1, 0)], cfg).unwrap();
    for k in 1..=8 {
        sim.step().unwrap();
        assert_eq!(sim.bodies[0].position, Vec2::new(k / 2, 0));
        assert_eq!(sim.bodies[0].position_remainder, Vec2::new(4 * (k % 2), 0));
    }
}

#[test]
fn separating_pair_is_not_turned_round() {
    let a = body(100, 40, 100, 0, 2000, 0);
    let b = body(100, 40, 0, 0, -2000, 0);
    let cfg = config(0, 0, true);
    assert_eq!(resolve_pair(&a, &b, &cfg), Some((a, b)));
}

#[test]
fn point_masses_do_not_bounce() {
    let a = body(100, 0, 11, 0, -400, 0);
    let b = body(100, 0, -10, 0, 400, 0);
    let cfg = config(0, 0, true);
    assert_eq!(resolve_pair(&a, &b, &cfg), Some((a, b)));
}

#[test]
fn collision_pass_error_leaves_bodies_unchanged() {
    let a = body(100, 40, 300, 0, -100, 0);
    let b = body(100, 40, -300, 0, 100, 0);
    let mut c = body(100, 40, 1000, 1000, 0, 0);
    c.velocity = Vec2::new(0x200_0000, 0);
    let mut bodies = vec![a, b, c];
    let before = bodies.clone();
    let r = continuous_collision_detection(&mut bodies, &config(0, 0, true));
    assert_eq!(r, Err(SimError::ValueOutOfRange));
    assert_eq!(bodies, before);
}
