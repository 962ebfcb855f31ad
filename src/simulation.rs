//! The simulation: an owned set of bodies and the fixed-step pipeline over
//! them.
use vstd::prelude::*;
use crate::body::{Body, Config, SimError, Vec2, bounded, MAX_BODIES, MAX_COORD, MAX_MASS};
use crate::forces::{
    with_forces, forces_ready, calculate_gravitational_force, FORCE_POS_LIMIT, NET_FORCE_LIMIT,
};
use crate::integrator::{
    all_moved, all_accelerated, all_settled, step_ready, first_half_step_velocity, apply_force,
    final_half_step_velocity, RESOLVED_VEL_LIMIT,
};
use crate::collision::{resolve_all, resolvable, continuous_collision_detection};
use crate::center::{center_ready, center_of_mass_of, center_of_mass};
use crate::forces::{net_force, force_sum};
use crate::integrator::{
    exact_coord, increment, lemma_advance_exact, lemma_advance_range, moved, accelerated, settled,
};
use crate::collision::resolve_from;
use crate::arith::tdiv;

verus! {

/// A set of bodies and the configuration that moves them.
pub struct Simulation {
    pub bodies: Vec<Body>,
    pub config: Config,
}

/// A step can start: the configuration is valid, there are not too many
/// bodies, and every body is valid with all its vectors within `MAX_COORD`.
pub open spec fn ready(s: Seq<Body>, cfg: Config) -> bool {
    cfg.wf() && s.len() <= MAX_BODIES && step_ready(s)
}

/// The bodies after the part of a step that follows the collision pass:
/// forces recomputed, accelerations shifted and renewed, velocities updated.
pub open spec fn after_forces(s: Seq<Body>, cfg: Config) -> Seq<Body> {
    all_settled(all_accelerated(with_forces(s, cfg)), cfg)
}

/// One fixed step: position half, collision pass when enabled, force
/// recomputation, acceleration update, velocity half. `None` when the step
/// cannot start or the collision pass meets a pair out of range.
pub open spec fn step_result(s: Seq<Body>, cfg: Config) -> Option<Seq<Body>> {
    if !ready(s, cfg) {
        None
    } else {
        let moved = all_moved(s, cfg);
        if cfg.collisions {
            match resolve_all(moved, cfg) {
                None => None,
                Some(r) => Some(after_forces(r, cfg)),
            }
        } else {
            Some(after_forces(moved, cfg))
        }
    }
}

fn check_ready(bodies: &Vec<Body>, cfg: &Config) -> (r: bool)
    ensures
        r == ready(bodies@, *cfg),
{
    if !(0 < cfg.dt_num && cfg.dt_num <= crate::body::MAX_DT_NUM && 0 < cfg.dt_den && cfg.dt_den
        <= crate::body::MAX_DT_DEN && 0 <= cfg.g && cfg.g <= crate::body::MAX_G && 0
        <= cfg.min_distance && cfg.min_distance <= MAX_COORD) {
        return false;
    }
    if bodies.len() > MAX_BODIES {
        return false;
    }
    let mut i: usize = 0;
    while i < bodies.len()
        invariant
            i <= bodies@.len(),
            bodies@.len() <= MAX_BODIES,
            cfg.wf(),
            forall|k: int| #![trigger bodies@[k]] 0 <= k < i ==> bodies@[k].wf() && bodies@[k].state_within(MAX_COORD as int),
        decreases bodies@.len() - i,
    {
        if !bodies[i].in_step_range() {
            return false;
        }
        i = i + 1;
    }
    true
}

fn check_center_ready(bodies: &Vec<Body>) -> (r: bool)
    ensures
        r == center_ready(bodies@),
{
    if bodies.len() > MAX_BODIES {
        return false;
    }
    let mut i: usize = 0;
    while i < bodies.len()
        invariant
            i <= bodies@.len() <= MAX_BODIES,
            forall|k: int| #![trigger bodies@[k]] 0 <= k < i ==> bodies@[k].wf() && bounded(
                bodies@[k].position,
                FORCE_POS_LIMIT as int,
            ),
        decreases bodies@.len() - i,
    {
        let b = &bodies[i];
        if !(0 < b.mass && b.mass <= MAX_MASS && 0 <= b.radius && b.radius <= MAX_COORD
            && -FORCE_POS_LIMIT <= b.position.x && b.position.x <= FORCE_POS_LIMIT
            && -FORCE_POS_LIMIT <= b.position.y && b.position.y <= FORCE_POS_LIMIT) {
            return false;
        }
        i = i + 1;
    }
    true
}

/// A lone body feels no force: with no acceleration it keeps its velocity,
/// and each step moves it by exactly `v * dt` (counted in sub-units), so over
/// many steps it follows a straight line at constant speed.
pub proof fn lemma_single_body_moves_straight(b: Body, cfg: Config)
    requires
        ready(seq![b], cfg),
        b.acceleration_current == (Vec2 { x: 0, y: 0 }),
        b.acceleration_previous == (Vec2 { x: 0, y: 0 }),
    ensures
        step_result(seq![b], cfg) is Some,
        step_result(seq![b], cfg) matches Some(s) ==> {
            &&& s.len() == 1
            &&& s[0].velocity == b.velocity
            &&& s[0].acceleration_current == (Vec2 { x: 0, y: 0 })
            &&& s[0].acceleration_previous == (Vec2 { x: 0, y: 0 })
            &&& exact_coord(s[0].position.x as int, s[0].position_remainder.x as int, cfg.dt_den as int)
                == exact_coord(b.position.x as int, b.position_remainder.x as int, cfg.dt_den as int)
                + increment(b.velocity.x as int, 0, cfg.dt_num as int, cfg.dt_den as int)
            &&& exact_coord(s[0].position.y as int, s[0].position_remainder.y as int, cfg.dt_den as int)
                == exact_coord(b.position.y as int, b.position_remainder.y as int, cfg.dt_den as int)
                + increment(b.velocity.y as int, 0, cfg.dt_num as int, cfg.dt_den as int)
        },
{
    let s0 = seq![b];
    assert(s0[0] == b);
    assert(b.wf() && b.state_within(MAX_COORD as int));
    let m = all_moved(s0, cfg);
    assert(m[0] == moved(b, cfg));
    lemma_advance_exact(b.position.x as int, b.position_remainder.x as int, b.velocity.x as int, 0, cfg.dt_num as int, cfg.dt_den as int);
    lemma_advance_exact(b.position.y as int, b.position_remainder.y as int, b.velocity.y as int, 0, cfg.dt_num as int, cfg.dt_den as int);
    lemma_advance_range(b.position.x as int, b.position_remainder.x as int, b.velocity.x as int, 0, cfg.dt_num as int, cfg.dt_den as int);
    lemma_advance_range(b.position.y as int, b.position_remainder.y as int, b.velocity.y as int, 0, cfg.dt_num as int, cfg.dt_den as int);
    assert(resolve_from(m, cfg, 0, 1) == resolve_from(m, cfg, 1, 2));
    assert(resolve_from(m, cfg, 1, 2) == Some(m));
    assert(force_sum(m, 0, 1, cfg) == force_sum(m, 0, 0, cfg));
    assert(net_force(m, 0, cfg) == (0int, 0int));
    let f = with_forces(m, cfg);
    assert(f[0].force == (Vec2 { x: 0, y: 0 }));
    let a = all_accelerated(f);
    assert(a[0] == accelerated(f[0]));
    assert(tdiv(0, f[0].mass as int) == 0);
    let v = all_settled(a, cfg);
    assert(v[0] == settled(a[0], cfg));
    assert(tdiv(0 * cfg.dt_num, 2 * cfg.dt_den) == 0);
}

impl Simulation {
    /// The center of mass of the bodies, rounded toward zero; `None` when
    /// there are no bodies or a position is beyond `FORCE_POS_LIMIT`.
    pub fn center_of_mass(&self) -> (r: Option<Vec2>)
        ensures
            !center_ready(self.bodies@) ==> r is None,
            center_ready(self.bodies@) ==> (r is None <==> self.bodies@.len() == 0),
            r matches Some(c) ==> center_of_mass_of(self.bodies@) == Some((c.x as int, c.y as int)),
    {
        if check_center_ready(&self.bodies) && self.bodies.len() > 0 {
            Some(center_of_mass(&self.bodies))
        } else {
            None
        }
    }

    /// Builds a simulation from valid bodies and a valid configuration.
    pub fn new(bodies: Vec<Body>, config: Config) -> (r: Result<Simulation, SimError>)
        ensures
            r is Ok <==> ready(bodies@, config),
            r matches Ok(sim) ==> sim.bodies@ == bodies@ && sim.config == config,
            r is Err ==> r == Err::<Simulation, SimError>(SimError::ValueOutOfRange),
    {
        if check_ready(&bodies, &config) {
            Ok(Simulation { bodies, config })
        } else {
            Err(SimError::ValueOutOfRange)
        }
    }

    /// Advances the simulation by one fixed step. On `Err` nothing changes.
    pub fn step(&mut self) -> (r: Result<(), SimError>)
        ensures
            final(self).config == old(self).config,
            step_result(old(self).bodies@, old(self).config) matches Some(s) ==> r is Ok
                && final(self).bodies@ == s,
            step_result(old(self).bodies@, old(self).config) is None ==> r == Err::<(), SimError>(
                SimError::ValueOutOfRange,
            ) && final(self).bodies@ == old(self).bodies@,
    {
        let cfg = self.config;
        if !check_ready(&self.bodies, &cfg) {
            return Err(SimError::ValueOutOfRange);
        }
        let ghost s0 = self.bodies@;
        let mut work = self.bodies.clone();
        assert(work@ =~= s0);
        assert(step_ready(s0));
        first_half_step_velocity(&mut work, &cfg);
        let ghost moved = work@;
        assert(moved.len() == s0.len());
        if cfg.collisions {
            assert forall|k: int| 0 <= k < work@.len() implies resolvable(#[trigger] work@[k]) by {
                assert(s0[k].wf() && s0[k].state_within(MAX_COORD as int));
            }
            let res = continuous_collision_detection(&mut work, &cfg);
            if res.is_err() {
                return Err(SimError::ValueOutOfRange);
            }
        } else {
            assert forall|k: int| 0 <= k < work@.len() implies resolvable(#[trigger] work@[k]) by {
                assert(s0[k].wf() && s0[k].state_within(MAX_COORD as int));
            }
        }
        let ghost resolved = work@;
        assert forall|k: int| 0 <= k < work@.len() implies #[trigger] work@[k].wf() && bounded(
            work@[k].position,
            FORCE_POS_LIMIT as int,
        ) by {
            assert(resolvable(work@[k]));
        }
        calculate_gravitational_force(&mut work, &cfg);
        assert forall|k: int| 0 <= k < work@.len() implies #[trigger] work@[k].wf() by {
            assert(resolvable(resolved[k]));
        }
        apply_force(&mut work);
        assert forall|k: int| 0 <= k < work@.len() implies {
            &&& bounded(#[trigger] work@[k].velocity, RESOLVED_VEL_LIMIT as int)
            &&& bounded(work@[k].acceleration_current, NET_FORCE_LIMIT as int)
            &&& bounded(work@[k].acceleration_previous, NET_FORCE_LIMIT as int)
        } by {
            assert(resolvable(resolved[k]));
            assert(resolved[k].acceleration_current == moved[k].acceleration_current);
            assert(s0[k].wf() && s0[k].state_within(MAX_COORD as int));
        }
        final_half_step_velocity(&mut work, &cfg);
        self.bodies = work;
        Ok(())
    }
}

} // verus!
