//! Velocity-Verlet integration in two half steps around a force update.
use vstd::prelude::*;
use crate::arith::{tdiv, div_trunc, div_floor, lemma_tdiv_bound, lemma_floor_div_bound, lemma_mul_abs_bound};
use vstd::arithmetic::div_mod::{lemma_fundamental_div_mod, lemma_mod_bound};
use crate::body::{Body, Config, Vec2, bounded, MAX_COORD, MAX_DT_NUM, MAX_DT_DEN};
use crate::forces::{FORCE_POS_LIMIT, NET_FORCE_LIMIT};

verus! {

/// Bound on velocity components once collisions have been resolved.
pub const RESOLVED_VEL_LIMIT: i128 = 0x4000_0000;

/// Sub-units per length unit for the time step `num / den`.
pub open spec fn sub_units(den: int) -> int {
    2 * den * den
}

/// A coordinate in sub-units: whole units `p` and remainder `r`.
pub open spec fn exact_coord(p: int, r: int, den: int) -> int {
    p * sub_units(den) + r
}

/// The increment `v*dt + a*dt^2/2` of one coordinate over the step
/// `dt = num / den`, in sub-units; exact.
pub open spec fn increment(v: int, a: int, num: int, den: int) -> int {
    2 * v * num * den + a * num * num
}

/// One coordinate after a time step from whole units `p` and remainder `r`
/// at velocity `v` and acceleration `a`: the new whole units and remainder.
pub open spec fn advance_coord(p: int, r: int, v: int, a: int, num: int, den: int) -> (int, int) {
    let t = r + increment(v, a, num, den);
    (p + t / sub_units(den), t % sub_units(den))
}

/// One velocity component after a time step, using the average of the two
/// acceleration samples: `v + (a_cur + a_prev) * dt / 2`, the increment
/// rounded toward zero.
pub open spec fn settle_coord(v: int, a_cur: int, a_prev: int, num: int, den: int) -> int {
    v + tdiv((a_cur + a_prev) * num, 2 * den)
}

/// The position update of one body: the old position is kept as the
/// previous position.
pub open spec fn moved(b: Body, cfg: Config) -> Body {
    Body {
        previous_position: b.position,
        position: Vec2 {
            x: advance_coord(
                b.position.x as int,
                b.position_remainder.x as int,
                b.velocity.x as int,
                b.acceleration_current.x as int,
                cfg.dt_num as int,
                cfg.dt_den as int,
            ).0 as i128,
            y: advance_coord(
                b.position.y as int,
                b.position_remainder.y as int,
                b.velocity.y as int,
                b.acceleration_current.y as int,
                cfg.dt_num as int,
                cfg.dt_den as int,
            ).0 as i128,
        },
        position_remainder: Vec2 {
            x: advance_coord(
                b.position.x as int,
                b.position_remainder.x as int,
                b.velocity.x as int,
                b.acceleration_current.x as int,
                cfg.dt_num as int,
                cfg.dt_den as int,
            ).1 as i128,
            y: advance_coord(
                b.position.y as int,
                b.position_remainder.y as int,
                b.velocity.y as int,
                b.acceleration_current.y as int,
                cfg.dt_num as int,
                cfg.dt_den as int,
            ).1 as i128,
        },
        ..b
    }
}

/// The acceleration update of one body: the current sample becomes the
/// previous one, and the new one is force over mass, rounded toward zero.
pub open spec fn accelerated(b: Body) -> Body {
    Body {
        acceleration_previous: b.acceleration_current,
        acceleration_current: Vec2 {
            x: tdiv(b.force.x as int, b.mass as int) as i128,
            y: tdiv(b.force.y as int, b.mass as int) as i128,
        },
        ..b
    }
}

/// The velocity update of one body.
pub open spec fn settled(b: Body, cfg: Config) -> Body {
    Body {
        velocity: Vec2 {
            x: settle_coord(
                b.velocity.x as int,
                b.acceleration_current.x as int,
                b.acceleration_previous.x as int,
                cfg.dt_num as int,
                cfg.dt_den as int,
            ) as i128,
            y: settle_coord(
                b.velocity.y as int,
                b.acceleration_current.y as int,
                b.acceleration_previous.y as int,
                cfg.dt_num as int,
                cfg.dt_den as int,
            ) as i128,
        },
        ..b
    }
}

pub open spec fn all_moved(s: Seq<Body>, cfg: Config) -> Seq<Body> {
    Seq::new(s.len(), |k: int| moved(s[k], cfg))
}

pub open spec fn all_accelerated(s: Seq<Body>) -> Seq<Body> {
    Seq::new(s.len(), |k: int| accelerated(s[k]))
}

pub open spec fn all_settled(s: Seq<Body>, cfg: Config) -> Seq<Body> {
    Seq::new(s.len(), |k: int| settled(s[k], cfg))
}

/// A step starts from bodies whose every vector is within `MAX_COORD`.
pub open spec fn step_ready(s: Seq<Body>) -> bool {
    forall|k: int| #![trigger s[k]] 0 <= k < s.len() ==> s[k].wf() && s[k].state_within(MAX_COORD as int)
}

/// The position update is exact in sub-units: whole units and remainder
/// together advance by exactly `v*dt + a*dt^2/2`, and the remainder stays
/// below one unit. With no acceleration a body thus moves by exactly
/// `v*dt` each step.
pub proof fn lemma_advance_exact(p: int, r: int, v: int, a: int, num: int, den: int)
    requires
        den > 0,
    ensures
        exact_coord(advance_coord(p, r, v, a, num, den).0, advance_coord(p, r, v, a, num, den).1, den)
            == exact_coord(p, r, den) + increment(v, a, num, den),
        0 <= advance_coord(p, r, v, a, num, den).1 < sub_units(den),
{
    let d = sub_units(den);
    assert(d > 0) by (nonlinear_arith)
        requires d == 2 * den * den, den > 0;
    let t = r + increment(v, a, num, den);
    lemma_fundamental_div_mod(t, d);
    lemma_mod_bound(t, d);
    assert((p + t / d) * d + t % d == p * d + r + increment(v, a, num, den)) by (nonlinear_arith)
        requires t == d * (t / d) + t % d, t == r + increment(v, a, num, den);
}

/// From a state within `MAX_COORD`, a position update stays well within
/// `FORCE_POS_LIMIT` and leaves a remainder below one unit.
pub proof fn lemma_advance_range(p: int, r: int, v: int, a: int, num: int, den: int)
    requires
        -MAX_COORD <= p <= MAX_COORD,
        -MAX_COORD <= r <= MAX_COORD,
        -MAX_COORD <= v <= MAX_COORD,
        -MAX_COORD <= a <= MAX_COORD,
        0 < num <= MAX_DT_NUM,
        0 < den <= MAX_DT_DEN,
    ensures
        -FORCE_POS_LIMIT <= advance_coord(p, r, v, a, num, den).0 <= FORCE_POS_LIMIT,
        0 <= advance_coord(p, r, v, a, num, den).1 < 0x20_0000,
        -(0x10_0000_0000 * (2 * den * den)) <= r + 2 * v * num * den + a * num * num <= 0x10_0000_0000 * (2
            * den * den),
        0 < 2 * den * den <= 0x20_0000,
{
    let m: int = 0x10_0000_0000;
    assert(0 < 2 * den * den <= 0x20_0000) by (nonlinear_arith)
        requires 0 < den <= MAX_DT_DEN;
    assert(-(m * (2 * den * den)) <= r + 2 * v * num * den + a * num * num <= m * (2 * den * den))
        by (nonlinear_arith)
        requires
            -MAX_COORD <= r <= MAX_COORD,
            -MAX_COORD <= v <= MAX_COORD,
            -MAX_COORD <= a <= MAX_COORD,
            0 < num <= MAX_DT_NUM,
            0 < den <= MAX_DT_DEN,
            m == 0x10_0000_0000,
    ;
    lemma_floor_div_bound(r + 2 * v * num * den + a * num * num, 2 * den * den, m);
    lemma_advance_exact(p, r, v, a, num, den);
}

fn advance_coord_exec(p: i128, r: i128, v: i128, a: i128, num: i128, den: i128) -> (res: (i128, i128))
    requires
        -MAX_COORD <= p <= MAX_COORD,
        -MAX_COORD <= r <= MAX_COORD,
        -MAX_COORD <= v <= MAX_COORD,
        -MAX_COORD <= a <= MAX_COORD,
        0 < num <= MAX_DT_NUM,
        0 < den <= MAX_DT_DEN,
    ensures
        res.0 == advance_coord(p as int, r as int, v as int, a as int, num as int, den as int).0,
        res.1 == advance_coord(p as int, r as int, v as int, a as int, num as int, den as int).1,
        -FORCE_POS_LIMIT <= res.0 <= FORCE_POS_LIMIT,
        0 <= res.1 < 0x20_0000,
{
    proof {
        lemma_mul_abs_bound(2 * v, num as int, 2 * MAX_COORD, MAX_DT_NUM as int);
        lemma_mul_abs_bound(2 * v * num, den as int, 2 * MAX_COORD * MAX_DT_NUM, MAX_DT_DEN as int);
        lemma_mul_abs_bound(a as int, num as int, MAX_COORD as int, MAX_DT_NUM as int);
        lemma_mul_abs_bound(a * num, num as int, MAX_COORD * MAX_DT_NUM, MAX_DT_NUM as int);
        lemma_advance_range(p as int, r as int, v as int, a as int, num as int, den as int);
    }
    let (q, rem) = div_floor(r + 2 * v * num * den + a * num * num, 2 * den * den);
    (p + q, rem)
}

/// Position half of the integrator: each body keeps its position as its
/// previous position and moves by `v*dt + a_cur*dt^2/2`.
pub fn first_half_step_velocity(bodies: &mut Vec<Body>, cfg: &Config)
    requires
        cfg.wf(),
        step_ready(old(bodies)@),
    ensures
        final(bodies)@ == all_moved(old(bodies)@, *cfg),
        forall|k: int|
            0 <= k < final(bodies)@.len() ==> bounded(
                #[trigger] final(bodies)@[k].position,
                FORCE_POS_LIMIT as int,
            ),
{
    let ghost s = bodies@;
    let n = bodies.len();
    let mut i: usize = 0;
    while i < n
        invariant
            n == bodies@.len() == s.len(),
            cfg.wf(),
            step_ready(s),
            i <= n,
            forall|k: int| 0 <= k < n ==> #[trigger] bodies@[k] == (if k < i { moved(s[k], *cfg) } else { s[k] }),
            forall|k: int| 0 <= k < i ==> bounded(#[trigger] bodies@[k].position, FORCE_POS_LIMIT as int),
        decreases n - i,
    {
        let mut b = bodies[i];
        assert(s[i as int].wf() && s[i as int].state_within(MAX_COORD as int));
        let x = advance_coord_exec(
            b.position.x,
            b.position_remainder.x,
            b.velocity.x,
            b.acceleration_current.x,
            cfg.dt_num,
            cfg.dt_den,
        );
        let y = advance_coord_exec(
            b.position.y,
            b.position_remainder.y,
            b.velocity.y,
            b.acceleration_current.y,
            cfg.dt_num,
            cfg.dt_den,
        );
        b.previous_position = b.position;
        b.position = Vec2 { x: x.0, y: y.0 };
        b.position_remainder = Vec2 { x: x.1, y: y.1 };
        bodies.set(i, b);
        i = i + 1;
    }
    assert(bodies@ =~= all_moved(s, *cfg));
}

/// Shifts each body's current acceleration into the previous sample and sets
/// the current one to force over mass.
pub fn apply_force(bodies: &mut Vec<Body>)
    requires
        forall|k: int|
            0 <= k < old(bodies)@.len() ==> #[trigger] old(bodies)@[k].wf() && bounded(
                old(bodies)@[k].force,
                NET_FORCE_LIMIT as int,
            ),
    ensures
        final(bodies)@ == all_accelerated(old(bodies)@),
        forall|k: int|
            0 <= k < final(bodies)@.len() ==> bounded(
                #[trigger] final(bodies)@[k].acceleration_current,
                NET_FORCE_LIMIT as int,
            ),
{
    let ghost s = bodies@;
    let n = bodies.len();
    let mut i: usize = 0;
    while i < n
        invariant
            n == bodies@.len() == s.len(),
            i <= n,
            forall|k: int|
                0 <= k < n ==> #[trigger] s[k].wf() && bounded(s[k].force, NET_FORCE_LIMIT as int),
            forall|k: int| 0 <= k < n ==> #[trigger] bodies@[k] == (if k < i { accelerated(s[k]) } else { s[k] }),
            forall|k: int|
                0 <= k < i ==> bounded(#[trigger] bodies@[k].acceleration_current, NET_FORCE_LIMIT as int),
        decreases n - i,
    {
        let mut b = bodies[i];
        assert(s[i as int].wf());
        proof {
            assert(NET_FORCE_LIMIT * b.mass >= NET_FORCE_LIMIT) by (nonlinear_arith)
                requires b.mass >= 1;
            lemma_tdiv_bound(b.force.x as int, b.mass as int, NET_FORCE_LIMIT as int);
            lemma_tdiv_bound(b.force.y as int, b.mass as int, NET_FORCE_LIMIT as int);
        }
        b.acceleration_previous = b.acceleration_current;
        b.acceleration_current = Vec2 { x: div_trunc(b.force.x, b.mass), y: div_trunc(b.force.y, b.mass) };
        bodies.set(i, b);
        i = i + 1;
    }
    assert(bodies@ =~= all_accelerated(s));
}

/// Velocity half of the integrator: each body's velocity grows by the average
/// of its two acceleration samples times `dt`.
pub fn final_half_step_velocity(bodies: &mut Vec<Body>, cfg: &Config)
    requires
        cfg.wf(),
        forall|k: int|
            0 <= k < old(bodies)@.len() ==> {
                &&& bounded(#[trigger] old(bodies)@[k].velocity, RESOLVED_VEL_LIMIT as int)
                &&& bounded(old(bodies)@[k].acceleration_current, NET_FORCE_LIMIT as int)
                &&& bounded(old(bodies)@[k].acceleration_previous, NET_FORCE_LIMIT as int)
            },
    ensures
        final(bodies)@ == all_settled(old(bodies)@, *cfg),
{
    let ghost s = bodies@;
    let n = bodies.len();
    let mut i: usize = 0;
    while i < n
        invariant
            n == bodies@.len() == s.len(),
            cfg.wf(),
            i <= n,
            forall|k: int|
                0 <= k < n ==> {
                    &&& bounded(#[trigger] s[k].velocity, RESOLVED_VEL_LIMIT as int)
                    &&& bounded(s[k].acceleration_current, NET_FORCE_LIMIT as int)
                    &&& bounded(s[k].acceleration_previous, NET_FORCE_LIMIT as int)
                },
            forall|k: int| 0 <= k < n ==> #[trigger] bodies@[k] == (if k < i { settled(s[k], *cfg) } else { s[k] }),
        decreases n - i,
    {
        let mut b = bodies[i];
        assert(bounded(s[i as int].velocity, RESOLVED_VEL_LIMIT as int));
        proof {
            let lim = 2 * NET_FORCE_LIMIT;
            lemma_mul_abs_bound(b.acceleration_current.x + b.acceleration_previous.x, cfg.dt_num as int, lim, MAX_DT_NUM as int);
            lemma_mul_abs_bound(b.acceleration_current.y + b.acceleration_previous.y, cfg.dt_num as int, lim, MAX_DT_NUM as int);
            lemma_tdiv_bound((b.acceleration_current.x + b.acceleration_previous.x) * cfg.dt_num, 2 * cfg.dt_den as int, lim * MAX_DT_NUM);
            lemma_tdiv_bound((b.acceleration_current.y + b.acceleration_previous.y) * cfg.dt_num, 2 * cfg.dt_den as int, lim * MAX_DT_NUM);
            assert(lim * MAX_DT_NUM <= lim * MAX_DT_NUM * (2 * cfg.dt_den)) by (nonlinear_arith)
                requires cfg.dt_den >= 1, lim * MAX_DT_NUM >= 0;
        }
        let vx = b.velocity.x + div_trunc((b.acceleration_current.x + b.acceleration_previous.x) * cfg.dt_num, 2 * cfg.dt_den);
        let vy = b.velocity.y + div_trunc((b.acceleration_current.y + b.acceleration_previous.y) * cfg.dt_num, 2 * cfg.dt_den);
        b.velocity = Vec2 { x: vx, y: vy };
        bodies.set(i, b);
        i = i + 1;
    }
    assert(bodies@ =~= all_settled(s, *cfg));
}

/// One component of a vector: `y` when `second`, else `x`.
pub open spec fn component(v: Vec2, second: bool) -> int {
    if second {
        v.y as int
    } else {
        v.x as int
    }
}

/// The momentum change of the velocity update, summed over the bodies
/// below `hi`: `sum m * (v_new - v)` in one component.
pub open spec fn momentum_change(s: Seq<Body>, hi: int, cfg: Config, second: bool) -> int
    decreases hi,
{
    if hi <= 0 {
        0
    } else {
        let b = s[hi - 1];
        let v = component(b.velocity, second);
        momentum_change(s, hi - 1, cfg, second) + b.mass * (settle_coord(
            v,
            component(b.acceleration_current, second),
            component(b.acceleration_previous, second),
            cfg.dt_num as int,
            cfg.dt_den as int,
        ) - v)
    }
}

/// `sum m * (a_cur + a_prev)` over the bodies below `hi`, in one component.
pub open spec fn weighted_acceleration(s: Seq<Body>, hi: int, second: bool) -> int
    decreases hi,
{
    if hi <= 0 {
        0
    } else {
        let b = s[hi - 1];
        weighted_acceleration(s, hi - 1, second) + b.mass * (component(b.acceleration_current, second)
            + component(b.acceleration_previous, second))
    }
}

/// The sum of the masses of the bodies below `hi`.
pub open spec fn mass_total(s: Seq<Body>, hi: int) -> int
    decreases hi,
{
    if hi <= 0 {
        0
    } else {
        mass_total(s, hi - 1) + s[hi - 1].mass
    }
}

proof fn lemma_tdiv_error(x: int, d: int)
    requires
        d > 0,
    ensures
        -d < d * tdiv(x, d) - x < d,
{
    if x >= 0 {
        lemma_fundamental_div_mod(x, d);
        lemma_mod_bound(x, d);
    } else {
        lemma_fundamental_div_mod(-x, d);
        lemma_mod_bound(-x, d);
        assert(d * tdiv(x, d) == -(d * ((-x) / d))) by (nonlinear_arith)
            requires tdiv(x, d) == -((-x) / d);
    }
}

/// Momentum under the velocity update, up to rounding: scaled by
/// `2 * dt_den`, the change of total momentum differs from
/// `dt_num * sum m (a_cur + a_prev)` (that is, `dt * sum m (a_cur + a_prev) / 2`
/// scaled alike) by at most `2 * dt_den` times the total mass. So when the
/// mass-weighted accelerations sum to zero, as pairwise forces make them up to
/// the rounding of force over mass, the momentum changes by less than the
/// total mass in velocity units.
pub proof fn lemma_settle_momentum(s: Seq<Body>, hi: int, cfg: Config, second: bool)
    requires
        cfg.wf(),
        0 <= hi <= s.len(),
        forall|k: int| #![trigger s[k]] 0 <= k < s.len() ==> s[k].wf(),
    ensures
        -(2 * cfg.dt_den * mass_total(s, hi)) <= 2 * cfg.dt_den * momentum_change(s, hi, cfg, second)
            - cfg.dt_num * weighted_acceleration(s, hi, second) <= 2 * cfg.dt_den * mass_total(s, hi),
    decreases hi,
{
    if hi > 0 {
        lemma_settle_momentum(s, hi - 1, cfg, second);
        let b = s[hi - 1];
        assert(b.wf());
        let d = 2 * cfg.dt_den;
        let sum_a = component(b.acceleration_current, second) + component(b.acceleration_previous, second);
        let x = sum_a * cfg.dt_num;
        let q = tdiv(x, d);
        lemma_tdiv_error(x, d);
        let m = b.mass as int;
        assert(settle_coord(component(b.velocity, second), component(b.acceleration_current, second),
            component(b.acceleration_previous, second), cfg.dt_num as int, cfg.dt_den as int)
            - component(b.velocity, second) == q);
        assert(-(d * m) <= d * (m * q) - cfg.dt_num * (m * sum_a) <= d * m) by (nonlinear_arith)
            requires -d < d * q - x < d, x == sum_a * cfg.dt_num, m >= 1;
        assert(2 * cfg.dt_den * (momentum_change(s, hi - 1, cfg, second) + m * q) == 2 * cfg.dt_den
            * momentum_change(s, hi - 1, cfg, second) + d * (m * q)) by (nonlinear_arith)
            requires d == 2 * cfg.dt_den;
        assert(cfg.dt_num * (weighted_acceleration(s, hi - 1, second) + m * sum_a) == cfg.dt_num
            * weighted_acceleration(s, hi - 1, second) + cfg.dt_num * (m * sum_a)) by (nonlinear_arith);
        assert(2 * cfg.dt_den * (mass_total(s, hi - 1) + m) == 2 * cfg.dt_den * mass_total(s, hi - 1) + d * m)
            by (nonlinear_arith)
            requires d == 2 * cfg.dt_den;
    }
}

/// `sum F` over the bodies below `hi`, in one component.
pub open spec fn force_total(s: Seq<Body>, hi: int, second: bool) -> int
    decreases hi,
{
    if hi <= 0 {
        0
    } else {
        force_total(s, hi - 1, second) + component(s[hi - 1].force, second)
    }
}

/// `sum m * (F / m)` over the bodies below `hi`, in one component, with the
/// quotient rounded toward zero as the acceleration update computes it.
pub open spec fn mass_times_new_acceleration(s: Seq<Body>, hi: int, second: bool) -> int
    decreases hi,
{
    if hi <= 0 {
        0
    } else {
        let b = s[hi - 1];
        mass_times_new_acceleration(s, hi - 1, second) + b.mass * tdiv(component(b.force, second), b.mass as int)
    }
}

/// The acceleration update keeps `sum m * a` within the total mass of
/// `sum F`; with forces that cancel in total, the new mass-weighted
/// accelerations sum to less than the total mass in magnitude.
pub proof fn lemma_accelerate_momentum(s: Seq<Body>, hi: int, second: bool)
    requires
        0 <= hi <= s.len(),
        forall|k: int| #![trigger s[k]] 0 <= k < s.len() ==> s[k].wf(),
    ensures
        -mass_total(s, hi) <= mass_times_new_acceleration(s, hi, second) - force_total(s, hi, second)
            <= mass_total(s, hi),
    decreases hi,
{
    if hi > 0 {
        lemma_accelerate_momentum(s, hi - 1, second);
        let b = s[hi - 1];
        assert(b.wf());
        lemma_tdiv_error(component(b.force, second), b.mass as int);
    }
}

} // verus!
