//! Pairwise gravitational force accumulation.
use vstd::prelude::*;
use crate::arith::{
    adiv, sqrt_floor, is_isqrt, isqrt, div_away, lemma_sqrt_floor_exists, lemma_adiv_bound,
    lemma_mul_abs_bound, lemma_adiv_neg, lemma_adiv_positive,
};
use vstd::arithmetic::div_mod::{lemma_fundamental_div_mod, lemma_mod_bound, lemma_div_pos_is_pos};
use crate::body::{Body, Config, Vec2, bounded, MAX_BODIES, MAX_COORD, MAX_G, MAX_MASS};

verus! {

/// Bound on positions at which forces are computed.
pub const FORCE_POS_LIMIT: i128 = 0x100_0000_0000;

/// Bound on each component of the force between two bodies.
pub const PAIR_FORCE_LIMIT: i128 = 0x10_0000_0000_0000;

/// Bound on each component of a net force.
pub const NET_FORCE_LIMIT: i128 = 0x4000_0000_0000_0000;

/// The smallest integer whose square is at least `x`.
pub open spec fn sqrt_ceil(x: int) -> int {
    let r = sqrt_floor(x);
    if r * r == x {
        r
    } else {
        r + 1
    }
}

/// The distance used in the force law between `a` and `b`: the length of
/// their displacement rounded up, so never below the true length, raised to
/// the softening floor.
pub open spec fn separation(a: Body, b: Body, cfg: Config) -> int {
    let dx = b.position.x - a.position.x;
    let dy = b.position.y - a.position.y;
    let d = sqrt_ceil(dx * dx + dy * dy);
    if d < cfg.min_distance {
        cfg.min_distance as int
    } else {
        d
    }
}

/// The gravitational force that `b` exerts on `a`:
/// `displacement * G * m_a * m_b / distance^3`, each component rounded away
/// from zero, so that a non-zero attraction never rounds to nothing.
/// Coincident bodies with no softening floor exert no force.
pub open spec fn pair_force(a: Body, b: Body, cfg: Config) -> (int, int) {
    let dx = b.position.x - a.position.x;
    let dy = b.position.y - a.position.y;
    let d = separation(a, b, cfg);
    let k = cfg.g * a.mass * b.mass;
    if d == 0 {
        (0, 0)
    } else {
        (adiv(dx * k, d * d * d), adiv(dy * k, d * d * d))
    }
}

/// Sum of the forces on body `k` from the bodies at indices below `hi`, other
/// than `k` itself.
pub open spec fn force_sum(s: Seq<Body>, k: int, hi: int, cfg: Config) -> (int, int)
    decreases hi,
{
    if hi <= 0 {
        (0, 0)
    } else {
        let prev = force_sum(s, k, hi - 1, cfg);
        if hi - 1 == k {
            prev
        } else {
            let f = pair_force(s[k], s[hi - 1], cfg);
            (prev.0 + f.0, prev.1 + f.1)
        }
    }
}

/// The net gravitational force on body `k` from all others.
pub open spec fn net_force(s: Seq<Body>, k: int, cfg: Config) -> (int, int) {
    force_sum(s, k, s.len() as int, cfg)
}

/// `s` with each body's force accumulator set to its net force.
pub open spec fn with_forces(s: Seq<Body>, cfg: Config) -> Seq<Body> {
    Seq::new(
        s.len(),
        |k: int|
set_force(s[k], net_force(s, k, cfg)),
    )
}

/// `b` with its force accumulator set to `f`.
pub open spec fn set_force(b: Body, f: (int, int)) -> Body {
    Body { force: Vec2 { x: f.0 as i128, y: f.1 as i128 }, ..b }
}

/// Bodies on which forces can be computed without overflow.
pub open spec fn forces_ready(s: Seq<Body>, cfg: Config) -> bool {
    &&& cfg.wf()
    &&& s.len() <= MAX_BODIES
    &&& forall|k: int| #![trigger s[k]] 0 <= k < s.len() ==> s[k].wf() && bounded(
        s[k].position,
        FORCE_POS_LIMIT as int,
    )
}

/// Newton's third law: the force that `a` exerts on `b` is exactly the
/// negation of the force that `b` exerts on `a`.
pub proof fn lemma_force_symmetry(a: Body, b: Body, cfg: Config)
    ensures
        pair_force(b, a, cfg).0 == -pair_force(a, b, cfg).0,
        pair_force(b, a, cfg).1 == -pair_force(a, b, cfg).1,
{
    let dx = b.position.x - a.position.x;
    let dy = b.position.y - a.position.y;
    assert((-dx) * (-dx) + (-dy) * (-dy) == dx * dx + dy * dy) by (nonlinear_arith);
    assert(a.position.x - b.position.x == -dx);
    assert(a.position.y - b.position.y == -dy);
    assert(separation(b, a, cfg) == separation(a, b, cfg));
    let d = separation(a, b, cfg);
    let k = cfg.g * a.mass * b.mass;
    assert(cfg.g * b.mass * a.mass == cfg.g * a.mass * b.mass) by (nonlinear_arith);
    assert((-dx) * k == -(dx * k)) by (nonlinear_arith)
        requires k == cfg.g * a.mass * b.mass;
    assert((-dy) * k == -(dy * k)) by (nonlinear_arith)
        requires k == cfg.g * a.mass * b.mass;
    assert(dx * dx + dy * dy >= 0) by (nonlinear_arith);
    lemma_sqrt_floor_exists(dx * dx + dy * dy);
    if d != 0 {
        assert(d * d * d > 0) by (nonlinear_arith)
            requires d > 0;
        lemma_adiv_neg(dx * k, d * d * d);
        lemma_adiv_neg(dy * k, d * d * d);
    }
}

/// The distance used in the force law is never below the true distance
/// nor below the softening floor.
pub proof fn lemma_separation_not_short(a: Body, b: Body, cfg: Config)
    ensures
        ({
            let dx = b.position.x - a.position.x;
            let dy = b.position.y - a.position.y;
            let d = separation(a, b, cfg);
            d >= cfg.min_distance && d >= 0 && d * d >= dx * dx + dy * dy
        }),
{
    let dx = b.position.x - a.position.x;
    let dy = b.position.y - a.position.y;
    let sq = dx * dx + dy * dy;
    assert(dx * dx + dy * dy >= 0) by (nonlinear_arith);
    lemma_sqrt_floor_exists(sq);
    let r = sqrt_floor(sq);
    let d = separation(a, b, cfg);
    assert(d >= sqrt_ceil(sq));
    assert(sqrt_ceil(sq) * sqrt_ceil(sq) >= sq);
    assert(d * d >= sqrt_ceil(sq) * sqrt_ceil(sq)) by (nonlinear_arith)
        requires d >= sqrt_ceil(sq), sqrt_ceil(sq) >= 0;
}

/// With a softening floor, each component of a pair's force is at most
/// `G * m_a * m_b / floor^2`, rounded up: the floor bounds the force however
/// close the bodies come.
pub proof fn lemma_floor_bounds_force(a: Body, b: Body, cfg: Config)
    requires
        a.wf(),
        b.wf(),
        cfg.g >= 0,
        cfg.min_distance >= 1,
    ensures
        ({
            let bound = adiv(cfg.g * a.mass * b.mass, cfg.min_distance * cfg.min_distance);
            &&& -bound <= pair_force(a, b, cfg).0 <= bound
            &&& -bound <= pair_force(a, b, cfg).1 <= bound
        }),
{
    let dx = b.position.x - a.position.x;
    let dy = b.position.y - a.position.y;
    let f = cfg.min_distance as int;
    let f2 = f * f;
    let k = cfg.g * a.mass * b.mass;
    assert(k >= 0) by (nonlinear_arith)
        requires k == cfg.g * a.mass * b.mass, cfg.g >= 0, a.mass > 0, b.mass > 0;
    assert(f2 >= 1) by (nonlinear_arith)
        requires f2 == f * f, f >= 1;
    let m = adiv(k, f2);
    lemma_fundamental_div_mod(k + f2 - 1, f2);
    lemma_mod_bound(k + f2 - 1, f2);
    lemma_div_pos_is_pos(k + f2 - 1, f2);
    assert(f2 * m >= k);
    assert(m >= 0);
    lemma_separation_not_short(a, b, cfg);
    let d = separation(a, b, cfg);
    let sq = dx * dx + dy * dy;
    assert(dx * dx + dy * dy >= 0) by (nonlinear_arith);
    lemma_sqrt_floor_exists(sq);
    let r = sqrt_floor(sq);
    assert(d >= r);
    lemma_component_le_length(dx, dy, r);
    assert(dy * dy + dx * dx == dx * dx + dy * dy);
    lemma_component_le_length(dy, dx, r);
    assert(d * d * m >= f2 * m) by (nonlinear_arith)
        requires d >= f, f >= 1, m >= 0, f2 == f * f;
    lemma_mul_abs_bound(dx, k, d, f2 * m);
    lemma_mul_abs_bound(dy, k, d, f2 * m);
    assert(d * (f2 * m) <= m * (d * d * d)) by (nonlinear_arith)
        requires d * d * m >= f2 * m, d >= 1;
    assert(d * d * d >= 1) by (nonlinear_arith)
        requires d >= 1;
    lemma_adiv_bound(dx * k, d * d * d, m);
    lemma_adiv_bound(dy * k, d * d * d, m);
}

/// With a positive gravitational constant, the force between bodies at
/// different positions is non-zero and points from `a` toward `b`: its dot
/// product with the displacement is positive.
pub proof fn lemma_force_points_toward(a: Body, b: Body, cfg: Config)
    requires
        a.wf(),
        b.wf(),
        cfg.g > 0,
        a.position != b.position,
    ensures
        pair_force(a, b, cfg).0 * (b.position.x - a.position.x) + pair_force(a, b, cfg).1 * (
        b.position.y - a.position.y) > 0,
{
    let dx = b.position.x - a.position.x;
    let dy = b.position.y - a.position.y;
    let sq = dx * dx + dy * dy;
    assert(dx != 0 || dy != 0);
    assert(dx * dx + dy * dy >= 1) by (nonlinear_arith)
        requires dx != 0 || dy != 0;
    lemma_sqrt_floor_exists(sq);
    lemma_separation_not_short(a, b, cfg);
    let d = separation(a, b, cfg);
    assert(d >= 1) by (nonlinear_arith)
        requires d * d >= sq, sq >= 1, d >= 0;
    let k = cfg.g * a.mass * b.mass;
    assert(k >= 1) by (nonlinear_arith)
        requires k == cfg.g * a.mass * b.mass, cfg.g >= 1, a.mass >= 1, b.mass >= 1;
    let dd = d * d * d;
    assert(dd >= 1) by (nonlinear_arith)
        requires d >= 1, dd == d * d * d;
    let f = pair_force(a, b, cfg);
    assert(f.0 * dx >= 0 && (dx != 0 ==> f.0 * dx > 0)) by {
        if dx > 0 {
            assert(dx * k >= 1) by (nonlinear_arith)
                requires dx >= 1, k >= 1;
            lemma_adiv_positive(dx * k, dd);
            assert(f.0 * dx > 0) by (nonlinear_arith)
                requires f.0 >= 1, dx >= 1;
        } else if dx < 0 {
            assert((-dx) * k >= 1 && dx * k == -((-dx) * k)) by (nonlinear_arith)
                requires dx <= -1, k >= 1;
            lemma_adiv_positive((-dx) * k, dd);
            assert(f.0 * dx > 0) by (nonlinear_arith)
                requires f.0 <= -1, dx <= -1;
        }
    }
    assert(f.1 * dy >= 0 && (dy != 0 ==> f.1 * dy > 0)) by {
        if dy > 0 {
            assert(dy * k >= 1) by (nonlinear_arith)
                requires dy >= 1, k >= 1;
            lemma_adiv_positive(dy * k, dd);
            assert(f.1 * dy > 0) by (nonlinear_arith)
                requires f.1 >= 1, dy >= 1;
        } else if dy < 0 {
            assert((-dy) * k >= 1 && dy * k == -((-dy) * k)) by (nonlinear_arith)
                requires dy <= -1, k >= 1;
            lemma_adiv_positive((-dy) * k, dd);
            assert(f.1 * dy > 0) by (nonlinear_arith)
                requires f.1 <= -1, dy <= -1;
        }
    }
}

/// A component of a displacement is no longer than its rounded-down length.
proof fn lemma_component_le_length(dx: int, dy: int, r: int)
    requires
        is_isqrt(dx * dx + dy * dy, r),
    ensures
        -r <= dx <= r,
{
    assert(dy * dy >= 0) by (nonlinear_arith);
    assert(-r <= dx <= r) by (nonlinear_arith)
        requires r >= 0, dx * dx + dy * dy < (r + 1) * (r + 1), dy * dy >= 0;
}

/// Each component of the force between two bodies in range is bounded.
pub proof fn lemma_pair_force_bound(a: Body, b: Body, cfg: Config)
    requires
        a.wf(),
        b.wf(),
        cfg.wf(),
        bounded(a.position, FORCE_POS_LIMIT as int),
        bounded(b.position, FORCE_POS_LIMIT as int),
    ensures
        -PAIR_FORCE_LIMIT <= pair_force(a, b, cfg).0 <= PAIR_FORCE_LIMIT,
        -PAIR_FORCE_LIMIT <= pair_force(a, b, cfg).1 <= PAIR_FORCE_LIMIT,
{
    let dx = b.position.x - a.position.x;
    let dy = b.position.y - a.position.y;
    assert(dx * dx >= 0 && dy * dy >= 0) by (nonlinear_arith);
    lemma_sqrt_floor_exists(dx * dx + dy * dy);
    let r = sqrt_floor(dx * dx + dy * dy);
    let d = separation(a, b, cfg);
    lemma_mul_abs_bound(cfg.g as int, a.mass as int, MAX_G as int, MAX_MASS as int);
    lemma_mul_abs_bound(cfg.g * a.mass, b.mass as int, MAX_G * MAX_MASS, MAX_MASS as int);
    let k = cfg.g * a.mass * b.mass;
    assert(k >= 0) by (nonlinear_arith)
        requires k == cfg.g * a.mass * b.mass, cfg.g >= 0, a.mass > 0, b.mass > 0;
    if d != 0 {
        lemma_component_le_length(dx, dy, r);
        assert(dy * dy + dx * dx == dx * dx + dy * dy);
        lemma_component_le_length(dy, dx, r);
        assert(d * d * d >= d) by (nonlinear_arith)
            requires d >= 1;
        lemma_mul_abs_bound(dx, k, d * d * d, k);
        lemma_mul_abs_bound(dy, k, d * d * d, k);
        lemma_adiv_bound(dx * k, d * d * d, k);
        lemma_adiv_bound(dy * k, d * d * d, k);
    }
}

/// The force that `b` exerts on `a`.
pub fn compute_pair_force(a: &Body, b: &Body, cfg: &Config) -> (f: Vec2)
    requires
        a.wf(),
        b.wf(),
        cfg.wf(),
        bounded(a.position, FORCE_POS_LIMIT as int),
        bounded(b.position, FORCE_POS_LIMIT as int),
    ensures
        f.x == pair_force(*a, *b, *cfg).0,
        f.y == pair_force(*a, *b, *cfg).1,
        bounded(f, PAIR_FORCE_LIMIT as int),
{
    let dx: i128 = b.position.x - a.position.x;
    let dy: i128 = b.position.y - a.position.y;
    proof {
        lemma_mul_abs_bound(dx as int, dx as int, 0x200_0000_0000, 0x200_0000_0000);
        lemma_mul_abs_bound(dy as int, dy as int, 0x200_0000_0000, 0x200_0000_0000);
        assert(dx * dx >= 0 && dy * dy >= 0) by (nonlinear_arith);
    }
    let sq: i128 = dx * dx + dy * dy;
    let r: u128 = isqrt(sq as u128);
    proof {
        assert(r < 0x400_0000_0000) by (nonlinear_arith)
            requires r * r <= sq, sq <= 0x8_0000_0000_0000_0000_0000;
    }
    let rc: i128 = if ((r * r) as i128) == sq {
        r as i128
    } else {
        r as i128 + 1
    };
    let d: i128 = if rc < cfg.min_distance {
        cfg.min_distance
    } else {
        rc
    };
    proof {
        lemma_mul_abs_bound(cfg.g as int, a.mass as int, MAX_G as int, MAX_MASS as int);
        lemma_mul_abs_bound(cfg.g * a.mass, b.mass as int, MAX_G * MAX_MASS, MAX_MASS as int);
    }
    let k: i128 = cfg.g * a.mass * b.mass;
    if d == 0 {
        return Vec2::zero();
    }
    proof {
        lemma_mul_abs_bound(d as int, d as int, 0x400_0000_0000, 0x400_0000_0000);
        lemma_mul_abs_bound(d * d, d as int, 0x10_0000_0000_0000_0000_0000, 0x400_0000_0000);
        lemma_mul_abs_bound(dx as int, k as int, 0x200_0000_0000, PAIR_FORCE_LIMIT as int);
        lemma_mul_abs_bound(dy as int, k as int, 0x200_0000_0000, PAIR_FORCE_LIMIT as int);
        lemma_pair_force_bound(*a, *b, *cfg);
        assert(d * d * d >= d) by (nonlinear_arith)
            requires d >= 1;
    }
    let d3: i128 = d * d * d;
    let fx: i128 = div_away(dx * k, d3);
    let fy: i128 = div_away(dy * k, d3);
    Vec2 { x: fx, y: fy }
}

/// A partial sum of forces on one body is bounded by the number of terms.
proof fn lemma_force_sum_bound(s: Seq<Body>, k: int, hi: int, cfg: Config)
    requires
        forces_ready(s, cfg),
        0 <= k < s.len(),
        0 <= hi <= s.len(),
    ensures
        -(hi * PAIR_FORCE_LIMIT) <= force_sum(s, k, hi, cfg).0 <= hi * PAIR_FORCE_LIMIT,
        -(hi * PAIR_FORCE_LIMIT) <= force_sum(s, k, hi, cfg).1 <= hi * PAIR_FORCE_LIMIT,
    decreases hi,
{
    if hi > 0 {
        lemma_force_sum_bound(s, k, hi - 1, cfg);
        assert(s[k].wf() && s[hi - 1].wf());
        lemma_pair_force_bound(s[k], s[hi - 1], cfg);
    }
}

/// A net force fits in its bound.
proof fn lemma_force_sum_fits(s: Seq<Body>, k: int, hi: int, cfg: Config)
    requires
        forces_ready(s, cfg),
        0 <= k < s.len(),
        0 <= hi <= s.len(),
    ensures
        -NET_FORCE_LIMIT <= force_sum(s, k, hi, cfg).0 <= NET_FORCE_LIMIT,
        -NET_FORCE_LIMIT <= force_sum(s, k, hi, cfg).1 <= NET_FORCE_LIMIT,
{
    lemma_force_sum_bound(s, k, hi, cfg);
    assert(hi * PAIR_FORCE_LIMIT <= NET_FORCE_LIMIT) by (nonlinear_arith)
        requires 0 <= hi <= MAX_BODIES;
}

/// Resets every force accumulator, then, for every unordered pair `i < j`,
/// computes the force that `j` exerts on `i` once and adds it to `i` and
/// subtracts it from `j`.
pub fn calculate_gravitational_force(bodies: &mut Vec<Body>, cfg: &Config)
    requires
        forces_ready(old(bodies)@, *cfg),
    ensures
        final(bodies)@ == with_forces(old(bodies)@, *cfg),
        forall|k: int|
            0 <= k < final(bodies)@.len() ==> bounded(
                #[trigger] final(bodies)@[k].force,
                NET_FORCE_LIMIT as int,
            ),
{
    let ghost s = bodies@;
    let n = bodies.len();
    let mut z: usize = 0;
    while z < n
        invariant
            n == bodies@.len() == s.len(),
            z <= n,
            forall|k: int|
                0 <= k < n ==> #[trigger] bodies@[k] == (if k < z {
                    set_force(s[k], (0, 0))
                } else {
                    s[k]
                }),
        decreases n - z,
    {
        let mut b = bodies[z];
        b.force = Vec2::zero();
        bodies.set(z, b);
        z = z + 1;
    }
    let mut i: usize = 0;
    while i < n
        invariant
            n == bodies@.len() == s.len(),
            forces_ready(s, *cfg),
            i <= n,
            forall|k: int|
                0 <= k < n ==> #[trigger] bodies@[k] == set_force(
                    s[k],
                    force_sum(s, k, if k < i { n as int } else { i as int }, *cfg),
                ),
        decreases n - i,
    {
        let mut j: usize = i + 1;
        while j < n
            invariant
                n == bodies@.len() == s.len(),
                forces_ready(s, *cfg),
                i < j <= n,
                forall|k: int|
                    0 <= k < n ==> #[trigger] bodies@[k] == set_force(
                        s[k],
                        force_sum(s, k, row_bound(k, i as int, j as int, n as int), *cfg),
                    ),
            decreases n - j,
        {
            assert(s[i as int].wf() && s[j as int].wf());
            let f = compute_pair_force(&bodies[i], &bodies[j], cfg);
            proof {
                lemma_force_symmetry(s[i as int], s[j as int], *cfg);
                lemma_force_sum_fits(s, i as int, j + 1, *cfg);
                lemma_force_sum_fits(s, j as int, i + 1, *cfg);
                lemma_force_sum_fits(s, i as int, j as int, *cfg);
                lemma_force_sum_fits(s, j as int, i as int, *cfg);
            }
            let mut bi = bodies[i];
            bi.force = Vec2 { x: bi.force.x + f.x, y: bi.force.y + f.y };
            bodies.set(i, bi);
            let mut bj = bodies[j];
            bj.force = Vec2 { x: bj.force.x - f.x, y: bj.force.y - f.y };
            bodies.set(j, bj);
            j = j + 1;
        }
        i = i + 1;
    }
    assert(bodies@ =~= with_forces(s, *cfg));
    assert forall|k: int| 0 <= k < n implies bounded(
        #[trigger] bodies@[k].force,
        NET_FORCE_LIMIT as int,
    ) by {
        lemma_force_sum_fits(s, k, n as int, *cfg);
    }
}

/// How many leading bodies have been accounted for in the force on `k` while
/// the pair `(i, j)` is next.
pub open spec fn row_bound(k: int, i: int, j: int, n: int) -> int {
    if k < i {
        n
    } else if k == i {
        j
    } else if k < j {
        i + 1
    } else {
        i
    }
}

/// Sum over the bodies below `hi` of the force on each from the bodies below
/// `m`.
pub open spec fn total_force(s: Seq<Body>, hi: int, m: int, cfg: Config) -> (int, int)
    decreases hi,
{
    if hi <= 0 {
        (0, 0)
    } else {
        let prev = total_force(s, hi - 1, m, cfg);
        let f = force_sum(s, hi - 1, m, cfg);
        (prev.0 + f.0, prev.1 + f.1)
    }
}

/// Sum over the bodies below `hi` of the force that body `m` exerts on each.
spec fn forces_from(s: Seq<Body>, hi: int, m: int, cfg: Config) -> (int, int)
    decreases hi,
{
    if hi <= 0 {
        (0, 0)
    } else {
        let prev = forces_from(s, hi - 1, m, cfg);
        let f = pair_force(s[hi - 1], s[m], cfg);
        (prev.0 + f.0, prev.1 + f.1)
    }
}

proof fn lemma_total_force_extend(s: Seq<Body>, hi: int, m: int, cfg: Config)
    requires
        0 <= hi <= m,
    ensures
        total_force(s, hi, m + 1, cfg).0 == total_force(s, hi, m, cfg).0 + forces_from(s, hi, m, cfg).0,
        total_force(s, hi, m + 1, cfg).1 == total_force(s, hi, m, cfg).1 + forces_from(s, hi, m, cfg).1,
    decreases hi,
{
    if hi > 0 {
        lemma_total_force_extend(s, hi - 1, m, cfg);
    }
}

proof fn lemma_reaction_cancels(s: Seq<Body>, hi: int, m: int, cfg: Config)
    requires
        0 <= hi <= m,
    ensures
        forces_from(s, hi, m, cfg).0 + force_sum(s, m, hi, cfg).0 == 0,
        forces_from(s, hi, m, cfg).1 + force_sum(s, m, hi, cfg).1 == 0,
    decreases hi,
{
    if hi > 0 {
        lemma_reaction_cancels(s, hi - 1, m, cfg);
        lemma_force_symmetry(s[hi - 1], s[m], cfg);
    }
}

/// The net forces on all bodies sum to zero: every pairwise force is
/// matched by its exact opposite, so no force computation changes the
/// total momentum.
pub proof fn lemma_net_forces_cancel(s: Seq<Body>, cfg: Config)
    ensures
        total_force(s, s.len() as int, s.len() as int, cfg) == (0int, 0int),
{
    lemma_prefix_forces_cancel(s, s.len() as int, cfg);
}

proof fn lemma_prefix_forces_cancel(s: Seq<Body>, m: int, cfg: Config)
    requires
        0 <= m,
    ensures
        total_force(s, m, m, cfg) == (0int, 0int),
    decreases m,
{
    if m > 0 {
        let p = m - 1;
        lemma_prefix_forces_cancel(s, p, cfg);
        lemma_total_force_extend(s, p, p, cfg);
        lemma_reaction_cancels(s, p, p, cfg);
        assert(force_sum(s, p, m, cfg) == force_sum(s, p, p, cfg));
    }
}

} // verus!
