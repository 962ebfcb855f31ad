//! Continuous collision detection between consecutive positions, with
//! rollback to the time of impact and elastic response.
use vstd::prelude::*;
use crate::arith::{
    tdiv, sqrt_floor, isqrt, div_trunc, lemma_tdiv_bound, lemma_mul_abs_bound, lemma_tdiv_neg,
};
use crate::body::{Body, Config, SimError, Vec2, bounded, in_range, MAX_COORD, MAX_MASS, MAX_DT_NUM, MAX_DT_DEN};
use crate::forces::FORCE_POS_LIMIT;
use crate::integrator::RESOLVED_VEL_LIMIT;

verus! {

/// Bound on a velocity component produced by one collision response.
pub const RESPONSE_VEL_LIMIT: i128 = 0x1000_0000;

/// The coefficients `(a, b, c)` of the quadratic in `t` whose roots are the
/// times at which the two bodies, moving from their previous positions at
/// their current velocities, are exactly the sum of their radii apart.
pub open spec fn quadratic(bi: Body, bj: Body) -> (int, int, int) {
    let rpx = bi.previous_position.x - bj.previous_position.x;
    let rpy = bi.previous_position.y - bj.previous_position.y;
    let rvx = bi.velocity.x - bj.velocity.x;
    let rvy = bi.velocity.y - bj.velocity.y;
    let rr = bi.radius + bj.radius;
    (rvx * rvx + rvy * rvy, 2 * (rpx * rvx + rpy * rvy), rpx * rpx + rpy * rpy - rr * rr)
}

/// `b^2 - 4ac` of the contact quadratic.
pub open spec fn discriminant(bi: Body, bj: Body) -> int {
    let q = quadratic(bi, bj);
    q.1 * q.1 - 4 * q.0 * q.2
}

/// Numerator of the earlier root: the time of impact is
/// `impact_num / (2a)`, with the square root rounded down.
pub open spec fn impact_num(bi: Body, bj: Body) -> int {
    -quadratic(bi, bj).1 - sqrt_floor(discriminant(bi, bj))
}

pub open spec fn abs(x: int) -> int {
    if x < 0 {
        -x
    } else {
        x
    }
}

/// The pair collides within this step: the bodies are discs (point masses
/// never collide), they are approaching each other (`b < 0`, so the later
/// root of the contact quadratic lies ahead), the quadratic has a real root,
/// and the earlier root lies within `dt` of the step's start.
pub open spec fn collides(bi: Body, bj: Body, cfg: Config) -> bool {
    let a = quadratic(bi, bj).0;
    &&& bi.radius + bj.radius > 0
    &&& quadratic(bi, bj).1 < 0
    &&& a != 0
    &&& discriminant(bi, bj) >= 0
    &&& abs(impact_num(bi, bj)) * cfg.dt_den <= 2 * a * cfg.dt_num
}

/// The position of `b` at time `tn / a2` after its previous position.
pub open spec fn rolled_back(b: Body, tn: int, a2: int) -> Vec2 {
    Vec2 {
        x: (b.previous_position.x + tdiv(b.velocity.x * tn, a2)) as i128,
        y: (b.previous_position.y + tdiv(b.velocity.y * tn, a2)) as i128,
    }
}

/// The exact change of velocity of a body in an elastic collision with a body
/// of mass `m_other`, along the line of centers `p` (from the other body to
/// this one), with relative velocity `rv` (this one's minus the other's),
/// scaled by `(m_self + m_other) * |p|^2`:
/// `-2 m_other * dot(rv, p) * p`.
pub open spec fn impulse_numerator(m_other: int, rvx: int, rvy: int, px: int, py: int) -> (int, int) {
    let dot = rvx * px + rvy * py;
    (-(2 * m_other * dot * px), -(2 * m_other * dot * py))
}

/// The change of velocity of a body of mass `m_self` in that collision:
/// `-(2 m_other / (m_self + m_other)) * dot(rv, p) / |p|^2 * p`, each
/// component rounded toward zero. No change when the centers coincide.
pub open spec fn impulse(m_self: int, m_other: int, rvx: int, rvy: int, px: int, py: int) -> (
    int,
    int,
) {
    let pp = px * px + py * py;
    let n = impulse_numerator(m_other, rvx, rvy, px, py);
    if pp == 0 {
        (0, 0)
    } else {
        (tdiv(n.0, (m_self + m_other) * pp), tdiv(n.1, (m_self + m_other) * pp))
    }
}

/// The two bodies after a collision: rolled back to the time of impact,
/// given their elastic response, then advanced for the rest of the step.
pub open spec fn resolved(bi: Body, bj: Body, cfg: Config) -> (Body, Body) {
    let a2 = 2 * quadratic(bi, bj).0;
    let tn = impact_num(bi, bj);
    let qi = rolled_back(bi, tn, a2);
    let qj = rolled_back(bj, tn, a2);
    let px = qi.x - qj.x;
    let py = qi.y - qj.y;
    let rvx = bi.velocity.x - bj.velocity.x;
    let rvy = bi.velocity.y - bj.velocity.y;
    let di = impulse(bi.mass as int, bj.mass as int, rvx, rvy, px, py);
    let dj = impulse(bj.mass as int, bi.mass as int, -rvx, -rvy, -px, -py);
    let vi = Vec2 { x: (bi.velocity.x + di.0) as i128, y: (bi.velocity.y + di.1) as i128 };
    let vj = Vec2 { x: (bj.velocity.x + dj.0) as i128, y: (bj.velocity.y + dj.1) as i128 };
    let rem = a2 * cfg.dt_num - cfg.dt_den * tn;
    let d = a2 * cfg.dt_den;
    (
        Body {
            position: Vec2 {
                x: (qi.x + tdiv(vi.x * rem, d)) as i128,
                y: (qi.y + tdiv(vi.y * rem, d)) as i128,
            },
            velocity: vi,
            ..bi
        },
        Body {
            position: Vec2 {
                x: (qj.x + tdiv(vj.x * rem, d)) as i128,
                y: (qj.y + tdiv(vj.y * rem, d)) as i128,
            },
            velocity: vj,
            ..bj
        },
    )
}

/// The velocities of both bodies are within the range in which the
/// resolver's arithmetic is exact.
pub open spec fn pair_in_range(bi: Body, bj: Body) -> bool {
    bounded(bi.velocity, MAX_COORD as int) && bounded(bj.velocity, MAX_COORD as int)
}

/// What the resolver makes of one pair: `None` when it is out of range,
/// the pair unchanged when it does not collide, else the resolved pair.
pub open spec fn pair_outcome(bi: Body, bj: Body, cfg: Config) -> Option<(Body, Body)> {
    if !pair_in_range(bi, bj) {
        None
    } else if !collides(bi, bj, cfg) {
        Some((bi, bj))
    } else {
        Some(resolved(bi, bj, cfg))
    }
}

fn contact_quadratic(bi: &Body, bj: &Body) -> (r: (i128, i128, i128))
    requires
        bi.wf(),
        bj.wf(),
        bounded(bi.previous_position, MAX_COORD as int),
        bounded(bj.previous_position, MAX_COORD as int),
        pair_in_range(*bi, *bj),
    ensures
        r.0 == quadratic(*bi, *bj).0,
        r.1 == quadratic(*bi, *bj).1,
        r.2 == quadratic(*bi, *bj).2,
        0 <= r.0 <= 0x8_0000_0000_0000,
        -0x10_0000_0000_0000 <= r.1 <= 0x10_0000_0000_0000,
        -0x10_0000_0000_0000 <= r.2 <= 0x10_0000_0000_0000,
{
    let rpx: i128 = bi.previous_position.x - bj.previous_position.x;
    let rpy: i128 = bi.previous_position.y - bj.previous_position.y;
    let rvx: i128 = bi.velocity.x - bj.velocity.x;
    let rvy: i128 = bi.velocity.y - bj.velocity.y;
    let rr: i128 = bi.radius + bj.radius;
    let ghost lim: int = 0x200_0000;
    proof {
        lemma_mul_abs_bound(rpx as int, rpx as int, lim, lim);
        lemma_mul_abs_bound(rpy as int, rpy as int, lim, lim);
        lemma_mul_abs_bound(rvx as int, rvx as int, lim, lim);
        lemma_mul_abs_bound(rvy as int, rvy as int, lim, lim);
        lemma_mul_abs_bound(rpx as int, rvx as int, lim, lim);
        lemma_mul_abs_bound(rpy as int, rvy as int, lim, lim);
        lemma_mul_abs_bound(rr as int, rr as int, lim, lim);
        assert(rvx * rvx >= 0 && rvy * rvy >= 0 && rpx * rpx >= 0 && rpy * rpy >= 0 && rr * rr >= 0)
            by (nonlinear_arith);
    }
    (rvx * rvx + rvy * rvy, 2 * (rpx * rvx + rpy * rvy), rpx * rpx + rpy * rpy - rr * rr)
}

fn rollback_coord(p: i128, v: i128, tn: i128, a2: i128, num: i128, den: i128) -> (r: i128)
    requires
        -MAX_COORD <= p <= MAX_COORD,
        -MAX_COORD <= v <= MAX_COORD,
        0 < a2 <= 0x10_0000_0000_0000,
        0 < num <= MAX_DT_NUM,
        0 < den <= MAX_DT_DEN,
        -0x80_0000_0000_0000 <= tn <= 0x80_0000_0000_0000,
        abs(tn as int) * den <= a2 * num,
    ensures
        r == p + tdiv(v * tn, a2 as int),
        -0x8000_0000 <= r <= 0x8000_0000,
{
    proof {
        lemma_mul_abs_bound(v as int, tn as int, MAX_COORD as int, 0x80_0000_0000_0000);
        assert(abs(tn as int) <= a2 * MAX_DT_NUM) by (nonlinear_arith)
            requires abs(tn as int) * den <= a2 * num, den >= 1, num <= MAX_DT_NUM, a2 > 0, abs(tn as int) >= 0;
        lemma_mul_abs_bound(v as int, tn as int, MAX_COORD as int, a2 * MAX_DT_NUM);
        assert(MAX_COORD * (a2 * MAX_DT_NUM) == 0x4000_0000 * a2) by (nonlinear_arith);
        lemma_tdiv_bound(v * tn, a2 as int, 0x4000_0000);
    }
    p + div_trunc(v * tn, a2)
}

proof fn lemma_dot_component(rvx: int, rvy: int, px: int, py: int, lim: int)
    requires
        -lim <= rvx <= lim,
        -lim <= rvy <= lim,
        lim >= 0,
    ensures
        -(2 * lim * (px * px + py * py)) <= (rvx * px + rvy * py) * px <= 2 * lim * (px * px
            + py * py),
{
    assert(-(2 * lim * (px * px + py * py)) <= rvx * px * px + rvy * py * px <= 2 * lim * (px * px
        + py * py)) by (nonlinear_arith)
        requires -lim <= rvx <= lim, -lim <= rvy <= lim, lim >= 0;
    assert((rvx * px + rvy * py) * px == rvx * px * px + rvy * py * px) by (nonlinear_arith);
}

fn impulse_exec(ms: i128, mo: i128, rvx: i128, rvy: i128, px: i128, py: i128) -> (r: (i128, i128))
    requires
        0 < ms <= MAX_MASS,
        0 < mo <= MAX_MASS,
        -0x200_0000 <= rvx <= 0x200_0000,
        -0x200_0000 <= rvy <= 0x200_0000,
        -0x1_0000_0000 <= px <= 0x1_0000_0000,
        -0x1_0000_0000 <= py <= 0x1_0000_0000,
    ensures
        r.0 == impulse(ms as int, mo as int, rvx as int, rvy as int, px as int, py as int).0,
        r.1 == impulse(ms as int, mo as int, rvx as int, rvy as int, px as int, py as int).1,
        -0x800_0000 <= r.0 <= 0x800_0000,
        -0x800_0000 <= r.1 <= 0x800_0000,
{
    let ghost lim: int = 0x1_0000_0000;
    proof {
        lemma_mul_abs_bound(px as int, px as int, lim, lim);
        lemma_mul_abs_bound(py as int, py as int, lim, lim);
        lemma_mul_abs_bound(rvx as int, px as int, 0x200_0000, lim);
        lemma_mul_abs_bound(rvy as int, py as int, 0x200_0000, lim);
        assert(px * px >= 0 && py * py >= 0) by (nonlinear_arith);
    }
    let pp: i128 = px * px + py * py;
    if pp == 0 {
        return (0, 0);
    }
    let dot: i128 = rvx * px + rvy * py;
    let m: i128 = ms + mo;
    proof {
        let pl: int = 0x4_0000_0000_0000_0000;
        lemma_mul_abs_bound(2 * mo, dot as int, 2 * MAX_MASS, 0x8000_0000_0000_0000);
        lemma_mul_abs_bound(2 * mo * dot, px as int, 2 * MAX_MASS * 0x8000_0000_0000_0000, lim);
        lemma_mul_abs_bound(2 * mo * dot, py as int, 2 * MAX_MASS * 0x8000_0000_0000_0000, lim);
        lemma_mul_abs_bound(m as int, pp as int, 2 * MAX_MASS, pl);
        assert(m * pp > 0) by (nonlinear_arith)
            requires m > 0, pp > 0;
        lemma_dot_component(rvx as int, rvy as int, px as int, py as int, 0x200_0000);
        assert(py * py + px * px == px * px + py * py);
        lemma_dot_component(rvy as int, rvx as int, py as int, px as int, 0x200_0000);
        assert(rvy * py + rvx * px == dot);
        assert(-(0x800_0000 * (m * pp)) <= 2 * mo * dot * px <= 0x800_0000 * (m * pp))
            by (nonlinear_arith)
            requires
                -(2 * 0x200_0000 * pp) <= dot * px <= 2 * 0x200_0000 * pp,
                0 < mo < m,
                pp > 0;
        assert(-(0x800_0000 * (m * pp)) <= 2 * mo * dot * py <= 0x800_0000 * (m * pp))
            by (nonlinear_arith)
            requires
                -(2 * 0x200_0000 * pp) <= dot * py <= 2 * 0x200_0000 * pp,
                0 < mo < m,
                pp > 0;
        lemma_tdiv_bound(2 * mo * dot * px, m * pp, 0x800_0000);
        lemma_tdiv_bound(2 * mo * dot * py, m * pp, 0x800_0000);
        lemma_tdiv_neg(2 * mo * dot * px, m * pp);
        lemma_tdiv_neg(2 * mo * dot * py, m * pp);
    }
    (-div_trunc(2 * mo * dot * px, m * pp), -div_trunc(2 * mo * dot * py, m * pp))
}

fn advance_coord_after(q: i128, v: i128, rem: i128, d: i128, a2: i128) -> (r: i128)
    requires
        -0x8000_0000 <= q <= 0x8000_0000,
        -RESPONSE_VEL_LIMIT <= v <= RESPONSE_VEL_LIMIT,
        0 < a2 <= d,
        -(2 * MAX_DT_NUM * a2) <= rem <= 2 * MAX_DT_NUM * a2,
        a2 <= 0x10_0000_0000_0000,
    ensures
        r == q + tdiv(v * rem, d as int),
        -0x10_0000_0000 <= r <= 0x10_0000_0000,
{
    proof {
        lemma_mul_abs_bound(v as int, rem as int, RESPONSE_VEL_LIMIT as int, 2 * MAX_DT_NUM * a2);
        assert(RESPONSE_VEL_LIMIT * (2 * MAX_DT_NUM * a2) <= 0x8_0000_0000 * d) by (nonlinear_arith)
            requires 0 < a2 <= d;
        lemma_tdiv_bound(v * rem, d as int, 0x8_0000_0000);
        assert(RESPONSE_VEL_LIMIT * (2 * MAX_DT_NUM * a2) <= 0x100_0000_0000_0000_0000_0000) by (nonlinear_arith)
            requires 0 < a2 <= 0x10_0000_0000_0000;
    }
    q + div_trunc(v * rem, d)
}

/// A body as the resolver takes and leaves it.
pub open spec fn resolvable(b: Body) -> bool {
    &&& b.wf()
    &&& bounded(b.previous_position, MAX_COORD as int)
    &&& bounded(b.position, FORCE_POS_LIMIT as int)
    &&& bounded(b.velocity, RESOLVED_VEL_LIMIT as int)
}

/// Detects and resolves a collision between two bodies within this step.
/// `None` when a velocity is out of the resolver's range.
pub fn resolve_pair(bi: &Body, bj: &Body, cfg: &Config) -> (r: Option<(Body, Body)>)
    requires
        resolvable(*bi),
        resolvable(*bj),
        cfg.wf(),
    ensures
        r == pair_outcome(*bi, *bj, *cfg),
        r matches Some(p) ==> resolvable(p.0) && resolvable(p.1),
        r matches Some(p) ==> p.0.acceleration_current == bi.acceleration_current
            && p.1.acceleration_current == bj.acceleration_current,
{
    if !(in_range(bi.velocity) && in_range(bj.velocity)) {
        return None;
    }
    let (a, b, c) = contact_quadratic(bi, bj);
    proof {
        lemma_mul_abs_bound(b as int, b as int, 0x10_0000_0000_0000, 0x10_0000_0000_0000);
        lemma_mul_abs_bound(4 * a, c as int, 0x20_0000_0000_0000int, 0x10_0000_0000_0000);
    }
    let disc: i128 = b * b - 4 * a * c;
    if bi.radius + bj.radius <= 0 || b >= 0 || a == 0 || disc < 0 {
        return Some((*bi, *bj));
    }
    let s: u128 = isqrt(disc as u128);
    proof {
        assert(s < 0x40_0000_0000_0000) by (nonlinear_arith)
            requires s * s <= disc, disc <= 0x400_0000_0000_0000_0000_0000_0000;
    }
    let tn: i128 = -b - s as i128;
    let tabs: i128 = if tn < 0 {
        -tn
    } else {
        tn
    };
    proof {
        lemma_mul_abs_bound(tabs as int, cfg.dt_den as int, 0x80_0000_0000_0000, MAX_DT_DEN as int);
        lemma_mul_abs_bound(2 * a, cfg.dt_num as int, 0x10_0000_0000_0000, MAX_DT_NUM as int);
    }
    if tabs * cfg.dt_den > 2 * a * cfg.dt_num {
        return Some((*bi, *bj));
    }
    let a2: i128 = 2 * a;
    let num = cfg.dt_num;
    let den = cfg.dt_den;
    let qix = rollback_coord(bi.previous_position.x, bi.velocity.x, tn, a2, num, den);
    let qiy = rollback_coord(bi.previous_position.y, bi.velocity.y, tn, a2, num, den);
    let qjx = rollback_coord(bj.previous_position.x, bj.velocity.x, tn, a2, num, den);
    let qjy = rollback_coord(bj.previous_position.y, bj.velocity.y, tn, a2, num, den);
    let px: i128 = qix - qjx;
    let py: i128 = qiy - qjy;
    let rvx: i128 = bi.velocity.x - bj.velocity.x;
    let rvy: i128 = bi.velocity.y - bj.velocity.y;
    let di = impulse_exec(bi.mass, bj.mass, rvx, rvy, px, py);
    let dj = impulse_exec(bj.mass, bi.mass, -rvx, -rvy, -px, -py);
    let vi = Vec2 { x: bi.velocity.x + di.0, y: bi.velocity.y + di.1 };
    let vj = Vec2 { x: bj.velocity.x + dj.0, y: bj.velocity.y + dj.1 };
    proof {
        assert(abs(tn as int) <= a2 * MAX_DT_NUM) by (nonlinear_arith)
            requires abs(tn as int) * den <= a2 * num, den >= 1, num <= MAX_DT_NUM, a2 > 0, abs(tn as int) >= 0;
        lemma_mul_abs_bound(a2 as int, num as int, 0x10_0000_0000_0000, MAX_DT_NUM as int);
        lemma_mul_abs_bound(den as int, tn as int, MAX_DT_DEN as int, 0x80_0000_0000_0000);
        if tn < 0 {
            assert(den * tn == -(tabs * den)) by (nonlinear_arith)
                requires tabs == -tn;
        } else {
            assert(den * tn == tabs * den) by (nonlinear_arith)
                requires tabs == tn;
        }
        assert(a2 * num <= MAX_DT_NUM * a2) by (nonlinear_arith)
            requires 0 < num <= MAX_DT_NUM, a2 > 0;
        assert(tabs * den >= 0) by (nonlinear_arith)
            requires tabs >= 0, den >= 1;
        assert(tabs * den <= a2 * num);
        assert(den * tn == tabs * den || den * tn == -(tabs * den));
        assert(a2 * num <= 64 * a2) by (nonlinear_arith)
            requires 0 < num <= 64, a2 > 0;
        assert(2 * MAX_DT_NUM * a2 == 128 * a2);
        assert(-(128 * a2) <= a2 * num - den * tn <= 128 * a2);
        assert(a2 <= a2 * den) by (nonlinear_arith)
            requires den >= 1, a2 > 0;
        lemma_mul_abs_bound(a2 as int, den as int, 0x10_0000_0000_0000, MAX_DT_DEN as int);
    }
    let rem: i128 = a2 * num - den * tn;
    let d: i128 = a2 * den;
    let fix = advance_coord_after(qix, vi.x, rem, d, a2);
    let fiy = advance_coord_after(qiy, vi.y, rem, d, a2);
    let fjx = advance_coord_after(qjx, vj.x, rem, d, a2);
    let fjy = advance_coord_after(qjy, vj.y, rem, d, a2);
    let mut ri = *bi;
    ri.position = Vec2 { x: fix, y: fiy };
    ri.velocity = vi;
    let mut rj = *bj;
    rj.position = Vec2 { x: fjx, y: fjy };
    rj.velocity = vj;
    Some((ri, rj))
}

/// Resolves, in order, the pairs from `(i, j)` on: the rest of row `i`,
/// then each later row `(i', i'+1), (i', i'+2), ...`. `None` as soon as a
/// pair is out of range.
pub open spec fn resolve_from(s: Seq<Body>, cfg: Config, i: int, j: int) -> Option<Seq<Body>>
    decreases s.len() - i, s.len() + 1 - j,
{
    if i < 0 || i >= s.len() {
        Some(s)
    } else if j >= s.len() {
        resolve_from(s, cfg, i + 1, i + 2)
    } else if j <= i {
        None
    } else {
        match pair_outcome(s[i], s[j], cfg) {
            None => None,
            Some(p) => resolve_from(s.update(i, p.0).update(j, p.1), cfg, i, j + 1),
        }
    }
}

/// The collision pass: every unordered pair `i < j`, in order, each
/// resolved on the state the earlier pairs left.
pub open spec fn resolve_all(s: Seq<Body>, cfg: Config) -> Option<Seq<Body>> {
    resolve_from(s, cfg, 0, 1)
}

/// Runs the collision pass. On `Ok` the bodies are exactly what
/// `resolve_all` gives; `Err` exactly when it gives `None`, and then the
/// bodies are unchanged.
pub fn continuous_collision_detection(bodies: &mut Vec<Body>, cfg: &Config) -> (r: Result<(), SimError>)
    requires
        cfg.wf(),
        forall|k: int| 0 <= k < old(bodies)@.len() ==> resolvable(#[trigger] old(bodies)@[k]),
    ensures
        r is Ok <==> resolve_all(old(bodies)@, *cfg) is Some,
        r is Err ==> r == Err::<(), SimError>(SimError::ValueOutOfRange),
        r is Ok ==> resolve_all(old(bodies)@, *cfg) == Some(final(bodies)@),
        r is Ok ==> forall|k: int| 0 <= k < final(bodies)@.len() ==> resolvable(#[trigger] final(bodies)@[k]),
        r is Err ==> final(bodies)@ == old(bodies)@,
        final(bodies)@.len() == old(bodies)@.len(),
        forall|k: int|
            0 <= k < final(bodies)@.len() ==> (#[trigger] final(bodies)@[k]).acceleration_current
                == old(bodies)@[k].acceleration_current,
{
    let mut work = bodies.clone();
    assert(work@ =~= bodies@);
    let r = resolve_pairs(&mut work, cfg);
    if r.is_ok() {
        *bodies = work;
    }
    r
}

fn resolve_pairs(bodies: &mut Vec<Body>, cfg: &Config) -> (r: Result<(), SimError>)
    requires
        cfg.wf(),
        forall|k: int| 0 <= k < old(bodies)@.len() ==> resolvable(#[trigger] old(bodies)@[k]),
    ensures
        r is Ok <==> resolve_all(old(bodies)@, *cfg) is Some,
        r is Err ==> r == Err::<(), SimError>(SimError::ValueOutOfRange),
        r is Ok ==> resolve_all(old(bodies)@, *cfg) == Some(final(bodies)@),
        r is Ok ==> forall|k: int| 0 <= k < final(bodies)@.len() ==> resolvable(#[trigger] final(bodies)@[k]),
        final(bodies)@.len() == old(bodies)@.len(),
        forall|k: int|
            0 <= k < final(bodies)@.len() ==> (#[trigger] final(bodies)@[k]).acceleration_current
                == old(bodies)@[k].acceleration_current,
{
    let ghost s = bodies@;
    let n = bodies.len();
    let mut i: usize = 0;
    while i < n
        invariant
            n == bodies@.len() == s.len(),
            s == old(bodies)@,
            cfg.wf(),
            i <= n,
            resolve_from(bodies@, *cfg, i as int, i + 1) == resolve_all(s, *cfg),
            forall|k: int| 0 <= k < n ==> resolvable(#[trigger] bodies@[k]),
            forall|k: int|
                0 <= k < n ==> (#[trigger] bodies@[k]).acceleration_current == s[k].acceleration_current,
        decreases n - i,
    {
        let mut j: usize = i + 1;
        while j < n
            invariant
                n == bodies@.len() == s.len(),
                s == old(bodies)@,
                cfg.wf(),
                i < j <= n,
                resolve_from(bodies@, *cfg, i as int, j as int) == resolve_all(s, *cfg),
                forall|k: int| 0 <= k < n ==> resolvable(#[trigger] bodies@[k]),
                forall|k: int|
                    0 <= k < n ==> (#[trigger] bodies@[k]).acceleration_current == s[k].acceleration_current,
            decreases n - j,
        {
            let ghost cur = bodies@;
            let r = resolve_pair(&bodies[i], &bodies[j], cfg);
            match r {
                None => {
                    assert(resolve_from(cur, *cfg, i as int, j as int) is None);
                    return Err(SimError::ValueOutOfRange);
                },
                Some(p) => {
                    bodies.set(i, p.0);
                    bodies.set(j, p.1);
                    assert(bodies@ == cur.update(i as int, p.0).update(j as int, p.1));
                },
            }
            j = j + 1;
        }
        i = i + 1;
    }
    Ok(())
}

/// The squared distance of closest approach along the whole relative path,
/// times `|rv|^2`, exceeds the squared sum of the radii times `|rv|^2`: the
/// bodies moving from their previous positions at their velocities never
/// touch.
pub open spec fn paths_clear(bi: Body, bj: Body) -> bool {
    let rpx = bi.previous_position.x - bj.previous_position.x;
    let rpy = bi.previous_position.y - bj.previous_position.y;
    let rvx = bi.velocity.x - bj.velocity.x;
    let rvy = bi.velocity.y - bj.velocity.y;
    let rr = bi.radius + bj.radius;
    let vv = rvx * rvx + rvy * rvy;
    let pv = rpx * rvx + rpy * rvy;
    (rpx * rpx + rpy * rpy) * vv - pv * pv > rr * rr * vv
}

/// Two bodies whose paths never come within the sum of their radii give a
/// negative discriminant, and the resolver leaves them exactly as they were:
/// no rollback and no change of velocity.
pub proof fn lemma_clear_paths_untouched(bi: Body, bj: Body, cfg: Config)
    requires
        pair_in_range(bi, bj),
        paths_clear(bi, bj),
    ensures
        discriminant(bi, bj) < 0,
        pair_outcome(bi, bj, cfg) == Some((bi, bj)),
{
    let rpx = bi.previous_position.x - bj.previous_position.x;
    let rpy = bi.previous_position.y - bj.previous_position.y;
    let rvx = bi.velocity.x - bj.velocity.x;
    let rvy = bi.velocity.y - bj.velocity.y;
    let rr = bi.radius + bj.radius;
    let vv = rvx * rvx + rvy * rvy;
    let pv = rpx * rvx + rpy * rvy;
    let pp = rpx * rpx + rpy * rpy;
    assert((2 * pv) * (2 * pv) - 4 * vv * (pp - rr * rr) == 4 * (pv * pv - (pp * vv - rr * rr * vv)))
        by (nonlinear_arith);
}

/// No pair's paths meet: every pair is in range and its contact quadratic
/// has no real root.
pub open spec fn no_pair_meets(s: Seq<Body>) -> bool {
    forall|i: int, j: int|
        0 <= i < j < s.len() ==> pair_in_range(#[trigger] s[i], #[trigger] s[j]) && discriminant(
            s[i],
            s[j],
        ) < 0
}

proof fn lemma_resolve_from_untouched(s: Seq<Body>, cfg: Config, i: int, j: int)
    requires
        no_pair_meets(s),
        0 <= i,
        i < j,
    ensures
        resolve_from(s, cfg, i, j) == Some(s),
    decreases s.len() - i, s.len() + 1 - j,
{
    if i < s.len() {
        if j >= s.len() {
            lemma_resolve_from_untouched(s, cfg, i + 1, i + 2);
        } else {
            assert(pair_in_range(s[i], s[j]) && discriminant(s[i], s[j]) < 0);
            assert(s.update(i, s[i]).update(j, s[j]) =~= s);
            lemma_resolve_from_untouched(s, cfg, i, j + 1);
        }
    }
}

/// When no pair's paths meet during the step, the collision pass changes
/// nothing: no body is rolled back and no velocity changes.
pub proof fn lemma_pass_untouched(s: Seq<Body>, cfg: Config)
    requires
        no_pair_meets(s),
    ensures
        resolve_all(s, cfg) == Some(s),
{
    lemma_resolve_from_untouched(s, cfg, 0, 1);
}

/// A negative discriminant alone means no response.
pub proof fn lemma_negative_discriminant_untouched(bi: Body, bj: Body, cfg: Config)
    requires
        pair_in_range(bi, bj),
        discriminant(bi, bj) < 0,
    ensures
        pair_outcome(bi, bj, cfg) == Some((bi, bj)),
{
}

} // verus!
