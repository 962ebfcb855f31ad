//! The center of mass: a read-only diagnostic over the bodies.
use vstd::prelude::*;
use crate::arith::{tdiv, div_trunc, lemma_tdiv_bound, lemma_mul_abs_bound};
use crate::body::{Body, Vec2, bounded, MAX_BODIES, MAX_MASS};
use crate::forces::FORCE_POS_LIMIT;

verus! {

/// Sum of `mass * position` over the bodies below `hi`.
pub open spec fn weighted_sum(s: Seq<Body>, hi: int) -> (int, int)
    decreases hi,
{
    if hi <= 0 {
        (0, 0)
    } else {
        let prev = weighted_sum(s, hi - 1);
        let b = s[hi - 1];
        (prev.0 + b.mass * b.position.x, prev.1 + b.mass * b.position.y)
    }
}

/// Sum of the masses of the bodies below `hi`.
pub open spec fn total_mass(s: Seq<Body>, hi: int) -> int
    decreases hi,
{
    if hi <= 0 {
        0
    } else {
        total_mass(s, hi - 1) + s[hi - 1].mass
    }
}

/// The mass-weighted average position, each component rounded toward zero;
/// `None` when there are no bodies.
pub open spec fn center_of_mass_of(s: Seq<Body>) -> Option<(int, int)> {
    if s.len() == 0 {
        None
    } else {
        let w = weighted_sum(s, s.len() as int);
        let m = total_mass(s, s.len() as int);
        Some((tdiv(w.0, m), tdiv(w.1, m)))
    }
}

/// Bodies whose center of mass can be computed without overflow.
pub open spec fn center_ready(s: Seq<Body>) -> bool {
    &&& s.len() <= MAX_BODIES
    &&& forall|k: int| #![trigger s[k]] 0 <= k < s.len() ==> s[k].wf() && bounded(
        s[k].position,
        FORCE_POS_LIMIT as int,
    )
}

proof fn lemma_sums_bound(s: Seq<Body>, hi: int)
    requires
        center_ready(s),
        0 <= hi <= s.len(),
    ensures
        hi <= total_mass(s, hi) <= hi * MAX_MASS,
        -(hi * (MAX_MASS * FORCE_POS_LIMIT)) <= weighted_sum(s, hi).0 <= hi * (MAX_MASS * FORCE_POS_LIMIT),
        -(hi * (MAX_MASS * FORCE_POS_LIMIT)) <= weighted_sum(s, hi).1 <= hi * (MAX_MASS * FORCE_POS_LIMIT),
    decreases hi,
{
    if hi > 0 {
        lemma_sums_bound(s, hi - 1);
        let b = s[hi - 1];
        assert(b.wf());
        lemma_mul_abs_bound(b.mass as int, b.position.x as int, MAX_MASS as int, FORCE_POS_LIMIT as int);
        lemma_mul_abs_bound(b.mass as int, b.position.y as int, MAX_MASS as int, FORCE_POS_LIMIT as int);
    }
}

/// Computes the center of mass of a non-empty set of bodies.
pub fn center_of_mass(bodies: &Vec<Body>) -> (r: Vec2)
    requires
        center_ready(bodies@),
        bodies@.len() > 0,
    ensures
        center_of_mass_of(bodies@) == Some((r.x as int, r.y as int)),
{
    let n = bodies.len();
    let mut wx: i128 = 0;
    let mut wy: i128 = 0;
    let mut m: i128 = 0;
    let mut i: usize = 0;
    while i < n
        invariant
            n == bodies@.len(),
            center_ready(bodies@),
            i <= n,
            (wx as int, wy as int) == weighted_sum(bodies@, i as int),
            m == total_mass(bodies@, i as int),
        decreases n - i,
    {
        proof {
            lemma_sums_bound(bodies@, i + 1);
            assert((i + 1) * (MAX_MASS * FORCE_POS_LIMIT) <= MAX_BODIES * (MAX_MASS * FORCE_POS_LIMIT))
                by (nonlinear_arith)
                requires i + 1 <= MAX_BODIES;
        }
        let b = &bodies[i];
        proof {
            assert(bodies@[i as int].wf());
            lemma_mul_abs_bound(b.mass as int, b.position.x as int, MAX_MASS as int, FORCE_POS_LIMIT as int);
            lemma_mul_abs_bound(b.mass as int, b.position.y as int, MAX_MASS as int, FORCE_POS_LIMIT as int);
        }
        wx = wx + b.mass * b.position.x;
        wy = wy + b.mass * b.position.y;
        m = m + b.mass;
        i = i + 1;
    }
    proof {
        lemma_sums_bound(bodies@, n as int);
        let ghost lim = n * (MAX_MASS * FORCE_POS_LIMIT);
        assert(lim <= MAX_BODIES * (MAX_MASS * FORCE_POS_LIMIT)) by (nonlinear_arith)
            requires lim == n * (MAX_MASS * FORCE_POS_LIMIT), n <= MAX_BODIES;
        assert(lim <= lim * m) by (nonlinear_arith)
            requires m >= 1, lim >= 0;
        lemma_tdiv_bound(wx as int, m as int, lim);
        lemma_tdiv_bound(wy as int, m as int, lim);
    }
    Vec2 { x: div_trunc(wx, m), y: div_trunc(wy, m) }
}

} // verus!
