//! A discrete-time N-body gravitational simulator over integer (fixed-unit)
//! arithmetic, with velocity-Verlet integration and continuous collision
//! detection with elastic response.
use vstd::prelude::*;

pub mod arith;
pub mod body;
pub mod forces;
pub mod integrator;
pub mod collision;
pub mod simulation;
pub mod center;

verus! {

} // verus!
