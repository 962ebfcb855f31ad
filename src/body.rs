//! Bodies, vectors and the simulation configuration.
use vstd::prelude::*;

verus! {

/// Largest number of bodies a simulation holds.
pub const MAX_BODIES: usize = 1024;

/// Largest mass of a body.
pub const MAX_MASS: i128 = 0x1_0000;

/// Largest gravitational constant.
pub const MAX_G: i128 = 0x10_0000;

/// Bound on the magnitude of every coordinate, velocity and acceleration
/// component, and on radii, at the start of a step.
pub const MAX_COORD: i128 = 0x100_0000;

/// Largest numerator of the time step.
pub const MAX_DT_NUM: i128 = 64;

/// Largest denominator of the time step.
pub const MAX_DT_DEN: i128 = 1024;

/// A 2D vector with integer components.
#[derive(Clone, Copy, PartialEq, Eq, Structural, Debug)]
pub struct Vec2 {
    pub x: i128,
    pub y: i128,
}

/// A simulated disc mass. Positions are whole length units; the part of
/// the motion below one unit is carried in `position_remainder`, counted in
/// sub-units of `1 / (2 * dt_den^2)`, so that slow motion is never lost.
#[derive(Clone, Copy, PartialEq, Eq, Structural, Debug)]
pub struct Body {
    pub mass: i128,
    pub radius: i128,
    pub position: Vec2,
    pub position_remainder: Vec2,
    pub previous_position: Vec2,
    pub velocity: Vec2,
    pub acceleration_current: Vec2,
    pub acceleration_previous: Vec2,
    pub force: Vec2,
}

/// Tunable constants of a simulation. The time step is the fraction
/// `dt_num / dt_den`; `g` scales gravity.
///
/// `min_distance` is the softening floor: the force law never uses a
/// distance below it. A floor keeps close encounters from producing huge
/// forces, at the price of weakening attraction inside it; a floor of 0
/// turns it off, which is physically accurate but lets close passes
/// diverge. There is no default: each configuration picks one. With
/// collisions enabled, bodies rarely come closer than the sum of their radii,
/// so a floor no larger than that sum changes little.
#[derive(Clone, Copy, PartialEq, Eq, Structural, Debug)]
pub struct Config {
    pub dt_num: i128,
    pub dt_den: i128,
    pub g: i128,
    pub min_distance: i128,
    pub collisions: bool,
}

/// Why a body or a configuration was refused.
#[derive(Clone, Copy, PartialEq, Eq, Structural, Debug)]
pub enum SimError {
    NonPositiveMass,
    NegativeRadius,
    MassTooLarge,
    ValueOutOfRange,
    InvalidTimeStep,
    InvalidConstant,
    TooManyBodies,
}

/// Both components of `v` lie within `[-b, b]`.
pub open spec fn bounded(v: Vec2, b: int) -> bool {
    -b <= v.x <= b && -b <= v.y <= b
}

impl Vec2 {
    pub fn new(x: i128, y: i128) -> (r: Vec2)
        ensures
            r.x == x,
            r.y == y,
    {
        Vec2 { x, y }
    }

    pub fn zero() -> (r: Vec2)
        ensures
            r.x == 0,
            r.y == 0,
    {
        Vec2 { x: 0, y: 0 }
    }
}

impl Config {
    /// A configuration is valid when its time step is a positive fraction no
    /// larger than its bounds allow and its constants are in range.
    pub open spec fn wf(&self) -> bool {
        0 < self.dt_num <= MAX_DT_NUM && 0 < self.dt_den <= MAX_DT_DEN && 0 <= self.g <= MAX_G
            && 0 <= self.min_distance <= MAX_COORD
    }

    /// Checks and builds a configuration.
    pub fn new(dt_num: i128, dt_den: i128, g: i128, min_distance: i128, collisions: bool) -> (r:
        Result<Config, SimError>)
        ensures
            match r {
                Ok(c) => c.wf() && c.dt_num == dt_num && c.dt_den == dt_den && c.g == g
                    && c.min_distance == min_distance && c.collisions == collisions,
                Err(e) => {
                    &&& (e == SimError::InvalidTimeStep) == !(0 < dt_num <= MAX_DT_NUM && 0 < dt_den
                        <= MAX_DT_DEN)
                    &&& e == SimError::InvalidTimeStep || e == SimError::InvalidConstant
                },
            },
            r.is_ok() == (Config { dt_num, dt_den, g, min_distance, collisions }).wf(),
    {
        if !(0 < dt_num && dt_num <= MAX_DT_NUM && 0 < dt_den && dt_den <= MAX_DT_DEN) {
            Err(SimError::InvalidTimeStep)
        } else if !(0 <= g && g <= MAX_G && 0 <= min_distance && min_distance <= MAX_COORD) {
            Err(SimError::InvalidConstant)
        } else {
            Ok(Config { dt_num, dt_den, g, min_distance, collisions })
        }
    }
}

impl Body {
    /// The invariant of a body: positive mass, non-negative radius, both in
    /// range.
    pub open spec fn wf(&self) -> bool {
        0 < self.mass <= MAX_MASS && 0 <= self.radius <= MAX_COORD
    }

    /// Every vector of the body is within `b`.
    pub open spec fn state_within(&self, b: int) -> bool {
        &&& bounded(self.position, b)
        &&& bounded(self.previous_position, b)
        &&& bounded(self.velocity, b)
        &&& bounded(self.acceleration_current, b)
        &&& bounded(self.acceleration_previous, b)
        &&& bounded(self.position_remainder, b)
    }

    /// A body at rest in its acceleration history, with no force yet, whose
    /// previous position is its position.
    pub open spec fn initial(mass: int, radius: int, position: Vec2, velocity: Vec2) -> Body {
        Body {
            mass: mass as i128,
            radius: radius as i128,
            position,
            position_remainder: Vec2 { x: 0, y: 0 },
            previous_position: position,
            velocity,
            acceleration_current: Vec2 { x: 0, y: 0 },
            acceleration_previous: Vec2 { x: 0, y: 0 },
            force: Vec2 { x: 0, y: 0 },
        }
    }

    /// Whether the body is valid and all its vectors are within `MAX_COORD`.
    pub fn in_step_range(&self) -> (r: bool)
        ensures
            r == (self.wf() && self.state_within(MAX_COORD as int)),
    {
        0 < self.mass && self.mass <= MAX_MASS && 0 <= self.radius && self.radius <= MAX_COORD
            && in_range(self.position) && in_range(self.previous_position) && in_range(
            self.velocity,
        ) && in_range(self.acceleration_current) && in_range(self.acceleration_previous) && in_range(
            self.position_remainder,
        )
    }

    /// Checks the invariant and builds a body.
    pub fn new(mass: i128, radius: i128, position: Vec2, velocity: Vec2) -> (r: Result<
        Body,
        SimError,
    >)
        ensures
            mass <= 0 ==> r == Err::<Body, SimError>(SimError::NonPositiveMass),
            mass > 0 && radius < 0 ==> r == Err::<Body, SimError>(SimError::NegativeRadius),
            mass > MAX_MASS && radius >= 0 ==> r == Err::<Body, SimError>(SimError::MassTooLarge),
            0 < mass <= MAX_MASS && 0 <= radius ==> (r is Ok <==> radius <= MAX_COORD
                && bounded(position, MAX_COORD as int) && bounded(velocity, MAX_COORD as int)),
            r is Err ==> r == Err::<Body, SimError>(SimError::NonPositiveMass) || r == Err::<
                Body,
                SimError,
            >(SimError::NegativeRadius) || r == Err::<Body, SimError>(SimError::MassTooLarge)
                || r == Err::<Body, SimError>(SimError::ValueOutOfRange),
            r is Ok ==> r == Ok::<Body, SimError>(Body::initial(mass as int, radius as int, position, velocity)),
    {
        if mass <= 0 {
            return Err(SimError::NonPositiveMass);
        }
        if radius < 0 {
            return Err(SimError::NegativeRadius);
        }
        if mass > MAX_MASS {
            return Err(SimError::MassTooLarge);
        }
        if radius > MAX_COORD || !in_range(position) || !in_range(velocity) {
            return Err(SimError::ValueOutOfRange);
        }
        Ok(
            Body {
                mass,
                radius,
                position,
                position_remainder: Vec2::zero(),
                previous_position: position,
                velocity,
                acceleration_current: Vec2::zero(),
                acceleration_previous: Vec2::zero(),
                force: Vec2::zero(),
            },
        )
    }
}

/// Whether both components of `v` are within `MAX_COORD`.
pub fn in_range(v: Vec2) -> (r: bool)
    ensures
        r == bounded(v, MAX_COORD as int),
{
    -MAX_COORD <= v.x && v.x <= MAX_COORD && -MAX_COORD <= v.y && v.y <= MAX_COORD
}

} // verus!
