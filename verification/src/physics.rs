//! The physical model: strictly positive masses and movable bodies.

use vstd::prelude::*;

use crate::geometry::{Point, Vector};
use crate::num::{iabs, sym_clamp, MAX_COORD, MAX_MASS, MAX_VEL};
use crate::num::narrow_clamp;
use crate::SCALE;

verus! {

/// Why a constructor rejected its arguments.
#[derive(Clone, Copy, Debug, PartialEq, Eq, Structural)]
pub enum SimError {
    /// A mass must be strictly positive.
    NonPositiveMass,
    /// The accuracy parameter theta must be strictly positive.
    NonPositiveTheta,
    /// A value lies outside the representable fixed-point range.
    OutOfRange,
}

/// A strictly positive scalar mass in milli-units, immutable once built.
#[derive(Clone, Copy, Debug)]
pub struct Mass {
    value: i64,
}

impl Mass {
    /// The mathematical value of the mass.
    pub closed spec fn spec_value(self) -> int {
        self.value as int
    }

    /// A mass is well formed when strictly positive and representable.
    pub open spec fn wf(self) -> bool {
        0 < self.spec_value() <= MAX_MASS as int
    }

    /// Builds a mass; a non-positive or over-large value is rejected.
    pub fn new(m: i64) -> (r: Result<Mass, SimError>)
        ensures
            r is Ok <==> 0 < m <= MAX_MASS,
            m <= 0 ==> r == Result::<Mass, SimError>::Err(SimError::NonPositiveMass),
            m > MAX_MASS ==> r == Result::<Mass, SimError>::Err(SimError::OutOfRange),
            r matches Ok(ms) ==> ms.spec_value() == m && ms.wf(),
    {
        if m <= 0 {
            Err(SimError::NonPositiveMass)
        } else if m > MAX_MASS {
            Err(SimError::OutOfRange)
        } else {
            Ok(Mass { value: m })
        }
    }

    /// The stored scalar.
    pub fn value(self) -> (v: i64)
        ensures
            v == self.spec_value(),
    {
        self.value
    }
}

/// The velocity component gained from one force component: the force
/// scaled by `SCALE / m`, rounded toward zero.
pub open spec fn vel_gain(f: int, m: int) -> int {
    if f < 0 {
        -((iabs(f) * SCALE) / m)
    } else {
        (f * SCALE) / m
    }
}

/// The momentum a body gains in one step differs from the impulse the
/// force prescribes only by the division's rounding: strictly less than
/// one mass worth of ticks.
pub proof fn lemma_vel_gain_momentum_error(f: int, m: int)
    requires
        m >= 1,
    ensures
        iabs(m * vel_gain(f, m) - f * SCALE) < m,
{
    if f < 0 {
        let a = (-f) * (SCALE as int);
        vstd::arithmetic::div_mod::lemma_fundamental_div_mod(a, m);
        vstd::arithmetic::div_mod::lemma_mod_bound(a, m);
        assert(m * vel_gain(f, m) == -(m * (a / m))) by (nonlinear_arith)
            requires
                vel_gain(f, m) == -(a / m),
        ;
        assert((-f) * (SCALE as int) == -(f * SCALE)) by (nonlinear_arith);
    } else {
        let a = f * (SCALE as int);
        vstd::arithmetic::div_mod::lemma_fundamental_div_mod(a, m);
        vstd::arithmetic::div_mod::lemma_mod_bound(a, m);
    }
}

/// Conservation of momentum up to rounding: under opposite forces
/// (Newton's third law, which the pairwise kernel obeys exactly), the
/// total momentum two bodies gain in one step is below one combined
/// mass worth of ticks per axis, however the masses differ.
pub proof fn lemma_momentum_step_bound(f: int, m0: int, m1: int)
    requires
        m0 >= 1,
        m1 >= 1,
    ensures
        iabs(m0 * vel_gain(f, m0) + m1 * vel_gain(-f, m1)) < m0 + m1,
{
    assert(iabs(-f) == iabs(f));
    assert(vel_gain(-f, m1) == -vel_gain(f, m1));
    lemma_vel_gain_momentum_error(f, m0);
    lemma_vel_gain_momentum_error(f, m1);
    assert(m1 * (-vel_gain(f, m1)) == -(m1 * vel_gain(f, m1))) by (nonlinear_arith);
}

/// A movable body: one mass, one position, one velocity. Bodies are
/// identified by their index in the owning collection, never by value.
#[derive(Clone, Copy, Debug)]
pub struct Body {
    pub mass: Mass,
    pub position: Point,
    pub velocity: Vector,
}

impl Body {
    /// A body is well formed when its mass is and its state is in range.
    pub open spec fn wf(self) -> bool {
        &&& self.mass.wf()
        &&& iabs(self.position.x as int) <= MAX_COORD as int
        &&& iabs(self.position.y as int) <= MAX_COORD as int
        &&& iabs(self.velocity.dx as int) <= MAX_VEL as int
        &&& iabs(self.velocity.dy as int) <= MAX_VEL as int
    }

    /// Builds a body; rejects a non-positive mass and out-of-range state.
    pub fn new(mass: i64, position: Point, velocity: Vector) -> (r: Result<Body, SimError>)
        ensures
            r is Ok <==> {
                &&& 0 < mass <= MAX_MASS
                &&& iabs(position.x as int) <= MAX_COORD as int
                &&& iabs(position.y as int) <= MAX_COORD as int
                &&& iabs(velocity.dx as int) <= MAX_VEL as int
                &&& iabs(velocity.dy as int) <= MAX_VEL as int
            },
            mass <= 0 ==> r == Result::<Body, SimError>::Err(SimError::NonPositiveMass),
            r matches Ok(b) ==> {
                &&& b.mass.spec_value() == mass
                &&& b.position == position
                &&& b.velocity == velocity
                &&& b.wf()
            },
            r matches Err(e) ==> (e == SimError::NonPositiveMass || e == SimError::OutOfRange),
    {
        let mass = match Mass::new(mass) {
            Ok(ms) => ms,
            Err(e) => {
                return Err(e);
            },
        };
        if position.x > MAX_COORD || position.x < -MAX_COORD || position.y > MAX_COORD
            || position.y < -MAX_COORD {
            return Err(SimError::OutOfRange);
        }
        if velocity.dx > MAX_VEL || velocity.dx < -MAX_VEL || velocity.dy > MAX_VEL
            || velocity.dy < -MAX_VEL {
            return Err(SimError::OutOfRange);
        }
        Ok(Body { mass, position, velocity })
    }

    /// Adds `force / mass` (one step's acceleration) to the velocity,
    /// saturating at the velocity range.
    pub fn apply_force(&mut self, force: &Vector)
        requires
            old(self).wf(),
        ensures
            final(self).mass == old(self).mass,
            final(self).position == old(self).position,
            final(self).velocity.dx == sym_clamp(
                old(self).velocity.dx + vel_gain(force.dx as int, old(self).mass.spec_value()),
                MAX_VEL as int,
            ),
            final(self).velocity.dy == sym_clamp(
                old(self).velocity.dy + vel_gain(force.dy as int, old(self).mass.spec_value()),
                MAX_VEL as int,
            ),
            final(self).wf(),
    {
        let m = self.mass.value();
        let dx = Self::gain(force.dx, m);
        let dy = Self::gain(force.dy, m);
        let ndx = narrow_clamp((self.velocity.dx as i128) + dx, MAX_VEL);
        let ndy = narrow_clamp((self.velocity.dy as i128) + dy, MAX_VEL);
        self.velocity = Vector { dx: ndx, dy: ndy };
    }

    /// One component of the velocity gained from one force component.
    fn gain(f: i64, m: i64) -> (r: i128)
        requires
            0 < m,
        ensures
            r == vel_gain(f as int, m as int),
    {
        let fm: u128 = if f < 0 {
            (-(f as i128)) as u128
        } else {
            f as u128
        };
        assert(fm == iabs(f as int));
        let g: u128 = fm * (SCALE as u128) / (m as u128);
        proof {
            vstd::arithmetic::div_mod::lemma_div_nonincreasing(
                fm as int * SCALE as int,
                m as int,
            );
        }
        if f < 0 {
            -(g as i128)
        } else {
            g as i128
        }
    }

    /// Adds the velocity to the position, saturating at the world edge.
    pub fn apply_velocity(&mut self)
        requires
            old(self).wf(),
        ensures
            final(self).mass == old(self).mass,
            final(self).velocity == old(self).velocity,
            final(self).position.x == sym_clamp(
                old(self).position.x + old(self).velocity.dx,
                MAX_COORD as int,
            ),
            final(self).position.y == sym_clamp(
                old(self).position.y + old(self).velocity.dy,
                MAX_COORD as int,
            ),
            final(self).wf(),
    {
        let nx = narrow_clamp((self.position.x as i128) + (self.velocity.dx as i128), MAX_COORD);
        let ny = narrow_clamp((self.position.y as i128) + (self.velocity.dy as i128), MAX_COORD);
        self.position = Point { x: nx, y: ny };
    }
}

} // verus!
