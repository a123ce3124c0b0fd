//! The physical state of one simulated entity, as the physics engine owns it.

use crate::scalar::Scalar;
use vstd::prelude::*;

verus! {

/// Three measurements along the world axes.
#[derive(Clone, Copy, Debug, PartialEq, Eq, Structural)]
pub struct Vec3 {
    pub x: Scalar,
    pub y: Scalar,
    pub z: Scalar,
}

/// An orientation, as the four components of a unit quaternion.
#[derive(Clone, Copy, Debug, PartialEq, Eq, Structural)]
pub struct Quat {
    pub x: Scalar,
    pub y: Scalar,
    pub z: Scalar,
    pub w: Scalar,
}

/// Everything the physics engine keeps for one entity.
#[derive(Clone, Copy, Debug, PartialEq, Eq, Structural)]
pub struct PhysicalState {
    pub position: Vec3,
    pub velocity: Vec3,
    pub rotation: Quat,
    pub mass: Scalar,
    /// External force accumulated for the next step.
    pub force: Vec3,
    /// External impulse accumulated for the next step.
    pub impulse: Vec3,
}

/// A state that must not be simulated any further.
#[derive(Clone, Copy, Debug, PartialEq, Eq, Structural)]
pub enum InvariantViolation {
    /// Some component of the state is not a number.
    NotANumber,
    /// The mass is below zero.
    NegativeMass,
}

impl Vec3 {
    pub open spec fn has_nan(self) -> bool {
        self.x.nan() || self.y.nan() || self.z.nan()
    }

    pub fn any_nan(&self) -> (r: bool)
        ensures
            r == self.has_nan(),
    {
        self.x.is_nan() || self.y.is_nan() || self.z.is_nan()
    }
}

impl Quat {
    pub open spec fn has_nan(self) -> bool {
        self.x.nan() || self.y.nan() || self.z.nan() || self.w.nan()
    }

    pub fn any_nan(&self) -> (r: bool)
        ensures
            r == self.has_nan(),
    {
        self.x.is_nan() || self.y.is_nan() || self.z.is_nan() || self.w.is_nan()
    }
}

impl PhysicalState {
    pub open spec fn has_nan(self) -> bool {
        ||| self.position.has_nan()
        ||| self.velocity.has_nan()
        ||| self.rotation.has_nan()
        ||| self.mass.nan()
        ||| self.force.has_nan()
        ||| self.impulse.has_nan()
    }

    /// What is wrong with the state, if anything. A component that is not a
    /// number is reported before a negative mass.
    pub open spec fn violation(self) -> Option<InvariantViolation> {
        if self.has_nan() {
            Some(InvariantViolation::NotANumber)
        } else if self.mass.rank() < 0 {
            Some(InvariantViolation::NegativeMass)
        } else {
            None
        }
    }

    /// Checks the state before a tick is run on it.
    pub fn check(&self) -> (r: Result<(), InvariantViolation>)
        ensures
            r == match self.violation() {
                Some(v) => Err::<(), InvariantViolation>(v),
                None => Ok::<(), InvariantViolation>(()),
            },
    {
        if self.position.any_nan() || self.velocity.any_nan() || self.rotation.any_nan()
            || self.mass.is_nan() || self.force.any_nan() || self.impulse.any_nan() {
            Err(InvariantViolation::NotANumber)
        } else if self.mass.is_negative() {
            Err(InvariantViolation::NegativeMass)
        } else {
            Ok(())
        }
    }
}

} // verus!
