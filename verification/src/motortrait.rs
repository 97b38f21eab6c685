use vstd::prelude::*;
use crate::servo42::MotorError;

verus! {

/// Where a motor stands after an update.
#[derive(Debug, PartialEq, Eq, Structural, Clone, Copy)]
pub enum UpdateStatus {
    Working,
    GetThere,
}

/// A motor under closed-loop control that is driven towards a target by
/// periodic updates.
pub trait Motor where Self: Sized {
    type PosUnit;

    type Info;

    type Builder: MotorBuilder<Self>;

    /// Sets a new target.
    fn goto(&mut self, pos: Self::PosUnit) -> Result<(), MotorError>;

    /// Printable information about the motor.
    fn get_info(&mut self) -> Self::Info;

    /// One step of control, `time_from_last` after the previous one.
    fn update(&mut self, time_from_last: core::time::Duration) -> Result<UpdateStatus, MotorError>;

    /// Finds the zero and sets it.
    fn reset(&mut self);

    /// Takes the current position as the zero.
    fn set_zero(&mut self);
}

/// Builds a motor of type `M`, setting it up on the way.
pub trait MotorBuilder<M> {
    fn build(self) -> Result<M, MotorError>;
}

} // verus!
