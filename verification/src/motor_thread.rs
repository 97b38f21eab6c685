use vstd::prelude::*;

verus! {

/// A command to a thread that drives a motor.
#[derive(Debug, PartialEq, Eq, Structural, Clone, Copy)]
pub enum MotorComand {
    KillThread,
}

/// How long the driving thread keeps one target before it turns to the
/// other, in nanoseconds: 10 s.
pub const SWITCH_AFTER_NANOS: u128 = 10_000_000_000;

/// What the driving thread does in one round of its loop.
#[derive(Debug, PartialEq, Eq, Structural, Clone, Copy)]
pub enum DriveAction {
    /// Release the motor's lock and end the thread.
    Release,
    /// Send the motor towards the far target (`far`) or back to zero, restart
    /// the target timer, then drive and report.
    Retarget { far: bool },
    /// Drive towards the current target and report.
    Drive,
}

/// The decisions of the driving thread: which of its two targets (zero or
/// the far one) it last chose.
#[derive(Debug, PartialEq, Eq, Structural, Clone, Copy)]
pub struct DriveSchedule {
    pub far: bool,
}

impl DriveSchedule {
    /// A thread that has chosen no target yet counts as heading to zero, so
    /// its first switch goes to the far target.
    pub fn new() -> (r: DriveSchedule)
        ensures
            !r.far,
    {
        DriveSchedule { far: false }
    }

    /// One round of the loop, given the command received (if any) and the
    /// time since the target last changed: a kill command ends the thread;
    /// otherwise, once more than 10 s have passed, the target switches to
    /// the other one; otherwise the motor is driven on.
    pub fn decide(&mut self, cmd: Option<MotorComand>, since_switch_nanos: u128) -> (a: DriveAction)
        ensures
            cmd is Some ==> a == DriveAction::Release && *final(self) == *old(self),
            cmd is None && since_switch_nanos > SWITCH_AFTER_NANOS ==> {
                &&& final(self).far == !old(self).far
                &&& a == (DriveAction::Retarget { far: final(self).far })
            },
            cmd is None && since_switch_nanos <= SWITCH_AFTER_NANOS ==> {
                &&& a == DriveAction::Drive
                &&& *final(self) == *old(self)
            },
    {
        match cmd {
            Some(MotorComand::KillThread) => DriveAction::Release,
            None => {
                if since_switch_nanos > SWITCH_AFTER_NANOS {
                    self.far = !self.far;
                    DriveAction::Retarget { far: self.far }
                } else {
                    DriveAction::Drive
                }
            },
        }
    }
}

} // verus!
