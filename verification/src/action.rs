use vstd::prelude::*;

verus! {

/// A queued job that advances one step at a time.
pub trait Action: Send {
    /// Advances the job by one step; `false` once it is finished.
    fn step(&mut self) -> bool;
}

} // verus!
