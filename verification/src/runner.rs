//! Runners executing actual application logic.

use vstd::prelude::*;

use crate::error::ErrorPtr;

verus! {

/// The priority of a runner with no particular priority.
pub const DEFAULT_PRIORITY: i8 = 0;

/// Runs application logic. Runners are run by the application, highest priority first.
pub trait ApplicationRunner {
    /// Runs any application code.
    fn run(&self) -> Result<(), ErrorPtr>;

    /// The priority this runner reports.
    spec fn spec_priority(&self) -> i8;

    /// Returns the priority for this runner. Higher priorities get run first; a runner with no
    /// particular priority returns [DEFAULT_PRIORITY].
    fn priority(&self) -> (r: i8)
        ensures
            r == self.spec_priority(),
    ;
}

} // verus!
