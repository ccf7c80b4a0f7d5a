//! How a process is asked to stop.

use vstd::prelude::*;

verus! {

/// The two strengths of a termination request.
#[derive(Clone, Copy, Debug, PartialEq, Eq, Structural)]
pub enum Signal {
    /// Ask the process to exit; it may clean up first, or ignore the request.
    Graceful,
    /// Kill the process; it cannot refuse.
    Forced,
}

impl Default for Signal {
    /// A termination request is graceful unless the caller says otherwise.
    fn default() -> (s: Signal)
        ensures
            s == Signal::Graceful,
    {
        Signal::Graceful
    }
}

} // verus!
