//! The one-time startup step of a host that loads the library: the first
//! call asks for the one-time work, every later call is a no-op.
use vstd::prelude::*;

verus! {

/// Whether the host's startup step has run.
pub struct Startup {
    done: bool,
}

impl Startup {
    /// The startup step has run.
    pub closed spec fn is_initialized(&self) -> bool {
        self.done
    }

    /// A host that has not started up yet.
    pub fn new() -> (s: Self)
        ensures
            !s.is_initialized(),
    {
        Startup { done: false }
    }

    /// Whether the startup step has run.
    pub fn initialized(&self) -> (r: bool)
        ensures
            r == self.is_initialized(),
    {
        self.done
    }

    /// Runs the startup step. Returns true on the first call only, when the
    /// caller is to do the one-time work; any later call changes nothing and
    /// returns false.
    pub fn initialize(&mut self) -> (first: bool)
        ensures
            first == !old(self).is_initialized(),
            final(self).is_initialized(),
    {
        let first = !self.done;
        self.done = true;
        first
    }
}

} // verus!
