//! The platforms that the library knows.

use vstd::prelude::*;

verus! {

/// The system on which the program runs.
#[derive(Debug, Clone, Copy, PartialEq, Eq, Structural)]
pub enum Platform {
    Windows,
    Linux,
    Macos,
    Other,
}

/// The systems whose routes the library knows how to change.
#[derive(Debug, Clone, Copy, PartialEq, Eq, Structural)]
pub enum System {
    Windows,
    Linux,
    Macos,
}

impl Platform {
    /// The system, if its routes can be changed.
    pub open spec fn known(self) -> Option<System> {
        match self {
            Platform::Windows => Some(System::Windows),
            Platform::Linux => Some(System::Linux),
            Platform::Macos => Some(System::Macos),
            Platform::Other => None,
        }
    }

    /// The system, if its routes can be changed.
    pub fn system(self) -> (r: Option<System>)
        ensures
            r == self.known(),
    {
        match self {
            Platform::Windows => Some(System::Windows),
            Platform::Linux => Some(System::Linux),
            Platform::Macos => Some(System::Macos),
            Platform::Other => None,
        }
    }
}

} // verus!
