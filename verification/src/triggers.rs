//! What follows when something happens to a window or an application.
use vstd::prelude::*;

pub mod defaults;
pub mod focus;
pub mod managing;
pub mod messages;
pub mod resize;

verus! {

/// Why a window is not laid out.
#[derive(Clone, Copy, Debug, PartialEq, Eq, Structural)]
pub enum Unmanaged {
    /// It floats above the strip.
    Floating,
    Minimized,
    /// Its application is hidden.
    Hidden,
    /// It is left alone altogether.
    Passthrough,
}

/// How a window is treated unless it is minimized or hidden.
#[derive(Clone, Copy, Debug, PartialEq, Eq, Structural)]
pub enum WindowDisposition {
    Managed,
    Floating,
    Passthrough,
}

impl WindowDisposition {
    /// The mark that a window of this kind has.
    pub open spec fn spec_unmanaged(self) -> Option<Unmanaged> {
        match self {
            WindowDisposition::Managed => None,
            WindowDisposition::Floating => Some(Unmanaged::Floating),
            WindowDisposition::Passthrough => Some(Unmanaged::Passthrough),
        }
    }

    pub fn unmanaged(&self) -> (unmanaged: Option<Unmanaged>)
        ensures
            unmanaged == self.spec_unmanaged(),
    {
        match self {
            WindowDisposition::Managed => None,
            WindowDisposition::Floating => Some(Unmanaged::Floating),
            WindowDisposition::Passthrough => Some(Unmanaged::Passthrough),
        }
    }
}

} // verus!
