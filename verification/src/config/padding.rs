//! The options of the space at screen edges.
use vstd::prelude::*;

verus! {

/// Padding applied at screen edges, in pixels, independent of the gaps between
/// windows. Nothing on a side means no padding there.
#[derive(Clone, Copy, Debug)]
pub struct PaddingOptions {
    pub top: Option<u16>,
    pub bottom: Option<u16>,
    pub left: Option<u16>,
    pub right: Option<u16>,
}

impl Default for PaddingOptions {
    fn default() -> (options: Self)
        ensures
            options.top is None,
            options.bottom is None,
            options.left is None,
            options.right is None,
    {
        PaddingOptions { top: None, bottom: None, left: None, right: None }
    }
}

} // verus!
