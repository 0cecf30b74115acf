//! The options of swipe gestures.
use vstd::prelude::*;

use crate::number::Number;

verus! {

/// Which way the windows move when fingers swipe.
#[derive(Clone, Copy, Debug, PartialEq, Eq, Structural)]
pub enum SwipeGestureDirection {
    Natural,
    Reversed,
}

/// The key that turns scrolling into swiping.
#[derive(Clone, Copy, Debug, PartialEq, Eq, Structural)]
pub enum SwipeScrollModifier {
    Alt,
    Cmd,
}

/// How swiping moves windows.
#[derive(Clone, Copy, Debug)]
pub struct SwipeOptions {
    /// Swipe sensitivity multiplier: lower values mean less distance per finger
    /// movement.
    pub sensitivity: Option<Number>,
    /// Swipe inertia deceleration rate: higher values stop faster.
    pub deceleration: Option<Number>,
    /// Swiping keeps sliding windows until the first or last window. If false,
    /// edge windows stay on the screen.
    pub continuous: Option<bool>,
    pub gesture: Option<GestureOptions>,
    pub scroll: Option<ScrollOptions>,
}

/// Swiping with fingers.
#[derive(Clone, Copy, Debug)]
pub struct GestureOptions {
    /// The number of fingers required for swipe gestures to move windows.
    pub fingers_count: Option<usize>,
    /// Which direction swipe gestures should move windows.
    pub direction: Option<SwipeGestureDirection>,
}

/// Swiping with the scroll wheel.
#[derive(Clone, Copy, Debug)]
pub struct ScrollOptions {
    /// The modifier key required for scroll wheel swiping.
    pub modifier: Option<SwipeScrollModifier>,
}

impl Default for GestureOptions {
    fn default() -> (options: Self)
        ensures
            options.fingers_count is None,
            options.direction is None,
    {
        GestureOptions { fingers_count: None, direction: None }
    }
}

impl Default for ScrollOptions {
    fn default() -> (options: Self)
        ensures
            options.modifier is None,
    {
        ScrollOptions { modifier: None }
    }
}

impl Default for SwipeOptions {
    fn default() -> (options: Self)
        ensures
            options.sensitivity is None,
            options.deceleration is None,
            options.continuous is None,
            options.gesture is None,
            options.scroll is None,
    {
        SwipeOptions {
            sensitivity: None,
            deceleration: None,
            continuous: None,
            gesture: None,
            scroll: None,
        }
    }
}

/// The least number of fingers that swipe.
pub const LEAST_FINGERS: usize = 3;

/// The number of fingers that swipe: fewer than [`LEAST_FINGERS`] are as if none
/// were configured.
pub open spec fn swiping_fingers(configured: Option<usize>) -> Option<usize> {
    match configured {
        Some(fingers) => if fingers >= LEAST_FINGERS {
            Some(fingers)
        } else {
            None
        },
        None => None,
    }
}

/// The number of fingers that swipe, given the one that is configured.
pub fn accepted_fingers(configured: Option<usize>) -> (fingers: Option<usize>)
    ensures
        fingers == swiping_fingers(configured),
{
    match configured {
        Some(fingers) => if fingers >= LEAST_FINGERS {
            Some(fingers)
        } else {
            None
        },
        None => None,
    }
}

/// Which way offsets go when fingers go right.
pub open spec fn sign_of(direction: SwipeGestureDirection) -> int {
    match direction {
        SwipeGestureDirection::Natural => -1,
        SwipeGestureDirection::Reversed => 1,
    }
}

/// Which way a swipe moves a strip: against its offset where swiping is natural,
/// along with it where it is reversed.
pub fn horizontal_direction_modifier(direction: SwipeGestureDirection) -> (sign: i32)
    ensures
        sign == sign_of(direction),
{
    match direction {
        SwipeGestureDirection::Natural => -1,
        SwipeGestureDirection::Reversed => 1,
    }
}

} // verus!
