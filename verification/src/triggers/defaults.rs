//! The sizes and places that rules give a window when it appears or is laid out again.
//!
//! Rules give shares of a display. What they come to is floating point arithmetic and
//! not decided here: it is decided which share of what is asked for.
use vstd::prelude::*;

use crate::geometry::{fits, IRect};
use crate::number::Number;
use crate::triggers::WindowDisposition;

verus! {

/// A display, and how much of it is left free on both sides.
#[derive(Clone, Copy, Debug)]
pub struct PaddedDisplay {
    pub bounds: IRect,
    pub pad_left: i32,
    pub pad_right: i32,
}

impl PaddedDisplay {
    /// The width between the two sides that are left free.
    pub open spec fn spec_padded_width(self) -> int {
        self.bounds.spec_width() - self.pad_left - self.pad_right
    }

    /// All that is measured of the display fits a coordinate.
    pub open spec fn can_measure(self) -> bool {
        &&& self.bounds.measurable()
        &&& fits(self.bounds.spec_width() - self.pad_left)
        &&& fits(self.spec_padded_width())
    }

    /// The width between the two sides that are left free.
    pub fn padded_width(&self) -> (width: i32)
        requires
            self.can_measure(),
        ensures
            width == self.spec_padded_width(),
    {
        self.bounds.width() - self.pad_left - self.pad_right
    }
}

/// A size that a rule asks for: a share of a width, and a height.
#[derive(Clone, Copy, Debug, PartialEq)]
pub struct SharedSize {
    pub ratio: Number,
    pub padded_width: i32,
    pub height: i32,
}

/// The size that a rule asks for.
pub open spec fn asked_size(ratio: Option<Number>, display: PaddedDisplay) -> Option<SharedSize> {
    match ratio {
        Some(ratio) => Some(
            SharedSize {
                ratio,
                padded_width: display.spec_padded_width() as i32,
                height: display.bounds.spec_height() as i32,
            },
        ),
        None => None,
    }
}

/// The size that a rule asks for on a display: its share of the width between the
/// paddings, at the height of the display. Without a share nothing is asked for.
pub fn rule_size(ratio: Option<Number>, display: &PaddedDisplay) -> (size: Option<SharedSize>)
    requires
        ratio is Some ==> display.can_measure(),
    ensures
        size == asked_size(ratio, *display),
{
    match ratio {
        Some(ratio) => Some(
            SharedSize {
                ratio,
                padded_width: display.padded_width(),
                height: display.bounds.height(),
            },
        ),
        None => None,
    }
}

// ---------------------------------------------------------------------------
// A window appears
// ---------------------------------------------------------------------------
/// The most space that a rule can leave around a window.
pub const MOST_PADDING: i32 = 50;

/// Shares of a display: a place and a size.
#[derive(Clone, Copy, Debug, PartialEq)]
pub struct GridRatios {
    pub x: Number,
    pub y: Number,
    pub width: Number,
    pub height: Number,
}

/// What the rules say of a window.
#[derive(Clone, Copy, Debug)]
pub struct WindowRules {
    pub disposition: WindowDisposition,
    pub grid: Option<GridRatios>,
    pub vertical_padding: i32,
    pub horizontal_padding: i32,
    pub width_ratio: Option<Number>,
}

/// What is done to a window that appears.
#[derive(Clone, Copy, Debug, PartialEq)]
pub enum DefaultStep {
    /// It gets these shares of a display of this size.
    PlaceOnGrid { ratios: GridRatios, width: i32, height: i32 },
    /// So much is left free above and below it.
    PadVertically(i32),
    /// So much is left free on both sides of it.
    PadHorizontally(i32),
    /// Its frame is read anew, and its place and size are noted.
    Note,
    /// Its frame is read anew.
    Measure,
    /// It gets this share of a width, and keeps its height.
    Widen { ratio: Number, padded_width: i32 },
}

/// Padding within its bounds.
pub open spec fn clamped(padding: int) -> int {
    if padding < 0 {
        0
    } else if padding > MOST_PADDING {
        MOST_PADDING as int
    } else {
        padding
    }
}

fn clamp(padding: i32) -> (within: i32)
    ensures
        within == clamped(padding as int),
{
    if padding < 0 {
        0
    } else if padding > MOST_PADDING {
        MOST_PADDING
    } else {
        padding
    }
}

impl WindowRules {
    /// The window floats, and a rule places it.
    pub open spec fn is_on_grid(self, initializing: bool) -> bool {
        self.disposition == WindowDisposition::Floating && !initializing && self.grid is Some
    }

    /// What the sizes of the display are needed for.
    pub open spec fn measures_display(self, initializing: bool) -> bool {
        self.is_on_grid(initializing) || self.disposition == WindowDisposition::Managed
            && self.width_ratio is Some
    }

    /// What is done to the window, in order.
    pub open spec fn steps(self, display: PaddedDisplay, initializing: bool) -> Seq<DefaultStep> {
        if self.disposition == WindowDisposition::Managed {
            seq![
                DefaultStep::PadVertically(clamped(self.vertical_padding as int) as i32),
                DefaultStep::PadHorizontally(clamped(self.horizontal_padding as int) as i32),
                DefaultStep::Note,
            ] + match self.width_ratio {
                Some(ratio) => seq![
                    DefaultStep::Measure,
                    DefaultStep::Widen { ratio, padded_width: display.spec_padded_width() as i32 },
                    DefaultStep::Measure,
                ],
                None => Seq::empty(),
            }
        } else if self.is_on_grid(initializing) {
            seq![
                DefaultStep::PlaceOnGrid {
                    ratios: self.grid->0,
                    width: display.bounds.spec_width() as i32,
                    height: display.bounds.spec_height() as i32,
                },
            ]
        } else {
            Seq::empty()
        }
    }
}

/// What is done to a window that appears, in order. Only a window that is laid out gets
/// padding; its configured width comes last, so that nothing overwrites it. A floating
/// one is placed by its rule, but not during the start, when it is not known which
/// display it is on. All others are left alone, and so is a window whose application is
/// not known.
pub fn apply_window_defaults(
    rules: Option<WindowRules>,
    display: &PaddedDisplay,
    initializing: bool,
) -> (steps: Vec<DefaultStep>)
    requires
        rules matches Some(rules) ==> rules.measures_display(initializing) ==> display.can_measure(),
    ensures
        steps@ == match rules {
            Some(rules) => rules.steps(*display, initializing),
            None => Seq::empty(),
        },
{
    let mut steps: Vec<DefaultStep> = Vec::new();
    let rules = match rules {
        Some(rules) => rules,
        None => return steps,
    };
    if rules.disposition != WindowDisposition::Managed {
        if rules.disposition == WindowDisposition::Floating && !initializing {
            if let Some(ratios) = rules.grid {
                steps.push(
                    DefaultStep::PlaceOnGrid {
                        ratios,
                        width: display.bounds.width(),
                        height: display.bounds.height(),
                    },
                );
            }
        }
        assert(steps@ =~= rules.steps(*display, initializing));
        return steps;
    }
    steps.push(DefaultStep::PadVertically(clamp(rules.vertical_padding)));
    steps.push(DefaultStep::PadHorizontally(clamp(rules.horizontal_padding)));
    steps.push(DefaultStep::Note);
    if let Some(ratio) = rules.width_ratio {
        steps.push(DefaultStep::Measure);
        steps.push(DefaultStep::Widen { ratio, padded_width: display.padded_width() });
        steps.push(DefaultStep::Measure);
    }
    assert(steps@ =~= rules.steps(*display, initializing));
    steps
}

/// A window that passes through is not touched, nor is a floating one during the start.
pub proof fn law_passthrough_is_untouched(
    rules: WindowRules,
    display: PaddedDisplay,
    initializing: bool,
)
    requires
        rules.disposition == WindowDisposition::Passthrough || rules.disposition
            == WindowDisposition::Floating && initializing,
    ensures
        rules.steps(display, initializing) == Seq::<DefaultStep>::empty(),
{
}

/// No more than the bounds allow is left free around a window.
pub proof fn law_padding_is_bounded(
    rules: WindowRules,
    display: PaddedDisplay,
    initializing: bool,
    i: int,
)
    requires
        0 <= i < rules.steps(display, initializing).len(),
    ensures
        rules.steps(display, initializing)[i] matches DefaultStep::PadVertically(padding) ==> 0
            <= padding <= MOST_PADDING,
        rules.steps(display, initializing)[i] matches DefaultStep::PadHorizontally(padding) ==> 0
            <= padding <= MOST_PADDING,
{
}

} // verus!
