//! The dimming of windows without the focus, and the border of the one with it.
use vstd::prelude::*;

use crate::geometry::{fits, IRect, IVec2};
use crate::number::Number;
use crate::search;

verus! {

/// A color by its three parts.
#[derive(Clone, Copy, Debug, PartialEq)]
pub struct Color {
    pub red: Number,
    pub green: Number,
    pub blue: Number,
}

/// How round the corners of the border are.
#[derive(Clone, Copy, Debug, PartialEq)]
pub enum BorderRadiusOption {
    /// As round as those of the window, as far as that can be told.
    Auto,
    Value(Number),
}

/// What is configured about dimming and borders.
#[derive(Clone, Copy, Debug, PartialEq)]
pub struct OverlaySettings {
    pub dim_opacity: Number,
    pub dim_color: Color,
    pub border_enabled: bool,
    pub border_color: Color,
    pub border_opacity: Number,
    pub border_width: Number,
    pub border_radius: BorderRadiusOption,
}

/// The window with the focus.
#[derive(Debug)]
pub struct FocusedWindow {
    pub frame: IRect,
    pub horizontal_padding: i32,
    pub vertical_padding: i32,
    /// It is laid out.
    pub managed: bool,
    pub full_screen: bool,
    /// The radius that each rule for the window gives it.
    pub rule_radii: Vec<Option<Number>>,
    /// The radius of the window's own corners, if it can be told.
    pub detected_radius: Option<Number>,
}

/// The border that is drawn.
#[derive(Clone, Copy, Debug, PartialEq)]
pub struct BorderParams {
    pub color: Color,
    pub opacity: Number,
    pub width: Number,
    pub radius: Number,
}

/// What becomes of the overlays.
#[derive(Clone, Copy, Debug, PartialEq)]
pub enum OverlayAction {
    /// They are hidden for now.
    Hide,
    /// They are not wanted at all.
    Remove,
    /// They are drawn around this area.
    Update {
        dim_opacity: Number,
        dim_color: Color,
        origin: IVec2,
        size: IVec2,
        border: Option<BorderParams>,
    },
}

/// The radius where it cannot be told: ten points.
pub const DEFAULT_RADIUS_BITS: u64 = 0x4024_0000_0000_0000;

/// The radius that a rule gives.
pub open spec fn is_given() -> spec_fn(Option<Number>) -> bool {
    |radius: Option<Number>| radius is Some
}

/// The radius of the border: what the first rule with one says, else what is
/// configured, which is never negative.
pub open spec fn border_radius(settings: OverlaySettings, window: FocusedWindow) -> Number {
    match search::first_where(window.rule_radii@, is_given()) {
        Some(radius) => radius->0,
        None => match settings.border_radius {
            BorderRadiusOption::Auto => match window.detected_radius {
                Some(radius) => radius,
                None => Number { bits: DEFAULT_RADIUS_BITS },
            },
            BorderRadiusOption::Value(value) => if (Number { bits: 0 }).below(value) {
                value
            } else {
                Number { bits: 0 }
            },
        },
    }
}

/// The window's own area, without the padding around it.
pub open spec fn inner(window: FocusedWindow) -> (IVec2, IVec2) {
    (
        IVec2 {
            x: (window.frame.min.x + window.horizontal_padding) as i32,
            y: (window.frame.min.y + window.vertical_padding) as i32,
        },
        IVec2 {
            x: (window.frame.spec_width() - 2 * window.horizontal_padding) as i32,
            y: (window.frame.spec_height() - 2 * window.vertical_padding) as i32,
        },
    )
}

/// The arithmetic on the window's area fits.
pub open spec fn inner_fits(window: FocusedWindow) -> bool {
    &&& fits(window.frame.min.x + window.horizontal_padding)
    &&& fits(window.frame.min.y + window.vertical_padding)
    &&& window.frame.measurable()
    &&& fits(2 * window.horizontal_padding)
    &&& fits(2 * window.vertical_padding)
    &&& fits(window.frame.spec_width() - 2 * window.horizontal_padding)
    &&& fits(window.frame.spec_height() - 2 * window.vertical_padding)
}

/// Neither dimming nor a border is wanted.
pub open spec fn is_off(settings: OverlaySettings) -> bool {
    settings.dim_opacity.same(Number { bits: 0 }) && !settings.border_enabled
}

/// The window is one that overlays are drawn around.
pub open spec fn is_framed(window: FocusedWindow) -> bool {
    window.managed && !window.full_screen
}

/// What becomes of the overlays.
pub open spec fn overlay_action(
    swiping: bool,
    mission_control: bool,
    settings: OverlaySettings,
    focused: Option<FocusedWindow>,
) -> OverlayAction {
    if swiping || mission_control {
        OverlayAction::Hide
    } else if is_off(settings) {
        OverlayAction::Remove
    } else if focused is None || !is_framed(focused->0) {
        OverlayAction::Hide
    } else {
        let window = focused->0;
        OverlayAction::Update {
            dim_opacity: settings.dim_opacity,
            dim_color: settings.dim_color,
            origin: inner(window).0,
            size: inner(window).1,
            border: if settings.border_enabled {
                Some(
                    BorderParams {
                        color: settings.border_color,
                        opacity: settings.border_opacity,
                        width: settings.border_width,
                        radius: border_radius(settings, window),
                    },
                )
            } else {
                None
            },
        }
    }
}

/// The radius that the first rule with one gives.
fn rule_radius(radii: &Vec<Option<Number>>) -> (radius: Option<Number>)
    ensures
        radius == match search::first_where(radii@, is_given()) {
            Some(radius) => Some(radius->0),
            None => None,
        },
{
    let ghost p = is_given();
    let mut i: usize = 0;
    while i < radii.len()
        invariant
            i <= radii.len(),
            p == is_given(),
            forall|j: int| 0 <= j < i ==> !p(#[trigger] radii@[j]),
        decreases radii.len() - i,
    {
        if let Some(radius) = radii[i] {
            proof {
                search::lemma_first_index(radii@, p, i as int);
            }
            return Some(radius);
        }
        i = i + 1;
    }
    proof {
        search::lemma_no_first_index(radii@, p);
    }
    None
}

/// The radius of the border.
fn radius_of(settings: &OverlaySettings, window: &FocusedWindow) -> (radius: Number)
    ensures
        radius == border_radius(*settings, *window),
{
    match rule_radius(&window.rule_radii) {
        Some(radius) => radius,
        None => match settings.border_radius {
            BorderRadiusOption::Auto => match window.detected_radius {
                Some(radius) => radius,
                None => Number { bits: DEFAULT_RADIUS_BITS },
            },
            BorderRadiusOption::Value(value) => if Number::zero().less_than(value) {
                value
            } else {
                Number::zero()
            },
        },
    }
}

/// What becomes of the overlays: they are hidden while the user swipes, while
/// Mission Control is open and while no window that is laid out has the focus;
/// they go where neither dimming nor a border is wanted.
pub fn update_overlays(
    swiping: bool,
    mission_control: bool,
    settings: &OverlaySettings,
    focused: Option<&FocusedWindow>,
) -> (action: OverlayAction)
    requires
        focused is Some && is_framed(*focused->0) ==> inner_fits(*focused->0),
    ensures
        action == overlay_action(
            swiping,
            mission_control,
            *settings,
            match focused {
                Some(window) => Some(*window),
                None => None,
            },
        ),
{
    if swiping || mission_control {
        return OverlayAction::Hide;
    }
    let undimmed = settings.dim_opacity == Number::zero();
    if undimmed && !settings.border_enabled {
        return OverlayAction::Remove;
    }
    let window = match focused {
        Some(window) => window,
        None => return OverlayAction::Hide,
    };
    if !window.managed || window.full_screen {
        return OverlayAction::Hide;
    }
    let (h_pad, v_pad): (i32, i32) = (window.horizontal_padding, window.vertical_padding);
    let origin = IVec2 { x: window.frame.min.x + h_pad, y: window.frame.min.y + v_pad };
    let size = IVec2 {
        x: window.frame.width() - 2 * h_pad,
        y: window.frame.height() - 2 * v_pad,
    };
    let border = if settings.border_enabled {
        Some(
            BorderParams {
                color: settings.border_color,
                opacity: settings.border_opacity,
                width: settings.border_width,
                radius: radius_of(settings, window),
            },
        )
    } else {
        None
    };
    OverlayAction::Update {
        dim_opacity: settings.dim_opacity,
        dim_color: settings.dim_color,
        origin,
        size,
        border,
    }
}

/// Nothing is dimmed while no window that is laid out has the focus.
pub proof fn law_no_dimming_without_focus(
    swiping: bool,
    mission_control: bool,
    settings: OverlaySettings,
    focused: Option<FocusedWindow>,
)
    requires
        focused is None || !focused->0.managed || focused->0.full_screen,
    ensures
        !(overlay_action(swiping, mission_control, settings, focused) is Update),
{
}

} // verus!
