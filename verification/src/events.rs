//! What happens: the events that drive the window manager.
use vstd::prelude::*;

use crate::commands::Command;
use crate::config::Config;
use crate::number::Number;
use crate::windowset::WinID;

verus! {

/// Where a [`Event::WindowDestroyed`] came from, which decides how far it can
/// be trusted: a closing window is reported through two channels, and only one
/// of them means that the window is gone.
#[derive(Clone, Copy, Debug, PartialEq, Eq, Structural)]
pub enum DestroySource {
    /// The window's own accessibility element has been torn down, so the window
    /// is definitively gone.
    Accessibility,
    /// A space reports that a window left it. This also happens when a window
    /// merely moves to another space, so it has to be confirmed before acting.
    SpaceNotification,
}

/// A process, as the system numbers it.
#[derive(Clone, Copy, Debug, PartialEq, Eq, Structural, Hash)]
pub struct ProcessSerialNumber {
    pub high: u32,
    pub low: u32,
}

/// A point on the screen.
#[derive(Clone, Copy, Debug, PartialEq)]
pub struct Point {
    pub x: Number,
    pub y: Number,
}

/// The modifier keys that are held, one bit each.
#[derive(Clone, Copy, Debug, PartialEq, Eq, Structural, Hash)]
pub struct Modifiers {
    pub bits: u8,
}

/// What the window manager reacts to.
#[derive(Debug)]
pub enum Event {
    /// The application is to exit.
    Exit,
    /// The initial set of processes has been loaded.
    ProcessesLoaded,
    /// The configuration to start with.
    InitialConfig(Config),
    /// A command to the window manager.
    Command { command: Command },
    /// The configuration is to be reloaded.
    ConfigRefresh,
    /// An application has been launched.
    ApplicationLaunched { psn: ProcessSerialNumber },
    /// An application has terminated.
    ApplicationTerminated { psn: ProcessSerialNumber },
    /// The frontmost application has switched.
    ApplicationFrontSwitched { psn: ProcessSerialNumber },
    ApplicationActivated,
    ApplicationDeactivated,
    /// An application has become visible.
    ApplicationVisible { pid: i32 },
    /// An application has become hidden.
    ApplicationHidden { pid: i32 },
    /// A window has been created.
    WindowCreated,
    /// A window has been destroyed, as far as `source` can tell.
    WindowDestroyed { window_id: WinID, source: DestroySource },
    /// A window has gained focus.
    WindowFocused { window_id: WinID },
    /// A window has been moved.
    WindowMoved { window_id: WinID },
    /// A window has been resized.
    WindowResized { window_id: WinID },
    /// A window has been minimized.
    WindowMinimized { window_id: WinID },
    /// A window has been restored.
    WindowDeminimized { window_id: WinID },
    /// A window's title has changed.
    WindowTitleChanged { window_id: WinID },
    MouseDown { point: Point, modifiers: Modifiers },
    MouseUp { point: Point, modifiers: Modifiers },
    MouseDragged { point: Point, modifiers: Modifiers },
    MouseMoved { point: Point, modifiers: Modifiers },
    /// A swipe gesture has been detected.
    Swipe { delta: Number, fingers: usize },
    /// A vertical trackpad gesture.
    VerticalSwipe { delta: Number, fingers: usize },
    /// A single tick of the scroll wheel for vertical workspace switching.
    VerticalScrollTick { delta: Number },
    /// A mouse scroll has been detected.
    Scroll { delta: Number },
    /// Fingers have been placed on the touchpad.
    TouchpadDown,
    /// The fingers have left the touchpad; momentum may follow.
    TouchpadPhysicalUp,
    /// The momentum that follows a gesture has started.
    TouchpadMomentumStart,
    /// The gesture is over, with its momentum.
    TouchpadUp,
    /// A new space has been created.
    SpaceCreated { space_id: u64 },
    /// A space has been destroyed.
    SpaceDestroyed { space_id: u64 },
    /// The active space has changed.
    SpaceChanged,
    /// A new display has been added.
    DisplayAdded { display_id: u32 },
    /// A display has been removed.
    DisplayRemoved { display_id: u32 },
    /// A display has been moved.
    DisplayMoved { display_id: u32 },
    /// A display has been resized.
    DisplayResized { display_id: u32 },
    /// A display's configuration has changed.
    DisplayConfigured { display_id: u32 },
    /// The overall display arrangement has changed.
    DisplayChanged,
    MissionControlShowAllWindows,
    MissionControlShowFrontWindows,
    MissionControlShowDesktop,
    MissionControlExit,
    /// Dock preferences have changed.
    DockDidChangePref { msg: String },
    /// The Dock has restarted.
    DockDidRestart { msg: String },
    /// A menu has been opened.
    MenuOpened { window_id: WinID },
    /// A menu has been closed.
    MenuClosed { window_id: WinID },
    /// The visibility of the menu bar has changed.
    MenuBarHiddenChanged { msg: String },
    /// The system has woken from sleep.
    SystemWoke { msg: String },
    /// The system appearance has changed.
    ThemeChanged,
}

} // verus!
