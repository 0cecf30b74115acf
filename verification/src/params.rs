//! Settings and flags that the systems share.
use vstd::prelude::*;

use crate::clock::Duration;
use crate::config::swipe;
use crate::config::swipe::accepted_fingers;
use crate::windowset::WinID;

verus! {

/// The options that the systems ask for.
#[derive(Clone, Copy, Debug, PartialEq, Eq, Structural)]
pub struct RuntimeOptions {
    pub focus_follows_mouse: Option<bool>,
    pub mouse_follows_focus: Option<bool>,
    pub continuous_swipe: Option<bool>,
    pub swipe_gesture_fingers: Option<usize>,
}

/// The options and the flags that go with them.
#[derive(Clone, Copy, Debug, PartialEq, Eq, Structural)]
pub struct Configuration {
    options: RuntimeOptions,
    focus_follows_mouse_id: Option<WinID>,
    skip_reshuffle: bool,
    mission_control_active: bool,
}

/// A switch that is on unless it is turned off.
pub open spec fn on_by_default(option: Option<bool>) -> bool {
    match option {
        Some(on) => on,
        None => true,
    }
}

fn is_on(option: Option<bool>) -> (on: bool)
    ensures
        on == on_by_default(option),
{
    match option {
        Some(on) => on,
        None => true,
    }
}

impl Configuration {
    pub closed spec fn spec_options(&self) -> RuntimeOptions {
        self.options
    }

    /// The window that the mouse gave the focus to.
    pub closed spec fn spec_ffm_flag(&self) -> Option<WinID> {
        self.focus_follows_mouse_id
    }

    pub closed spec fn spec_skip_reshuffle(&self) -> bool {
        self.skip_reshuffle
    }

    pub closed spec fn spec_mission_control(&self) -> bool {
        self.mission_control_active
    }

    /// The options, with no flag set.
    pub fn new(options: RuntimeOptions, mission_control_active: bool) -> (configuration: Self)
        ensures
            configuration.spec_options() == options,
            configuration.spec_ffm_flag() is None,
            !configuration.spec_skip_reshuffle(),
            configuration.spec_mission_control() == mission_control_active,
    {
        Configuration {
            options,
            focus_follows_mouse_id: None,
            skip_reshuffle: false,
            mission_control_active,
        }
    }

    /// Whether the focus follows the mouse, which it does by default.
    pub fn focus_follows_mouse(&self) -> (follows: bool)
        ensures
            follows == on_by_default(self.spec_options().focus_follows_mouse),
    {
        is_on(self.options.focus_follows_mouse)
    }

    /// Whether the mouse follows the focus, which it does by default.
    pub fn mouse_follows_focus(&self) -> (follows: bool)
        ensures
            follows == on_by_default(self.spec_options().mouse_follows_focus),
    {
        is_on(self.options.mouse_follows_focus)
    }

    /// Whether a swipe goes on past the edge, which it does by default.
    pub fn continuous_swipe(&self) -> (continuous: bool)
        ensures
            continuous == on_by_default(self.spec_options().continuous_swipe),
    {
        is_on(self.options.continuous_swipe)
    }

    /// How many fingers swipe, if that is configured.
    pub fn swipe_gesture_fingers(&self) -> (fingers: Option<usize>)
        ensures
            fingers == swipe::swiping_fingers(self.spec_options().swipe_gesture_fingers),
    {
        accepted_fingers(self.options.swipe_gesture_fingers)
    }

    /// The window that the mouse gave the focus to.
    pub fn ffm_flag(&self) -> (flag: Option<WinID>)
        ensures
            flag == self.spec_ffm_flag(),
    {
        self.focus_follows_mouse_id
    }

    /// Notes the window that the mouse gave the focus to.
    pub fn set_ffm_flag(&mut self, flag: Option<WinID>)
        ensures
            final(self).spec_ffm_flag() == flag,
            final(self).spec_options() == old(self).spec_options(),
            final(self).spec_skip_reshuffle() == old(self).spec_skip_reshuffle(),
            final(self).spec_mission_control() == old(self).spec_mission_control(),
    {
        self.focus_follows_mouse_id = flag;
    }

    /// Notes whether the windows are not to be laid out again for now.
    pub fn set_skip_reshuffle(&mut self, to: bool)
        ensures
            final(self).spec_skip_reshuffle() == to,
            final(self).spec_options() == old(self).spec_options(),
            final(self).spec_ffm_flag() == old(self).spec_ffm_flag(),
            final(self).spec_mission_control() == old(self).spec_mission_control(),
    {
        self.skip_reshuffle = to;
    }

    pub fn skip_reshuffle(&self) -> (skip: bool)
        ensures
            skip == self.spec_skip_reshuffle(),
    {
        self.skip_reshuffle
    }

    pub fn mission_control_active(&self) -> (active: bool)
        ensures
            active == self.spec_mission_control(),
    {
        self.mission_control_active
    }
}

/// Lets something happen only after a pause in which it was not even tried.
#[derive(Clone, Copy, Debug, PartialEq, Eq, Structural)]
pub struct DebouncedSystem {
    /// When it was last tried.
    pub elapsed: Duration,
}

impl DebouncedSystem {
    /// The pause since it was last tried is not over.
    pub open spec fn ignores(self, now: Duration, duration: Duration) -> bool {
        !(now.nanos > self.elapsed.nanos + duration.nanos)
    }

    /// Whether something is to be ignored now: the pause since it was last tried is
    /// not over. One that is ignored starts the pause anew.
    pub fn bounce(&mut self, now: Duration, duration: Duration) -> (ignore: bool)
        ensures
            ignore == old(self).ignores(now, duration),
            final(self).elapsed == now,
    {
        let passed: u64 = if now.nanos > self.elapsed.nanos {
            now.nanos - self.elapsed.nanos
        } else {
            0
        };
        self.elapsed = now;
        passed <= duration.nanos
    }
}

/// Lets something happen at most once in a period.
#[derive(Clone, Copy, Debug, PartialEq, Eq, Structural)]
pub struct ThrottledSystem {
    /// The period, which is none before the first time.
    pub period: Duration,
    /// How much of the period has passed.
    pub elapsed: Duration,
}

impl ThrottledSystem {
    /// The period that counts: the one that was set first.
    pub open spec fn period_for(self, duration: Duration) -> Duration {
        if self.period.nanos == 0 {
            duration
        } else {
            self.period
        }
    }

    /// The period is not over some time later.
    pub open spec fn holds_back(self, delta: Duration, duration: Duration) -> bool {
        self.counted(delta) < self.period_for(duration).nanos
    }

    /// The state some time later: what is left over counts toward the next period.
    pub open spec fn ran_for(self, delta: Duration, duration: Duration) -> ThrottledSystem {
        let period = self.period_for(duration);
        ThrottledSystem {
            period,
            elapsed: Duration {
                nanos: if period.nanos == 0 {
                    0
                } else {
                    (self.counted(delta) % period.nanos as int) as u64
                },
            },
        }
    }

    /// How much time counts toward the period, some time later.
    pub open spec fn counted(self, delta: Duration) -> int {
        if self.period.nanos == 0 {
            delta.nanos as int
        } else {
            self.elapsed.nanos + delta.nanos
        }
    }

    /// Whether it is too early, `delta` after it was last asked: the period is not
    /// over. Where it is over, the next one starts, and what went beyond its end
    /// counts toward that.
    pub fn throttled(&mut self, delta: Duration, duration: Duration) -> (throttled: bool)
        ensures
            throttled == old(self).holds_back(delta, duration),
            *final(self) == old(self).ran_for(delta, duration),
    {
        let fresh = self.period.nanos == 0;
        if fresh {
            self.period = duration;
        }
        let passed: u128 = if fresh {
            delta.nanos as u128
        } else {
            self.elapsed.nanos as u128 + delta.nanos as u128
        };
        let period: u128 = self.period.nanos as u128;
        if period == 0 {
            self.elapsed = Duration { nanos: 0 };
            return false;
        }
        let rest: u128 = passed % period;
        self.elapsed = Duration { nanos: rest as u64 };
        passed < period
    }
}

} // verus!
