use vstd::prelude::*;

verus! {

/// The housing height implied by a window width: twice the width past the
/// fixed side margins, but never below the minimum housing height.
pub open spec fn spec_housing_height(width: int) -> int {
    if (width - 80) * 2 > 240 {
        (width - 80) * 2
    } else {
        240
    }
}

/// The target window height for a width and the timer-visibility flag: the
/// two fixed bars plus the housing, plus the timer row when visible,
/// floored at the minimum window height.
pub open spec fn spec_target_height(width: int, timer_visible: bool) -> int {
    let base = 40 + 40 + spec_housing_height(width) + if timer_visible {
        100int
    } else {
        0int
    };
    if base > 350 {
        base
    } else {
        350
    }
}

/// A reported height calls for correction only when it is strictly more
/// than the hysteresis threshold of 10 units away from the target.
pub open spec fn spec_needs_correction(reported: int, target: int) -> bool {
    (if reported >= target {
        reported - target
    } else {
        target - reported
    }) > 10
}

/// Computes the target window height for a width.
pub fn target_height(width: u32, timer_visible: bool) -> (h: u64)
    ensures
        h == spec_target_height(width as int, timer_visible),
{
    let w = width as u64;
    let housing: u64 = if w > 200 {
        (w - 80) * 2
    } else {
        240
    };
    let mut h: u64 = 40 + 40 + housing;
    if timer_visible {
        h = h + 100;
    }
    if h < 350 {
        h = 350;
    }
    h
}

/// The decision of the resize-event listener: the counter-resize height to
/// issue for the new width, or nothing while the reported height sits
/// within the hysteresis band around the target.
pub fn resize_correction(width: u32, reported_height: u64, timer_visible: bool) -> (r: Option<
    u64,
>)
    ensures
        r matches Option::Some(t) ==> t == spec_target_height(width as int, timer_visible)
            && spec_needs_correction(reported_height as int, t as int),
        r is None ==> !spec_needs_correction(
            reported_height as int,
            spec_target_height(width as int, timer_visible),
        ),
{
    let target = target_height(width, timer_visible);
    let diff: u64 = if reported_height >= target {
        reported_height - target
    } else {
        target - reported_height
    };
    if diff > 10 {
        Option::Some(target)
    } else {
        Option::None
    }
}

/// The timer row adds exactly its own height to the target wherever the
/// minimum-window floor is already cleared without the timer.
pub proof fn lemma_timer_adds_row(width: int)
    requires
        40 + 40 + spec_housing_height(width) >= 350,
    ensures
        spec_target_height(width, true) - spec_target_height(width, false) == 100,
{
}

/// The process-wide window state: the timer-visibility flag, false at
/// process start and toggled by explicit commands.
pub struct AppState {
    pub timer_active: bool,
}

impl AppState {
    pub fn new() -> (r: Self)
        ensures
            !r.timer_active,
    {
        AppState { timer_active: false }
    }

    /// Records whether the timer row is visible.
    pub fn set_timer_state(&mut self, active: bool)
        ensures
            final(self).timer_active == active,
    {
        self.timer_active = active;
    }

    /// The explicit resize command: updates the flag and yields the height
    /// to request at the current width.
    pub fn resize_for_timer(&mut self, include_timer: bool, width: u32) -> (h: u64)
        ensures
            final(self).timer_active == include_timer,
            h == spec_target_height(width as int, include_timer),
    {
        self.timer_active = include_timer;
        target_height(width, include_timer)
    }

    /// The resize-event listener's decision under the current flag.
    pub fn on_window_resized(&self, width: u32, reported_height: u64) -> (r: Option<u64>)
        ensures
            r matches Option::Some(t) ==> t == spec_target_height(width as int, self.timer_active)
                && spec_needs_correction(reported_height as int, t as int),
            r is None ==> !spec_needs_correction(
                reported_height as int,
                spec_target_height(width as int, self.timer_active),
            ),
    {
        resize_correction(width, reported_height, self.timer_active)
    }
}

} // verus!
