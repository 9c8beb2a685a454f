use traffic_light::size_policy::{resize_correction, target_height, AppState};

#[test]
fn target_height_from_the_formula() {
    // housing = max((420 - 80) * 2, 240) = 680; 40 + 40 + 680 = 760.
    assert_eq!(target_height(420, false), 760);
    assert_eq!(target_height(420, true), 860);
}

#[test]
fn narrow_windows_hit_the_floor() {
    // housing = max((100 - 80) * 2, 240) = 240; 40 + 40 + 240 = 320 -> 350.
    assert_eq!(target_height(100, false), 350);
    assert_eq!(target_height(100, true), 420);
    assert_eq!(target_height(0, false), 350);
}

#[test]
fn housing_floor_boundary() {
    // (200 - 80) * 2 = 240 exactly: both sides of the housing maximum agree.
    assert_eq!(target_height(200, false), 350);
    assert_eq!(target_height(201, false), 350);
    // At 215 the base reaches 40 + 40 + 270 = 350, the floor exactly.
    assert_eq!(target_height(215, false), 350);
    assert_eq!(target_height(216, false), 352);
}

#[test]
fn timer_row_adds_its_height_above_the_floor() {
    for w in [215, 300, 420, 1000] {
        assert_eq!(target_height(w, true) - target_height(w, false), 100);
    }
}

#[test]
fn correction_fires_only_beyond_the_hysteresis_band() {
    // Target for width 420 without the timer is 760.
    assert_eq!(resize_correction(420, 760, false), None);
    assert_eq!(resize_correction(420, 770, false), None);
    assert_eq!(resize_correction(420, 750, false), None);
    assert_eq!(resize_correction(420, 771, false), Some(760));
    assert_eq!(resize_correction(420, 749, false), Some(760));
}

#[test]
fn app_state_starts_without_the_timer() {
    let state = AppState::new();
    assert!(!state.timer_active);
}

#[test]
fn set_timer_state_toggles_the_flag() {
    let mut state = AppState::new();
    state.set_timer_state(true);
    assert!(state.timer_active);
    state.set_timer_state(false);
    assert!(!state.timer_active);
}

#[test]
fn resize_for_timer_updates_the_flag_and_height() {
    let mut state = AppState::new();
    assert_eq!(state.resize_for_timer(true, 420), 860);
    assert!(state.timer_active);
    assert_eq!(state.resize_for_timer(false, 420), 760);
    assert!(!state.timer_active);
}

#[test]
fn resize_listener_uses_the_current_flag() {
    let mut state = AppState::new();
    state.set_timer_state(true);
    // Target for width 420 with the timer is 860.
    assert_eq!(state.on_window_resized(420, 860), None);
    assert_eq!(state.on_window_resized(420, 760), Some(860));
    state.set_timer_state(false);
    assert_eq!(state.on_window_resized(420, 760), None);
}
