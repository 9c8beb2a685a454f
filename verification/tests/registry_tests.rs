use traffic_light::combo::parse_shortcut;
use traffic_light::registry::{ShortcutRegistry, UpdateError};

fn entries(pairs: &[(&str, &str)]) -> Vec<(String, String)> {
    pairs.iter().map(|(a, c)| (a.to_string(), c.to_string())).collect()
}

#[test]
fn initialize_binds_exactly_the_parsed_entries() {
    let mut reg = ShortcutRegistry::new();
    let batch = entries(&[("copy", "Ctrl+C"), ("paste", "Ctrl+V"), ("broken", "NotAKey")]);
    reg.initialize_shortcuts(&batch, &vec![true, true, true]);
    assert_eq!(reg.binding_count(), 2);
    assert_eq!(reg.current_combo("copy"), parse_shortcut("Ctrl+C"));
    assert_eq!(reg.current_combo("paste"), parse_shortcut("Ctrl+V"));
    assert_eq!(reg.current_combo("broken"), None);
}

#[test]
fn initialize_skips_refused_registrations() {
    let mut reg = ShortcutRegistry::new();
    let batch = entries(&[("copy", "Ctrl+C"), ("paste", "Ctrl+V")]);
    reg.initialize_shortcuts(&batch, &vec![true, false]);
    assert_eq!(reg.binding_count(), 1);
    assert_eq!(reg.current_combo("copy"), parse_shortcut("Ctrl+C"));
    assert_eq!(reg.current_combo("paste"), None);
}

#[test]
fn initialize_replaces_previous_state() {
    let mut reg = ShortcutRegistry::new();
    reg.initialize_shortcuts(&entries(&[("one", "Ctrl+1")]), &vec![true]);
    reg.initialize_shortcuts(&entries(&[("two", "Ctrl+2")]), &vec![true]);
    assert_eq!(reg.binding_count(), 1);
    assert_eq!(reg.current_combo("one"), None);
    assert_eq!(reg.current_combo("two"), parse_shortcut("Ctrl+2"));
}

#[test]
fn update_rebinds_and_releases_the_old_combination() {
    let mut reg = ShortcutRegistry::new();
    assert_eq!(
        reg.update_shortcut("act".to_string(), "Ctrl+A", true),
        Ok("Ctrl+A".to_string())
    );
    assert_eq!(
        reg.update_shortcut("act".to_string(), "Ctrl+B", true),
        Ok("Ctrl+B".to_string())
    );
    assert_eq!(reg.binding_count(), 1);
    assert_eq!(reg.current_combo("act"), parse_shortcut("Ctrl+B"));
    let old = parse_shortcut("Ctrl+A").unwrap();
    assert_eq!(reg.route_event(&old, true), None);
    let new = parse_shortcut("Ctrl+B").unwrap();
    assert_eq!(reg.route_event(&new, true), Some("act".to_string()));
}

#[test]
fn update_with_bad_format_unbinds_the_action() {
    let mut reg = ShortcutRegistry::new();
    reg.initialize_shortcuts(&entries(&[("act", "Ctrl+A")]), &vec![true]);
    assert_eq!(
        reg.update_shortcut("act".to_string(), "garbage", true),
        Err(UpdateError::InvalidFormat)
    );
    assert_eq!(reg.current_combo("act"), None);
    assert_eq!(reg.binding_count(), 0);
}

#[test]
fn update_with_refused_registration_unbinds_the_action() {
    let mut reg = ShortcutRegistry::new();
    reg.initialize_shortcuts(&entries(&[("act", "Ctrl+A")]), &vec![true]);
    assert_eq!(
        reg.update_shortcut("act".to_string(), "Ctrl+B", false),
        Err(UpdateError::RegistrationFailed)
    );
    assert_eq!(reg.current_combo("act"), None);
    assert_eq!(reg.binding_count(), 0);
}

#[test]
fn last_registration_wins_for_a_shared_combination() {
    let mut reg = ShortcutRegistry::new();
    assert!(reg.update_shortcut("first".to_string(), "Ctrl+K", true).is_ok());
    assert!(reg.update_shortcut("second".to_string(), "Ctrl+K", true).is_ok());
    assert_eq!(reg.binding_count(), 1);
    assert_eq!(reg.current_combo("first"), None);
    let c = parse_shortcut("Ctrl+K").unwrap();
    assert_eq!(reg.route_event(&c, true), Some("second".to_string()));
}

#[test]
fn route_event_ignores_released_transitions() {
    let mut reg = ShortcutRegistry::new();
    reg.initialize_shortcuts(&entries(&[("act", "Ctrl+A")]), &vec![true]);
    let c = parse_shortcut("Ctrl+A").unwrap();
    assert_eq!(reg.route_event(&c, false), None);
    assert_eq!(reg.route_event(&c, true), Some("act".to_string()));
}

#[test]
fn route_event_drops_unknown_combinations() {
    let mut reg = ShortcutRegistry::new();
    reg.initialize_shortcuts(&entries(&[("act", "Ctrl+A")]), &vec![true]);
    let other = parse_shortcut("Ctrl+Z").unwrap();
    assert_eq!(reg.route_event(&other, true), None);
}

#[test]
fn canonical_equivalent_strings_resolve_to_one_action() {
    let mut reg = ShortcutRegistry::new();
    reg.initialize_shortcuts(&entries(&[("act", "Control+Return")]), &vec![true]);
    let c = parse_shortcut("Ctrl+Enter").unwrap();
    assert_eq!(reg.route_event(&c, true), Some("act".to_string()));
}

#[test]
fn bound_combos_lists_current_registrations() {
    let mut reg = ShortcutRegistry::new();
    reg.initialize_shortcuts(&entries(&[("one", "Ctrl+1"), ("bad", "nope")]), &vec![true, true]);
    let combos = reg.bound_combos();
    assert_eq!(combos.len(), 1);
    assert_eq!(Some(combos[0]), parse_shortcut("Ctrl+1"));
}

#[test]
fn update_error_messages() {
    assert_eq!(UpdateError::InvalidFormat.message(), "invalid shortcut format");
    assert_eq!(UpdateError::RegistrationFailed.message(), "failed to register shortcut");
}
