use traffic_light::combo::{parse_key, parse_modifier, parse_shortcut, shortcut_to_string, Key,
    KeyCombination, Modifier};

fn combo(ctrl: bool, alt: bool, shift: bool, meta: bool, key: Key) -> KeyCombination {
    KeyCombination { ctrl, alt, shift, meta, key }
}

#[test]
fn parses_plain_letter() {
    assert_eq!(parse_shortcut("T"), Some(combo(false, false, false, false, Key::Letter('T'))));
}

#[test]
fn parses_modifier_combination() {
    assert_eq!(
        parse_shortcut("Ctrl+Shift+T"),
        Some(combo(true, false, true, false, Key::Letter('T')))
    );
}

#[test]
fn parses_all_modifiers() {
    assert_eq!(
        parse_shortcut("Ctrl+Alt+Shift+Cmd+Z"),
        Some(combo(true, true, true, true, Key::Letter('Z')))
    );
}

#[test]
fn modifier_aliases_collapse() {
    let want = Some(combo(true, false, false, false, Key::Letter('A')));
    assert_eq!(parse_shortcut("Control+A"), want);
    assert_eq!(parse_shortcut("Ctrl+A"), want);
    let meta = Some(combo(false, false, false, true, Key::Letter('A')));
    assert_eq!(parse_shortcut("Cmd+A"), meta);
    assert_eq!(parse_shortcut("Command+A"), meta);
    assert_eq!(parse_shortcut("Meta+A"), meta);
    assert_eq!(parse_shortcut("Super+A"), meta);
    let alt = Some(combo(false, true, false, false, Key::Letter('A')));
    assert_eq!(parse_shortcut("Alt+A"), alt);
    assert_eq!(parse_shortcut("Option+A"), alt);
}

#[test]
fn named_key_aliases() {
    assert_eq!(parse_shortcut("Enter"), parse_shortcut("Return"));
    assert_eq!(parse_shortcut("Escape"), parse_shortcut("Esc"));
    assert_eq!(parse_shortcut("Delete"), parse_shortcut("Del"));
    assert_eq!(parse_shortcut("Space"), Some(combo(false, false, false, false, Key::Space)));
    assert_eq!(parse_shortcut("Tab"), Some(combo(false, false, false, false, Key::Tab)));
    assert_eq!(
        parse_shortcut("Backspace"),
        Some(combo(false, false, false, false, Key::Backspace))
    );
}

#[test]
fn parses_digits_and_function_keys() {
    assert_eq!(parse_shortcut("Ctrl+7"), Some(combo(true, false, false, false, Key::Digit('7'))));
    assert_eq!(parse_shortcut("F1"), Some(combo(false, false, false, false, Key::Function(1))));
    assert_eq!(parse_shortcut("F12"), Some(combo(false, false, false, false, Key::Function(12))));
    assert_eq!(
        parse_shortcut("Shift+F10"),
        Some(combo(false, false, true, false, Key::Function(10)))
    );
}

#[test]
fn tokens_are_trimmed() {
    assert_eq!(parse_shortcut(" Ctrl + T "), parse_shortcut("Ctrl+T"));
}

#[test]
fn unknown_modifier_tokens_are_ignored() {
    assert_eq!(parse_shortcut("Hyper+T"), Some(combo(false, false, false, false, Key::Letter('T'))));
}

#[test]
fn fails_without_a_key() {
    assert_eq!(parse_shortcut("Ctrl+Shift"), None);
    assert_eq!(parse_shortcut(""), None);
    assert_eq!(parse_shortcut("Bogus"), None);
}

#[test]
fn last_key_token_wins() {
    assert_eq!(parse_shortcut("A+B"), Some(combo(false, false, false, false, Key::Letter('B'))));
    assert_eq!(
        parse_shortcut("Ctrl+A+Space"),
        Some(combo(true, false, false, false, Key::Space))
    );
}

#[test]
fn lowercase_letters_are_not_keys() {
    assert_eq!(parse_shortcut("t"), None);
}

#[test]
fn canonical_form_orders_modifiers() {
    let c = parse_shortcut("Shift+Cmd+Alt+Ctrl+K").unwrap();
    assert_eq!(shortcut_to_string(&c), "Ctrl+Alt+Shift+Cmd+K");
    let bare = parse_shortcut("Space").unwrap();
    assert_eq!(shortcut_to_string(&bare), "Space");
}

#[test]
fn canonical_form_round_trips() {
    for s in ["Ctrl+Shift+T", "Option+F11", "Super+Return", " Control + Del ", "9", "Cmd+Space"] {
        let first = parse_shortcut(s).unwrap();
        let canon = shortcut_to_string(&first);
        let second = parse_shortcut(&canon).unwrap();
        assert_eq!(first, second);
        assert_eq!(shortcut_to_string(&second), canon);
    }
}

#[test]
fn parse_key_matches_table() {
    assert_eq!(parse_key("Q"), Some(Key::Letter('Q')));
    assert_eq!(parse_key("0"), Some(Key::Digit('0')));
    assert_eq!(parse_key("F9"), Some(Key::Function(9)));
    assert_eq!(parse_key("Ctrl"), None);
    assert_eq!(parse_key("q"), None);
}

#[test]
fn parse_modifier_matches_table() {
    assert_eq!(parse_modifier("Ctrl"), Some(Modifier::Control));
    assert_eq!(parse_modifier("Option"), Some(Modifier::Alt));
    assert_eq!(parse_modifier("Shift"), Some(Modifier::Shift));
    assert_eq!(parse_modifier("Super"), Some(Modifier::Meta));
    assert_eq!(parse_modifier("T"), None);
}
