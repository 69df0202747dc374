use jl_ui::keyboard::{parse_binding, parse_char_key, parse_key_group, Key, KeyboardManager};

fn binds(pairs: &[(&str, &str)]) -> Vec<(String, String)> {
    pairs.iter().map(|(a, b)| (a.to_string(), b.to_string())).collect()
}

#[test]
fn modifier_aliases_cover_both_sides() {
    assert_eq!(parse_key_group("Ctrl"), vec![Key::LeftControl, Key::RightControl]);
    assert_eq!(parse_key_group("control"), vec![Key::LeftControl, Key::RightControl]);
    assert_eq!(parse_key_group("CMD"), vec![Key::LeftSuper, Key::RightSuper]);
    assert_eq!(parse_key_group("leftshift"), vec![Key::LeftShift]);
}

#[test]
fn named_and_function_keys() {
    assert_eq!(parse_key_group("ArrowUp"), vec![Key::Up]);
    assert_eq!(parse_key_group("esc"), vec![Key::Escape]);
    assert_eq!(parse_key_group("F12"), vec![Key::F12]);
    assert_eq!(parse_key_group("PageDown"), vec![Key::PageDown]);
}

#[test]
fn single_characters() {
    assert_eq!(parse_char_key("W"), vec![Key::W]);
    assert_eq!(parse_char_key("7"), vec![Key::Key7]);
    assert_eq!(parse_char_key("ab"), Vec::<Key>::new());
    assert_eq!(parse_char_key(""), Vec::<Key>::new());
    assert_eq!(parse_char_key("?"), Vec::<Key>::new());
    assert_eq!(parse_key_group("q"), vec![Key::Q]);
    assert_eq!(parse_key_group("nope"), Vec::<Key>::new());
}

#[test]
fn bindings_split_alternatives_and_combos() {
    let b = parse_binding("Ctrl+S | Ctrl+Z");
    assert_eq!(b.len(), 2);
    assert_eq!(b[0], vec![vec![Key::LeftControl, Key::RightControl], vec![Key::S]]);
    assert_eq!(b[1], vec![vec![Key::LeftControl, Key::RightControl], vec![Key::Z]]);
}

#[test]
fn bindings_drop_unknown_keys_and_empty_combos() {
    let b = parse_binding("W|Bogus|Up+Nope");
    assert_eq!(b, vec![vec![vec![Key::W]], vec![vec![Key::Up]]]);
    assert!(parse_binding("").is_empty());
}

#[test]
fn held_pressed_released_over_frames() {
    let mut km = KeyboardManager::init(binds(&[("jump", "W|ArrowUp")]));
    km.update(&[Key::Up]);
    assert!(km.action_held("jump"));
    assert!(km.action_pressed("jump"));
    assert!(!km.action_released("jump"));
    km.update(&[Key::Up]);
    assert!(km.action_held("jump"));
    assert!(!km.action_pressed("jump"));
    km.update(&[]);
    assert!(!km.action_held("jump"));
    assert!(km.action_released("jump"));
}

#[test]
fn combo_suppresses_single_key_action() {
    let mut km = KeyboardManager::init(binds(&[("save", "Ctrl+S"), ("sprint", "Ctrl")]));
    km.update(&[Key::LeftControl]);
    assert!(km.action_held("sprint"));
    assert!(!km.action_held("save"));
    km.update(&[Key::RightControl, Key::S]);
    assert!(km.action_held("save"));
    assert!(!km.action_held("sprint"));
}

#[test]
fn pressed_and_released_never_both() {
    let mut km = KeyboardManager::init(binds(&[("a", "A"), ("b", "B")]));
    km.update(&[Key::A]);
    km.update(&[Key::B]);
    for act in ["a", "b"] {
        assert!(!(km.action_pressed(act) && km.action_released(act)));
    }
    assert!(km.action_released("a"));
    assert!(km.action_pressed("b"));
}

#[test]
fn keybind_changes_reset_state() {
    let mut km = KeyboardManager::init(binds(&[("fire", "Space")]));
    assert!(km.is_keybind_valid("fire"));
    assert!(!km.is_keybind_valid("run"));
    km.update(&[Key::Space]);
    km.set_keybind("fire", "Enter");
    assert!(!km.action_held("fire"));
    km.set_keybind("run", "Shift");
    assert!(km.is_keybind_valid("run"));
    let raw = km.clone_keybinds();
    assert!(raw.contains(&("fire".to_string(), "Enter".to_string())));
    assert!(raw.contains(&("run".to_string(), "Shift".to_string())));
    assert_eq!(km.get_keybinds().len(), 2);
    km.update_keybinds(binds(&[("x", "X")]));
    assert!(!km.is_keybind_valid("fire"));
    km.update(&[Key::X]);
    assert!(km.action_pressed("x"));
}
