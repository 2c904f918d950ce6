use tiling_compositor::shortcut::{
    KeyboardModifiers, KeystrokeEvent, RegisteredShortcut, ShortcutAction, ShortcutsComponent,
};

const KEY_T: u32 = 0x0074;
const KEY_B: u32 = 0x0062;

fn ctrl() -> KeyboardModifiers {
    KeyboardModifiers { ctrl: true, ..Default::default() }
}

fn shift() -> KeyboardModifiers {
    KeyboardModifiers { shift: true, ..Default::default() }
}

fn command(name: &str) -> ShortcutAction {
    ShortcutAction::Command(name.to_owned())
}

fn component() -> ShortcutsComponent {
    let mut shortcuts = ShortcutsComponent::default();
    shortcuts.register(RegisteredShortcut { modifiers: ctrl(), keysyms: vec![KEY_T], action: command("ghostty") });
    shortcuts.register(RegisteredShortcut { modifiers: shift(), keysyms: vec![KEY_B], action: command("firefox") });
    shortcuts
}

fn command_of(s: &RegisteredShortcut) -> &str {
    match &s.action {
        ShortcutAction::Command(c) => c,
        _ => panic!("not a command"),
    }
}

#[test]
fn default_modifiers_hold_nothing() {
    let m = KeyboardModifiers::default();
    assert!(!m.ctrl && !m.alt && !m.shift && !m.caps_lock && !m.logo && !m.num_lock);
}

#[test]
fn keystroke_matches_same_modifiers_and_keys() {
    let shortcut = RegisteredShortcut { modifiers: ctrl(), keysyms: vec![KEY_T], action: ShortcutAction::Nothing };
    let event = KeystrokeEvent { modifiers: ctrl(), modified_keysyms: vec![KEY_T] };
    assert!(event.valid_for_shortcut(&shortcut));
    let other_mods = KeystrokeEvent { modifiers: shift(), modified_keysyms: vec![KEY_T] };
    assert!(!other_mods.valid_for_shortcut(&shortcut));
    let more_keys = KeystrokeEvent { modifiers: ctrl(), modified_keysyms: vec![KEY_T, KEY_B] };
    assert!(!more_keys.valid_for_shortcut(&shortcut));
    let no_keys = KeystrokeEvent { modifiers: ctrl(), modified_keysyms: vec![] };
    assert!(!no_keys.valid_for_shortcut(&shortcut));
}

#[test]
fn find_shortcut_matches_modifiers_and_keysyms() {
    let shortcuts = component();
    let found = shortcuts.find_shortcut(ctrl(), vec![KEY_T]).unwrap();
    assert_eq!(command_of(found), "ghostty");
    let found = shortcuts.find_shortcut(shift(), vec![KEY_B]).unwrap();
    assert_eq!(command_of(found), "firefox");
    assert!(shortcuts.find_shortcut(ctrl(), vec![KEY_B]).is_none());
    assert!(shortcuts.find_shortcut(ctrl(), vec![]).is_none());
}

#[test]
fn find_shortcut_prefers_the_first_registered() {
    let mut shortcuts = component();
    shortcuts.register(RegisteredShortcut { modifiers: ctrl(), keysyms: vec![KEY_T], action: command("xterm") });
    let event = KeystrokeEvent { modifiers: ctrl(), modified_keysyms: vec![KEY_T] };
    assert_eq!(command_of(shortcuts.find_shortcut_for_event(&event).unwrap()), "ghostty");
}

#[test]
fn empty_component_finds_nothing() {
    let shortcuts = ShortcutsComponent::default();
    let event = KeystrokeEvent { modifiers: ctrl(), modified_keysyms: vec![KEY_T] };
    assert!(shortcuts.find_shortcut_for_event(&event).is_none());
}
