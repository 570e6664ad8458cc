use venbind::errors::VenbindError;
use venbind::raw_input::{
    hook_result, is_key_press, key_press_trigger, EVENT_KEY_PRESSED, MASK_ALT, MASK_CTRL,
    MASK_SHIFT, UIOHOOK_SUCCESS,
};
use venbind::registry::Keybinds;
use venbind::shortcut::Keybind;
use venbind::trigger::KeybindTrigger;

const SHIFT_LEFT: u16 = 1 << 0;
const CTRL_LEFT: u16 = 1 << 1;
const META_LEFT: u16 = 1 << 2;
const ALT_LEFT: u16 = 1 << 3;
const SHIFT_RIGHT: u16 = 1 << 4;
const CTRL_RIGHT: u16 = 1 << 5;
const META_RIGHT: u16 = 1 << 6;
const ALT_RIGHT: u16 = 1 << 7;
const BUTTON_1: u16 = 1 << 8;
const NUM_LOCK: u16 = 1 << 13;

fn keybind(shift: bool, alt: bool, ctrl: bool, character: Option<&str>) -> Keybind {
    Keybind { shift, alt, ctrl, character: character.map(|c| c.to_owned()) }
}

#[test]
fn modifier_masks_cover_the_left_and_the_right_key() {
    assert_eq!(MASK_SHIFT, SHIFT_LEFT | SHIFT_RIGHT);
    assert_eq!(MASK_CTRL, CTRL_LEFT | CTRL_RIGHT);
    assert_eq!(MASK_ALT, ALT_LEFT | ALT_RIGHT);
}

#[test]
fn only_key_presses_are_dispatched() {
    assert!(is_key_press(EVENT_KEY_PRESSED));
    assert!(is_key_press(4));
    assert!(!is_key_press(0));
    assert!(!is_key_press(3));
    assert!(!is_key_press(5));
    assert!(!is_key_press(u32::MAX));
}

#[test]
fn identity_of_a_press_takes_the_modifiers_from_the_mask() {
    assert_eq!(Keybind::from_key(0, "m".to_owned()), keybind(false, false, false, Some("m")));
    assert_eq!(
        Keybind::from_key(SHIFT_LEFT, "m".to_owned()),
        keybind(true, false, false, Some("m"))
    );
    assert_eq!(
        Keybind::from_key(SHIFT_RIGHT, "m".to_owned()),
        keybind(true, false, false, Some("m"))
    );
    assert_eq!(Keybind::from_key(ALT_LEFT, "m".to_owned()), keybind(false, true, false, Some("m")));
    assert_eq!(
        Keybind::from_key(ALT_RIGHT, "m".to_owned()),
        keybind(false, true, false, Some("m"))
    );
    assert_eq!(
        Keybind::from_key(CTRL_LEFT, "m".to_owned()),
        keybind(false, false, true, Some("m"))
    );
    assert_eq!(
        Keybind::from_key(CTRL_RIGHT, "m".to_owned()),
        keybind(false, false, true, Some("m"))
    );
    assert_eq!(
        Keybind::from_key(SHIFT_LEFT | ALT_RIGHT | CTRL_LEFT | CTRL_RIGHT, "m".to_owned()),
        keybind(true, true, true, Some("m"))
    );
    assert_eq!(Keybind::from_key(u16::MAX, "m".to_owned()), keybind(true, true, true, Some("m")));
}

#[test]
fn other_mask_bits_do_not_count() {
    let others = META_LEFT | META_RIGHT | BUTTON_1 | NUM_LOCK;
    assert_eq!(Keybind::from_key(others, "m".to_owned()), keybind(false, false, false, Some("m")));
    assert_eq!(
        Keybind::from_key(others | ALT_LEFT, "m".to_owned()),
        keybind(false, true, false, Some("m"))
    );
}

#[test]
fn key_without_text_is_no_base_key() {
    assert_eq!(Keybind::from_key(SHIFT_LEFT, String::new()), keybind(true, false, false, None));
    assert_eq!(Keybind::from_key(0, String::new()), keybind(false, false, false, None));
    assert_eq!(Keybind::from_key(0, " ".to_owned()), keybind(false, false, false, Some(" ")));
}

#[test]
fn press_of_a_registered_shortcut_gives_its_trigger() {
    let mut keybinds = Keybinds::new();
    keybinds.register_keybind(Keybind::from_string("shift+alt+m".to_owned()), 1);
    keybinds.register_keybind(Keybind::from_string("ctrl".to_owned()), 8);
    assert_eq!(
        key_press_trigger(&keybinds, SHIFT_LEFT | ALT_LEFT, "m".to_owned()),
        Some(KeybindTrigger::Pressed(1))
    );
    assert_eq!(
        key_press_trigger(&keybinds, SHIFT_RIGHT | ALT_RIGHT | NUM_LOCK, "m".to_owned()),
        Some(KeybindTrigger::Pressed(1))
    );
    assert_eq!(key_press_trigger(&keybinds, ALT_LEFT, "m".to_owned()), None);
    assert_eq!(key_press_trigger(&keybinds, SHIFT_LEFT | ALT_LEFT, "n".to_owned()), None);
    assert_eq!(key_press_trigger(&keybinds, SHIFT_LEFT | ALT_LEFT, String::new()), None);
    assert_eq!(
        key_press_trigger(&keybinds, CTRL_RIGHT, String::new()),
        Some(KeybindTrigger::Pressed(8))
    );
}

#[test]
fn repeated_presses_give_repeated_triggers() {
    let mut keybinds = Keybinds::new();
    keybinds.register_keybind(Keybind::from_string("ctrl+a".to_owned()), 5);
    for _ in 0..3 {
        assert_eq!(
            key_press_trigger(&keybinds, CTRL_LEFT, "a".to_owned()),
            Some(KeybindTrigger::Pressed(5))
        );
    }
}

#[test]
fn hook_status_other_than_success_is_a_failure() {
    assert!(matches!(hook_result(UIOHOOK_SUCCESS), Ok(())));
    assert!(matches!(hook_result(0), Ok(())));
    assert!(matches!(hook_result(1), Err(VenbindError::LibUIOHookError)));
    assert!(matches!(hook_result(0x20), Err(VenbindError::LibUIOHookError)));
    assert!(matches!(hook_result(-1), Err(VenbindError::LibUIOHookError)));
    assert!(matches!(hook_result(i32::MIN), Err(VenbindError::LibUIOHookError)));
}
