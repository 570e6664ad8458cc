use venbind::registry::Keybinds;
use venbind::shortcut::Keybind;

fn parse(text: &str) -> Keybind {
    Keybind::from_string(text.to_owned())
}

#[test]
fn new_registry_finds_nothing() {
    let keybinds = Keybinds::new();
    assert_eq!(keybinds.get_keybind_id(parse("shift+a")), None);
    assert_eq!(keybinds.get_keybind_id(parse("")), None);
    let keybinds = Keybinds::default();
    assert_eq!(keybinds.get_keybind_id(parse("shift+a")), None);
}

#[test]
fn registered_shortcut_is_found_until_unregistered() {
    let mut keybinds = Keybinds::new();
    keybinds.register_keybind(parse("shift+alt+m"), 1);
    assert_eq!(keybinds.get_keybind_id(parse("shift+alt+m")), Some(1));
    assert_eq!(keybinds.get_keybind_id(parse("alt+shift+m")), Some(1));
    keybinds.unregister_keybind(1);
    assert_eq!(keybinds.get_keybind_id(parse("shift+alt+m")), None);
}

#[test]
fn lookup_matches_the_whole_identity() {
    let mut keybinds = Keybinds::new();
    keybinds.register_keybind(parse("shift+alt+m"), 1);
    assert_eq!(keybinds.get_keybind_id(parse("alt+m")), None);
    assert_eq!(keybinds.get_keybind_id(parse("shift+m")), None);
    assert_eq!(keybinds.get_keybind_id(parse("shift+alt+ctrl+m")), None);
    assert_eq!(keybinds.get_keybind_id(parse("shift+alt+n")), None);
    assert_eq!(keybinds.get_keybind_id(parse("shift+alt")), None);
    assert_eq!(keybinds.get_keybind_id(parse("shift+alt+M")), None);
}

#[test]
fn unregistering_an_unknown_id_changes_nothing() {
    let mut keybinds = Keybinds::new();
    keybinds.unregister_keybind(5);
    keybinds.register_keybind(parse("shift+alt+m"), 1);
    keybinds.register_keybind(parse("shift+ctrl+a"), 2);
    keybinds.unregister_keybind(3);
    keybinds.unregister_keybind(0);
    keybinds.unregister_keybind(u32::MAX);
    assert_eq!(keybinds.get_keybind_id(parse("shift+alt+m")), Some(1));
    assert_eq!(keybinds.get_keybind_id(parse("shift+ctrl+a")), Some(2));
}

#[test]
fn unregistering_removes_every_shortcut_of_the_id() {
    let mut keybinds = Keybinds::new();
    keybinds.register_keybind(parse("ctrl+a"), 9);
    keybinds.register_keybind(parse("ctrl+b"), 4);
    keybinds.register_keybind(parse("alt+c"), 9);
    keybinds.register_keybind(parse("shift"), 9);
    keybinds.unregister_keybind(9);
    assert_eq!(keybinds.get_keybind_id(parse("ctrl+a")), None);
    assert_eq!(keybinds.get_keybind_id(parse("alt+c")), None);
    assert_eq!(keybinds.get_keybind_id(parse("shift")), None);
    assert_eq!(keybinds.get_keybind_id(parse("ctrl+b")), Some(4));
}

#[test]
fn registering_again_overwrites_the_id() {
    let mut keybinds = Keybinds::new();
    keybinds.register_keybind(parse("ctrl+a"), 1);
    keybinds.register_keybind(parse("ctrl+b"), 2);
    keybinds.register_keybind(parse("a+ctrl"), 3);
    assert_eq!(keybinds.get_keybind_id(parse("ctrl+a")), Some(3));
    assert_eq!(keybinds.get_keybind_id(parse("ctrl+b")), Some(2));
    keybinds.unregister_keybind(1);
    assert_eq!(keybinds.get_keybind_id(parse("ctrl+a")), Some(3));
    keybinds.unregister_keybind(3);
    assert_eq!(keybinds.get_keybind_id(parse("ctrl+a")), None);
    assert_eq!(keybinds.get_keybind_id(parse("ctrl+b")), Some(2));
}

#[test]
fn registry_survives_many_registrations() {
    let mut keybinds = Keybinds::new();
    for n in 0..200u32 {
        keybinds.register_keybind(parse(&format!("ctrl+k{}", n)), n % 10);
    }
    keybinds.unregister_keybind(3);
    for n in 0..200u32 {
        let expected = if n % 10 == 3 { None } else { Some(n % 10) };
        assert_eq!(keybinds.get_keybind_id(parse(&format!("k{}+ctrl", n))), expected);
    }
    keybinds.register_keybind(parse("ctrl+k13"), 77);
    assert_eq!(keybinds.get_keybind_id(parse("ctrl+k13")), Some(77));
    assert_eq!(keybinds.get_keybind_id(parse("ctrl+k23")), None);
}
