use venbind::portal::{
    shortcut_binding, signal_trigger, window_target, PortalSignal, ShortcutBinding, WindowTarget,
};
use venbind::trigger::KeybindTrigger;

#[test]
fn activation_gives_pressed_and_deactivation_released() {
    assert_eq!(signal_trigger(PortalSignal::Activated, "1"), Some(KeybindTrigger::Pressed(1)));
    assert_eq!(signal_trigger(PortalSignal::Deactivated, "1"), Some(KeybindTrigger::Released(1)));
    assert_eq!(
        signal_trigger(PortalSignal::Activated, "4294967295"),
        Some(KeybindTrigger::Pressed(u32::MAX))
    );
    assert_eq!(signal_trigger(PortalSignal::Deactivated, "0"), Some(KeybindTrigger::Released(0)));
}

#[test]
fn notification_with_a_foreign_id_gives_no_trigger() {
    assert_eq!(signal_trigger(PortalSignal::Activated, ""), None);
    assert_eq!(signal_trigger(PortalSignal::Activated, "volume-up"), None);
    assert_eq!(signal_trigger(PortalSignal::Deactivated, "4294967296"), None);
    assert_eq!(signal_trigger(PortalSignal::Deactivated, "-3"), None);
}

#[test]
fn binding_names_the_shortcut_by_its_id() {
    let binding = shortcut_binding("shift+alt+m", 1);
    assert_eq!(
        binding,
        ShortcutBinding {
            id: "1".to_owned(),
            description: "1".to_owned(),
            preferred_trigger: "shift+alt+m".to_owned(),
        }
    );
    let binding = shortcut_binding("", 3_000_000_000);
    assert_eq!(binding.id, "3000000000");
    assert_eq!(binding.description, "3000000000");
    assert_eq!(binding.preferred_trigger, "");
}

#[test]
fn broker_echo_of_a_binding_gives_its_trigger() {
    for id in [0u32, 1, 2, 10, 99, 65_536, u32::MAX] {
        let binding = shortcut_binding("ctrl+a", id);
        assert_eq!(
            signal_trigger(PortalSignal::Activated, &binding.id),
            Some(KeybindTrigger::Pressed(id))
        );
        assert_eq!(
            signal_trigger(PortalSignal::Deactivated, &binding.id),
            Some(KeybindTrigger::Released(id))
        );
    }
}

#[test]
fn window_of_the_compositor_protocol_is_the_surface_with_its_display() {
    assert_eq!(
        window_target(true, Some(0x7f00_1000), Some(0x7f00_2000)),
        WindowTarget::Wayland { surface: 0x7f00_1000, display: 0x7f00_2000 }
    );
    assert_eq!(window_target(true, None, None), WindowTarget::Wayland { surface: 0, display: 0 });
    assert_eq!(
        window_target(true, Some(5), None),
        WindowTarget::Wayland { surface: 5, display: 0 }
    );
    assert_eq!(
        window_target(true, None, Some(6)),
        WindowTarget::Wayland { surface: 0, display: 6 }
    );
}

#[test]
fn window_of_the_legacy_protocol_is_the_window_id() {
    assert_eq!(window_target(false, Some(0x3a0_0007), None), WindowTarget::X11 { xid: 0x3a0_0007 });
    assert_eq!(window_target(false, Some(9), Some(4)), WindowTarget::X11 { xid: 9 });
    assert_eq!(window_target(false, None, None), WindowTarget::Unspecified);
    assert_eq!(window_target(false, None, Some(4)), WindowTarget::Unspecified);
}
