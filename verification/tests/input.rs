//! Input events.

use flux::input::backend::{
    evdev_button, key_state, select_input_backend, tries_portal, InputBackendKind, KeyState,
};
use flux::input::events::{EventPriority, InputEvent};
use flux::input::gamepad::GamepadEvent;
use flux::input::keyboard::{KeyInput, KeyboardEvent, KeyboardSink, ModifierFlags};
use flux::input::keymap::scancode_to_evdev;
use flux::input::mouse::{MouseButton, MouseEvent, MouseInput, MouseSink};
use flux::input::sink::{HostInput, InputSink};
use flux::types::DesktopRect;

#[test]
fn direct_block_passthrough() {
    assert_eq!(scancode_to_evdev(0x01), Some(1)); // KEY_ESC
    assert_eq!(scancode_to_evdev(0x1E), Some(30)); // KEY_A
    assert_eq!(scancode_to_evdev(0x1F), Some(31)); // KEY_S
    assert_eq!(scancode_to_evdev(0x1C), Some(28)); // KEY_ENTER
    assert_eq!(scancode_to_evdev(0x39), Some(57)); // KEY_SPACE
    assert_eq!(scancode_to_evdev(0x2A), Some(42)); // KEY_LEFTSHIFT
}

#[test]
fn extended_keys_remapped() {
    assert_eq!(scancode_to_evdev(0xE048), Some(103)); // Up arrow
    assert_eq!(scancode_to_evdev(0xE04D), Some(106)); // Right arrow
    assert_eq!(scancode_to_evdev(0xE05B), Some(125)); // Left Meta/Super
}

#[test]
fn unknown_scancodes_are_none() {
    assert_eq!(scancode_to_evdev(0x00), None);
    assert_eq!(scancode_to_evdev(0xFFFF), None);
    assert_eq!(scancode_to_evdev(0xE000), None);
}

#[test]
fn mouse_buttons_map_to_evdev_codes() {
    assert_eq!(evdev_button(MouseButton::Left), 0x110);
    assert_eq!(evdev_button(MouseButton::Right), 0x111);
    assert_eq!(evdev_button(MouseButton::Middle), 0x112);
    assert_eq!(evdev_button(MouseButton::Back), 0x113);
    assert_eq!(evdev_button(MouseButton::Forward), 0x114);
}

#[test]
fn key_state_maps_press_and_release() {
    assert_eq!(key_state(true), KeyState::Pressed);
    assert_eq!(key_state(false), KeyState::Released);
}

#[test]
fn uinput_kind_reports_no_absolute() {
    let be = select_input_backend(InputBackendKind::Uinput);
    assert!(!be.supports_absolute());
}

#[test]
fn keys_are_injected_by_scancode_first() {
    let sink = KeyboardSink::new().unwrap();
    let down = KeyboardEvent::KeyDown { scan_code: 30, key_code: Some(65), modifiers: 0 };
    assert_eq!(
        sink.inject(&down).unwrap(),
        Some(KeyInput { vk_code: 0, scan_code: 30, flags: 8 })
    );
    let up = KeyboardEvent::KeyUp { scan_code: 0, key_code: Some(65), modifiers: 0 };
    assert_eq!(sink.inject(&up).unwrap(), Some(KeyInput { vk_code: 65, scan_code: 0, flags: 2 }));
    let nothing = KeyboardEvent::KeyUp { scan_code: 0, key_code: None, modifiers: 0 };
    assert_eq!(sink.inject(&nothing).unwrap(), None);
}

#[test]
fn unknown_modifiers_are_dropped() {
    let event = KeyboardEvent::KeyDown { scan_code: 1, key_code: None, modifiers: 0xffc3 };
    assert_eq!(event.modifier_flags().bits(), ModifierFlags::SHIFT | ModifierFlags::CTRL);
}

fn rect() -> DesktopRect {
    DesktopRect { left: 0, top: 0, width: 1920, height: 1080 }
}

#[test]
fn mouse_events_become_actions() {
    let sink = MouseSink::new(rect()).unwrap();
    let back = MouseEvent::ButtonDown { button: MouseButton::Back };
    assert_eq!(
        sink.inject(&back).unwrap(),
        vec![MouseInput { dx: 0, dy: 0, mouse_data: 1, flags: 0x80 }]
    );
    let scroll = MouseEvent::Scroll { dx: -1, dy: 120 };
    assert_eq!(
        sink.inject(&scroll).unwrap(),
        vec![
            MouseInput { dx: 0, dy: 0, mouse_data: u32::MAX, flags: 0x1000 },
            MouseInput { dx: 0, dy: 0, mouse_data: 120, flags: 0x800 },
        ]
    );
    assert!(sink.inject(&MouseEvent::Scroll { dx: 0, dy: 0 }).unwrap().is_empty());
    let place = MouseEvent::MoveAbsolute { x: 37457, y: 0 };
    assert_eq!(
        sink.inject(&place).unwrap(),
        vec![MouseInput { dx: 37457, dy: 0, mouse_data: 0, flags: 0xC001 }]
    );
}

#[test]
fn events_are_dispatched_in_order() {
    let mut sink = InputSink::new(rect()).unwrap();
    let key = KeyboardEvent::KeyDown { scan_code: 30, key_code: None, modifiers: 0 };
    let events = [
        InputEvent::Mouse(MouseEvent::Move { dx: 1, dy: 2 }),
        InputEvent::Gamepad(GamepadEvent::Connected { gamepad_id: 0 }),
        InputEvent::Keyboard(key),
    ];
    let inputs = sink.handle_events(&events).unwrap();
    assert_eq!(
        inputs,
        vec![
            HostInput::Mouse(MouseInput { dx: 1, dy: 2, mouse_data: 0, flags: 1 }),
            HostInput::Key(KeyInput { vk_code: 0, scan_code: 30, flags: 8 }),
        ]
    );
    let moved = DesktopRect { left: 1920, ..rect() };
    sink.set_target_rect(moved).unwrap();
    assert_eq!(sink.target_rect(), moved);
}

#[test]
fn relative_motion_is_urgent() {
    let motion = InputEvent::Mouse(MouseEvent::Move { dx: 1, dy: 0 });
    assert_eq!(motion.priority(), EventPriority::High);
    let place = InputEvent::Mouse(MouseEvent::MoveAbsolute { x: 1, y: 0 });
    assert_eq!(place.priority(), EventPriority::Normal);
}

#[test]
fn no_two_scancodes_share_a_key() {
    let mut seen = std::collections::HashSet::new();
    for scancode in 0..=u16::MAX {
        if let Some(code) = scancode_to_evdev(scancode) {
            assert!(seen.insert(code));
        }
    }
    assert_eq!(seen.len(), 0x58 + 15);
}

#[test]
fn idle_backend_accepts_buttons_and_keys() {
    let be = select_input_backend(InputBackendKind::Portal);
    assert_eq!(be.name(), "noop");
    assert!(be.supports_absolute());
    be.pointer_button(MouseButton::Left, true).unwrap();
    be.key(30, true).unwrap();
    assert!(tries_portal(InputBackendKind::Portal));
    assert!(!tries_portal(InputBackendKind::Libei));
}
