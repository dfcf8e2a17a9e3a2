use clicker_core::hotkeys::{is_hotkey_binding_pressed, registered_hotkey_pressed, HotkeyBinding};
use clicker_core::keys::{is_vk_down, vk_to_keycodes, KeyCode, VK_CONTROL, VK_OEM_102};

fn ctrl_a() -> HotkeyBinding {
    HotkeyBinding {
        ctrl: true,
        alt: false,
        shift: false,
        super_key: false,
        main_vk: 0x41,
        key_token: "a".to_string(),
    }
}

#[test]
fn generic_modifiers_have_both_sides() {
    assert_eq!(vk_to_keycodes(VK_CONTROL as i32), vec![KeyCode::LControl, KeyCode::RControl]);
    assert_eq!(vk_to_keycodes(0x12), vec![KeyCode::LAlt, KeyCode::RAlt]);
    assert_eq!(vk_to_keycodes(0x10), vec![KeyCode::LShift, KeyCode::RShift]);
    assert_eq!(vk_to_keycodes(0xA3), vec![KeyCode::RControl]);
    assert_eq!(vk_to_keycodes(0x5C), vec![KeyCode::RMeta]);
}

#[test]
fn letters_digits_function_and_punctuation_keys() {
    assert_eq!(vk_to_keycodes(0x41), vec![KeyCode::A]);
    assert_eq!(vk_to_keycodes(0x5A), vec![KeyCode::Z]);
    assert_eq!(vk_to_keycodes(0x30), vec![KeyCode::Key0]);
    assert_eq!(vk_to_keycodes(0x70), vec![KeyCode::F1]);
    assert_eq!(vk_to_keycodes(0x83), vec![KeyCode::F20]);
    assert_eq!(vk_to_keycodes(0x14), vec![KeyCode::CapsLock]);
    assert_eq!(vk_to_keycodes(0xBE), vec![KeyCode::Dot]);
    assert_eq!(vk_to_keycodes(0xC0), vec![KeyCode::Grave]);
}

#[test]
fn keys_without_a_physical_key() {
    // F21 and the key left of Z have no key code here.
    assert!(vk_to_keycodes(0x84).is_empty());
    assert!(vk_to_keycodes(VK_OEM_102 as i32).is_empty());
    assert!(vk_to_keycodes(-1).is_empty());
}

#[test]
fn only_the_low_sixteen_bits_of_a_code_count() {
    assert_eq!(vk_to_keycodes(0x1_0041), vec![KeyCode::A]);
}

#[test]
fn key_down_when_either_side_is_held() {
    assert!(is_vk_down(0x11, &[KeyCode::RControl]));
    assert!(is_vk_down(0x11, &[KeyCode::B, KeyCode::LControl]));
    assert!(!is_vk_down(0x11, &[KeyCode::LAlt]));
    assert!(!is_vk_down(0x84, &[KeyCode::F20]));
    assert!(!is_vk_down(0x41, &[]));
}

#[test]
fn binding_needs_exact_modifiers_and_main_key() {
    let b = ctrl_a();
    assert!(is_hotkey_binding_pressed(&b, &[KeyCode::LControl, KeyCode::A]));
    assert!(is_hotkey_binding_pressed(&b, &[KeyCode::A, KeyCode::RControl]));
    assert!(!is_hotkey_binding_pressed(&b, &[KeyCode::LControl, KeyCode::LShift, KeyCode::A]));
    assert!(!is_hotkey_binding_pressed(&b, &[KeyCode::A]));
    assert!(!is_hotkey_binding_pressed(&b, &[KeyCode::LControl]));
}

#[test]
fn either_windows_key_is_super() {
    let b = HotkeyBinding {
        ctrl: false,
        alt: false,
        shift: false,
        super_key: true,
        main_vk: 0x20,
        key_token: "space".to_string(),
    };
    assert!(is_hotkey_binding_pressed(&b, &[KeyCode::LMeta, KeyCode::Space]));
    assert!(is_hotkey_binding_pressed(&b, &[KeyCode::RMeta, KeyCode::Space]));
    assert!(!is_hotkey_binding_pressed(&b, &[KeyCode::Space]));
}

#[test]
fn no_registered_hotkey_is_never_pressed() {
    assert!(!registered_hotkey_pressed(&None, &[KeyCode::LControl, KeyCode::A]));
    assert!(registered_hotkey_pressed(&Some(ctrl_a()), &[KeyCode::LControl, KeyCode::A]));
}
