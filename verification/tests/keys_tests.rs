use anemoia::keys::{binding_scan_keys, first_pressed, glfw_key_to_egui, key_event, pointer_button, wants_paste, EditKey, PointerButton};
use anemoia::keys::{default_accent_color, default_toggle_key, key_name, stop, tick, Hotkeys};
use anemoia::modules::ModuleInfo;

fn module(name: &str, key: i32, enabled: bool) -> ModuleInfo<()> {
    ModuleInfo {
        name: name.to_string(),
        description: String::new(),
        category: "Misc".to_string(),
        enabled,
        key,
        settings: Vec::new(),
    }
}

#[test]
fn key_names() {
    assert_eq!(key_name(0), "None");
    assert_eq!(key_name(32), "Space");
    assert_eq!(key_name(256), "Escape");
    assert_eq!(key_name(259), "Backspace");
    assert_eq!(key_name(344), "Right Shift");
    assert_eq!(key_name(341), "Left Ctrl");
    assert_eq!(key_name(290), "F1");
    assert_eq!(key_name(301), "F12");
    assert_eq!(key_name(65), "A");
    assert_eq!(key_name(90), "Z");
    assert_eq!(key_name(48), "0");
    assert_eq!(key_name(57), "9");
    assert_eq!(key_name(91), "Key(91)");
    assert_eq!(key_name(-5), "Key(-5)");
}

#[test]
fn defaults() {
    assert_eq!(default_toggle_key(), 344);
    assert_eq!(default_accent_color(), [180, 100, 255]);
}

#[test]
fn a_press_toggles_once_while_held() {
    let mods = vec![module("Fly", 70, false), module("Off", 0, false), module("Speed", 71, true)];
    let mut k = Hotkeys::new();
    assert_eq!(tick(&mut k, &mods, &vec![true, true, false]), vec![0]);
    assert_eq!(tick(&mut k, &mods, &vec![true, true, false]), Vec::<usize>::new());
    assert_eq!(tick(&mut k, &mods, &vec![false, false, true]), vec![2]);
    assert_eq!(tick(&mut k, &mods, &vec![true, false, true]), vec![0]);
}

#[test]
fn modules_sharing_a_key_all_toggle() {
    let mods = vec![module("A", 80, false), module("B", 80, false)];
    let mut k = Hotkeys::new();
    assert_eq!(tick(&mut k, &mods, &vec![true, true]), vec![0, 1]);
    assert_eq!(tick(&mut k, &mods, &vec![true, true]), Vec::<usize>::new());
    stop(&mut k);
    assert_eq!(tick(&mut k, &mods, &vec![true, true]), vec![0, 1]);
}

#[test]
fn stop_forgets_held_keys() {
    let mods = vec![module("Fly", 70, false)];
    let mut k = Hotkeys::new();
    assert_eq!(tick(&mut k, &mods, &vec![true]), vec![0]);
    stop(&mut k);
    assert_eq!(tick(&mut k, &mods, &vec![true]), vec![0]);
}

#[test]
fn gui_keys_and_events() {
    assert_eq!(glfw_key_to_egui(257), Some(EditKey::Enter));
    assert_eq!(glfw_key_to_egui(335), Some(EditKey::Enter));
    assert_eq!(glfw_key_to_egui(86), Some(EditKey::V));
    assert_eq!(glfw_key_to_egui(87), None);
    let e = key_event(86, 1, 0x2).expect("V reacts");
    assert!(e.pressed && !e.repeat && e.ctrl && e.command && !e.alt && !e.shift);
    assert!(wants_paste(&e));
    let r = key_event(259, 2, 0x5).expect("Backspace reacts");
    assert!(r.pressed && r.repeat && r.alt && r.shift && !r.ctrl);
    assert!(!wants_paste(&r));
    let up = key_event(86, 0, 0x2).expect("V reacts");
    assert!(!up.pressed && !wants_paste(&up));
    assert_eq!(key_event(1000, 1, 0), None);
    assert_eq!(pointer_button(0), Some(PointerButton::Primary));
    assert_eq!(pointer_button(2), Some(PointerButton::Middle));
    assert_eq!(pointer_button(3), None);
    let keys = binding_scan_keys();
    assert_eq!(keys.len(), 65 + 93);
    assert_eq!((keys[0], keys[64], keys[65], keys[157]), (32, 96, 256, 348));
    let mut down = vec![false; keys.len()];
    assert_eq!(first_pressed(&keys, &down), None);
    down[100] = true;
    down[3] = true;
    assert_eq!(first_pressed(&keys, &down), Some(35));
}
