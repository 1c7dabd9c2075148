use anemoia::modules::{module_from_table, setting_kind, LuaValueKind, SettingKind};
use anemoia::modules::{
    apply_config, forget_script, set_module_enabled, set_module_key, ModuleCallback, ModuleInfo, ScriptList,
};

fn module(name: &str, enabled: bool, key: i32) -> ModuleInfo<String> {
    ModuleInfo {
        name: name.to_string(),
        description: String::new(),
        category: "Misc".to_string(),
        enabled,
        key,
        settings: vec!["speed".to_string()],
    }
}

#[test]
fn enabling_runs_the_callback_on_change_only() {
    let mut ms = vec![module("Fly", false, 0), module("Speed", true, 0)];
    assert_eq!(set_module_enabled(&mut ms, "Fly", true), Some(ModuleCallback::OnEnable));
    assert!(ms[0].enabled);
    assert_eq!(set_module_enabled(&mut ms, "Fly", true), None);
    assert_eq!(set_module_enabled(&mut ms, "Speed", false), Some(ModuleCallback::OnDisable));
    assert_eq!(set_module_enabled(&mut ms, "Nope", true), None);
    assert!(!ms[1].enabled);
}

#[test]
fn keys_bind_to_the_first_module_of_a_name() {
    let mut ms = vec![module("Fly", false, 0), module("Fly", false, 0)];
    assert!(set_module_key(&mut ms, "Fly", 70));
    assert_eq!((ms[0].key, ms[1].key), (70, 0));
    assert!(!set_module_key(&mut ms, "Other", 1));
}

#[test]
fn applying_a_profile_sets_states_and_keys() {
    let mut ms = vec![module("Fly", false, 0), module("Speed", true, 5), module("Aura", true, 0)];
    let enabled = vec![("Fly".to_string(), true), ("Speed".to_string(), true), ("Aura".to_string(), false)];
    let keys = vec![("Speed".to_string(), 71)];
    let cbs = apply_config(&mut ms, &enabled, &keys);
    assert_eq!(cbs, vec![(0, ModuleCallback::OnEnable), (2, ModuleCallback::OnDisable)]);
    assert!(ms[0].enabled && ms[1].enabled && !ms[2].enabled);
    assert_eq!(ms[1].key, 71);
    assert_eq!(apply_config(&mut ms, &enabled, &keys), vec![]);
}

#[test]
fn script_list_keeps_each_path_once() {
    let mut l = ScriptList::new();
    l.record_loaded("/s/a.lua");
    l.record_loaded("/s/b.lua");
    l.record_loaded("/s/a.lua");
    assert_eq!(l.get_loaded_scripts(), vec!["/s/a.lua", "/s/b.lua"]);
    forget_script(&mut l, "/s/a.lua");
    assert_eq!(l.get_loaded_scripts(), vec!["/s/b.lua"]);
    forget_script(&mut l, "/s/zzz.lua");
    assert_eq!(l.paths.len(), 1);
}

#[test]
fn modules_from_tables_get_defaults() {
    let m: ModuleInfo<u8> = module_from_table(None, None, None, None, None, 3, vec![]);
    assert_eq!((m.name.as_str(), m.description.as_str(), m.category.as_str(), m.enabled, m.key), ("module_3", "", "Misc", false, 0));
    let m: ModuleInfo<u8> = module_from_table(
        Some("Fly".to_string()),
        Some("d".to_string()),
        Some("Movement".to_string()),
        Some(true),
        Some(70),
        1,
        vec![1],
    );
    assert_eq!((m.name.as_str(), m.category.as_str(), m.enabled, m.key, m.settings.len()), ("Fly", "Movement", true, 70, 1));
}

#[test]
fn script_values_become_setting_kinds() {
    assert_eq!(setting_kind(LuaValueKind::Boolean, None), Some(SettingKind::Boolean));
    assert_eq!(setting_kind(LuaValueKind::Number, None), Some(SettingKind::Number));
    assert_eq!(setting_kind(LuaValueKind::Number, Some("keybind")), Some(SettingKind::Keybind));
    assert_eq!(setting_kind(LuaValueKind::Number, Some("enum")), Some(SettingKind::Number));
    assert_eq!(setting_kind(LuaValueKind::Str, Some("enum")), Some(SettingKind::Enum));
    assert_eq!(setting_kind(LuaValueKind::Str, None), None);
    assert_eq!(setting_kind(LuaValueKind::Integer, None), Some(SettingKind::Number));
    assert_eq!(setting_kind(LuaValueKind::Integer, Some("slider")), Some(SettingKind::Number));
    assert_eq!(setting_kind(LuaValueKind::Integer, Some("keybind")), Some(SettingKind::Keybind));
    assert_eq!(setting_kind(LuaValueKind::Other, Some("keybind")), None);
}
