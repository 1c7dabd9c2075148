use anemoia::gui::{
    frame, group_by_category, message_preview, search_modules, zulip_strip_md, PREVIEW_BYTES, BindTarget, ClickGui, FrameInput, MessageSource,
    Outgoing, Panel,
};
use anemoia::modules::ModuleInfo;
use anemoia::zulip::ZulipConfig;

fn input(focused: bool, toggle_down: bool, escape: bool, key: Option<i32>) -> FrameInput {
    FrameInput { focused, toggle_down, escape_pressed: escape, pressed_key: key }
}

fn module(name: &str, category: &str) -> ModuleInfo<u8> {
    ModuleInfo {
        name: name.to_string(),
        description: String::new(),
        category: category.to_string(),
        enabled: false,
        key: 0,
        settings: Vec::new(),
    }
}

fn config() -> ZulipConfig {
    ZulipConfig {
        enabled: true,
        url: "https://chat.example".to_string(),
        email: "bot@example".to_string(),
        api_key: "k3y".to_string(),
        stream: "general".to_string(),
        topic: "hello".to_string(),
    }
}

#[test]
fn toggle_key_press_shows_and_hides() {
    let mut g = ClickGui::new(344, [1, 2, 3]);
    let o = frame(&mut g, &input(true, true, false, None));
    assert!(g.visible && o.draw && o.show_cursor && o.reset_positions && !o.hide_cursor);
    let o = frame(&mut g, &input(true, true, false, None));
    assert!(g.visible && !o.reset_positions);
    let o = frame(&mut g, &input(true, false, false, None));
    assert!(g.visible && o.show_cursor);
    let o = frame(&mut g, &input(true, true, false, None));
    assert!(!g.visible && o.hide_cursor && o.save_positions && !o.show_cursor);
}

#[test]
fn escape_hides_and_focus_loss_hides_without_drawing() {
    let mut g = ClickGui::new(344, [0, 0, 0]);
    frame(&mut g, &input(true, true, false, None));
    let o = frame(&mut g, &input(true, true, true, None));
    assert!(!g.visible && o.hide_cursor && o.save_positions);
    frame(&mut g, &input(true, false, false, None));
    frame(&mut g, &input(true, true, false, None));
    assert!(g.visible);
    let o = frame(&mut g, &input(false, false, false, None));
    assert!(!g.visible && !o.draw && o.hide_cursor && !o.save_positions);
}

#[test]
fn binding_gives_the_key_to_the_awaited_target() {
    let mut g = ClickGui::new(344, [0, 0, 0]);
    frame(&mut g, &input(true, true, false, None));
    g.start_setting_binding("Aura", "trigger");
    g.start_module_binding("Fly");
    assert_eq!(g.module_bind_label("Fly", 70), "...");
    let o = frame(&mut g, &input(true, true, false, Some(71)));
    assert_eq!(o.bound, Some((BindTarget::ModuleKey("Fly".to_string()), 71)));
    assert!(!g.binding);
    g.start_module_binding("Fly");
    g.start_setting_binding("Aura", "trigger");
    assert_eq!(g.setting_bind_label("Aura", "trigger", 65), "...");
    let o = frame(&mut g, &input(true, true, false, Some(72)));
    assert_eq!(o.bound, Some((BindTarget::ModuleSetting("Aura".to_string(), "trigger".to_string()), 72)));
    let o = frame(&mut g, &input(true, true, false, Some(73)));
    assert_eq!(o.bound, None);
    g.set_toggle_binding(true);
    let o = frame(&mut g, &input(true, true, false, Some(300)));
    assert_eq!(o.bound, Some((BindTarget::ModuleKey("Fly".to_string()), 300)));
    g.set_toggle_binding(true);
    let o = frame(&mut g, &input(true, true, false, Some(301)));
    assert_eq!(o.bound, Some((BindTarget::ToggleKey, 301)));
    assert_eq!(g.toggle_key, 301);
}

#[test]
fn binding_waits_while_hidden() {
    let mut g = ClickGui::new(344, [0, 0, 0]);
    g.start_module_binding("Fly");
    let o = frame(&mut g, &input(true, false, false, Some(70)));
    assert_eq!(o.bound, None);
    assert!(g.binding);
}

#[test]
fn bind_labels() {
    let g = ClickGui::new(344, [0, 0, 0]);
    assert_eq!(g.module_bind_label("Fly", 0), "None");
    assert_eq!(g.module_bind_label("Fly", 70), "F");
    assert_eq!(g.setting_bind_label("Aura", "k", 290), "F1");
    assert_eq!(ClickGui::module_hover_text(""), "No description (Right-click for settings)");
    assert_eq!(ClickGui::module_hover_text("Flies"), "Flies\n(Right-click for settings)");
}

#[test]
fn settings_load_and_apply_trimmed_fields() {
    let mut g = ClickGui::new(344, [0, 0, 0]);
    g.toggle_settings(&config());
    assert!(g.settings_open);
    assert_eq!(g.zulip_url_buf, "https://chat.example");
    g.zulip_email_buf = "  me@x  ".to_string();
    let c = g.zulip_config_from_fields(&config());
    assert_eq!(c.email, "me@x");
    assert_eq!(c.topic, "hello");
    assert!(c.enabled);
    g.toggle_zulip_settings(&config());
    assert!(g.zulip_in_settings);
    g.zulip_key_buf = " new ".to_string();
    let c = g.apply_zulip_settings(&config());
    assert_eq!(c.api_key, "new");
    assert!(!g.zulip_in_settings);
}

#[test]
fn panels_open_and_close() {
    let mut g = ClickGui::new(344, [0, 0, 0]);
    g.toggle_panel(Panel::Zulip);
    g.toggle_panel(Panel::Packets);
    g.toggle_panel(Panel::Packets);
    assert!(g.zulip_open && !g.packet_mgr_open && !g.scripts_open);
    g.toggle_expanded("Fly");
    assert_eq!(g.expanded_module, Some("Fly".to_string()));
    g.toggle_expanded("Fly");
    assert_eq!(g.expanded_module, None);
}

#[test]
fn profiles_and_scripts_need_non_empty_names() {
    let mut g = ClickGui::new(344, [0, 0, 0]);
    g.new_profile_buf = "   ".to_string();
    assert_eq!(g.profile_to_create(), None);
    g.new_profile_buf = " pvp ".to_string();
    assert_eq!(g.profile_to_create(), Some("pvp".to_string()));
    g.new_script_buf = " /s/fly.lua ".to_string();
    assert_eq!(g.script_to_load(), Some("/s/fly.lua".to_string()));
    g.script_loaded(Err("Script error: boom".to_string()));
    assert_eq!(g.script_error, Some("Script error: boom".to_string()));
    g.script_loaded(Ok(()));
    assert_eq!(g.script_error, None);
    assert_eq!(g.new_script_buf, "");
}

#[test]
fn chat_selection_and_compose() {
    let mut g = ClickGui::new(344, [0, 0, 0]);
    assert_eq!(g.message_source(), MessageSource::Nothing);
    assert_eq!(g.toggle_channel("general", 5), Some(5));
    assert_eq!(g.toggle_channel("general", 5), None);
    g.select_stream("general");
    assert_eq!(g.message_source(), MessageSource::Stream("general".to_string()));
    g.zulip_msg_buf = "  hi all ".to_string();
    assert_eq!(g.compose(), None);
    g.zulip_topic_buf = " news ".to_string();
    assert_eq!(
        g.compose(),
        Some(Outgoing { stream: "general".to_string(), topic: "news".to_string(), content: "hi all".to_string() })
    );
    g.select_topic("general", "greetings");
    assert_eq!(g.message_source(), MessageSource::Topic("general".to_string(), "greetings".to_string()));
    assert_eq!(g.compose().map(|o| o.topic), Some("greetings".to_string()));
    g.message_sent();
    assert_eq!(g.zulip_msg_buf, "");
    assert_eq!(g.compose(), None);
}

#[test]
fn search_lists_matching_modules_in_group_order() {
    let groups = group_by_category(vec![
        module("KillAura", "Combat"),
        module("Fly", "Movement"),
        module("AutoClicker", "Combat"),
        module("Flight HUD", "Render"),
    ]);
    let names: Vec<&str> = groups.iter().map(|g| g.0.as_str()).collect();
    assert_eq!(names, vec!["Combat", "Movement", "Render"]);
    assert_eq!(search_modules("  ", &groups), None);
    assert_eq!(search_modules(" FL ", &groups), Some(vec![(1, 0), (2, 0)]));
    assert_eq!(search_modules("aura", &groups), Some(vec![(0, 0)]));
    assert_eq!(search_modules("zzz", &groups), Some(vec![]));
}

#[test]
fn strip_md_drops_images() {
    assert_eq!(zulip_strip_md("look ![cat](/user_uploads/c.png) here"), "look  here");
    assert_eq!(zulip_strip_md("hi ![img](/user_uploads/a.png) there"), "hi  there");
    assert_eq!(zulip_strip_md("![i](a(b).png)!"), "!");
    assert_eq!(zulip_strip_md("open ![i](never closed"), "open ");
    assert_eq!(zulip_strip_md("x![a)rest"), "xrest");
    assert_eq!(zulip_strip_md("a![b(c))d"), "a)d");
    assert_eq!(zulip_strip_md("plain [link](x)"), "plain [link](x)");
    assert_eq!(zulip_strip_md("é"), "\u{c3}\u{a9}");
}

#[test]
fn group_by_category_sorts_categories() {
    let groups = group_by_category(vec![module("b", "Z"), module("a", "A"), module("c", "Z")]);
    assert_eq!(groups.len(), 2);
    assert_eq!(groups[0].0, "A");
    assert_eq!(groups[1].1.iter().map(|m| m.name.clone()).collect::<Vec<_>>(), vec!["b", "c"]);
}

#[test]
fn long_messages_are_cut_at_the_byte_limit() {
    assert_eq!(message_preview("short"), "short");
    let exact = "a".repeat(PREVIEW_BYTES);
    assert_eq!(message_preview(&exact), exact);
    let long = "b".repeat(PREVIEW_BYTES + 1);
    assert_eq!(message_preview(&long), format!("{}…", "b".repeat(PREVIEW_BYTES)));
    let wide = "é".repeat(PREVIEW_BYTES / 2 + 1);
    assert_eq!(message_preview(&wide), format!("{}…", "é".repeat(PREVIEW_BYTES / 2)));
}
