use anemoia::game::{face_offset, http_method, mob_effect_field, swing_hand, HttpMethod, PlayerInput};

#[test]
fn effect_names_are_normalised() {
    assert_eq!(mob_effect_field("speed"), Some("SPEED"));
    assert_eq!(mob_effect_field("Jump Boost"), Some("JUMP_BOOST"));
    assert_eq!(mob_effect_field("bad-luck"), Some("UNLUCK"));
    assert_eq!(mob_effect_field("DAMAGE_RESISTANCE"), Some("RESISTANCE"));
    assert_eq!(mob_effect_field("Hero Of The Village"), Some("HERO_OF_THE_VILLAGE"));
    assert_eq!(mob_effect_field("flying"), None);
    assert_eq!(mob_effect_field(""), None);
}

#[test]
fn http_methods() {
    assert_eq!(http_method(None), HttpMethod::Get);
    assert_eq!(http_method(Some("post")), HttpMethod::Post);
    assert_eq!(http_method(Some("Put")), HttpMethod::Put);
    assert_eq!(http_method(Some("DELETE")), HttpMethod::Delete);
    assert_eq!(http_method(Some("patch")), HttpMethod::Get);
}

#[test]
fn swing_hands() {
    assert_eq!(swing_hand("off_hand"), "OFF_HAND");
    assert_eq!(swing_hand("Off_Hand"), "OFF_HAND");
    assert_eq!(swing_hand("offhand"), "MAIN_HAND");
    assert_eq!(swing_hand("main"), "MAIN_HAND");
}

#[test]
fn face_offsets_in_half_blocks() {
    assert_eq!(face_offset("UP"), Ok((1, 2, 1)));
    assert_eq!(face_offset("DOWN"), Ok((1, 0, 1)));
    assert_eq!(face_offset("NORTH"), Ok((1, 1, 0)));
    assert_eq!(face_offset("SOUTH"), Ok((1, 1, 2)));
    assert_eq!(face_offset("WEST"), Ok((0, 1, 1)));
    assert_eq!(face_offset("EAST"), Ok((2, 1, 1)));
    assert_eq!(face_offset("up"), Err("unknown face: up".to_string()));
}

#[test]
fn player_input_is_plain_data() {
    let i = PlayerInput { left: true, right: false, up: true, down: false, jumping: false, shift_key_down: true };
    let j = i;
    assert_eq!(i, j);
}
