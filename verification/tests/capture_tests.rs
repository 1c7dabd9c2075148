use anemoia::capture::{push_in, push_out, short_name, Direction, PacketCapture, CAPACITY};

#[test]
fn short_names_drop_the_package() {
    assert_eq!(short_name("net.minecraft.network.protocol.game.ServerboundMovePlayerPacket$Pos"), "ServerboundMovePlayerPacket.Pos");
    assert_eq!(short_name("NoPackage"), "NoPackage");
    assert_eq!(short_name("a.b."), "");
}

#[test]
fn packets_get_rising_ids_and_old_ones_leave() {
    let mut c: PacketCapture<u32> = PacketCapture::new();
    for i in 0..(CAPACITY as u32 + 3) {
        c.push(Direction::Out, format!("p.P{}", i), i, false, i as u64);
    }
    assert_eq!(c.len(), CAPACITY);
    assert!(c.get(0).is_none());
    assert_eq!(c.get(3).map(|p| p.raw), Some(3));
    assert_eq!(c.get(CAPACITY as u64 + 2).map(|p| p.class_name.clone()), Some(format!("p.P{}", CAPACITY + 2)));
}

#[test]
fn paused_or_disabled_capture_records_nothing() {
    let mut c: PacketCapture<()> = PacketCapture::new();
    c.paused = true;
    c.push(Direction::In, "a.B".to_string(), (), false, 0);
    assert_eq!(c.len(), 0);
    c.paused = false;
    c.enabled = false;
    c.push(Direction::In, "a.B".to_string(), (), false, 0);
    assert_eq!(c.len(), 0);
    c.enabled = true;
    c.push(Direction::In, "a.B".to_string(), (), false, 0);
    assert_eq!(c.get(0).map(|p| p.direction), Some(Direction::In));
}

#[test]
fn visible_ids_are_newest_first_and_filtered() {
    let mut c: PacketCapture<()> = PacketCapture::new();
    c.push(Direction::Out, "x.ServerboundChat".to_string(), (), false, 1);
    c.push(Direction::In, "x.ClientboundChat".to_string(), (), false, 2);
    c.push(Direction::Out, "x.ServerboundMove".to_string(), (), true, 3);
    assert_eq!(c.visible_ids(), vec![2, 1, 0]);
    c.show_in = false;
    assert_eq!(c.visible_ids(), vec![2, 0]);
    c.show_in = true;
    c.search = "CHAT".to_string();
    assert_eq!(c.visible_ids(), vec![1, 0]);
}

#[test]
fn fields_attach_to_a_packet_and_clear_forgets_all() {
    let mut c: PacketCapture<()> = PacketCapture::new();
    c.push(Direction::Out, "x.A".to_string(), (), false, 1);
    assert!(c.set_fields(0, vec![("x".to_string(), "1".to_string())]));
    assert!(!c.set_fields(9, vec![]));
    assert_eq!(c.get(0).and_then(|p| p.fields.clone()), Some(vec![("x".to_string(), "1".to_string())]));
    c.selected_id = Some(0);
    c.clear();
    assert_eq!(c.len(), 0);
    assert_eq!(c.selected_id, None);
    c.push(Direction::Out, "x.A".to_string(), (), false, 1);
    assert!(c.get(1).is_some());
}

#[test]
fn the_selected_packet_is_reflected_once() {
    let mut c: PacketCapture<()> = PacketCapture::new();
    c.push(Direction::Out, "x.A".to_string(), (), false, 1);
    assert_eq!(c.reflection_target(), None);
    c.selected_id = Some(0);
    assert_eq!(c.reflection_target(), Some(0));
    c.set_fields(0, vec![]);
    assert_eq!(c.reflection_target(), None);
    c.selected_id = Some(7);
    assert_eq!(c.reflection_target(), None);
}

#[test]
fn push_out_and_push_in_record_their_direction() {
    let mut c: PacketCapture<u8> = PacketCapture::new();
    push_out(&mut c, "a.Out".to_string(), 1, true, 5);
    push_in(&mut c, "a.In".to_string(), 2, 6);
    let p0 = c.get(0).unwrap();
    assert_eq!((p0.direction, p0.cancelled, p0.raw, p0.elapsed_micros), (Direction::Out, true, 1, 5));
    let p1 = c.get(1).unwrap();
    assert_eq!((p1.direction, p1.cancelled, p1.raw, p1.elapsed_micros), (Direction::In, false, 2, 6));
    assert_eq!(c.visible_ids(), vec![1, 0]);
}
