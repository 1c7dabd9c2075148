use anemoia::netty::scripts_cancel;
use anemoia::netty::{
    is_lua_send, lua_send, mark_lua_send, on_outgoing, set_freeze, InjectAttempt, Interceptor, OutgoingVerdict,
    PacketGate,
};

const MOVE: &str = "net.minecraft.network.protocol.game.ServerboundMovePlayerPacket$Pos";
const CHAT: &str = "net.minecraft.network.protocol.game.ServerboundChatPacket";

#[test]
fn script_packets_pass_once_per_mark() {
    let mut g = PacketGate::new();
    mark_lua_send(&mut g);
    mark_lua_send(&mut g);
    assert_eq!(g.lua_inflight, 2);
    assert!(is_lua_send(&mut g));
    assert_eq!(on_outgoing(&mut g, CHAT), OutgoingVerdict::LuaSent);
    assert_eq!(g.lua_inflight, 0);
    assert!(!is_lua_send(&mut g));
    assert_eq!(on_outgoing(&mut g, CHAT), OutgoingVerdict::AskScripts);
}

#[test]
fn freeze_holds_back_movement_only() {
    let mut g = PacketGate::new();
    assert_eq!(on_outgoing(&mut g, MOVE), OutgoingVerdict::AskScripts);
    set_freeze(&mut g, true);
    assert_eq!(on_outgoing(&mut g, MOVE), OutgoingVerdict::Frozen);
    assert_eq!(on_outgoing(&mut g, CHAT), OutgoingVerdict::AskScripts);
    mark_lua_send(&mut g);
    assert_eq!(on_outgoing(&mut g, MOVE), OutgoingVerdict::Frozen);
    assert_eq!(g.lua_inflight, 1);
    set_freeze(&mut g, false);
    assert_eq!(on_outgoing(&mut g, MOVE), OutgoingVerdict::LuaSent);
    assert_eq!(on_outgoing(&mut g, MOVE), OutgoingVerdict::AskScripts);
}

#[test]
fn cancelled_script_sends_are_not_counted() {
    let mut g = PacketGate::new();
    assert!(!lua_send(&mut g, true));
    assert_eq!(g.lua_inflight, 0);
    assert!(lua_send(&mut g, false));
    assert_eq!(g.lua_inflight, 1);
}

#[test]
fn mark_wraps_like_an_atomic() {
    let mut g = PacketGate { freeze: false, lua_inflight: i32::MAX };
    mark_lua_send(&mut g);
    assert_eq!(g.lua_inflight, i32::MIN);
}

#[test]
fn interceptor_gives_up_after_ten_failures() {
    let mut i = Interceptor::new();
    let mut warned = 0;
    for _ in 0..10 {
        assert!(i.should_try());
        if i.record(InjectAttempt::Failed) {
            warned += 1;
        }
    }
    assert_eq!(warned, 3);
    assert!(!i.should_try());
}

#[test]
fn not_connected_yet_ends_the_run_of_failures() {
    let mut i = Interceptor::new();
    for _ in 0..9 {
        i.record(InjectAttempt::Failed);
    }
    assert!(!i.record(InjectAttempt::NotYet));
    assert!(i.record(InjectAttempt::Failed));
    assert!(i.should_try());
    assert_eq!(i.errors, 1);
}

#[test]
fn interceptor_stops_once_in() {
    let mut i = Interceptor::new();
    assert!(!i.record(InjectAttempt::NotYet));
    assert!(i.should_try());
    assert!(!i.record(InjectAttempt::Done));
    assert!(!i.should_try());
}

#[test]
fn any_true_answer_cancels() {
    assert!(!scripts_cancel(&vec![]));
    assert!(!scripts_cancel(&vec![Some(false), None]));
    assert!(scripts_cancel(&vec![None, Some(true), Some(false)]));
}
