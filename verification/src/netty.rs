//! What becomes of a packet on its way out, and when the packet
//! interceptor is put into the connection's pipeline.
use vstd::prelude::*;
use crate::text::{contains_seq, contains_str};

verus! {

/// The name that marks the movement packets that a freeze holds back.
pub open spec fn move_packet_marker() -> Seq<char> {
    "ServerboundMovePlayerPacket"@
}

/// What the outgoing hook knows: whether movement is frozen, and how many
/// packets sent by scripts are on their way.
#[derive(Debug, Clone, Copy, PartialEq, Eq, Structural)]
pub struct PacketGate {
    pub freeze: bool,
    pub lua_inflight: i32,
}

/// What becomes of an outgoing packet.
#[derive(Debug, Clone, Copy, PartialEq, Eq, Structural)]
pub enum OutgoingVerdict {
    /// A script sent it: it passes, unhooked, and is captured as sent.
    LuaSent,
    /// A movement packet while frozen: it is held back, and captured as
    /// cancelled.
    Frozen,
    /// The scripts' packet hooks decide.
    AskScripts,
}

impl PacketGate {
    /// Nothing frozen, nothing on its way.
    pub fn new() -> (r: Self)
        ensures
            !r.freeze,
            r.lua_inflight == 0,
    {
        PacketGate { freeze: false, lua_inflight: 0 }
    }
}

/// Freezes or releases movement packets.
pub fn set_freeze(gate: &mut PacketGate, active: bool)
    ensures
        final(gate).freeze == active,
        final(gate).lua_inflight == old(gate).lua_inflight,
{
    gate.freeze = active;
}

/// Counts a packet that a script is about to send (wrapping, as an atomic
/// add does).
pub fn mark_lua_send(gate: &mut PacketGate)
    ensures
        final(gate).lua_inflight as int == if old(gate).lua_inflight == i32::MAX {
            i32::MIN as int
        } else {
            old(gate).lua_inflight + 1
        },
        final(gate).freeze == old(gate).freeze,
{
    gate.lua_inflight = gate.lua_inflight.wrapping_add(1);
}

/// Whether the packet at hand was sent by a script: so when some are on
/// their way, one of which is then counted off.
pub fn is_lua_send(gate: &mut PacketGate) -> (r: bool)
    ensures
        r == (old(gate).lua_inflight > 0),
        final(gate).lua_inflight == if r {
            old(gate).lua_inflight - 1
        } else {
            old(gate).lua_inflight as int
        },
        final(gate).freeze == old(gate).freeze,
{
    if gate.lua_inflight > 0 {
        gate.lua_inflight = gate.lua_inflight - 1;
        true
    } else {
        false
    }
}

/// What the outgoing hook does with a packet of class `class_name`, and the
/// gate after it: while frozen, every movement packet is held back, even
/// one that a script sent; else a packet sent by a script passes; else the
/// scripts decide.
pub open spec fn outgoing_spec(g: PacketGate, class_name: Seq<char>) -> (PacketGate, OutgoingVerdict) {
    if g.freeze && contains_seq(class_name, move_packet_marker()) {
        (g, OutgoingVerdict::Frozen)
    } else if g.lua_inflight > 0 {
        (PacketGate { lua_inflight: (g.lua_inflight - 1) as i32, ..g }, OutgoingVerdict::LuaSent)
    } else {
        (g, OutgoingVerdict::AskScripts)
    }
}

/// Decides what becomes of an outgoing packet of class `class_name`.
pub fn on_outgoing(gate: &mut PacketGate, class_name: &str) -> (r: OutgoingVerdict)
    ensures
        (*final(gate), r) == outgoing_spec(*old(gate), class_name@),
{
    if gate.freeze && contains_str(class_name, "ServerboundMovePlayerPacket") {
        return OutgoingVerdict::Frozen;
    }
    if is_lua_send(gate) {
        OutgoingVerdict::LuaSent
    } else {
        OutgoingVerdict::AskScripts
    }
}

/// A script sends a packet: unless its own hooks cancelled it, it goes out,
/// counted as sent by a script so that the outgoing hook lets it pass.
/// Gives whether it goes out.
pub fn lua_send(gate: &mut PacketGate, cancelled: bool) -> (r: bool)
    ensures
        r == !cancelled,
        r ==> final(gate).lua_inflight as int == if old(gate).lua_inflight == i32::MAX {
            i32::MIN as int
        } else {
            old(gate).lua_inflight + 1
        },
        !r ==> *final(gate) == *old(gate),
        final(gate).freeze == old(gate).freeze,
{
    if cancelled {
        return false;
    }
    mark_lua_send(gate);
    true
}

/// A packet that a script sends, with fewer than `i32::MAX` on their way,
/// passes the outgoing hook unhooked, and the count is back where it was,
/// unless it is a movement packet held back by a freeze.
pub proof fn lemma_lua_send_passes_once(g: PacketGate, class_name: Seq<char>)
    requires
        0 <= g.lua_inflight < i32::MAX,
        !(g.freeze && contains_seq(class_name, move_packet_marker())),
    ensures
        ({
            let marked = PacketGate { lua_inflight: (g.lua_inflight + 1) as i32, ..g };
            outgoing_spec(marked, class_name) == (g, OutgoingVerdict::LuaSent)
        }),
{
}

/// Freezing withholds every movement packet, whoever sent it, and leaves
/// the count of script packets as it was.
pub proof fn lemma_freeze_holds_moves(g: PacketGate, class_name: Seq<char>)
    requires
        g.freeze,
        contains_seq(class_name, move_packet_marker()),
    ensures
        outgoing_spec(g, class_name) == (g, OutgoingVerdict::Frozen),
{
}

/// How many failed attempts in a row make the interceptor give up.
pub const MAX_INJECT_ERRORS: u32 = 10;

/// Whether the interceptor is in the pipeline, and how many attempts to put
/// it there failed in a row (an attempt that found the game not connected
/// yet ends the run).
#[derive(Debug, Clone, Copy, PartialEq, Eq, Structural)]
pub struct Interceptor {
    pub injected: bool,
    pub errors: u32,
}

/// How an attempt to put the interceptor into the pipeline went.
#[derive(Debug, Clone, Copy, PartialEq, Eq, Structural)]
pub enum InjectAttempt {
    /// It is in.
    Done,
    /// The game is not connected yet.
    NotYet,
    /// A call failed.
    Failed,
}

impl Interceptor {
    /// Not in, no failure.
    pub fn new() -> (r: Self)
        ensures
            !r.injected,
            r.errors == 0,
    {
        Interceptor { injected: false, errors: 0 }
    }

    /// Whether this tick tries to put the interceptor in: not once it is
    /// in, nor after `MAX_INJECT_ERRORS` failures in a row.
    pub fn should_try(&self) -> (r: bool)
        ensures
            r == (!self.injected && self.errors < MAX_INJECT_ERRORS),
    {
        !self.injected && self.errors < MAX_INJECT_ERRORS
    }

    /// Takes in how an attempt went; gives whether the failure is to be
    /// logged (the first three of a run are). An attempt that finds the
    /// game not connected yet is no failure and ends the run of failures.
    pub fn record(&mut self, attempt: InjectAttempt) -> (warn: bool)
        ensures
            match attempt {
                InjectAttempt::Done => final(self).injected && final(self).errors == old(self).errors && !warn,
                InjectAttempt::NotYet => final(self).injected == old(self).injected && final(self).errors == 0 && !warn,
                InjectAttempt::Failed => final(self).injected == old(self).injected && final(self).errors == (if old(self).errors == u32::MAX {
                    0
                } else {
                    old(self).errors + 1
                }) && warn == (old(self).errors < 3),
            },
    {
        match attempt {
            InjectAttempt::Done => {
                self.injected = true;
                false
            },
            InjectAttempt::NotYet => {
                self.errors = 0;
                false
            },
            InjectAttempt::Failed => {
                let n = self.errors;
                self.errors = self.errors.wrapping_add(1);
                n < 3
            },
        }
    }
}

/// Whether the scripts' packet hooks cancel a packet: some hook answered
/// `true` (every hook runs; one that failed answers nothing).
pub fn scripts_cancel(answers: &Vec<Option<bool>>) -> (r: bool)
    ensures
        r == exists|i: int| 0 <= i < answers.len() && #[trigger] answers@[i] == Some(true),
{
    let mut cancelled = false;
    let mut k: usize = 0;
    while k < answers.len()
        invariant
            k <= answers.len(),
            cancelled == exists|i: int| 0 <= i < k && #[trigger] answers@[i] == Some(true),
        decreases answers.len() - k,
    {
        if answers[k] == Some(true) {
            cancelled = true;
        }
        k += 1;
    }
    cancelled
}

} // verus!
