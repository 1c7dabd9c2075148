//! Decisions of the agent that lives in the game's JVM: the commands it
//! accepts over its socket, its answers, and when it gives the JVM up.
use vstd::prelude::*;
use crate::text::{
    chars_of, concat_chars, concat_str, digits_of, slice_range, starts_with, starts_with_str, str_eq,
    string_from_chars, string_of, u64_digits,
};

verus! {

/// A command line sent to the agent.
#[derive(Debug, Clone, PartialEq, Eq)]
pub enum AgentCommand {
    /// `reload <path>`: load the client library at the path afresh.
    Reload(String),
    /// `unload`: unload the client library.
    Unload,
    /// Anything else.
    Unknown,
}

/// What a command line asks for.
pub open spec fn command_spec(line: Seq<char>) -> Option<Option<Seq<char>>> {
    if starts_with(line, "reload "@) {
        Some(Some(line.subrange(7, line.len() as int)))
    } else if line == "unload"@ {
        Some(None)
    } else {
        None
    }
}

/// Reads a command line (already trimmed): `reload ` and a path, or
/// `unload`; anything else is unknown.
pub fn dispatch_command(line: &str) -> (r: AgentCommand)
    ensures
        match command_spec(line@) {
            Some(Some(p)) => r matches AgentCommand::Reload(q) && q@ == p,
            Some(None) => r == AgentCommand::Unload,
            None => r == AgentCommand::Unknown,
        },
{
    proof {
        reveal_strlit("reload ");
    }
    if starts_with_str(line, "reload ") {
        let c = chars_of(line);
        let rest = slice_range(c.as_slice(), 7, c.len());
        AgentCommand::Reload(string_from_chars(rest))
    } else if str_eq(line, "unload") {
        AgentCommand::Unload
    } else {
        AgentCommand::Unknown
    }
}

/// The agent's answer to a command: `OK` when it was carried out,
/// `ERR: ` and the reason when a reload failed, `ERR: unknown command` for
/// an unknown one.
pub open spec fn reply_spec(cmd: AgentCommand, reload_error: Option<Seq<char>>) -> Seq<char> {
    match cmd {
        AgentCommand::Reload(_) => match reload_error {
            None => "OK"@,
            Some(e) => "ERR: "@ + e,
        },
        AgentCommand::Unload => "OK"@,
        AgentCommand::Unknown => "ERR: unknown command"@,
    }
}

/// The answer to a command; `reload_error` is why a reload failed, if it
/// did.
pub fn command_reply(cmd: &AgentCommand, reload_error: Option<&str>) -> (r: String)
    ensures
        r@ == reply_spec(
            *cmd,
            match reload_error {
                Some(e) => Some(e@),
                None => None,
            },
        ),
{
    match cmd {
        AgentCommand::Reload(_) => match reload_error {
            None => string_of("OK"),
            Some(e) => concat_str("ERR: ", e),
        },
        AgentCommand::Unload => string_of("OK"),
        AgentCommand::Unknown => string_of("ERR: unknown command"),
    }
}

/// A reload command names the path it carries: the agent reads back every
/// path that `reload ` is put before.
pub proof fn lemma_reload_round_trip(path: Seq<char>)
    ensures
        command_spec("reload "@ + path) == Some(Some(path)),
{
    reveal_strlit("reload ");
    let line = "reload "@ + path;
    assert(line.subrange(0, 7) =~= "reload "@);
    assert(line.subrange(7, line.len() as int) =~= path);
}

/// A command that is neither a reload nor `unload` is answered
/// `ERR: unknown command`.
pub proof fn lemma_unknown_refused(line: Seq<char>)
    requires
        !starts_with(line, "reload "@),
        line != "unload"@,
    ensures
        command_spec(line) is None,
        reply_spec(AgentCommand::Unknown, None) == "ERR: unknown command"@,
{
}

/// How many failed checks in a row make the agent give the JVM up.
pub const MAX_HEALTH_FAILURES: u32 = 3;

/// The failed checks of the JVM in a row.
#[derive(Debug, Clone, Copy, PartialEq, Eq, Structural)]
pub struct HealthMonitor {
    pub failures: u32,
}

/// The outcome of one health check.
#[derive(Debug, Clone, Copy, PartialEq, Eq, Structural)]
pub struct HealthStep {
    /// A failure to report, with how many there are in a row.
    pub warn: Option<u32>,
    /// The JVM is given up: unload the client and stop checking.
    pub unload: bool,
}

impl HealthMonitor {
    /// No failure yet.
    pub fn new() -> (r: Self)
        ensures
            r.failures == 0,
    {
        HealthMonitor { failures: 0 }
    }

    /// Takes in one check: success clears the count, failure adds one and
    /// is reported; at `MAX_HEALTH_FAILURES` the JVM is given up. Checks
    /// stop once it is given up, so the count is below the limit here.
    pub fn check(&mut self, ok: bool) -> (r: HealthStep)
        requires
            old(self).failures < MAX_HEALTH_FAILURES,
        ensures
            (final(self).failures, r.unload) == check_spec(old(self).failures, ok),
            r.warn == if ok {
                None
            } else {
                Some(final(self).failures)
            },
    {
        if ok {
            self.failures = 0;
            HealthStep { warn: None, unload: false }
        } else {
            self.failures = self.failures + 1;
            HealthStep { warn: Some(self.failures), unload: self.failures >= MAX_HEALTH_FAILURES }
        }
    }
}

/// One check of the monitor, as plain values: the count after it, and
/// whether the JVM is given up.
pub open spec fn check_spec(failures: u32, ok: bool) -> (u32, bool) {
    if ok {
        (0, false)
    } else {
        ((failures + 1) as u32, failures + 1 >= MAX_HEALTH_FAILURES)
    }
}

/// Three failed checks in a row give the JVM up, and fewer do not; a
/// success in between starts the count again.
pub proof fn lemma_three_failures_unload(ok: bool)
    ensures
        !check_spec(0, false).1,
        !check_spec(check_spec(0, false).0, false).1,
        check_spec(check_spec(check_spec(0, false).0, false).0, false).1,
        check_spec(check_spec(check_spec(0, false).0, false).0, true) == (0u32, false),
{
}

/// The path the client library is copied to before loading: named by the
/// time in milliseconds.
pub open spec fn temp_client_path_spec(millis: u64) -> Seq<char> {
    "/tmp/anemoia_client_"@ + digits_of(millis as nat) + ".so"@
}

/// The path the client library is copied to before loading.
pub fn temp_client_path(millis: u64) -> (r: String)
    ensures
        r@ == temp_client_path_spec(millis),
{
    let a = chars_of("/tmp/anemoia_client_");
    let d = u64_digits(millis);
    let b = chars_of(".so");
    let x = concat_chars(a.as_slice(), d.as_slice());
    let y = concat_chars(x.as_slice(), b.as_slice());
    string_from_chars(y)
}

} // verus!
