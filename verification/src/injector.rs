//! Decisions of the injector: which process to target, what the HotSpot
//! attach protocol is sent, and how the answers of the JVM and of the agent
//! are read.
use vstd::prelude::*;
use crate::text::{
    all_digits, chars_of, concat_chars, concat_str, contains_seq, contains_str, digits_of, join_strings,
    join_with, lemma_views_push, lines, lines_of, parse_i32, parse_i32_spec, parse_u32, parse_u32_spec,
    starts_with, starts_with_str, str_eq, string_from_chars, to_lowercase, trim, trim_str, u64_digits, views,
    lowercase_of,
};

verus! {

/// A running process as the process table shows it.
#[derive(Debug, Clone)]
pub struct ProcessInfo {
    pub pid: u32,
    /// The executable's name.
    pub name: String,
    /// The command line, one argument per string.
    pub cmd: Vec<String>,
}

/// What the command line says of the target process.
#[derive(Debug, Clone, PartialEq, Eq)]
pub enum PidArg {
    /// A process id was given.
    Given(u32),
    /// None was given: the process is to be found.
    Detect,
}

/// Why no target process could be settled on.
#[derive(Debug, Clone, PartialEq, Eq)]
pub enum PidError {
    /// `--pid` stood last, with no value after it.
    MissingValue,
    /// The value after `--pid` is not a `u32`.
    Invalid(String),
    /// No Minecraft or Java process is running.
    NotFound,
}

/// The first index at or after `i` whose item is `x`.
pub open spec fn index_from(s: Seq<Seq<char>>, x: Seq<char>, i: int) -> Option<int>
    decreases s.len() - i,
{
    if i < 0 || i >= s.len() {
        None
    } else if s[i] == x {
        Some(i)
    } else {
        index_from(s, x, i + 1)
    }
}

pub proof fn lemma_index_from(s: Seq<Seq<char>>, x: Seq<char>, i: int)
    requires
        0 <= i,
    ensures
        index_from(s, x, i) matches Some(k) ==> i <= k < s.len() && s[k] == x && forall|j: int|
            i <= j < k ==> s[j] != x,
        index_from(s, x, i) is None ==> forall|j: int| i <= j < s.len() ==> s[j] != x,
    decreases s.len() - i,
{
    if i < s.len() && s[i] != x {
        lemma_index_from(s, x, i + 1);
    }
}

/// Reads the target process id from the program's arguments (the program's
/// name first): the value after the first `--pid`; else the single argument,
/// when there is exactly one and it is a `u32`; else the process is to be
/// found.
pub fn parse_pid(args: &Vec<String>) -> (r: Result<PidArg, PidError>)
    ensures
        match index_from(views(args@), "--pid"@, 0) {
            Some(p) => if p + 1 < args.len() {
                match parse_u32_spec(args@[p + 1]@) {
                    Some(v) => r == Ok::<PidArg, PidError>(PidArg::Given(v)),
                    None => r matches Err(PidError::Invalid(t)) && t@ == args@[p + 1]@,
                }
            } else {
                r == Err::<PidArg, PidError>(PidError::MissingValue)
            },
            None => if args.len() == 2 && parse_u32_spec(args@[1]@) is Some {
                r == Ok::<PidArg, PidError>(PidArg::Given(parse_u32_spec(args@[1]@)->0))
            } else {
                r == Ok::<PidArg, PidError>(PidArg::Detect)
            },
        },
{
    let flag = "--pid";
    let mut k: usize = 0;
    proof {
        lemma_index_from(views(args@), flag@, 0);
    }
    while k < args.len()
        invariant
            k <= args.len(),
            flag@ == "--pid"@,
            index_from(views(args@), flag@, 0) == index_from(views(args@), flag@, k as int),
        decreases args.len() - k,
    {
        let is_flag = str_eq(args[k].as_str(), flag);
        assert(views(args@)[k as int] == args@[k as int]@);
        if is_flag {
            assert(views(args@)[k as int] == "--pid"@);
            assert(index_from(views(args@), "--pid"@, k as int) == Some(k as int));
            if k + 1 < args.len() {
                let raw = &args[k + 1];
                assert(views(args@)[k + 1] == args@[k + 1]@);
                return match parse_u32(raw.as_str()) {
                    Some(v) => Ok(PidArg::Given(v)),
                    None => Err(PidError::Invalid(raw.clone())),
                };
            } else {
                return Err(PidError::MissingValue);
            }
        }
        k += 1;
    }
    if args.len() == 2 {
        assert(views(args@)[1] == args@[1]@);
        if let Some(pid) = parse_u32(args[1].as_str()) {
            return Ok(PidArg::Given(pid));
        }
    }
    Ok(PidArg::Detect)
}

/// The command line of `p`, each argument lower-cased, joined by spaces.
pub open spec fn lower_cmd(p: ProcessInfo) -> Seq<char> {
    join_with(views(p.cmd@).map_values(|c: Seq<char>| lowercase_of(c)), " "@)
}

/// Whether the lower-cased command line of `p` mentions `minecraft`.
pub open spec fn mentions_minecraft(p: ProcessInfo) -> bool {
    contains_seq(lower_cmd(p), "minecraft"@)
}

/// Whether `p` may be the game: its lower-cased name holds `java`, or its
/// command line mentions `minecraft`.
pub open spec fn is_candidate(p: ProcessInfo) -> bool {
    contains_seq(lowercase_of(p.name@), "java"@) || mentions_minecraft(p)
}

/// The first index at or after `i` whose process mentions `minecraft`.
pub open spec fn first_minecraft(ps: Seq<ProcessInfo>, i: int) -> Option<int>
    decreases ps.len() - i,
{
    if i < 0 || i >= ps.len() {
        None
    } else if mentions_minecraft(ps[i]) {
        Some(i)
    } else {
        first_minecraft(ps, i + 1)
    }
}

/// The first index at or after `i` whose process is a candidate.
pub open spec fn first_candidate(ps: Seq<ProcessInfo>, i: int) -> Option<int>
    decreases ps.len() - i,
{
    if i < 0 || i >= ps.len() {
        None
    } else if is_candidate(ps[i]) {
        Some(i)
    } else {
        first_candidate(ps, i + 1)
    }
}

pub proof fn lemma_first_candidate(ps: Seq<ProcessInfo>, i: int)
    requires
        0 <= i,
    ensures
        first_candidate(ps, i) matches Some(k) ==> i <= k < ps.len(),
    decreases ps.len() - i,
{
    if i < ps.len() && !is_candidate(ps[i]) {
        lemma_first_candidate(ps, i + 1);
    }
}

/// The process the injector picks when none was given: the first whose
/// command line mentions `minecraft`, else the first candidate.
pub open spec fn chosen_pid(ps: Seq<ProcessInfo>) -> Option<u32> {
    match first_minecraft(ps, 0) {
        Some(i) => Some(ps[i].pid),
        None => match first_candidate(ps, 0) {
            Some(i) => Some(ps[i].pid),
            None => None,
        },
    }
}

/// The lower-cased command line of `p`.
fn lowered_cmd(p: &ProcessInfo) -> (r: String)
    ensures
        r@ == lower_cmd(*p),
{
    let mut parts: Vec<String> = Vec::new();
    let mut k: usize = 0;
    while k < p.cmd.len()
        invariant
            k <= p.cmd.len(),
            views(parts@) == views(p.cmd@.take(k as int)).map_values(
                |c: Seq<char>| lowercase_of(c),
            ),
        decreases p.cmd.len() - k,
    {
        let l = to_lowercase(p.cmd[k].as_str());
        proof {
            lemma_views_push(parts@, l);
        }
        parts.push(l);
        assert(views(parts@) =~= views(p.cmd@.take(k + 1)).map_values(
            |c: Seq<char>| lowercase_of(c),
        ));
        k += 1;
    }
    assert(p.cmd@.take(k as int) =~= p.cmd@);
    join_strings(&parts, " ")
}

/// Picks the game's process among the running ones, as `chosen_pid` says.
pub fn find_minecraft_pid(procs: &Vec<ProcessInfo>) -> (r: Option<u32>)
    ensures
        r == chosen_pid(procs@),
{
    let mut found: Option<u32> = None;
    let mut k: usize = 0;
    while k < procs.len()
        invariant
            k <= procs.len(),
            first_minecraft(procs@, 0) == first_minecraft(procs@, k as int),
            found is None ==> first_candidate(procs@, 0) == first_candidate(procs@, k as int),
            found matches Some(v) ==> first_candidate(procs@, 0) matches Some(i) && 0 <= i
                < procs.len() && procs@[i].pid == v,
        decreases procs.len() - k,
    {
        let p = &procs[k];
        let lname = to_lowercase(p.name.as_str());
        let lcmd = lowered_cmd(p);
        let is_mc = contains_str(lcmd.as_str(), "minecraft");
        let is_java = contains_str(lname.as_str(), "java");
        if is_mc {
            return Some(p.pid);
        }
        if found.is_none() && is_java {
            found = Some(p.pid);
        }
        k += 1;
    }
    proof {
        if found is None {
            lemma_first_candidate(procs@, k as int);
        }
    }
    found
}

/// The path of the attach socket of the JVM with process id `pid`.
pub open spec fn socket_path_spec(pid: u32) -> Seq<char> {
    "/tmp/.java_pid"@ + digits_of(pid as nat)
}

/// The name of the file that asks the JVM `pid` to start its attach listener.
pub open spec fn trigger_name_spec(pid: u32) -> Seq<char> {
    ".attach_pid"@ + digits_of(pid as nat)
}

/// `prefix` followed by the decimal digits of `n`.
fn with_number(prefix: &str, n: u32) -> (r: String)
    ensures
        r@ == prefix@ + digits_of(n as nat),
{
    let a = chars_of(prefix);
    let d = u64_digits(n as u64);
    let c = concat_chars(a.as_slice(), d.as_slice());
    string_from_chars(c)
}

/// The path of the JVM's attach socket.
pub fn socket_path(pid: u32) -> (r: String)
    ensures
        r@ == socket_path_spec(pid),
{
    with_number("/tmp/.java_pid", pid)
}

/// The name of the attach trigger file.
pub fn trigger_name(pid: u32) -> (r: String)
    ensures
        r@ == trigger_name_spec(pid),
{
    with_number(".attach_pid", pid)
}

/// The bytes of `s` followed by a NUL.
pub open spec fn nul_field(s: Seq<char>) -> Seq<u8> {
    vstd::utf8::encode_utf8(s).push(0u8)
}

/// The attach request that loads the native library `lib` as an agent:
/// `1`, `load`, the path, `true` and an empty field, each closed by a NUL.
pub open spec fn attach_message_spec(lib: Seq<char>) -> Seq<u8> {
    nul_field("1"@) + nul_field("load"@) + nul_field(lib) + nul_field("true"@) + nul_field(""@)
}

/// Appends `s` and a NUL to `out`.
fn push_field(out: &mut Vec<u8>, s: &str)
    ensures
        final(out)@ == old(out)@ + nul_field(s@),
{
    let b = s.as_bytes();
    let mut k: usize = 0;
    let ghost start = out@;
    while k < b.len()
        invariant
            k <= b.len(),
            b@ == vstd::utf8::encode_utf8(s@),
            out@ == start + b@.take(k as int),
        decreases b.len() - k,
    {
        out.push(b[k]);
        assert(out@ =~= start + b@.take(k + 1));
        k += 1;
    }
    assert(b@.take(k as int) =~= b@);
    out.push(0u8);
    assert(out@ =~= start + nul_field(s@));
}

/// The attach request that loads `lib` into the JVM.
pub fn attach_message(lib: &str) -> (r: Vec<u8>)
    ensures
        r@ == attach_message_spec(lib@),
{
    let mut out: Vec<u8> = Vec::new();
    push_field(&mut out, "1");
    push_field(&mut out, "load");
    push_field(&mut out, lib);
    push_field(&mut out, "true");
    push_field(&mut out, "");
    assert(out@ =~= attach_message_spec(lib@));
    out
}

/// The return code in the JVM's answer: its first line, trimmed, as an
/// `i32`; -1 when there is no line or it is not a number.
pub open spec fn return_code_spec(resp: Seq<char>) -> i32 {
    if lines(resp).len() == 0 {
        -1i32
    } else {
        match parse_i32_spec(trim(lines(resp)[0])) {
            Some(v) => v,
            None => -1i32,
        }
    }
}

/// Reads the return code from the JVM's answer to an attach request.
pub fn attach_return_code(resp: &str) -> (r: i32)
    ensures
        r == return_code_spec(resp@),
{
    let ls = lines_of(resp);
    if ls.len() == 0 {
        return -1;
    }
    assert(views(ls@)[0] == ls@[0]@);
    let first = trim_str(ls[0].as_str());
    match parse_i32(first.as_str()) {
        Some(v) => v,
        None => -1,
    }
}

/// The JVM refused to load the agent.
#[derive(Debug, Clone, PartialEq, Eq)]
pub struct AttachFailure {
    /// The return code it gave.
    pub code: i32,
    /// Its whole answer, trimmed.
    pub response: String,
}

/// Whether the JVM's answer reports success: a return code of 0.
pub fn attach_outcome(resp: &str) -> (r: Result<(), AttachFailure>)
    ensures
        r is Ok <==> return_code_spec(resp@) == 0,
        r matches Err(f) ==> f.code == return_code_spec(resp@) && f.response@ == trim(resp@),
{
    let code = attach_return_code(resp);
    if code != 0 {
        Err(AttachFailure { code, response: trim_str(resp) })
    } else {
        Ok(())
    }
}

/// Whether the mapping `f` has a file whose name holds `name`.
pub open spec fn maps_file_with(f: Option<String>, name: Seq<char>) -> bool {
    match f {
        Some(t) => contains_seq(t@, name),
        None => false,
    }
}

/// Whether a mapped file whose name holds `name` is among `filenames`
/// (mappings without a file count for nothing).
pub fn is_lib_mapped(filenames: &Vec<Option<String>>, name: &str) -> (r: bool)
    ensures
        r == exists|i: int| 0 <= i < filenames.len() && maps_file_with(#[trigger] filenames@[i], name@),
{
    let mut k: usize = 0;
    while k < filenames.len()
        invariant
            k <= filenames.len(),
            forall|i: int| 0 <= i < k ==> !maps_file_with(#[trigger] filenames@[i], name@),
        decreases filenames.len() - k,
    {
        match &filenames[k] {
            Some(f) => {
                if contains_str(f.as_str(), name) {
                    assert(maps_file_with(filenames@[k as int], name@));
                    return true;
                }
            },
            None => {},
        }
        k += 1;
    }
    false
}

/// What the injector asks the attach socket for, when the agent still has to
/// be loaded.
#[derive(Debug, Clone, PartialEq, Eq)]
pub struct AttachRequest {
    /// The attach socket of the JVM.
    pub socket_path: String,
    /// The file that makes the JVM open that socket.
    pub trigger_name: String,
    /// The request itself.
    pub message: Vec<u8>,
}

/// The steps of an injection: loading the agent unless it is mapped
/// already, then the command that makes the agent (re)load the client.
#[derive(Debug, Clone, PartialEq, Eq)]
pub struct InjectPlan {
    pub attach: Option<AttachRequest>,
    pub command: String,
}

/// Plans the injection of the client library into process `pid`, given the
/// absolute paths of both libraries and whether the agent is mapped there.
pub fn inject(pid: u32, agent_lib: &str, client_lib: &str, agent_mapped: bool) -> (r: InjectPlan)
    ensures
        r.command@ == "reload "@ + client_lib@,
        r.attach is None <==> agent_mapped,
        r.attach matches Some(a) ==> a.socket_path@ == socket_path_spec(pid) && a.trigger_name@
            == trigger_name_spec(pid) && a.message@ == attach_message_spec(agent_lib@),
{
    let attach = if agent_mapped {
        None
    } else {
        Some(
            AttachRequest {
                socket_path: socket_path(pid),
                trigger_name: trigger_name(pid),
                message: attach_message(agent_lib),
            },
        )
    };
    InjectPlan { attach, command: concat_str("reload ", client_lib) }
}

/// The agent's answer to the reload command: refused when it begins with
/// `ERR`, the refusal carrying the answer trimmed.
pub fn agent_reply(response: &str) -> (r: Result<(), String>)
    ensures
        r is Err <==> starts_with(response@, "ERR"@),
        r matches Err(t) ==> t@ == trim(response@),
{
    if starts_with_str(response, "ERR") {
        Err(trim_str(response))
    } else {
        Ok(())
    }
}

} // verus!
