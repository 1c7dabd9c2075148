//! State and decisions of the launcher window: which processes it lists,
//! what it shows of them, and what the inject button does.
use vstd::prelude::*;
use crate::injector::ProcessInfo;
use crate::text::{
    chars_of, concat_chars, concat_str, contains_exec, contains_seq, occurs_at, digits_of, ends_with,
    ends_with_exec, find_from, find_from_exec, is_white_space, is_whitespace, join_strings,
    join_with, lemma_find_from, lemma_views_push, lines, lines_of, lowercase_of, slice_range,
    str_eq, string_from_chars, string_of, to_lowercase, trim, trim_str, u64_digits, views,
};

verus! {

/// How many lines of the client log the window shows.
pub const LOG_TAIL: usize = 200;

/// A game process as the launcher lists it.
#[derive(Debug, Clone, PartialEq, Eq)]
pub struct ProcessEntry {
    pub pid: u32,
    pub label: String,
}

/// Whether `c` ends a command-line piece: white space or `:`.
pub open spec fn is_piece_sep(c: char) -> bool {
    is_white_space(c) || c == ':'
}

/// The first position at or after `i` that does not end a piece.
pub open spec fn skip_seps(s: Seq<char>, i: int) -> int
    decreases s.len() - i,
{
    if 0 <= i < s.len() && is_piece_sep(s[i]) {
        skip_seps(s, i + 1)
    } else {
        i
    }
}

/// The first position at or after `i` that ends a piece, or the end.
pub open spec fn piece_end(s: Seq<char>, i: int) -> int
    decreases s.len() - i,
{
    if 0 <= i < s.len() && !is_piece_sep(s[i]) {
        piece_end(s, i + 1)
    } else {
        i
    }
}

pub proof fn lemma_skip_seps(s: Seq<char>, i: int)
    requires
        0 <= i <= s.len(),
    ensures
        i <= skip_seps(s, i) <= s.len(),
        skip_seps(s, i) < s.len() ==> !is_piece_sep(s[skip_seps(s, i)]),
    decreases s.len() - i,
{
    if i < s.len() && is_piece_sep(s[i]) {
        lemma_skip_seps(s, i + 1);
    }
}

pub proof fn lemma_piece_end(s: Seq<char>, i: int)
    requires
        0 <= i <= s.len(),
    ensures
        i <= piece_end(s, i) <= s.len(),
        i < s.len() && !is_piece_sep(s[i]) ==> i < piece_end(s, i),
    decreases s.len() - i,
{
    if i < s.len() && !is_piece_sep(s[i]) {
        lemma_piece_end(s, i + 1);
    }
}

/// Whether a piece names a client jar: it holds `minecraft-` and ends with
/// `-client.jar`.
pub open spec fn is_client_jar(t: Seq<char>) -> bool {
    contains_seq(t, "minecraft-"@) && ends_with(t, "-client.jar"@)
}

/// The first piece at or after position `i` that names a client jar, the
/// pieces being the white-space separated words of `s` split at `:`.
pub open spec fn client_jar_from(s: Seq<char>, i: int) -> Option<Seq<char>>
    decreases s.len() - i,
{
    if i < 0 || i > s.len() {
        None
    } else {
        let a = skip_seps(s, i);
        proof {
            lemma_skip_seps(s, i);
            lemma_piece_end(s, a);
        }
        if a >= s.len() {
            None
        } else {
            let b = piece_end(s, a);
            if is_client_jar(s.subrange(a, b)) {
                Some(s.subrange(a, b))
            } else {
                client_jar_from(s, b)
            }
        }
    }
}

/// The version that a client jar's name gives: the text between its first
/// `minecraft-` and the next one (or the end), when that text ends with
/// `-client.jar`, without that ending.
pub open spec fn jar_version(t: Seq<char>) -> Option<Seq<char>> {
    match find_from(t, "minecraft-"@, 0) {
        Some(k) => {
            let from = k + 10;
            let piece = match find_from(t, "minecraft-"@, from) {
                Some(m) => t.subrange(from, m),
                None => t.subrange(from, t.len() as int),
            };
            if ends_with(piece, "-client.jar"@) {
                Some(piece.subrange(0, piece.len() - 11))
            } else {
                None
            }
        },
        None => None,
    }
}

/// The game version that a command line names, or `?`.
pub open spec fn version_of(cmd: Seq<char>) -> Seq<char> {
    match client_jar_from(cmd, 0) {
        Some(t) => match jar_version(t) {
            Some(v) => v,
            None => "?"@,
        },
        None => "?"@,
    }
}

/// A word of a command line that no white space or `:` splits.
pub open spec fn unsplit(w: Seq<char>) -> bool {
    forall|i: int| 0 <= i < w.len() ==> !is_white_space(#[trigger] w[i]) && w[i] != ':'
}

/// A character that splits a classpath argument or a command line: `:`
/// or white space.
pub open spec fn splits(c: char) -> bool {
    c == ':' || is_white_space(c)
}

proof fn lemma_piece_end_at(s: Seq<char>, i: int, n: int)
    requires
        0 <= i <= n <= s.len(),
        forall|m: int| i <= m < n ==> !is_piece_sep(s[m]),
        n == s.len() || is_piece_sep(s[n]),
    ensures
        piece_end(s, i) == n,
    decreases n - i,
{
    if i < n {
        lemma_piece_end_at(s, i + 1, n);
    }
}

proof fn lemma_skip_seps_shift(p: Seq<char>, t: Seq<char>, i: int)
    requires
        0 <= i <= t.len(),
    ensures
        skip_seps(p + t, p.len() + i) == p.len() + skip_seps(t, i),
    decreases t.len() - i,
{
    if i < t.len() {
        assert((p + t)[p.len() + i] == t[i]);
        lemma_skip_seps_shift(p, t, i + 1);
    }
}

proof fn lemma_piece_end_shift(p: Seq<char>, t: Seq<char>, i: int)
    requires
        0 <= i <= t.len(),
    ensures
        piece_end(p + t, p.len() + i) == p.len() + piece_end(t, i),
    decreases t.len() - i,
{
    if i < t.len() {
        assert((p + t)[p.len() + i] == t[i]);
        lemma_piece_end_shift(p, t, i + 1);
    }
}

proof fn lemma_client_jar_shift(p: Seq<char>, t: Seq<char>, i: int)
    requires
        0 <= i <= t.len(),
    ensures
        client_jar_from(p + t, p.len() + i) == client_jar_from(t, i),
    decreases t.len() - i,
{
    let s = p + t;
    let n = p.len() as int;
    lemma_skip_seps_shift(p, t, i);
    lemma_skip_seps(t, i);
    let a = skip_seps(t, i);
    if a < t.len() {
        lemma_piece_end_shift(p, t, a);
        lemma_piece_end(t, a);
        let b = piece_end(t, a);
        assert(s.subrange(n + a, n + b) =~= t.subrange(a, b));
        if !is_client_jar(t.subrange(a, b)) {
            lemma_client_jar_shift(p, t, b);
        }
    }
}

/// A client jar that a command line starts with, followed by `:` or white
/// space, gives its version whatever follows: the entries of a classpath
/// are searched one by one.
pub proof fn lemma_client_jar_first(jar: Seq<char>, c: char, rest: Seq<char>)
    requires
        jar.len() > 0,
        unsplit(jar),
        splits(c),
        is_client_jar(jar),
    ensures
        version_of(jar + seq![c] + rest) == version_of(jar),
        version_of(jar) == match jar_version(jar) {
            Some(v) => v,
            None => "?"@,
        },
{
    let s = jar + seq![c] + rest;
    let n = jar.len() as int;
    assert(s[n] == c);
    assert forall|m: int| 0 <= m < n implies !is_piece_sep(s[m]) by {
        assert(s[m] == jar[m]);
    }
    lemma_piece_end_at(s, 0, n);
    assert(s.subrange(0, n) =~= jar);
    lemma_piece_end_at(jar, 0, n);
    assert(jar.subrange(0, n) =~= jar);
    assert(client_jar_from(s, 0) == Some(jar));
    assert(client_jar_from(jar, 0) == Some(jar));
}

/// A word before the rest of a command line that names no client jar,
/// split off by `:` or white space, does not change the version the rest
/// gives: `java -cp a.jar:<client jar>` gives the client jar's version.
pub proof fn lemma_other_word_skipped(word: Seq<char>, c: char, rest: Seq<char>)
    requires
        word.len() > 0,
        unsplit(word),
        splits(c),
        !is_client_jar(word),
    ensures
        version_of(word + seq![c] + rest) == version_of(rest),
{
    let p = word + seq![c];
    let s = p + rest;
    let n = word.len() as int;
    assert(s =~= word + seq![c] + rest);
    assert(s[n] == c);
    assert forall|m: int| 0 <= m < n implies !is_piece_sep(s[m]) by {
        assert(s[m] == word[m]);
    }
    lemma_piece_end_at(s, 0, n);
    assert(s.subrange(0, n) =~= word);
    assert(client_jar_from(s, 0) == client_jar_from(s, n));
    assert(skip_seps(s, n) == skip_seps(s, n + 1));
    lemma_skip_seps(s, n + 1);
    assert(client_jar_from(s, n) == client_jar_from(s, n + 1));
    lemma_client_jar_shift(p, rest, 0);
}

/// A client jar `<dir>minecraft-<v>-client.jar` names version `<v>`, when
/// `minecraft-` stands nowhere else in it.
pub proof fn lemma_jar_version_names_version(dir: Seq<char>, v: Seq<char>)
    requires
        forall|k: int|
            0 <= k < dir.len() + 10 + v.len() + 11 && k != dir.len() ==> !occurs_at(
                dir + "minecraft-"@ + v + "-client.jar"@,
                "minecraft-"@,
                k,
            ),
    ensures
        jar_version(dir + "minecraft-"@ + v + "-client.jar"@) == Some(v),
{
    reveal_strlit("minecraft-");
    reveal_strlit("-client.jar");
    let t = dir + "minecraft-"@ + v + "-client.jar"@;
    let pat = "minecraft-"@;
    let n = dir.len() as int;
    assert(t.subrange(n, n + 10) =~= pat);
    assert(occurs_at(t, pat, n));
    lemma_find_from(t, pat, 0);
    match find_from(t, pat, 0) {
        Some(k) => {
            if k < n {
                assert(!occurs_at(t, pat, k));
            } else if k > n {
                assert(!occurs_at(t, pat, n));
            }
        },
        None => {
            assert(!occurs_at(t, pat, n));
        },
    }
    lemma_find_from(t, pat, n + 10);
    match find_from(t, pat, n + 10) {
        Some(m) => {
            assert(occurs_at(t, pat, m));
            assert(m < t.len());
        },
        None => {},
    }
    let piece = t.subrange(n + 10, t.len() as int);
    assert(piece =~= v + "-client.jar"@);
    assert(piece.subrange(piece.len() - 11, piece.len() as int) =~= "-client.jar"@);
    assert(piece.subrange(0, piece.len() - 11) =~= v);
}

/// The version of the game in a client jar's name.
fn jar_version_exec(t: &[char]) -> (r: Option<Vec<char>>)
    ensures
        match jar_version(t@) {
            Some(v) => r matches Some(x) && x@ == v,
            None => r is None,
        },
{
    let pat = chars_of("minecraft-");
    let suffix = chars_of("-client.jar");
    proof {
        reveal_strlit("minecraft-");
        reveal_strlit("-client.jar");
        lemma_find_from(t@, pat@, 0);
    }
    match find_from_exec(t, pat.as_slice(), 0) {
        Some(k) => {
            assert(pat@.len() == 10);
            assert(occurs_at(t@, pat@, k as int));
            assert(k + 10 <= t.len());
            assert(pat@.len() == 10);
            assert(occurs_at(t@, pat@, k as int));
            assert(k + 10 <= t.len());
            let from = k + 10;
            proof {
                lemma_find_from(t@, pat@, from as int);
            }
            let piece = match find_from_exec(t, pat.as_slice(), from) {
                Some(m) => slice_range(t, from, m),
                None => slice_range(t, from, t.len()),
            };
            if ends_with_exec(piece.as_slice(), suffix.as_slice()) {
                Some(slice_range(piece.as_slice(), 0, piece.len() - 11))
            } else {
                None
            }
        },
        None => None,
    }
}

/// The game version that a command line names, or `?`.
pub fn version_in(cmd: &[char]) -> (r: Vec<char>)
    ensures
        r@ == version_of(cmd@),
{
    let pat = chars_of("minecraft-");
    let suffix = chars_of("-client.jar");
    let mut i: usize = 0;
    while i < cmd.len()
        invariant
            i <= cmd.len(),
            pat@ == "minecraft-"@,
            suffix@ == "-client.jar"@,
            client_jar_from(cmd@, 0) == client_jar_from(cmd@, i as int),
        decreases cmd.len() - i,
    {
        let mut a: usize = i;
        while a < cmd.len() && (is_whitespace(cmd[a]) || cmd[a] == ':')
            invariant
                i <= a <= cmd.len(),
                skip_seps(cmd@, i as int) == skip_seps(cmd@, a as int),
            decreases cmd.len() - a,
        {
            a += 1;
        }
        if a >= cmd.len() {
            assert(client_jar_from(cmd@, i as int) is None);
            return chars_of("?");
        }
        let mut b: usize = a;
        while b < cmd.len() && !(is_whitespace(cmd[b]) || cmd[b] == ':')
            invariant
                a <= b <= cmd.len(),
                piece_end(cmd@, a as int) == piece_end(cmd@, b as int),
            decreases cmd.len() - b,
        {
            b += 1;
        }
        proof {
            lemma_skip_seps(cmd@, i as int);
            lemma_piece_end(cmd@, a as int);
        }
        let piece = slice_range(cmd, a, b);
        if contains_exec(piece.as_slice(), pat.as_slice()) && ends_with_exec(
            piece.as_slice(),
            suffix.as_slice(),
        ) {
            assert(client_jar_from(cmd@, i as int) == Some(piece@));
            return match jar_version_exec(piece.as_slice()) {
                Some(v) => v,
                None => chars_of("?"),
            };
        }
        assert(client_jar_from(cmd@, i as int) == client_jar_from(cmd@, b as int));
        i = b;
    }
    assert(client_jar_from(cmd@, i as int) is None);
    chars_of("?")
}

/// `s` preceded by spaces up to `width` characters (`{:width}` on a number).
pub open spec fn pad_left(s: Seq<char>, width: nat) -> Seq<char> {
    if s.len() < width {
        Seq::new((width - s.len()) as nat, |_i: int| ' ') + s
    } else {
        s
    }
}

/// The label of a game process in the list.
pub open spec fn entry_label(pid: u32, version: Seq<char>) -> Seq<char> {
    pad_left(digits_of(pid as nat), 6) + "  Minecraft "@ + version + "  (java)"@
}

/// The command line of `p`, its arguments joined by spaces.
pub open spec fn joined_cmd(p: ProcessInfo) -> Seq<char> {
    join_with(views(p.cmd@), " "@)
}

/// Whether `p` is a game process: its name, lower-cased, is `java` and its
/// lower-cased command line holds `com/mojang/minecraft`.
pub open spec fn is_game_process(p: ProcessInfo) -> bool {
    lowercase_of(p.name@) == "java"@ && contains_seq(
        lowercase_of(joined_cmd(p)),
        "com/mojang/minecraft"@,
    )
}

/// The list entry of a game process.
pub open spec fn entry_of(p: ProcessInfo) -> (u32, Seq<char>) {
    (p.pid, entry_label(p.pid, version_of(joined_cmd(p))))
}

/// The list entry of `p`, when it is a game process.
pub fn process_entry(p: &ProcessInfo) -> (r: Option<ProcessEntry>)
    ensures
        r is Some <==> is_game_process(*p),
        r matches Some(e) ==> (e.pid, e.label@) == entry_of(*p),
{
    let name = to_lowercase(p.name.as_str());
    let cmd = join_strings(&p.cmd, " ");
    let cmd_lower = to_lowercase(cmd.as_str());
    if !str_eq(name.as_str(), "java") {
        return None;
    }
    let lc = chars_of(cmd_lower.as_str());
    let key = chars_of("com/mojang/minecraft");
    if !contains_exec(lc.as_slice(), key.as_slice()) {
        return None;
    }
    let cc = chars_of(cmd.as_str());
    let version = version_in(cc.as_slice());
    let digits = u64_digits(p.pid as u64);
    let mut label: Vec<char> = Vec::new();
    let mut k: usize = digits.len();
    while k < 6
        invariant
            digits.len() <= k,
            k <= 6 || k == digits.len(),
            label@ == Seq::new((k - digits.len()) as nat, |_i: int| ' '),
        decreases 6 - k,
    {
        label.push(' ');
        assert(label@ =~= Seq::new((k + 1 - digits.len()) as nat, |_i: int| ' '));
        k += 1;
    }
    assert(label@ + digits@ =~= pad_left(digits_of(p.pid as nat), 6));
    let label = concat_chars(label.as_slice(), digits.as_slice());
    let mid = chars_of("  Minecraft ");
    let tail = chars_of("  (java)");
    let label = concat_chars(label.as_slice(), mid.as_slice());
    let label = concat_chars(label.as_slice(), version.as_slice());
    let label = concat_chars(label.as_slice(), tail.as_slice());
    Some(ProcessEntry { pid: p.pid, label: string_from_chars(label) })
}

/// What an entry shows: its process id and label.
pub open spec fn entry_views(s: Seq<ProcessEntry>) -> Seq<(u32, Seq<char>)> {
    s.map_values(|e: ProcessEntry| (e.pid, e.label@))
}

/// Where an entry with process id `pid` goes in `s` so that it follows
/// every entry whose id is not greater: the first position, from `j` on,
/// with a greater id.
pub open spec fn pid_insert_pos(s: Seq<(u32, Seq<char>)>, pid: u32, j: int) -> int
    decreases s.len() - j,
{
    if j < 0 || j >= s.len() || pid < s[j].0 {
        j
    } else {
        pid_insert_pos(s, pid, j + 1)
    }
}

pub proof fn lemma_pid_insert_pos(s: Seq<(u32, Seq<char>)>, pid: u32, j: int)
    requires
        0 <= j <= s.len(),
    ensures
        j <= pid_insert_pos(s, pid, j) <= s.len(),
        forall|k: int| j <= k < pid_insert_pos(s, pid, j) ==> #[trigger] s[k].0 <= pid,
        pid_insert_pos(s, pid, j) < s.len() ==> pid < s[pid_insert_pos(s, pid, j)].0,
    decreases s.len() - j,
{
    if j < s.len() && !(pid < s[j].0) {
        lemma_pid_insert_pos(s, pid, j + 1);
    }
}

/// The entries in ascending order of process id, entries of equal id in
/// their original order (a stable sort by id).
pub open spec fn sort_by_pid(s: Seq<(u32, Seq<char>)>) -> Seq<(u32, Seq<char>)>
    decreases s.len(),
{
    if s.len() == 0 {
        s
    } else {
        let r = sort_by_pid(s.drop_last());
        r.insert(pid_insert_pos(r, s.last().0, 0), s.last())
    }
}

/// Entries in ascending order of process id.
pub open spec fn ordered_by_pid(s: Seq<(u32, Seq<char>)>) -> bool {
    forall|i: int, j: int| #![trigger s[i], s[j]] 0 <= i < j < s.len() ==> s[i].0 <= s[j].0
}

/// Sorting by id orders the entries and keeps every one of them.
pub proof fn lemma_sort_by_pid(s: Seq<(u32, Seq<char>)>)
    ensures
        ordered_by_pid(sort_by_pid(s)),
        sort_by_pid(s).to_multiset() == s.to_multiset(),
    decreases s.len(),
{
    if s.len() > 0 {
        let r = sort_by_pid(s.drop_last());
        lemma_sort_by_pid(s.drop_last());
        let x = s.last();
        lemma_pid_insert_pos(r, x.0, 0);
        let p = pid_insert_pos(r, x.0, 0);
        let out = r.insert(p, x);
        assert forall|i: int, j: int| 0 <= i < j < out.len() implies #[trigger] out[i].0
            <= #[trigger] out[j].0 by {
            if i < p && j == p {
                assert(out[i] == r[i]);
            } else if i == p && j > p {
                assert(out[j] == r[j - 1]);
                assert(r[p].0 <= r[j - 1].0);
            } else if i < p && j > p {
                assert(out[i] == r[i]);
                assert(out[j] == r[j - 1]);
            } else if j < p {
                assert(out[i] == r[i]);
                assert(out[j] == r[j]);
            } else {
                assert(out[i] == r[i - 1]);
                assert(out[j] == r[j - 1]);
            }
        }
        vstd::seq_lib::to_multiset_insert(r, p, x);
        assert(s =~= s.drop_last().push(x));
        vstd::seq_lib::to_multiset_build(s.drop_last(), x);
    }
}

/// The entries, in order, of the game processes among `ps`.
pub open spec fn game_entries(ps: Seq<ProcessInfo>) -> Seq<(u32, Seq<char>)>
    decreases ps.len(),
{
    if ps.len() == 0 {
        Seq::empty()
    } else {
        let r = game_entries(ps.drop_last());
        if is_game_process(ps.last()) {
            r.push(entry_of(ps.last()))
        } else {
            r
        }
    }
}

/// What the inject button asks the window's shell to run.
#[derive(Debug, Clone, PartialEq, Eq)]
pub struct InjectorCall {
    /// The injector's path, trimmed.
    pub injector: String,
    /// The process to inject into.
    pub pid: u32,
}

/// How a run of the injector ended.
#[derive(Debug, Clone, PartialEq, Eq)]
pub enum InjectorRun {
    /// It ran: its output, whether it exited successfully, and its exit
    /// status as text.
    Finished { stdout: String, stderr: String, success: bool, status: String },
    /// It could not be started.
    SpawnFailed(String),
}

/// The state of the launcher window.
pub struct LauncherApp {
    pub processes: Vec<ProcessEntry>,
    pub selected_pid: Option<u32>,
    pub injector_path: String,
    pub agent_path: String,
    pub client_path: String,
    pub status: String,
    pub status_ok: bool,
    pub log_lines: Vec<String>,
}

impl LauncherApp {
    /// A window with no process listed, the given paths and status `Ready.`.
    pub fn new(injector_path: String, agent_path: String, client_path: String) -> (r: Self)
        ensures
            r.processes@.len() == 0,
            r.selected_pid is None,
            r.injector_path == injector_path,
            r.agent_path == agent_path,
            r.client_path == client_path,
            r.status@ == "Ready."@,
            r.status_ok,
            r.log_lines@.len() == 0,
    {
        LauncherApp {
            processes: Vec::new(),
            selected_pid: None,
            injector_path,
            agent_path,
            client_path,
            status: string_of("Ready."),
            status_ok: true,
            log_lines: Vec::new(),
        }
    }

    /// Sets the status line.
    pub fn set_status(&mut self, msg: &str, ok: bool)
        ensures
            final(self).status@ == msg@,
            final(self).status_ok == ok,
            final(self).processes == old(self).processes,
            final(self).selected_pid == old(self).selected_pid,
            final(self).injector_path == old(self).injector_path,
            final(self).agent_path == old(self).agent_path,
            final(self).client_path == old(self).client_path,
            final(self).log_lines == old(self).log_lines,
    {
        self.status = string_of(msg);
        self.status_ok = ok;
    }

    /// Lists the game processes among `procs`, sorted by process id, and
    /// selects the first listed one when none was selected.
    pub fn refresh_processes(&mut self, procs: &Vec<ProcessInfo>)
        ensures
            entry_views(final(self).processes@) == sort_by_pid(game_entries(procs@)),
            final(self).selected_pid == match old(self).selected_pid {
                Some(p) => Some(p),
                None => if final(self).processes@.len() > 0 {
                    Some(final(self).processes@[0].pid)
                } else {
                    None
                },
            },
            final(self).status == old(self).status,
            final(self).status_ok == old(self).status_ok,
            final(self).injector_path == old(self).injector_path,
            final(self).agent_path == old(self).agent_path,
            final(self).client_path == old(self).client_path,
            final(self).log_lines == old(self).log_lines,
    {
        let mut out: Vec<ProcessEntry> = Vec::new();
        let mut k: usize = 0;
        assert(procs@.take(0) =~= Seq::<ProcessInfo>::empty());
        while k < procs.len()
            invariant
                k <= procs.len(),
                entry_views(out@) == sort_by_pid(game_entries(procs@.take(k as int))),
            decreases procs.len() - k,
        {
            assert(procs@.take(k + 1).drop_last() =~= procs@.take(k as int));
            assert(procs@.take(k + 1).last() == procs@[k as int]);
            let ghost cur = entry_views(out@);
            let ghost gk = game_entries(procs@.take(k as int));
            if let Some(e) = process_entry(&procs[k]) {
                let mut j: usize = 0;
                while j < out.len() && !(e.pid < out[j].pid)
                    invariant
                        j <= out@.len(),
                        cur == entry_views(out@),
                        pid_insert_pos(cur, e.pid, 0) == pid_insert_pos(cur, e.pid, j as int),
                    decreases out@.len() - j,
                {
                    j += 1;
                }
                let ghost ev = (e.pid, e.label@);
                out.insert(j, e);
                assert(entry_views(out@) =~= cur.insert(j as int, ev));
                assert(game_entries(procs@.take(k + 1)) == gk.push(ev));
                assert(gk.push(ev).drop_last() =~= gk);
            } else {
                assert(game_entries(procs@.take(k + 1)) == gk);
            }
            k += 1;
        }
        assert(procs@.take(k as int) =~= procs@);
        self.processes = out;
        if self.selected_pid.is_none() && self.processes.len() > 0 {
            self.selected_pid = Some(self.processes[0].pid);
        }
    }

    /// What the inject button does, given whether a file exists at the
    /// trimmed injector path: with no process selected, or no injector
    /// there, it reports so on the status line and runs nothing; else it
    /// reports the injection and says what to run.
    pub fn inject(&mut self, injector_exists: bool) -> (r: Option<InjectorCall>)
        ensures
            *final(self) == (LauncherApp {
                status: final(self).status,
                status_ok: final(self).status_ok,
                ..*old(self)
            }),
            match old(self).selected_pid {
                None => r is None && final(self).status@ == "No process selected."@
                    && !final(self).status_ok,
                Some(pid) => {
                    let path = trim(old(self).injector_path@);
                    if path.len() == 0 || !injector_exists {
                        r is None && final(self).status@ == "Injector not found: "@ + path
                            && !final(self).status_ok
                    } else {
                        r matches Some(c) && c.injector@ == path && c.pid == pid
                            && final(self).status@ == "Injecting into PID "@ + digits_of(
                            pid as nat,
                        ) + "..."@ && final(self).status_ok
                    }
                },
            },
            final(self).processes == old(self).processes,
            final(self).selected_pid == old(self).selected_pid,
            final(self).injector_path == old(self).injector_path,
            final(self).log_lines == old(self).log_lines,
    {
        let pid = match self.selected_pid {
            Some(p) => p,
            None => {
                self.set_status("No process selected.", false);
                return None;
            },
        };
        let injector = trim_str(self.injector_path.as_str());
        if injector.as_str().is_empty() || !injector_exists {
            let msg = concat_str("Injector not found: ", injector.as_str());
            self.set_status(msg.as_str(), false);
            return None;
        }
        let digits = u64_digits(pid as u64);
        let head = chars_of("Injecting into PID ");
        let dots = chars_of("...");
        let m = concat_chars(head.as_slice(), digits.as_slice());
        let m = concat_chars(m.as_slice(), dots.as_slice());
        let msg = string_from_chars(m);
        self.set_status(msg.as_str(), true);
        Some(InjectorCall { injector, pid })
    }

    /// Adds what a run of the injector printed to the log: its standard
    /// output's lines, then its error output's, then a closing line.
    pub fn record_injector_run(&mut self, run: &InjectorRun)
        ensures
            *final(self) == (LauncherApp {
                log_lines: final(self).log_lines,
                ..*old(self)
            }),
            views(final(self).log_lines@) == views(old(self).log_lines@) + match run {
                InjectorRun::Finished { stdout, stderr, success, status } => lines(stdout@)
                    + lines(stderr@) + seq![
                    if *success {
                        "[injector] OK"@
                    } else {
                        "[injector] exited with status "@ + status@
                    },
                ],
                InjectorRun::SpawnFailed(e) => seq!["[injector] spawn error: "@ + e@],
            },
            final(self).processes == old(self).processes,
            final(self).selected_pid == old(self).selected_pid,
            final(self).status == old(self).status,
            final(self).status_ok == old(self).status_ok,
    {
        let ghost before = views(self.log_lines@);
        match run {
            InjectorRun::Finished { stdout, stderr, success, status } => {
                let a = lines_of(stdout.as_str());
                let b = lines_of(stderr.as_str());
                self.append_lines(&a);
                self.append_lines(&b);
                let last = if *success {
                    string_of("[injector] OK")
                } else {
                    concat_str("[injector] exited with status ", status.as_str())
                };
                proof {
                    lemma_views_push(self.log_lines@, last);
                }
                self.log_lines.push(last);
            },
            InjectorRun::SpawnFailed(e) => {
                let last = concat_str("[injector] spawn error: ", e.as_str());
                proof {
                    lemma_views_push(self.log_lines@, last);
                }
                self.log_lines.push(last);
            },
        }
    }

    /// Appends lines to the log.
    fn append_lines(&mut self, more: &Vec<String>)
        ensures
            *final(self) == (LauncherApp {
                log_lines: final(self).log_lines,
                ..*old(self)
            }),
            views(final(self).log_lines@) == views(old(self).log_lines@) + views(more@),
            final(self).processes == old(self).processes,
            final(self).selected_pid == old(self).selected_pid,
            final(self).status == old(self).status,
            final(self).status_ok == old(self).status_ok,
    {
        let ghost before = views(self.log_lines@);
        let mut k: usize = 0;
        while k < more.len()
            invariant
                k <= more.len(),
                views(self.log_lines@) == before + views(more@.take(k as int)),
                *self == (LauncherApp { log_lines: self.log_lines, ..*old(self) }),
                self.processes == old(self).processes,
                self.selected_pid == old(self).selected_pid,
                self.status == old(self).status,
                self.status_ok == old(self).status_ok,
            decreases more.len() - k,
        {
            let line = more[k].clone();
            proof {
                lemma_views_push(self.log_lines@, line);
            }
            self.log_lines.push(line);
            assert(views(more@.take(k + 1)) =~= views(more@.take(k as int)).push(more@[k as int]@));
            k += 1;
        }
        assert(more@.take(k as int) =~= more@);
    }

    /// Replaces the log with the lines of the client's log file, when it
    /// could be read.
    pub fn refresh_client_log(&mut self, content: Option<&str>)
        ensures
            *final(self) == (LauncherApp {
                log_lines: final(self).log_lines,
                ..*old(self)
            }),
            match content {
                Some(c) => views(final(self).log_lines@) == lines(c@),
                None => final(self).log_lines == old(self).log_lines,
            },
            final(self).processes == old(self).processes,
            final(self).selected_pid == old(self).selected_pid,
            final(self).status == old(self).status,
            final(self).status_ok == old(self).status_ok,
    {
        if let Some(c) = content {
            self.log_lines = lines_of(c);
        }
    }

    /// The first log line the window shows: it shows the last `LOG_TAIL`.
    pub fn log_start(&self) -> (r: usize)
        ensures
            r == if self.log_lines.len() > LOG_TAIL {
                self.log_lines.len() - LOG_TAIL
            } else {
                0
            },
    {
        self.log_lines.len().saturating_sub(LOG_TAIL)
    }

    /// Selects a process of the list.
    pub fn select(&mut self, pid: u32)
        ensures
            *final(self) == (LauncherApp {
                selected_pid: final(self).selected_pid,
                ..*old(self)
            }),
            final(self).selected_pid == Some(pid),
            final(self).processes == old(self).processes,
            final(self).status == old(self).status,
            final(self).status_ok == old(self).status_ok,
            final(self).log_lines == old(self).log_lines,
    {
        self.selected_pid = Some(pid);
    }
}

} // verus!
