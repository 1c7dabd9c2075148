//! The file paths the programs compute: where scripts, profiles, libraries
//! and the attach trigger live.
use vstd::prelude::*;
use crate::text::{
    chars_of, concat_chars, concat_str, slice_range, starts_with, string_from_chars, string_of,
    trim_end_char, trim_end_char_exec,
};

verus! {

/// `name` appended to `base` as `PathBuf::join` does: an absolute `name`
/// replaces `base`; else a `/` goes between them unless `base` is empty or
/// ends with one.
pub open spec fn join_spec(base: Seq<char>, name: Seq<char>) -> Seq<char> {
    if starts_with(name, "/"@) {
        name
    } else if base.len() == 0 || base.last() == '/' {
        base + name
    } else {
        base + "/"@ + name
    }
}

/// Joins `name` to `base`.
pub fn join_path(base: &str, name: &str) -> (r: String)
    ensures
        r@ == join_spec(base@, name@),
{
    let n = chars_of(name);
    if n.len() > 0 && n[0] == '/' {
        proof {
            reveal_strlit("/");
        }
        assert(starts_with(name@, "/"@)) by {
            reveal_strlit("/");
            assert(name@.subrange(0, 1) =~= "/"@);
        }
        return string_of(name);
    }
    assert(!starts_with(name@, "/"@)) by {
        reveal_strlit("/");
        if starts_with(name@, "/"@) {
            assert(name@.subrange(0, 1)[0] == name@[0]);
            assert("/"@[0] == '/');
        }
    }
    let b = chars_of(base);
    if b.len() == 0 || b[b.len() - 1] == '/' {
        concat_str(base, name)
    } else {
        let with_sep = concat_str(base, "/");
        assert(b@.last() == base@.last());
        concat_str(with_sep.as_str(), name)
    }
}

/// The last position in `s` before `j` that holds a `/`.
pub open spec fn last_slash(s: Seq<char>, j: int) -> Option<int>
    decreases j,
{
    if j <= 0 {
        None
    } else if s[j - 1] == '/' {
        Some(j - 1)
    } else {
        last_slash(s, j - 1)
    }
}

pub proof fn lemma_last_slash(s: Seq<char>, j: int)
    requires
        0 <= j <= s.len(),
    ensures
        last_slash(s, j) matches Some(k) ==> 0 <= k < j && s[k] == '/',
    decreases j,
{
    if j > 0 && s[j - 1] != '/' {
        lemma_last_slash(s, j - 1);
    }
}

/// The directory that holds `p` (`Path::parent` for paths without repeated
/// slashes or `.` parts): trailing slashes dropped, then everything before
/// the last slash, `/` for a top-level entry, the empty path for a bare
/// name; none for the root or the empty path.
pub open spec fn parent_spec(p: Seq<char>) -> Option<Seq<char>> {
    let t = trim_end_char(p, '/');
    if t.len() == 0 {
        None
    } else {
        match last_slash(t, t.len() as int) {
            Some(k) => if k == 0 {
                Some("/"@)
            } else {
                Some(t.subrange(0, k))
            },
            None => Some(Seq::empty()),
        }
    }
}

/// The directory that holds `p`.
pub fn parent_path(p: &str) -> (r: Option<String>)
    ensures
        match parent_spec(p@) {
            Some(d) => r matches Some(x) && x@ == d,
            None => r is None,
        },
{
    let c = chars_of(p);
    let t = trim_end_char_exec(c.as_slice(), '/');
    if t.len() == 0 {
        return None;
    }
    let mut j: usize = t.len();
    while j > 0 && t[j - 1] != '/'
        invariant
            j <= t.len(),
            last_slash(t@, t@.len() as int) == last_slash(t@, j as int),
        decreases j,
    {
        j -= 1;
    }
    if j == 0 {
        return Some(String::new());
    }
    let k = j - 1;
    if k == 0 {
        Some(string_of("/"))
    } else {
        Some(string_from_chars(slice_range(t.as_slice(), 0, k)))
    }
}

/// The root of the project that a client library at `lib` belongs to: the
/// directory three levels up (`<root>/target/<profile>/<lib>`).
pub open spec fn repo_root_spec(lib: Seq<char>) -> Option<Seq<char>> {
    match parent_spec(lib) {
        Some(a) => match parent_spec(a) {
            Some(b) => parent_spec(b),
            None => None,
        },
        None => None,
    }
}

/// The project root three levels above a client library's path.
pub fn repo_root(lib: &str) -> (r: Option<String>)
    ensures
        match repo_root_spec(lib@) {
            Some(d) => r matches Some(x) && x@ == d,
            None => r is None,
        },
{
    let a = match parent_path(lib) {
        Some(a) => a,
        None => return None,
    };
    let b = match parent_path(a.as_str()) {
        Some(b) => b,
        None => return None,
    };
    parent_path(b.as_str())
}

/// Where the scripts live: the directory named by the scripts variable
/// when set, else `scripts` under the root variable when set, else the
/// built-in fallback.
pub open spec fn scripts_dir_spec(
    scripts_var: Option<Seq<char>>,
    root_var: Option<Seq<char>>,
    fallback: Seq<char>,
) -> Seq<char> {
    match scripts_var {
        Some(s) => s,
        None => match root_var {
            Some(r) => join_spec(r, "scripts"@),
            None => fallback,
        },
    }
}

/// The scripts directory.
pub fn scripts_dir(scripts_var: Option<&str>, root_var: Option<&str>, fallback: &str) -> (r: String)
    ensures
        r@ == scripts_dir_spec(
            match scripts_var {
                Some(s) => Some(s@),
                None => None,
            },
            match root_var {
                Some(s) => Some(s@),
                None => None,
            },
            fallback@,
        ),
{
    match scripts_var {
        Some(s) => string_of(s),
        None => match root_var {
            Some(r) => join_path(r, "scripts"),
            None => string_of(fallback),
        },
    }
}

/// The module search path of the script engine: the engine's own path,
/// then `?.lua` and `?/init.lua` under the scripts directory and under its
/// parent.
pub open spec fn lua_path_spec(old: Seq<char>, scripts: Seq<char>, parent: Seq<char>) -> Seq<char> {
    old + ";"@ + scripts + "/?.lua;"@ + scripts + "/?/init.lua;"@ + parent + "/?.lua;"@ + parent
        + "/?/init.lua"@
}

/// The module search path of the script engine; the parent of the scripts
/// directory stands in for itself when it has none.
pub fn lua_package_path(old: &str, scripts: &str) -> (r: String)
    ensures
        r@ == lua_path_spec(
            old@,
            scripts@,
            match parent_spec(scripts@) {
                Some(p) => p,
                None => scripts@,
            },
        ),
{
    let parent = match parent_path(scripts) {
        Some(p) => p,
        None => string_of(scripts),
    };
    let p = parent.as_str();
    let a = concat_str(old, ";");
    let a = concat_str(a.as_str(), scripts);
    let a = concat_str(a.as_str(), "/?.lua;");
    let a = concat_str(a.as_str(), scripts);
    let a = concat_str(a.as_str(), "/?/init.lua;");
    let a = concat_str(a.as_str(), p);
    let a = concat_str(a.as_str(), "/?.lua;");
    let a = concat_str(a.as_str(), p);
    concat_str(a.as_str(), "/?/init.lua")
}

/// The file of profile `name` in the profiles directory.
pub fn profile_path(profiles_dir: &str, name: &str) -> (r: String)
    ensures
        r@ == join_spec(profiles_dir@, name@ + ".json"@),
{
    let file = concat_str(name, ".json");
    join_path(profiles_dir, file.as_str())
}

/// Why a library that should sit next to the program is missing.
pub open spec fn missing_lib_spec(name: Seq<char>, path: Seq<char>) -> Seq<char> {
    "Library not found: "@ + name + "\n  Expected at: "@ + path
}

/// The message for a library missing next to the program.
pub fn missing_lib_message(name: &str, path: &str) -> (r: String)
    ensures
        r@ == missing_lib_spec(name@, path@),
{
    let a = concat_str("Library not found: ", name);
    let b = concat_str(a.as_str(), "\n  Expected at: ");
    concat_str(b.as_str(), path)
}

/// Where the attach trigger file is written, in order of preference: in
/// the process's working directory (when it is known), else in `/tmp`.
pub fn trigger_candidates(cwd: Option<&str>, trigger: &str) -> (r: Vec<String>)
    ensures
        r@.map_values(|s: String| s@) == match cwd {
            Some(d) => seq![join_spec(d@, trigger@), "/tmp/"@ + trigger@],
            None => seq!["/tmp/"@ + trigger@],
        },
{
    let mut r: Vec<String> = Vec::new();
    if let Some(d) = cwd {
        r.push(join_path(d, trigger));
    }
    r.push(concat_str("/tmp/", trigger));
    assert(r@.map_values(|s: String| s@) =~= match cwd {
        Some(d) => seq![join_spec(d@, trigger@), "/tmp/"@ + trigger@],
        None => seq!["/tmp/"@ + trigger@],
    });
    r
}

} // verus!
