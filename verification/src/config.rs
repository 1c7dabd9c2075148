//! Configuration profiles: which one is active, which exist, and the file
//! that holds each.
use vstd::prelude::*;
use crate::text::{
    chars_of, concat_str, lemma_seq_lt_asymmetric, lemma_seq_lt_irreflexive, lemma_seq_lt_total,
    lemma_seq_lt_transitive, seq_lt, slice_range, str_eq, string_from_chars, string_lt, string_of,
    trim, trim_str, views,
};

verus! {

/// The profile used when none is named.
pub open spec fn default_profile() -> Seq<char> {
    "default"@
}

/// The active profile, given what the profile marker file holds (if it
/// could be read): its text trimmed, or `default` when that is empty or
/// the file is missing.
pub open spec fn active_profile_spec(contents: Option<Seq<char>>) -> Seq<char> {
    match contents {
        Some(s) => if trim(s).len() == 0 {
            default_profile()
        } else {
            trim(s)
        },
        None => default_profile(),
    }
}

/// The active profile's name, from the marker file's contents.
pub fn get_active_profile_name(contents: Option<&str>) -> (r: String)
    ensures
        r@ == active_profile_spec(
            match contents {
                Some(s) => Some(s@),
                None => None,
            },
        ),
{
    match contents {
        Some(s) => {
            let t = trim_str(s);
            if t.as_str().is_empty() {
                string_of("default")
            } else {
                t
            }
        },
        None => string_of("default"),
    }
}

/// The file that holds profile `name`.
pub fn config_file_name(name: &str) -> (r: String)
    ensures
        r@ == name@ + ".json"@,
{
    concat_str(name, ".json")
}

/// The last position in `s` before `j` that holds a `.`.
pub open spec fn last_dot_before(s: Seq<char>, j: int) -> Option<int>
    decreases j,
{
    if j <= 0 {
        None
    } else if s[j - 1] == '.' {
        Some(j - 1)
    } else {
        last_dot_before(s, j - 1)
    }
}

/// The profile a file of the profiles directory holds: its name without
/// the extension, when the extension is `json` (a name that begins with
/// its only dot has no extension).
pub open spec fn json_stem(name: Seq<char>) -> Option<Seq<char>> {
    match last_dot_before(name, name.len() as int) {
        Some(k) => if k > 0 && name.subrange(k + 1, name.len() as int) == "json"@ {
            Some(name.subrange(0, k))
        } else {
            None
        },
        None => None,
    }
}

/// The profile that file `name` holds, if it is a profile file.
pub fn profile_of_file(name: &str) -> (r: Option<String>)
    ensures
        match json_stem(name@) {
            Some(s) => r matches Some(t) && t@ == s,
            None => r is None,
        },
{
    let c = chars_of(name);
    let mut j: usize = c.len();
    while j > 0 && c[j - 1] != '.'
        invariant
            j <= c.len(),
            c@ == name@,
            last_dot_before(c@, c@.len() as int) == last_dot_before(c@, j as int),
        decreases j,
    {
        j -= 1;
    }
    if j == 0 {
        return None;
    }
    let k = j - 1;
    let ext = slice_range(c.as_slice(), k + 1, c.len());
    let e = string_from_chars(ext);
    if k > 0 && str_eq(e.as_str(), "json") {
        Some(string_from_chars(slice_range(c.as_slice(), 0, k)))
    } else {
        None
    }
}

/// Names in strictly ascending order (hence without repeats).
pub open spec fn strictly_sorted(s: Seq<Seq<char>>) -> bool {
    forall|i: int, j: int| #![trigger s[i], s[j]] 0 <= i < j < s.len() ==> seq_lt(s[i], s[j])
}

/// The profiles that a directory listing shows: the profile of every file
/// entry (`(name, is_file)`) that is a profile file, and `default`.
pub open spec fn profile_names(entries: Seq<(String, bool)>) -> Set<Seq<char>> {
    Set::new(
        |p: Seq<char>|
            p == default_profile() || exists|i: int|
                0 <= i < entries.len() && (#[trigger] entries[i]).1 && json_stem(entries[i].0@)
                    == Some(p),
    )
}

/// Puts `x` into the strictly sorted `out`, unless it is there already.
fn insert_sorted(out: &mut Vec<String>, x: String)
    requires
        strictly_sorted(views(old(out)@)),
    ensures
        strictly_sorted(views(final(out)@)),
        views(final(out)@).to_set() == views(old(out)@).to_set().insert(x@),
{
    let ghost s0 = views(out@);
    let mut j: usize = 0;
    while j < out.len() && string_lt(&out[j], &x)
        invariant
            j <= out.len(),
            out@ == old(out)@,
            s0 == views(out@),
            forall|i: int| 0 <= i < j ==> seq_lt(#[trigger] s0[i], x@),
        decreases out.len() - j,
    {
        assert(s0[j as int] == out@[j as int]@);
        j += 1;
    }
    if j < out.len() {
        assert(s0[j as int] == out@[j as int]@);
        if str_eq(out[j].as_str(), x.as_str()) {
            assert(s0.to_set() =~= s0.to_set().insert(x@)) by {
                assert(s0.contains(x@));
            }
            return;
        }
        proof {
            lemma_seq_lt_total(s0[j as int], x@);
        }
    }
    let ghost xv = x@;
    out.insert(j, x);
    proof {
        let s1 = views(out@);
        assert(s1 =~= s0.insert(j as int, xv));
        assert forall|a: int, b: int| 0 <= a < b < s1.len() implies seq_lt(
            #[trigger] s1[a],
            #[trigger] s1[b],
        ) by {
            if b < j {
                assert(s1[a] == s0[a] && s1[b] == s0[b]);
            } else if a < j && b == j {
                assert(s1[a] == s0[a]);
            } else if a < j && b > j {
                assert(s1[a] == s0[a] && s1[b] == s0[b - 1]);
            } else if a == j {
                assert(s1[b] == s0[b - 1]);
                if b - 1 > j {
                    assert(seq_lt(s0[j as int], s0[b - 1]));
                    lemma_seq_lt_transitive(xv, s0[j as int], s0[b - 1]);
                }
            } else {
                assert(s1[a] == s0[a - 1] && s1[b] == s0[b - 1]);
            }
        }
        assert(s1.to_set() =~= s0.to_set().insert(xv)) by {
            assert forall|p: Seq<char>| s1.to_set().contains(p) <==> s0.to_set().insert(
                xv,
            ).contains(p) by {
                if s1.contains(p) {
                    let i = choose|i: int| 0 <= i < s1.len() && s1[i] == p;
                    if i < j {
                        assert(s0[i] == p);
                    } else if i > j {
                        assert(s0[i - 1] == p);
                    }
                }
                if s0.contains(p) {
                    let i = choose|i: int| 0 <= i < s0.len() && s0[i] == p;
                    if i < j {
                        assert(s1[i] == p);
                    } else {
                        assert(s1[i + 1] == p);
                    }
                }
                if p == xv {
                    assert(s1[j as int] == xv);
                }
            }
        }
    }
}

/// The profiles a directory listing shows, in ascending order without
/// repeats, `default` among them: the list is strictly sorted and holds
/// exactly `profile_names`.
pub fn get_profiles(entries: &Vec<(String, bool)>) -> (r: Vec<String>)
    ensures
        strictly_sorted(views(r@)),
        views(r@).to_set() == profile_names(entries@),
{
    let mut out: Vec<String> = Vec::new();
    let ghost mut seen: Set<Seq<char>> = Set::empty();
    let mut k: usize = 0;
    assert(views(out@).to_set() =~= Set::<Seq<char>>::empty());
    while k < entries.len()
        invariant
            k <= entries.len(),
            strictly_sorted(views(out@)),
            views(out@).to_set() == Set::new(
                |p: Seq<char>|
                    exists|i: int|
                        0 <= i < k && (#[trigger] entries@[i]).1 && json_stem(entries@[i].0@)
                            == Some(p),
            ),
        decreases entries.len() - k,
    {
        let ghost before = views(out@).to_set();
        let (name, is_file) = (&entries[k].0, entries[k].1);
        let stem = if is_file {
            profile_of_file(name.as_str())
        } else {
            None
        };
        match stem {
            Some(s) => {
                let ghost sv = s@;
                insert_sorted(&mut out, s);
                assert(views(out@).to_set() =~= Set::new(
                    |p: Seq<char>|
                        exists|i: int|
                            0 <= i < k + 1 && (#[trigger] entries@[i]).1 && json_stem(
                                entries@[i].0@,
                            ) == Some(p),
                )) by {
                    assert forall|p: Seq<char>| #![auto] views(out@).to_set().contains(p) <==> (
                    exists|i: int|
                        0 <= i < k + 1 && (#[trigger] entries@[i]).1 && json_stem(entries@[i].0@)
                            == Some(p)) by {
                        if p == sv {
                            assert(entries@[k as int].1 && json_stem(entries@[k as int].0@) == Some(
                                p,
                            ));
                        }
                        if exists|i: int|
                            0 <= i < k + 1 && (#[trigger] entries@[i]).1 && json_stem(
                                entries@[i].0@,
                            ) == Some(p) {
                            let i = choose|i: int|
                                0 <= i < k + 1 && (#[trigger] entries@[i]).1 && json_stem(
                                    entries@[i].0@,
                                ) == Some(p);
                            if i < k {
                                assert(before.contains(p));
                            }
                        }
                    }
                }
            },
            None => {
                assert(views(out@).to_set() =~= Set::new(
                    |p: Seq<char>|
                        exists|i: int|
                            0 <= i < k + 1 && (#[trigger] entries@[i]).1 && json_stem(
                                entries@[i].0@,
                            ) == Some(p),
                )) by {
                    assert forall|p: Seq<char>| #![auto] views(out@).to_set().contains(p) <==> (
                    exists|i: int|
                        0 <= i < k + 1 && (#[trigger] entries@[i]).1 && json_stem(entries@[i].0@)
                            == Some(p)) by {
                        if exists|i: int|
                            0 <= i < k + 1 && (#[trigger] entries@[i]).1 && json_stem(
                                entries@[i].0@,
                            ) == Some(p) {
                            let i = choose|i: int|
                                0 <= i < k + 1 && (#[trigger] entries@[i]).1 && json_stem(
                                    entries@[i].0@,
                                ) == Some(p);
                            if i < k {
                                assert(before.contains(p));
                            }
                        }
                    }
                }
            },
        }
        k += 1;
    }
    insert_sorted(&mut out, string_of("default"));
    assert(views(out@).to_set() =~= profile_names(entries@));
    out
}

/// Whether file name `name` has extension `ext` (as `Path::extension`
/// finds it: after the last dot, when that dot does not begin the name).
pub open spec fn has_extension(name: Seq<char>, ext: Seq<char>) -> bool {
    match last_dot_before(name, name.len() as int) {
        Some(k) => k > 0 && name.subrange(k + 1, name.len() as int) == ext,
        None => false,
    }
}

/// Whether a file of the scripts directory is a script: its extension is
/// `lua`.
pub fn is_lua_script(name: &str) -> (r: bool)
    ensures
        r == has_extension(name@, "lua"@),
{
    let c = chars_of(name);
    let mut j: usize = c.len();
    while j > 0 && c[j - 1] != '.'
        invariant
            j <= c.len(),
            c@ == name@,
            last_dot_before(c@, c@.len() as int) == last_dot_before(c@, j as int),
        decreases j,
    {
        j -= 1;
    }
    if j <= 1 {
        return false;
    }
    let ext = string_from_chars(slice_range(c.as_slice(), j, c.len()));
    str_eq(ext.as_str(), "lua")
}

} // verus!
