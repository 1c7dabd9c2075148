//! Reading a process's memory map (`/proc/<pid>/maps`) for the libraries
//! whose symbols are looked up, and which of those lookups found something.
use vstd::prelude::*;
use crate::text::{
    back_ws, chars_of, contains_exec, contains_seq, is_white_space, is_whitespace, lemma_back_ws_bounds,
    lemma_views_push, lines, lines_of, slice_range, starts_with, starts_with_exec, string_from_chars,
    string_of, views,
};

verus! {

/// The start of the word that ends at `j`: the first position of the run
/// of characters that are not white space just before `j`.
pub open spec fn word_start(s: Seq<char>, j: int) -> int
    decreases j,
{
    if j > 0 && !is_white_space(s[j - 1]) {
        word_start(s, j - 1)
    } else {
        j
    }
}

pub proof fn lemma_word_start(s: Seq<char>, j: int)
    requires
        0 <= j <= s.len(),
    ensures
        0 <= word_start(s, j) <= j,
    decreases j,
{
    if j > 0 && !is_white_space(s[j - 1]) {
        lemma_word_start(s, j - 1);
    }
}

/// The last white-space separated word of `s`
/// (`s.split_whitespace().last()`).
pub open spec fn last_word(s: Seq<char>) -> Option<Seq<char>> {
    let b = back_ws(s, s.len() as int);
    if b <= 0 {
        None
    } else {
        Some(s.subrange(word_start(s, b), b))
    }
}

/// The last white-space separated word of `s`, if any.
pub fn last_word_exec(s: &[char]) -> (r: Option<Vec<char>>)
    ensures
        match last_word(s@) {
            Some(w) => r matches Some(v) && v@ == w,
            None => r is None,
        },
{
    let mut b: usize = s.len();
    while b > 0 && is_whitespace(s[b - 1])
        invariant
            b <= s.len(),
            back_ws(s@, s@.len() as int) == back_ws(s@, b as int),
        decreases b,
    {
        b -= 1;
    }
    if b == 0 {
        return None;
    }
    let mut a: usize = b;
    while a > 0 && !is_whitespace(s[a - 1])
        invariant
            a <= b <= s.len(),
            word_start(s@, b as int) == word_start(s@, a as int),
        decreases a,
    {
        a -= 1;
    }
    Some(slice_range(s, a, b))
}

/// The libraries, in order, that a symbol is looked for in from line `i` of
/// a memory map on: the last word of each line that holds `lib_substr`,
/// when it is an absolute path. A matching line without a word, or whose
/// path holds a NUL, ends the search.
pub open spec fn lib_candidates_from(ls: Seq<Seq<char>>, lib_substr: Seq<char>, i: int) -> Seq<
    Seq<char>,
>
    decreases ls.len() - i,
{
    if i < 0 || i >= ls.len() {
        Seq::empty()
    } else if !contains_seq(ls[i], lib_substr) {
        lib_candidates_from(ls, lib_substr, i + 1)
    } else {
        match last_word(ls[i]) {
            None => Seq::empty(),
            Some(w) => if !starts_with(w, "/"@) {
                lib_candidates_from(ls, lib_substr, i + 1)
            } else if w.contains('\0') {
                Seq::empty()
            } else {
                seq![w] + lib_candidates_from(ls, lib_substr, i + 1)
            },
        }
    }
}

/// Whether `v` holds a NUL character.
fn has_nul(v: &[char]) -> (r: bool)
    ensures
        r == v@.contains('\0'),
{
    let mut k: usize = 0;
    while k < v.len()
        invariant
            k <= v.len(),
            forall|j: int| 0 <= j < k ==> v@[j] != '\0',
        decreases v.len() - k,
    {
        if v[k] == '\0' {
            assert(v@[k as int] == '\0');
            return true;
        }
        k += 1;
    }
    false
}

/// The mapped libraries whose paths hold `lib_substr`, in the order in which
/// a symbol is looked for in them (see `lib_candidates_from`).
pub fn lib_candidates(maps: &str, lib_substr: &str) -> (r: Vec<String>)
    ensures
        views(r@) == lib_candidates_from(lines(maps@), lib_substr@, 0),
{
    let ls = lines_of(maps);
    let sub = chars_of(lib_substr);
    let slash = chars_of("/");
    let mut out: Vec<String> = Vec::new();
    let mut i: usize = 0;
    while i < ls.len()
        invariant
            i <= ls.len(),
            views(ls@) == lines(maps@),
            sub@ == lib_substr@,
            slash@ == "/"@,
            lib_candidates_from(lines(maps@), lib_substr@, 0) == views(out@) + lib_candidates_from(
                lines(maps@),
                lib_substr@,
                i as int,
            ),
        decreases ls.len() - i,
    {
        let line = chars_of(ls[i].as_str());
        assert(line@ == lines(maps@)[i as int]);
        if contains_exec(line.as_slice(), sub.as_slice()) {
            match last_word_exec(line.as_slice()) {
                None => {
                    assert(lib_candidates_from(lines(maps@), lib_substr@, i as int) =~= Seq::<
                        Seq<char>,
                    >::empty());
                    assert(views(out@) + Seq::<Seq<char>>::empty() =~= views(out@));
                    return out;
                },
                Some(w) => {
                    if starts_with_exec(w.as_slice(), slash.as_slice()) {
                        if has_nul(w.as_slice()) {
                            assert(views(out@) + Seq::<Seq<char>>::empty() =~= views(out@));
                            return out;
                        }
                        let ws = string_from_chars(w);
                        proof {
                            lemma_views_push(out@, ws);
                        }
                        out.push(ws);
                        assert(views(out@) + lib_candidates_from(lines(maps@), lib_substr@, i + 1)
                            =~= views(out@).drop_last() + (seq![ws@] + lib_candidates_from(
                            lines(maps@),
                            lib_substr@,
                            i + 1,
                        )));
                    }
                },
            }
        }
        i += 1;
    }
    assert(views(out@) + Seq::<Seq<char>>::empty() =~= views(out@));
    out
}

/// The paths of the mapped `libjvm.so` from line `i` of a memory map on:
/// the last word of each line that holds `libjvm.so`, when it has one and
/// it holds no NUL.
pub open spec fn libjvm_from(ls: Seq<Seq<char>>, i: int) -> Seq<Seq<char>>
    decreases ls.len() - i,
{
    if i < 0 || i >= ls.len() {
        Seq::empty()
    } else if !contains_seq(ls[i], "libjvm.so"@) {
        libjvm_from(ls, i + 1)
    } else {
        match last_word(ls[i]) {
            Some(w) => if w.contains('\0') {
                libjvm_from(ls, i + 1)
            } else {
                seq![w] + libjvm_from(ls, i + 1)
            },
            None => libjvm_from(ls, i + 1),
        }
    }
}

/// The paths of the mapped `libjvm.so`, in the order in which the JNI entry
/// point is looked for in them.
pub fn libjvm_paths(maps: &str) -> (r: Vec<String>)
    ensures
        views(r@) == libjvm_from(lines(maps@), 0),
{
    let ls = lines_of(maps);
    let key = chars_of("libjvm.so");
    let mut out: Vec<String> = Vec::new();
    let mut i: usize = 0;
    while i < ls.len()
        invariant
            i <= ls.len(),
            views(ls@) == lines(maps@),
            key@ == "libjvm.so"@,
            libjvm_from(lines(maps@), 0) == views(out@) + libjvm_from(lines(maps@), i as int),
        decreases ls.len() - i,
    {
        let line = chars_of(ls[i].as_str());
        assert(line@ == lines(maps@)[i as int]);
        if contains_exec(line.as_slice(), key.as_slice()) {
            if let Some(w) = last_word_exec(line.as_slice()) {
                if !has_nul(w.as_slice()) {
                    let ws = string_from_chars(w);
                    proof {
                        lemma_views_push(out@, ws);
                    }
                    out.push(ws);
                    assert(views(out@) + libjvm_from(lines(maps@), i + 1) =~= views(out@).drop_last()
                        + (seq![ws@] + libjvm_from(lines(maps@), i + 1)));
                }
            }
        }
        i += 1;
    }
    assert(views(out@) + Seq::<Seq<char>>::empty() =~= views(out@));
    out
}

/// The buffer-swap functions that the render hook goes on, each with the
/// library that holds it: GLX first, then EGL.
pub open spec fn swap_candidates_spec() -> Seq<(Seq<char>, Seq<char>)> {
    seq![("glXSwapBuffers"@, "libGL"@), ("eglSwapBuffers"@, "libEGL"@)]
}

/// The buffer-swap functions to look up, each with its library.
pub fn swap_buffer_candidates() -> (r: Vec<(String, String)>)
    ensures
        r@.map_values(|p: (String, String)| (p.0@, p.1@)) == swap_candidates_spec(),
{
    let mut r: Vec<(String, String)> = Vec::new();
    r.push((string_of("glXSwapBuffers"), string_of("libGL")));
    r.push((string_of("eglSwapBuffers"), string_of("libEGL")));
    assert(r@.map_values(|p: (String, String)| (p.0@, p.1@)) =~= swap_candidates_spec());
    r
}

/// The found functions, in order: the address of each lookup that found
/// one, with the function's name.
pub open spec fn found_swaps(found: Seq<Option<usize>>, names: Seq<Seq<char>>, n: int) -> Seq<
    (usize, Seq<char>),
>
    decreases n,
{
    if n <= 0 {
        Seq::empty()
    } else {
        let r = found_swaps(found, names, n - 1);
        match found[n - 1] {
            Some(a) => r.push((a, names[n - 1])),
            None => r,
        }
    }
}

/// Pairs the lookups of the buffer-swap functions (`found[i]` for the
/// `i`-th of `swap_buffer_candidates`) with their names, keeping those
/// found, in order.
pub fn find_all_swap_buffers(found: &Vec<Option<usize>>) -> (r: Vec<(usize, String)>)
    requires
        found.len() == 2,
    ensures
        r@.map_values(|p: (usize, String)| (p.0, p.1@)) == found_swaps(
            found@,
            swap_candidates_spec().map_values(|c: (Seq<char>, Seq<char>)| c.0),
            2,
        ),
{
    let names = swap_buffer_candidates();
    let ghost ns = swap_candidates_spec().map_values(|c: (Seq<char>, Seq<char>)| c.0);
    let mut out: Vec<(usize, String)> = Vec::new();
    let mut i: usize = 0;
    while i < 2
        invariant
            i <= 2,
            found.len() == 2,
            names@.len() == 2,
            names@.map_values(|p: (String, String)| (p.0@, p.1@)) == swap_candidates_spec(),
            ns == swap_candidates_spec().map_values(|c: (Seq<char>, Seq<char>)| c.0),
            out@.map_values(|p: (usize, String)| (p.0, p.1@)) == found_swaps(found@, ns, i as int),
        decreases 2 - i,
    {
        proof {
            let m = names@.map_values(|p: (String, String)| (p.0@, p.1@));
            assert(m[i as int] == swap_candidates_spec()[i as int]);
            assert(names@[i as int].0@ == ns[i as int]);
        }
        if let Some(a) = found[i] {
            let name = names[i].0.clone();
            let ghost before = out@;
            out.push((a, name));
            assert(out@.map_values(|p: (usize, String)| (p.0, p.1@)) =~= before.map_values(
                |p: (usize, String)| (p.0, p.1@),
            ).push((a, ns[i as int])));
        }
        i += 1;
    }
    out
}

} // verus!
