//! Image links in Zulip message content.
use vstd::prelude::*;
use crate::text::{
    chars_of, concat_chars, contains_string, ends_with, ends_with_exec, find_from, find_from_exec,
    first_word, first_word_exec, is_white_space, to_ws, is_whitespace, lemma_find_from, lemma_views_push,
    lowercase_of, occurs_at, occurs_at_exec, slice_prefix, slice_range, starts_with,
    starts_with_exec, string_from_chars, to_lowercase, trim_end_char, trim_end_char_exec, views,
};

verus! {

/// The part of `s` before its first `?` (`s.split('?').next()`).
pub open spec fn before_query(s: Seq<char>) -> Seq<char> {
    match find_from(s, seq!['?'], 0) {
        Some(k) => s.subrange(0, k),
        None => s,
    }
}

/// A path whose extension names an image format.
pub open spec fn has_image_extension(p: Seq<char>) -> bool {
    ||| ends_with(p, seq!['.', 'p', 'n', 'g'])
    ||| ends_with(p, seq!['.', 'j', 'p', 'g'])
    ||| ends_with(p, seq!['.', 'j', 'p', 'e', 'g'])
    ||| ends_with(p, seq!['.', 'g', 'i', 'f'])
    ||| ends_with(p, seq!['.', 'w', 'e', 'b', 'p'])
}

/// A URL that points at an image: its lowercased path (query dropped) ends
/// with `.png`, `.jpg`, `.jpeg`, `.gif` or `.webp`.
pub open spec fn is_image_link(url: Seq<char>) -> bool {
    has_image_extension(before_query(lowercase_of(url)))
}

/// Whether `url` points at an image, judged by the extension of its path.
pub fn is_image_url(url: &str) -> (b: bool)
    ensures
        b == is_image_link(url@),
{
    let lower = to_lowercase(url);
    let lc = chars_of(lower.as_str());
    let q = vec!['?'];
    assert(q@ =~= seq!['?']);
    let path = match find_from_exec(lc.as_slice(), q.as_slice(), 0) {
        Some(k) => {
            proof { lemma_find_from(lc@, q@, 0); }
            slice_prefix(lc.as_slice(), k)
        },
        None => lc,
    };
    let png = vec!['.', 'p', 'n', 'g'];
    let jpg = vec!['.', 'j', 'p', 'g'];
    let jpeg = vec!['.', 'j', 'p', 'e', 'g'];
    let gif = vec!['.', 'g', 'i', 'f'];
    let webp = vec!['.', 'w', 'e', 'b', 'p'];
    assert(png@ =~= seq!['.', 'p', 'n', 'g']);
    assert(jpg@ =~= seq!['.', 'j', 'p', 'g']);
    assert(jpeg@ =~= seq!['.', 'j', 'p', 'e', 'g']);
    assert(gif@ =~= seq!['.', 'g', 'i', 'f']);
    assert(webp@ =~= seq!['.', 'w', 'e', 'b', 'p']);
    ends_with_exec(path.as_slice(), png.as_slice()) || ends_with_exec(path.as_slice(), jpg.as_slice())
        || ends_with_exec(path.as_slice(), jpeg.as_slice()) || ends_with_exec(path.as_slice(), gif.as_slice())
        || ends_with_exec(path.as_slice(), webp.as_slice())
}

/// `/user_uploads/`, the path under which Zulip serves uploaded files.
pub open spec fn uploads_prefix() -> Seq<char> {
    seq!['/', 'u', 's', 'e', 'r', '_', 'u', 'p', 'l', 'o', 'a', 'd', 's', '/']
}

pub open spec fn http_prefix() -> Seq<char> {
    seq!['h', 't', 't', 'p', ':', '/', '/']
}

pub open spec fn https_prefix() -> Seq<char> {
    seq!['h', 't', 't', 'p', 's', ':', '/', '/']
}

/// The position of the `)` that closes the group opened before `j`, with
/// `depth` groups opened since then still unclosed.
pub open spec fn close_paren(s: Seq<char>, j: int, depth: nat) -> Option<int>
    decreases s.len() - j,
{
    if j < 0 || j >= s.len() {
        None
    } else if s[j] == '(' {
        close_paren(s, j + 1, depth + 1)
    } else if s[j] == ')' {
        if depth == 0 {
            Some(j)
        } else {
            close_paren(s, j + 1, (depth - 1) as nat)
        }
    } else {
        close_paren(s, j + 1, depth)
    }
}

pub proof fn lemma_close_paren_bounds(s: Seq<char>, j: int, depth: nat)
    ensures
        close_paren(s, j, depth) matches Some(e) ==> j <= e < s.len(),
    decreases s.len() - j,
{
    if j < 0 || j >= s.len() {
    } else if s[j] == '(' {
        lemma_close_paren_bounds(s, j + 1, depth + 1);
    } else if s[j] == ')' {
        if depth != 0 {
            lemma_close_paren_bounds(s, j + 1, (depth - 1) as nat);
        }
    } else {
        lemma_close_paren_bounds(s, j + 1, depth);
    }
}

/// A character that ends a bare upload path.
pub open spec fn is_link_end(c: char) -> bool {
    is_white_space(c) || c == ')' || c == '"' || c == '\'' || c == '>'
}

/// The first position at or after `j` whose character ends a bare upload path, or the end.
pub open spec fn link_end(s: Seq<char>, j: int) -> int
    decreases s.len() - j,
{
    if 0 <= j < s.len() && !is_link_end(s[j]) {
        link_end(s, j + 1)
    } else {
        j
    }
}

pub proof fn lemma_link_end_bounds(s: Seq<char>, j: int)
    requires
        0 <= j <= s.len(),
    ensures
        j <= link_end(s, j) <= s.len(),
    decreases s.len() - j,
{
    if j < s.len() && !is_link_end(s[j]) {
        lemma_link_end_bounds(s, j + 1);
    }
}

/// At `p` starts a Markdown image `![alt](target)`: the target runs from the
/// first element to the second, where its `)` stands.
pub open spec fn markdown_image_at(c: Seq<char>, p: int) -> Option<(int, int)> {
    if 0 <= p && p + 1 < c.len() && c[p] == '!' && c[p + 1] == '[' {
        match find_from(c, seq![']', '('], p) {
            Some(f) => match close_paren(c, f + 2, 0) {
                Some(e) => Some((f + 2, e)),
                None => None,
            },
            None => None,
        }
    } else {
        None
    }
}

pub proof fn lemma_markdown_image_bounds(c: Seq<char>, p: int)
    ensures
        markdown_image_at(c, p) matches Some((u, e)) ==> p + 2 <= u <= e < c.len(),
{
    if 0 <= p && p + 1 < c.len() && c[p] == '!' && c[p + 1] == '[' {
        lemma_find_from(c, seq![']', '('], p);
        if let Some(f) = find_from(c, seq![']', '('], p) {
            lemma_close_paren_bounds(c, f + 2, 0);
        }
    }
}

/// The links that the target of a Markdown image contributes: an absolute
/// `http(s)` link when it names an image file, an upload path joined to the
/// server's base URL, nothing otherwise.
pub open spec fn markdown_link(raw: Seq<char>, base: Seq<char>) -> Option<Seq<char>> {
    if starts_with(raw, http_prefix()) || starts_with(raw, https_prefix()) {
        if is_image_link(raw) {
            Some(raw)
        } else {
            None
        }
    } else if starts_with(raw, uploads_prefix()) {
        Some(base + raw)
    } else {
        None
    }
}

/// The image links found in `c` scanning from `p`, appended to `acc`.
pub open spec fn image_scan(c: Seq<char>, base: Seq<char>, p: int, acc: Seq<Seq<char>>) -> Seq<
    Seq<char>,
>
    decreases c.len() - p,
{
    if p < 0 || p >= c.len() {
        acc
    } else {
        match markdown_image_at(c, p) {
            Some((u, e)) => {
                proof {
                    lemma_markdown_image_bounds(c, p);
                }
                let acc2 = match markdown_link(first_word(c.subrange(u, e)), base) {
                    Some(l) => acc.push(l),
                    None => acc,
                };
                image_scan(c, base, e + 1, acc2)
            },
            None => {
                if occurs_at(c, uploads_prefix(), p) {
                    proof {
                        lemma_link_end_bounds(c, p);
                    }
                    let end = link_end(c, p);
                    let full = base + c.subrange(p, end);
                    let acc2 = if acc.contains(full) {
                        acc
                    } else {
                        acc.push(full)
                    };
                    image_scan(c, base, if end > p { end } else { p + 1 }, acc2)
                } else {
                    image_scan(c, base, p + 1, acc)
                }
            },
        }
    }
}

/// The scan from `p` on never steps into the middle of a multi-byte
/// character (the positions where the byte-wise scan would slice the
/// string off a character boundary).
pub open spec fn image_scan_safe(c: Seq<char>, p: int) -> bool
    decreases c.len() - p,
{
    if p < 0 || p >= c.len() {
        true
    } else {
        match markdown_image_at(c, p) {
            Some((u, e)) => {
                proof {
                    lemma_markdown_image_bounds(c, p);
                }
                image_scan_safe(c, e + 1)
            },
            None => {
                if occurs_at(c, uploads_prefix(), p) {
                    proof {
                        lemma_link_end_bounds(c, p);
                    }
                    let end = link_end(c, p);
                    image_scan_safe(c, if end > p { end } else { p + 1 })
                } else {
                    (c[p] as u32) < 0x80 && image_scan_safe(c, p + 1)
                }
            },
        }
    }
}

/// Position of the `)` closing the group opened just before `start`.
pub fn close_paren_exec(s: &[char], start: usize) -> (r: Option<usize>)
    ensures
        r matches Some(e) ==> close_paren(s@, start as int, 0) == Some(e as int),
        r is None ==> close_paren(s@, start as int, 0) is None,
{
    let mut depth: usize = 0;
    let mut j: usize = start;
    while j < s.len()
        invariant
            start <= j,
            depth <= j,
            close_paren(s@, start as int, 0) == close_paren(s@, j as int, depth as nat),
        decreases s.len() - j,
    {
        if s[j] == '(' {
            depth = depth + 1;
        } else if s[j] == ')' {
            if depth == 0 {
                return Some(j);
            }
            depth = depth - 1;
        }
        j += 1;
    }
    None
}

/// End of a bare upload path starting at `j`.
pub fn link_end_exec(s: &[char], j: usize) -> (r: usize)
    requires
        j <= s.len(),
    ensures
        r == link_end(s@, j as int),
{
    let mut k: usize = j;
    while k < s.len() && !(is_whitespace(s[k]) || s[k] == ')' || s[k] == '"' || s[k] == '\''
        || s[k] == '>')
        invariant
            j <= k <= s.len(),
            link_end(s@, j as int) == link_end(s@, k as int),
        decreases s.len() - k,
    {
        k += 1;
    }
    k
}

/// Whether the image-link scan of `content` stays on character
/// boundaries, so that `extract_image_urls` may be called on it.
pub fn image_scan_is_safe(content: &str) -> (b: bool)
    ensures
        b == image_scan_safe(content@, 0),
{
    let c = chars_of(content);
    let uploads = vec!['/', 'u', 's', 'e', 'r', '_', 'u', 'p', 'l', 'o', 'a', 'd', 's', '/'];
    let open = vec![']', '('];
    assert(uploads@ =~= uploads_prefix());
    assert(open@ =~= seq![']', '(']);
    let mut i: usize = 0;
    while i < c.len()
        invariant
            i <= c.len(),
            c@ == content@,
            uploads@ == uploads_prefix(),
            open@ == seq![']', '('],
            image_scan_safe(c@, 0) == image_scan_safe(c@, i as int),
        decreases c.len() - i,
    {
        proof {
            lemma_markdown_image_bounds(c@, i as int);
        }
        if i + 1 < c.len() && c[i] == '!' && c[i + 1] == '[' {
            if let Some(f) = find_from_exec(c.as_slice(), open.as_slice(), i) {
                proof {
                    lemma_find_from(c@, open@, i as int);
                }
                let u = f + 2;
                if let Some(e) = close_paren_exec(c.as_slice(), u) {
                    proof {
                        lemma_close_paren_bounds(c@, u as int, 0);
                    }
                    i = e + 1;
                    continue;
                }
            }
        }
        if occurs_at_exec(c.as_slice(), uploads.as_slice(), i) {
            proof {
                lemma_link_end_bounds(c@, i as int);
            }
            let end = link_end_exec(c.as_slice(), i);
            i = if end > i { end } else { i + 1 };
            continue;
        }
        if (c[i] as u32) >= 0x80 {
            return false;
        }
        i += 1;
    }
    true
}

/// The image links that a message's content holds, in order of appearance:
/// the targets of Markdown images `![alt](target)` that are `http(s)` image
/// links or upload paths, and the upload paths that stand bare in the text,
/// each bare one once. Upload paths are joined to `base_url` without its
/// trailing slashes.
pub fn extract_image_urls(content: &str, base_url: &str) -> (urls: Vec<String>)
    requires
        image_scan_safe(content@, 0),
    ensures
        views(urls@) == image_scan(content@, trim_end_char(base_url@, '/'), 0, seq![]),
{
    let bc = chars_of(base_url);
    let base = trim_end_char_exec(bc.as_slice(), '/');
    let c = chars_of(content);
    let uploads = vec!['/', 'u', 's', 'e', 'r', '_', 'u', 'p', 'l', 'o', 'a', 'd', 's', '/'];
    let http = vec!['h', 't', 't', 'p', ':', '/', '/'];
    let https = vec!['h', 't', 't', 'p', 's', ':', '/', '/'];
    let open = vec![']', '('];
    assert(uploads@ =~= uploads_prefix());
    assert(http@ =~= http_prefix());
    assert(https@ =~= https_prefix());
    assert(open@ =~= seq![']', '(']);
    let mut urls: Vec<String> = Vec::new();
    assert(views(urls@) =~= seq![]);
    let mut i: usize = 0;
    while i < c.len()
        invariant
            i <= c.len(),
            c@ == content@,
            base@ == trim_end_char(base_url@, '/'),
            uploads@ == uploads_prefix(),
            http@ == http_prefix(),
            https@ == https_prefix(),
            open@ == seq![']', '('],
            image_scan(c@, base@, 0, seq![]) == image_scan(c@, base@, i as int, views(urls@)),
        decreases c.len() - i,
    {
        proof {
            lemma_markdown_image_bounds(c@, i as int);
        }
        if i + 1 < c.len() && c[i] == '!' && c[i + 1] == '[' {
            if let Some(f) = find_from_exec(c.as_slice(), open.as_slice(), i) {
                proof {
                    lemma_find_from(c@, open@, i as int);
                }
                let u = f + 2;
                if let Some(e) = close_paren_exec(c.as_slice(), u) {
                    proof {
                        lemma_close_paren_bounds(c@, u as int, 0);
                    }
                    let target = slice_range(c.as_slice(), u, e);
                    let raw = first_word_exec(target.as_slice());
                    let ghost old_urls = urls@;
                    if starts_with_exec(raw.as_slice(), http.as_slice()) || starts_with_exec(
                        raw.as_slice(),
                        https.as_slice(),
                    ) {
                        let raw_s = string_from_chars(raw);
                        if is_image_url(raw_s.as_str()) {
                            urls.push(raw_s);
                            proof {
                                lemma_views_push(old_urls, raw_s);
                            }
                        }
                    } else if starts_with_exec(raw.as_slice(), uploads.as_slice()) {
                        let full = string_from_chars(concat_chars(base.as_slice(), raw.as_slice()));
                        urls.push(full);
                        proof {
                            lemma_views_push(old_urls, full);
                        }
                    }
                    i = e + 1;
                    continue;
                }
            }
        }
        if occurs_at_exec(c.as_slice(), uploads.as_slice(), i) {
            proof {
                lemma_link_end_bounds(c@, i as int);
            }
            let end = link_end_exec(c.as_slice(), i);
            let seg = slice_range(c.as_slice(), i, end);
            let full = string_from_chars(concat_chars(base.as_slice(), seg.as_slice()));
            let ghost old_urls = urls@;
            if !contains_string(&urls, &full) {
                urls.push(full);
                proof {
                    lemma_views_push(old_urls, full);
                }
            }
            i = if end > i { end } else { i + 1 };
            continue;
        }
        i += 1;
    }
    urls
}

proof fn lemma_close_paren_plain(s: Seq<char>, j: int, e: int)
    requires
        0 <= j <= e < s.len(),
        s[e] == ')',
        forall|m: int| j <= m < e ==> s[m] != '(' && s[m] != ')',
    ensures
        close_paren(s, j, 0) == Some(e),
    decreases e - j,
{
    if j < e {
        lemma_close_paren_plain(s, j + 1, e);
    }
}

proof fn lemma_to_ws_word(s: Seq<char>, i: int)
    requires
        0 <= i <= s.len(),
        forall|m: int| i <= m < s.len() ==> !is_white_space(s[m]),
    ensures
        to_ws(s, i) == s.len(),
    decreases s.len() - i,
{
    if i < s.len() {
        lemma_to_ws_word(s, i + 1);
    }
}

/// The text of a Markdown image `![alt](url)`.
pub open spec fn markdown_image_text(alt: Seq<char>, url: Seq<char>) -> Seq<char> {
    seq!['!', '['] + alt + seq![']', '('] + url + seq![')']
}

proof fn lemma_markdown_image_text_chars(alt: Seq<char>, url: Seq<char>)
    ensures
        ({
            let c = markdown_image_text(alt, url);
            let f: int = 2 + alt.len() as int;
            &&& c.len() == alt.len() + url.len() + 5
            &&& c[0] == '!' && c[1] == '['
            &&& forall|k: int| 0 <= k < alt.len() ==> c[2 + k] == alt[k]
            &&& c[f] == ']' && c[f + 1] == '('
            &&& forall|k: int| 0 <= k < url.len() ==> c[f + 2 + k] == url[k]
            &&& c[c.len() - 1] == ')'
            &&& c.subrange(f + 2, c.len() - 1) == url
        }),
{
    let c = markdown_image_text(alt, url);
    let f: int = 2 + alt.len() as int;
    assert(c.subrange(f + 2, c.len() - 1) =~= url);
}

proof fn lemma_markdown_image_open(alt: Seq<char>, url: Seq<char>)
    requires
        forall|i: int| 0 <= i < alt.len() ==> alt[i] != ']',
    ensures
        find_from(markdown_image_text(alt, url), seq![']', '('], 0) == Some(2 + alt.len() as int),
{
    let c = markdown_image_text(alt, url);
    lemma_markdown_image_text_chars(alt, url);
    let t = seq![']', '('];
    let f: int = 2 + alt.len() as int;
    assert(c.subrange(f, f + 2) =~= t);
    lemma_find_from(c, t, 0);
    assert forall|k: int| 0 <= k < f implies !#[trigger] occurs_at(c, t, k) by {
        if occurs_at(c, t, k) {
            assert(c.subrange(k, k + 2)[0] == c[k]);
            if k >= 2 {
                assert(c[2 + (k - 2)] == alt[k - 2]);
            }
        }
    }
    assert(occurs_at(c, t, f));
    match find_from(c, t, 0) {
        Some(k) => {
            if k < f {
                assert(!occurs_at(c, t, k));
            } else if k > f {
                assert(!occurs_at(c, t, f));
            }
        },
        None => {
            assert(!occurs_at(c, t, f));
        },
    }
}

proof fn lemma_markdown_image_close(alt: Seq<char>, url: Seq<char>)
    requires
        forall|i: int| 0 <= i < url.len() ==> url[i] != '(' && url[i] != ')',
    ensures
        close_paren(markdown_image_text(alt, url), 2 + alt.len() as int + 2, 0) == Some(
            markdown_image_text(alt, url).len() - 1,
        ),
{
    let c = markdown_image_text(alt, url);
    lemma_markdown_image_text_chars(alt, url);
    let f: int = 2 + alt.len() as int;
    let u: int = f + 2;
    let e: int = c.len() - 1;
    assert forall|m: int| u <= m < e implies c[m] != '(' && c[m] != ')' by {
        assert(c[f + 2 + (m - u)] == url[m - u]);
    }
    lemma_close_paren_plain(c, u, e);
}

proof fn lemma_markdown_image_found(alt: Seq<char>, url: Seq<char>)
    requires
        forall|i: int| 0 <= i < alt.len() ==> alt[i] != ']',
        forall|i: int| 0 <= i < url.len() ==> url[i] != '(' && url[i] != ')',
    ensures
        markdown_image_at(markdown_image_text(alt, url), 0) == Some(
            (2 + alt.len() as int + 2, markdown_image_text(alt, url).len() - 1),
        ),
{
    lemma_markdown_image_text_chars(alt, url);
    lemma_markdown_image_open(alt, url);
    lemma_markdown_image_close(alt, url);
}

/// A Markdown image `![alt](url)` whose target is an absolute link, `http`
/// or `https` alike, that names an image file, gives exactly that link
/// (the alt text holding no `]`, the link no white space or parenthesis).
pub proof fn lemma_markdown_image_link(alt: Seq<char>, url: Seq<char>, base: Seq<char>)
    requires
        forall|i: int| 0 <= i < alt.len() ==> alt[i] != ']',
        url.len() > 0,
        forall|i: int|
            0 <= i < url.len() ==> url[i] != '(' && url[i] != ')' && !is_white_space(url[i]),
        starts_with(url, http_prefix()) || starts_with(url, https_prefix()),
        is_image_link(url),
    ensures
        image_scan(markdown_image_text(alt, url), base, 0, seq![]) == seq![url],
{
    let c = markdown_image_text(alt, url);
    lemma_markdown_image_text_chars(alt, url);
    lemma_markdown_image_found(alt, url);
    let u: int = 2 + alt.len() as int + 2;
    let e: int = c.len() - 1;
    lemma_to_ws_word(url, 0);
    assert(first_word(url) =~= url);
    assert(markdown_link(url, base) == Some(url));
    assert(first_word(c.subrange(u, e)) == url);
    assert(image_scan(c, base, e + 1, seq![url]) == seq![url]);
}

} // verus!
