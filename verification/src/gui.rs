//! Decisions and text handling of the ClickGUI overlay.
use vstd::prelude::*;
use crate::keys::{key_name, key_name_spec};
use crate::modules::ModuleInfo;
use crate::text::{
    concat_str, contains_seq, contains_str, lemma_seq_lt_irreflexive, lemma_seq_lt_total,
    lemma_seq_lt_transitive, lowercase_of, seq_lt, string_from_chars, string_lt, string_of,
    to_lowercase, trim, trim_str,
};
use crate::zulip::ZulipConfig;

verus! {

/// Where the skip of a Markdown image `![alt](target)` that started before
/// `j` ends, with `depth` parentheses still open: just past the `)` that
/// closes the target's `(` (parentheses inside the target are matched; a
/// `)` before any `(` also ends the image), or the end of the text when
/// nothing closes it. The text after the image is kept.
pub open spec fn md_image_end(b: Seq<u8>, j: int, depth: nat) -> int
    decreases b.len() - j,
{
    if j < 0 || j >= b.len() {
        j
    } else if b[j] == 0x28u8 {
        md_image_end(b, j + 1, depth + 1)
    } else if b[j] == 0x29u8 {
        if depth > 1 {
            md_image_end(b, j + 1, (depth - 1) as nat)
        } else {
            j + 1
        }
    } else {
        md_image_end(b, j + 1, depth)
    }
}

pub proof fn lemma_md_image_end_bounds(b: Seq<u8>, j: int, depth: nat)
    requires
        0 <= j,
    ensures
        j <= md_image_end(b, j, depth),
        j <= b.len() ==> md_image_end(b, j, depth) <= b.len(),
    decreases b.len() - j,
{
    if j >= b.len() {
    } else if b[j] == 0x28u8 {
        lemma_md_image_end_bounds(b, j + 1, depth + 1);
    } else if b[j] == 0x29u8 {
        if depth > 1 {
            lemma_md_image_end_bounds(b, j + 1, (depth - 1) as nat);
        }
    } else {
        lemma_md_image_end_bounds(b, j + 1, depth);
    }
}

/// The displayed text of UTF-8 bytes `b` from `i` on: Markdown images
/// `![alt](target)` are dropped, every other byte stands as the character
/// with that number.
pub open spec fn strip_md(b: Seq<u8>, i: int) -> Seq<char>
    decreases b.len() - i,
{
    if i < 0 || i >= b.len() {
        seq![]
    } else if i + 1 < b.len() && b[i] == 0x21u8 && b[i + 1] == 0x5bu8 {
        proof {
            lemma_md_image_end_bounds(b, i + 2, 0);
        }
        strip_md(b, md_image_end(b, i + 2, 0))
    } else {
        seq![b[i] as char] + strip_md(b, i + 1)
    }
}

/// Message text for display: Markdown image syntax removed, each remaining
/// byte of the UTF-8 text taken as one character.
pub fn zulip_strip_md(s: &str) -> (out: String)
    ensures
        out@ == strip_md(vstd::utf8::encode_utf8(s@), 0),
{
    let bytes = s.as_bytes();
    let len = bytes.len();
    let mut out: Vec<char> = Vec::new();
    let mut i: usize = 0;
    while i < len
        invariant
            len == bytes@.len(),
            bytes@ == vstd::utf8::encode_utf8(s@),
            i <= len,
            strip_md(bytes@, 0) == out@ + strip_md(bytes@, i as int),
        decreases len - i,
    {
        if i + 1 < len && bytes[i] == 0x21u8 && bytes[i + 1] == 0x5bu8 {
            let mut depth: usize = 0;
            let mut j: usize = i + 2;
            proof {
                lemma_md_image_end_bounds(bytes@, j as int, 0);
            }
            while j < len
                invariant_except_break
                    md_image_end(bytes@, (i + 2) as int, 0) == md_image_end(bytes@, j as int, depth as nat),
                invariant
                    i + 2 <= j <= len,
                    len == bytes@.len(),
                    depth <= j,
                ensures
                    j == md_image_end(bytes@, (i + 2) as int, 0),
                decreases len - j,
            {
                if bytes[j] == 0x28u8 {
                    depth = depth + 1;
                }
                if bytes[j] == 0x29u8 {
                    if depth > 1 {
                        depth = depth - 1;
                    } else {
                        j = j + 1;
                        break;
                    }
                }
                j = j + 1;
            }
            assert(strip_md(bytes@, i as int) == strip_md(bytes@, j as int));
            i = j;
            continue;
        }
        let ghost old_out = out@;
        out.push(bytes[i] as char);
        assert(out@ + strip_md(bytes@, (i + 1) as int) =~= old_out + strip_md(bytes@, i as int));
        i += 1;
    }
    assert(out@ =~= out@ + strip_md(bytes@, len as int));
    string_from_chars(out)
}

/// The most UTF-8 bytes of a message that the chat shows.
pub const PREVIEW_BYTES: usize = 600;

/// What the chat shows of a message text: the text itself, or its first
/// `PREVIEW_BYTES` bytes followed by `…` when it is longer.
pub open spec fn preview_spec(text: Seq<char>) -> Seq<char> {
    let b = vstd::utf8::encode_utf8(text);
    if b.len() > PREVIEW_BYTES {
        vstd::utf8::decode_utf8(b.subrange(0, PREVIEW_BYTES as int)) + seq!['…']
    } else {
        text
    }
}

/// The shown part of a message text. A text longer than `PREVIEW_BYTES`
/// bytes must have a character start at that byte: it is cut there.
pub fn message_preview(text: &str) -> (r: String)
    requires
        vstd::utf8::encode_utf8(text@).len() > PREVIEW_BYTES ==> vstd::utf8::is_char_boundary(
            vstd::utf8::encode_utf8(text@),
            PREVIEW_BYTES as int,
        ),
    ensures
        r@ == preview_spec(text@),
{
    if text.as_bytes().len() > PREVIEW_BYTES {
        let (head, _) = text.split_at(PREVIEW_BYTES);
        proof {
            vstd::utf8::encode_utf8_decode_utf8(head@);
            assert(vstd::utf8::encode_utf8(head@) == vstd::utf8::encode_utf8(text@).subrange(
                0,
                PREVIEW_BYTES as int,
            ));
        }
        let r = concat_str(head, "…");
        proof {
            reveal_strlit("…");
        }
        r
    } else {
        string_of(text)
    }
}

/// The predicate "belongs to category `k`".
pub open spec fn category_is<S>(k: Seq<char>) -> spec_fn(ModuleInfo<S>) -> bool {
    |m: ModuleInfo<S>| m.category@ == k
}

/// `groups` holds the modules of `modules` by category: one group per
/// category that occurs, in ascending order of the category names, each
/// with that category's modules in their original order.
pub open spec fn is_category_grouping<S>(
    modules: Seq<ModuleInfo<S>>,
    groups: Seq<(String, Vec<ModuleInfo<S>>)>,
) -> bool {
    &&& forall|i: int, j: int|
        #![trigger groups[i], groups[j]]
        0 <= i < j < groups.len() ==> seq_lt(groups[i].0@, groups[j].0@)
    &&& forall|i: int|
        0 <= i < groups.len() ==> (#[trigger] groups[i]).1@ == modules.filter(
            category_is(groups[i].0@),
        )
    &&& forall|i: int| 0 <= i < groups.len() ==> (#[trigger] groups[i]).1@.len() > 0
    &&& forall|m: int| 0 <= m < modules.len() ==> has_group(groups, (#[trigger] modules[m]).category@)
}

/// Some group of `groups` is named `c`.
pub open spec fn has_group<S>(groups: Seq<(String, Vec<ModuleInfo<S>>)>, c: Seq<char>) -> bool {
    exists|i: int| 0 <= i < groups.len() && (#[trigger] groups[i]).0@ == c
}

pub proof fn lemma_filter_push<A>(s: Seq<A>, x: A, f: spec_fn(A) -> bool)
    ensures
        s.push(x).filter(f) == (if f(x) {
            s.filter(f).push(x)
        } else {
            s.filter(f)
        }),
{
    reveal(Seq::filter);
    assert(s.push(x).drop_last() =~= s);
}

pub proof fn lemma_filter_none<A>(s: Seq<A>, f: spec_fn(A) -> bool)
    requires
        forall|i: int| 0 <= i < s.len() ==> !f(#[trigger] s[i]),
    ensures
        s.filter(f) == Seq::<A>::empty(),
    decreases s.len(),
{
    reveal(Seq::filter);
    if s.len() > 0 {
        lemma_filter_none(s.drop_last(), f);
        assert(!f(s[s.len() - 1]));
    }
    assert(s.filter(f) =~= Seq::<A>::empty());
}

/// The modules by category, categories in ascending order (the iteration
/// order of a `BTreeMap` keyed by category).
pub fn group_by_category<S>(modules: Vec<ModuleInfo<S>>) -> (groups: Vec<(String, Vec<ModuleInfo<S>>)>)
    ensures
        is_category_grouping(modules@, groups@),
{
    let ghost all = modules@;
    let mut groups: Vec<(String, Vec<ModuleInfo<S>>)> = Vec::new();
    let mut rest = modules;
    let ghost mut taken: Seq<ModuleInfo<S>> = Seq::empty();
    proof {
        assert(all =~= taken + rest@);
    }
    while rest.len() > 0
        invariant
            all == taken + rest@,
            is_category_grouping(taken, groups@),
        decreases rest.len(),
    {
        let ghost old_rest = rest@;
        let m = rest.remove(0);
        let ghost prefix = taken;
        let ghost gm = m;
        let cat = m.category.clone();
        let mut k: usize = 0;
        while k < groups.len() && string_lt(&groups[k].0, &cat)
            invariant
                k <= groups.len(),
                forall|j: int| 0 <= j < k ==> seq_lt(#[trigger] groups@[j].0@, cat@),
            decreases groups.len() - k,
        {
            k += 1;
        }
        let ghost old_groups = groups@;
        if k < groups.len() && groups[k].0 == cat {
            let (name, mut list) = groups.remove(k);
            list.push(m);
            groups.insert(k, (name, list));
            proof {
                assert(groups@ =~= old_groups.update(k as int, (name, list)));
                assert forall|i: int| 0 <= i < groups@.len() implies (#[trigger] groups@[i]).1@
                    == prefix.push(m).filter(category_is(groups@[i].0@)) by {
                    lemma_filter_push(prefix, m, category_is::<S>(groups@[i].0@));
                    if i != k {
                        if old_groups[i].0@ == cat@ {
                            if i < k {
                                lemma_seq_lt_irreflexive(cat@);
                            } else {
                                lemma_seq_lt_irreflexive(cat@);
                            }
                        }
                    }
                }
                assert forall|mi: int| 0 <= mi < prefix.push(gm).len() implies has_group(
                    groups@,
                    (#[trigger] prefix.push(gm)[mi]).category@,
                ) by {
                    if mi < prefix.len() {
                        assert(prefix.push(gm)[mi] == prefix[mi]);
                        assert(has_group(old_groups, prefix[mi].category@));
                        let i = choose|i: int|
                            0 <= i < old_groups.len() && (#[trigger] old_groups[i]).0@
                                == prefix[mi].category@;
                        assert(groups@[i].0@ == old_groups[i].0@);
                    } else {
                        assert(prefix.push(gm)[mi] == gm);
                        assert(gm.category@ == cat@);
                        assert(groups@[k as int].0@ == cat@);
                    }
                }
            }
        } else {
            proof {
                if k < old_groups.len() {
                    lemma_seq_lt_total(old_groups[k as int].0@, cat@);
                }
                assert forall|mi: int| 0 <= mi < prefix.len() implies !category_is::<S>(cat@)(
                    #[trigger] prefix[mi]) by {
                    assert(has_group(old_groups, prefix[mi].category@));
                    let i = choose|i: int|
                        0 <= i < old_groups.len() && (#[trigger] old_groups[i]).0@
                            == prefix[mi].category@;
                    if i < k {
                        lemma_seq_lt_irreflexive(cat@);
                    } else if i > k {
                        lemma_seq_lt_transitive(cat@, old_groups[k as int].0@, old_groups[i].0@);
                        lemma_seq_lt_irreflexive(cat@);
                    }
                }
                lemma_filter_none(prefix, category_is::<S>(cat@));
                lemma_filter_push(prefix, m, category_is::<S>(cat@));
            }
            let mut list: Vec<ModuleInfo<S>> = Vec::new();
            list.push(m);
            groups.insert(k, (cat, list));
            proof {
                assert forall|i: int, j: int|
                    0 <= i < j < groups@.len() implies seq_lt(
                    #[trigger] groups@[i].0@,
                    #[trigger] groups@[j].0@,
                ) by {
                    if j == k {
                    } else if i == k {
                        if j - 1 > k {
                            lemma_seq_lt_transitive(cat@, old_groups[k as int].0@, old_groups[j - 1].0@);
                        }
                    } else if i < k && j > k {
                        if j - 1 > i {
                        }
                    }
                }
                assert forall|i: int| 0 <= i < groups@.len() implies (#[trigger] groups@[i]).1@
                    == prefix.push(m).filter(category_is(groups@[i].0@)) by {
                    if i != k {
                        let oi = if i < k { i } else { i - 1 };
                        lemma_filter_push(prefix, m, category_is::<S>(old_groups[oi].0@));
                        if old_groups[oi].0@ == cat@ {
                            if oi < k {
                                lemma_seq_lt_irreflexive(cat@);
                            }
                        }
                    } else {
                        assert(list@ =~= seq![m]);
                    }
                }
                assert forall|mi: int| 0 <= mi < prefix.push(gm).len() implies has_group(
                    groups@,
                    (#[trigger] prefix.push(gm)[mi]).category@,
                ) by {
                    if mi < prefix.len() {
                        assert(prefix.push(gm)[mi] == prefix[mi]);
                        assert(has_group(old_groups, prefix[mi].category@));
                        let i = choose|i: int|
                            0 <= i < old_groups.len() && (#[trigger] old_groups[i]).0@
                                == prefix[mi].category@;
                        if i < k {
                            assert(groups@[i].0@ == old_groups[i].0@);
                        } else {
                            assert(groups@[i + 1].0@ == old_groups[i].0@);
                        }
                    } else {
                        assert(prefix.push(gm)[mi] == gm);
                        assert(gm.category@ == cat@);
                        assert(groups@[k as int].0@ == cat@);
                    }
                }
            }
        }
        proof {
            taken = taken.push(gm);
            assert(all =~= taken + rest@) by {
                assert(old_rest =~= seq![gm] + rest@);
            }
        }
    }
    groups
}

/// What must be bound to the key that the next key press names.
#[derive(Debug, Clone, PartialEq, Eq)]
pub enum BindTarget {
    /// A key setting of a module: the module's and the setting's names.
    ModuleSetting(String, String),
    /// The hotkey of a module.
    ModuleKey(String),
    /// The key that shows and hides the GUI.
    ToggleKey,
}

/// What the shell reads each frame before the GUI decides.
pub struct FrameInput {
    /// The game window has the input focus.
    pub focused: bool,
    /// The GUI's toggle key is held.
    pub toggle_down: bool,
    /// Escape was pressed in the GUI during the last frame.
    pub escape_pressed: bool,
    /// A key that is held now, if any (looked for while binding).
    pub pressed_key: Option<i32>,
}

/// What the GUI asks the shell to do in a frame.
#[derive(Debug, Clone, PartialEq, Eq)]
pub struct FrameOutcome {
    /// Run the GUI this frame (not when the window lacks focus).
    pub draw: bool,
    /// Give the cursor back to the game.
    pub hide_cursor: bool,
    /// Show the cursor for the GUI.
    pub show_cursor: bool,
    /// Save where the category windows stand.
    pub save_positions: bool,
    /// Place the category windows anew where they were saved.
    pub reset_positions: bool,
    /// A binding completed: what gets the key, and the key.
    pub bound: Option<(BindTarget, i32)>,
}

/// The windows of the GUI that the top bar opens and closes.
#[derive(Debug, Clone, Copy, PartialEq, Eq)]
pub enum Panel {
    Scripts,
    Zulip,
    Packets,
}

/// Where the messages the chat window shows come from.
#[derive(Debug, Clone, PartialEq, Eq)]
pub enum MessageSource {
    /// One topic of a stream: the stream's and the topic's names.
    Topic(String, String),
    /// Every topic of a stream.
    Stream(String),
    /// No stream is selected.
    Nothing,
}

/// A message the chat window sends: stream, topic, content.
#[derive(Debug, Clone, PartialEq, Eq)]
pub struct Outgoing {
    pub stream: String,
    pub topic: String,
    pub content: String,
}

/// The state of the GUI overlay, as plain values.
pub struct ClickGui {
    pub visible: bool,
    pub toggle_key: i32,
    pub prev_toggle_state: bool,
    pub binding: bool,
    pub binding_module: Option<String>,
    pub binding_module_setting: Option<(String, String)>,
    pub expanded_module: Option<String>,
    pub settings_open: bool,
    pub scripts_open: bool,
    pub zulip_open: bool,
    pub packet_mgr_open: bool,
    pub new_script_buf: String,
    pub zulip_msg_buf: String,
    pub script_error: Option<String>,
    pub search_query: String,
    pub new_profile_buf: String,
    pub accent_color: [u8; 3],
    pub zulip_url_buf: String,
    pub zulip_email_buf: String,
    pub zulip_key_buf: String,
    pub zulip_stream_buf: String,
    pub zulip_topic_buf: String,
    pub zulip_in_settings: bool,
    pub zulip_selected_stream: String,
    pub zulip_selected_topic: String,
    pub zulip_expanded_stream: Option<String>,
}

/// The state of a key binding: whether a key is awaited, the module whose
/// hotkey and the module setting that wait for it, and the GUI's toggle key.
pub struct BindView {
    pub binding: bool,
    pub module: Option<String>,
    pub setting: Option<(String, String)>,
    pub toggle_key: i32,
}

/// What the key `key` binds, and the binding state after it: a module
/// setting that waits gets it first, else a module's hotkey, else the
/// GUI's toggle key; either way nothing waits any more.
pub open spec fn bind_spec(b: BindView, key: i32) -> (BindView, BindTarget) {
    match b.setting {
        Some((m, s)) => (BindView { binding: false, setting: None, ..b }, BindTarget::ModuleSetting(m, s)),
        None => match b.module {
            Some(m) => (BindView { binding: false, module: None, ..b }, BindTarget::ModuleKey(m)),
            None => (BindView { binding: false, toggle_key: key, ..b }, BindTarget::ToggleKey),
        },
    }
}

/// The state of the toggle logic: whether the GUI is visible, and whether
/// the toggle key was held at the last look.
pub struct ToggleView {
    pub visible: bool,
    pub prev: bool,
}

/// One look at the toggle key (held or not) and at Escape: a press of the
/// toggle key (held now, not before) flips visibility, and Escape hides a
/// visible GUI. Gives the new state, then whether the GUI was hidden,
/// and whether it was shown.
pub open spec fn toggle_spec(t: ToggleView, down: bool, escape: bool) -> (ToggleView, bool, bool) {
    let flipped = down && !t.prev;
    let v1 = if flipped {
        !t.visible
    } else {
        t.visible
    };
    let hidden_by_key = flipped && !v1;
    let shown = flipped && v1;
    let hidden_by_escape = v1 && escape;
    let v2 = if hidden_by_escape {
        false
    } else {
        v1
    };
    (ToggleView { visible: v2, prev: down }, hidden_by_key || hidden_by_escape, shown)
}

/// A press of the toggle key opens a hidden GUI, and says that it was
/// shown; a second press, after the key was let go, closes it again and
/// says that it was hidden.
pub proof fn lemma_toggle_opens_then_closes(t: ToggleView)
    requires
        !t.visible,
        !t.prev,
    ensures
        ({
            let (t1, hidden1, shown1) = toggle_spec(t, true, false);
            let (t2, _, _) = toggle_spec(t1, false, false);
            let (t3, hidden3, shown3) = toggle_spec(t2, true, false);
            &&& t1.visible && shown1 && !hidden1
            &&& t2.visible
            &&& !t3.visible && hidden3 && !shown3
        }),
{
}

/// Holding the toggle key down flips the GUI once: the looks after the
/// first one, with the key still held and no Escape, change nothing.
pub proof fn lemma_toggle_held_flips_once(t: ToggleView)
    requires
        t.prev,
    ensures
        toggle_spec(t, true, false) == (t, false, false),
{
}

/// Escape always leaves the GUI hidden, whatever the toggle key does.
pub proof fn lemma_escape_hides(t: ToggleView, down: bool)
    ensures
        !toggle_spec(t, down, true).0.visible,
{
}

/// Once a binding ends, no key is awaited, and the key goes to exactly
/// one target: the toggle key changes only when it is the target.
pub proof fn lemma_binding_ends(b: BindView, key: i32)
    ensures
        !bind_spec(b, key).0.binding,
        (bind_spec(b, key).1 is ToggleKey) ==> bind_spec(b, key).0.toggle_key == key,
        !(bind_spec(b, key).1 is ToggleKey) ==> bind_spec(b, key).0.toggle_key == b.toggle_key,
{
}

impl ClickGui {
    /// The GUI as it starts: hidden, every window closed, every buffer
    /// empty, with the toggle key and accent colour of the configuration.
    pub fn new(toggle_key: i32, accent_color: [u8; 3]) -> (r: Self)
        ensures
            !r.visible,
            r.toggle_key == toggle_key,
            !r.prev_toggle_state,
            !r.binding,
            r.binding_module is None,
            r.binding_module_setting is None,
            r.expanded_module is None,
            !r.settings_open && !r.scripts_open && !r.zulip_open && !r.packet_mgr_open,
            r.script_error is None,
            r.accent_color == accent_color,
            r.new_script_buf@.len() == 0,
            r.zulip_msg_buf@.len() == 0,
            r.search_query@.len() == 0,
            r.new_profile_buf@.len() == 0,
            !r.zulip_in_settings,
            r.zulip_selected_stream@.len() == 0,
            r.zulip_selected_topic@.len() == 0,
            r.zulip_expanded_stream is None,
            r.zulip_url_buf@.len() == 0,
            r.zulip_email_buf@.len() == 0,
            r.zulip_key_buf@.len() == 0,
            r.zulip_stream_buf@.len() == 0,
            r.zulip_topic_buf@.len() == 0,
    {
        ClickGui {
            visible: false,
            toggle_key,
            prev_toggle_state: false,
            binding: false,
            binding_module: None,
            binding_module_setting: None,
            expanded_module: None,
            settings_open: false,
            scripts_open: false,
            zulip_open: false,
            packet_mgr_open: false,
            new_script_buf: String::new(),
            zulip_msg_buf: String::new(),
            script_error: None,
            search_query: String::new(),
            new_profile_buf: String::new(),
            accent_color,
            zulip_url_buf: String::new(),
            zulip_email_buf: String::new(),
            zulip_key_buf: String::new(),
            zulip_stream_buf: String::new(),
            zulip_topic_buf: String::new(),
            zulip_in_settings: false,
            zulip_selected_stream: String::new(),
            zulip_selected_topic: String::new(),
            zulip_expanded_stream: None,
        }
    }

    /// The toggle logic's part of the state.
    pub open spec fn toggle_view(&self) -> ToggleView {
        ToggleView { visible: self.visible, prev: self.prev_toggle_state }
    }

    /// The binding's part of the state.
    pub open spec fn bind_view(&self) -> BindView {
        BindView {
            binding: self.binding,
            module: self.binding_module,
            setting: self.binding_module_setting,
            toggle_key: self.toggle_key,
        }
    }

    /// Looks at the toggle key and at Escape (see `toggle_spec`).
    pub fn handle_toggle(&mut self, down: bool, escape: bool) -> (r: (bool, bool))
        ensures
            (final(self).toggle_view(), r.0, r.1) == toggle_spec(old(self).toggle_view(), down, escape),
            *final(self) == (ClickGui {
                visible: final(self).visible,
                prev_toggle_state: final(self).prev_toggle_state,
                ..*old(self)
            }),
    {
        let mut hidden = false;
        let mut shown = false;
        if down && !self.prev_toggle_state {
            self.visible = !self.visible;
            if !self.visible {
                hidden = true;
            } else {
                shown = true;
            }
        }
        self.prev_toggle_state = down;
        if self.visible && escape {
            self.visible = false;
            hidden = true;
        }
        (hidden, shown)
    }

    /// Ends a binding with key `key`: a module setting waiting for a key
    /// gets it first, else a module's hotkey, else the GUI's toggle key.
    fn finish_binding(&mut self, key: i32) -> (r: BindTarget)
        ensures
            (final(self).bind_view(), r) == bind_spec(old(self).bind_view(), key),
            *final(self) == (ClickGui {
                binding: final(self).binding,
                binding_module: final(self).binding_module,
                binding_module_setting: final(self).binding_module_setting,
                toggle_key: final(self).toggle_key,
                ..*old(self)
            }),
    {
        let r = if let Some((m, s)) = self.binding_module_setting.take() {
            BindTarget::ModuleSetting(m, s)
        } else if let Some(m) = self.binding_module.take() {
            BindTarget::ModuleKey(m)
        } else {
            self.toggle_key = key;
            BindTarget::ToggleKey
        };
        self.binding = false;
        r
    }

    /// Flips whether module `name` shows its settings.
    pub fn toggle_expanded(&mut self, name: &str)
        ensures
            *final(self) == (ClickGui {
                expanded_module: final(self).expanded_module,
                ..*old(self)
            }),
            match old(self).expanded_module {
                Some(e) => if e@ == name@ {
                    final(self).expanded_module is None
                } else {
                    final(self).expanded_module matches Some(n) && n@ == name@
                },
                None => final(self).expanded_module matches Some(n) && n@ == name@,
            },
    {
        let same = match &self.expanded_module {
            Some(e) => crate::text::str_eq(e.as_str(), name),
            None => false,
        };
        if same {
            self.expanded_module = None;
        } else {
            self.expanded_module = Some(string_of(name));
        }
    }

    /// Starts binding a key to the hotkey of module `name`.
    pub fn start_module_binding(&mut self, name: &str)
        ensures
            *final(self) == (ClickGui {
                binding: final(self).binding,
                binding_module: final(self).binding_module,
                binding_module_setting: final(self).binding_module_setting,
                ..*old(self)
            }),
            final(self).binding,
            final(self).binding_module matches Some(n) && n@ == name@,
            final(self).binding_module_setting is None,
            final(self).visible == old(self).visible,
            final(self).toggle_key == old(self).toggle_key,
    {
        self.binding = true;
        self.binding_module = Some(string_of(name));
        self.binding_module_setting = None;
    }

    /// Starts binding a key to setting `setting` of module `module`.
    pub fn start_setting_binding(&mut self, module: &str, setting: &str)
        ensures
            *final(self) == (ClickGui {
                binding: final(self).binding,
                binding_module_setting: final(self).binding_module_setting,
                ..*old(self)
            }),
            final(self).binding,
            final(self).binding_module_setting matches Some((m, s)) && m@ == module@ && s@
                == setting@,
            final(self).binding_module == old(self).binding_module,
            final(self).visible == old(self).visible,
            final(self).toggle_key == old(self).toggle_key,
    {
        self.binding = true;
        self.binding_module_setting = Some((string_of(module), string_of(setting)));
    }

    /// Starts (or cancels) binding a key to the GUI's toggle.
    pub fn set_toggle_binding(&mut self, on: bool)
        ensures
            *final(self) == (ClickGui {
                binding: final(self).binding,
                ..*old(self)
            }),
            final(self).binding == on,
            final(self).binding_module == old(self).binding_module,
            final(self).binding_module_setting == old(self).binding_module_setting,
            final(self).toggle_key == old(self).toggle_key,
    {
        self.binding = on;
    }

    /// Whether the GUI waits for the key of module `name`'s hotkey.
    pub open spec fn awaits_module_key(&self, name: Seq<char>) -> bool {
        &&& self.binding
        &&& self.binding_module matches Some(m) && m@ == name
        &&& self.binding_module_setting is None
    }

    /// Whether the GUI waits for the key of setting `setting` of module
    /// `module`.
    pub open spec fn awaits_setting_key(&self, module: Seq<char>, setting: Seq<char>) -> bool {
        &&& self.binding
        &&& self.binding_module_setting matches Some((m, s)) && m@ == module && s@ == setting
    }

    /// The text of a module's bind button after `Bind: `: `...` while its
    /// key is awaited, `None` without a key, the key's name otherwise.
    pub fn module_bind_label(&self, name: &str, key: i32) -> (r: String)
        ensures
            r@ == if self.awaits_module_key(name@) {
                "..."@
            } else if key == 0 {
                "None"@
            } else {
                key_name_spec(key)
            },
    {
        let waiting = self.binding && self.binding_module_setting.is_none() && match &self.binding_module {
            Some(m) => crate::text::str_eq(m.as_str(), name),
            None => false,
        };
        if waiting {
            string_of("...")
        } else if key == 0 {
            string_of("None")
        } else {
            key_name(key)
        }
    }

    /// The text of the button of a key setting: `...` while its key is
    /// awaited, the bound key's name otherwise.
    pub fn setting_bind_label(&self, module: &str, setting: &str, value: i32) -> (r: String)
        ensures
            r@ == if self.awaits_setting_key(module@, setting@) {
                "..."@
            } else {
                key_name_spec(value)
            },
    {
        let waiting = self.binding && match &self.binding_module_setting {
            Some((m, s)) => crate::text::str_eq(m.as_str(), module) && crate::text::str_eq(
                s.as_str(),
                setting,
            ),
            None => false,
        };
        if waiting {
            string_of("...")
        } else {
            key_name(value)
        }
    }

    /// Opens or closes the settings window; opening it loads the chat
    /// settings into the fields.
    pub fn toggle_settings(&mut self, cfg: &ZulipConfig)
        ensures
            *final(self) == (ClickGui {
                settings_open: final(self).settings_open,
                zulip_url_buf: final(self).zulip_url_buf,
                zulip_email_buf: final(self).zulip_email_buf,
                zulip_key_buf: final(self).zulip_key_buf,
                zulip_stream_buf: final(self).zulip_stream_buf,
                zulip_topic_buf: final(self).zulip_topic_buf,
                ..*old(self)
            }),
            final(self).settings_open == !old(self).settings_open,
            final(self).settings_open ==> final(self).zulip_url_buf@ == cfg.url@
                && final(self).zulip_email_buf@ == cfg.email@ && final(self).zulip_key_buf@
                == cfg.api_key@ && final(self).zulip_stream_buf@ == cfg.stream@ && final(self).zulip_topic_buf@ == cfg.topic@,
            !final(self).settings_open ==> final(self).zulip_url_buf == old(self).zulip_url_buf
                && final(self).zulip_email_buf == old(self).zulip_email_buf && final(self).zulip_key_buf == old(self).zulip_key_buf && final(self).zulip_stream_buf == old(self).zulip_stream_buf && final(self).zulip_topic_buf == old(self).zulip_topic_buf,
    {
        self.settings_open = !self.settings_open;
        if self.settings_open {
            self.load_zulip_buffers(cfg);
        }
    }

    /// Loads the chat settings into the fields.
    fn load_zulip_buffers(&mut self, cfg: &ZulipConfig)
        ensures
            *final(self) == (ClickGui {
                zulip_url_buf: final(self).zulip_url_buf,
                zulip_email_buf: final(self).zulip_email_buf,
                zulip_key_buf: final(self).zulip_key_buf,
                zulip_stream_buf: final(self).zulip_stream_buf,
                zulip_topic_buf: final(self).zulip_topic_buf,
                ..*old(self)
            }),
            final(self).zulip_url_buf@ == cfg.url@,
            final(self).zulip_email_buf@ == cfg.email@,
            final(self).zulip_key_buf@ == cfg.api_key@,
            final(self).zulip_stream_buf@ == cfg.stream@,
            final(self).zulip_topic_buf@ == cfg.topic@,
            final(self).settings_open == old(self).settings_open,
            final(self).zulip_in_settings == old(self).zulip_in_settings,
    {
        self.zulip_url_buf = cfg.url.clone();
        self.zulip_email_buf = cfg.email.clone();
        self.zulip_key_buf = cfg.api_key.clone();
        self.zulip_stream_buf = cfg.stream.clone();
        self.zulip_topic_buf = cfg.topic.clone();
    }

    /// Opens or closes one of the other windows.
    pub fn toggle_panel(&mut self, panel: Panel)
        ensures
            *final(self) == (ClickGui {
                scripts_open: final(self).scripts_open,
                zulip_open: final(self).zulip_open,
                packet_mgr_open: final(self).packet_mgr_open,
                ..*old(self)
            }),
            final(self).scripts_open == (if panel == Panel::Scripts {
                !old(self).scripts_open
            } else {
                old(self).scripts_open
            }),
            final(self).zulip_open == (if panel == Panel::Zulip {
                !old(self).zulip_open
            } else {
                old(self).zulip_open
            }),
            final(self).packet_mgr_open == (if panel == Panel::Packets {
                !old(self).packet_mgr_open
            } else {
                old(self).packet_mgr_open
            }),
            final(self).settings_open == old(self).settings_open,
    {
        match panel {
            Panel::Scripts => self.scripts_open = !self.scripts_open,
            Panel::Zulip => self.zulip_open = !self.zulip_open,
            Panel::Packets => self.packet_mgr_open = !self.packet_mgr_open,
        }
    }

    /// The close button of the top bar: hides the GUI.
    pub fn close(&mut self)
        ensures
            *final(self) == (ClickGui {
                visible: final(self).visible,
                ..*old(self)
            }),
            !final(self).visible,
            final(self).prev_toggle_state == old(self).prev_toggle_state,
    {
        self.visible = false;
    }

    /// The chat settings with the fields' texts, each trimmed, in place of
    /// the server, e-mail, key, stream and topic.
    pub fn zulip_config_from_fields(&self, cfg: &ZulipConfig) -> (r: ZulipConfig)
        ensures
            r.enabled == cfg.enabled,
            r.url@ == trim(self.zulip_url_buf@),
            r.email@ == trim(self.zulip_email_buf@),
            r.api_key@ == trim(self.zulip_key_buf@),
            r.stream@ == trim(self.zulip_stream_buf@),
            r.topic@ == trim(self.zulip_topic_buf@),
    {
        ZulipConfig {
            enabled: cfg.enabled,
            url: trim_str(self.zulip_url_buf.as_str()),
            email: trim_str(self.zulip_email_buf.as_str()),
            api_key: trim_str(self.zulip_key_buf.as_str()),
            stream: trim_str(self.zulip_stream_buf.as_str()),
            topic: trim_str(self.zulip_topic_buf.as_str()),
        }
    }

    /// The profile that the create button makes: the field's text,
    /// trimmed, when that is not empty.
    pub fn profile_to_create(&self) -> (r: Option<String>)
        ensures
            match r {
                Some(n) => n@ == trim(self.new_profile_buf@) && n@.len() > 0,
                None => trim(self.new_profile_buf@).len() == 0,
            },
    {
        let name = trim_str(self.new_profile_buf.as_str());
        if name.as_str().is_empty() {
            None
        } else {
            Some(name)
        }
    }

    /// The script that the load button loads: the field's text, trimmed,
    /// when that is not empty.
    pub fn script_to_load(&self) -> (r: Option<String>)
        ensures
            match r {
                Some(n) => n@ == trim(self.new_script_buf@) && n@.len() > 0,
                None => trim(self.new_script_buf@).len() == 0,
            },
    {
        let path = trim_str(self.new_script_buf.as_str());
        if path.as_str().is_empty() {
            None
        } else {
            Some(path)
        }
    }

    /// Takes in how loading a script went: success empties the field and
    /// the error line, failure shows its message.
    pub fn script_loaded(&mut self, result: Result<(), String>)
        ensures
            *final(self) == (ClickGui {
                new_script_buf: final(self).new_script_buf,
                script_error: final(self).script_error,
                ..*old(self)
            }),
            match result {
                Ok(()) => final(self).new_script_buf@.len() == 0 && final(self).script_error is None,
                Err(e) => final(self).script_error == Some(e) && final(self).new_script_buf
                    == old(self).new_script_buf,
            },
    {
        match result {
            Ok(()) => {
                self.new_script_buf = String::new();
                self.script_error = None;
            },
            Err(e) => self.script_error = Some(e),
        }
    }

    /// Where the chat window takes its messages from: a topic when both a
    /// stream and a topic are selected, the whole stream when only a stream
    /// is, nothing otherwise.
    pub fn message_source(&self) -> (r: MessageSource)
        ensures
            if self.zulip_selected_stream@.len() > 0 && self.zulip_selected_topic@.len() > 0 {
                r matches MessageSource::Topic(s, t) && s@ == self.zulip_selected_stream@ && t@
                    == self.zulip_selected_topic@
            } else if self.zulip_selected_stream@.len() > 0 {
                r matches MessageSource::Stream(s) && s@ == self.zulip_selected_stream@
            } else {
                r == MessageSource::Nothing
            },
    {
        let stream_set = !self.zulip_selected_stream.as_str().is_empty();
        let topic_set = !self.zulip_selected_topic.as_str().is_empty();
        if stream_set && topic_set {
            MessageSource::Topic(self.zulip_selected_stream.clone(), self.zulip_selected_topic.clone())
        } else if stream_set {
            MessageSource::Stream(self.zulip_selected_stream.clone())
        } else {
            MessageSource::Nothing
        }
    }

    /// A click on a channel's arrow: it folds an unfolded channel, and
    /// unfolds another, whose topics are then to be fetched (its stream id
    /// is given back).
    pub fn toggle_channel(&mut self, name: &str, stream_id: u64) -> (r: Option<u64>)
        ensures
            *final(self) == (ClickGui {
                zulip_expanded_stream: final(self).zulip_expanded_stream,
                ..*old(self)
            }),
            match old(self).zulip_expanded_stream {
                Some(e) => if e@ == name@ {
                    final(self).zulip_expanded_stream is None && r is None
                } else {
                    final(self).zulip_expanded_stream matches Some(n) && n@ == name@ && r == Some(
                        stream_id,
                    )
                },
                None => final(self).zulip_expanded_stream matches Some(n) && n@ == name@ && r
                    == Some(stream_id),
            },
            final(self).zulip_selected_stream == old(self).zulip_selected_stream,
            final(self).zulip_selected_topic == old(self).zulip_selected_topic,
    {
        let open = match &self.zulip_expanded_stream {
            Some(e) => crate::text::str_eq(e.as_str(), name),
            None => false,
        };
        if open {
            self.zulip_expanded_stream = None;
            None
        } else {
            self.zulip_expanded_stream = Some(string_of(name));
            Some(stream_id)
        }
    }

    /// Selects a whole stream.
    pub fn select_stream(&mut self, name: &str)
        ensures
            *final(self) == (ClickGui {
                zulip_selected_stream: final(self).zulip_selected_stream,
                zulip_selected_topic: final(self).zulip_selected_topic,
                ..*old(self)
            }),
            final(self).zulip_selected_stream@ == name@,
            final(self).zulip_selected_topic@.len() == 0,
            final(self).zulip_expanded_stream == old(self).zulip_expanded_stream,
    {
        self.zulip_selected_stream = string_of(name);
        self.zulip_selected_topic = String::new();
    }

    /// Selects one topic of a stream.
    pub fn select_topic(&mut self, stream: &str, topic: &str)
        ensures
            *final(self) == (ClickGui {
                zulip_selected_stream: final(self).zulip_selected_stream,
                zulip_selected_topic: final(self).zulip_selected_topic,
                ..*old(self)
            }),
            final(self).zulip_selected_stream@ == stream@,
            final(self).zulip_selected_topic@ == topic@,
            final(self).zulip_expanded_stream == old(self).zulip_expanded_stream,
    {
        self.zulip_selected_stream = string_of(stream);
        self.zulip_selected_topic = string_of(topic);
    }

    /// The message that the send button sends: the composed text, trimmed,
    /// to the selected stream, under the selected topic or, with none
    /// selected, the topic field's text trimmed; nothing when either text
    /// is empty.
    pub fn compose(&self) -> (r: Option<Outgoing>)
        ensures
            ({
                let content = trim(self.zulip_msg_buf@);
                let topic = if self.zulip_selected_topic@.len() == 0 {
                    trim(self.zulip_topic_buf@)
                } else {
                    self.zulip_selected_topic@
                };
                match r {
                    Some(o) => content.len() > 0 && topic.len() > 0 && o.stream@
                        == self.zulip_selected_stream@ && o.topic@ == topic && o.content@
                        == content,
                    None => content.len() == 0 || topic.len() == 0,
                }
            }),
    {
        let content = trim_str(self.zulip_msg_buf.as_str());
        let topic = if self.zulip_selected_topic.as_str().is_empty() {
            trim_str(self.zulip_topic_buf.as_str())
        } else {
            self.zulip_selected_topic.clone()
        };
        if !content.as_str().is_empty() && !topic.as_str().is_empty() {
            Some(Outgoing { stream: self.zulip_selected_stream.clone(), topic, content })
        } else {
            None
        }
    }

    /// After a message went out: the compose field is emptied.
    pub fn message_sent(&mut self)
        ensures
            *final(self) == (ClickGui {
                zulip_msg_buf: final(self).zulip_msg_buf,
                ..*old(self)
            }),
            final(self).zulip_msg_buf@.len() == 0,
            final(self).zulip_selected_stream == old(self).zulip_selected_stream,
            final(self).zulip_selected_topic == old(self).zulip_selected_topic,
    {
        self.zulip_msg_buf = String::new();
    }

    /// Opens or closes the chat window's settings; opening loads the chat
    /// settings into the fields.
    pub fn toggle_zulip_settings(&mut self, cfg: &ZulipConfig)
        ensures
            *final(self) == (ClickGui {
                zulip_in_settings: final(self).zulip_in_settings,
                zulip_url_buf: final(self).zulip_url_buf,
                zulip_email_buf: final(self).zulip_email_buf,
                zulip_key_buf: final(self).zulip_key_buf,
                zulip_stream_buf: final(self).zulip_stream_buf,
                zulip_topic_buf: final(self).zulip_topic_buf,
                ..*old(self)
            }),
            final(self).zulip_in_settings == !old(self).zulip_in_settings,
            final(self).zulip_in_settings ==> final(self).zulip_url_buf@ == cfg.url@
                && final(self).zulip_email_buf@ == cfg.email@ && final(self).zulip_key_buf@
                == cfg.api_key@ && final(self).zulip_stream_buf@ == cfg.stream@ && final(self).zulip_topic_buf@ == cfg.topic@,
            !final(self).zulip_in_settings ==> final(self).zulip_url_buf == old(self).zulip_url_buf && final(self).zulip_email_buf == old(self).zulip_email_buf
                && final(self).zulip_key_buf == old(self).zulip_key_buf && final(self).zulip_stream_buf == old(self).zulip_stream_buf && final(self).zulip_topic_buf
                == old(self).zulip_topic_buf,
    {
        self.zulip_in_settings = !self.zulip_in_settings;
        if self.zulip_in_settings {
            self.load_zulip_buffers(cfg);
        }
    }

    /// The apply button of the chat window's settings: gives the settings
    /// to store (see `zulip_config_from_fields`) and leaves the settings.
    pub fn apply_zulip_settings(&mut self, cfg: &ZulipConfig) -> (r: ZulipConfig)
        ensures
            *final(self) == (ClickGui {
                zulip_in_settings: final(self).zulip_in_settings,
                ..*old(self)
            }),
            !final(self).zulip_in_settings,
            r.enabled == cfg.enabled,
            r.url@ == trim(old(self).zulip_url_buf@),
            r.email@ == trim(old(self).zulip_email_buf@),
            r.api_key@ == trim(old(self).zulip_key_buf@),
            r.stream@ == trim(old(self).zulip_stream_buf@),
            r.topic@ == trim(old(self).zulip_topic_buf@),
    {
        let r = self.zulip_config_from_fields(cfg);
        self.zulip_in_settings = false;
        r
    }

    /// The text of a module row's tooltip.
    pub fn module_hover_text(description: &str) -> (r: String)
        ensures
            r@ == if description@.len() == 0 {
                "No description (Right-click for settings)"@
            } else {
                description@ + "\n(Right-click for settings)"@
            },
    {
        if description.is_empty() {
            string_of("No description (Right-click for settings)")
        } else {
            concat_str(description, "\n(Right-click for settings)")
        }
    }
}

/// The decisions of a frame, before anything is drawn. A window without
/// focus hides a visible GUI and draws nothing. Otherwise the toggle key
/// and Escape are looked at (`toggle_spec`), a visible GUI shows the
/// cursor, and a visible GUI that waits for a key binds the held one.
pub fn frame(gui: &mut ClickGui, input: &FrameInput) -> (r: FrameOutcome)
    ensures
        *final(gui) == (ClickGui {
            visible: final(gui).visible,
            prev_toggle_state: final(gui).prev_toggle_state,
            binding: final(gui).binding,
            binding_module: final(gui).binding_module,
            binding_module_setting: final(gui).binding_module_setting,
            toggle_key: final(gui).toggle_key,
            ..*old(gui)
        }),
        !input.focused ==> r.draw == false && r.hide_cursor == old(gui).visible
            && !r.show_cursor && !r.save_positions && !r.reset_positions && r.bound is None
            && !final(gui).visible && final(gui).prev_toggle_state == old(gui).prev_toggle_state
            && final(gui).bind_view() == old(gui).bind_view(),
        input.focused ==> {
            let (t, hidden, shown) = toggle_spec(
                old(gui).toggle_view(),
                input.toggle_down,
                input.escape_pressed,
            );
            &&& r.draw
            &&& final(gui).prev_toggle_state == t.prev
            &&& final(gui).visible == t.visible
            &&& r.hide_cursor == hidden
            &&& r.save_positions == hidden
            &&& r.reset_positions == shown
            &&& r.show_cursor == t.visible
            &&& (r.bound is Some <==> t.visible && old(gui).binding
                && input.pressed_key is Some)
            &&& (r.bound is Some ==> (r.bound->0).1 == input.pressed_key->0 && (
                final(gui).bind_view(),
                (r.bound->0).0,
            ) == bind_spec(old(gui).bind_view(), input.pressed_key->0))
            &&& (r.bound is None ==> final(gui).bind_view() == old(gui).bind_view())
        },
{
    let mut out = FrameOutcome {
        draw: false,
        hide_cursor: false,
        show_cursor: false,
        save_positions: false,
        reset_positions: false,
        bound: None,
    };
    if !input.focused {
        if gui.visible {
            gui.visible = false;
            out.hide_cursor = true;
        }
        return out;
    }
    let (hidden, shown) = gui.handle_toggle(input.toggle_down, input.escape_pressed);
    out.draw = true;
    out.hide_cursor = hidden;
    out.save_positions = hidden;
    out.reset_positions = shown;
    out.show_cursor = gui.visible;
    if gui.visible && gui.binding {
        if let Some(key) = input.pressed_key {
            let target = gui.finish_binding(key);
            out.bound = Some((target, key));
        }
    }
    out
}

/// Whether module `m` matches search text `q` (already trimmed and
/// lower-cased): its lower-cased name holds it.
pub open spec fn matches_query<S>(m: ModuleInfo<S>, q: Seq<char>) -> bool {
    contains_seq(lowercase_of(m.name@), q)
}

/// The places (group, module) of the modules of `groups`, group by group
/// and in order within a group, whose names match `q`, over the first `n`
/// groups.
pub open spec fn search_hits<S>(
    groups: Seq<(String, Vec<ModuleInfo<S>>)>,
    q: Seq<char>,
    n: int,
) -> Seq<(int, int)>
    decreases n,
{
    if n <= 0 {
        Seq::empty()
    } else {
        search_hits(groups, q, n - 1) + hits_in(groups[n - 1].1@, q, n - 1, groups[n - 1].1@.len()
            as int)
    }
}

/// The places `(g, i)`, in order, of the first `n` modules of `ms` whose
/// names match `q`.
pub open spec fn hits_in<S>(ms: Seq<ModuleInfo<S>>, q: Seq<char>, g: int, n: int) -> Seq<(int, int)>
    decreases n,
{
    if n <= 0 {
        Seq::empty()
    } else if matches_query(ms[n - 1], q) {
        hits_in(ms, q, g, n - 1).push((g, n - 1))
    } else {
        hits_in(ms, q, g, n - 1)
    }
}

/// What the module windows show for search text `query`: with the text
/// trimmed empty, the category windows (`None`); else the places of the
/// modules whose lower-cased names hold the trimmed, lower-cased text.
pub fn search_modules<S>(query: &str, groups: &Vec<(String, Vec<ModuleInfo<S>>)>) -> (r: Option<
    Vec<(usize, usize)>,
>)
    ensures
        match r {
            None => trim(query@).len() == 0,
            Some(v) => trim(query@).len() > 0 && v@.map_values(|p: (usize, usize)| (p.0 as int, p.1 as int))
                == search_hits(groups@, lowercase_of(trim(query@)), groups@.len() as int),
        },
{
    let t = trim_str(query);
    if t.as_str().is_empty() {
        return None;
    }
    let q = to_lowercase(t.as_str());
    let mut out: Vec<(usize, usize)> = Vec::new();
    let mut g: usize = 0;
    while g < groups.len()
        invariant
            g <= groups.len(),
            q@ == lowercase_of(trim(query@)),
            out@.map_values(|p: (usize, usize)| (p.0 as int, p.1 as int)) == search_hits(
                groups@,
                q@,
                g as int,
            ),
        decreases groups.len() - g,
    {
        let ms = &groups[g].1;
        let ghost before = out@.map_values(|p: (usize, usize)| (p.0 as int, p.1 as int));
        let mut i: usize = 0;
        while i < ms.len()
            invariant
                i <= ms.len(),
                g < groups.len(),
                ms@ == groups@[g as int].1@,
                q@ == lowercase_of(trim(query@)),
                out@.map_values(|p: (usize, usize)| (p.0 as int, p.1 as int)) == before + hits_in(
                    ms@,
                    q@,
                    g as int,
                    i as int,
                ),
            decreases ms.len() - i,
        {
            let ln = to_lowercase(ms[i].name.as_str());
            let ghost old_out = out@;
            if contains_str(ln.as_str(), q.as_str()) {
                assert(matches_query(ms@[i as int], q@));
                out.push((g, i));
                assert(out@ == old_out.push((g, i)));
                assert(out@.map_values(|p: (usize, usize)| (p.0 as int, p.1 as int)) =~= old_out.map_values(
                    |p: (usize, usize)| (p.0 as int, p.1 as int),
                ).push((g as int, i as int)));
                assert(out@.map_values(|p: (usize, usize)| (p.0 as int, p.1 as int)) =~= before
                    + hits_in(ms@, q@, g as int, i + 1));
            } else {
                assert(out@.map_values(|p: (usize, usize)| (p.0 as int, p.1 as int)) =~= before
                    + hits_in(ms@, q@, g as int, i + 1));
            }
            i += 1;
        }
        g += 1;
    }
    Some(out)
}

} // verus!
