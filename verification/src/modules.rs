//! The Lua module registry as the GUI and the hotkeys see it, and what
//! enabling, binding and applying a profile do to it.
use vstd::prelude::*;
use crate::keyed::{key_index, lemma_key_index, lookup, position_of_key};
use crate::text::{str_eq, string_of, views};

verus! {

/// A Lua module as the GUI lists it. The kind of its settings is left to
/// the caller: the registry logic never reads them.
pub struct ModuleInfo<S> {
    pub name: String,
    pub description: String,
    pub category: String,
    pub enabled: bool,
    /// GLFW key code for hotkey toggle, 0 = no binding.
    pub key: i32,
    pub settings: Vec<S>,
}

/// The script callback that a change of a module's state runs.
#[derive(Debug, Clone, Copy, PartialEq, Eq, Structural)]
pub enum ModuleCallback {
    OnEnable,
    OnDisable,
}

impl ModuleCallback {
    /// The callback for a module that becomes enabled (or disabled).
    pub open spec fn for_state(enabled: bool) -> ModuleCallback {
        if enabled {
            ModuleCallback::OnEnable
        } else {
            ModuleCallback::OnDisable
        }
    }
}

/// The first position at or after `i` of a module named `name`.
pub open spec fn module_index_from<S>(ms: Seq<ModuleInfo<S>>, name: Seq<char>, i: int) -> Option<int>
    decreases ms.len() - i,
{
    if i < 0 || i >= ms.len() {
        None
    } else if ms[i].name@ == name {
        Some(i)
    } else {
        module_index_from(ms, name, i + 1)
    }
}

pub proof fn lemma_module_index_from<S>(ms: Seq<ModuleInfo<S>>, name: Seq<char>, i: int)
    requires
        0 <= i,
    ensures
        module_index_from(ms, name, i) matches Some(k) ==> i <= k < ms.len() && ms[k].name@ == name,
    decreases ms.len() - i,
{
    if i < ms.len() && ms[i].name@ != name {
        lemma_module_index_from(ms, name, i + 1);
    }
}

/// Where the first module named `name` stands.
fn find_module<S>(ms: &Vec<ModuleInfo<S>>, name: &str) -> (r: Option<usize>)
    ensures
        r matches Some(j) ==> module_index_from(ms@, name@, 0) == Some(j as int),
        r is None ==> module_index_from(ms@, name@, 0) is None,
{
    let mut i: usize = 0;
    while i < ms.len()
        invariant
            i <= ms.len(),
            module_index_from(ms@, name@, 0) == module_index_from(ms@, name@, i as int),
        decreases ms.len() - i,
    {
        if str_eq(ms[i].name.as_str(), name) {
            return Some(i);
        }
        i += 1;
    }
    None
}

/// `m` with its enabled state set.
pub open spec fn with_enabled<S>(m: ModuleInfo<S>, enabled: bool) -> ModuleInfo<S> {
    ModuleInfo { enabled: enabled, ..m }
}

/// `m` with its hotkey set.
pub open spec fn with_key<S>(m: ModuleInfo<S>, key: i32) -> ModuleInfo<S> {
    ModuleInfo { key: key, ..m }
}

/// Sets module `i`'s enabled state.
fn put_enabled<S>(ms: &mut Vec<ModuleInfo<S>>, i: usize, enabled: bool)
    requires
        i < old(ms).len(),
    ensures
        final(ms)@ == old(ms)@.update(i as int, with_enabled(old(ms)@[i as int], enabled)),
{
    let mut m = ms.remove(i);
    m.enabled = enabled;
    ms.insert(i, m);
}

/// Sets module `i`'s hotkey.
fn put_key<S>(ms: &mut Vec<ModuleInfo<S>>, i: usize, key: i32)
    requires
        i < old(ms).len(),
    ensures
        final(ms)@ == old(ms)@.update(i as int, with_key(old(ms)@[i as int], key)),
{
    let mut m = ms.remove(i);
    m.key = key;
    ms.insert(i, m);
}

/// Enables or disables the first module named `name`. When its state
/// changes, gives the callback to run; a missing module, or one already in
/// that state, is left alone.
pub fn set_module_enabled<S>(ms: &mut Vec<ModuleInfo<S>>, name: &str, enabled: bool) -> (r: Option<
    ModuleCallback,
>)
    ensures
        final(ms)@ == enabled_set(old(ms)@, name@, enabled),
        r == enable_callback(old(ms)@, name@, enabled),
{
    proof {
        lemma_module_index_from(ms@, name@, 0);
    }
    let found = find_module(ms, name);
    if found.is_none() {
        return None;
    }
    let i = found.unwrap();
    let cur = ms[i].enabled;
    if cur == enabled {
        return None;
    }
    put_enabled(ms, i, enabled);
    Some(if enabled { ModuleCallback::OnEnable } else { ModuleCallback::OnDisable })
}

/// The modules after `set_module_enabled(name, enabled)`: the first module
/// named `name` gets that state; nothing else changes.
pub open spec fn enabled_set<S>(ms: Seq<ModuleInfo<S>>, name: Seq<char>, enabled: bool) -> Seq<
    ModuleInfo<S>,
> {
    match module_index_from(ms, name, 0) {
        Some(i) => if ms[i].enabled == enabled {
            ms
        } else {
            ms.update(i, with_enabled(ms[i], enabled))
        },
        None => ms,
    }
}

/// The callback that `set_module_enabled(name, enabled)` runs: the one for
/// the new state, when the first module named `name` changes state.
pub open spec fn enable_callback<S>(ms: Seq<ModuleInfo<S>>, name: Seq<char>, enabled: bool) -> Option<
    ModuleCallback,
> {
    match module_index_from(ms, name, 0) {
        Some(i) => if ms[i].enabled == enabled {
            None
        } else {
            Some(ModuleCallback::for_state(enabled))
        },
        None => None,
    }
}

proof fn lemma_index_same_names<S>(a: Seq<ModuleInfo<S>>, b: Seq<ModuleInfo<S>>, name: Seq<char>, i: int)
    requires
        0 <= i,
        a.len() == b.len(),
        forall|k: int| 0 <= k < a.len() ==> (#[trigger] a[k]).name == b[k].name,
    ensures
        module_index_from(a, name, i) == module_index_from(b, name, i),
    decreases a.len() - i,
{
    if i < a.len() {
        assert(a[i].name == b[i].name);
        lemma_index_same_names(a, b, name, i + 1);
    }
}

/// Enabling (or disabling) a module twice is doing it once: the second
/// call changes nothing and runs no callback.
pub proof fn lemma_set_enabled_twice<S>(ms: Seq<ModuleInfo<S>>, name: Seq<char>, enabled: bool)
    ensures
        enabled_set(enabled_set(ms, name, enabled), name, enabled) == enabled_set(ms, name, enabled),
        enable_callback(enabled_set(ms, name, enabled), name, enabled) is None,
{
    let once = enabled_set(ms, name, enabled);
    lemma_module_index_from(ms, name, 0);
    assert forall|k: int| 0 <= k < ms.len() implies (#[trigger] ms[k]).name == once[k].name by {}
    lemma_index_same_names(ms, once, name, 0);
}

/// Binds `key` to the first module named `name`; gives whether there was
/// one (whose binding is then also stored in the profile).
pub fn set_module_key<S>(ms: &mut Vec<ModuleInfo<S>>, name: &str, key: i32) -> (r: bool)
    ensures
        match module_index_from(old(ms)@, name@, 0) {
            Some(i) => r && final(ms)@ == old(ms)@.update(i, with_key(old(ms)@[i], key)),
            None => !r && final(ms)@ == old(ms)@,
        },
{
    proof {
        lemma_module_index_from(ms@, name@, 0);
    }
    match find_module(ms, name) {
        Some(i) => {
            put_key(ms, i, key);
            true
        },
        None => false,
    }
}

/// A module as a profile leaves it: the profile's enabled state and hotkey
/// for its name, where the profile has them.
pub open spec fn configured<S>(
    m: ModuleInfo<S>,
    enabled: Seq<(String, bool)>,
    keys: Seq<(String, i32)>,
) -> ModuleInfo<S> {
    let m1 = match lookup(enabled, m.name@) {
        Some(e) => with_enabled(m, e),
        None => m,
    };
    match lookup(keys, m.name@) {
        Some(k) => with_key(m1, k),
        None => m1,
    }
}

/// The callbacks that applying a profile runs over the first `n` modules:
/// for each module whose enabled state the profile changes, its position
/// and the callback of its new state.
pub open spec fn config_callbacks<S>(
    ms: Seq<ModuleInfo<S>>,
    enabled: Seq<(String, bool)>,
    n: int,
) -> Seq<(int, ModuleCallback)>
    decreases n,
{
    if n <= 0 {
        Seq::empty()
    } else {
        let r = config_callbacks(ms, enabled, n - 1);
        match lookup(enabled, ms[n - 1].name@) {
            Some(e) => if e != ms[n - 1].enabled {
                r.push((n - 1, ModuleCallback::for_state(e)))
            } else {
                r
            },
            None => r,
        }
    }
}

/// Applies a profile's enabled states and hotkeys (by module name) to the
/// modules; gives the callbacks to run, in order.
pub fn apply_config<S>(
    ms: &mut Vec<ModuleInfo<S>>,
    enabled: &Vec<(String, bool)>,
    keys: &Vec<(String, i32)>,
) -> (r: Vec<(usize, ModuleCallback)>)
    ensures
        final(ms)@.len() == old(ms)@.len(),
        forall|i: int|
            0 <= i < old(ms)@.len() ==> #[trigger] final(ms)@[i] == configured(
                old(ms)@[i],
                enabled@,
                keys@,
            ),
        r@.map_values(|p: (usize, ModuleCallback)| (p.0 as int, p.1)) == config_callbacks(
            old(ms)@,
            enabled@,
            old(ms)@.len() as int,
        ),
{
    let ghost start = ms@;
    let mut out: Vec<(usize, ModuleCallback)> = Vec::new();
    let mut i: usize = 0;
    while i < ms.len()
        invariant
            i <= ms.len(),
            ms@.len() == start.len(),
            forall|j: int| 0 <= j < i ==> #[trigger] ms@[j] == configured(start[j], enabled@, keys@),
            forall|j: int| i <= j < ms@.len() ==> #[trigger] ms@[j] == start[j],
            out@.map_values(|p: (usize, ModuleCallback)| (p.0 as int, p.1)) == config_callbacks(
                start,
                enabled@,
                i as int,
            ),
        decreases ms.len() - i,
    {
        let name = ms[i].name.clone();
        let ghost before = out@;
        proof {
            lemma_key_index(enabled@, name@);
            lemma_key_index(keys@, name@);
        }
        match position_of_key(enabled, &name) {
            Some(p) => {
                let e = enabled[p].1;
                if ms[i].enabled != e {
                    put_enabled(ms, i, e);
                    out.push((i, if e { ModuleCallback::OnEnable } else { ModuleCallback::OnDisable }));
                    assert(out@.map_values(|p: (usize, ModuleCallback)| (p.0 as int, p.1))
                        =~= before.map_values(|p: (usize, ModuleCallback)| (p.0 as int, p.1)).push(
                        (i as int, ModuleCallback::for_state(e)),
                    ));
                }
            },
            None => {},
        }
        match position_of_key(keys, &name) {
            Some(p) => {
                let k = keys[p].1;
                put_key(ms, i, k);
            },
            None => {},
        }
        proof {
            assert(ms@[i as int] == configured(start[i as int], enabled@, keys@));
        }
        i += 1;
    }
    out
}

/// The scripts loaded so far, each path once, in the order of loading.
pub struct ScriptList {
    pub paths: Vec<String>,
}

impl ScriptList {
    /// No script loaded.
    pub fn new() -> (r: Self)
        ensures
            r.paths@.len() == 0,
    {
        ScriptList { paths: Vec::new() }
    }

    /// Records a script that loaded: added at the end unless listed
    /// already.
    pub fn record_loaded(&mut self, path: &str)
        ensures
            views(final(self).paths@) == if views(old(self).paths@).contains(path@) {
                views(old(self).paths@)
            } else {
                views(old(self).paths@).push(path@)
            },
    {
        let mut k: usize = 0;
        while k < self.paths.len()
            invariant
                k <= self.paths.len(),
                self.paths@ == old(self).paths@,
                forall|j: int| 0 <= j < k ==> #[trigger] views(self.paths@)[j] != path@,
            decreases self.paths.len() - k,
        {
            assert(views(self.paths@)[k as int] == self.paths@[k as int]@);
            if str_eq(self.paths[k].as_str(), path) {
                assert(views(self.paths@).contains(path@));
                return;
            }
            k += 1;
        }
        let p = string_of(path);
        proof {
            crate::text::lemma_views_push(self.paths@, p);
        }
        self.paths.push(p);
    }

    /// The listed scripts.
    pub fn get_loaded_scripts(&self) -> (r: Vec<String>)
        ensures
            r@ == self.paths@,
    {
        crate::text::clone_strings(&self.paths)
    }
}

/// Drops every listing of `path`, keeping the others in order.
pub fn forget_script(list: &mut ScriptList, path: &str)
    ensures
        views(final(list).paths@) == views(old(list).paths@).filter(|p: Seq<char>| p != path@),
{
    let ghost all = views(list.paths@);
    let mut kept: Vec<String> = Vec::new();
    let mut k: usize = 0;
    while k < list.paths.len()
        invariant
            k <= list.paths.len(),
            all == views(list.paths@),
            views(kept@) == all.take(k as int).filter(|p: Seq<char>| p != path@),
        decreases list.paths.len() - k,
    {
        assert(all.take(k + 1).drop_last() =~= all.take(k as int));
        assert(all[k as int] == list.paths@[k as int]@);
        if !str_eq(list.paths[k].as_str(), path) {
            let p = list.paths[k].clone();
            proof {
                crate::text::lemma_views_push(kept@, p);
                crate::gui::lemma_filter_push(all.take(k as int), all[k as int], |p: Seq<char>| p != path@);
                assert(all.take(k + 1) == all.take(k as int).push(all[k as int]));
            }
            kept.push(p);
        } else {
            proof {
                crate::gui::lemma_filter_push(all.take(k as int), all[k as int], |p: Seq<char>| p != path@);
                assert(all.take(k + 1) == all.take(k as int).push(all[k as int]));
            }
        }
        k += 1;
    }
    assert(all.take(k as int) =~= all);
    list.paths = kept;
}

/// Applying a profile twice is applying it once: the modules come out the
/// same and the second pass runs no callback.
pub proof fn lemma_apply_config_idempotent<S>(
    ms: Seq<ModuleInfo<S>>,
    enabled: Seq<(String, bool)>,
    keys: Seq<(String, i32)>,
)
    ensures
        ms.map_values(|m: ModuleInfo<S>| configured(configured(m, enabled, keys), enabled, keys))
            == ms.map_values(|m: ModuleInfo<S>| configured(m, enabled, keys)),
        config_callbacks(
            ms.map_values(|m: ModuleInfo<S>| configured(m, enabled, keys)),
            enabled,
            ms.len() as int,
        ) == Seq::<(int, ModuleCallback)>::empty(),
{
    let once = ms.map_values(|m: ModuleInfo<S>| configured(m, enabled, keys));
    assert(ms.map_values(|m: ModuleInfo<S>| configured(configured(m, enabled, keys), enabled, keys))
        =~= once);
    lemma_no_callbacks_after_config(ms, enabled, keys, ms.len() as int);
}

proof fn lemma_no_callbacks_after_config<S>(
    ms: Seq<ModuleInfo<S>>,
    enabled: Seq<(String, bool)>,
    keys: Seq<(String, i32)>,
    n: int,
)
    requires
        n <= ms.len(),
    ensures
        config_callbacks(
            ms.map_values(|m: ModuleInfo<S>| configured(m, enabled, keys)),
            enabled,
            n,
        ) == Seq::<(int, ModuleCallback)>::empty(),
    decreases n,
{
    if n > 0 {
        lemma_no_callbacks_after_config(ms, enabled, keys, n - 1);
        let once = ms.map_values(|m: ModuleInfo<S>| configured(m, enabled, keys));
        assert(once[n - 1] == configured(ms[n - 1], enabled, keys));
    }
}

/// No path is listed twice.
pub open spec fn no_repeats(s: Seq<Seq<char>>) -> bool {
    forall|i: int, j: int| #![trigger s[i], s[j]] 0 <= i < j < s.len() ==> s[i] != s[j]
}

/// Recording a loaded script never lists a path twice.
pub proof fn lemma_record_keeps_distinct(s: Seq<Seq<char>>, path: Seq<char>)
    requires
        no_repeats(s),
    ensures
        no_repeats(if s.contains(path) { s } else { s.push(path) }),
{
    if !s.contains(path) {
        let t = s.push(path);
        assert forall|i: int, j: int| 0 <= i < j < t.len() implies #[trigger] t[i] != #[trigger] t[j] by {
            if j == s.len() {
                assert(t[i] == s[i]);
            } else {
                assert(t[i] == s[i] && t[j] == s[j]);
            }
        }
    }
}

/// Forgetting a script drops it from the list, whatever it held.
pub proof fn lemma_forget_removes(s: Seq<Seq<char>>, path: Seq<char>)
    ensures
        !s.filter(|p: Seq<char>| p != path).contains(path),
{
    let f = |p: Seq<char>| p != path;
    if s.filter(f).contains(path) {
        let i = choose|i: int| 0 <= i < s.filter(f).len() && s.filter(f)[i] == path;
        s.filter_lemma(f);
        assert(f(s.filter(f)[i]));
    }
}

/// The name a module goes by: its own, or `module_<i>` (its place in the
/// list, from 1) when it has none.
pub open spec fn module_name_spec(name: Option<Seq<char>>, index: usize) -> Seq<char> {
    match name {
        Some(n) => n,
        None => "module_"@ + crate::text::digits_of(index as nat),
    }
}

/// A module as the registry lists it, from what its script table holds:
/// the name (or `module_<i>`), the description (or none), the category
/// (or `Misc`), whether it is enabled (or not), its hotkey (or 0).
pub fn module_from_table<S>(
    name: Option<String>,
    description: Option<String>,
    category: Option<String>,
    enabled: Option<bool>,
    key: Option<i32>,
    index: usize,
    settings: Vec<S>,
) -> (m: ModuleInfo<S>)
    ensures
        m.name@ == module_name_spec(
            match name {
                Some(n) => Some(n@),
                None => None,
            },
            index,
        ),
        m.description@ == match description {
            Some(d) => d@,
            None => Seq::<char>::empty(),
        },
        m.category@ == match category {
            Some(c) => c@,
            None => "Misc"@,
        },
        m.enabled == match enabled {
            Some(e) => e,
            None => false,
        },
        m.key == match key {
            Some(k) => k,
            None => 0i32,
        },
        m.settings == settings,
{
    let name = match name {
        Some(n) => n,
        None => {
            let p = crate::text::chars_of("module_");
            let d = crate::text::u64_digits(index as u64);
            crate::text::string_from_chars(crate::text::concat_chars(p.as_slice(), d.as_slice()))
        },
    };
    ModuleInfo {
        name,
        description: match description {
            Some(d) => d,
            None => String::new(),
        },
        category: match category {
            Some(c) => c,
            None => string_of("Misc"),
        },
        enabled: match enabled {
            Some(e) => e,
            None => false,
        },
        key: match key {
            Some(k) => k,
            None => 0,
        },
        settings,
    }
}

/// What a setting's value is in the script table.
#[derive(Debug, Clone, Copy, PartialEq, Eq, Structural)]
pub enum LuaValueKind {
    Boolean,
    Number,
    Str,
    Integer,
    Other,
}

/// What kind of setting the GUI shows for a value.
#[derive(Debug, Clone, Copy, PartialEq, Eq, Structural)]
pub enum SettingKind {
    Boolean,
    Number,
    Keybind,
    Enum,
}

/// The kind of setting a script value becomes, given the `type` its
/// `_settings_meta` entry names (if any): the metadata decides. A boolean
/// is a switch; a number, integer or not, is a key binding where the meta
/// says `keybind`, else a slider (bounded by the meta's `min` and `max`);
/// a string is a choice only where the meta says `enum`, else it is not
/// shown; anything else is not shown.
pub open spec fn setting_kind_spec(value: LuaValueKind, meta_type: Option<Seq<char>>) -> Option<SettingKind> {
    match value {
        LuaValueKind::Boolean => Some(SettingKind::Boolean),
        LuaValueKind::Number | LuaValueKind::Integer => if meta_type == Some("keybind"@) {
            Some(SettingKind::Keybind)
        } else {
            Some(SettingKind::Number)
        },
        LuaValueKind::Str => if meta_type == Some("enum"@) {
            Some(SettingKind::Enum)
        } else {
            None
        },
        LuaValueKind::Other => None,
    }
}

/// The kind of setting a script value becomes (see `setting_kind_spec`).
pub fn setting_kind(value: LuaValueKind, meta_type: Option<&str>) -> (r: Option<SettingKind>)
    ensures
        r == setting_kind_spec(
            value,
            match meta_type {
                Some(t) => Some(t@),
                None => None,
            },
        ),
{
    match value {
        LuaValueKind::Boolean => Some(SettingKind::Boolean),
        LuaValueKind::Number | LuaValueKind::Integer => {
            let keybind = match meta_type {
                Some(t) => str_eq(t, "keybind"),
                None => false,
            };
            if keybind {
                Some(SettingKind::Keybind)
            } else {
                Some(SettingKind::Number)
            }
        },
        LuaValueKind::Str => {
            let is_enum = match meta_type {
                Some(t) => str_eq(t, "enum"),
                None => false,
            };
            if is_enum {
                Some(SettingKind::Enum)
            } else {
                None
            }
        },
        LuaValueKind::Other => None,
    }
}

} // verus!
