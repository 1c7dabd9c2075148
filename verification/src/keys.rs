//! GLFW key codes, their names, and the hotkeys that toggle modules.
use vstd::prelude::*;
use std::collections::HashMap;
use crate::modules::ModuleInfo;
use crate::text::{chars_of, concat_chars, decimal_of, i64_decimal, string_from_chars};

verus! {

pub const KEY_RIGHT_SHIFT: i32 = 344;
pub const KEY_RIGHT_CTRL: i32 = 345;
pub const KEY_RIGHT_ALT: i32 = 346;
pub const KEY_LEFT_SHIFT: i32 = 340;
pub const KEY_LEFT_CTRL: i32 = 341;
pub const KEY_LEFT_ALT: i32 = 342;
pub const KEY_F1: i32 = 290;
pub const KEY_F12: i32 = 301;

/// The name shown for GLFW key code `key`: a fixed name for the keys that
/// have one, the character itself for letters and digits, `Key(<code>)`
/// otherwise.
pub open spec fn key_name_spec(key: i32) -> Seq<char> {
    if key == 0 {
        "None"@
    } else if key == 32 {
        "Space"@
    } else if key == 256 {
        "Escape"@
    } else if key == 257 {
        "Enter"@
    } else if key == 258 {
        "Tab"@
    } else if key == 259 {
        "Backspace"@
    } else if key == KEY_LEFT_SHIFT {
        "Left Shift"@
    } else if key == KEY_LEFT_CTRL {
        "Left Ctrl"@
    } else if key == KEY_LEFT_ALT {
        "Left Alt"@
    } else if key == KEY_RIGHT_SHIFT {
        "Right Shift"@
    } else if key == KEY_RIGHT_CTRL {
        "Right Ctrl"@
    } else if key == KEY_RIGHT_ALT {
        "Right Alt"@
    } else if KEY_F1 <= key <= KEY_F12 {
        "F"@ + decimal_of(key - KEY_F1 + 1)
    } else if 65 <= key <= 90 || 48 <= key <= 57 {
        seq![((key as u8) as char)]
    } else {
        "Key("@ + decimal_of(key as int) + ")"@
    }
}

/// `prefix`, the decimal form of `n`, then `suffix`.
fn framed_number(prefix: &str, n: i64, suffix: &str) -> (r: String)
    ensures
        r@ == prefix@ + decimal_of(n as int) + suffix@,
{
    let p = chars_of(prefix);
    let d = i64_decimal(n);
    let s = chars_of(suffix);
    let a = concat_chars(p.as_slice(), d.as_slice());
    let b = concat_chars(a.as_slice(), s.as_slice());
    string_from_chars(b)
}

/// The name shown for GLFW key code `key`.
pub fn key_name(key: i32) -> (r: String)
    ensures
        r@ == key_name_spec(key),
{
    if key == 0 {
        "None".to_owned()
    } else if key == 32 {
        "Space".to_owned()
    } else if key == 256 {
        "Escape".to_owned()
    } else if key == 257 {
        "Enter".to_owned()
    } else if key == 258 {
        "Tab".to_owned()
    } else if key == 259 {
        "Backspace".to_owned()
    } else if key == KEY_LEFT_SHIFT {
        "Left Shift".to_owned()
    } else if key == KEY_LEFT_CTRL {
        "Left Ctrl".to_owned()
    } else if key == KEY_LEFT_ALT {
        "Left Alt".to_owned()
    } else if key == KEY_RIGHT_SHIFT {
        "Right Shift".to_owned()
    } else if key == KEY_RIGHT_CTRL {
        "Right Ctrl".to_owned()
    } else if key == KEY_RIGHT_ALT {
        "Right Alt".to_owned()
    } else if KEY_F1 <= key && key <= KEY_F12 {
        proof {
            reveal_strlit("");
        }
        framed_number("F", (key - KEY_F1 + 1) as i64, "")
    } else if (65 <= key && key <= 90) || (48 <= key && key <= 57) {
        let c = (key as u8) as char;
        let mut v: Vec<char> = Vec::new();
        v.push(c);
        assert(v@ =~= seq![((key as u8) as char)]);
        string_from_chars(v)
    } else {
        framed_number("Key(", key as i64, ")")
    }
}

/// The key that shows and hides the GUI when the configuration names none:
/// right shift.
pub fn default_toggle_key() -> (r: i32)
    ensures
        r == KEY_RIGHT_SHIFT,
{
    KEY_RIGHT_SHIFT
}

/// The accent colour when the configuration names none.
pub fn default_accent_color() -> (r: [u8; 3])
    ensures
        r[0] == 180,
        r[1] == 100,
        r[2] == 255,
{
    [180, 100, 255]
}

/// Whether key `k` was held at the last poll, by the remembered states `m`
/// (a key never seen counts as not held).
pub open spec fn was_down(m: Map<i32, bool>, k: i32) -> bool {
    m.contains_key(k) && m[k]
}

/// The modules, among the first `n`, that a poll toggles: in list order,
/// each one with a key (not 0) that is held now (`down[i]`) and was not
/// held at the last poll. Every module bound to a pressed key is there.
pub open spec fn pressed(keys: Seq<i32>, down: Seq<bool>, m: Map<i32, bool>, n: int) -> Seq<int>
    decreases n,
{
    if n <= 0 {
        Seq::empty()
    } else {
        let t = pressed(keys, down, m, n - 1);
        if keys[n - 1] != 0 && down[n - 1] && !was_down(m, keys[n - 1]) {
            t.push(n - 1)
        } else {
            t
        }
    }
}

/// The remembered key states after a poll of the first `n` modules: the
/// state of each module's key (not 0) is recorded.
pub open spec fn remembered(keys: Seq<i32>, down: Seq<bool>, m: Map<i32, bool>, n: int) -> Map<
    i32,
    bool,
>
    decreases n,
{
    if n <= 0 {
        m
    } else {
        let r = remembered(keys, down, m, n - 1);
        if keys[n - 1] != 0 {
            r.insert(keys[n - 1], down[n - 1])
        } else {
            r
        }
    }
}

/// The hotkey codes of a list of modules.
pub open spec fn module_keys<S>(modules: Seq<ModuleInfo<S>>) -> Seq<i32> {
    modules.map_values(|m: ModuleInfo<S>| m.key)
}

/// The key states agree with `down` for every module with a key among the
/// first `n`.
pub open spec fn remembers(keys: Seq<i32>, down: Seq<bool>, m: Map<i32, bool>, n: int) -> bool {
    forall|i: int|
        0 <= i < n && #[trigger] keys[i] != 0 ==> m.contains_key(keys[i]) && m[keys[i]] == down[i]
}

/// Modules that share a key see the same state of it.
pub open spec fn consistent(keys: Seq<i32>, down: Seq<bool>) -> bool {
    forall|i: int, j: int|
        0 <= i < keys.len() && 0 <= j < keys.len() && #[trigger] keys[i] == #[trigger] keys[j]
            ==> down[i] == down[j]
}

proof fn lemma_remembered(keys: Seq<i32>, down: Seq<bool>, m: Map<i32, bool>, n: int)
    requires
        0 <= n <= keys.len(),
        keys.len() == down.len(),
        consistent(keys, down),
    ensures
        remembers(keys, down, remembered(keys, down, m, n), n),
    decreases n,
{
    if n > 0 {
        lemma_remembered(keys, down, m, n - 1);
        let prev = remembered(keys, down, m, n - 1);
        let k = keys[n - 1];
        if k != 0 {
            assert forall|i: int| 0 <= i < n && #[trigger] keys[i] != 0 implies prev.insert(
                k,
                down[n - 1],
            ).contains_key(keys[i]) && prev.insert(k, down[n - 1])[keys[i]] == down[i] by {
                if keys[i] == k {
                    assert(keys[i] == keys[n - 1]);
                }
            }
        }
    }
}

proof fn lemma_pressed_none(keys: Seq<i32>, down: Seq<bool>, m: Map<i32, bool>, n: int)
    requires
        0 <= n <= keys.len(),
        keys.len() == down.len(),
        remembers(keys, down, m, keys.len() as int),
    ensures
        pressed(keys, down, m, n) == Seq::<int>::empty(),
    decreases n,
{
    if n > 0 {
        lemma_pressed_none(keys, down, m, n - 1);
        if keys[n - 1] != 0 {
            assert(m.contains_key(keys[n - 1]) && m[keys[n - 1]] == down[n - 1]);
        }
    }
}

proof fn lemma_pressed_contains(keys: Seq<i32>, down: Seq<bool>, m: Map<i32, bool>, n: int, i: int)
    requires
        0 <= i < n <= keys.len(),
        keys[i] != 0,
        down[i],
        !was_down(m, keys[i]),
    ensures
        pressed(keys, down, m, n).contains(i),
    decreases n,
{
    let t = pressed(keys, down, m, n - 1);
    if i == n - 1 {
        assert(pressed(keys, down, m, n) == t.push(i));
        assert(t.push(i)[t.len() as int] == i);
    } else {
        lemma_pressed_contains(keys, down, m, n - 1, i);
        let k = t.index_of(i);
        if keys[n - 1] != 0 && down[n - 1] && !was_down(m, keys[n - 1]) {
            assert(t.push(n - 1)[k] == i);
        }
    }
}

/// A hotkey toggles its module on a press, not while held: polling again
/// with every key in the same state toggles nothing (modules that share a
/// key seeing the same state of it).
pub proof fn lemma_held_keys_toggle_once(keys: Seq<i32>, down: Seq<bool>, m: Map<i32, bool>)
    requires
        keys.len() == down.len(),
        consistent(keys, down),
    ensures
        pressed(keys, down, remembered(keys, down, m, keys.len() as int), keys.len() as int)
            == Seq::<int>::empty(),
{
    lemma_remembered(keys, down, m, keys.len() as int);
    lemma_pressed_none(keys, down, remembered(keys, down, m, keys.len() as int), keys.len() as int);
}

/// A press of a key that was not held toggles every module bound to it.
pub proof fn lemma_press_toggles(keys: Seq<i32>, down: Seq<bool>, m: Map<i32, bool>, i: int)
    requires
        keys.len() == down.len(),
        0 <= i < keys.len(),
        keys[i] != 0,
        down[i],
        !was_down(m, keys[i]),
    ensures
        pressed(keys, down, m, keys.len() as int).contains(i),
{
    lemma_pressed_contains(keys, down, m, keys.len() as int, i);
}

/// After the remembered states are forgotten, the next poll toggles every
/// module whose key is held.
pub proof fn lemma_forgotten_keys_toggle(keys: Seq<i32>, down: Seq<bool>, i: int)
    requires
        keys.len() == down.len(),
        0 <= i < keys.len(),
        keys[i] != 0,
        down[i],
    ensures
        pressed(keys, down, Map::<i32, bool>::empty(), keys.len() as int).contains(i),
{
    lemma_pressed_contains(keys, down, Map::<i32, bool>::empty(), keys.len() as int, i);
}

/// The key states remembered between polls of the hotkeys.
pub struct Hotkeys {
    pub prev: HashMap<i32, bool>,
}

impl Hotkeys {
    /// No key state remembered.
    pub fn new() -> (r: Self)
        ensures
            r.prev@ == Map::<i32, bool>::empty(),
    {
        Hotkeys { prev: HashMap::new() }
    }

}

/// One poll of the hotkeys: `down[i]` is whether the key of `modules[i]` is
/// held now. Gives the indices of the modules whose enabled state is to be
/// flipped (`pressed`), judged against the key states of the last poll, and
/// records each key's new state (`remembered`).
pub fn tick<S>(keys: &mut Hotkeys, modules: &Vec<ModuleInfo<S>>, down: &Vec<bool>) -> (r: Vec<usize>)
    requires
        down.len() == modules.len(),
    ensures
        final(keys).prev@ == remembered(
            module_keys(modules@),
            down@,
            old(keys).prev@,
            modules.len() as int,
        ),
        r@.map_values(|i: usize| i as int) == pressed(
            module_keys(modules@),
            down@,
            old(keys).prev@,
            modules.len() as int,
        ),
{
    broadcast use vstd::std_specs::hash::group_hash_axioms;

    let ghost codes = module_keys(modules@);
    let ghost m0 = keys.prev@;
    let mut out: Vec<usize> = Vec::new();
    let mut i: usize = 0;
    while i < modules.len()
        invariant
            i <= modules.len(),
            down.len() == modules.len(),
            codes == module_keys(modules@),
            keys.prev@ == m0,
            m0 == old(keys).prev@,
            out@.map_values(|j: usize| j as int) == pressed(codes, down@, m0, i as int),
        decreases modules.len() - i,
    {
        let key = modules[i].key;
        assert(codes[i as int] == key);
        if key != 0 && down[i] {
            let was = match keys.prev.get(&key) {
                Some(b) => *b,
                None => false,
            };
            if !was {
                out.push(i);
                assert(out@.map_values(|j: usize| j as int) =~= pressed(
                    codes,
                    down@,
                    m0,
                    i as int,
                ).push(i as int));
            }
        }
        i += 1;
    }
    let mut j: usize = 0;
    while j < modules.len()
        invariant
            j <= modules.len(),
            down.len() == modules.len(),
            codes == module_keys(modules@),
            m0 == old(keys).prev@,
            keys.prev@ == remembered(codes, down@, m0, j as int),
        decreases modules.len() - j,
    {
        let key = modules[j].key;
        assert(codes[j as int] == key);
        if key != 0 {
            keys.prev.insert(key, down[j]);
        }
        j += 1;
    }
    out
}

/// Forgets every remembered key state.
pub fn stop(keys: &mut Hotkeys)
    ensures
        final(keys).prev@ == Map::<i32, bool>::empty(),
{
    keys.prev.clear();
}

/// The keys that the GUI's text fields react to.
#[derive(Debug, Clone, Copy, PartialEq, Eq, Structural)]
pub enum EditKey {
    Escape,
    Enter,
    Tab,
    Backspace,
    Delete,
    ArrowRight,
    ArrowLeft,
    ArrowDown,
    ArrowUp,
    PageUp,
    PageDown,
    Home,
    End,
    A,
    C,
    V,
    X,
    Z,
}

/// The GUI key for GLFW key code `key`, if the GUI reacts to it (both
/// Enter keys count as Enter).
pub open spec fn edit_key_spec(key: i32) -> Option<EditKey> {
    if key == 256 {
        Some(EditKey::Escape)
    } else if key == 257 || key == 335 {
        Some(EditKey::Enter)
    } else if key == 258 {
        Some(EditKey::Tab)
    } else if key == 259 {
        Some(EditKey::Backspace)
    } else if key == 261 {
        Some(EditKey::Delete)
    } else if key == 262 {
        Some(EditKey::ArrowRight)
    } else if key == 263 {
        Some(EditKey::ArrowLeft)
    } else if key == 264 {
        Some(EditKey::ArrowDown)
    } else if key == 265 {
        Some(EditKey::ArrowUp)
    } else if key == 266 {
        Some(EditKey::PageUp)
    } else if key == 267 {
        Some(EditKey::PageDown)
    } else if key == 268 {
        Some(EditKey::Home)
    } else if key == 269 {
        Some(EditKey::End)
    } else if key == 65 {
        Some(EditKey::A)
    } else if key == 67 {
        Some(EditKey::C)
    } else if key == 86 {
        Some(EditKey::V)
    } else if key == 88 {
        Some(EditKey::X)
    } else if key == 90 {
        Some(EditKey::Z)
    } else {
        None
    }
}

/// The GUI key for a GLFW key code.
pub fn glfw_key_to_egui(key: i32) -> (r: Option<EditKey>)
    ensures
        r == edit_key_spec(key),
{
    match key {
        256 => Some(EditKey::Escape),
        257 | 335 => Some(EditKey::Enter),
        258 => Some(EditKey::Tab),
        259 => Some(EditKey::Backspace),
        261 => Some(EditKey::Delete),
        262 => Some(EditKey::ArrowRight),
        263 => Some(EditKey::ArrowLeft),
        264 => Some(EditKey::ArrowDown),
        265 => Some(EditKey::ArrowUp),
        266 => Some(EditKey::PageUp),
        267 => Some(EditKey::PageDown),
        268 => Some(EditKey::Home),
        269 => Some(EditKey::End),
        65 => Some(EditKey::A),
        67 => Some(EditKey::C),
        86 => Some(EditKey::V),
        88 => Some(EditKey::X),
        90 => Some(EditKey::Z),
        _ => None,
    }
}

/// The GLFW key code (`GLFW_KEY_*` in GLFW's header) of each key the GUI
/// reacts to; Enter also has the keypad's code, `GLFW_KEY_KP_ENTER`.
pub open spec fn glfw_code(e: EditKey) -> i32 {
    match e {
        EditKey::Escape => 256,
        EditKey::Enter => 257,
        EditKey::Tab => 258,
        EditKey::Backspace => 259,
        EditKey::Delete => 261,
        EditKey::ArrowRight => 262,
        EditKey::ArrowLeft => 263,
        EditKey::ArrowDown => 264,
        EditKey::ArrowUp => 265,
        EditKey::PageUp => 266,
        EditKey::PageDown => 267,
        EditKey::Home => 268,
        EditKey::End => 269,
        EditKey::A => 65,
        EditKey::C => 67,
        EditKey::V => 86,
        EditKey::X => 88,
        EditKey::Z => 90,
    }
}

/// `GLFW_KEY_KP_ENTER`.
pub open spec fn glfw_keypad_enter() -> i32 {
    335
}

/// Each GLFW key becomes the GUI key of the same meaning, and only those:
/// a code gives GUI key `e` exactly when it is `e`'s GLFW code (or, for
/// Enter, the keypad's Enter). So the arrow keys keep their direction and
/// no two GUI keys share a code.
pub proof fn lemma_edit_keys_are_glfw_keys(key: i32, e: EditKey)
    ensures
        edit_key_spec(glfw_code(e)) == Some(e),
        edit_key_spec(key) == Some(e) <==> (key == glfw_code(e) || (e == EditKey::Enter && key
            == glfw_keypad_enter())),
{
}

/// The name that the binding labels use for a GUI key with a fixed name.
pub open spec fn edit_key_label(e: EditKey) -> Option<Seq<char>> {
    match e {
        EditKey::Escape => Some("Escape"@),
        EditKey::Enter => Some("Enter"@),
        EditKey::Tab => Some("Tab"@),
        EditKey::Backspace => Some("Backspace"@),
        _ => None,
    }
}

/// The codes that have a name of their own (not `Key(<code>)`): 0 (no
/// key), space, Escape, Enter, Tab, Backspace, the left and right Shift,
/// Ctrl and Alt keys, F1 to F12, the digits and the letters.
pub open spec fn named_key(key: i32) -> bool {
    ||| key == 0
    ||| key == 32
    ||| 256 <= key <= 259
    ||| 340 <= key <= 342
    ||| 344 <= key <= 346
    ||| 290 <= key <= 301
    ||| 48 <= key <= 57
    ||| 65 <= key <= 90
}

/// The fallback label of a key without a name.
pub open spec fn fallback_name(key: i32) -> Seq<char> {
    "Key("@ + decimal_of(key as int) + ")"@
}

/// A key gets the fallback label `Key(<code>)` exactly when it has no name
/// of its own.
pub proof fn lemma_key_name_fallback(key: i32)
    ensures
        key_name_spec(key) == fallback_name(key) <==> !named_key(key),
{
    reveal_strlit("Key(");
    reveal_strlit(")");
    let f = fallback_name(key);
    assert(f[0] == 'K');
    assert(f.len() >= 5);
    if named_key(key) {
        if key == 0 {
            reveal_strlit("None");
        } else if key == 32 {
            reveal_strlit("Space");
        } else if key == 256 {
            reveal_strlit("Escape");
        } else if key == 257 {
            reveal_strlit("Enter");
        } else if key == 258 {
            reveal_strlit("Tab");
        } else if key == 259 {
            reveal_strlit("Backspace");
        } else if key == 340 {
            reveal_strlit("Left Shift");
        } else if key == 341 {
            reveal_strlit("Left Ctrl");
        } else if key == 342 {
            reveal_strlit("Left Alt");
        } else if key == 344 {
            reveal_strlit("Right Shift");
        } else if key == 345 {
            reveal_strlit("Right Ctrl");
        } else if key == 346 {
            reveal_strlit("Right Alt");
        } else if 290 <= key <= 301 {
            reveal_strlit("F");
        }
        assert(key_name_spec(key) != f);
    }
}

/// The keys that the text fields react to and that have a name of their
/// own are labelled by that name: Escape, Enter, Tab and Backspace.
pub proof fn lemma_key_name_of_edit_keys(key: i32, e: EditKey)
    requires
        edit_key_spec(key) == Some(e),
        edit_key_label(e) is Some,
        key != glfw_keypad_enter(),
    ensures
        key_name_spec(key) == edit_key_label(e)->0,
{
}

/// A digit or letter key is labelled by the one character whose code is
/// the key code.
pub proof fn lemma_key_name_printable(key: i32)
    requires
        48 <= key <= 57 || 65 <= key <= 90,
    ensures
        key_name_spec(key).len() == 1,
        key_name_spec(key)[0] as int == key,
{
}

/// F1 to F12 are labelled by `F` and their number: the key's place after
/// the key before F1 (GLFW numbers them in a row from 290).
pub proof fn lemma_key_name_function_keys(key: i32)
    requires
        KEY_F1 <= key <= KEY_F12,
    ensures
        key_name_spec(key) == seq!['F'] + decimal_of(key - 289),
{
    reveal_strlit("F");
    assert("F"@ =~= seq!['F']);
}

/// The right-hand modifier keys (four codes above the left-hand ones) are
/// labelled like their left-hand twins, with `Right` in place of `Left`.
pub proof fn lemma_key_name_right_twins(key: i32)
    requires
        KEY_LEFT_SHIFT <= key <= KEY_LEFT_ALT,
    ensures
        key_name_spec(key).subrange(0, 4) == "Left"@,
        key_name_spec((key + 4) as i32) == "Right"@ + key_name_spec(key).subrange(4, key_name_spec(key).len() as int),
{
    reveal_strlit("Left");
    reveal_strlit("Right");
    reveal_strlit("Left Shift");
    reveal_strlit("Left Ctrl");
    reveal_strlit("Left Alt");
    reveal_strlit("Right Shift");
    reveal_strlit("Right Ctrl");
    reveal_strlit("Right Alt");
    let n = key_name_spec(key);
    assert(n.subrange(0, 4) =~= "Left"@);
    assert(key_name_spec((key + 4) as i32) =~= "Right"@ + n.subrange(4, n.len() as int));
}

/// A key event for the GUI.
#[derive(Debug, Clone, Copy, PartialEq, Eq, Structural)]
pub struct KeyEvent {
    pub key: EditKey,
    pub pressed: bool,
    pub repeat: bool,
    pub alt: bool,
    pub ctrl: bool,
    pub shift: bool,
    /// The platform's command modifier: Ctrl here.
    pub command: bool,
}

/// The GUI's key event for a GLFW key callback (`key`, `action`, `mods`):
/// none for keys the GUI ignores; pressed unless released (action 0), a
/// repeat for action 2, the modifiers from bits 0 (shift), 1 (ctrl) and 2
/// (alt).
pub fn key_event(key: i32, action: i32, mods: i32) -> (r: Option<KeyEvent>)
    ensures
        match edit_key_spec(key) {
            Some(k) => r == Some(
                KeyEvent {
                    key: k,
                    pressed: action != 0,
                    repeat: action == 2,
                    alt: mods & 4 != 0,
                    ctrl: mods & 2 != 0,
                    shift: mods & 1 != 0,
                    command: mods & 2 != 0,
                },
            ),
            None => r is None,
        },
{
    match glfw_key_to_egui(key) {
        Some(k) => Some(
            KeyEvent {
                key: k,
                pressed: action != 0,
                repeat: action == 2,
                alt: mods & 4 != 0,
                ctrl: mods & 2 != 0,
                shift: mods & 1 != 0,
                command: mods & 2 != 0,
            },
        ),
        None => None,
    }
}

/// Whether a key event asks to paste the clipboard: V pressed with the
/// command or ctrl modifier.
pub fn wants_paste(e: &KeyEvent) -> (r: bool)
    ensures
        r == (e.key == EditKey::V && e.pressed && (e.command || e.ctrl)),
{
    e.key == EditKey::V && e.pressed && (e.command || e.ctrl)
}

/// The mouse buttons the GUI reacts to.
#[derive(Debug, Clone, Copy, PartialEq, Eq, Structural)]
pub enum PointerButton {
    Primary,
    Secondary,
    Middle,
}

/// The GUI's button for GLFW mouse button `button` (0, 1, 2), if any.
pub fn pointer_button(button: i32) -> (r: Option<PointerButton>)
    ensures
        r == if button == 0 {
            Some(PointerButton::Primary)
        } else if button == 1 {
            Some(PointerButton::Secondary)
        } else if button == 2 {
            Some(PointerButton::Middle)
        } else {
            None
        },
{
    match button {
        0 => Some(PointerButton::Primary),
        1 => Some(PointerButton::Secondary),
        2 => Some(PointerButton::Middle),
        _ => None,
    }
}

/// The keys looked at, in order, when a binding waits for a key: the
/// printable ones (32 to 96), then the control keys (256 to 348).
pub open spec fn scan_keys_spec() -> Seq<i32> {
    Seq::new(65, |i: int| (32 + i) as i32) + Seq::new(93, |i: int| (256 + i) as i32)
}

/// The keys looked at when a binding waits for a key.
pub fn binding_scan_keys() -> (r: Vec<i32>)
    ensures
        r@ == scan_keys_spec(),
{
    let mut r: Vec<i32> = Vec::new();
    let mut k: i32 = 32;
    while k <= 96
        invariant
            32 <= k <= 97,
            r@ == Seq::new((k - 32) as nat, |i: int| (32 + i) as i32),
        decreases 97 - k,
    {
        r.push(k);
        assert(r@ =~= Seq::new((k + 1 - 32) as nat, |i: int| (32 + i) as i32));
        k += 1;
    }
    let ghost first = r@;
    let mut k: i32 = 256;
    while k <= 348
        invariant
            256 <= k <= 349,
            first == Seq::new(65, |i: int| (32 + i) as i32),
            r@ == first + Seq::new((k - 256) as nat, |i: int| (256 + i) as i32),
        decreases 349 - k,
    {
        r.push(k);
        assert(r@ =~= first + Seq::new((k + 1 - 256) as nat, |i: int| (256 + i) as i32));
        k += 1;
    }
    r
}

/// The first key of `keys` that is held (`down[i]` for `keys[i]`).
pub open spec fn first_held(keys: Seq<i32>, down: Seq<bool>, i: int) -> Option<i32>
    decreases keys.len() - i,
{
    if i < 0 || i >= keys.len() {
        None
    } else if down[i] {
        Some(keys[i])
    } else {
        first_held(keys, down, i + 1)
    }
}

/// The first held key of `keys`, given whether each is held.
pub fn first_pressed(keys: &Vec<i32>, down: &Vec<bool>) -> (r: Option<i32>)
    requires
        down.len() == keys.len(),
    ensures
        r == first_held(keys@, down@, 0),
{
    let mut i: usize = 0;
    while i < keys.len()
        invariant
            i <= keys.len(),
            down.len() == keys.len(),
            first_held(keys@, down@, 0) == first_held(keys@, down@, i as int),
        decreases keys.len() - i,
    {
        if down[i] {
            return Some(keys[i]);
        }
        i += 1;
    }
    None
}

} // verus!
