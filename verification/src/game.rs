//! Decisions that the scripting API makes before it calls into the game:
//! which status effect a name means, which HTTP method a request uses,
//! which hand swings, and where on a block face a placement aims.
use vstd::prelude::*;
use crate::text::{ascii_lower, chars_of, str_eq, string_from_chars, to_lowercase, to_uppercase, lowercase_of, uppercase_of};

verus! {

/// The movement keys the player holds.
#[derive(Debug, Clone, Copy, PartialEq, Eq, Structural)]
pub struct PlayerInput {
    pub left: bool,
    pub right: bool,
    pub up: bool,
    pub down: bool,
    pub jumping: bool,
    pub shift_key_down: bool,
}

/// An effect name as the table knows it: lower-cased, with `-` and spaces
/// turned into `_`.
pub open spec fn normalise_effect(name: Seq<char>) -> Seq<char> {
    lowercase_of(name).map_values(|c: char| if c == '-' || c == ' ' { '_' } else { c })
}

/// The status-effect field that a (normalised) effect name stands for.
pub open spec fn effect_field_spec(k: Seq<char>) -> Option<Seq<char>> {
    if k == "speed"@ || k == "movement_speed"@ {
        Some("SPEED"@)
    } else if k == "slowness"@ || k == "movement_slowdown"@ {
        Some("SLOWNESS"@)
    } else if k == "haste"@ || k == "dig_speed"@ {
        Some("HASTE"@)
    } else if k == "mining_fatigue"@ || k == "dig_slowdown"@ {
        Some("MINING_FATIGUE"@)
    } else if k == "strength"@ || k == "damage_boost"@ {
        Some("STRENGTH"@)
    } else if k == "instant_health"@ || k == "heal"@ {
        Some("INSTANT_HEALTH"@)
    } else if k == "instant_damage"@ || k == "harm"@ {
        Some("INSTANT_DAMAGE"@)
    } else if k == "jump_boost"@ || k == "jump"@ {
        Some("JUMP_BOOST"@)
    } else if k == "nausea"@ || k == "confusion"@ {
        Some("NAUSEA"@)
    } else if k == "regeneration"@ {
        Some("REGENERATION"@)
    } else if k == "resistance"@ || k == "damage_resistance"@ {
        Some("RESISTANCE"@)
    } else if k == "fire_resistance"@ {
        Some("FIRE_RESISTANCE"@)
    } else if k == "water_breathing"@ {
        Some("WATER_BREATHING"@)
    } else if k == "invisibility"@ {
        Some("INVISIBILITY"@)
    } else if k == "blindness"@ {
        Some("BLINDNESS"@)
    } else if k == "night_vision"@ {
        Some("NIGHT_VISION"@)
    } else if k == "hunger"@ {
        Some("HUNGER"@)
    } else if k == "weakness"@ {
        Some("WEAKNESS"@)
    } else if k == "poison"@ {
        Some("POISON"@)
    } else if k == "wither"@ {
        Some("WITHER"@)
    } else if k == "health_boost"@ {
        Some("HEALTH_BOOST"@)
    } else if k == "absorption"@ {
        Some("ABSORPTION"@)
    } else if k == "saturation"@ {
        Some("SATURATION"@)
    } else if k == "levitation"@ {
        Some("LEVITATION"@)
    } else if k == "luck"@ {
        Some("LUCK"@)
    } else if k == "bad_luck"@ || k == "unluck"@ {
        Some("UNLUCK"@)
    } else if k == "slow_falling"@ {
        Some("SLOW_FALLING"@)
    } else if k == "conduit_power"@ {
        Some("CONDUIT_POWER"@)
    } else if k == "dolphins_grace"@ {
        Some("DOLPHINS_GRACE"@)
    } else if k == "bad_omen"@ {
        Some("BAD_OMEN"@)
    } else if k == "hero_of_the_village"@ {
        Some("HERO_OF_THE_VILLAGE"@)
    } else if k == "darkness"@ {
        Some("DARKNESS"@)
    } else {
        None
    }
}

/// The older (registry) names that stand for an effect under another
/// name: `movement_speed` for speed, `dig_speed` for haste, `bad_luck`
/// for unluck and so on, each with the field it stands for.
pub open spec fn legacy_effect_alias(k: Seq<char>) -> Option<Seq<char>> {
    if k == "movement_speed"@ {
        Some("SPEED"@)
    } else if k == "movement_slowdown"@ {
        Some("SLOWNESS"@)
    } else if k == "dig_speed"@ {
        Some("HASTE"@)
    } else if k == "dig_slowdown"@ {
        Some("MINING_FATIGUE"@)
    } else if k == "damage_boost"@ {
        Some("STRENGTH"@)
    } else if k == "heal"@ {
        Some("INSTANT_HEALTH"@)
    } else if k == "harm"@ {
        Some("INSTANT_DAMAGE"@)
    } else if k == "jump"@ {
        Some("JUMP_BOOST"@)
    } else if k == "confusion"@ {
        Some("NAUSEA"@)
    } else if k == "damage_resistance"@ {
        Some("RESISTANCE"@)
    } else if k == "bad_luck"@ {
        Some("UNLUCK"@)
    } else {
        None
    }
}

/// `s` with its ASCII letters in upper case.
pub open spec fn upper_text(s: Seq<char>) -> Seq<char> {
    s.map_values(|c: char| crate::text::ascii_upper(c))
}

/// The field that an effect name stands for is the effect's own field,
/// its name in upper case, unless the name is an older registry name, which
/// stands for the field it always named. So no two effects share a field:
/// `slowness` is `SLOWNESS`, never `SPEED`.
pub proof fn lemma_effect_field_is_own(k: Seq<char>)
    ensures
        effect_field_spec(k) matches Some(f) ==> (f == upper_text(k) && legacy_effect_alias(k) is None)
            || legacy_effect_alias(k) == Some(f),
{
    reveal_strlit("movement_speed");
    reveal_strlit("movement_slowdown");
    reveal_strlit("dig_speed");
    reveal_strlit("dig_slowdown");
    reveal_strlit("damage_boost");
    reveal_strlit("heal");
    reveal_strlit("harm");
    reveal_strlit("jump");
    reveal_strlit("confusion");
    reveal_strlit("damage_resistance");
    reveal_strlit("bad_luck");
    reveal_strlit("speed");
    reveal_strlit("SPEED");
    reveal_strlit("slowness");
    reveal_strlit("SLOWNESS");
    reveal_strlit("haste");
    reveal_strlit("HASTE");
    reveal_strlit("mining_fatigue");
    reveal_strlit("MINING_FATIGUE");
    reveal_strlit("strength");
    reveal_strlit("STRENGTH");
    reveal_strlit("instant_health");
    reveal_strlit("INSTANT_HEALTH");
    reveal_strlit("instant_damage");
    reveal_strlit("INSTANT_DAMAGE");
    reveal_strlit("jump_boost");
    reveal_strlit("JUMP_BOOST");
    reveal_strlit("nausea");
    reveal_strlit("NAUSEA");
    reveal_strlit("regeneration");
    reveal_strlit("REGENERATION");
    reveal_strlit("resistance");
    reveal_strlit("RESISTANCE");
    reveal_strlit("fire_resistance");
    reveal_strlit("FIRE_RESISTANCE");
    reveal_strlit("water_breathing");
    reveal_strlit("WATER_BREATHING");
    reveal_strlit("invisibility");
    reveal_strlit("INVISIBILITY");
    reveal_strlit("blindness");
    reveal_strlit("BLINDNESS");
    reveal_strlit("night_vision");
    reveal_strlit("NIGHT_VISION");
    reveal_strlit("hunger");
    reveal_strlit("HUNGER");
    reveal_strlit("weakness");
    reveal_strlit("WEAKNESS");
    reveal_strlit("poison");
    reveal_strlit("POISON");
    reveal_strlit("wither");
    reveal_strlit("WITHER");
    reveal_strlit("health_boost");
    reveal_strlit("HEALTH_BOOST");
    reveal_strlit("absorption");
    reveal_strlit("ABSORPTION");
    reveal_strlit("saturation");
    reveal_strlit("SATURATION");
    reveal_strlit("levitation");
    reveal_strlit("LEVITATION");
    reveal_strlit("luck");
    reveal_strlit("LUCK");
    reveal_strlit("unluck");
    reveal_strlit("UNLUCK");
    reveal_strlit("slow_falling");
    reveal_strlit("SLOW_FALLING");
    reveal_strlit("conduit_power");
    reveal_strlit("CONDUIT_POWER");
    reveal_strlit("dolphins_grace");
    reveal_strlit("DOLPHINS_GRACE");
    reveal_strlit("bad_omen");
    reveal_strlit("BAD_OMEN");
    reveal_strlit("hero_of_the_village");
    reveal_strlit("HERO_OF_THE_VILLAGE");
    reveal_strlit("darkness");
    reveal_strlit("DARKNESS");
    if k == "speed"@ {
        assert(upper_text(k) =~= "SPEED"@);
        assert(legacy_effect_alias(k) is None);
    }
    if k == "slowness"@ {
        assert("slowness"@[0] != "bad_luck"@[0]);
        assert(upper_text(k) =~= "SLOWNESS"@);
        assert(legacy_effect_alias(k) is None);
    }
    if k == "haste"@ {
        assert(upper_text(k) =~= "HASTE"@);
        assert(legacy_effect_alias(k) is None);
    }
    if k == "mining_fatigue"@ {
        assert("mining_fatigue"@[1] != "movement_speed"@[1]);
        assert(upper_text(k) =~= "MINING_FATIGUE"@);
        assert(legacy_effect_alias(k) is None);
    }
    if k == "strength"@ {
        assert("strength"@[0] != "bad_luck"@[0]);
        assert(upper_text(k) =~= "STRENGTH"@);
        assert(legacy_effect_alias(k) is None);
    }
    if k == "instant_health"@ {
        assert("instant_health"@[0] != "movement_speed"@[0]);
        assert(upper_text(k) =~= "INSTANT_HEALTH"@);
        assert(legacy_effect_alias(k) is None);
    }
    if k == "instant_damage"@ {
        assert("instant_damage"@[0] != "movement_speed"@[0]);
        assert(upper_text(k) =~= "INSTANT_DAMAGE"@);
        assert(legacy_effect_alias(k) is None);
    }
    if k == "jump_boost"@ {
        assert(upper_text(k) =~= "JUMP_BOOST"@);
        assert(legacy_effect_alias(k) is None);
    }
    if k == "nausea"@ {
        assert(upper_text(k) =~= "NAUSEA"@);
        assert(legacy_effect_alias(k) is None);
    }
    if k == "regeneration"@ {
        assert("regeneration"@[0] != "dig_slowdown"@[0]);
        assert("regeneration"@[0] != "damage_boost"@[0]);
        assert(upper_text(k) =~= "REGENERATION"@);
        assert(legacy_effect_alias(k) is None);
    }
    if k == "resistance"@ {
        assert(upper_text(k) =~= "RESISTANCE"@);
        assert(legacy_effect_alias(k) is None);
    }
    if k == "fire_resistance"@ {
        assert(upper_text(k) =~= "FIRE_RESISTANCE"@);
        assert(legacy_effect_alias(k) is None);
    }
    if k == "water_breathing"@ {
        assert(upper_text(k) =~= "WATER_BREATHING"@);
        assert(legacy_effect_alias(k) is None);
    }
    if k == "invisibility"@ {
        assert("invisibility"@[0] != "dig_slowdown"@[0]);
        assert("invisibility"@[0] != "damage_boost"@[0]);
        assert(upper_text(k) =~= "INVISIBILITY"@);
        assert(legacy_effect_alias(k) is None);
    }
    if k == "blindness"@ {
        assert("blindness"@[0] != "dig_speed"@[0]);
        assert("blindness"@[0] != "confusion"@[0]);
        assert(upper_text(k) =~= "BLINDNESS"@);
        assert(legacy_effect_alias(k) is None);
    }
    if k == "night_vision"@ {
        assert("night_vision"@[0] != "dig_slowdown"@[0]);
        assert("night_vision"@[0] != "damage_boost"@[0]);
        assert(upper_text(k) =~= "NIGHT_VISION"@);
        assert(legacy_effect_alias(k) is None);
    }
    if k == "hunger"@ {
        assert(upper_text(k) =~= "HUNGER"@);
        assert(legacy_effect_alias(k) is None);
    }
    if k == "weakness"@ {
        assert("weakness"@[0] != "bad_luck"@[0]);
        assert(upper_text(k) =~= "WEAKNESS"@);
        assert(legacy_effect_alias(k) is None);
    }
    if k == "poison"@ {
        assert(upper_text(k) =~= "POISON"@);
        assert(legacy_effect_alias(k) is None);
    }
    if k == "wither"@ {
        assert(upper_text(k) =~= "WITHER"@);
        assert(legacy_effect_alias(k) is None);
    }
    if k == "health_boost"@ {
        assert("health_boost"@[0] != "dig_slowdown"@[0]);
        assert("health_boost"@[0] != "damage_boost"@[0]);
        assert(upper_text(k) =~= "HEALTH_BOOST"@);
        assert(legacy_effect_alias(k) is None);
    }
    if k == "absorption"@ {
        assert(upper_text(k) =~= "ABSORPTION"@);
        assert(legacy_effect_alias(k) is None);
    }
    if k == "saturation"@ {
        assert(upper_text(k) =~= "SATURATION"@);
        assert(legacy_effect_alias(k) is None);
    }
    if k == "levitation"@ {
        assert(upper_text(k) =~= "LEVITATION"@);
        assert(legacy_effect_alias(k) is None);
    }
    if k == "luck"@ {
        assert("luck"@[0] != "heal"@[0]);
        assert("luck"@[0] != "harm"@[0]);
        assert("luck"@[0] != "jump"@[0]);
        assert(upper_text(k) =~= "LUCK"@);
        assert(legacy_effect_alias(k) is None);
    }
    if k == "unluck"@ {
        assert(upper_text(k) =~= "UNLUCK"@);
        assert(legacy_effect_alias(k) is None);
    }
    if k == "slow_falling"@ {
        assert("slow_falling"@[0] != "dig_slowdown"@[0]);
        assert("slow_falling"@[0] != "damage_boost"@[0]);
        assert(upper_text(k) =~= "SLOW_FALLING"@);
        assert(legacy_effect_alias(k) is None);
    }
    if k == "conduit_power"@ {
        assert(upper_text(k) =~= "CONDUIT_POWER"@);
        assert(legacy_effect_alias(k) is None);
    }
    if k == "dolphins_grace"@ {
        assert("dolphins_grace"@[0] != "movement_speed"@[0]);
        assert(upper_text(k) =~= "DOLPHINS_GRACE"@);
        assert(legacy_effect_alias(k) is None);
    }
    if k == "bad_omen"@ {
        assert("bad_omen"@[4] != "bad_luck"@[4]);
        assert(upper_text(k) =~= "BAD_OMEN"@);
        assert(legacy_effect_alias(k) is None);
    }
    if k == "hero_of_the_village"@ {
        assert(upper_text(k) =~= "HERO_OF_THE_VILLAGE"@);
        assert(legacy_effect_alias(k) is None);
    }
    if k == "darkness"@ {
        assert("darkness"@[0] != "bad_luck"@[0]);
        assert(upper_text(k) =~= "DARKNESS"@);
        assert(legacy_effect_alias(k) is None);
    }
}

/// The status-effect field that a normalised effect name stands for.
fn effect_field(k: &str) -> (r: Option<&'static str>)
    ensures
        match effect_field_spec(k@) {
            Some(f) => r matches Some(g) && g@ == f,
            None => r is None,
        },
{
    if str_eq(k, "speed") || str_eq(k, "movement_speed") {
        Some("SPEED")
    } else if str_eq(k, "slowness") || str_eq(k, "movement_slowdown") {
        Some("SLOWNESS")
    } else if str_eq(k, "haste") || str_eq(k, "dig_speed") {
        Some("HASTE")
    } else if str_eq(k, "mining_fatigue") || str_eq(k, "dig_slowdown") {
        Some("MINING_FATIGUE")
    } else if str_eq(k, "strength") || str_eq(k, "damage_boost") {
        Some("STRENGTH")
    } else if str_eq(k, "instant_health") || str_eq(k, "heal") {
        Some("INSTANT_HEALTH")
    } else if str_eq(k, "instant_damage") || str_eq(k, "harm") {
        Some("INSTANT_DAMAGE")
    } else if str_eq(k, "jump_boost") || str_eq(k, "jump") {
        Some("JUMP_BOOST")
    } else if str_eq(k, "nausea") || str_eq(k, "confusion") {
        Some("NAUSEA")
    } else if str_eq(k, "regeneration") {
        Some("REGENERATION")
    } else if str_eq(k, "resistance") || str_eq(k, "damage_resistance") {
        Some("RESISTANCE")
    } else if str_eq(k, "fire_resistance") {
        Some("FIRE_RESISTANCE")
    } else if str_eq(k, "water_breathing") {
        Some("WATER_BREATHING")
    } else if str_eq(k, "invisibility") {
        Some("INVISIBILITY")
    } else if str_eq(k, "blindness") {
        Some("BLINDNESS")
    } else if str_eq(k, "night_vision") {
        Some("NIGHT_VISION")
    } else if str_eq(k, "hunger") {
        Some("HUNGER")
    } else if str_eq(k, "weakness") {
        Some("WEAKNESS")
    } else if str_eq(k, "poison") {
        Some("POISON")
    } else if str_eq(k, "wither") {
        Some("WITHER")
    } else if str_eq(k, "health_boost") {
        Some("HEALTH_BOOST")
    } else if str_eq(k, "absorption") {
        Some("ABSORPTION")
    } else if str_eq(k, "saturation") {
        Some("SATURATION")
    } else if str_eq(k, "levitation") {
        Some("LEVITATION")
    } else if str_eq(k, "luck") {
        Some("LUCK")
    } else if str_eq(k, "bad_luck") || str_eq(k, "unluck") {
        Some("UNLUCK")
    } else if str_eq(k, "slow_falling") {
        Some("SLOW_FALLING")
    } else if str_eq(k, "conduit_power") {
        Some("CONDUIT_POWER")
    } else if str_eq(k, "dolphins_grace") {
        Some("DOLPHINS_GRACE")
    } else if str_eq(k, "bad_omen") {
        Some("BAD_OMEN")
    } else if str_eq(k, "hero_of_the_village") {
        Some("HERO_OF_THE_VILLAGE")
    } else if str_eq(k, "darkness") {
        Some("DARKNESS")
    } else {
        None
    }
}

/// The status-effect field of the game that an effect name stands for
/// (`speed`, `Jump Boost`, `bad-luck` ...), if it names one.
pub fn mob_effect_field(name: &str) -> (r: Option<&'static str>)
    ensures
        match effect_field_spec(normalise_effect(name@)) {
            Some(f) => r matches Some(g) && g@ == f,
            None => r is None,
        },
{
    let lower = to_lowercase(name);
    let cs = chars_of(lower.as_str());
    let mut out: Vec<char> = Vec::new();
    let mut k: usize = 0;
    while k < cs.len()
        invariant
            k <= cs.len(),
            out@ == cs@.take(k as int).map_values(
                |c: char| if c == '-' || c == ' ' { '_' } else { c },
            ),
        decreases cs.len() - k,
    {
        let c = cs[k];
        out.push(if c == '-' || c == ' ' { '_' } else { c });
        assert(out@ =~= cs@.take(k + 1).map_values(
            |c: char| if c == '-' || c == ' ' { '_' } else { c },
        ));
        k += 1;
    }
    assert(cs@.take(k as int) =~= cs@);
    let key = string_from_chars(out);
    effect_field(key.as_str())
}

/// The HTTP methods a script's request can use.
#[derive(Debug, Clone, Copy, PartialEq, Eq, Structural)]
pub enum HttpMethod {
    Get,
    Post,
    Put,
    Delete,
}

/// The method of a script's request: `POST`, `PUT` or `DELETE` when the
/// upper-cased option names it, `GET` otherwise (and without the option).
pub open spec fn http_method_spec(option: Option<Seq<char>>) -> HttpMethod {
    match option {
        Some(m) => {
            let u = uppercase_of(m);
            if u == "POST"@ {
                HttpMethod::Post
            } else if u == "PUT"@ {
                HttpMethod::Put
            } else if u == "DELETE"@ {
                HttpMethod::Delete
            } else {
                HttpMethod::Get
            }
        },
        None => HttpMethod::Get,
    }
}

/// Chooses the method of a script's request.
pub fn http_method(option: Option<&str>) -> (r: HttpMethod)
    ensures
        r == http_method_spec(
            match option {
                Some(m) => Some(m@),
                None => None,
            },
        ),
{
    match option {
        Some(m) => {
            let u = to_uppercase(m);
            if str_eq(u.as_str(), "POST") {
                HttpMethod::Post
            } else if str_eq(u.as_str(), "PUT") {
                HttpMethod::Put
            } else if str_eq(u.as_str(), "DELETE") {
                HttpMethod::Delete
            } else {
                HttpMethod::Get
            }
        },
        None => HttpMethod::Get,
    }
}

/// `a` and `b` are equal but for the case of ASCII letters
/// (`str::eq_ignore_ascii_case`).
pub open spec fn eq_ignore_ascii_case(a: Seq<char>, b: Seq<char>) -> bool {
    a.len() == b.len() && forall|i: int| 0 <= i < a.len() ==> ascii_lower(#[trigger] a[i]) == ascii_lower(b[i])
}

fn ascii_lower_exec(c: char) -> (r: char)
    ensures
        r == ascii_lower(c),
{
    if 'A' <= c && c <= 'Z' {
        ((c as u8) + 32) as char
    } else {
        c
    }
}

/// The hand a swing uses: the off hand when the name is `OFF_HAND` in any
/// ASCII case, the main hand otherwise.
pub fn swing_hand(hand: &str) -> (r: &'static str)
    ensures
        r@ == if eq_ignore_ascii_case(hand@, "OFF_HAND"@) {
            "OFF_HAND"@
        } else {
            "MAIN_HAND"@
        },
{
    let a = chars_of(hand);
    let b = chars_of("OFF_HAND");
    if a.len() != b.len() {
        return "MAIN_HAND";
    }
    let mut k: usize = 0;
    while k < a.len()
        invariant
            k <= a.len(),
            a.len() == b.len(),
            a@ == hand@,
            b@ == "OFF_HAND"@,
            forall|i: int| 0 <= i < k ==> ascii_lower(#[trigger] a@[i]) == ascii_lower(b@[i]),
        decreases a.len() - k,
    {
        if ascii_lower_exec(a[k]) != ascii_lower_exec(b[k]) {
            return "MAIN_HAND";
        }
        k += 1;
    }
    "OFF_HAND"
}

/// The point a placement on face `face` of the block at `(x, y, z)` aims
/// at, in half blocks from the block's corner: the middle of that face.
pub open spec fn face_offset_spec(face: Seq<char>) -> Option<(i32, i32, i32)> {
    if face == "UP"@ {
        Some((1i32, 2i32, 1i32))
    } else if face == "DOWN"@ {
        Some((1i32, 0i32, 1i32))
    } else if face == "NORTH"@ {
        Some((1i32, 1i32, 0i32))
    } else if face == "SOUTH"@ {
        Some((1i32, 1i32, 2i32))
    } else if face == "WEST"@ {
        Some((0i32, 1i32, 1i32))
    } else if face == "EAST"@ {
        Some((2i32, 1i32, 1i32))
    } else {
        None
    }
}

/// Where on a block a placement on `face` aims, in half blocks from the
/// block's corner; an unknown face is refused with its name.
pub fn face_offset(face: &str) -> (r: Result<(i32, i32, i32), String>)
    ensures
        match face_offset_spec(face@) {
            Some(o) => r == Ok::<(i32, i32, i32), String>(o),
            None => r matches Err(m) && m@ == "unknown face: "@ + face@,
        },
{
    if str_eq(face, "UP") {
        Ok((1, 2, 1))
    } else if str_eq(face, "DOWN") {
        Ok((1, 0, 1))
    } else if str_eq(face, "NORTH") {
        Ok((1, 1, 0))
    } else if str_eq(face, "SOUTH") {
        Ok((1, 1, 2))
    } else if str_eq(face, "WEST") {
        Ok((0, 1, 1))
    } else if str_eq(face, "EAST") {
        Ok((2, 1, 1))
    } else {
        Err(crate::text::concat_str("unknown face: ", face))
    }
}

} // verus!
