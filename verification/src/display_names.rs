//! Display names for maps, game modes, agents, players and weapons as they appear in
//! Valorant/ACLOS metadata: internal asset paths and English aliases map to the mainland
//! Chinese names that the library presents.
use vstd::prelude::*;

use crate::text::{
    after_last, after_last_exec, before_first, before_first_char, before_first_char_exec,
    before_first_exec, char_rpos, char_rpos_before, chars_of, contains, contains_exec, ends_with,
    ends_with_exec, eq_ic, eq_ignore_case, lower_seq, opt_chars, opt_string, opt_to_string,
    replace_char, replace_char_exec, starts_with, starts_with_exec, strip_char, strip_char_exec,
    strip_prefix_all, strip_prefix_all_exec, strip_suffix_all, strip_suffix_all_exec, to_lower,
    trim, trim_exec, trim_str,
};

verus! {

// ---------------------------------------------------------------------------------------------
// Alias tables
// ---------------------------------------------------------------------------------------------

pub const MAP_NAME_ALIASES: [(&'static str, &'static str); 25] = [
    ("Plummet", "天枢云阙"),
    ("Summit", "天枢云阙"),
    ("Rook", "盐海矿镇"),
    ("Corrode", "盐海矿镇"),
    ("Infinity", "幽邃地窟"),
    ("Abyss", "幽邃地窟"),
    ("Juliett", "日落之城"),
    ("Sunset", "日落之城"),
    ("Jam", "莲华古城"),
    ("Lotus", "莲华古城"),
    ("Pitt", "深海明珠"),
    ("Pearl", "深海明珠"),
    ("Canyon", "裂变峡谷"),
    ("Fracture", "裂变峡谷"),
    ("Foxtrot", "微风岛屿"),
    ("Breeze", "微风岛屿"),
    ("Port", "森寒冬港"),
    ("Icebox", "森寒冬港"),
    ("Ascent", "亚海悬城"),
    ("Bonsai", "霓虹町"),
    ("Split", "霓虹町"),
    ("Triad", "隐世修所"),
    ("Haven", "隐世修所"),
    ("Duality", "源工重镇"),
    ("Bind", "源工重镇"),
];

pub const GAME_MODE_ALIASES: [(&'static str, &'static str); 15] = [
    ("BombGameMode", "竞技模式"),
    ("competitive", "竞技模式"),
    ("Competitive", "竞技模式"),
    ("Unrated", "未评级"),
    ("unrated", "未评级"),
    ("Swiftplay", "极速模式"),
    ("Deathmatch", "死斗模式"),
    ("DeathmatchGameMode", "死斗模式"),
    ("SkirmishGameMode", "团队乱斗"),
    ("Team Deathmatch", "团队乱斗"),
    ("TeamDeathmatch", "团队乱斗"),
    ("Spike Rush", "乱斗模式"),
    ("SpikeRush", "乱斗模式"),
    ("Custom Game", "自定义游戏"),
    ("CustomGame", "自定义游戏"),
];

pub const AGENT_NAME_ALIASES: [(&'static str, &'static str); 33] = [
    ("Astra", "Astra"),
    ("Breach", "Breach"),
    ("Brimstone", "Brimstone"),
    ("Chamber", "Chamber"),
    ("Clove", "Clove"),
    ("Cypher", "Cypher"),
    ("Deadlock", "Deadlock"),
    ("Fade", "Fade"),
    ("Gekko", "Gekko"),
    ("Harbor", "Harbor"),
    ("Iso", "Iso"),
    ("Jett", "Jett"),
    ("KAY/O", "KAY/O"),
    ("Kayo", "KAY/O"),
    ("Killjoy", "Killjoy"),
    ("Miks", "Miks"),
    ("Neon", "Neon"),
    ("Omen", "Omen"),
    ("Phoenix", "Phoenix"),
    ("Raze", "Raze"),
    ("Reyna", "Reyna"),
    ("Sage", "Sage"),
    ("Skye", "Skye"),
    ("Sova", "Sova"),
    ("Tejo", "Tejo"),
    ("Veto", "Veto"),
    ("Viper", "Viper"),
    ("Vyse", "Vyse"),
    ("Waylay", "Waylay"),
    ("Yoru", "Yoru"),
    ("Vampire", "Reyna"),
    ("Nox", "Vyse"),
    ("Deadeye", "Chamber"),
];

pub const LOCALIZED_AGENT_NAME_ALIASES: [(&'static str, &'static str); 29] = [
    ("Brimstone", "炼狱"),
    ("Viper", "蝰蛇"),
    ("Omen", "幽影"),
    ("Killjoy", "奇乐"),
    ("Cypher", "零"),
    ("Sova", "猎枭"),
    ("Sage", "贤者"),
    ("Phoenix", "不死鸟"),
    ("Jett", "捷风"),
    ("Reyna", "芮娜"),
    ("Raze", "雷兹"),
    ("Breach", "铁臂"),
    ("Skye", "斯凯"),
    ("Yoru", "夜露"),
    ("Astra", "星礈"),
    ("KAY/O", "K/O"),
    ("Chamber", "尚勃勒"),
    ("Neon", "霓虹"),
    ("Fade", "黑梦"),
    ("Harbor", "海神"),
    ("Gekko", "盖可"),
    ("Deadlock", "钢锁"),
    ("Iso", "壹决"),
    ("Clove", "暮蝶"),
    ("Vyse", "维斯"),
    ("Tejo", "钛狐"),
    ("Miks", "迷核"),
    ("Waylay", "幻棱"),
    ("Veto", "禁灭"),
];

pub const WEAPON_NAME_ALIASES: [(&'static str, &'static str); 34] = [
    ("AssaultRifle_Burst", "獠犬"),
    ("AssaultRifle_ACR", "幻影"),
    ("AssaultRifle_AK", "狂徒"),
    ("SubMachineGun_MP5", "骇灵"),
    ("AutomaticShotgun", "判官"),
    ("RevolverPistol", "正义"),
    ("LeverSniperRifle", "飞将"),
    ("SawedOffShotgun", "短炮"),
    ("HeavyMachineGun", "奥丁"),
    ("LightMachineGun", "战神"),
    ("CompactPistol", "狂怒"),
    ("PumpShotgun", "雄鹿"),
    ("LugerPistol", "鬼魅"),
    ("BoltSniper", "冥驹"),
    ("BasePistol", "标配"),
    ("Vector", "蜂刺"),
    ("DMR", "戍卫"),
    ("Bulldog", "獠犬"),
    ("Phantom", "幻影"),
    ("Vandal", "狂徒"),
    ("Spectre", "骇灵"),
    ("Judge", "判官"),
    ("Sheriff", "正义"),
    ("Marshal", "飞将"),
    ("Shorty", "短炮"),
    ("Odin", "奥丁"),
    ("Ares", "战神"),
    ("Frenzy", "狂怒"),
    ("Bucky", "雄鹿"),
    ("Ghost", "鬼魅"),
    ("Operator", "冥驹"),
    ("Classic", "标配"),
    ("Stinger", "蜂刺"),
    ("Guardian", "戍卫"),
];

pub const LOCALIZED_AGENT_NAMES: [&'static str; 29] = [
    "炼狱",
    "蝰蛇",
    "幽影",
    "奇乐",
    "零",
    "猎枭",
    "贤者",
    "不死鸟",
    "捷风",
    "芮娜",
    "雷兹",
    "铁臂",
    "斯凯",
    "夜露",
    "星礈",
    "K/O",
    "尚勃勒",
    "霓虹",
    "黑梦",
    "海神",
    "盖可",
    "钢锁",
    "壹决",
    "暮蝶",
    "维斯",
    "钛狐",
    "迷核",
    "幻棱",
    "禁灭",
];

pub const ACLOS_AGENT_ASSET_IDS: [(&'static str, &'static str); 16] = [
    ("02", "Jett"),
    ("03", "Raze"),
    ("04", "Omen"),
    ("06", "Phoenix"),
    ("07", "Sage"),
    ("08", "Sova"),
    ("10", "Cypher"),
    ("11", "Reyna"),
    ("13", "Skye"),
    ("16", "KAY/O"),
    ("17", "Chamber"),
    ("18", "Neon"),
    ("23", "Iso"),
    ("24", "Clove"),
    ("25", "Vyse"),
    ("29", "Veto"),
];

// ---------------------------------------------------------------------------------------------
// Table lookups
// ---------------------------------------------------------------------------------------------

/// The display name of the first alias in `table` that equals `value` ignoring ASCII case.
pub open spec fn lookup_in(table: Seq<(&str, &str)>, value: Seq<char>) -> Option<Seq<char>>
    decreases table.len(),
{
    if table.len() == 0 {
        None
    } else if eq_ic(table[0].0@, value) {
        Some(table[0].1@)
    } else {
        lookup_in(table.drop_first(), value)
    }
}

/// The first name in `names` that equals `value` ignoring ASCII case.
pub open spec fn find_name_in(names: Seq<&str>, value: Seq<char>) -> Option<Seq<char>>
    decreases names.len(),
{
    if names.len() == 0 {
        None
    } else if eq_ic(names[0]@, value) {
        Some(names[0]@)
    } else {
        find_name_in(names.drop_first(), value)
    }
}

fn lookup_table(table: &[(&'static str, &'static str)], value: &[char]) -> (res: Option<Vec<char>>)
    ensures
        opt_chars(res) == lookup_in(table@, value@),
{
    let mut i: usize = 0;
    assert(table@.skip(0) =~= table@);
    while i < table.len()
        invariant
            i <= table@.len(),
            lookup_in(table@, value@) == lookup_in(table@.skip(i as int), value@),
        decreases table.len() - i,
    {
        assert(table@.skip(i as int).drop_first() =~= table@.skip(i + 1));
        let (alias, display) = table[i];
        let alias_chars = chars_of(alias);
        if eq_ignore_case(&alias_chars, value) {
            return Some(chars_of(display));
        }
        i = i + 1;
    }
    None
}

fn find_name(names: &[&'static str], value: &[char]) -> (res: Option<Vec<char>>)
    ensures
        opt_chars(res) == find_name_in(names@, value@),
{
    let mut i: usize = 0;
    assert(names@.skip(0) =~= names@);
    while i < names.len()
        invariant
            i <= names@.len(),
            find_name_in(names@, value@) == find_name_in(names@.skip(i as int), value@),
        decreases names.len() - i,
    {
        assert(names@.skip(i as int).drop_first() =~= names@.skip(i + 1));
        let name = chars_of(names[i]);
        if eq_ignore_case(&name, value) {
            return Some(name);
        }
        i = i + 1;
    }
    None
}


// ---------------------------------------------------------------------------------------------
// Asset references and path tails
// ---------------------------------------------------------------------------------------------

/// The case-folded, slash-normalised form used to recognise asset references.
pub open spec fn asset_probe(v: Seq<char>) -> Seq<char> {
    lower_seq(replace_char(trim(v), '\\', '/'))
}

/// `value` names an engine asset or an image rather than a human-readable name.
pub open spec fn is_asset_reference(v: Seq<char>) -> bool {
    let l = asset_probe(v);
    starts_with(l, "/game/"@) || starts_with(l, "cards/"@) || contains(l, "/cards/"@) || contains(
        l,
        "card: cards/"@,
    ) || contains(l, ":persistentlevel."@) || contains(l, "_primaryasset"@) || contains(
        l,
        "_primarydataasset"@,
    ) || ends_with(l, ".png"@) || ends_with(l, ".jpg"@) || ends_with(l, ".jpeg"@) || ends_with(
        l,
        ".webp"@,
    )
}

/// The trimmed last `/`-separated segment of `value` with surrounding slashes removed.
pub open spec fn path_tail(v: Seq<char>) -> Option<Seq<char>> {
    let t = trim(after_last(strip_char(v, '/'), '/'));
    if t.len() == 0 {
        None
    } else {
        Some(t)
    }
}

/// The short name inside an internal asset path such as
/// `/Game/Characters/Jett/Jett_PrimaryAsset.Jett_PrimaryAsset_C`, when it differs from the
/// trimmed input.
pub open spec fn internal_asset(v: Seq<char>) -> Option<Seq<char>> {
    let trimmed = trim(v);
    match path_tail(trimmed) {
        None => None,
        Some(tail) => {
            let c = trim(
                before_first_char(
                    strip_suffix_all(
                        strip_suffix_all(
                            strip_suffix_all(
                                strip_prefix_all(after_last(tail, '.'), "Default__"@),
                                "_C"@,
                            ),
                            "_PrimaryAsset"@,
                        ),
                        "_PrimaryDataAsset"@,
                    ),
                    '_',
                ),
            );
            if c.len() == 0 || c == trimmed {
                None
            } else {
                Some(c)
            }
        },
    }
}

/// The short name of an internal asset path is a plain name: not empty, trimmed, different
/// from the trimmed input, and free of `/`, `.` and `_`.
pub proof fn law_internal_asset_is_plain_name(v: Seq<char>)
    ensures
        internal_asset(v) matches Some(x) ==> {
            &&& x.len() > 0
            &&& x != trim(v)
            &&& trim(x) == x
            &&& !x.contains('/')
            &&& !x.contains('.')
            &&& !x.contains('_')
        },
{
    let trimmed = trim(v);
    if let Some(tail) = path_tail(trimmed) {
        let stripped = strip_char(trimmed, '/');
        crate::text::lemma_cut_at_char(stripped, '/');
        crate::text::lemma_trim_within(after_last(stripped, '/'));
        assert(!tail.contains('/'));
        let a = after_last(tail, '.');
        crate::text::lemma_cut_at_char(tail, '.');
        let b = strip_prefix_all(a, "Default__"@);
        crate::text::lemma_strip_affixes_within(a, "Default__"@);
        let c1 = strip_suffix_all(b, "_C"@);
        crate::text::lemma_strip_affixes_within(b, "_C"@);
        let c2 = strip_suffix_all(c1, "_PrimaryAsset"@);
        crate::text::lemma_strip_affixes_within(c1, "_PrimaryAsset"@);
        let c3 = strip_suffix_all(c2, "_PrimaryDataAsset"@);
        crate::text::lemma_strip_affixes_within(c2, "_PrimaryDataAsset"@);
        let d = before_first_char(c3, '_');
        crate::text::lemma_cut_at_char(c3, '_');
        let x = trim(d);
        crate::text::lemma_trim_within(d);
        crate::text::lemma_trim_idempotent(d);
        assert(!x.contains('/'));
        assert(!x.contains('.'));
        assert(!x.contains('_'));
    }
}

/// The trimmed value when it is neither empty nor an asset reference.
pub open spec fn lookup_value(v: Seq<char>) -> Option<Seq<char>> {
    let t = trim(v);
    if t.len() == 0 || is_asset_reference(t) {
        None
    } else {
        Some(t)
    }
}

/// The internal asset name of `v` when it has one, else the trimmed `v`.
pub open spec fn asset_candidate(v: Seq<char>) -> Seq<char> {
    match internal_asset(v) {
        Some(c) => c,
        None => trim(v),
    }
}

fn asset_probe_exec(v: &[char]) -> (res: Vec<char>)
    ensures
        res@ == asset_probe(v@),
{
    let t = trim_exec(v);
    let r = replace_char_exec(&t, '\\', '/');
    to_lower(&r)
}

fn is_asset_reference_chars(v: &[char]) -> (res: bool)
    ensures
        res == is_asset_reference(v@),
{
    let l = asset_probe_exec(v);
    starts_with_exec(&l, &chars_of("/game/")) || starts_with_exec(&l, &chars_of("cards/"))
        || contains_exec(&l, &chars_of("/cards/")) || contains_exec(&l, &chars_of("card: cards/"))
        || contains_exec(&l, &chars_of(":persistentlevel.")) || contains_exec(
        &l,
        &chars_of("_primaryasset"),
    ) || contains_exec(&l, &chars_of("_primarydataasset")) || ends_with_exec(
        &l,
        &chars_of(".png"),
    ) || ends_with_exec(&l, &chars_of(".jpg")) || ends_with_exec(&l, &chars_of(".jpeg"))
        || ends_with_exec(&l, &chars_of(".webp"))
}

/// Whether `value` looks like an engine asset path, card asset or image file rather than a
/// display name.
pub fn looks_like_asset_reference(value: &str) -> (res: bool)
    ensures
        res == is_asset_reference(value@),
{
    let v = chars_of(value);
    is_asset_reference_chars(&v)
}

fn path_tail_chars(v: &[char]) -> (res: Option<Vec<char>>)
    ensures
        opt_chars(res) == path_tail(v@),
{
    let a = strip_char_exec(v, '/');
    let b = after_last_exec(&a, '/');
    let t = trim_exec(&b);
    if t.len() == 0 {
        None
    } else {
        Some(t)
    }
}

pub fn internal_asset_chars(v: &[char]) -> (res: Option<Vec<char>>)
    ensures
        opt_chars(res) == internal_asset(v@),
{
    let trimmed = trim_exec(v);
    let tail = match path_tail_chars(&trimmed) {
        Some(tail) => tail,
        None => return None,
    };
    let c1 = after_last_exec(&tail, '.');
    let c2 = strip_prefix_all_exec(&c1, &chars_of("Default__"));
    let c3 = strip_suffix_all_exec(&c2, &chars_of("_C"));
    let c4 = strip_suffix_all_exec(&c3, &chars_of("_PrimaryAsset"));
    let c5 = strip_suffix_all_exec(&c4, &chars_of("_PrimaryDataAsset"));
    let c6 = before_first_char_exec(&c5, '_');
    let c = trim_exec(&c6);
    if c.len() == 0 || crate::text::seq_eq(&c, &trimmed) {
        None
    } else {
        Some(c)
    }
}

/// The short asset name inside an internal asset path (for example `Jett` inside
/// `/Game/Characters/Jett/Jett_PrimaryAsset.Jett_PrimaryAsset_C`); `None` when nothing
/// shorter than the trimmed input can be extracted.
pub fn internal_asset_name(value: &str) -> (res: Option<String>)
    ensures
        opt_string(res) == internal_asset(value@),
{
    let v = chars_of(value);
    opt_to_string(internal_asset_chars(&v))
}

fn lookup_value_chars(v: &[char]) -> (res: Option<Vec<char>>)
    ensures
        opt_chars(res) == lookup_value(v@),
{
    let t = trim_exec(v);
    if t.len() == 0 || is_asset_reference_chars(&t) {
        None
    } else {
        proof {
            crate::text::lemma_trim_idempotent(v@);
        }
        Some(t)
    }
}

fn asset_candidate_chars(v: &[char]) -> (res: Vec<char>)
    ensures
        res@ == asset_candidate(v@),
{
    match internal_asset_chars(v) {
        Some(c) => c,
        None => trim_exec(v),
    }
}


/// The trimmed last path segment of `value` once surrounding slashes are removed; `None` when
/// that segment is empty.
pub fn path_tail_name(value: &str) -> (res: Option<String>)
    ensures
        opt_string(res) == path_tail(value@),
{
    let v = chars_of(value);
    opt_to_string(path_tail_chars(&v))
}

// ---------------------------------------------------------------------------------------------
// Maps and game modes
// ---------------------------------------------------------------------------------------------

/// The Chinese name of a known map, looked up by alias or internal asset path.
pub open spec fn known_map_name(v: Seq<char>) -> Option<Seq<char>> {
    match lookup_value(asset_candidate(v)) {
        None => None,
        Some(c) => lookup_in(MAP_NAME_ALIASES@, c),
    }
}

/// The display name of a map: its Chinese name when known, else the cleaned value.
pub open spec fn map_name(v: Seq<char>) -> Option<Seq<char>> {
    match lookup_value(asset_candidate(v)) {
        None => None,
        Some(c) => Some(
            match known_map_name(c) {
                Some(d) => d,
                None => c,
            },
        ),
    }
}

/// The display name of a game mode; purely numeric mode ids have none.
pub open spec fn game_mode_name(v: Seq<char>) -> Option<Seq<char>> {
    match lookup_value(asset_candidate(v)) {
        None => None,
        Some(c) => if crate::text::all_digits(c) {
            None
        } else {
            Some(
                match lookup_in(GAME_MODE_ALIASES@, c) {
                    Some(d) => d,
                    None => c,
                },
            )
        },
    }
}

fn known_map_name_chars(v: &[char]) -> (res: Option<Vec<char>>)
    ensures
        opt_chars(res) == known_map_name(v@),
{
    let candidate = asset_candidate_chars(v);
    match lookup_value_chars(&candidate) {
        None => None,
        Some(c) => lookup_table(&MAP_NAME_ALIASES, &c),
    }
}

pub fn map_name_chars(v: &[char]) -> (res: Option<Vec<char>>)
    ensures
        opt_chars(res) == map_name(v@),
{
    let candidate = asset_candidate_chars(v);
    match lookup_value_chars(&candidate) {
        None => None,
        Some(c) => match known_map_name_chars(&c) {
            Some(d) => Some(d),
            None => Some(c),
        },
    }
}

/// The display name of a map given by alias (`Ascent`), code name (`Bonsai`) or internal asset
/// path (`/Game/Maps/Plummet/Plummet`): the mainland Chinese name when the map is known,
/// otherwise the cleaned value. `None` for empty values and asset references.
pub fn map_name_for_display(value: &str) -> (res: Option<String>)
    ensures
        opt_string(res) == map_name(value@),
{
    let v = chars_of(value);
    opt_to_string(map_name_chars(&v))
}

/// The mainland Chinese name of a known map; `None` for unknown maps.
pub fn known_map_name_for_display(value: &str) -> (res: Option<String>)
    ensures
        opt_string(res) == known_map_name(value@),
{
    let v = chars_of(value);
    opt_to_string(known_map_name_chars(&v))
}

/// Names that older releases displayed for a map and that no longer apply.
pub open spec fn is_obsolete_map_name(v: Seq<char>) -> bool {
    trim(v) == "幽邃迷境"@ || trim(v) == "迷邃幽境"@
}

/// Whether `value` is a map display name that earlier releases used and that is now
/// obsolete.
pub fn is_obsolete_map_display_name(value: &str) -> (res: bool)
    ensures
        res == is_obsolete_map_name(value@),
{
    let t = trim_str(value);
    crate::text::seq_eq(&t, &chars_of("幽邃迷境")) || crate::text::seq_eq(&t, &chars_of("迷邃幽境"))
}

pub fn game_mode_chars(v: &[char]) -> (res: Option<Vec<char>>)
    ensures
        opt_chars(res) == game_mode_name(v@),
{
    let candidate = asset_candidate_chars(v);
    match lookup_value_chars(&candidate) {
        None => None,
        Some(c) => {
            if crate::text::all_digits_exec(&c) {
                None
            } else {
                match lookup_table(&GAME_MODE_ALIASES, &c) {
                    Some(d) => Some(d),
                    None => Some(c),
                }
            }
        },
    }
}

/// The display name of a game mode (`BombGameMode` and `Competitive` become `竞技模式`);
/// unknown modes keep their cleaned value and numeric mode ids have no name.
pub fn game_mode_for_display(value: &str) -> (res: Option<String>)
    ensures
        opt_string(res) == game_mode_name(value@),
{
    let v = chars_of(value);
    opt_to_string(game_mode_chars(&v))
}

// ---------------------------------------------------------------------------------------------
// Players
// ---------------------------------------------------------------------------------------------

/// A player name as displayed: trimmed, with a Riot tag normalised to `name#tag`; `None` when
/// empty, when the value is an asset reference, or when either side of the `#` is empty.
pub open spec fn player_name(v: Seq<char>) -> Option<Seq<char>> {
    let t = trim(v);
    if t.len() == 0 || is_asset_reference(t) {
        None
    } else {
        match crate::text::split_once(t, '#') {
            Some((name, tag)) => {
                let n = trim(name);
                let g = trim(crate::text::strip_start_char(trim(tag), '#'));
                if n.len() == 0 || g.len() == 0 {
                    None
                } else {
                    Some(n + seq!['#'] + g)
                }
            },
            None => Some(t),
        }
    }
}

/// The character map that `asset_probe` applies to a trimmed value.
pub open spec fn probe_char(c: char) -> char {
    crate::text::lower(if c == '\\' { '/' } else { c })
}

proof fn lemma_probe_at(s: Seq<char>)
    requires
        trim(s) == s,
    ensures
        asset_probe(s).len() == s.len(),
        forall|k: int| 0 <= k < s.len() ==> #[trigger] asset_probe(s)[k] == probe_char(s[k]),
{
}

/// `x` is `t`'s first `n_len` characters, a `#`, and `t`'s last `x.len() - n_len - 1` characters,
/// with at least the `#` of `t` between them.
pub open spec fn joined_around_hash(x: Seq<char>, t: Seq<char>, n_len: int) -> bool {
    &&& 0 <= n_len < x.len() <= t.len()
    &&& x[n_len] == '#'
    &&& forall|k: int| 0 <= k < n_len ==> #[trigger] x[k] == t[k]
    &&& forall|k: int| n_len < k < x.len() ==> #[trigger] x[k] == t[k + t.len() - x.len()]
}

pub open spec fn hash_free(p: Seq<char>) -> bool {
    forall|k: int| 0 <= k < p.len() ==> #[trigger] p[k] != '#'
}

/// A `#`-free pattern found in the probe of `x` is found in the probe of `t`, at its start, at
/// its end, or anywhere.
proof fn lemma_pattern_carries(x: Seq<char>, t: Seq<char>, n_len: int, p: Seq<char>)
    requires
        trim(x) == x,
        trim(t) == t,
        joined_around_hash(x, t, n_len),
        hash_free(p),
    ensures
        starts_with(asset_probe(x), p) ==> starts_with(asset_probe(t), p),
        ends_with(asset_probe(x), p) ==> ends_with(asset_probe(t), p),
        contains(asset_probe(x), p) ==> contains(asset_probe(t), p),
{
    lemma_probe_at(x);
    lemma_probe_at(t);
    let fx = asset_probe(x);
    let ft = asset_probe(t);
    let d = t.len() - x.len();
    assert(probe_char('#') == '#');
    if starts_with(fx, p) {
        if p.len() > n_len {
            assert(fx.subrange(0, p.len() as int)[n_len] == fx[n_len]);
            assert(p[n_len] == '#');
        }
        assert forall|k: int| 0 <= k < p.len() implies ft.subrange(0, p.len() as int)[k] == p[k] by {
            assert(fx.subrange(0, p.len() as int)[k] == fx[k]);
            assert(x[k] == t[k]);
        }
        assert(ft.subrange(0, p.len() as int) =~= p);
    }
    if ends_with(fx, p) {
        let st = x.len() - p.len();
        if st <= n_len {
            assert(fx.subrange(st, x.len() as int)[n_len - st] == fx[n_len]);
            assert(p[n_len - st] == '#');
        }
        assert forall|k: int| 0 <= k < p.len() implies ft.subrange(t.len() - p.len(), t.len() as int)[k] == p[k] by {
            assert(fx.subrange(st, x.len() as int)[k] == fx[st + k]);
            assert(x[st + k] == t[st + k + d]);
        }
        assert(ft.subrange(t.len() - p.len(), t.len() as int) =~= p);
    }
    if contains(fx, p) {
        crate::text::lemma_find_from(fx, p, 0);
        let j = crate::text::find(fx, p)->0;
        assert(crate::text::occurs_at(fx, p, j));
        let j2 = if j + p.len() <= n_len {
            j
        } else {
            j + d
        };
        if j <= n_len && n_len < j + p.len() {
            assert(fx.subrange(j, j + p.len())[n_len - j] == fx[n_len]);
            assert(p[n_len - j] == '#');
        }
        assert forall|k: int| 0 <= k < p.len() implies ft.subrange(j2, j2 + p.len())[k] == p[k] by {
            assert(fx.subrange(j, j + p.len())[k] == fx[j + k]);
            if j + p.len() <= n_len {
                assert(x[j + k] == t[j + k]);
            } else {
                assert(x[j + k] == t[j + k + d]);
            }
        }
        assert(ft.subrange(j2, j2 + p.len()) =~= p);
        assert(crate::text::occurs_at(ft, p, j2));
        crate::text::lemma_find_from(ft, p, 0);
    }
}

/// A value joined from the two ends of a value that is no asset reference is none either.
proof fn lemma_join_not_asset(x: Seq<char>, t: Seq<char>, n_len: int)
    requires
        trim(x) == x,
        trim(t) == t,
        joined_around_hash(x, t, n_len),
        !is_asset_reference(t),
    ensures
        !is_asset_reference(x),
{
    reveal_strlit("/game/");
    reveal_strlit("cards/");
    reveal_strlit("/cards/");
    reveal_strlit("card: cards/");
    reveal_strlit(":persistentlevel.");
    reveal_strlit("_primaryasset");
    reveal_strlit("_primarydataasset");
    reveal_strlit(".png");
    reveal_strlit(".jpg");
    reveal_strlit(".jpeg");
    reveal_strlit(".webp");
    lemma_pattern_carries(x, t, n_len, "/game/"@);
    lemma_pattern_carries(x, t, n_len, "cards/"@);
    lemma_pattern_carries(x, t, n_len, "/cards/"@);
    lemma_pattern_carries(x, t, n_len, "card: cards/"@);
    lemma_pattern_carries(x, t, n_len, ":persistentlevel."@);
    lemma_pattern_carries(x, t, n_len, "_primaryasset"@);
    lemma_pattern_carries(x, t, n_len, "_primarydataasset"@);
    lemma_pattern_carries(x, t, n_len, ".png"@);
    lemma_pattern_carries(x, t, n_len, ".jpg"@);
    lemma_pattern_carries(x, t, n_len, ".jpeg"@);
    lemma_pattern_carries(x, t, n_len, ".webp"@);
}

/// The tag of a displayed name (what follows its first `#`) starts with another `#`.
pub open spec fn tag_starts_with_hash(x: Seq<char>) -> bool {
    crate::text::split_once(x, '#') matches Some((_, tg)) && tg.len() > 0 && tg[0] == '#'
}

/// A displayed player name is not empty, trimmed and no asset reference, and displays as itself
/// unless its tag still starts with `#` after the cleaning (as `a## #b` gives `a##b`, which a
/// second pass cleans to `a#b`).
pub proof fn law_player_name_is_clean(v: Seq<char>)
    ensures
        player_name(v) matches Some(x) ==> {
            &&& x.len() > 0
            &&& trim(x) == x
            &&& !is_asset_reference(x)
            &&& (!tag_starts_with_hash(x) ==> player_name(x) == Some(x))
        },
{
    let t = trim(v);
    crate::text::lemma_trim_idempotent(v);
    crate::text::lemma_trim_ends(v);
    crate::text::lemma_char_pos_from(t, '#', 0);
    if let Some(x) = player_name(v) {
        match crate::text::split_once(t, '#') {
            Some((name, tag)) => {
                let i = crate::text::char_pos_from(t, '#', 0)->0;
                let n = trim(name);
                let u1 = trim(tag);
                let u2 = crate::text::strip_start_char(u1, '#');
                let g = trim(u2);
                crate::text::lemma_trim_ends(name);
                crate::text::lemma_trim_ends(u2);
                assert(x == n + seq!['#'] + g);
                assert(!crate::text::is_ws('#'));
                crate::text::lemma_trim_fixed(x);
                // `n` opens `t`.
                assert(name == t.take(i));
                assert(name[0] == t[0]);
                assert(crate::text::trim_start(name) == name);
                crate::text::lemma_trim_sides(name);
                assert forall|k: int| 0 <= k < n.len() implies #[trigger] n[k] == t[k] by {
                    assert(name.take(n.len() as int)[k] == name[k]);
                }
                // `g` closes `t`.
                assert(tag == t.skip(i + 1));
                let ts = crate::text::trim_start(tag);
                crate::text::lemma_trim_sides(tag);
                crate::text::lemma_trim_sides(u2);
                crate::text::lemma_strip_start_char_suffix(u1, '#');
                crate::text::lemma_trim_sides(ts);
                let u2s = crate::text::trim_start(u2);
                assert(u2s.len() > 0);
                assert(u2s.last() == u2.last());
                assert(u2.last() == u1.last());
                assert(ts.len() > 0);
                assert(ts.last() == tag.last());
                assert(tag.last() == t.last());
                assert(crate::text::trim_end(ts) == ts);
                assert(u1 == ts);
                assert(crate::text::trim_end(u2s) == u2s);
                assert(g == u2s);
                assert forall|m: int| 0 <= m < g.len() implies #[trigger] g[m] == t[t.len() - g.len() + m] by {
                    assert(g[m] == u2[u2.len() - g.len() + m]);
                    assert(u2[u2.len() - g.len() + m] == u1[u1.len() - g.len() + m]);
                    assert(u1[u1.len() - g.len() + m] == tag[tag.len() - g.len() + m]);
                }
                assert(joined_around_hash(x, t, n.len() as int)) by {
                    assert forall|k: int| n.len() < k < x.len() implies #[trigger] x[k] == t[k + t.len() - x.len()] by {
                        assert(x[k] == g[k - n.len() - 1]);
                    }
                    assert forall|k: int| 0 <= k < n.len() implies #[trigger] x[k] == t[k] by {
                        assert(x[k] == n[k]);
                    }
                }
                lemma_join_not_asset(x, t, n.len() as int);
                // A second pass splits at the same `#`.
                crate::text::lemma_char_pos_from(x, '#', 0);
                let p = crate::text::char_pos_from(x, '#', 0)->0;
                if p < n.len() {
                    assert(x[p] == t[p]);
                }
                assert(p == n.len());
                assert(x.take(p) =~= n);
                assert(x.skip(p + 1) =~= g);
                crate::text::lemma_trim_idempotent(name);
                crate::text::lemma_trim_idempotent(u2);
                if !tag_starts_with_hash(x) {
                    assert(crate::text::strip_start_char(g, '#') == g);
                    assert(trim(g) == g);
                    assert(player_name(x) == Some(n + seq!['#'] + g));
                }
            },
            None => {
                assert(x == t);
                crate::text::lemma_trim_idempotent(t);
            },
        }
    }
}

pub fn player_name_chars(v: &[char]) -> (res: Option<Vec<char>>)
    ensures
        opt_chars(res) == player_name(v@),
{
    let t = trim_exec(v);
    if t.len() == 0 || is_asset_reference_chars(&t) {
        return None;
    }
    match crate::text::split_once_exec(&t, '#') {
        Some((name, tag)) => {
            let n = trim_exec(&name);
            let t1 = trim_exec(&tag);
            let t2 = crate::text::strip_start_char_exec(&t1, '#');
            let g = trim_exec(&t2);
            if n.len() == 0 || g.len() == 0 {
                None
            } else {
                let mut out = n;
                out.push('#');
                let joined = crate::text::concat(&out, &g);
                Some(joined)
            }
        },
        None => Some(t),
    }
}

/// A player name for display: the trimmed value, with `name # tag` normalised to
/// `name#tag`.
pub fn player_name_for_display(value: &str) -> (res: Option<String>)
    ensures
        opt_string(res) == player_name(value@),
{
    let v = chars_of(value);
    opt_to_string(player_name_chars(&v))
}


// ---------------------------------------------------------------------------------------------
// Agents
// ---------------------------------------------------------------------------------------------

/// The canonical (source-facing) agent name of a known alias or localized name.
pub open spec fn known_agent_name(v: Seq<char>) -> Option<Seq<char>> {
    match lookup_value(v) {
        None => None,
        Some(c) => match lookup_in(AGENT_NAME_ALIASES@, c) {
            Some(d) => Some(d),
            None => find_name_in(LOCALIZED_AGENT_NAMES@, c),
        },
    }
}

/// The canonical agent name of a value given directly or as an internal asset path.
pub open spec fn agent_name(v: Seq<char>) -> Option<Seq<char>> {
    let t = trim(v);
    match known_agent_name(t) {
        Some(a) => Some(a),
        None => match internal_asset(t) {
            None => None,
            Some(c) => known_agent_name(c),
        },
    }
}

/// The localized (mainland Chinese) agent name.
pub open spec fn localized_agent_name(v: Seq<char>) -> Option<Seq<char>> {
    match agent_name(v) {
        None => None,
        Some(canonical) => match lookup_in(LOCALIZED_AGENT_NAME_ALIASES@, canonical) {
            Some(d) => Some(d),
            None => find_name_in(LOCALIZED_AGENT_NAMES@, canonical),
        },
    }
}

fn known_agent_name_chars(v: &[char]) -> (res: Option<Vec<char>>)
    ensures
        opt_chars(res) == known_agent_name(v@),
{
    match lookup_value_chars(v) {
        None => None,
        Some(c) => match lookup_table(&AGENT_NAME_ALIASES, &c) {
            Some(d) => Some(d),
            None => find_name(&LOCALIZED_AGENT_NAMES, &c),
        },
    }
}

pub fn agent_name_chars(v: &[char]) -> (res: Option<Vec<char>>)
    ensures
        opt_chars(res) == agent_name(v@),
{
    let t = trim_exec(v);
    match known_agent_name_chars(&t) {
        Some(a) => Some(a),
        None => match internal_asset_chars(&t) {
            None => None,
            Some(c) => known_agent_name_chars(&c),
        },
    }
}

fn localized_agent_name_chars(v: &[char]) -> (res: Option<Vec<char>>)
    ensures
        opt_chars(res) == localized_agent_name(v@),
{
    match agent_name_chars(v) {
        None => None,
        Some(canonical) => match lookup_table(&LOCALIZED_AGENT_NAME_ALIASES, &canonical) {
            Some(d) => Some(d),
            None => find_name(&LOCALIZED_AGENT_NAMES, &canonical),
        },
    }
}

/// The canonical, source-facing agent name (`Jett`, `KAY/O`) for an alias, a localized name
/// or an internal asset path such as `/Game/Characters/Jett/Jett_PrimaryAsset`.
pub fn agent_name_for_display(value: &str) -> (res: Option<String>)
    ensures
        opt_string(res) == agent_name(value@),
{
    let v = chars_of(value);
    opt_to_string(agent_name_chars(&v))
}

/// Returns the localized agent label used by the frontend and library facets.
///
/// Stored metadata intentionally keeps the source-facing agent value (for example `Jett`),
/// while the UI presents the mainland Chinese name (`捷风`).
pub fn localized_agent_name_for_display(value: &str) -> (res: Option<String>)
    ensures
        opt_string(res) == localized_agent_name(value@),
{
    let v = chars_of(value);
    opt_to_string(localized_agent_name_chars(&v))
}

/// Some value in `values` equals `alias` ignoring ASCII case.
pub open spec fn has_value_ic(values: Seq<Seq<char>>, alias: Seq<char>) -> bool {
    exists|k: int| 0 <= k < values.len() && eq_ic(#[trigger] values[k], alias)
}

/// Walks `table` in order and appends each alias whose localized name is `localized` and that
/// `values` does not already hold (ignoring ASCII case).
pub open spec fn expand_aliases(
    values: Seq<Seq<char>>,
    table: Seq<(&str, &str)>,
    localized: Seq<char>,
) -> Seq<Seq<char>>
    decreases table.len(),
{
    if table.len() == 0 {
        values
    } else {
        let alias = table[0].0@;
        let next = if localized_agent_name(alias) == Some(localized) && !has_value_ic(
            values,
            alias,
        ) {
            values.push(alias)
        } else {
            values
        };
        expand_aliases(next, table.drop_first(), localized)
    }
}

/// Every stored value that represents the agent selected by `v`: its localized name first,
/// then each source alias that localizes to it.
pub open spec fn agent_filter_values(v: Seq<char>) -> Seq<Seq<char>> {
    match localized_agent_name(v) {
        None => Seq::empty(),
        Some(l) => expand_aliases(seq![l], AGENT_NAME_ALIASES@, l),
    }
}

/// Expanding keeps the values already held, appends only aliases that localize to `localized`,
/// and keeps the values pairwise different ignoring ASCII case.
pub proof fn lemma_expand_aliases(values: Seq<Seq<char>>, table: Seq<(&str, &str)>, localized: Seq<char>)
    requires
        forall|i: int, j: int| 0 <= i < j < values.len() ==> !eq_ic(#[trigger] values[i], #[trigger] values[j]),
    ensures
        values.len() <= expand_aliases(values, table, localized).len(),
        expand_aliases(values, table, localized).take(values.len() as int) == values,
        forall|k: int|
            values.len() <= k < expand_aliases(values, table, localized).len() ==> localized_agent_name(
                #[trigger] expand_aliases(values, table, localized)[k],
            ) == Some(localized),
        forall|i: int, j: int|
            0 <= i < j < expand_aliases(values, table, localized).len() ==> !eq_ic(
                #[trigger] expand_aliases(values, table, localized)[i],
                #[trigger] expand_aliases(values, table, localized)[j],
            ),
    decreases table.len(),
{
    if table.len() > 0 {
        let alias = table[0].0@;
        if localized_agent_name(alias) == Some(localized) && !has_value_ic(values, alias) {
            let next = values.push(alias);
            assert forall|i: int, j: int| 0 <= i < j < next.len() implies !eq_ic(
                #[trigger] next[i],
                #[trigger] next[j],
            ) by {
                if j == values.len() {
                    assert(next[i] == values[i]);
                    if eq_ic(values[i], alias) {
                        assert(has_value_ic(values, alias));
                    }
                } else {
                    assert(next[i] == values[i] && next[j] == values[j]);
                }
            }
            lemma_expand_aliases(next, table.drop_first(), localized);
            let out = expand_aliases(next, table.drop_first(), localized);
            assert(out.take(next.len() as int) == next);
            assert(out.take(values.len() as int) =~= values) by {
                assert forall|k: int| 0 <= k < values.len() implies out[k] == values[k] by {
                    assert(out.take(next.len() as int)[k] == next[k]);
                }
            }
            assert(out[values.len() as int] == alias) by {
                assert(out.take(next.len() as int)[values.len() as int] == next[values.len() as int]);
            }
        } else {
            lemma_expand_aliases(values, table.drop_first(), localized);
        }
    } else {
        assert(values.take(values.len() as int) =~= values);
    }
}

/// Expanding keeps the values already held, in front.
pub proof fn lemma_expand_aliases_prefix(values: Seq<Seq<char>>, table: Seq<(&str, &str)>, localized: Seq<char>)
    ensures
        values.len() <= expand_aliases(values, table, localized).len(),
        forall|k: int| 0 <= k < values.len() ==> #[trigger] expand_aliases(values, table, localized)[k] == values[k],
    decreases table.len(),
{
    if table.len() > 0 {
        let alias = table[0].0@;
        if localized_agent_name(alias) == Some(localized) && !has_value_ic(values, alias) {
            let next = values.push(alias);
            lemma_expand_aliases_prefix(next, table.drop_first(), localized);
            assert forall|k: int| 0 <= k < values.len() implies #[trigger] expand_aliases(values, table, localized)[k]
                == values[k] by {
                assert(next[k] == values[k]);
            }
        } else {
            lemma_expand_aliases_prefix(values, table.drop_first(), localized);
        }
    }
}

/// Expanding leaves out no alias of the table that localizes to `localized`: each is held,
/// up to ASCII case.
pub proof fn lemma_expand_aliases_complete(values: Seq<Seq<char>>, table: Seq<(&str, &str)>, localized: Seq<char>)
    ensures
        forall|t: int|
            0 <= t < table.len() && localized_agent_name(#[trigger] table[t].0@) == Some(localized) ==> has_value_ic(
                expand_aliases(values, table, localized),
                table[t].0@,
            ),
        forall|a: Seq<char>| has_value_ic(values, a) ==> #[trigger] has_value_ic(expand_aliases(values, table, localized), a),
    decreases table.len(),
{
    if table.len() > 0 {
        let alias = table[0].0@;
        let rest = table.drop_first();
        let next = if localized_agent_name(alias) == Some(localized) && !has_value_ic(values, alias) {
            values.push(alias)
        } else {
            values
        };
        lemma_expand_aliases_complete(next, rest, localized);
        lemma_expand_aliases_prefix(values, table, localized);
        let out = expand_aliases(values, table, localized);
        assert(out == expand_aliases(next, rest, localized));
        assert forall|a: Seq<char>| has_value_ic(values, a) implies #[trigger] has_value_ic(out, a) by {
            let k = choose|k: int| 0 <= k < values.len() && eq_ic(#[trigger] values[k], a);
            assert(out[k] == values[k]);
        }
        assert(has_value_ic(next, alias) || !(localized_agent_name(alias) == Some(localized))) by {
            if localized_agent_name(alias) == Some(localized) && !has_value_ic(values, alias) {
                assert(next[values.len() as int] == alias);
                assert(eq_ic(next[values.len() as int], alias));
            }
        }
        assert forall|t: int|
            0 <= t < table.len() && localized_agent_name(#[trigger] table[t].0@) == Some(localized) implies has_value_ic(
            out,
            table[t].0@,
        ) by {
            if t == 0 {
                if has_value_ic(values, alias) {
                } else {
                    assert(has_value_ic(next, alias));
                }
            } else {
                assert(rest[t - 1] == table[t]);
            }
        }
    }
}

/// Every value that a selection expands to names the same agent: the localized name comes
/// first and localizes to itself, each further value is a source alias that localizes to it, no two values are equal
/// ignoring ASCII case, and every source alias that localizes to the agent is among them (up
/// to ASCII case). A selection that names no agent expands to nothing.
pub proof fn law_filter_values_name_one_agent(v: Seq<char>)
    ensures
        localized_agent_name(v) is None <==> agent_filter_values(v).len() == 0,
        localized_agent_name(v) matches Some(l) ==> {
            &&& agent_filter_values(v)[0] == l
            &&& forall|k: int|
                0 <= k < agent_filter_values(v).len() ==> localized_agent_name(
                    #[trigger] agent_filter_values(v)[k],
                ) == Some(l)
        },
        forall|i: int, j: int|
            0 <= i < j < agent_filter_values(v).len() ==> !eq_ic(
                #[trigger] agent_filter_values(v)[i],
                #[trigger] agent_filter_values(v)[j],
            ),
        localized_agent_name(v) matches Some(l) ==> forall|t: int|
            0 <= t < AGENT_NAME_ALIASES@.len() && localized_agent_name(#[trigger] AGENT_NAME_ALIASES@[t].0@)
                == Some(l) ==> has_value_ic(agent_filter_values(v), AGENT_NAME_ALIASES@[t].0@),
{
    law_localized_name_is_its_own(v);
    if let Some(l) = localized_agent_name(v) {
        lemma_expand_aliases_complete(seq![l], AGENT_NAME_ALIASES@, l);
        lemma_expand_aliases(seq![l], AGENT_NAME_ALIASES@, l);
        let out = agent_filter_values(v);
        assert(out.take(1)[0] == out[0]);
    }
}

// ---------------------------------------------------------------------------------------------
// The localized names are their own localization
// ---------------------------------------------------------------------------------------------

/// Where `lookup_in` answers, some row's alias matched and its display name is the answer.
proof fn lemma_lookup_hit(table: Seq<(&str, &str)>, x: Seq<char>)
    ensures
        lookup_in(table, x) matches Some(d) ==> exists|k: int|
            #![trigger table[k]]
            0 <= k < table.len() && table[k].1@ == d && eq_ic(table[k].0@, x),
    decreases table.len(),
{
    if table.len() > 0 && !eq_ic(table[0].0@, x) {
        lemma_lookup_hit(table.drop_first(), x);
        if let Some(d) = lookup_in(table, x) {
            let k = choose|k: int|
                #![trigger table.drop_first()[k]]
                0 <= k < table.drop_first().len() && table.drop_first()[k].1@ == d && eq_ic(
                    table.drop_first()[k].0@,
                    x,
                );
            assert(table[k + 1] == table.drop_first()[k]);
        }
    }
}

/// A row whose alias matches `x` makes `lookup_in` answer.
proof fn lemma_lookup_found(table: Seq<(&str, &str)>, x: Seq<char>, k: int)
    requires
        0 <= k < table.len(),
        eq_ic(table[k].0@, x),
    ensures
        lookup_in(table, x) is Some,
    decreases table.len(),
{
    if k > 0 && !eq_ic(table[0].0@, x) {
        assert(table.drop_first()[k - 1] == table[k]);
        lemma_lookup_found(table.drop_first(), x, k - 1);
    }
}

/// Where `find_name_in` answers, the answer is one of the names and matches `x`.
proof fn lemma_find_name_hit(names: Seq<&str>, x: Seq<char>)
    ensures
        find_name_in(names, x) matches Some(d) ==> exists|j: int|
            #![trigger names[j]]
            0 <= j < names.len() && names[j]@ == d && eq_ic(d, x),
    decreases names.len(),
{
    if names.len() > 0 && !eq_ic(names[0]@, x) {
        lemma_find_name_hit(names.drop_first(), x);
        if let Some(d) = find_name_in(names, x) {
            let j = choose|j: int|
                #![trigger names.drop_first()[j]]
                0 <= j < names.drop_first().len() && names.drop_first()[j]@ == d && eq_ic(d, x);
            assert(names[j + 1] == names.drop_first()[j]);
        }
    }
}

/// A name that matches `x` makes `find_name_in` answer.
proof fn lemma_find_name_found(names: Seq<&str>, x: Seq<char>, j: int)
    requires
        0 <= j < names.len(),
        eq_ic(names[j]@, x),
    ensures
        find_name_in(names, x) is Some,
    decreases names.len(),
{
    if j > 0 && !eq_ic(names[0]@, x) {
        assert(names.drop_first()[j - 1] == names[j]);
        lemma_find_name_found(names.drop_first(), x, j - 1);
    }
}

/// The first character of `s` is ASCII.
pub open spec fn ascii_head(s: Seq<char>) -> bool {
    s.len() > 0 && (s[0] as u32) < 128
}

/// No character of `s` is ASCII.
pub open spec fn all_wide(s: Seq<char>) -> bool {
    forall|i: int| 0 <= i < s.len() ==> (#[trigger] s[i] as u32) >= 128
}

/// `s` cannot equal `K/O` ignoring ASCII case: its length or its first letter differs.
pub open spec fn unlike_ko(s: Seq<char>) -> bool {
    s.len() != 3 || (s[0] as u32) != 75 && (s[0] as u32) != 107
}

/// A localized name as the table holds it: short, trimmed, and either `K/O` or written
/// without ASCII characters.
pub open spec fn plain_localized(s: Seq<char>) -> bool {
    &&& 1 <= s.len() <= 3
    &&& !crate::text::is_ws(s[0])
    &&& !crate::text::is_ws(s.last())
    &&& (s == "K/O"@ || all_wide(s))
}

proof fn lemma_eq_ic_head(a: Seq<char>, b: Seq<char>)
    requires
        eq_ic(a, b),
    ensures
        a.len() == b.len(),
        a.len() > 0 ==> crate::text::lower(a[0]) == crate::text::lower(b[0]),
{
    assert(lower_seq(a).len() == a.len());
    assert(lower_seq(b).len() == b.len());
    if a.len() > 0 {
        assert(lower_seq(a)[0] == lower_seq(b)[0]);
    }
}

proof fn lemma_wide_lower(s: Seq<char>)
    requires
        all_wide(s),
    ensures
        lower_seq(s) == s,
{
    assert(lower_seq(s) =~= s);
}

/// A value with an ASCII first character never equals, ignoring ASCII case, one written
/// without ASCII characters.
proof fn lemma_ascii_unlike_wide(a: Seq<char>, b: Seq<char>)
    requires
        ascii_head(a),
        all_wide(b),
    ensures
        !eq_ic(a, b),
{
    if eq_ic(a, b) {
        lemma_eq_ic_head(a, b);
        assert((b[0] as u32) >= 128);
        assert(crate::text::lower(b[0]) == b[0]);
        let c = a[0];
        if crate::text::is_upper(c) {
            assert(((c as u32) + 32) as char as u32 == (c as u32) + 32);
        }
    }
}

/// An alias unlike `K/O` never equals it ignoring ASCII case.
proof fn lemma_unlike_ko(a: Seq<char>)
    requires
        unlike_ko(a),
        a.len() > 0,
    ensures
        !eq_ic(a, "K/O"@),
{
    reveal_strlit("K/O");
    if eq_ic(a, "K/O"@) {
        lemma_eq_ic_head(a, "K/O"@);
        let c = a[0];
        assert(crate::text::lower('K') as u32 == 107);
        if crate::text::is_upper(c) {
            assert(((c as u32) + 32) as char as u32 == (c as u32) + 32);
        } else {
            assert(c as u32 == 107);
        }
    }
}

/// What the three tables hold, read off their entries.
proof fn lemma_alias_heads()
    ensures
        forall|k: int|
            0 <= k < 33 ==> ascii_head(#[trigger] AGENT_NAME_ALIASES@[k].0@) && unlike_ko(
                AGENT_NAME_ALIASES@[k].0@,
            ),
        forall|k: int|
            0 <= k < 29 ==> ascii_head(#[trigger] LOCALIZED_AGENT_NAME_ALIASES@[k].0@) && unlike_ko(
                LOCALIZED_AGENT_NAME_ALIASES@[k].0@,
            ),
{
    reveal_strlit("Astra");
    reveal_strlit("Breach");
    reveal_strlit("Brimstone");
    reveal_strlit("Chamber");
    reveal_strlit("Clove");
    reveal_strlit("Cypher");
    reveal_strlit("Deadeye");
    reveal_strlit("Deadlock");
    reveal_strlit("Fade");
    reveal_strlit("Gekko");
    reveal_strlit("Harbor");
    reveal_strlit("Iso");
    reveal_strlit("Jett");
    reveal_strlit("KAY/O");
    reveal_strlit("Kayo");
    reveal_strlit("Killjoy");
    reveal_strlit("Miks");
    reveal_strlit("Neon");
    reveal_strlit("Nox");
    reveal_strlit("Omen");
    reveal_strlit("Phoenix");
    reveal_strlit("Raze");
    reveal_strlit("Reyna");
    reveal_strlit("Sage");
    reveal_strlit("Skye");
    reveal_strlit("Sova");
    reveal_strlit("Tejo");
    reveal_strlit("Vampire");
    reveal_strlit("Veto");
    reveal_strlit("Viper");
    reveal_strlit("Vyse");
    reveal_strlit("Waylay");
    reveal_strlit("Yoru");
}

proof fn lemma_localized_names_plain()
    ensures
        forall|j: int| 0 <= j < 29 ==> plain_localized(#[trigger] LOCALIZED_AGENT_NAMES@[j]@),
        forall|k: int|
            0 <= k < 29 ==> LOCALIZED_AGENT_NAME_ALIASES@[k].1@ == #[trigger] LOCALIZED_AGENT_NAMES@[k]@,
{
    reveal_strlit("炼狱");
    reveal_strlit("蝰蛇");
    reveal_strlit("幽影");
    reveal_strlit("奇乐");
    reveal_strlit("零");
    reveal_strlit("猎枭");
    reveal_strlit("贤者");
    reveal_strlit("不死鸟");
    reveal_strlit("捷风");
    reveal_strlit("芮娜");
    reveal_strlit("雷兹");
    reveal_strlit("铁臂");
    reveal_strlit("斯凯");
    reveal_strlit("夜露");
    reveal_strlit("星礈");
    reveal_strlit("K/O");
    reveal_strlit("尚勃勒");
    reveal_strlit("霓虹");
    reveal_strlit("黑梦");
    reveal_strlit("海神");
    reveal_strlit("盖可");
    reveal_strlit("钢锁");
    reveal_strlit("壹决");
    reveal_strlit("暮蝶");
    reveal_strlit("维斯");
    reveal_strlit("钛狐");
    reveal_strlit("迷核");
    reveal_strlit("幻棱");
    reveal_strlit("禁灭");
}

/// Every canonical agent name has a row in the localization table.
proof fn lemma_canonical_localizes(i: int)
    requires
        0 <= i < 33,
    ensures
        lookup_in(LOCALIZED_AGENT_NAME_ALIASES@, AGENT_NAME_ALIASES@[i].1@) is Some,
{
    if i == 0 {
        assert(LOCALIZED_AGENT_NAME_ALIASES@[14].0@ == AGENT_NAME_ALIASES@[0].1@);
    } else if i == 1 {
        assert(LOCALIZED_AGENT_NAME_ALIASES@[11].0@ == AGENT_NAME_ALIASES@[1].1@);
    } else if i == 2 {
        assert(LOCALIZED_AGENT_NAME_ALIASES@[0].0@ == AGENT_NAME_ALIASES@[2].1@);
    } else if i == 3 {
        assert(LOCALIZED_AGENT_NAME_ALIASES@[16].0@ == AGENT_NAME_ALIASES@[3].1@);
    } else if i == 4 {
        assert(LOCALIZED_AGENT_NAME_ALIASES@[23].0@ == AGENT_NAME_ALIASES@[4].1@);
    } else if i == 5 {
        assert(LOCALIZED_AGENT_NAME_ALIASES@[4].0@ == AGENT_NAME_ALIASES@[5].1@);
    } else if i == 6 {
        assert(LOCALIZED_AGENT_NAME_ALIASES@[21].0@ == AGENT_NAME_ALIASES@[6].1@);
    } else if i == 7 {
        assert(LOCALIZED_AGENT_NAME_ALIASES@[18].0@ == AGENT_NAME_ALIASES@[7].1@);
    } else if i == 8 {
        assert(LOCALIZED_AGENT_NAME_ALIASES@[20].0@ == AGENT_NAME_ALIASES@[8].1@);
    } else if i == 9 {
        assert(LOCALIZED_AGENT_NAME_ALIASES@[19].0@ == AGENT_NAME_ALIASES@[9].1@);
    } else if i == 10 {
        assert(LOCALIZED_AGENT_NAME_ALIASES@[22].0@ == AGENT_NAME_ALIASES@[10].1@);
    } else if i == 11 {
        assert(LOCALIZED_AGENT_NAME_ALIASES@[8].0@ == AGENT_NAME_ALIASES@[11].1@);
    } else if i == 12 {
        assert(LOCALIZED_AGENT_NAME_ALIASES@[15].0@ == AGENT_NAME_ALIASES@[12].1@);
    } else if i == 13 {
        assert(LOCALIZED_AGENT_NAME_ALIASES@[15].0@ == AGENT_NAME_ALIASES@[13].1@);
    } else if i == 14 {
        assert(LOCALIZED_AGENT_NAME_ALIASES@[3].0@ == AGENT_NAME_ALIASES@[14].1@);
    } else if i == 15 {
        assert(LOCALIZED_AGENT_NAME_ALIASES@[26].0@ == AGENT_NAME_ALIASES@[15].1@);
    } else if i == 16 {
        assert(LOCALIZED_AGENT_NAME_ALIASES@[17].0@ == AGENT_NAME_ALIASES@[16].1@);
    } else if i == 17 {
        assert(LOCALIZED_AGENT_NAME_ALIASES@[2].0@ == AGENT_NAME_ALIASES@[17].1@);
    } else if i == 18 {
        assert(LOCALIZED_AGENT_NAME_ALIASES@[7].0@ == AGENT_NAME_ALIASES@[18].1@);
    } else if i == 19 {
        assert(LOCALIZED_AGENT_NAME_ALIASES@[10].0@ == AGENT_NAME_ALIASES@[19].1@);
    } else if i == 20 {
        assert(LOCALIZED_AGENT_NAME_ALIASES@[9].0@ == AGENT_NAME_ALIASES@[20].1@);
    } else if i == 21 {
        assert(LOCALIZED_AGENT_NAME_ALIASES@[6].0@ == AGENT_NAME_ALIASES@[21].1@);
    } else if i == 22 {
        assert(LOCALIZED_AGENT_NAME_ALIASES@[12].0@ == AGENT_NAME_ALIASES@[22].1@);
    } else if i == 23 {
        assert(LOCALIZED_AGENT_NAME_ALIASES@[5].0@ == AGENT_NAME_ALIASES@[23].1@);
    } else if i == 24 {
        assert(LOCALIZED_AGENT_NAME_ALIASES@[25].0@ == AGENT_NAME_ALIASES@[24].1@);
    } else if i == 25 {
        assert(LOCALIZED_AGENT_NAME_ALIASES@[28].0@ == AGENT_NAME_ALIASES@[25].1@);
    } else if i == 26 {
        assert(LOCALIZED_AGENT_NAME_ALIASES@[1].0@ == AGENT_NAME_ALIASES@[26].1@);
    } else if i == 27 {
        assert(LOCALIZED_AGENT_NAME_ALIASES@[24].0@ == AGENT_NAME_ALIASES@[27].1@);
    } else if i == 28 {
        assert(LOCALIZED_AGENT_NAME_ALIASES@[27].0@ == AGENT_NAME_ALIASES@[28].1@);
    } else if i == 29 {
        assert(LOCALIZED_AGENT_NAME_ALIASES@[13].0@ == AGENT_NAME_ALIASES@[29].1@);
    } else if i == 30 {
        assert(LOCALIZED_AGENT_NAME_ALIASES@[9].0@ == AGENT_NAME_ALIASES@[30].1@);
    } else if i == 31 {
        assert(LOCALIZED_AGENT_NAME_ALIASES@[24].0@ == AGENT_NAME_ALIASES@[31].1@);
    } else if i == 32 {
        assert(LOCALIZED_AGENT_NAME_ALIASES@[16].0@ == AGENT_NAME_ALIASES@[32].1@);
    }
    let k = choose|k: int|
        0 <= k < 29 && #[trigger] LOCALIZED_AGENT_NAME_ALIASES@[k].0@ == AGENT_NAME_ALIASES@[i].1@;
    lemma_lookup_found(LOCALIZED_AGENT_NAME_ALIASES@, AGENT_NAME_ALIASES@[i].1@, k);
}

/// A value of at most three characters that is its own trim is no asset reference.
proof fn lemma_short_not_asset(s: Seq<char>)
    requires
        trim(s) == s,
        s.len() <= 3,
    ensures
        !is_asset_reference(s),
{
    reveal_strlit("/game/");
    reveal_strlit("cards/");
    reveal_strlit("/cards/");
    reveal_strlit("card: cards/");
    reveal_strlit(":persistentlevel.");
    reveal_strlit("_primaryasset");
    reveal_strlit("_primarydataasset");
    reveal_strlit(".png");
    reveal_strlit(".jpg");
    reveal_strlit(".jpeg");
    reveal_strlit(".webp");
    let l = asset_probe(s);
    assert(l.len() == s.len());
}

/// Two localized names that are equal ignoring ASCII case are equal.
proof fn lemma_localized_names_differ(i: int, j: int)
    requires
        0 <= i < 29,
        0 <= j < 29,
        eq_ic(LOCALIZED_AGENT_NAMES@[i]@, LOCALIZED_AGENT_NAMES@[j]@),
    ensures
        LOCALIZED_AGENT_NAMES@[i]@ == LOCALIZED_AGENT_NAMES@[j]@,
{
    lemma_localized_names_plain();
    reveal_strlit("K/O");
    let a = LOCALIZED_AGENT_NAMES@[i]@;
    let b = LOCALIZED_AGENT_NAMES@[j]@;
    assert(plain_localized(a) && plain_localized(b));
    assert(ascii_head("K/O"@));
    if a == "K/O"@ {
        if b != "K/O"@ {
            lemma_ascii_unlike_wide(a, b);
        }
    } else if b == "K/O"@ {
        lemma_ascii_unlike_wide(b, a);
    } else {
        lemma_wide_lower(a);
        lemma_wide_lower(b);
    }
}

/// No alias row of `table` (ASCII aliases unlike `K/O`) matches a localized name.
proof fn lemma_no_alias_matches(table: Seq<(&str, &str)>, j: int)
    requires
        0 <= j < 29,
        forall|k: int|
            0 <= k < table.len() ==> ascii_head(#[trigger] table[k].0@) && unlike_ko(table[k].0@),
    ensures
        lookup_in(table, LOCALIZED_AGENT_NAMES@[j]@) is None,
{
    lemma_localized_names_plain();
    let l = LOCALIZED_AGENT_NAMES@[j]@;
    assert(plain_localized(l));
    lemma_lookup_hit(table, l);
    if let Some(d) = lookup_in(table, l) {
        let k = choose|k: int|
            #![trigger table[k]]
            0 <= k < table.len() && table[k].1@ == d && eq_ic(table[k].0@, l);
        assert(ascii_head(table[k].0@) && unlike_ko(table[k].0@));
        if l == "K/O"@ {
            lemma_unlike_ko(table[k].0@);
        } else {
            lemma_ascii_unlike_wide(table[k].0@, l);
        }
    }
}

/// The first localized name that matches a localized name is that name.
proof fn lemma_find_localized(j: int)
    requires
        0 <= j < 29,
    ensures
        find_name_in(LOCALIZED_AGENT_NAMES@, LOCALIZED_AGENT_NAMES@[j]@) == Some(
            LOCALIZED_AGENT_NAMES@[j]@,
        ),
{
    let l = LOCALIZED_AGENT_NAMES@[j]@;
    assert(eq_ic(l, l));
    lemma_find_name_found(LOCALIZED_AGENT_NAMES@, l, j);
    lemma_find_name_hit(LOCALIZED_AGENT_NAMES@, l);
    let d = find_name_in(LOCALIZED_AGENT_NAMES@, l)->Some_0;
    let i = choose|i: int|
        #![trigger LOCALIZED_AGENT_NAMES@[i]]
        0 <= i < LOCALIZED_AGENT_NAMES@.len() && LOCALIZED_AGENT_NAMES@[i]@ == d && eq_ic(d, l);
    lemma_localized_names_differ(i, j);
}

/// Each localized name names its agent and localizes to itself.
proof fn lemma_localized_fixed(j: int)
    requires
        0 <= j < 29,
    ensures
        agent_name(LOCALIZED_AGENT_NAMES@[j]@) == Some(LOCALIZED_AGENT_NAMES@[j]@),
        localized_agent_name(LOCALIZED_AGENT_NAMES@[j]@) == Some(LOCALIZED_AGENT_NAMES@[j]@),
{
    lemma_localized_names_plain();
    lemma_alias_heads();
    let l = LOCALIZED_AGENT_NAMES@[j]@;
    assert(plain_localized(l));
    crate::text::lemma_trim_fixed(l);
    lemma_short_not_asset(l);
    assert(lookup_value(l) == Some(l));
    lemma_no_alias_matches(AGENT_NAME_ALIASES@, j);
    lemma_no_alias_matches(LOCALIZED_AGENT_NAME_ALIASES@, j);
    lemma_find_localized(j);
    assert(known_agent_name(l) == Some(l));
}

/// What `known_agent_name` answers is a canonical name of the alias table or a localized name.
proof fn lemma_known_agent_range(u: Seq<char>)
    ensures
        known_agent_name(u) matches Some(c) ==> {
            ||| exists|i: int|
                0 <= i < 33 && #[trigger] AGENT_NAME_ALIASES@[i].1@ == c
            ||| exists|j: int|
                0 <= j < 29 && #[trigger] LOCALIZED_AGENT_NAMES@[j]@ == c
        },
{
    if let Some(w) = lookup_value(u) {
        lemma_lookup_hit(AGENT_NAME_ALIASES@, w);
        lemma_find_name_hit(LOCALIZED_AGENT_NAMES@, w);
    }
}

/// A localized agent name is one of the localized names and localizes to itself, and a value
/// has a localized name exactly when it names an agent.
pub proof fn law_localized_name_is_its_own(v: Seq<char>)
    ensures
        localized_agent_name(v) is Some <==> agent_name(v) is Some,
        localized_agent_name(v) matches Some(l) ==> {
            &&& exists|j: int|
                0 <= j < LOCALIZED_AGENT_NAMES@.len() && #[trigger] LOCALIZED_AGENT_NAMES@[j]@ == l
            &&& localized_agent_name(l) == Some(l)
        },
{
    if let Some(c) = agent_name(v) {
        let t = trim(v);
        lemma_known_agent_range(t);
        if let Some(a) = internal_asset(t) {
            lemma_known_agent_range(a);
        }
        lemma_localized_names_plain();
        lemma_lookup_hit(LOCALIZED_AGENT_NAME_ALIASES@, c);
        lemma_find_name_hit(LOCALIZED_AGENT_NAMES@, c);
        if lookup_in(LOCALIZED_AGENT_NAME_ALIASES@, c) is None {
            if exists|i: int| 0 <= i < 33 && #[trigger] AGENT_NAME_ALIASES@[i].1@ == c {
                let i = choose|i: int| 0 <= i < 33 && #[trigger] AGENT_NAME_ALIASES@[i].1@ == c;
                lemma_canonical_localizes(i);
            } else {
                let j = choose|j: int| 0 <= j < 29 && #[trigger] LOCALIZED_AGENT_NAMES@[j]@ == c;
                assert(eq_ic(c, c));
                lemma_find_name_found(LOCALIZED_AGENT_NAMES@, c, j);
            }
        }
        let l = localized_agent_name(v)->Some_0;
        let j = if lookup_in(LOCALIZED_AGENT_NAME_ALIASES@, c) is Some {
            choose|k: int|
                #![trigger LOCALIZED_AGENT_NAME_ALIASES@[k]]
                0 <= k < LOCALIZED_AGENT_NAME_ALIASES@.len() && LOCALIZED_AGENT_NAME_ALIASES@[k].1@
                    == l && eq_ic(LOCALIZED_AGENT_NAME_ALIASES@[k].0@, c)
        } else {
            choose|j: int|
                #![trigger LOCALIZED_AGENT_NAMES@[j]]
                0 <= j < LOCALIZED_AGENT_NAMES@.len() && LOCALIZED_AGENT_NAMES@[j]@ == l && eq_ic(l, c)
        };
        assert(LOCALIZED_AGENT_NAMES@[j]@ == l);
        lemma_localized_fixed(j);
    }
}

// ---------------------------------------------------------------------------------------------
// Known game modes are displayed by their table names
// ---------------------------------------------------------------------------------------------

/// A lowercase ASCII letter or a space.
pub open spec fn wordish(c: char) -> bool {
    97 <= (c as u32) <= 122 || (c as u32) == 32
}

/// A plain name: at least two characters, ASCII letters and spaces, starting and ending with a
/// letter.
pub open spec fn plain_word(s: Seq<char>) -> bool {
    &&& s.len() >= 2
    &&& forall|i: int| 0 <= i < s.len() ==> crate::text::is_alpha(#[trigger] s[i]) || (s[i] as u32) == 32
    &&& crate::text::is_alpha(s[0])
    &&& crate::text::is_alpha(s.last())
}

proof fn lemma_eq_ic_at(a: Seq<char>, b: Seq<char>, i: int)
    requires
        eq_ic(a, b),
        0 <= i < a.len(),
    ensures
        a.len() == b.len(),
        crate::text::lower(a[i]) == crate::text::lower(b[i]),
{
    assert(lower_seq(a).len() == a.len());
    assert(lower_seq(b).len() == b.len());
    assert(lower_seq(a)[i] == lower_seq(b)[i]);
}

/// A window of a lowercased plain name holds only lowercase letters and spaces.
proof fn lemma_window_wordish(l: Seq<char>, p: Seq<char>, j: int)
    requires
        forall|i: int| 0 <= i < l.len() ==> wordish(#[trigger] l[i]),
        0 <= j,
        j + p.len() <= l.len(),
        l.subrange(j, j + p.len()) == p,
    ensures
        forall|i: int| 0 <= i < p.len() ==> wordish(#[trigger] p[i]),
{
    assert forall|i: int| 0 <= i < p.len() implies wordish(#[trigger] p[i]) by {
        assert(l.subrange(j, j + p.len())[i] == l[j + i]);
    }
}

/// A pattern that holds a character other than a lowercase letter or a space is not in a
/// lowercased plain name.
proof fn lemma_pattern_absent(l: Seq<char>, p: Seq<char>, q: int)
    requires
        forall|i: int| 0 <= i < l.len() ==> wordish(#[trigger] l[i]),
        0 <= q < p.len(),
        !wordish(p[q]),
    ensures
        !starts_with(l, p),
        !ends_with(l, p),
        !contains(l, p),
{
    if starts_with(l, p) {
        lemma_window_wordish(l, p, 0);
    }
    if ends_with(l, p) {
        lemma_window_wordish(l, p, l.len() - p.len());
    }
    crate::text::lemma_find_from(l, p, 0);
    if let Some(j) = crate::text::find(l, p) {
        lemma_window_wordish(l, p, j);
    }
}

/// A plain name is its own lookup value: trimmed, no internal asset path, no asset reference
/// and not a number.
proof fn lemma_plain_word_lookup(s: Seq<char>)
    requires
        plain_word(s),
    ensures
        lookup_value(asset_candidate(s)) == Some(s),
        !crate::text::all_digits(s),
{
    assert(!crate::text::is_ws(s[0]) && !crate::text::is_ws(s.last()));
    crate::text::lemma_trim_fixed(s);
    assert(!crate::text::is_digit(s[0]));
    assert(!s.contains('/')) by {
        if s.contains('/') {
            let i = choose|i: int| 0 <= i < s.len() && s[i] == '/';
            assert(crate::text::is_alpha(s[i]) || (s[i] as u32) == 32);
        }
    }
    assert(!s.contains('.')) by {
        if s.contains('.') {
            let i = choose|i: int| 0 <= i < s.len() && s[i] == '.';
            assert(crate::text::is_alpha(s[i]) || (s[i] as u32) == 32);
        }
    }
    assert(!s.contains('_')) by {
        if s.contains('_') {
            let i = choose|i: int| 0 <= i < s.len() && s[i] == '_';
            assert(crate::text::is_alpha(s[i]) || (s[i] as u32) == 32);
        }
    }
    // no internal asset: every step of the path cleaning leaves the name as it is
    assert(crate::text::strip_start_char(s, '/') == s);
    assert(crate::text::strip_end_char(s, '/') == s);
    assert(strip_char(s, '/') == s);
    lemma_rpos_none(s, '/', s.len() as int);
    assert(path_tail(s) == Some(s));
    lemma_rpos_none(s, '.', s.len() as int);
    assert(!starts_with(s, "Default__"@)) by {
        reveal_strlit("Default__");
        if starts_with(s, "Default__"@) {
            assert(s.subrange(0, 9)[7] == s[7]);
        }
    }
    assert(strip_prefix_all(s, "Default__"@) == s);
    assert(!ends_with(s, "_C"@)) by {
        reveal_strlit("_C");
        if ends_with(s, "_C"@) {
            assert(s.subrange(s.len() - 2, s.len() as int)[0] == s[s.len() - 2]);
        }
    }
    assert(strip_suffix_all(s, "_C"@) == s);
    assert(!ends_with(s, "_PrimaryAsset"@)) by {
        reveal_strlit("_PrimaryAsset");
        if ends_with(s, "_PrimaryAsset"@) {
            assert(s.subrange(s.len() - 13, s.len() as int)[0] == s[s.len() - 13]);
        }
    }
    assert(strip_suffix_all(s, "_PrimaryAsset"@) == s);
    assert(!ends_with(s, "_PrimaryDataAsset"@)) by {
        reveal_strlit("_PrimaryDataAsset");
        if ends_with(s, "_PrimaryDataAsset"@) {
            assert(s.subrange(s.len() - 17, s.len() as int)[0] == s[s.len() - 17]);
        }
    }
    assert(strip_suffix_all(s, "_PrimaryDataAsset"@) == s);
    crate::text::lemma_char_pos_from(s, '_', 0);
    assert(before_first_char(s, '_') == s);
    assert(internal_asset(s) is None);
    assert(asset_candidate(s) == s);
    // no asset reference: the lowered name holds only lowercase letters and spaces
    let l = asset_probe(s);
    assert(l.len() == s.len());
    assert forall|i: int| 0 <= i < l.len() implies wordish(#[trigger] l[i]) by {
        let c = s[i];
        assert(replace_char(s, '\\', '/')[i] == c);
        assert(l[i] == crate::text::lower(c));
        if crate::text::is_upper(c) {
            assert(((c as u32) + 32) as char as u32 == (c as u32) + 32);
        }
    }
    reveal_strlit("/game/");
    reveal_strlit("cards/");
    reveal_strlit("/cards/");
    reveal_strlit("card: cards/");
    reveal_strlit(":persistentlevel.");
    reveal_strlit("_primaryasset");
    reveal_strlit("_primarydataasset");
    reveal_strlit(".png");
    reveal_strlit(".jpg");
    reveal_strlit(".jpeg");
    reveal_strlit(".webp");
    lemma_pattern_absent(l, "/game/"@, 0);
    lemma_pattern_absent(l, "cards/"@, 5);
    lemma_pattern_absent(l, "/cards/"@, 0);
    lemma_pattern_absent(l, "card: cards/"@, 4);
    lemma_pattern_absent(l, ":persistentlevel."@, 0);
    lemma_pattern_absent(l, "_primaryasset"@, 0);
    lemma_pattern_absent(l, "_primarydataasset"@, 0);
    lemma_pattern_absent(l, ".png"@, 0);
    lemma_pattern_absent(l, ".jpg"@, 0);
    lemma_pattern_absent(l, ".jpeg"@, 0);
    lemma_pattern_absent(l, ".webp"@, 0);
    assert(!is_asset_reference(s));
}

proof fn lemma_rpos_none(s: Seq<char>, c: char, end: int)
    requires
        end <= s.len(),
        forall|i: int| 0 <= i < s.len() ==> s[i] != c,
    ensures
        char_rpos_before(s, c, end) is None,
    decreases end,
{
    if end > 0 {
        lemma_rpos_none(s, c, end - 1);
    }
}

/// What the game-mode table holds: plain names, and rows whose aliases agree ignoring case in
/// length and first two letters name the same mode.
proof fn lemma_game_mode_table()
    ensures
        forall|k: int| 0 <= k < 15 ==> plain_word(#[trigger] GAME_MODE_ALIASES@[k].0@),
        forall|j: int, k: int|
            0 <= j < 15 && 0 <= k < 15 && (#[trigger] GAME_MODE_ALIASES@[j]).0@.len()
                == (#[trigger] GAME_MODE_ALIASES@[k]).0@.len() && crate::text::lower(
                GAME_MODE_ALIASES@[j].0@[0],
            ) as u32 == crate::text::lower(GAME_MODE_ALIASES@[k].0@[0]) as u32 && crate::text::lower(
                GAME_MODE_ALIASES@[j].0@[1],
            ) as u32 == crate::text::lower(GAME_MODE_ALIASES@[k].0@[1]) as u32
                ==> GAME_MODE_ALIASES@[j].1@ == GAME_MODE_ALIASES@[k].1@,
{
    reveal_strlit("BombGameMode");
    reveal_strlit("Competitive");
    reveal_strlit("Custom Game");
    reveal_strlit("CustomGame");
    reveal_strlit("Deathmatch");
    reveal_strlit("DeathmatchGameMode");
    reveal_strlit("SkirmishGameMode");
    reveal_strlit("Spike Rush");
    reveal_strlit("SpikeRush");
    reveal_strlit("Swiftplay");
    reveal_strlit("Team Deathmatch");
    reveal_strlit("TeamDeathmatch");
    reveal_strlit("Unrated");
    reveal_strlit("competitive");
    reveal_strlit("unrated");
}

/// Every known game-mode alias is displayed by its table name, not by its raw value; a plain
/// name that no alias matches, ignoring ASCII case, is displayed as it is.
pub proof fn law_game_mode_aliases_display_table_names(v: Seq<char>)
    ensures
        forall|k: int|
            0 <= k < GAME_MODE_ALIASES@.len() ==> game_mode_name(#[trigger] GAME_MODE_ALIASES@[k].0@)
                == Some(GAME_MODE_ALIASES@[k].1@),
        plain_word(v) && (forall|k: int|
            0 <= k < GAME_MODE_ALIASES@.len() ==> !eq_ic(#[trigger] GAME_MODE_ALIASES@[k].0@, v))
            ==> game_mode_name(v) == Some(v),
{
    if plain_word(v) {
        lemma_plain_word_lookup(v);
        lemma_lookup_hit(GAME_MODE_ALIASES@, v);
    }
    lemma_game_mode_table();
    assert forall|k: int| 0 <= k < GAME_MODE_ALIASES@.len() implies game_mode_name(
        #[trigger] GAME_MODE_ALIASES@[k].0@,
    ) == Some(GAME_MODE_ALIASES@[k].1@) by {
        let a = GAME_MODE_ALIASES@[k].0@;
        assert(plain_word(a));
        lemma_plain_word_lookup(a);
        assert(eq_ic(a, a));
        lemma_lookup_found(GAME_MODE_ALIASES@, a, k);
        lemma_lookup_hit(GAME_MODE_ALIASES@, a);
        let d = lookup_in(GAME_MODE_ALIASES@, a)->Some_0;
        let j = choose|j: int|
            #![trigger GAME_MODE_ALIASES@[j]]
            0 <= j < GAME_MODE_ALIASES@.len() && GAME_MODE_ALIASES@[j].1@ == d && eq_ic(
                GAME_MODE_ALIASES@[j].0@,
                a,
            );
        assert(GAME_MODE_ALIASES@[j].0@.len() >= 2);
        lemma_eq_ic_at(GAME_MODE_ALIASES@[j].0@, a, 0);
        lemma_eq_ic_at(GAME_MODE_ALIASES@[j].0@, a, 1);
    }
}

pub open spec fn vecs_view(v: Seq<Vec<char>>) -> Seq<Seq<char>> {
    v.map_values(|x: Vec<char>| x@)
}

pub open spec fn strings_view(v: Seq<String>) -> Seq<Seq<char>> {
    v.map_values(|s: String| s@)
}

fn has_value_ignore_case(values: &Vec<Vec<char>>, alias: &[char]) -> (res: bool)
    ensures
        res == has_value_ic(vecs_view(values@), alias@),
{
    let ghost vs = vecs_view(values@);
    let mut k: usize = 0;
    while k < values.len()
        invariant
            k <= values@.len(),
            vs == vecs_view(values@),
            forall|j: int| 0 <= j < k ==> !eq_ic(#[trigger] vs[j], alias@),
        decreases values.len() - k,
    {
        if eq_ignore_case(&values[k], alias) {
            assert(eq_ic(vs[k as int], alias@));
            return true;
        }
        k = k + 1;
    }
    false
}

/// Expands a localized or source-facing agent selection to every stored alias that
/// represents it.
pub fn agent_name_filter_values(value: &str) -> (res: Vec<String>)
    ensures
        strings_view(res@) == agent_filter_values(value@),
{
    let v = chars_of(value);
    let localized = match localized_agent_name_chars(&v) {
        Some(l) => l,
        None => {
            let empty: Vec<String> = Vec::new();
            assert(strings_view(empty@) =~= Seq::<Seq<char>>::empty());
            return empty;
        },
    };
    let ghost l = localized@;
    let mut values: Vec<Vec<char>> = Vec::new();
    let first = crate::text::slice(&localized, 0, localized.len());
    assert(first@ =~= l);
    values.push(first);
    assert(vecs_view(values@) =~= seq![l]);
    let table = &AGENT_NAME_ALIASES;
    let mut i: usize = 0;
    assert(table@.skip(0) =~= table@);
    while i < table.len()
        invariant
            i <= table@.len(),
            table@ == AGENT_NAME_ALIASES@,
            localized@ == l,
            expand_aliases(seq![l], table@, l) == expand_aliases(
                vecs_view(values@),
                table@.skip(i as int),
                l,
            ),
        decreases table.len() - i,
    {
        assert(table@.skip(i as int).drop_first() =~= table@.skip(i + 1));
        let alias = chars_of(table[i].0);
        let ghost before = vecs_view(values@);
        let matches = match localized_agent_name_chars(&alias) {
            Some(other) => crate::text::seq_eq(&other, &localized),
            None => false,
        };
        if matches && !has_value_ignore_case(&values, &alias) {
            values.push(alias);
            assert(vecs_view(values@) =~= before.push(table@[i as int].0@));
        }
        i = i + 1;
    }
    let mut out: Vec<String> = Vec::new();
    let mut k: usize = 0;
    while k < values.len()
        invariant
            k <= values@.len(),
            strings_view(out@) == vecs_view(values@).take(k as int),
        decreases values.len() - k,
    {
        let ghost before = out@;
        let sk = crate::text::string_of(&values[k]);
        out.push(sk);
        assert(strings_view(out@) =~= strings_view(before).push(sk@));
        assert(strings_view(out@) =~= vecs_view(values@).take(k + 1));
        k = k + 1;
    }
    assert(vecs_view(values@).take(values@.len() as int) =~= values@.map_values(
        |x: Vec<char>| x@,
    ));
    assert(table@.skip(table@.len() as int) =~= Seq::<(&str, &str)>::empty());
    out
}


/// The agent whose ACLOS background or skill asset `lower` mentions, first in
/// `ACLOS_AGENT_ASSET_IDS` order.
pub open spec fn export_text_agent_in(table: Seq<(&str, &str)>, lower: Seq<char>) -> Option<
    Seq<char>,
>
    decreases table.len(),
{
    if table.len() == 0 {
        None
    } else if contains(lower, "agentbackground/agent/"@ + table[0].0@ + ".png"@) || contains(
        lower,
        "agentskill/"@ + table[0].0@ + "_"@,
    ) {
        Some(table[0].1@)
    } else {
        export_text_agent_in(table.drop_first(), lower)
    }
}

/// The agent named by an ACLOS export's asset references.
pub open spec fn export_text_agent(v: Seq<char>) -> Option<Seq<char>> {
    export_text_agent_in(ACLOS_AGENT_ASSET_IDS@, lower_seq(replace_char(v, '\\', '/')))
}

fn export_text_agent_chars(v: &[char]) -> (res: Option<Vec<char>>)
    ensures
        opt_chars(res) == export_text_agent(v@),
{
    let r = replace_char_exec(v, '\\', '/');
    let lower = to_lower(&r);
    let table = &ACLOS_AGENT_ASSET_IDS;
    let mut i: usize = 0;
    assert(table@.skip(0) =~= table@);
    while i < table.len()
        invariant
            i <= table@.len(),
            table@ == ACLOS_AGENT_ASSET_IDS@,
            lower@ == lower_seq(replace_char(v@, '\\', '/')),
            export_text_agent(v@) == export_text_agent_in(table@.skip(i as int), lower@),
        decreases table.len() - i,
    {
        assert(table@.skip(i as int).drop_first() =~= table@.skip(i + 1));
        let (id, name) = table[i];
        let id_chars = chars_of(id);
        let a = crate::text::concat(&chars_of("agentbackground/agent/"), &id_chars);
        let background = crate::text::concat(&a, &chars_of(".png"));
        let skill = crate::text::concat(
            &crate::text::concat(&chars_of("agentskill/"), &id_chars),
            &chars_of("_"),
        );
        if contains_exec(&lower, &background) || contains_exec(&lower, &skill) {
            return Some(chars_of(name));
        }
        i = i + 1;
    }
    None
}

/// The agent whose ACLOS background (`agentbackground/agent/<id>.png`) or skill
/// (`agentskill/<id>_`) asset the export text mentions.
pub fn agent_name_from_export_text(value: &str) -> (res: Option<String>)
    ensures
        opt_string(res) == export_text_agent(value@),
{
    let v = chars_of(value);
    opt_to_string(export_text_agent_chars(&v))
}

/// The ACLOS asset id with leading zeros removed (`"0"` for an all-zero id).
pub open spec fn asset_id_key(v: Seq<char>) -> Seq<char> {
    let n = crate::text::strip_start_char(trim(v), '0');
    if n.len() == 0 {
        seq!['0']
    } else {
        n
    }
}

pub open spec fn asset_id_agent_in(table: Seq<(&str, &str)>, key: Seq<char>) -> Option<Seq<char>>
    decreases table.len(),
{
    if table.len() == 0 {
        None
    } else if crate::text::strip_start_char(table[0].0@, '0') == key {
        Some(table[0].1@)
    } else {
        asset_id_agent_in(table.drop_first(), key)
    }
}

/// The agent of an ACLOS asset id, ignoring leading zeros.
pub open spec fn asset_id_agent(v: Seq<char>) -> Option<Seq<char>> {
    asset_id_agent_in(ACLOS_AGENT_ASSET_IDS@, asset_id_key(v))
}

pub fn asset_id_agent_chars(v: &[char]) -> (res: Option<Vec<char>>)
    ensures
        opt_chars(res) == asset_id_agent(v@),
{
    let t = trim_exec(v);
    let stripped = crate::text::strip_start_char_exec(&t, '0');
    let key = if stripped.len() == 0 {
        let mut z: Vec<char> = Vec::new();
        z.push('0');
        assert(z@ =~= seq!['0']);
        z
    } else {
        stripped
    };
    let table = &ACLOS_AGENT_ASSET_IDS;
    let mut i: usize = 0;
    assert(table@.skip(0) =~= table@);
    while i < table.len()
        invariant
            i <= table@.len(),
            table@ == ACLOS_AGENT_ASSET_IDS@,
            key@ == asset_id_key(v@),
            asset_id_agent(v@) == asset_id_agent_in(table@.skip(i as int), key@),
        decreases table.len() - i,
    {
        assert(table@.skip(i as int).drop_first() =~= table@.skip(i + 1));
        let (id, name) = table[i];
        let id_key = crate::text::strip_start_char_exec(&chars_of(id), '0');
        if crate::text::seq_eq(&id_key, &key) {
            return Some(chars_of(name));
        }
        i = i + 1;
    }
    None
}

/// The agent of an ACLOS agent asset id such as `02` (Jett); leading zeros are ignored.
pub fn agent_name_from_asset_id(value: &str) -> (res: Option<String>)
    ensures
        opt_string(res) == asset_id_agent(value@),
{
    let v = chars_of(value);
    opt_to_string(asset_id_agent_chars(&v))
}

/// The agent of the asset id that follows `marker` in `lower`, when `marker` occurs.
pub open spec fn marker_agent(lower: Seq<char>, marker: Seq<char>) -> Option<Seq<char>> {
    match crate::text::find(lower, marker) {
        None => None,
        Some(i) => asset_id_agent(crate::text::digit_prefix(lower.skip(i + marker.len()))),
    }
}

/// The agent of an avatar URL: by the asset id after `headico/`, `headicon/` or `bigpic/`,
/// else by the export-text asset references.
pub open spec fn avatar_agent(v: Seq<char>) -> Option<Seq<char>> {
    let l = asset_probe(v);
    match marker_agent(l, "headico/"@) {
        Some(a) => Some(a),
        None => match marker_agent(l, "headicon/"@) {
            Some(a) => Some(a),
            None => match marker_agent(l, "bigpic/"@) {
                Some(a) => Some(a),
                None => export_text_agent(v),
            },
        },
    }
}

fn marker_agent_chars(lower: &[char], marker: &str) -> (res: Option<Vec<char>>)
    ensures
        opt_chars(res) == marker_agent(lower@, marker@),
{
    let m = chars_of(marker);
    let n = lower.len();
    match crate::text::find_at(lower, &m, 0) {
        None => None,
        Some(i) => {
            let digits = crate::text::digit_prefix_exec(lower, i + m.len());
            asset_id_agent_chars(&digits)
        },
    }
}

pub fn avatar_agent_chars(v: &[char]) -> (res: Option<Vec<char>>)
    ensures
        opt_chars(res) == avatar_agent(v@),
{
    let l = asset_probe_exec(v);
    match marker_agent_chars(&l, "headico/") {
        Some(a) => Some(a),
        None => match marker_agent_chars(&l, "headicon/") {
            Some(a) => Some(a),
            None => match marker_agent_chars(&l, "bigpic/") {
                Some(a) => Some(a),
                None => export_text_agent_chars(v),
            },
        },
    }
}

/// The agent shown by an ACLOS avatar URL (`.../headico/02...` is Jett).
pub fn agent_name_from_avatar_url(value: &str) -> (res: Option<String>)
    ensures
        opt_string(res) == avatar_agent(value@),
{
    let v = chars_of(value);
    opt_to_string(avatar_agent_chars(&v))
}

// ---------------------------------------------------------------------------------------------
// Weapons
// ---------------------------------------------------------------------------------------------

/// The weapon class name inside a weapon value such as
/// `/Game/Maps/Pitt/Pitt.Pitt:PersistentLevel.AssaultRifle_AK_C_2147000127`.
pub open spec fn weapon_asset(v: Seq<char>) -> Option<Seq<char>> {
    let t = trim(v);
    if t.len() == 0 || eq_ic(t, "none"@) {
        None
    } else {
        let n = replace_char(t, '\\', '/');
        let tail = trim(
            strip_suffix_all(
                before_first(
                    strip_prefix_all(after_last(after_last(n, '/'), '.'), "Default__"@),
                    "_C_"@,
                ),
                "_C"@,
            ),
        );
        if tail.len() == 0 {
            None
        } else {
            Some(tail)
        }
    }
}

/// The weapon class `c` is `alias` or one of its skins (`alias_...`), ignoring ASCII case.
pub open spec fn weapon_matches(c: Seq<char>, alias: Seq<char>) -> bool {
    eq_ic(c, alias) || (c.len() > alias.len() && c[alias.len() as int] == '_' && eq_ic(
        c.take(alias.len() as int),
        alias,
    ))
}

pub open spec fn weapon_lookup(table: Seq<(&str, &str)>, c: Seq<char>) -> Option<Seq<char>>
    decreases table.len(),
{
    if table.len() == 0 {
        None
    } else if weapon_matches(c, table[0].0@) {
        Some(table[0].1@)
    } else {
        weapon_lookup(table.drop_first(), c)
    }
}

/// The Chinese name of a known weapon, else the weapon class name.
pub open spec fn weapon_name(v: Seq<char>) -> Option<Seq<char>> {
    match weapon_asset(v) {
        None => None,
        Some(c) => Some(
            match weapon_lookup(WEAPON_NAME_ALIASES@, c) {
                Some(d) => d,
                None => c,
            },
        ),
    }
}

fn weapon_asset_chars(v: &[char]) -> (res: Option<Vec<char>>)
    ensures
        opt_chars(res) == weapon_asset(v@),
{
    let t = trim_exec(v);
    if t.len() == 0 || eq_ignore_case(&t, &chars_of("none")) {
        return None;
    }
    let n = replace_char_exec(&t, '\\', '/');
    let a = after_last_exec(&n, '/');
    let b = after_last_exec(&a, '.');
    let c = strip_prefix_all_exec(&b, &chars_of("Default__"));
    let d = before_first_exec(&c, &chars_of("_C_"));
    let e = strip_suffix_all_exec(&d, &chars_of("_C"));
    let tail = trim_exec(&e);
    if tail.len() == 0 {
        None
    } else {
        Some(tail)
    }
}

fn weapon_matches_exec(c: &[char], alias: &[char]) -> (res: bool)
    ensures
        res == weapon_matches(c@, alias@),
{
    if eq_ignore_case(c, alias) {
        return true;
    }
    if c.len() > alias.len() && c[alias.len()] == '_' {
        let prefix = crate::text::slice(c, 0, alias.len());
        assert(prefix@ =~= c@.take(alias@.len() as int));
        return eq_ignore_case(&prefix, alias);
    }
    false
}

/// The Chinese name of a weapon value (an internal path, class name or skin asset); unknown
/// weapons keep their class name.
pub fn weapon_name_for_display(value: &str) -> (res: Option<String>)
    ensures
        opt_string(res) == weapon_name(value@),
{
    let v = chars_of(value);
    let c = match weapon_asset_chars(&v) {
        Some(c) => c,
        None => return None,
    };
    let table = &WEAPON_NAME_ALIASES;
    let mut i: usize = 0;
    assert(table@.skip(0) =~= table@);
    while i < table.len()
        invariant
            i <= table@.len(),
            table@ == WEAPON_NAME_ALIASES@,
            weapon_asset(value@) == Some(c@),
            weapon_lookup(WEAPON_NAME_ALIASES@, c@) == weapon_lookup(table@.skip(i as int), c@),
        decreases table.len() - i,
    {
        assert(table@.skip(i as int).drop_first() =~= table@.skip(i + 1));
        let (alias, display) = table[i];
        assert(table@.skip(i as int)[0] == (alias, display));
        if weapon_matches_exec(&c, &chars_of(alias)) {
            return Some(crate::text::string_of(&chars_of(display)));
        }
        i = i + 1;
    }
    Some(crate::text::string_of(&c))
}

} // verus!
