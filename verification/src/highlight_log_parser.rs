//! Match records recovered from the highlight recorder's logs.
//!
//! Each log line may carry a JSON payload after a marker. Payloads are read as
//! [`JsonValue`] documents and searched for the fields a match record needs; the searches
//! compare keys loosely (ignoring case and the characters `_ - space tab CR LF`) and take the
//! first usable value in document order, direct children before nested ones.
use vstd::prelude::*;

use crate::display_names::{
    agent_name, agent_name_chars, avatar_agent, avatar_agent_chars, game_mode_chars,
    game_mode_name, internal_asset, internal_asset_chars, map_name, map_name_chars, player_name,
    player_name_chars,
};
use crate::json::{json_parse, json_text, parse_json, to_json_text, JsonNumber, JsonValue};
use crate::scanner::utf8_len;
use crate::text::{
    after_last, after_last_exec, before_first, before_first_char, before_first_char_exec,
    before_first_exec, char_to_lowercase, chars_of, concat, contains, contains_exec, find, find_at,
    eq_ic, eq_ignore_case, lower_seq, to_lower, opt_chars, opt_string, replace_char, replace_char_exec, signed_decimal, decimal_i64, split_once, split_once_exec,
    starts_with, starts_with_exec, strip_start_char, strip_start_char_exec, trim_start,
    trim_start_exec,
    opt_to_string, parse_i64,
    parse_i64_exec, string_of, to_lowercase_str, trim, trim_exec, trim_str, unicode_char_lower,
    unicode_lower,
};

verus! {

// ---------------------------------------------------------------------------------------------
// Loose key comparison
// ---------------------------------------------------------------------------------------------

/// Characters that key comparison ignores.
pub open spec fn is_key_separator(c: char) -> bool {
    c == '_' || c == '-' || c == ' ' || c == '\t' || c == '\r' || c == '\n'
}

/// A key with the separators dropped and every other character lower-cased.
pub open spec fn normalize_key(s: Seq<char>) -> Seq<char>
    decreases s.len(),
{
    if s.len() == 0 {
        seq![]
    } else {
        normalize_key(s.drop_last()) + if is_key_separator(s.last()) {
            Seq::<char>::empty()
        } else {
            unicode_char_lower(s.last())
        }
    }
}

pub fn normalize_key_exec(s: &str) -> (res: Vec<char>)
    ensures
        res@ == normalize_key(s@),
{
    let chars = chars_of(s);
    let mut out: Vec<char> = Vec::new();
    let mut i: usize = 0;
    while i < chars.len()
        invariant
            i <= chars@.len(),
            chars@ == s@,
            out@ == normalize_key(chars@.take(i as int)),
        decreases chars.len() - i,
    {
        let c = chars[i];
        assert(chars@.take(i + 1).drop_last() =~= chars@.take(i as int));
        if c == '_' || c == '-' || c == ' ' || c == '\t' || c == '\r' || c == '\n' {
            assert(out@ + Seq::<char>::empty() =~= out@);
        } else {
            let lowered = char_to_lowercase(c);
            out = concat(&out, &lowered);
        }
        i = i + 1;
    }
    assert(chars@.take(i as int) =~= chars@);
    out
}

/// A set of candidate keys, held normalized.
pub struct KeySet {
    pub keys: Vec<Vec<char>>,
}

pub open spec fn normalized_keys(names: Seq<&str>) -> Seq<Seq<char>> {
    names.map_values(|n: &str| normalize_key(n@))
}

impl KeySet {
    pub open spec fn view(&self) -> Seq<Seq<char>> {
        self.keys@.map_values(|k: Vec<char>| k@)
    }

    pub fn new(names: &[&str]) -> (res: Self)
        ensures
            res.view() == normalized_keys(names@),
    {
        let mut keys: Vec<Vec<char>> = Vec::new();
        let mut i: usize = 0;
        while i < names.len()
            invariant
                i <= names@.len(),
                keys@.len() == i,
                forall|j: int| 0 <= j < i ==> #[trigger] keys@[j]@ == normalize_key(names@[j]@),
            decreases names.len() - i,
        {
            keys.push(normalize_key_exec(names[i]));
            i = i + 1;
        }
        let res = KeySet { keys };
        assert(res.view() =~= normalized_keys(names@));
        res
    }
}

/// `key` matches one of the normalized candidates.
pub open spec fn key_in(key: Seq<char>, keys: Seq<Seq<char>>) -> bool {
    keys.contains(normalize_key(key))
}

pub fn key_matches(key: &str, keys: &KeySet) -> (res: bool)
    ensures
        res == key_in(key@, keys.view()),
{
    let k = normalize_key_exec(key);
    let mut i: usize = 0;
    while i < keys.keys.len()
        invariant
            i <= keys.keys@.len(),
            k@ == normalize_key(key@),
            forall|j: int| 0 <= j < i ==> keys.view()[j] != k@,
        decreases keys.keys.len() - i,
    {
        if crate::text::seq_eq(&keys.keys[i], &k) {
            assert(keys.view()[i as int] == k@);
            return true;
        }
        i = i + 1;
    }
    false
}

// ---------------------------------------------------------------------------------------------
// Reading scalar values
// ---------------------------------------------------------------------------------------------

/// The text of a value: a trimmed string, a number as printed, or `true`/`false`; empty text
/// counts as absent.
pub open spec fn string_of_value(v: JsonValue) -> Option<Seq<char>> {
    let t = match v {
        JsonValue::String(s) => Some(trim(s@)),
        JsonValue::Number(n) => Some(n.text@),
        JsonValue::Bool(b) => Some(if b { "true"@ } else { "false"@ }),
        _ => None,
    };
    match t {
        Some(s) => if s.len() == 0 { None } else { Some(s) },
        None => None,
    }
}

/// An integer: a number that is an `i64`, or a string whose trimmed text parses as one.
pub open spec fn i64_of_value(v: JsonValue) -> Option<int> {
    match v {
        JsonValue::Number(n) => match n.as_i64 {
            Some(i) => Some(i as int),
            None => None,
        },
        JsonValue::String(s) => parse_i64(trim(s@)),
        _ => None,
    }
}

pub open spec fn is_true_word(s: Seq<char>) -> bool {
    s == "true"@ || s == "1"@ || s == "yes"@ || s == "win"@ || s == "won"@ || s == "victory"@
        || s == "胜"@ || s == "胜利"@
}

pub open spec fn is_false_word(s: Seq<char>) -> bool {
    s == "false"@ || s == "0"@ || s == "no"@ || s == "loss"@ || s == "lost"@ || s == "defeat"@
        || s == "负"@ || s == "失败"@
}

/// A flag: a boolean, the number 0 or 1, or a string naming a win or a loss.
pub open spec fn bool_of_value(v: JsonValue) -> Option<bool> {
    match v {
        JsonValue::Bool(b) => Some(b),
        JsonValue::String(s) => {
            let w = unicode_lower(trim(s@));
            if is_true_word(w) {
                Some(true)
            } else if is_false_word(w) {
                Some(false)
            } else {
                None
            }
        },
        JsonValue::Number(n) => match n.as_i64 {
            Some(0) => Some(false),
            Some(1) => Some(true),
            _ => None,
        },
        _ => None,
    }
}

fn literal_eq(v: &Vec<char>, lit: &str) -> (res: bool)
    ensures
        res == (v@ == lit@),
{
    crate::text::seq_eq(v, &chars_of(lit))
}

pub fn string_from_value(v: &JsonValue) -> (res: Option<String>)
    ensures
        match res {
            Some(s) => string_of_value(*v) == Some(s@),
            None => string_of_value(*v) is None,
        },
{
    let t = match v {
        JsonValue::String(s) => trim_str(s.as_str()),
        JsonValue::Number(n) => chars_of(n.text.as_str()),
        JsonValue::Bool(b) => if *b {
            chars_of("true")
        } else {
            chars_of("false")
        },
        _ => return None,
    };
    if t.len() == 0 {
        None
    } else {
        Some(string_of(&t))
    }
}

pub fn i64_from_value(v: &JsonValue) -> (res: Option<i64>)
    ensures
        match res {
            Some(i) => i64_of_value(*v) == Some(i as int),
            None => i64_of_value(*v) is None,
        },
{
    match v {
        JsonValue::Number(n) => n.as_i64,
        JsonValue::String(s) => parse_i64_exec(&trim_str(s.as_str())),
        _ => None,
    }
}

pub fn bool_from_value(v: &JsonValue) -> (res: Option<bool>)
    ensures
        res == bool_of_value(*v),
{
    match v {
        JsonValue::Bool(b) => Some(*b),
        JsonValue::String(s) => {
            let trimmed = string_of(&trim_str(s.as_str()));
            let w = chars_of(to_lowercase_str(trimmed.as_str()).as_str());
            if literal_eq(&w, "true") || literal_eq(&w, "1") || literal_eq(&w, "yes")
                || literal_eq(&w, "win") || literal_eq(&w, "won") || literal_eq(&w, "victory")
                || literal_eq(&w, "胜") || literal_eq(&w, "胜利") {
                Some(true)
            } else if literal_eq(&w, "false") || literal_eq(&w, "0") || literal_eq(&w, "no")
                || literal_eq(&w, "loss") || literal_eq(&w, "lost") || literal_eq(&w, "defeat")
                || literal_eq(&w, "负") || literal_eq(&w, "失败") {
                Some(false)
            } else {
                None
            }
        },
        JsonValue::Number(n) => match n.as_i64 {
            Some(0) => Some(false),
            Some(1) => Some(true),
            _ => None,
        },
        _ => None,
    }
}

// ---------------------------------------------------------------------------------------------
// Searching documents
// ---------------------------------------------------------------------------------------------

/// What a search looks for under a matching key.
#[derive(Debug, Clone, Copy, PartialEq, Eq, Structural)]
pub enum Want {
    Text,
    Integer,
    Flag,
    List,
    Object,
    /// Text that names a game mode.
    GameMode,
    /// Text that names an agent.
    Agent,
    /// Text that is an agent's avatar address.
    AgentAvatar,
    /// Any value at all.
    Anything,
}

pub open spec fn accepts(want: Want, v: JsonValue) -> bool {
    match want {
        Want::Text => string_of_value(v) is Some,
        Want::Integer => i64_of_value(v) is Some,
        Want::Flag => bool_of_value(v) is Some,
        Want::List => v is Array,
        Want::Object => v is Object,
        Want::GameMode | Want::Agent | Want::AgentAvatar => match string_of_value(v) {
            Some(t) => mapped_text(want, t) is Some,
            None => false,
        },
        Want::Anything => true,
    }
}

/// The display name that a mapped search makes of a text.
pub open spec fn mapped_text(want: Want, t: Seq<char>) -> Option<Seq<char>> {
    match want {
        Want::GameMode => game_mode_name(t),
        Want::Agent => agent_display_name(t),
        Want::AgentAvatar => avatar_agent(t),
        _ => Some(t),
    }
}

fn mapped_text_exec(want: Want, t: &Vec<char>) -> (res: Option<Vec<char>>)
    ensures
        opt_chars(res) == mapped_text(want, t@),
{
    match want {
        Want::GameMode => game_mode_chars(t),
        Want::Agent => agent_display_chars(t),
        Want::AgentAvatar => avatar_agent_chars(t),
        _ => Some(crate::text::slice(t, 0, t.len())),
    }
}

// ---------------------------------------------------------------------------------------------
// Agent names
// ---------------------------------------------------------------------------------------------

/// The class name inside a role reference such as
/// `/Game/Maps/Ascent.Ascent:PersistentLevel.Wushu_PC_C_2147`: what follows
/// `PersistentLevel.`, after its last `/` and last `.`, before its first `_`, trimmed; `None`
/// when that is empty or the whole value.
pub open spec fn role_name(v: Seq<char>) -> Option<Seq<char>> {
    let scoped = match find(v, "PersistentLevel."@) {
        Some(i) => before_first(v.skip(i + "PersistentLevel."@.len()), "PersistentLevel."@),
        None => v,
    };
    let r = trim(before_first_char(after_last(after_last(scoped, '/'), '.'), '_'));
    if r.len() == 0 || r == v {
        None
    } else {
        Some(r)
    }
}

pub fn role_name_chars(v: &Vec<char>) -> (res: Option<Vec<char>>)
    ensures
        opt_chars(res) == role_name(v@),
{
    let marker = chars_of("PersistentLevel.");
    let scoped = match find_at(v, &marker, 0) {
        Some(i) => {
            let mlen = marker.len();
            assert(i + mlen <= v.len());
            let rest = crate::text::slice(v, i + mlen, v.len());
            assert(rest@ =~= v@.skip(i + marker@.len()));
            before_first_exec(&rest, &marker)
        },
        None => crate::text::slice(v, 0, v.len()),
    };
    assert(find(v@, "PersistentLevel."@) is None ==> scoped@ =~= v@);
    let r = trim_exec(&before_first_char_exec(&after_last_exec(&after_last_exec(&scoped, '/'), '.'), '_'));
    if r.len() == 0 || crate::text::seq_eq(&r, v) {
        None
    } else {
        Some(r)
    }
}

/// An agent's display name from a name, a role reference or an asset path.
pub open spec fn agent_display_name(v: Seq<char>) -> Option<Seq<char>> {
    let candidate = match role_name(v) {
        Some(r) => r,
        None => match internal_asset(v) {
            Some(a) => a,
            None => trim(v),
        },
    };
    agent_name(candidate)
}

pub fn agent_display_chars(v: &Vec<char>) -> (res: Option<Vec<char>>)
    ensures
        opt_chars(res) == agent_display_name(v@),
{
    let candidate = match role_name_chars(v) {
        Some(r) => r,
        None => match internal_asset_chars(v) {
            Some(a) => a,
            None => trim_exec(v),
        },
    };
    agent_name_chars(&candidate)
}

fn accepts_exec(want: Want, v: &JsonValue) -> (res: bool)
    ensures
        res == accepts(want, *v),
{
    match want {
        Want::Text => string_from_value(v).is_some(),
        Want::Integer => i64_from_value(v).is_some(),
        Want::Flag => bool_from_value(v).is_some(),
        Want::List => match v {
            JsonValue::Array(_) => true,
            _ => false,
        },
        Want::Object => match v {
            JsonValue::Object(_) => true,
            _ => false,
        },
        Want::GameMode | Want::Agent | Want::AgentAvatar => match string_from_value(v) {
            Some(t) => mapped_text_exec(want, &chars_of(t.as_str())).is_some(),
            None => false,
        },
        Want::Anything => true,
    }
}

/// The first entry from `i` on whose key matches and whose value is acceptable.
pub open spec fn direct_hit(
    entries: Seq<(String, JsonValue)>,
    keys: Seq<Seq<char>>,
    want: Want,
    i: int,
) -> Option<JsonValue>
    decreases entries.len() - i,
{
    if i < 0 || i >= entries.len() {
        None
    } else if key_in(entries[i].0@, keys) && accepts(want, entries[i].1) {
        Some(entries[i].1)
    } else {
        direct_hit(entries, keys, want, i + 1)
    }
}

/// The first hit in a document: an object's own entries first, then each child in order; an
/// array's items in order.
pub open spec fn find_first(v: JsonValue, keys: Seq<Seq<char>>, want: Want) -> Option<JsonValue>
    decreases v, 0int,
{
    match v {
        JsonValue::Object(entries) => match direct_hit(entries@, keys, want, 0) {
            Some(hit) => Some(hit),
            None => find_in_entries(entries@, keys, want, 0),
        },
        JsonValue::Array(items) => find_in_items(items@, keys, want, 0),
        _ => None,
    }
}

/// The first hit in the values of `entries` from `i` on.
pub open spec fn find_in_entries(
    entries: Seq<(String, JsonValue)>,
    keys: Seq<Seq<char>>,
    want: Want,
    i: int,
) -> Option<JsonValue>
    decreases entries, entries.len() - i,
{
    if i < 0 || i >= entries.len() {
        None
    } else {
        match find_first(entries[i].1, keys, want) {
            Some(hit) => Some(hit),
            None => find_in_entries(entries, keys, want, i + 1),
        }
    }
}

/// The first hit in `items` from `i` on.
pub open spec fn find_in_items(items: Seq<JsonValue>, keys: Seq<Seq<char>>, want: Want, i: int) -> Option<
    JsonValue,
>
    decreases items, items.len() - i,
{
    if i < 0 || i >= items.len() {
        None
    } else {
        match find_first(items[i], keys, want) {
            Some(hit) => Some(hit),
            None => find_in_items(items, keys, want, i + 1),
        }
    }
}

/// The first entry of `entries` whose key matches and whose value is acceptable.
pub fn direct_by_keys<'a>(entries: &'a Vec<(String, JsonValue)>, keys: &KeySet, want: Want) -> (res:
    Option<&'a JsonValue>)
    ensures
        match res {
            Some(r) => direct_hit(entries@, keys.view(), want, 0) == Some(*r),
            None => direct_hit(entries@, keys.view(), want, 0) is None,
        },
        res matches Some(r) ==> accepts(want, *r),
{
    let mut i: usize = 0;
    while i < entries.len()
        invariant
            i <= entries@.len(),
            direct_hit(entries@, keys.view(), want, 0) == direct_hit(
                entries@,
                keys.view(),
                want,
                i as int,
            ),
        decreases entries.len() - i,
    {
        if key_matches(entries[i].0.as_str(), keys) && accepts_exec(want, &entries[i].1) {
            return Some(&entries[i].1);
        }
        i = i + 1;
    }
    None
}

/// The first hit in a document (see [`find_first`]).
pub fn find_by_keys<'a>(v: &'a JsonValue, keys: &KeySet, want: Want) -> (res: Option<&'a JsonValue>)
    ensures
        match res {
            Some(r) => find_first(*v, keys.view(), want) == Some(*r),
            None => find_first(*v, keys.view(), want) is None,
        },
        res matches Some(r) ==> accepts(want, *r),
    decreases v,
{
    match v {
        JsonValue::Object(entries) => {
            if let Some(hit) = direct_by_keys(entries, keys, want) {
                return Some(hit);
            }
            let mut j: usize = 0;
            while j < entries.len()
                invariant
                    j <= entries@.len(),
                    *v == JsonValue::Object(*entries),
                    direct_hit(entries@, keys.view(), want, 0) is None,
                    find_in_entries(entries@, keys.view(), want, 0) == find_in_entries(
                        entries@,
                        keys.view(),
                        want,
                        j as int,
                    ),
                decreases entries.len() - j,
            {
                proof {
                    assert(decreases_to!(*v => entries@[j as int].1));
                }
                if let Some(hit) = find_by_keys(&entries[j].1, keys, want) {
                    return Some(hit);
                }
                j = j + 1;
            }
            None
        },
        JsonValue::Array(items) => {
            let mut j: usize = 0;
            while j < items.len()
                invariant
                    j <= items@.len(),
                    *v == JsonValue::Array(*items),
                    find_in_items(items@, keys.view(), want, 0) == find_in_items(
                        items@,
                        keys.view(),
                        want,
                        j as int,
                    ),
                decreases items.len() - j,
            {
                proof {
                    assert(decreases_to!(*v => items@[j as int]));
                }
                if let Some(hit) = find_by_keys(&items[j], keys, want) {
                    return Some(hit);
                }
                j = j + 1;
            }
            None
        },
        _ => None,
    }
}

// ---------------------------------------------------------------------------------------------
// Typed searches
// ---------------------------------------------------------------------------------------------

pub open spec fn text_of_hit(hit: Option<JsonValue>) -> Option<Seq<char>> {
    match hit {
        Some(h) => string_of_value(h),
        None => None,
    }
}

pub open spec fn int_of_hit(hit: Option<JsonValue>) -> Option<int> {
    match hit {
        Some(h) => i64_of_value(h),
        None => None,
    }
}

pub open spec fn flag_of_hit(hit: Option<JsonValue>) -> Option<bool> {
    match hit {
        Some(h) => bool_of_value(h),
        None => None,
    }
}

pub open spec fn mapped_of_hit(want: Want, hit: Option<JsonValue>) -> Option<Seq<char>> {
    match text_of_hit(hit) {
        Some(t) => mapped_text(want, t),
        None => None,
    }
}

/// The text of the first usable value under one of `names`, anywhere in `v`.
pub open spec fn find_text(v: JsonValue, names: Seq<&str>) -> Option<Seq<char>> {
    text_of_hit(find_first(v, normalized_keys(names), Want::Text))
}

pub open spec fn find_int(v: JsonValue, names: Seq<&str>) -> Option<int> {
    int_of_hit(find_first(v, normalized_keys(names), Want::Integer))
}

pub open spec fn find_flag(v: JsonValue, names: Seq<&str>) -> Option<bool> {
    flag_of_hit(find_first(v, normalized_keys(names), Want::Flag))
}

pub open spec fn find_mapped(v: JsonValue, names: Seq<&str>, want: Want) -> Option<Seq<char>> {
    mapped_of_hit(want, find_first(v, normalized_keys(names), want))
}

fn text_of(hit: Option<&JsonValue>) -> (res: Option<String>)
    ensures
        opt_string(res) == text_of_hit(match hit {
            Some(h) => Some(*h),
            None => None,
        }),
{
    match hit {
        Some(h) => string_from_value(h),
        None => None,
    }
}

pub fn find_string_by_keys(v: &JsonValue, names: &[&str]) -> (res: Option<String>)
    ensures
        opt_string(res) == find_text(*v, names@),
{
    text_of(find_by_keys(v, &KeySet::new(names), Want::Text))
}

pub fn find_i64_by_keys(v: &JsonValue, names: &[&str]) -> (res: Option<i64>)
    ensures
        match res {
            Some(i) => find_int(*v, names@) == Some(i as int),
            None => find_int(*v, names@) is None,
        },
{
    match find_by_keys(v, &KeySet::new(names), Want::Integer) {
        Some(h) => i64_from_value(h),
        None => None,
    }
}

pub fn find_bool_by_keys(v: &JsonValue, names: &[&str]) -> (res: Option<bool>)
    ensures
        res == find_flag(*v, names@),
{
    match find_by_keys(v, &KeySet::new(names), Want::Flag) {
        Some(h) => bool_from_value(h),
        None => None,
    }
}

/// A search whose hit must also name a game mode, an agent or an avatar's agent.
pub fn find_mapped_string_by_keys(v: &JsonValue, names: &[&str], want: Want) -> (res: Option<
    String,
>)
    ensures
        opt_string(res) == find_mapped(*v, names@, want),
{
    match text_of(find_by_keys(v, &KeySet::new(names), want)) {
        Some(t) => opt_to_string(mapped_text_exec(want, &chars_of(t.as_str()))),
        None => None,
    }
}

/// The first array under one of `names`, anywhere in `v`.
pub fn find_array_by_keys<'a>(v: &'a JsonValue, names: &[&str]) -> (res: Option<&'a Vec<JsonValue>>)
    ensures
        match res {
            Some(items) => find_first(*v, normalized_keys(names@), Want::List) == Some(
                JsonValue::Array(*items),
            ),
            None => find_first(*v, normalized_keys(names@), Want::List) is None,
        },
{
    match find_by_keys(v, &KeySet::new(names), Want::List) {
        Some(JsonValue::Array(items)) => Some(items),
        _ => None,
    }
}

/// The first object under one of `names`, anywhere in `v`.
pub fn find_object_by_keys<'a>(v: &'a JsonValue, names: &[&str]) -> (res: Option<&'a JsonValue>)
    ensures
        match res {
            Some(o) => find_first(*v, normalized_keys(names@), Want::Object) == Some(*o),
            None => find_first(*v, normalized_keys(names@), Want::Object) is None,
        },
{
    find_by_keys(v, &KeySet::new(names), Want::Object)
}

/// The value of the first of `v`'s own entries whose key is one of `names` and that `want`
/// accepts; `None` when `v` is not an object.
pub open spec fn direct_child(v: JsonValue, names: Seq<&str>, want: Want) -> Option<JsonValue> {
    match v {
        JsonValue::Object(entries) => direct_hit(entries@, normalized_keys(names), want, 0),
        _ => None,
    }
}

pub fn direct_child_by_keys<'a>(v: &'a JsonValue, names: &[&str], want: Want) -> (res: Option<
    &'a JsonValue,
>)
    ensures
        match res {
            Some(c) => direct_child(*v, names@, want) == Some(*c),
            None => direct_child(*v, names@, want) is None,
        },
{
    match v {
        JsonValue::Object(entries) => direct_by_keys(entries, &KeySet::new(names), want),
        _ => None,
    }
}

/// The text of `v`'s first own entry under one of `names` that has text.
pub fn direct_string_by_keys(v: &JsonValue, names: &[&str]) -> (res: Option<String>)
    ensures
        opt_string(res) == text_of_hit(direct_child(*v, names@, Want::Text)),
{
    text_of(direct_child_by_keys(v, names, Want::Text))
}

/// The integer of `v`'s first own entry under one of `names` that holds one.
pub fn direct_i64_by_keys(v: &JsonValue, names: &[&str]) -> (res: Option<i64>)
    ensures
        match res {
            Some(i) => int_of_hit(direct_child(*v, names@, Want::Integer)) == Some(i as int),
            None => int_of_hit(direct_child(*v, names@, Want::Integer)) is None,
        },
{
    match direct_child_by_keys(v, names, Want::Integer) {
        Some(h) => i64_from_value(h),
        None => None,
    }
}

/// The text under `value_names` inside the first object under `object_names`.
pub open spec fn find_nested_text(v: JsonValue, object_names: Seq<&str>, value_names: Seq<&str>) -> Option<
    Seq<char>,
> {
    match find_first(v, normalized_keys(object_names), Want::Object) {
        Some(o) => find_text(o, value_names),
        None => None,
    }
}

pub fn find_nested_string(v: &JsonValue, object_names: &[&str], value_names: &[&str]) -> (res:
    Option<String>)
    ensures
        opt_string(res) == find_nested_text(*v, object_names@, value_names@),
{
    match find_object_by_keys(v, object_names) {
        Some(o) => find_string_by_keys(o, value_names),
        None => None,
    }
}

// ---------------------------------------------------------------------------------------------
// Records
// ---------------------------------------------------------------------------------------------

/// Which kind of log line a record came from.
#[derive(Debug, Clone, Copy, PartialEq, Eq, Structural)]
pub enum HighlightLogLineKind {
    FirstRequestData,
    TemplateParam,
    EventParser,
    TlogRequest,
    BattleListResponse,
    VideoListData,
    PostSnapshot,
}

#[derive(Debug, Clone, PartialEq, Eq)]
pub struct HighlightLogKillEvent {
    pub event_time: Option<String>,
    pub round_id: Option<i64>,
    pub weapon_name: Option<String>,
    pub killer_name: Option<String>,
    pub killed_name: Option<String>,
    pub raw_json: Option<String>,
}

/// A kill event's fields as values.
pub struct KillEventView {
    pub event_time: Option<Seq<char>>,
    pub round_id: Option<int>,
    pub weapon_name: Option<Seq<char>>,
    pub killer_name: Option<Seq<char>>,
    pub killed_name: Option<Seq<char>>,
    pub raw_json: Option<Seq<char>>,
}

pub open spec fn opt_int(o: Option<i64>) -> Option<int> {
    match o {
        Some(i) => Some(i as int),
        None => None,
    }
}

impl HighlightLogKillEvent {
    pub open spec fn view(&self) -> KillEventView {
        KillEventView {
            event_time: opt_string(self.event_time),
            round_id: opt_int(self.round_id),
            weapon_name: opt_string(self.weapon_name),
            killer_name: opt_string(self.killer_name),
            killed_name: opt_string(self.killed_name),
            raw_json: opt_string(self.raw_json),
        }
    }
}

pub open spec fn kill_events_view(events: Seq<HighlightLogKillEvent>) -> Seq<KillEventView> {
    events.map_values(|e: HighlightLogKillEvent| e@)
}

#[derive(Debug, Clone, PartialEq, Eq)]
pub struct HighlightLogRecord {
    pub line_kind: HighlightLogLineKind,
    pub match_id: Option<String>,
    pub battle_id: Option<String>,
    pub record_src: Option<String>,
    pub player_name: Option<String>,
    pub map_id: Option<String>,
    pub map_name: Option<String>,
    pub game_mode: Option<String>,
    pub agent_name: Option<String>,
    pub kda: Option<String>,
    pub scoreline: Option<String>,
    pub has_won: Option<bool>,
    pub combat_score: Option<i64>,
    pub kill_events: Vec<HighlightLogKillEvent>,
    pub has_gzip_event: bool,
    pub raw_json: String,
}

// Key lists.
pub const MATCH_ID_KEYS: [&'static str; 6] = ["matchId", "match_id", "matchesId", "matches_id", "gameId", "game_id"];
pub const BATTLE_ID_KEYS: [&'static str; 2] = ["battleId", "battle_id"];
pub const RECORD_SRC_KEYS: [&'static str; 8] = [
    "recordSrc",
    "record_src",
    "recordSource",
    "record_source",
    "videoSrc",
    "video_src",
    "videoSource",
    "video_source",
];
pub const GAME_NAME_KEYS: [&'static str; 7] = [
    "gameName",
    "GameName",
    "riotGameName",
    "riot_game_name",
    "playerGameName",
    "userName",
    "user_name",
];
pub const TAG_LINE_KEYS: [&'static str; 11] = [
    "tagLine",
    "TagLine",
    "tagline",
    "riotTagLine",
    "riot_tag_line",
    "gameTag",
    "userNickId",
    "user_nick_id",
    "userNickID",
    "nickId",
    "nick_id",
];
pub const DIRECT_PLAYER_KEYS: [&'static str; 10] = [
    "riotId",
    "riot_id",
    "gameNameWithTag",
    "playerName",
    "player_name",
    "userName",
    "user_name",
    "nickName",
    "玩家昵称",
    "玩家名",
];
pub const NESTED_PLAYER_KEYS: [&'static str; 3] = ["name", "nickName", "playerName"];
pub const MAP_ID_KEYS: [&'static str; 4] = ["mapId", "map_id", "地图ID", "地图Id"];
pub const MAP_NAME_KEYS: [&'static str; 4] = ["mapName", "map_name", "地图", "地图名"];
pub const MAP_OBJECT_KEYS: [&'static str; 1] = ["map"];
pub const NESTED_MAP_ID_KEYS: [&'static str; 2] = ["id", "mapId"];
pub const NESTED_MAP_NAME_KEYS: [&'static str; 2] = ["name", "mapName"];
pub const GAME_MODE_KEYS: [&'static str; 10] = [
    "gameMode",
    "game_mode",
    "mode",
    "FullModeId",
    "full_mode_id",
    "modeId",
    "mode_id",
    "modelId",
    "model_id",
    "模式",
];
pub const MODE_NAME_KEYS: [&'static str; 2] = ["modeName", "mode_name"];
pub const AGENT_NAME_KEYS: [&'static str; 2] = ["agentName", "agent_name"];
pub const AGENT_OBJECT_KEYS: [&'static str; 3] = ["agent", "hero", "character"];
pub const NESTED_AGENT_KEYS: [&'static str; 2] = ["name", "agentName"];
pub const HERO_KEYS: [&'static str; 5] = ["heroName", "heroId", "hero_id", "characterName", "英雄"];
pub const AVATAR_KEYS: [&'static str; 6] = [
    "heroImage",
    "hero_image",
    "agentUrl",
    "agent_url",
    "agentAvatarUrl",
    "agent_avatar_url",
];
pub const ROLE_NAME_KEYS: [&'static str; 1] = ["roleName"];
pub const KDA_KEYS: [&'static str; 2] = ["kda", "KDA"];
pub const KILLS_KEYS: [&'static str; 4] = ["kills", "killCount", "kill_count", "击杀"];
pub const DEATHS_KEYS: [&'static str; 4] = ["deaths", "deathCount", "death_count", "死亡"];
pub const ASSISTS_KEYS: [&'static str; 4] = ["assists", "assistCount", "assist_count", "助攻"];
pub const ROUNDS_WON_KEYS: [&'static str; 4] = ["roundsWon", "rounds_won", "winRound", "roundWin"];
pub const ROUNDS_LOST_KEYS: [&'static str; 4] = ["roundsLost", "rounds_lost", "lostRound", "roundLoss"];
pub const SCORELINE_KEYS: [&'static str; 7] = [
    "scoreline",
    "scoreLine",
    "roundsScore",
    "rounds_score",
    "roundsResult",
    "rounds_result",
    "比分",
];
pub const HAS_WON_KEYS: [&'static str; 6] = ["hasWon", "has_won", "isWin", "win", "wonMatch", "won_match"];
pub const WIN_TEXT_KEYS: [&'static str; 7] = [
    "hasWon",
    "has_won",
    "result",
    "matchResult",
    "match_result",
    "win",
    "胜负",
];
pub const COMBAT_SCORE_KEYS: [&'static str; 5] = ["combatScore", "combat_score", "acs", "score", "战斗分"];
pub const KILL_EVENT_KEYS: [&'static str; 5] = [
    "killEvents",
    "kill_events",
    "killInfos",
    "kill_infos",
    "击杀事件",
];
pub const KILL_TIME_KEYS: [&'static str; 2] = ["击杀事件时间", "killEventTimes"];
pub const EVENT_TIME_KEYS: [&'static str; 5] = ["eventTime", "EventTime", "event_time", "time", "时间"];
pub const ROUND_KEYS: [&'static str; 5] = ["roundId", "RoundID", "round_id", "round", "回合"];
pub const WEAPON_KEYS: [&'static str; 7] = [
    "weaponName",
    "WeaponName",
    "weapon_name",
    "weapon",
    "WeaponSkinName",
    "WeaponID",
    "武器",
];
pub const KILLER_KEYS: [&'static str; 4] = ["killerName", "KillerPlayerName", "killer_name", "killer"];
pub const KILLED_KEYS: [&'static str; 4] = [
    "killedName",
    "KilledPlayerName",
    "killed_name",
    "victimName",
];

// ---------------------------------------------------------------------------------------------
// Players
// ---------------------------------------------------------------------------------------------

/// `game#tag` as a display name: the tag loses its leading `#`s; a name that already holds a
/// tag, or an empty tag, leaves the name alone.
pub open spec fn riot_id_text(game_name: Seq<char>, tag_line: Seq<char>) -> Option<Seq<char>> {
    let g = trim(game_name);
    let t = strip_start_char(trim(tag_line), '#');
    if g.len() == 0 {
        None
    } else if contains(g, "#"@) || t.len() == 0 {
        player_name(g)
    } else {
        player_name(g + "#"@ + t)
    }
}

pub fn format_riot_id(game_name: &str, tag_line: &str) -> (res: Option<String>)
    ensures
        opt_string(res) == riot_id_text(game_name@, tag_line@),
{
    let g = trim_str(game_name);
    let t = strip_start_char_exec(&trim_str(tag_line), '#');
    if g.len() == 0 {
        return None;
    }
    if contains_exec(&g, &chars_of("#")) || t.len() == 0 {
        return opt_to_string(player_name_chars(&g));
    }
    let joined = concat(&concat(&g, &chars_of("#")), &t);
    opt_to_string(player_name_chars(&joined))
}

/// The riot id held by an object's own name and tag entries.
pub open spec fn riot_id_of(v: JsonValue) -> Option<Seq<char>> {
    match text_of_hit(direct_child(v, GAME_NAME_KEYS@, Want::Text)) {
        None => None,
        Some(g) => match text_of_hit(direct_child(v, TAG_LINE_KEYS@, Want::Text)) {
            None => None,
            Some(t) => riot_id_text(g, t),
        },
    }
}

pub fn riot_id_from_object(v: &JsonValue) -> (res: Option<String>)
    ensures
        opt_string(res) == riot_id_of(*v),
{
    let g = match direct_string_by_keys(v, &GAME_NAME_KEYS) {
        Some(g) => g,
        None => return None,
    };
    let t = match direct_string_by_keys(v, &TAG_LINE_KEYS) {
        Some(t) => t,
        None => return None,
    };
    format_riot_id(g.as_str(), t.as_str())
}

/// The name of an object's own `player` object.
pub open spec fn nested_player_of(v: JsonValue) -> Option<Seq<char>> {
    match direct_child(v, seq!["player"], Want::Anything) {
        Some(p) => if p is Object {
            text_of_hit(direct_child(p, NESTED_PLAYER_KEYS@, Want::Text))
        } else {
            None
        },
        None => None,
    }
}

/// The display name of the player a record is about.
pub open spec fn player_of(v: JsonValue) -> Option<Seq<char>> {
    let raw = match riot_id_of(v) {
        Some(r) => Some(r),
        None => match text_of_hit(direct_child(v, DIRECT_PLAYER_KEYS@, Want::Text)) {
            Some(d) => Some(d),
            None => nested_player_of(v),
        },
    };
    match raw {
        Some(r) => player_name(r),
        None => None,
    }
}

pub fn find_player_name(v: &JsonValue) -> (res: Option<String>)
    ensures
        opt_string(res) == player_of(*v),
{
    let raw = match riot_id_from_object(v) {
        Some(r) => Some(r),
        None => match direct_string_by_keys(v, &DIRECT_PLAYER_KEYS) {
            Some(d) => Some(d),
            None => {
                let keys = ["player"];
                assert(keys@ == seq!["player"]);
                match direct_child_by_keys(v, &keys, Want::Anything) {
                    Some(p) => if p.is_object_exec() {
                        direct_string_by_keys(p, &NESTED_PLAYER_KEYS)
                    } else {
                        None
                    },
                    None => None,
                }
            },
        },
    };
    match raw {
        Some(r) => opt_to_string(player_name_chars(&chars_of(r.as_str()))),
        None => None,
    }
}

// ---------------------------------------------------------------------------------------------
// Maps, modes and agents
// ---------------------------------------------------------------------------------------------

pub open spec fn and_then_map(o: Option<Seq<char>>) -> Option<Seq<char>> {
    match o {
        Some(t) => map_name(t),
        None => None,
    }
}

pub open spec fn or_else(a: Option<Seq<char>>, b: Option<Seq<char>>) -> Option<Seq<char>> {
    match a {
        Some(x) => Some(x),
        None => b,
    }
}

pub open spec fn map_id_of(v: JsonValue) -> Option<Seq<char>> {
    or_else(find_text(v, MAP_ID_KEYS@), find_nested_text(v, MAP_OBJECT_KEYS@, NESTED_MAP_ID_KEYS@))
}

pub fn find_map_id(v: &JsonValue) -> (res: Option<String>)
    ensures
        opt_string(res) == map_id_of(*v),
{
    match find_string_by_keys(v, &MAP_ID_KEYS) {
        Some(m) => Some(m),
        None => find_nested_string(v, &MAP_OBJECT_KEYS, &NESTED_MAP_ID_KEYS),
    }
}

fn map_display(o: Option<String>) -> (res: Option<String>)
    ensures
        opt_string(res) == and_then_map(opt_string(o)),
{
    match o {
        Some(t) => opt_to_string(map_name_chars(&chars_of(t.as_str()))),
        None => None,
    }
}

/// The display name of a record's map: from a name entry, else from a nested `map` object's
/// name, else from the map id.
pub open spec fn map_name_of(v: JsonValue) -> Option<Seq<char>> {
    or_else(
        and_then_map(
            or_else(
                and_then_map(find_text(v, MAP_NAME_KEYS@)),
                find_nested_text(v, MAP_OBJECT_KEYS@, NESTED_MAP_NAME_KEYS@),
            ),
        ),
        and_then_map(map_id_of(v)),
    )
}

pub fn find_map_name(v: &JsonValue) -> (res: Option<String>)
    ensures
        opt_string(res) == map_name_of(*v),
{
    let first = match map_display(find_string_by_keys(v, &MAP_NAME_KEYS)) {
        Some(m) => Some(m),
        None => find_nested_string(v, &MAP_OBJECT_KEYS, &NESTED_MAP_NAME_KEYS),
    };
    match map_display(first) {
        Some(m) => Some(m),
        None => map_display(find_map_id(v)),
    }
}

pub open spec fn game_mode_of(v: JsonValue) -> Option<Seq<char>> {
    or_else(
        find_mapped(v, GAME_MODE_KEYS@, Want::GameMode),
        find_mapped(v, MODE_NAME_KEYS@, Want::GameMode),
    )
}

pub fn find_game_mode(v: &JsonValue) -> (res: Option<String>)
    ensures
        opt_string(res) == game_mode_of(*v),
{
    match find_mapped_string_by_keys(v, &GAME_MODE_KEYS, Want::GameMode) {
        Some(m) => Some(m),
        None => find_mapped_string_by_keys(v, &MODE_NAME_KEYS, Want::GameMode),
    }
}

pub open spec fn agent_of(v: JsonValue) -> Option<Seq<char>> {
    or_else(
        find_mapped(v, AGENT_NAME_KEYS@, Want::Agent),
        or_else(
            match find_nested_text(v, AGENT_OBJECT_KEYS@, NESTED_AGENT_KEYS@) {
                Some(t) => agent_display_name(t),
                None => None,
            },
            or_else(
                find_mapped(v, HERO_KEYS@, Want::Agent),
                or_else(
                    find_mapped(v, AVATAR_KEYS@, Want::AgentAvatar),
                    find_mapped(v, ROLE_NAME_KEYS@, Want::Agent),
                ),
            ),
        ),
    )
}

pub fn find_agent_name(v: &JsonValue) -> (res: Option<String>)
    ensures
        opt_string(res) == agent_of(*v),
{
    if let Some(a) = find_mapped_string_by_keys(v, &AGENT_NAME_KEYS, Want::Agent) {
        return Some(a);
    }
    if let Some(t) = find_nested_string(v, &AGENT_OBJECT_KEYS, &NESTED_AGENT_KEYS) {
        if let Some(a) = agent_display_chars(&chars_of(t.as_str())) {
            return Some(string_of(&a));
        }
    }
    if let Some(a) = find_mapped_string_by_keys(v, &HERO_KEYS, Want::Agent) {
        return Some(a);
    }
    if let Some(a) = find_mapped_string_by_keys(v, &AVATAR_KEYS, Want::AgentAvatar) {
        return Some(a);
    }
    find_mapped_string_by_keys(v, &ROLE_NAME_KEYS, Want::Agent)
}

// ---------------------------------------------------------------------------------------------
// Scores and results
// ---------------------------------------------------------------------------------------------

/// `k/d/a` when all three are known.
pub open spec fn kda_text(kills: Option<int>, deaths: Option<int>, assists: Option<int>) -> Option<
    Seq<char>,
> {
    match (kills, deaths, assists) {
        (Some(k), Some(d), Some(a)) => Some(
            signed_decimal(k) + "/"@ + signed_decimal(d) + "/"@ + signed_decimal(a),
        ),
        _ => None,
    }
}

pub fn build_kda(kills: Option<i64>, deaths: Option<i64>, assists: Option<i64>) -> (res: Option<
    String,
>)
    ensures
        opt_string(res) == kda_text(opt_int(kills), opt_int(deaths), opt_int(assists)),
{
    match (kills, deaths, assists) {
        (Some(k), Some(d), Some(a)) => {
            let slash = chars_of("/");
            let t = concat(
                &concat(&concat(&concat(&decimal_i64(k), &slash), &decimal_i64(d)), &slash),
                &decimal_i64(a),
            );
            Some(string_of(&t))
        },
        _ => None,
    }
}

/// `won/lost` when both are known.
pub open spec fn scoreline_text(won: Option<int>, lost: Option<int>) -> Option<Seq<char>> {
    match (won, lost) {
        (Some(w), Some(l)) => Some(signed_decimal(w) + "/"@ + signed_decimal(l)),
        _ => None,
    }
}

pub fn build_scoreline(won: Option<i64>, lost: Option<i64>) -> (res: Option<String>)
    ensures
        opt_string(res) == scoreline_text(opt_int(won), opt_int(lost)),
{
    match (won, lost) {
        (Some(w), Some(l)) => {
            let t = concat(&concat(&decimal_i64(w), &chars_of("/")), &decimal_i64(l));
            Some(string_of(&t))
        },
        _ => None,
    }
}

/// How many times `c` occurs in `s`.
pub open spec fn count_char(s: Seq<char>, c: char) -> nat
    decreases s.len(),
{
    if s.len() == 0 {
        0
    } else {
        count_char(s.drop_last(), c) + if s.last() == c { 1nat } else { 0nat }
    }
}

fn count_char_exec(v: &Vec<char>, c: char) -> (res: usize)
    ensures
        res == count_char(v@, c),
{
    let mut n: usize = 0;
    let mut i: usize = 0;
    while i < v.len()
        invariant
            i <= v@.len(),
            n == count_char(v@.take(i as int), c),
            n <= i,
        decreases v.len() - i,
    {
        assert(v@.take(i + 1).drop_last() =~= v@.take(i as int));
        if v[i] == c {
            n = n + 1;
        }
        i = i + 1;
    }
    assert(v@.take(i as int) =~= v@);
    n
}

/// The scoreline `l/r` that a text of two integers around the first of `/`, `-`, `:` that
/// splits it in exactly two gives; `None` when that separator's parts are not both integers,
/// or no separator splits the text in two.
pub open spec fn normalized_scoreline(v: Seq<char>) -> Option<Seq<char>> {
    let sep = if count_char(v, '/') == 1 {
        Some('/')
    } else if count_char(v, '-') == 1 {
        Some('-')
    } else if count_char(v, ':') == 1 {
        Some(':')
    } else {
        None
    };
    match sep {
        None => None,
        Some(c) => match split_once(v, c) {
            Some((a, b)) => match (parse_i64(trim(a)), parse_i64(trim(b))) {
                (Some(l), Some(r)) => Some(signed_decimal(l) + "/"@ + signed_decimal(r)),
                _ => None,
            },
            None => None,
        },
    }
}

proof fn lemma_count_char_concat(a: Seq<char>, b: Seq<char>, c: char)
    ensures
        count_char(a + b, c) == count_char(a, c) + count_char(b, c),
    decreases b.len(),
{
    if b.len() == 0 {
        assert(a + b =~= a);
    } else {
        assert((a + b).drop_last() =~= a + b.drop_last());
        lemma_count_char_concat(a, b.drop_last(), c);
    }
}

proof fn lemma_count_char_digits(a: Seq<char>, c: char)
    requires
        crate::text::all_digits(a),
        !crate::text::is_digit(c),
    ensures
        count_char(a, c) == 0,
    decreases a.len(),
{
    if a.len() > 0 {
        assert(crate::text::is_digit(a[a.len() - 1]));
        lemma_count_char_digits(a.drop_last(), c);
    }
}

/// Around one separator between two digit runs, a non-digit occurs once when it is the
/// separator and not at all otherwise.
proof fn lemma_count_around(a: Seq<char>, b: Seq<char>, sep: char, c: char)
    requires
        crate::text::all_digits(a),
        crate::text::all_digits(b),
        !crate::text::is_digit(c),
    ensures
        count_char(a + seq![sep] + b, c) == if c == sep { 1nat } else { 0nat },
{
    lemma_count_char_concat(a + seq![sep], b, c);
    lemma_count_char_concat(a, seq![sep], c);
    lemma_count_char_digits(a, c);
    lemma_count_char_digits(b, c);
    assert(seq![sep].drop_last() =~= Seq::<char>::empty());
    assert(count_char(Seq::<char>::empty(), c) == 0);
}

/// A run of digits is read as its value.
proof fn lemma_parse_digits(a: Seq<char>)
    requires
        a.len() > 0,
        crate::text::all_digits(a),
        crate::text::digits_value(a) <= i64::MAX,
    ensures
        trim(a) == a,
        parse_i64(trim(a)) == Some(crate::text::digits_value(a) as int),
{
    assert(crate::text::is_digit(a[0]) && crate::text::is_digit(a.last()));
    crate::text::lemma_trim_fixed(a);
}

/// A scoreline written as two digit runs around `/`, `-` or `:` is normalised with its two
/// numbers in the order the text gives them: the left number stays on the left.
pub proof fn law_scoreline_keeps_sides(a: Seq<char>, b: Seq<char>, sep: char)
    requires
        sep == '/' || sep == '-' || sep == ':',
        a.len() > 0,
        b.len() > 0,
        crate::text::all_digits(a),
        crate::text::all_digits(b),
        crate::text::digits_value(a) <= i64::MAX,
        crate::text::digits_value(b) <= i64::MAX,
    ensures
        normalized_scoreline(a + seq![sep] + b) == Some(
            crate::text::decimal(crate::text::digits_value(a)) + "/"@ + crate::text::decimal(
                crate::text::digits_value(b),
            ),
        ),
{
    let v = a + seq![sep] + b;
    assert(!crate::text::is_digit('/') && !crate::text::is_digit('-') && !crate::text::is_digit(':'));
    lemma_count_around(a, b, sep, '/');
    lemma_count_around(a, b, sep, '-');
    lemma_count_around(a, b, sep, ':');
    crate::text::lemma_char_pos_from(v, sep, 0);
    assert(v[a.len() as int] == sep);
    let i = crate::text::char_pos_from(v, sep, 0)->Some_0;
    if i < a.len() {
        assert(v[i] == a[i]);
        assert(crate::text::is_digit(a[i]));
    }
    assert(i == a.len());
    assert(v.take(i) =~= a);
    assert(v.skip(i + 1) =~= b);
    assert(split_once(v, sep) == Some((a, b)));
    lemma_parse_digits(a);
    lemma_parse_digits(b);
}


pub fn normalize_scoreline(value: &str) -> (res: Option<String>)
    ensures
        opt_string(res) == normalized_scoreline(value@),
{
    let v = chars_of(value);
    let sep = if count_char_exec(&v, '/') == 1 {
        '/'
    } else if count_char_exec(&v, '-') == 1 {
        '-'
    } else if count_char_exec(&v, ':') == 1 {
        ':'
    } else {
        return None;
    };
    match split_once_exec(&v, sep) {
        Some((a, b)) => match (parse_i64_exec(&trim_exec(&a)), parse_i64_exec(&trim_exec(&b))) {
            (Some(l), Some(r)) => {
                let t = concat(&concat(&decimal_i64(l), &chars_of("/")), &decimal_i64(r));
                Some(string_of(&t))
            },
            _ => None,
        },
        None => None,
    }
}

pub open spec fn scoreline_of(v: JsonValue, won: Option<int>, lost: Option<int>) -> Option<Seq<char>> {
    or_else(
        match find_text(v, SCORELINE_KEYS@) {
            Some(t) => normalized_scoreline(t),
            None => None,
        },
        scoreline_text(won, lost),
    )
}

pub fn find_scoreline(v: &JsonValue, won: Option<i64>, lost: Option<i64>) -> (res: Option<String>)
    ensures
        opt_string(res) == scoreline_of(*v, opt_int(won), opt_int(lost)),
{
    if let Some(t) = find_string_by_keys(v, &SCORELINE_KEYS) {
        if let Some(s) = normalize_scoreline(t.as_str()) {
            return Some(s);
        }
    }
    build_scoreline(won, lost)
}

/// A result text that reads as a win (`Some(true)`) or a loss (`Some(false)`).
pub open spec fn win_text(v: JsonValue) -> Option<bool> {
    match find_text(v, WIN_TEXT_KEYS@) {
        None => None,
        Some(t) => {
            let n = unicode_lower(t);
            if contains(n, "胜"@) || contains(n, "成功"@) || contains(n, "win"@) || contains(
                n,
                "victory"@,
            ) {
                Some(true)
            } else if contains(n, "负"@) || contains(n, "失败"@) || contains(n, "loss"@)
                || contains(n, "defeat"@) || contains(n, "lose"@) {
                Some(false)
            } else {
                None
            }
        },
    }
}

fn contains_lit(v: &Vec<char>, lit: &str) -> (res: bool)
    ensures
        res == contains(v@, lit@),
{
    contains_exec(v, &chars_of(lit))
}

pub fn parse_win_text(v: &JsonValue) -> (res: Option<bool>)
    ensures
        res == win_text(*v),
{
    let t = match find_string_by_keys(v, &WIN_TEXT_KEYS) {
        Some(t) => t,
        None => return None,
    };
    let n = chars_of(to_lowercase_str(t.as_str()).as_str());
    if contains_lit(&n, "胜") || contains_lit(&n, "成功") || contains_lit(&n, "win")
        || contains_lit(&n, "victory") {
        Some(true)
    } else if contains_lit(&n, "负") || contains_lit(&n, "失败") || contains_lit(&n, "loss")
        || contains_lit(&n, "defeat") || contains_lit(&n, "lose") {
        Some(false)
    } else {
        None
    }
}

// ---------------------------------------------------------------------------------------------
// Kill events
// ---------------------------------------------------------------------------------------------

/// A weapon as displayed: the asset's name when the value is an asset path.
pub open spec fn weapon_display(t: Option<Seq<char>>) -> Option<Seq<char>> {
    match t {
        Some(w) => match internal_asset(w) {
            Some(a) => Some(a),
            None => Some(w),
        },
        None => None,
    }
}

fn weapon_display_exec(t: Option<String>) -> (res: Option<String>)
    ensures
        opt_string(res) == weapon_display(opt_string(t)),
{
    match t {
        Some(w) => match internal_asset_chars(&chars_of(w.as_str())) {
            Some(a) => Some(string_of(&a)),
            None => Some(w),
        },
        None => None,
    }
}

/// The kill event that an object of a record's kill list describes.
pub open spec fn kill_event_of_object(v: JsonValue) -> KillEventView {
    KillEventView {
        event_time: find_text(v, EVENT_TIME_KEYS@),
        round_id: find_int(v, ROUND_KEYS@),
        weapon_name: weapon_display(find_text(v, WEAPON_KEYS@)),
        killer_name: find_text(v, KILLER_KEYS@),
        killed_name: find_text(v, KILLED_KEYS@),
        raw_json: Some(json_text(v)),
    }
}

/// A kill event that only has a time.
pub open spec fn kill_time_event(t: Seq<char>) -> KillEventView {
    KillEventView {
        event_time: Some(t),
        round_id: None,
        weapon_name: None,
        killer_name: None,
        killed_name: None,
        raw_json: None,
    }
}

pub open spec fn kill_event_time_of(v: JsonValue) -> Option<KillEventView> {
    match string_of_value(v) {
        Some(t) => Some(kill_time_event(t)),
        None => None,
    }
}

/// An object is a full kill event, a string is a kill time, anything else is no event.
pub open spec fn kill_event_of(v: JsonValue) -> Option<KillEventView> {
    match v {
        JsonValue::Object(_) => Some(kill_event_of_object(v)),
        JsonValue::String(_) => kill_event_time_of(v),
        _ => None,
    }
}

pub fn parse_kill_event_time(v: &JsonValue) -> (res: Option<HighlightLogKillEvent>)
    ensures
        match res {
            Some(e) => kill_event_time_of(*v) == Some(e@),
            None => kill_event_time_of(*v) is None,
        },
{
    match string_from_value(v) {
        Some(t) => Some(
            HighlightLogKillEvent {
                event_time: Some(t),
                round_id: None,
                weapon_name: None,
                killer_name: None,
                killed_name: None,
                raw_json: None,
            },
        ),
        None => None,
    }
}

pub fn parse_kill_event(v: &JsonValue) -> (res: Option<HighlightLogKillEvent>)
    ensures
        match res {
            Some(e) => kill_event_of(*v) == Some(e@),
            None => kill_event_of(*v) is None,
        },
{
    match v {
        JsonValue::Object(_) => Some(
            HighlightLogKillEvent {
                event_time: find_string_by_keys(v, &EVENT_TIME_KEYS),
                round_id: find_i64_by_keys(v, &ROUND_KEYS),
                weapon_name: weapon_display_exec(find_string_by_keys(v, &WEAPON_KEYS)),
                killer_name: find_string_by_keys(v, &KILLER_KEYS),
                killed_name: find_string_by_keys(v, &KILLED_KEYS),
                raw_json: Some(to_json_text(v)),
            },
        ),
        JsonValue::String(_) => parse_kill_event_time(v),
        _ => None,
    }
}

/// The events that `f` makes of `items`, in order, skipping the items it rejects.
pub open spec fn filter_events(items: Seq<JsonValue>, times_only: bool) -> Seq<KillEventView>
    decreases items.len(),
{
    if items.len() == 0 {
        seq![]
    } else {
        let rest = filter_events(items.drop_last(), times_only);
        let e = if times_only {
            kill_event_time_of(items.last())
        } else {
            kill_event_of(items.last())
        };
        match e {
            Some(k) => rest.push(k),
            None => rest,
        }
    }
}

fn collect_kill_events(items: &Vec<JsonValue>, times_only: bool) -> (res: Vec<HighlightLogKillEvent>)
    ensures
        kill_events_view(res@) == filter_events(items@, times_only),
{
    let mut out: Vec<HighlightLogKillEvent> = Vec::new();
    let mut i: usize = 0;
    while i < items.len()
        invariant
            i <= items@.len(),
            kill_events_view(out@) == filter_events(items@.take(i as int), times_only),
        decreases items.len() - i,
    {
        assert(items@.take(i + 1).drop_last() =~= items@.take(i as int));
        let e = if times_only {
            parse_kill_event_time(&items[i])
        } else {
            parse_kill_event(&items[i])
        };
        if let Some(k) = e {
            let ghost before = out@;
            out.push(k);
            assert(kill_events_view(out@) =~= kill_events_view(before).push(k@));
        }
        i = i + 1;
    }
    assert(items@.take(i as int) =~= items@);
    out
}

/// A record's kill events: those of its first kill list, else the times of its first kill-time
/// list, else none.
pub open spec fn kill_events_of(v: JsonValue) -> Seq<KillEventView> {
    match find_first(v, normalized_keys(KILL_EVENT_KEYS@), Want::List) {
        Some(JsonValue::Array(items)) => filter_events(items@, false),
        _ => match find_first(v, normalized_keys(KILL_TIME_KEYS@), Want::List) {
            Some(JsonValue::Array(items)) => filter_events(items@, true),
            _ => seq![],
        },
    }
}

pub fn find_kill_events(v: &JsonValue) -> (res: Vec<HighlightLogKillEvent>)
    ensures
        kill_events_view(res@) == kill_events_of(*v),
{
    if let Some(items) = find_array_by_keys(v, &KILL_EVENT_KEYS) {
        return collect_kill_events(items, false);
    }
    if let Some(items) = find_array_by_keys(v, &KILL_TIME_KEYS) {
        return collect_kill_events(items, true);
    }
    let out: Vec<HighlightLogKillEvent> = Vec::new();
    assert(kill_events_view(out@) =~= Seq::<KillEventView>::empty());
    out
}

// ---------------------------------------------------------------------------------------------
// Compressed event payloads
// ---------------------------------------------------------------------------------------------

/// A gzip payload in base64 opens with `H4sI` (after leading white space).
pub open spec fn is_gzip_text(t: Seq<char>) -> bool {
    starts_with(trim_start(t), "H4sI"@)
}

pub fn is_gzip_payload(t: &str) -> (res: bool)
    ensures
        res == is_gzip_text(t@),
{
    starts_with_exec(&trim_start_exec(&chars_of(t)), &chars_of("H4sI"))
}

/// Some `event` entry anywhere in the document holds a gzip payload.
pub open spec fn gzip_in(v: JsonValue) -> bool
    decreases v, 0int,
{
    match v {
        JsonValue::Object(entries) => gzip_in_entries(entries@, 0),
        JsonValue::Array(items) => gzip_in_items(items@, 0),
        _ => false,
    }
}

pub open spec fn gzip_in_entries(entries: Seq<(String, JsonValue)>, i: int) -> bool
    decreases entries, entries.len() - i,
{
    if i < 0 || i >= entries.len() {
        false
    } else {
        (key_in(entries[i].0@, normalized_keys(seq!["event"])) && match string_of_value(
            entries[i].1,
        ) {
            Some(t) => is_gzip_text(t),
            None => false,
        }) || gzip_in(entries[i].1) || gzip_in_entries(entries, i + 1)
    }
}

pub open spec fn gzip_in_items(items: Seq<JsonValue>, i: int) -> bool
    decreases items, items.len() - i,
{
    if i < 0 || i >= items.len() {
        false
    } else {
        gzip_in(items[i]) || gzip_in_items(items, i + 1)
    }
}

pub fn has_gzip_event(v: &JsonValue) -> (res: bool)
    ensures
        res == gzip_in(*v),
    decreases v,
{
    match v {
        JsonValue::Object(entries) => {
            let event_keys = ["event"];
            assert(event_keys@ == seq!["event"]);
            let keys = KeySet::new(&event_keys);
            let mut i: usize = 0;
            while i < entries.len()
                invariant
                    i <= entries@.len(),
                    *v == JsonValue::Object(*entries),
                    keys.view() == normalized_keys(seq!["event"]),
                    gzip_in_entries(entries@, 0) == gzip_in_entries(entries@, i as int),
                decreases entries.len() - i,
            {
                let direct = key_matches(entries[i].0.as_str(), &keys) && match string_from_value(
                    &entries[i].1,
                ) {
                    Some(t) => is_gzip_payload(t.as_str()),
                    None => false,
                };
                if direct {
                    return true;
                }
                proof {
                    assert(v->Object_0 == *entries);
                    assert(decreases_to!(*v => v->Object_0));
                    assert(decreases_to!(*v => entries@[i as int].1));
                }
                if has_gzip_event(&entries[i].1) {
                    return true;
                }
                i = i + 1;
            }
            false
        },
        JsonValue::Array(items) => {
            let mut i: usize = 0;
            while i < items.len()
                invariant
                    i <= items@.len(),
                    *v == JsonValue::Array(*items),
                    gzip_in_items(items@, 0) == gzip_in_items(items@, i as int),
                decreases items.len() - i,
            {
                proof {
                    assert(v->Array_0 == *items);
                    assert(decreases_to!(*v => v->Array_0));
                    assert(decreases_to!(*v => items@[i as int]));
                }
                if has_gzip_event(&items[i]) {
                    return true;
                }
                i = i + 1;
            }
            false
        },
        _ => false,
    }
}

// ---------------------------------------------------------------------------------------------
// One record
// ---------------------------------------------------------------------------------------------

pub open spec fn slashed(o: Option<Seq<char>>) -> Option<Seq<char>> {
    match o {
        Some(t) => Some(replace_char(t, '\\', '/')),
        None => None,
    }
}

pub open spec fn or_flag(a: Option<bool>, b: Option<bool>) -> Option<bool> {
    match a {
        Some(x) => Some(x),
        None => b,
    }
}

/// `r` is the record that `v`, read as a line of kind `kind`, describes.
pub open spec fn is_record_of(r: HighlightLogRecord, v: JsonValue, kind: HighlightLogLineKind) -> bool {
    let kills = find_int(v, KILLS_KEYS@);
    let deaths = find_int(v, DEATHS_KEYS@);
    let assists = find_int(v, ASSISTS_KEYS@);
    let won = find_int(v, ROUNDS_WON_KEYS@);
    let lost = find_int(v, ROUNDS_LOST_KEYS@);
    &&& r.line_kind == kind
    &&& opt_string(r.match_id) == find_text(v, MATCH_ID_KEYS@)
    &&& opt_string(r.battle_id) == find_text(v, BATTLE_ID_KEYS@)
    &&& opt_string(r.record_src) == slashed(find_text(v, RECORD_SRC_KEYS@))
    &&& opt_string(r.player_name) == player_of(v)
    &&& opt_string(r.map_id) == map_id_of(v)
    &&& opt_string(r.map_name) == map_name_of(v)
    &&& opt_string(r.game_mode) == game_mode_of(v)
    &&& opt_string(r.agent_name) == agent_of(v)
    &&& opt_string(r.kda) == or_else(find_text(v, KDA_KEYS@), kda_text(kills, deaths, assists))
    &&& opt_string(r.scoreline) == scoreline_of(v, won, lost)
    &&& r.has_won == or_flag(find_flag(v, HAS_WON_KEYS@), win_text(v))
    &&& opt_int(r.combat_score) == find_int(v, COMBAT_SCORE_KEYS@)
    &&& kill_events_view(r.kill_events@) == kill_events_of(v)
    &&& r.has_gzip_event == gzip_in(v)
    &&& r.raw_json@ == json_text(v)
}

/// `value.replace('\\', "/")`.
pub fn normalize_path_string(value: &str) -> (res: String)
    ensures
        res@ == replace_char(value@, '\\', '/'),
{
    string_of(&replace_char_exec(&chars_of(value), '\\', '/'))
}

pub fn parse_record(v: &JsonValue, line_kind: HighlightLogLineKind) -> (res: HighlightLogRecord)
    ensures
        is_record_of(res, *v, line_kind),
{
    let kills = find_i64_by_keys(v, &KILLS_KEYS);
    let deaths = find_i64_by_keys(v, &DEATHS_KEYS);
    let assists = find_i64_by_keys(v, &ASSISTS_KEYS);
    let won = find_i64_by_keys(v, &ROUNDS_WON_KEYS);
    let lost = find_i64_by_keys(v, &ROUNDS_LOST_KEYS);
    let record_src = match find_string_by_keys(v, &RECORD_SRC_KEYS) {
        Some(t) => Some(normalize_path_string(t.as_str())),
        None => None,
    };
    let kda = match find_string_by_keys(v, &KDA_KEYS) {
        Some(k) => Some(k),
        None => build_kda(kills, deaths, assists),
    };
    let has_won = match find_bool_by_keys(v, &HAS_WON_KEYS) {
        Some(b) => Some(b),
        None => parse_win_text(v),
    };
    HighlightLogRecord {
        line_kind,
        match_id: find_string_by_keys(v, &MATCH_ID_KEYS),
        battle_id: find_string_by_keys(v, &BATTLE_ID_KEYS),
        record_src,
        player_name: find_player_name(v),
        map_id: find_map_id(v),
        map_name: find_map_name(v),
        game_mode: find_game_mode(v),
        agent_name: find_agent_name(v),
        kda,
        scoreline: find_scoreline(v, won, lost),
        has_won,
        combat_score: find_i64_by_keys(v, &COMBAT_SCORE_KEYS),
        kill_events: find_kill_events(v),
        has_gzip_event: has_gzip_event(v),
        raw_json: to_json_text(v),
    }
}

// ---------------------------------------------------------------------------------------------
// Recorder events
// ---------------------------------------------------------------------------------------------

pub const PARAMS_KEYS: [&'static str; 2] = ["Params", "params"];
pub const EVENT_NAME_KEYS: [&'static str; 4] = ["EventName", "eventName", "event_type", "eventType"];
pub const GAME_ID_KEYS: [&'static str; 3] = ["GameID", "gameId", "game_id"];
pub const ACCOUNT_ID_KEYS: [&'static str; 6] = ["OpenID", "openID", "openId", "openid", "open_id", "g_open_id"];
pub const PLAYER_NAME_KEYS: [&'static str; 3] = ["PlayerName", "playerName", "player_name"];
pub const TOTAL_SCORE_KEYS: [&'static str; 3] = ["TotalScore", "totalScore", "total_score"];
pub const MATCH_COMBAT_SCORE_KEYS: [&'static str; 3] = [
    "MatchCombatScore",
    "matchCombatScore",
    "match_combat_score",
];
pub const ROUND_ID_KEYS: [&'static str; 4] = ["RoundID", "roundId", "round_id", "round"];

/// The object that carries an event's fields: its own `Params` object when it has one.
pub open spec fn params_of(event: JsonValue) -> Option<JsonValue> {
    if event is Object {
        match direct_child(event, PARAMS_KEYS@, Want::Object) {
            Some(p) => Some(p),
            None => Some(event),
        }
    } else {
        None
    }
}

pub fn event_params_object(event: &JsonValue) -> (res: Option<&JsonValue>)
    ensures
        match res {
            Some(p) => params_of(*event) == Some(*p),
            None => params_of(*event) is None,
        },
{
    if !event.is_object_exec() {
        return None;
    }
    match direct_child_by_keys(event, &PARAMS_KEYS, Want::Object) {
        Some(p) => Some(p),
        None => Some(event),
    }
}

/// The event's name, compared ignoring ASCII case.
pub open spec fn event_named(object: JsonValue, expected: Seq<char>) -> bool {
    match text_of_hit(direct_child(object, EVENT_NAME_KEYS@, Want::Text)) {
        Some(n) => eq_ic(n, expected),
        None => false,
    }
}

pub fn event_name_is(object: &JsonValue, expected: &str) -> (res: bool)
    ensures
        res == event_named(*object, expected@),
{
    match direct_string_by_keys(object, &EVENT_NAME_KEYS) {
        Some(n) => eq_ignore_case(&chars_of(n.as_str()), &chars_of(expected)),
        None => false,
    }
}

/// A trimmed, ASCII-lower-cased identifier; empty counts as absent.
pub open spec fn normalized_id(t: Option<Seq<char>>) -> Option<Seq<char>> {
    match t {
        Some(x) => {
            let n = lower_seq(trim(x));
            if n.len() == 0 {
                None
            } else {
                Some(n)
            }
        },
        None => None,
    }
}

fn normalized_id_exec(t: Option<String>) -> (res: Option<Vec<char>>)
    ensures
        opt_chars(res) == normalized_id(opt_string(t)),
{
    match t {
        Some(x) => {
            let n = to_lower(&trim_str(x.as_str()));
            if n.len() == 0 {
                None
            } else {
                Some(n)
            }
        },
        None => None,
    }
}

pub open spec fn game_id_of(object: JsonValue) -> Option<Seq<char>> {
    normalized_id(text_of_hit(direct_child(object, GAME_ID_KEYS@, Want::Text)))
}

pub open spec fn account_id_of(object: JsonValue) -> Option<Seq<char>> {
    normalized_id(text_of_hit(direct_child(object, ACCOUNT_ID_KEYS@, Want::Text)))
}

pub fn event_game_id(object: &JsonValue) -> (res: Option<Vec<char>>)
    ensures
        opt_chars(res) == game_id_of(*object),
{
    normalized_id_exec(direct_string_by_keys(object, &GAME_ID_KEYS))
}

pub fn event_account_id(object: &JsonValue) -> (res: Option<Vec<char>>)
    ensures
        opt_chars(res) == account_id_of(*object),
{
    normalized_id_exec(direct_string_by_keys(object, &ACCOUNT_ID_KEYS))
}

/// A player's identity: the trimmed, lower-cased name; empty counts as absent.
pub open spec fn player_identity(name: Seq<char>) -> Option<Seq<char>> {
    let p = unicode_lower(trim(name));
    if p.len() == 0 {
        None
    } else {
        Some(p)
    }
}

pub fn normalize_player_identity(name: &str) -> (res: Option<Vec<char>>)
    ensures
        opt_chars(res) == player_identity(name@),
{
    let trimmed = string_of(&trim_str(name));
    let p = chars_of(to_lowercase_str(trimmed.as_str()).as_str());
    if p.len() == 0 {
        None
    } else {
        Some(p)
    }
}

pub open spec fn identity_of_text(t: Option<Seq<char>>) -> Option<Seq<char>> {
    match t {
        Some(x) => player_identity(x),
        None => None,
    }
}

/// The name part of an identity: before its first `#`, trimmed.
pub open spec fn identity_base(s: Seq<char>) -> Seq<char> {
    trim(before_first_char(s, '#'))
}

/// Two identities name the same player: they are equal, or at most one carries a tag and their
/// names agree and are not empty.
pub open spec fn identities_match(expected: Seq<char>, candidate: Seq<char>) -> bool {
    expected == candidate || ((!contains(expected, "#"@) || !contains(candidate, "#"@))
        && identity_base(expected).len() > 0 && identity_base(expected) == identity_base(
        candidate,
    ))
}

pub fn player_identities_match(expected: &Vec<char>, candidate: &Vec<char>) -> (res: bool)
    ensures
        res == identities_match(expected@, candidate@),
{
    if crate::text::seq_eq(expected, candidate) {
        return true;
    }
    let hash = chars_of("#");
    let eb = trim_exec(&before_first_char_exec(expected, '#'));
    let cb = trim_exec(&before_first_char_exec(candidate, '#'));
    (!contains_exec(expected, &hash) || !contains_exec(candidate, &hash)) && eb.len() > 0
        && crate::text::seq_eq(&eb, &cb)
}

/// The index of the first entry from `i` on whose key equals `__PlayerName__` ignoring ASCII case.
pub open spec fn exact_player_entry(entries: Seq<(String, JsonValue)>, i: int) -> Option<int>
    decreases entries.len() - i,
{
    if i < 0 || i >= entries.len() {
        None
    } else if eq_ic(entries[i].0@, "__PlayerName__"@) {
        Some(i)
    } else {
        exact_player_entry(entries, i + 1)
    }
}

pub open spec fn is_player_name_key(k: Seq<char>) -> bool {
    eq_ic(k, "PlayerName"@) || eq_ic(k, "playerName"@) || eq_ic(k, "player_name"@)
}

/// The text of the first entry from `i` on under a player-name key that has text.
pub open spec fn loose_player_entry(entries: Seq<(String, JsonValue)>, i: int) -> Option<Seq<char>>
    decreases entries.len() - i,
{
    if i < 0 || i >= entries.len() {
        None
    } else if is_player_name_key(entries[i].0@) && string_of_value(entries[i].1) is Some {
        string_of_value(entries[i].1)
    } else {
        loose_player_entry(entries, i + 1)
    }
}

/// The player a combat-score event is about: the `__PlayerName__` entry when there is one
/// (even without text), else the first player-name entry with text.
pub open spec fn combat_player_of(object: JsonValue) -> Option<Seq<char>> {
    match object {
        JsonValue::Object(entries) => match exact_player_entry(entries@, 0) {
            Some(j) => string_of_value(entries@[j].1),
            None => loose_player_entry(entries@, 0),
        },
        _ => None,
    }
}

pub fn combat_score_player_name(object: &JsonValue) -> (res: Option<String>)
    ensures
        opt_string(res) == combat_player_of(*object),
{
    let entries = match object {
        JsonValue::Object(entries) => entries,
        _ => return None,
    };
    let exact = chars_of("__PlayerName__");
    let mut i: usize = 0;
    while i < entries.len()
        invariant
            i <= entries@.len(),
            exact@ == "__PlayerName__"@,
            *object == JsonValue::Object(*entries),
            exact_player_entry(entries@, 0) == exact_player_entry(entries@, i as int),
        decreases entries.len() - i,
    {
        if eq_ignore_case(&chars_of(entries[i].0.as_str()), &exact) {
            return string_from_value(&entries[i].1);
        }
        i = i + 1;
    }
    let mut j: usize = 0;
    while j < entries.len()
        invariant
            j <= entries@.len(),
            *object == JsonValue::Object(*entries),
            exact_player_entry(entries@, 0) is None,
            loose_player_entry(entries@, 0) == loose_player_entry(entries@, j as int),
        decreases entries.len() - j,
    {
        let k = chars_of(entries[j].0.as_str());
        if eq_ignore_case(&k, &chars_of("PlayerName")) || eq_ignore_case(&k, &chars_of("playerName"))
            || eq_ignore_case(&k, &chars_of("player_name")) {
            let t = string_from_value(&entries[j].1);
            if t.is_some() {
                return t;
            }
        }
        j = j + 1;
    }
    None
}

// ---------------------------------------------------------------------------------------------
// Per-round combat scores
// ---------------------------------------------------------------------------------------------

#[derive(Debug, Clone, PartialEq, Eq)]
pub struct HighlightLogRoundScore {
    pub account_id: String,
    pub match_id: String,
    pub round_id: i64,
    pub score: i64,
}

/// GameStart, GameSettle, RoundStart and RoundEnd events carry the recording account.
pub open spec fn is_context_event(o: JsonValue) -> bool {
    event_named(o, "GameStart"@) || event_named(o, "GameSettle"@) || event_named(o, "RoundStart"@)
        || event_named(o, "RoundEnd"@)
}

/// The player identities that the context events of `events` name, provided every context
/// event carries `account`; `None` when one carries no account or another one.
pub open spec fn context_names(events: Seq<&JsonValue>, account: Seq<char>) -> Option<Seq<Seq<char>>>
    decreases events.len(),
{
    if events.len() == 0 {
        Some(seq![])
    } else {
        match context_names(events.drop_last(), account) {
            None => None,
            Some(names) => {
                let o = *events.last();
                if !is_context_event(o) {
                    Some(names)
                } else {
                    match account_id_of(o) {
                        None => None,
                        Some(a) => if a != account {
                            None
                        } else {
                            match identity_of_text(
                                text_of_hit(direct_child(o, PLAYER_NAME_KEYS@, Want::Text)),
                            ) {
                                Some(n) => Some(names.push(n)),
                                None => Some(names),
                            }
                        },
                    }
                }
            },
        }
    }
}

/// The first index of `key` in an association list.
pub open spec fn assoc_index(list: Seq<(Seq<char>, int)>, key: Seq<char>, i: int) -> Option<int>
    decreases list.len() - i,
{
    if i < 0 || i >= list.len() {
        None
    } else if list[i].0 == key {
        Some(i)
    } else {
        assoc_index(list, key, i + 1)
    }
}

/// An association list with `key` set to `value`.
pub open spec fn assoc_set(list: Seq<(Seq<char>, int)>, key: Seq<char>, value: int) -> Seq<(Seq<char>, int)> {
    match assoc_index(list, key, 0) {
        Some(j) => list.update(j, (key, value)),
        None => list.push((key, value)),
    }
}

pub open spec fn combat_score_of(o: JsonValue) -> Option<int> {
    int_of_hit(direct_child(o, MATCH_COMBAT_SCORE_KEYS@, Want::Integer))
}

/// Each player's last match combat score, provided every combat-score event belongs to
/// `match_id`, names a player and carries a non-negative score.
pub open spec fn final_scores(events: Seq<&JsonValue>, match_id: Seq<char>) -> Option<Seq<(Seq<char>, int)>>
    decreases events.len(),
{
    if events.len() == 0 {
        Some(seq![])
    } else {
        match final_scores(events.drop_last(), match_id) {
            None => None,
            Some(list) => {
                let o = *events.last();
                if !event_named(o, "CombatScore"@) {
                    Some(list)
                } else if game_id_of(o) != Some(match_id) {
                    None
                } else {
                    match identity_of_text(combat_player_of(o)) {
                        None => None,
                        Some(p) => match combat_score_of(o) {
                            None => None,
                            Some(m) => if m < 0 {
                                None
                            } else {
                                Some(assoc_set(list, p, m))
                            },
                        },
                    }
                }
            },
        }
    }
}

/// How many entries from `i` on have `value`.
pub open spec fn count_value(list: Seq<(Seq<char>, int)>, value: int, i: int) -> nat
    decreases list.len() - i,
{
    if i < 0 || i >= list.len() {
        0
    } else {
        count_value(list, value, i + 1) + if list[i].1 == value { 1nat } else { 0nat }
    }
}

/// The key of the first entry from `i` on that has `value`.
pub open spec fn first_with_value(list: Seq<(Seq<char>, int)>, value: int, i: int) -> Option<Seq<char>>
    decreases list.len() - i,
{
    if i < 0 || i >= list.len() {
        None
    } else if list[i].1 == value {
        Some(list[i].0)
    } else {
        first_with_value(list, value, i + 1)
    }
}

/// The one player whose last score equals `total`; `None` when none or several do.
pub open spec fn unique_player(list: Seq<(Seq<char>, int)>, total: int) -> Option<Seq<char>> {
    if count_value(list, total, 0) == 1 {
        first_with_value(list, total, 0)
    } else {
        None
    }
}

/// The context names agree with each other and with the current player.
pub open spec fn names_consistent(names: Seq<Seq<char>>, current: Seq<char>) -> bool {
    &&& forall|i: int| 1 <= i < names.len() ==> identities_match(names[0], #[trigger] names[i])
    &&& forall|i: int| 0 <= i < names.len() ==> identities_match(#[trigger] names[i], current)
}

/// The state of the round-by-round walk: the latest match score of the current player, the
/// score at the previous round end, the previous round id, and the (round id, score) pairs.
pub struct RoundWalk {
    pub latest: int,
    pub previous_end: int,
    pub previous_round: Option<int>,
    pub rounds: Seq<(int, int)>,
}

/// The walk over `events`: a combat score of the current player raises the latest score (and
/// may never lower it); each RoundEnd must carry the next round id and scores the difference
/// since the previous round end.
pub open spec fn round_walk(events: Seq<&JsonValue>, current: Seq<char>) -> Option<RoundWalk>
    decreases events.len(),
{
    if events.len() == 0 {
        Some(RoundWalk { latest: 0, previous_end: 0, previous_round: None, rounds: seq![] })
    } else {
        match round_walk(events.drop_last(), current) {
            None => None,
            Some(w) => {
                let o = *events.last();
                if event_named(o, "CombatScore"@) {
                    if identity_of_text(combat_player_of(o)) != Some(current) {
                        Some(w)
                    } else {
                        match combat_score_of(o) {
                            None => Some(w),
                            Some(m) => if m < w.latest {
                                None
                            } else {
                                Some(RoundWalk { latest: m, ..w })
                            },
                        }
                    }
                } else if !event_named(o, "RoundEnd"@) {
                    Some(w)
                } else {
                    match int_of_hit(direct_child(o, ROUND_ID_KEYS@, Want::Integer)) {
                        None => None,
                        Some(r) => {
                            let expected = match w.previous_round {
                                Some(p) => p + 1,
                                None => 0,
                            };
                            if r != expected {
                                None
                            } else {
                                Some(
                                    RoundWalk {
                                        latest: w.latest,
                                        previous_end: w.latest,
                                        previous_round: Some(r),
                                        rounds: w.rounds.push((r, w.latest - w.previous_end)),
                                    },
                                )
                            }
                        },
                    }
                }
            },
        }
    }
}

/// The per-round scores of one match segment, which must end with its GameSettle event: the
/// settling account's player is the one whose final match score equals the settled total, every
/// context event must agree on account and player, and the round ends must count up from 0.
pub open spec fn segment_rounds(events: Seq<&JsonValue>, match_id: Seq<char>) -> Option<
    (Seq<char>, Seq<(int, int)>),
> {
    if events.len() == 0 {
        None
    } else {
        let settle = *events.last();
        if !event_named(settle, "GameSettle"@) || game_id_of(settle) != Some(match_id) {
            None
        } else {
            match account_id_of(settle) {
                None => None,
                Some(account) => match int_of_hit(
                    direct_child(settle, TOTAL_SCORE_KEYS@, Want::Integer),
                ) {
                    None => None,
                    Some(total) => if total < 0 {
                        None
                    } else {
                        match (context_names(events, account), final_scores(events, match_id)) {
                            (Some(names), Some(finals)) => match unique_player(finals, total) {
                                None => None,
                                Some(current) => if !names_consistent(names, current) {
                                    None
                                } else {
                                    match round_walk(events, current) {
                                        None => None,
                                        Some(w) => if w.rounds.len() == 0 {
                                            None
                                        } else {
                                            Some((account, w.rounds))
                                        },
                                    }
                                },
                            },
                            _ => None,
                        }
                    },
                },
            }
        }
    }
}

impl HighlightLogRoundScore {
    pub open spec fn view(&self) -> (Seq<char>, Seq<char>, int, int) {
        (self.account_id@, self.match_id@, self.round_id as int, self.score as int)
    }
}

pub open spec fn round_scores_view(v: Seq<HighlightLogRoundScore>) -> Seq<(Seq<char>, Seq<char>, int, int)> {
    v.map_values(|r: HighlightLogRoundScore| r@)
}

proof fn lemma_context_none_stays(events: Seq<&JsonValue>, account: Seq<char>, i: int)
    requires
        0 <= i <= events.len(),
        context_names(events.take(i), account) is None,
    ensures
        context_names(events, account) is None,
    decreases events.len() - i,
{
    if i < events.len() {
        assert(events.take(i + 1).drop_last() =~= events.take(i));
        lemma_context_none_stays(events, account, i + 1);
    } else {
        assert(events.take(i) =~= events);
    }
}

proof fn lemma_finals_none_stays(events: Seq<&JsonValue>, match_id: Seq<char>, i: int)
    requires
        0 <= i <= events.len(),
        final_scores(events.take(i), match_id) is None,
    ensures
        final_scores(events, match_id) is None,
    decreases events.len() - i,
{
    if i < events.len() {
        assert(events.take(i + 1).drop_last() =~= events.take(i));
        lemma_finals_none_stays(events, match_id, i + 1);
    } else {
        assert(events.take(i) =~= events);
    }
}

proof fn lemma_walk_none_stays(events: Seq<&JsonValue>, current: Seq<char>, i: int)
    requires
        0 <= i <= events.len(),
        round_walk(events.take(i), current) is None,
    ensures
        round_walk(events, current) is None,
    decreases events.len() - i,
{
    if i < events.len() {
        assert(events.take(i + 1).drop_last() =~= events.take(i));
        lemma_walk_none_stays(events, current, i + 1);
    } else {
        assert(events.take(i) =~= events);
    }
}

pub open spec fn vecs_of(v: Seq<Vec<char>>) -> Seq<Seq<char>> {
    v.map_values(|x: Vec<char>| x@)
}

pub open spec fn assoc_of(v: Seq<(Vec<char>, i64)>) -> Seq<(Seq<char>, int)> {
    v.map_values(|x: (Vec<char>, i64)| (x.0@, x.1 as int))
}

pub open spec fn pairs_of(v: Seq<(i64, i64)>) -> Seq<(int, int)> {
    v.map_values(|x: (i64, i64)| (x.0 as int, x.1 as int))
}

fn is_context_event_exec(o: &JsonValue) -> (res: bool)
    ensures
        res == is_context_event(*o),
{
    event_name_is(o, "GameStart") || event_name_is(o, "GameSettle") || event_name_is(
        o,
        "RoundStart",
    ) || event_name_is(o, "RoundEnd")
}

fn context_player_names(events: &Vec<&JsonValue>, account: &Vec<char>) -> (res: Option<Vec<Vec<char>>>)
    ensures
        match res {
            Some(names) => context_names(events@, account@) == Some(vecs_of(names@)),
            None => context_names(events@, account@) is None,
        },
{
    let mut names: Vec<Vec<char>> = Vec::new();
    let mut i: usize = 0;
    while i < events.len()
        invariant
            i <= events@.len(),
            context_names(events@.take(i as int), account@) == Some(vecs_of(names@)),
        decreases events.len() - i,
    {
        let o = events[i];
        assert(events@.take(i + 1).drop_last() =~= events@.take(i as int));
        assert(events@.take(i + 1).last() == o);
        if is_context_event_exec(o) {
            match event_account_id(o) {
                None => {
                    proof {
                        lemma_context_none_stays(events@, account@, i + 1);
                    }
                    return None;
                },
                Some(a) => {
                    if !crate::text::seq_eq(&a, account) {
                        proof {
                            lemma_context_none_stays(events@, account@, i + 1);
                        }
                        return None;
                    }
                    if let Some(n) = direct_string_by_keys(o, &PLAYER_NAME_KEYS) {
                        if let Some(id) = normalize_player_identity(n.as_str()) {
                            let ghost before = names@;
                            names.push(id);
                            assert(vecs_of(names@) =~= vecs_of(before).push(id@));
                        }
                    }
                },
            }
        }
        i = i + 1;
    }
    assert(events@.take(i as int) =~= events@);
    Some(names)
}

fn assoc_set_exec(list: &mut Vec<(Vec<char>, i64)>, key: Vec<char>, value: i64)
    ensures
        assoc_of(final(list)@) == assoc_set(assoc_of(old(list)@), key@, value as int),
{
    let ghost view = assoc_of(list@);
    let mut j: usize = 0;
    while j < list.len()
        invariant
            j <= list@.len(),
            view == assoc_of(list@),
            view == assoc_of(old(list)@),
            assoc_index(view, key@, 0) == assoc_index(view, key@, j as int),
        decreases list.len() - j,
    {
        if crate::text::seq_eq(&list[j].0, &key) {
            assert(view[j as int].0 == key@);
            assert(assoc_index(view, key@, j as int) == Some(j as int));
            let ghost kv = key@;
            list.set(j, (key, value));
            assert(assoc_of(list@) =~= view.update(j as int, (kv, value as int)));
            return;
        }
        j = j + 1;
    }
    let ghost kv = key@;
    list.push((key, value));
    assert(assoc_of(list@) =~= view.push((kv, value as int)));
}

fn final_combat_scores(events: &Vec<&JsonValue>, match_id: &Vec<char>) -> (res: Option<
    Vec<(Vec<char>, i64)>,
>)
    ensures
        match res {
            Some(list) => final_scores(events@, match_id@) == Some(assoc_of(list@)),
            None => final_scores(events@, match_id@) is None,
        },
{
    let mut list: Vec<(Vec<char>, i64)> = Vec::new();
    let mut i: usize = 0;
    assert(assoc_of(list@) =~= Seq::<(Seq<char>, int)>::empty());
    while i < events.len()
        invariant
            i <= events@.len(),
            final_scores(events@.take(i as int), match_id@) == Some(assoc_of(list@)),
        decreases events.len() - i,
    {
        let o = events[i];
        assert(events@.take(i + 1).drop_last() =~= events@.take(i as int));
        assert(events@.take(i + 1).last() == o);
        if event_name_is(o, "CombatScore") {
            let same_match = match event_game_id(o) {
                Some(g) => crate::text::seq_eq(&g, match_id),
                None => false,
            };
            if !same_match {
                proof {
                    lemma_finals_none_stays(events@, match_id@, i + 1);
                }
                return None;
            }
            let player = match combat_score_player_name(o) {
                Some(n) => normalize_player_identity(n.as_str()),
                None => None,
            };
            let score = direct_i64_by_keys(o, &MATCH_COMBAT_SCORE_KEYS);
            match (player, score) {
                (Some(p), Some(m)) => {
                    if m < 0 {
                        proof {
                            lemma_finals_none_stays(events@, match_id@, i + 1);
                        }
                        return None;
                    }
                    assoc_set_exec(&mut list, p, m);
                },
                _ => {
                    proof {
                        lemma_finals_none_stays(events@, match_id@, i + 1);
                    }
                    return None;
                },
            }
        }
        i = i + 1;
    }
    assert(events@.take(i as int) =~= events@);
    Some(list)
}

fn unique_player_exec(list: &Vec<(Vec<char>, i64)>, total: i64) -> (res: Option<Vec<char>>)
    ensures
        opt_chars(res) == unique_player(assoc_of(list@), total as int),
{
    let ghost view = assoc_of(list@);
    let mut count: usize = 0;
    let mut first: Option<usize> = None;
    let mut i: usize = list.len();
    while i > 0
        invariant
            i <= list@.len(),
            view == assoc_of(list@),
            count == count_value(view, total as int, i as int),
            count <= list@.len() - i,
            match first {
                Some(f) => i <= f < list@.len() && first_with_value(view, total as int, i as int)
                    == Some(view[f as int].0),
                None => first_with_value(view, total as int, i as int) is None,
            },
        decreases i,
    {
        i = i - 1;
        if list[i].1 == total {
            assert(count + 1 <= list.len());
            count = count + 1;
            first = Some(i);
        }
    }
    if count != 1 {
        return None;
    }
    match first {
        Some(f) => Some(crate::text::slice(&list[f].0, 0, list[f].0.len())),
        None => None,
    }
}

fn names_consistent_exec(names: &Vec<Vec<char>>, current: &Vec<char>) -> (res: bool)
    ensures
        res == names_consistent(vecs_of(names@), current@),
{
    let ghost view = vecs_of(names@);
    let mut i: usize = 1;
    while i < names.len()
        invariant
            1 <= i,
            view == vecs_of(names@),
            forall|k: int| 1 <= k < i && k < view.len() ==> identities_match(view[0], #[trigger] view[k]),
        decreases names.len() - i,
    {
        if !player_identities_match(&names[0], &names[i]) {
            assert(!identities_match(view[0], view[i as int]));
            return false;
        }
        i = i + 1;
    }
    let mut j: usize = 0;
    while j < names.len()
        invariant
            j <= names@.len(),
            view == vecs_of(names@),
            forall|k: int| 1 <= k < view.len() ==> identities_match(view[0], #[trigger] view[k]),
            forall|k: int| 0 <= k < j ==> identities_match(#[trigger] view[k], current@),
        decreases names.len() - j,
    {
        if !player_identities_match(&names[j], current) {
            assert(!identities_match(view[j as int], current@));
            return false;
        }
        j = j + 1;
    }
    true
}

fn walk_rounds(events: &Vec<&JsonValue>, current: &Vec<char>) -> (res: Option<Vec<(i64, i64)>>)
    ensures
        match res {
            Some(rounds) => round_walk(events@, current@) matches Some(w) && w.rounds == pairs_of(
                rounds@,
            ),
            None => round_walk(events@, current@) is None,
        },
{
    let mut latest: i64 = 0;
    let mut previous_end: i64 = 0;
    let mut previous_round: Option<i64> = None;
    let mut rounds: Vec<(i64, i64)> = Vec::new();
    let mut i: usize = 0;
    assert(pairs_of(rounds@) =~= Seq::<(int, int)>::empty());
    while i < events.len()
        invariant
            i <= events@.len(),
            0 <= previous_end <= latest,
            round_walk(events@.take(i as int), current@) == Some(
                RoundWalk {
                    latest: latest as int,
                    previous_end: previous_end as int,
                    previous_round: opt_int(previous_round),
                    rounds: pairs_of(rounds@),
                },
            ),
        decreases events.len() - i,
    {
        let o = events[i];
        assert(events@.take(i + 1).drop_last() =~= events@.take(i as int));
        assert(events@.take(i + 1).last() == o);
        if event_name_is(o, "CombatScore") {
            let player = match combat_score_player_name(o) {
                Some(n) => normalize_player_identity(n.as_str()),
                None => None,
            };
            let is_current = match &player {
                Some(p) => crate::text::seq_eq(p, current),
                None => false,
            };
            if is_current {
                if let Some(m) = direct_i64_by_keys(o, &MATCH_COMBAT_SCORE_KEYS) {
                    if m < latest {
                        proof {
                            lemma_walk_none_stays(events@, current@, i + 1);
                        }
                        return None;
                    }
                    latest = m;
                }
            }
        } else if event_name_is(o, "RoundEnd") {
            let r = match direct_i64_by_keys(o, &ROUND_ID_KEYS) {
                Some(r) => r,
                None => {
                    proof {
                        lemma_walk_none_stays(events@, current@, i + 1);
                    }
                    return None;
                },
            };
            let expected_ok = match previous_round {
                Some(p) => p < i64::MAX && r == p + 1,
                None => r == 0,
            };
            if !expected_ok {
                proof {
                    lemma_walk_none_stays(events@, current@, i + 1);
                }
                return None;
            }
            let ghost before = rounds@;
            rounds.push((r, latest - previous_end));
            assert(pairs_of(rounds@) =~= pairs_of(before).push((r as int, latest - previous_end)));
            previous_round = Some(r);
            previous_end = latest;
        }
        i = i + 1;
    }
    assert(events@.take(i as int) =~= events@);
    Some(rounds)
}

/// The scores that [`segment_rounds`] gives, one per round, for `account` in `match_id`.
pub open spec fn scores_for(account: Seq<char>, match_id: Seq<char>, rounds: Seq<(int, int)>) -> Seq<
    (Seq<char>, Seq<char>, int, int),
> {
    rounds.map_values(|r: (int, int)| (account, match_id, r.0, r.1))
}

/// The per-round combat scores of the match segment `events` (see [`segment_rounds`]).
pub fn find_segment_round_scores(events: &Vec<&JsonValue>, match_id: &str) -> (res: Option<
    Vec<HighlightLogRoundScore>,
>)
    ensures
        match res {
            Some(scores) => segment_rounds(events@, match_id@) matches Some((account, rounds))
                && round_scores_view(scores@) == scores_for(account, match_id@, rounds),
            None => segment_rounds(events@, match_id@) is None,
        },
{
    if events.len() == 0 {
        return None;
    }
    let mid = chars_of(match_id);
    let settle = events[events.len() - 1];
    assert(settle == events@.last());
    if !event_name_is(settle, "GameSettle") {
        return None;
    }
    let same_match = match event_game_id(settle) {
        Some(g) => crate::text::seq_eq(&g, &mid),
        None => false,
    };
    if !same_match {
        return None;
    }
    let account = match event_account_id(settle) {
        Some(a) => a,
        None => return None,
    };
    let total = match direct_i64_by_keys(settle, &TOTAL_SCORE_KEYS) {
        Some(t) => t,
        None => return None,
    };
    if total < 0 {
        return None;
    }
    let names = match context_player_names(events, &account) {
        Some(n) => n,
        None => return None,
    };
    let finals = match final_combat_scores(events, &mid) {
        Some(f) => f,
        None => return None,
    };
    let current = match unique_player_exec(&finals, total) {
        Some(c) => c,
        None => return None,
    };
    if !names_consistent_exec(&names, &current) {
        return None;
    }
    let rounds = match walk_rounds(events, &current) {
        Some(r) => r,
        None => return None,
    };
    if rounds.len() == 0 {
        return None;
    }
    let account_text = string_of(&account);
    let mut out: Vec<HighlightLogRoundScore> = Vec::new();
    let mut i: usize = 0;
    while i < rounds.len()
        invariant
            i <= rounds@.len(),
            account_text@ == account@,
            round_scores_view(out@) == scores_for(account@, match_id@, pairs_of(rounds@).take(i as int)),
        decreases rounds.len() - i,
    {
        let ghost before = out@;
        out.push(
            HighlightLogRoundScore {
                account_id: string_of(&account),
                match_id: string_of(&chars_of(match_id)),
                round_id: rounds[i].0,
                score: rounds[i].1,
            },
        );
        assert(out@.last()@ == (account@, match_id@, rounds@[i as int].0 as int, rounds@[i as int].1 as int));
        assert(round_scores_view(out@) =~= round_scores_view(before).push(out@.last()@));
        assert(pairs_of(rounds@).take(i + 1) =~= pairs_of(rounds@).take(i as int).push(
            (rounds@[i as int].0 as int, rounds@[i as int].1 as int),
        ));
        assert(round_scores_view(out@) =~= scores_for(account@, match_id@, pairs_of(rounds@).take(i + 1)));
        i = i + 1;
    }
    assert(pairs_of(rounds@).take(i as int) =~= pairs_of(rounds@));
    Some(out)
}

/// The total of the scores in (round id, score) pairs.
pub open spec fn sum_scores(rounds: Seq<(int, int)>) -> int
    decreases rounds.len(),
{
    if rounds.len() == 0 {
        0
    } else {
        sum_scores(rounds.drop_last()) + rounds.last().1
    }
}

/// The round walk numbers rounds 0, 1, 2, … in order, never scores a round negatively, and
/// its round scores add up to the match score reached at the last round end.
pub proof fn law_round_walk_well_formed(events: Seq<&JsonValue>, current: Seq<char>)
    requires
        round_walk(events, current) is Some,
    ensures
        ({
            let w = round_walk(events, current)->0;
            &&& 0 <= w.previous_end <= w.latest
            &&& forall|i: int| 0 <= i < w.rounds.len() ==> (#[trigger] w.rounds[i]).0 == i
                && w.rounds[i].1 >= 0
            &&& w.previous_round == if w.rounds.len() == 0 {
                None::<int>
            } else {
                Some(w.rounds.len() - 1)
            }
            &&& sum_scores(w.rounds) == w.previous_end
        }),
    decreases events.len(),
{
    if events.len() > 0 {
        law_round_walk_well_formed(events.drop_last(), current);
        let w = round_walk(events.drop_last(), current)->0;
        let v = round_walk(events, current)->0;
        if v.rounds.len() > w.rounds.len() {
            assert(v.rounds.drop_last() =~= w.rounds);
        }
    }
}

/// The scores that a segment yields count rounds up from 0, are never negative, and add up to
/// at most the settled total.
pub proof fn law_segment_rounds_count_up(events: Seq<&JsonValue>, match_id: Seq<char>)
    requires
        segment_rounds(events, match_id) is Some,
    ensures
        ({
            let found = segment_rounds(events, match_id)->0;
            let rounds = found.1;
            &&& rounds.len() > 0
            &&& forall|i: int| 0 <= i < rounds.len() ==> (#[trigger] rounds[i]).0 == i
                && rounds[i].1 >= 0
        }),
{
    let settle = *events.last();
    let account = account_id_of(settle)->0;
    let finals = final_scores(events, match_id)->0;
    let total = int_of_hit(direct_child(settle, TOTAL_SCORE_KEYS@, Want::Integer))->0;
    let current = unique_player(finals, total)->0;
    law_round_walk_well_formed(events, current);
}

// ---------------------------------------------------------------------------------------------
// Splitting an event stream into match segments
// ---------------------------------------------------------------------------------------------

/// The walk over an event stream: the match being recorded, its events so far, and the round
/// scores of the segments already settled.
pub struct SegmentWalk<'a> {
    pub active: Option<Seq<char>>,
    pub segment: Seq<&'a JsonValue>,
    pub scores: Seq<(Seq<char>, Seq<char>, int, int)>,
}

/// One event of the walk: GameStart opens a segment for its game id; GameSettle of the open
/// game closes it and adds its round scores; an event of another game abandons the segment;
/// other events join the open segment.
pub open spec fn segment_step<'a>(w: SegmentWalk<'a>, o: &'a JsonValue) -> SegmentWalk<'a> {
    if event_named(*o, "GameStart"@) {
        let id = game_id_of(*o);
        SegmentWalk {
            active: id,
            segment: if id is Some {
                seq![o]
            } else {
                seq![]
            },
            scores: w.scores,
        }
    } else if event_named(*o, "GameSettle"@) {
        match w.active {
            None => SegmentWalk { active: None, segment: seq![], scores: w.scores },
            Some(mid) => {
                let added = if game_id_of(*o) == Some(mid) {
                    match segment_rounds(w.segment.push(o), mid) {
                        Some((account, rounds)) => scores_for(account, mid, rounds),
                        None => seq![],
                    }
                } else {
                    seq![]
                };
                SegmentWalk { active: None, segment: seq![], scores: w.scores + added }
            },
        }
    } else {
        match w.active {
            None => w,
            Some(mid) => if game_id_of(*o) is Some && game_id_of(*o) != Some(mid) {
                SegmentWalk { active: None, segment: seq![], scores: w.scores }
            } else {
                SegmentWalk { segment: w.segment.push(o), ..w }
            },
        }
    }
}

pub open spec fn segment_walk<'a>(objects: Seq<&'a JsonValue>) -> SegmentWalk<'a>
    decreases objects.len(),
{
    if objects.len() == 0 {
        SegmentWalk { active: None, segment: seq![], scores: seq![] }
    } else {
        segment_step(segment_walk(objects.drop_last()), objects.last())
    }
}

/// The round scores of every settled segment of a stream of event objects, in order.
pub fn round_scores_from_objects<'a>(objects: &Vec<&'a JsonValue>) -> (res: Vec<HighlightLogRoundScore>)
    ensures
        round_scores_view(res@) == segment_walk(objects@).scores,
{
    let mut out: Vec<HighlightLogRoundScore> = Vec::new();
    let mut active: Option<Vec<char>> = None;
    let mut segment: Vec<&'a JsonValue> = Vec::new();
    let mut i: usize = 0;
    assert(segment@ =~= Seq::<&JsonValue>::empty());
    assert(round_scores_view(out@) =~= Seq::<(Seq<char>, Seq<char>, int, int)>::empty());
    assert(objects@.take(0) =~= Seq::<&JsonValue>::empty());
    while i < objects.len()
        invariant
            i <= objects@.len(),
            segment_walk(objects@.take(i as int)) == (SegmentWalk {
                active: opt_chars(active),
                segment: segment@,
                scores: round_scores_view(out@),
            }),
        decreases objects.len() - i,
    {
        let o = objects[i];
        assert(objects@.take(i + 1).drop_last() =~= objects@.take(i as int));
        assert(objects@.take(i + 1).last() == o);
        if event_name_is(o, "GameStart") {
            active = event_game_id(o);
            segment = Vec::new();
            if active.is_some() {
                segment.push(o);
            }
            assert(segment@ =~= (if opt_chars(active) is Some { seq![o] } else { Seq::<&JsonValue>::empty() }));
        } else if event_name_is(o, "GameSettle") {
            match active {
                None => {
                    segment = Vec::new();
                    assert(segment@ =~= Seq::<&JsonValue>::empty());
                },
                Some(mid) => {
                    let ghost before = out@;
                    let same = match event_game_id(o) {
                        Some(g) => crate::text::seq_eq(&g, &mid),
                        None => false,
                    };
                    if same {
                        segment.push(o);
                        let mid_text = string_of(&mid);
                        if let Some(scores) = find_segment_round_scores(&segment, mid_text.as_str()) {
                            let mut k: usize = 0;
                            while k < scores.len()
                                invariant
                                    k <= scores@.len(),
                                    round_scores_view(out@) == round_scores_view(before) + round_scores_view(
                                        scores@,
                                    ).take(k as int),
                                decreases scores.len() - k,
                            {
                                let ghost mid_out = out@;
                                let r = &scores[k];
                                out.push(
                                    HighlightLogRoundScore {
                                        account_id: string_of(&chars_of(r.account_id.as_str())),
                                        match_id: string_of(&chars_of(r.match_id.as_str())),
                                        round_id: r.round_id,
                                        score: r.score,
                                    },
                                );
                                assert(round_scores_view(out@) =~= round_scores_view(mid_out).push(scores@[k as int]@));
                                assert(round_scores_view(scores@).take(k + 1) =~= round_scores_view(scores@).take(k as int).push(scores@[k as int]@));
                                k = k + 1;
                            }
                            assert(round_scores_view(scores@).take(k as int) =~= round_scores_view(scores@));
                        } else {
                            assert(round_scores_view(out@) =~= round_scores_view(before) + Seq::empty());
                        }
                    } else {
                        assert(round_scores_view(out@) =~= round_scores_view(before) + Seq::empty());
                    }
                    active = None;
                    segment = Vec::new();
                    assert(segment@ =~= Seq::<&JsonValue>::empty());
                },
            }
        } else {
            match &active {
                None => {},
                Some(mid) => {
                    let other = match event_game_id(o) {
                        Some(g) => !crate::text::seq_eq(&g, mid),
                        None => false,
                    };
                    if other {
                        active = None;
                        segment = Vec::new();
                        assert(segment@ =~= Seq::<&JsonValue>::empty());
                    } else {
                        segment.push(o);
                    }
                },
            }
        }
        i = i + 1;
    }
    assert(objects@.take(i as int) =~= objects@);
    out
}

// ---------------------------------------------------------------------------------------------
// Resolving round scores across sources
// ---------------------------------------------------------------------------------------------

/// Code-point order on character sequences (the byte order of their UTF-8 forms).
pub open spec fn text_lt(a: Seq<char>, b: Seq<char>) -> bool
    decreases a.len(),
{
    if a.len() == 0 {
        b.len() > 0
    } else if b.len() == 0 {
        false
    } else if a[0] != b[0] {
        (a[0] as int) < (b[0] as int)
    } else {
        text_lt(a.drop_first(), b.drop_first())
    }
}

/// The order of (account, match, round) keys: by account, then match, then round.
pub open spec fn key_lt(a: (Seq<char>, Seq<char>, int), b: (Seq<char>, Seq<char>, int)) -> bool {
    text_lt(a.0, b.0) || (a.0 == b.0 && (text_lt(a.1, b.1) || (a.1 == b.1 && a.2 < b.2)))
}

pub proof fn lemma_text_lt_total(a: Seq<char>, b: Seq<char>)
    ensures
        a != b ==> text_lt(a, b) || text_lt(b, a),
        !(text_lt(a, b) && text_lt(b, a)),
        !text_lt(a, a),
    decreases a.len(),
{
    if a.len() > 0 && b.len() > 0 {
        if a[0] == b[0] {
            lemma_text_lt_total(a.drop_first(), b.drop_first());
            if a.drop_first() == b.drop_first() {
                assert(a =~= seq![a[0]] + a.drop_first());
                assert(b =~= seq![b[0]] + b.drop_first());
                assert(a =~= b);
            }
        } else {
            assert((a[0] as int) != (b[0] as int));
        }
        lemma_text_lt_total(a.drop_first(), a.drop_first());
    } else if a.len() > 0 {
        lemma_text_lt_total(a.drop_first(), a.drop_first());
    } else if b.len() == 0 {
        assert(a =~= b);
    }
}

pub proof fn lemma_text_lt_transitive(a: Seq<char>, b: Seq<char>, c: Seq<char>)
    requires
        text_lt(a, b),
        text_lt(b, c),
    ensures
        text_lt(a, c),
    decreases a.len(),
{
    if a.len() > 0 && b.len() > 0 && c.len() > 0 && a[0] == b[0] && b[0] == c[0] {
        lemma_text_lt_transitive(a.drop_first(), b.drop_first(), c.drop_first());
    }
}

proof fn lemma_key_lt_order(
    a: (Seq<char>, Seq<char>, int),
    b: (Seq<char>, Seq<char>, int),
    c: (Seq<char>, Seq<char>, int),
)
    ensures
        a != b ==> key_lt(a, b) || key_lt(b, a),
        !(key_lt(a, b) && key_lt(b, a)),
        !key_lt(a, a),
        key_lt(a, b) && key_lt(b, c) ==> key_lt(a, c),
{
    lemma_text_lt_total(a.0, b.0);
    lemma_text_lt_total(a.1, b.1);
    lemma_text_lt_total(a.0, a.0);
    lemma_text_lt_total(a.1, a.1);
    if text_lt(a.0, b.0) && text_lt(b.0, c.0) {
        lemma_text_lt_transitive(a.0, b.0, c.0);
    }
    if text_lt(a.1, b.1) && text_lt(b.1, c.1) {
        lemma_text_lt_transitive(a.1, b.1, c.1);
    }
}

/// Resolved entries: a key with its score, or `None` once two sources disagreed.
pub open spec fn sorted_keys(list: Seq<((Seq<char>, Seq<char>, int), Option<int>)>) -> bool {
    forall|i: int, j: int| 0 <= i < j < list.len() ==> key_lt(#[trigger] list[i].0, #[trigger] list[j].0)
}

/// The first position from `i` on whose key is not below `k`.
pub open spec fn insert_pos(list: Seq<((Seq<char>, Seq<char>, int), Option<int>)>, k: (Seq<char>, Seq<char>, int), i: int) -> int
    decreases list.len() - i,
{
    if i < 0 || i >= list.len() {
        list.len() as int
    } else if !key_lt(list[i].0, k) {
        i
    } else {
        insert_pos(list, k, i + 1)
    }
}

/// Marks `k` as disputed.
pub open spec fn resolve_conflict(list: Seq<((Seq<char>, Seq<char>, int), Option<int>)>, k: (Seq<char>, Seq<char>, int)) -> Seq<((Seq<char>, Seq<char>, int), Option<int>)> {
    let p = insert_pos(list, k, 0);
    if p < list.len() && list[p].0 == k {
        list.update(p, (k, None))
    } else {
        list.insert(p, (k, None))
    }
}

/// Offers score `s` for `k`: a new key takes it; a key with another score becomes disputed.
pub open spec fn resolve_score(list: Seq<((Seq<char>, Seq<char>, int), Option<int>)>, k: (Seq<char>, Seq<char>, int), s: int) -> Seq<((Seq<char>, Seq<char>, int), Option<int>)> {
    let p = insert_pos(list, k, 0);
    if p < list.len() && list[p].0 == k {
        if list[p].1 matches Some(old) && old != s {
            list.update(p, (k, None))
        } else {
            list
        }
    } else {
        list.insert(p, (k, Some(s)))
    }
}

/// A candidate's key: account and match trimmed and ASCII-lower-cased; `None` when either is
/// empty or the round or score is negative.
pub open spec fn candidate_key(c: (Seq<char>, Seq<char>, int, int)) -> Option<(Seq<char>, Seq<char>, int)> {
    let a = lower_seq(trim(c.0));
    let m = lower_seq(trim(c.1));
    if a.len() == 0 || m.len() == 0 || c.2 < 0 || c.3 < 0 {
        None
    } else {
        Some((a, m, c.2))
    }
}

pub open spec fn resolve_conflicts(conflicts: Seq<(Seq<char>, Seq<char>, int)>) -> Seq<((Seq<char>, Seq<char>, int), Option<int>)>
    decreases conflicts.len(),
{
    if conflicts.len() == 0 {
        seq![]
    } else {
        resolve_conflict(resolve_conflicts(conflicts.drop_last()), conflicts.last())
    }
}

pub open spec fn resolve_all(
    conflicts: Seq<(Seq<char>, Seq<char>, int)>,
    candidates: Seq<(Seq<char>, Seq<char>, int, int)>,
) -> Seq<((Seq<char>, Seq<char>, int), Option<int>)>
    decreases candidates.len(),
{
    if candidates.len() == 0 {
        resolve_conflicts(conflicts)
    } else {
        let before = resolve_all(conflicts, candidates.drop_last());
        match candidate_key(candidates.last()) {
            Some(k) => resolve_score(before, k, candidates.last().3),
            None => before,
        }
    }
}

/// The undisputed scores, in key order.
pub open spec fn undisputed(list: Seq<((Seq<char>, Seq<char>, int), Option<int>)>) -> Seq<(Seq<char>, Seq<char>, int, int)>
    decreases list.len(),
{
    if list.len() == 0 {
        seq![]
    } else {
        let rest = undisputed(list.drop_last());
        match list.last().1 {
            Some(s) => rest.push((list.last().0.0, list.last().0.1, list.last().0.2, s)),
            None => rest,
        }
    }
}

/// The disputed keys, in key order.
pub open spec fn disputed(list: Seq<((Seq<char>, Seq<char>, int), Option<int>)>) -> Seq<(Seq<char>, Seq<char>, int)>
    decreases list.len(),
{
    if list.len() == 0 {
        seq![]
    } else {
        let rest = disputed(list.drop_last());
        match list.last().1 {
            Some(_) => rest,
            None => rest.push(list.last().0),
        }
    }
}

/// Inserting at the insertion position keeps the keys strictly ordered.
proof fn lemma_insert_keeps_sorted(list: Seq<((Seq<char>, Seq<char>, int), Option<int>)>, k: (Seq<char>, Seq<char>, int), v: Option<int>)
    requires
        sorted_keys(list),
    ensures
        0 <= insert_pos(list, k, 0) <= list.len(),
        forall|i: int| 0 <= i < insert_pos(list, k, 0) ==> key_lt(#[trigger] list[i].0, k),
        insert_pos(list, k, 0) < list.len() && list[insert_pos(list, k, 0)].0 != k ==> sorted_keys(
            list.insert(insert_pos(list, k, 0), (k, v)),
        ),
        insert_pos(list, k, 0) == list.len() ==> sorted_keys(list.insert(insert_pos(list, k, 0), (k, v))),
        insert_pos(list, k, 0) < list.len() ==> sorted_keys(list.update(insert_pos(list, k, 0), (list[insert_pos(list, k, 0)].0, v))),
{
    lemma_insert_pos_bounds(list, k, 0);
    let p = insert_pos(list, k, 0);
    let ins = list.insert(p, (k, v));
    if p < list.len() && list[p].0 != k {
        lemma_key_lt_order(list[p].0, k, k);
        assert(key_lt(k, list[p].0));
        assert forall|i: int, j: int| 0 <= i < j < ins.len() implies key_lt(#[trigger] ins[i].0, #[trigger] ins[j].0) by {
            if j < p {
            } else if j == p {
            } else if i == p {
                if j - 1 > p {
                    lemma_key_lt_order(k, list[p].0, list[j - 1].0);
                }
            } else if i < p {
                lemma_key_lt_order(list[i].0, k, list[p].0);
                if j - 1 > p {
                    lemma_key_lt_order(list[i].0, list[p].0, list[j - 1].0);
                }
            }
        }
    }
    if p == list.len() {
        assert forall|i: int, j: int| 0 <= i < j < ins.len() implies key_lt(#[trigger] ins[i].0, #[trigger] ins[j].0) by {
        }
    }
    if p < list.len() {
        let upd = list.update(p, (list[p].0, v));
        assert forall|i: int, j: int| 0 <= i < j < upd.len() implies key_lt(#[trigger] upd[i].0, #[trigger] upd[j].0) by {
            assert(upd[i].0 == list[i].0);
            assert(upd[j].0 == list[j].0);
        }
    }
}

proof fn lemma_insert_pos_bounds(list: Seq<((Seq<char>, Seq<char>, int), Option<int>)>, k: (Seq<char>, Seq<char>, int), i: int)
    requires
        0 <= i <= list.len(),
    ensures
        i <= insert_pos(list, k, i) <= list.len(),
        forall|j: int| i <= j < insert_pos(list, k, i) ==> key_lt(#[trigger] list[j].0, k),
        insert_pos(list, k, i) < list.len() ==> !key_lt(list[insert_pos(list, k, i)].0, k),
    decreases list.len() - i,
{
    if i < list.len() && key_lt(list[i].0, k) {
        lemma_insert_pos_bounds(list, k, i + 1);
    }
}

pub type ResolvedEntry = ((Vec<char>, Vec<char>, i64), Option<i64>);

pub open spec fn resolved_view(v: Seq<ResolvedEntry>) -> Seq<((Seq<char>, Seq<char>, int), Option<int>)> {
    v.map_values(|e: ResolvedEntry| ((e.0.0@, e.0.1@, e.0.2 as int), opt_int(e.1)))
}

pub open spec fn key_view(k: (Vec<char>, Vec<char>, i64)) -> (Seq<char>, Seq<char>, int) {
    (k.0@, k.1@, k.2 as int)
}

pub(crate) fn text_less(a: &Vec<char>, b: &Vec<char>) -> (res: bool)
    ensures
        res == text_lt(a@, b@),
{
    let mut i: usize = 0;
    assert(a@.skip(0) =~= a@);
    assert(b@.skip(0) =~= b@);
    while i < a.len() && i < b.len()
        invariant
            i <= a@.len(),
            i <= b@.len(),
            text_lt(a@, b@) == text_lt(a@.skip(i as int), b@.skip(i as int)),
        decreases a.len() - i,
    {
        if a[i] != b[i] {
            return a[i] < b[i];
        }
        assert(a@.skip(i as int).drop_first() =~= a@.skip(i + 1));
        assert(b@.skip(i as int).drop_first() =~= b@.skip(i + 1));
        i = i + 1;
    }
    i == a.len() && i < b.len()
}

fn key_less(a: &(Vec<char>, Vec<char>, i64), b: &(Vec<char>, Vec<char>, i64)) -> (res: bool)
    ensures
        res == key_lt(key_view(*a), key_view(*b)),
{
    text_less(&a.0, &b.0) || (crate::text::seq_eq(&a.0, &b.0) && (text_less(&a.1, &b.1) || (
    crate::text::seq_eq(&a.1, &b.1) && a.2 < b.2)))
}

fn key_equal(a: &(Vec<char>, Vec<char>, i64), b: &(Vec<char>, Vec<char>, i64)) -> (res: bool)
    ensures
        res == (key_view(*a) == key_view(*b)),
{
    crate::text::seq_eq(&a.0, &b.0) && crate::text::seq_eq(&a.1, &b.1) && a.2 == b.2
}

fn insert_pos_exec(list: &Vec<ResolvedEntry>, k: &(Vec<char>, Vec<char>, i64)) -> (res: usize)
    ensures
        res == insert_pos(resolved_view(list@), key_view(*k), 0),
        res <= list@.len(),
{
    proof {
        lemma_insert_pos_bounds(resolved_view(list@), key_view(*k), 0);
    }
    let ghost view = resolved_view(list@);
    let mut i: usize = 0;
    while i < list.len()
        invariant
            i <= list@.len(),
            view == resolved_view(list@),
            insert_pos(view, key_view(*k), 0) == insert_pos(view, key_view(*k), i as int),
        decreases list.len() - i,
    {
        if !key_less(&list[i].0, k) {
            return i;
        }
        i = i + 1;
    }
    i
}

fn resolve_conflict_exec(list: &mut Vec<ResolvedEntry>, k: (Vec<char>, Vec<char>, i64))
    ensures
        resolved_view(final(list)@) == resolve_conflict(resolved_view(old(list)@), key_view(k)),
{
    let ghost view = resolved_view(list@);
    let ghost kv = key_view(k);
    let p = insert_pos_exec(list, &k);
    if p < list.len() && key_equal(&list[p].0, &k) {
        list.set(p, (k, None));
        assert(resolved_view(list@) =~= view.update(p as int, (kv, None)));
    } else {
        list.insert(p, (k, None));
        assert(resolved_view(list@) =~= view.insert(p as int, (kv, None)));
    }
}

fn resolve_score_exec(list: &mut Vec<ResolvedEntry>, k: (Vec<char>, Vec<char>, i64), score: i64)
    ensures
        resolved_view(final(list)@) == resolve_score(resolved_view(old(list)@), key_view(k), score as int),
{
    let ghost view = resolved_view(list@);
    let ghost kv = key_view(k);
    let p = insert_pos_exec(list, &k);
    if p < list.len() && key_equal(&list[p].0, &k) {
        let disputed_now = match list[p].1 {
            Some(old) => old != score,
            None => false,
        };
        if disputed_now {
            list.set(p, (k, None));
            assert(resolved_view(list@) =~= view.update(p as int, (kv, None)));
        }
    } else {
        list.insert(p, (k, Some(score)));
        assert(resolved_view(list@) =~= view.insert(p as int, (kv, Some(score as int))));
    }
}

#[derive(Debug, Clone, PartialEq, Eq)]
pub struct HighlightLogAccountNameHint {
    pub account_id: String,
    pub account_name: Option<String>,
}

/// Everything read from one or more logs.
pub struct HighlightLogParseResult {
    pub records: Vec<HighlightLogRecord>,
    pub round_scores: Vec<HighlightLogRoundScore>,
    pub account_name_hints: Vec<HighlightLogAccountNameHint>,
    pub bad_line_count: usize,
    pub gzip_event_count: usize,
    /// (account, match, round) keys for which sources reported different scores.
    pub round_score_conflicts: Vec<(String, String, i64)>,
}

pub open spec fn conflicts_view(v: Seq<(String, String, i64)>) -> Seq<(Seq<char>, Seq<char>, int)> {
    v.map_values(|c: (String, String, i64)| (c.0@, c.1@, c.2 as int))
}

impl HighlightLogParseResult {
    pub fn new() -> (res: Self)
        ensures
            res.records@.len() == 0,
            res.round_scores@.len() == 0,
            res.account_name_hints@.len() == 0,
            res.bad_line_count == 0,
            res.gzip_event_count == 0,
            res.round_score_conflicts@.len() == 0,
    {
        HighlightLogParseResult {
            records: Vec::new(),
            round_scores: Vec::new(),
            account_name_hints: Vec::new(),
            bad_line_count: 0,
            gzip_event_count: 0,
            round_score_conflicts: Vec::new(),
        }
    }
}

fn candidate_key_exec(c: &HighlightLogRoundScore) -> (res: Option<(Vec<char>, Vec<char>, i64)>)
    ensures
        match res {
            Some(k) => candidate_key(c@) == Some(key_view(k)),
            None => candidate_key(c@) is None,
        },
{
    let a = to_lower(&trim_str(c.account_id.as_str()));
    let m = to_lower(&trim_str(c.match_id.as_str()));
    if a.len() == 0 || m.len() == 0 || c.round_id < 0 || c.score < 0 {
        None
    } else {
        Some((a, m, c.round_id))
    }
}

/// `new` is `old` with its round scores settled: candidates are keyed by trimmed, lower-cased
/// account and match and their round; a key that two sources scored differently, or that was
/// already disputed, keeps no score and is listed as disputed. Both lists are in key order.
pub open spec fn finalized(old: HighlightLogParseResult, new: HighlightLogParseResult) -> bool {
    let resolved = resolve_all(conflicts_view(old.round_score_conflicts@), round_scores_view(old.round_scores@));
    &&& round_scores_view(new.round_scores@) == undisputed(resolved)
    &&& conflicts_view(new.round_score_conflicts@) == disputed(resolved)
    &&& new.records == old.records
    &&& new.account_name_hints == old.account_name_hints
    &&& new.bad_line_count == old.bad_line_count
    &&& new.gzip_event_count == old.gzip_event_count
}

/// The state that resolving leaves for key `k`: absent, settled on a score, or disputed.
pub open spec fn state_of(list: Seq<((Seq<char>, Seq<char>, int), Option<int>)>, k: (Seq<char>, Seq<char>, int)) -> Option<Option<int>> {
    if exists|i: int| 0 <= i < list.len() && (#[trigger] list[i]).0 == k {
        Some(list[choose|i: int| 0 <= i < list.len() && (#[trigger] list[i]).0 == k].1)
    } else {
        None
    }
}

/// Some candidate is valid and has key `k`.
pub open spec fn has_valid(cands: Seq<(Seq<char>, Seq<char>, int, int)>, k: (Seq<char>, Seq<char>, int)) -> bool {
    exists|i: int| 0 <= i < cands.len() && candidate_key(#[trigger] cands[i]) == Some(k)
}

/// All valid candidates with key `k` report the same score.
pub open spec fn agree(cands: Seq<(Seq<char>, Seq<char>, int, int)>, k: (Seq<char>, Seq<char>, int)) -> bool {
    forall|i: int, j: int|
        0 <= i < cands.len() && 0 <= j < cands.len() && candidate_key(#[trigger] cands[i]) == Some(k)
            && candidate_key(#[trigger] cands[j]) == Some(k) ==> cands[i].3 == cands[j].3
}

/// The score of some valid candidate with key `k`.
pub open spec fn valid_score(cands: Seq<(Seq<char>, Seq<char>, int, int)>, k: (Seq<char>, Seq<char>, int)) -> int {
    cands[choose|i: int| 0 <= i < cands.len() && candidate_key(#[trigger] cands[i]) == Some(k)].3
}

/// What finalizing owes key `k`: disputed when it was disputed before or its valid candidates
/// disagree; settled on their score when they agree; absent when it has no valid candidate.
pub open spec fn owed_state(
    conflicts: Seq<(Seq<char>, Seq<char>, int)>,
    cands: Seq<(Seq<char>, Seq<char>, int, int)>,
    k: (Seq<char>, Seq<char>, int),
) -> Option<Option<int>> {
    if conflicts.contains(k) {
        Some(None)
    } else if !has_valid(cands, k) {
        None
    } else if agree(cands, k) {
        Some(Some(valid_score(cands, k)))
    } else {
        Some(None)
    }
}

proof fn lemma_state_at(list: Seq<((Seq<char>, Seq<char>, int), Option<int>)>, k: (Seq<char>, Seq<char>, int), i: int)
    requires
        sorted_keys(list),
        0 <= i < list.len(),
        list[i].0 == k,
    ensures
        state_of(list, k) == Some(list[i].1),
{
    let j = choose|j: int| 0 <= j < list.len() && (#[trigger] list[j]).0 == k;
    lemma_key_lt_order(k, k, k);
    if j < i {
        assert(key_lt(list[j].0, list[i].0));
    } else if i < j {
        assert(key_lt(list[i].0, list[j].0));
    }
}

/// Where `k` sits in a sorted list: at the insertion position when present.
proof fn lemma_find_pos(list: Seq<((Seq<char>, Seq<char>, int), Option<int>)>, k: (Seq<char>, Seq<char>, int))
    requires
        sorted_keys(list),
    ensures
        (exists|i: int| 0 <= i < list.len() && (#[trigger] list[i]).0 == k) <==> (insert_pos(list, k, 0) < list.len()
            && list[insert_pos(list, k, 0)].0 == k),
{
    lemma_insert_pos_bounds(list, k, 0);
    let p = insert_pos(list, k, 0);
    if exists|i: int| 0 <= i < list.len() && (#[trigger] list[i]).0 == k {
        let i = choose|i: int| 0 <= i < list.len() && (#[trigger] list[i]).0 == k;
        lemma_key_lt_order(k, k, k);
        if i < p {
            assert(key_lt(list[i].0, k));
        } else if i > p {
            lemma_key_lt_order(list[p].0, k, list[i].0);
            assert(key_lt(list[p].0, list[i].0));
        }
    }
}

/// Updating a key's entry in place or inserting it at its position changes the state of that
/// key only.
proof fn lemma_other_keys_kept(
    list: Seq<((Seq<char>, Seq<char>, int), Option<int>)>,
    r: Seq<((Seq<char>, Seq<char>, int), Option<int>)>,
    k: (Seq<char>, Seq<char>, int),
    other: (Seq<char>, Seq<char>, int),
    v: Option<int>,
)
    requires
        sorted_keys(list),
        sorted_keys(r),
        other != k,
        ({
            let p = insert_pos(list, k, 0);
            (p < list.len() && list[p].0 == k && r == list.update(p, (k, v))) || (!(p < list.len() && list[p].0 == k)
                && r == list.insert(p, (k, v)))
        }),
    ensures
        state_of(r, other) == state_of(list, other),
{
    lemma_insert_pos_bounds(list, k, 0);
    let p = insert_pos(list, k, 0);
    if exists|i: int| 0 <= i < list.len() && (#[trigger] list[i]).0 == other {
        let i = choose|i: int| 0 <= i < list.len() && (#[trigger] list[i]).0 == other;
        lemma_state_at(list, other, i);
        if p < list.len() && list[p].0 == k && r == list.update(p, (k, v)) {
            assert(i != p);
            assert(r[i] == list[i]);
            lemma_state_at(r, other, i);
        } else {
            let ii = if i < p { i } else { i + 1 };
            assert(r[ii] == list[i]);
            lemma_state_at(r, other, ii);
        }
    } else {
        if exists|j: int| 0 <= j < r.len() && (#[trigger] r[j]).0 == other {
            let j = choose|j: int| 0 <= j < r.len() && (#[trigger] r[j]).0 == other;
            if p < list.len() && list[p].0 == k && r == list.update(p, (k, v)) {
                assert(j != p);
                assert(list[j] == r[j]);
            } else {
                assert(j != p);
                let jj = if j < p { j } else { j - 1 };
                assert(list[jj] == r[j]);
            }
        }
    }
}

proof fn lemma_own_key(
    list: Seq<((Seq<char>, Seq<char>, int), Option<int>)>,
    r: Seq<((Seq<char>, Seq<char>, int), Option<int>)>,
    k: (Seq<char>, Seq<char>, int),
    v: Option<int>,
)
    requires
        sorted_keys(r),
        ({
            let p = insert_pos(list, k, 0);
            (p < list.len() && list[p].0 == k && r == list.update(p, (k, v))) || (!(p < list.len() && list[p].0 == k)
                && r == list.insert(p, (k, v)))
        }),
    ensures
        state_of(r, k) == Some(v),
{
    lemma_insert_pos_bounds(list, k, 0);
    let p = insert_pos(list, k, 0);
    assert(r[p] == (k, v));
    lemma_state_at(r, k, p);
}

proof fn lemma_resolve_score_state(list: Seq<((Seq<char>, Seq<char>, int), Option<int>)>, k: (Seq<char>, Seq<char>, int), s: int)
    requires
        sorted_keys(list),
    ensures
        sorted_keys(resolve_score(list, k, s)),
        state_of(resolve_score(list, k, s), k) == match state_of(list, k) {
            None => Some(Some(s)),
            Some(Some(o)) => if o != s { Some(None::<int>) } else { Some(Some(o)) },
            Some(None) => Some(None::<int>),
        },
        forall|other: (Seq<char>, Seq<char>, int)|
            other != k ==> #[trigger] state_of(resolve_score(list, k, s), other) == state_of(list, other),
{
    lemma_insert_keeps_sorted(list, k, Some(s));
    lemma_insert_keeps_sorted(list, k, None);
    lemma_find_pos(list, k);
    let p = insert_pos(list, k, 0);
    let r = resolve_score(list, k, s);
    if p < list.len() && list[p].0 == k {
        lemma_state_at(list, k, p);
        if list[p].1 matches Some(old) && old != s {
            assert(list.update(p, (list[p].0, None)) == r);
            lemma_own_key(list, r, k, None);
            assert forall|other: (Seq<char>, Seq<char>, int)| other != k implies #[trigger] state_of(r, other)
                == state_of(list, other) by {
                lemma_other_keys_kept(list, r, k, other, None);
            }
        } else {
            assert(r == list);
        }
    } else {
        lemma_own_key(list, r, k, Some(s));
        assert forall|other: (Seq<char>, Seq<char>, int)| other != k implies #[trigger] state_of(r, other)
            == state_of(list, other) by {
            lemma_other_keys_kept(list, r, k, other, Some(s));
        }
    }
}

proof fn lemma_resolve_conflict_state(list: Seq<((Seq<char>, Seq<char>, int), Option<int>)>, k: (Seq<char>, Seq<char>, int))
    requires
        sorted_keys(list),
    ensures
        sorted_keys(resolve_conflict(list, k)),
        state_of(resolve_conflict(list, k), k) == Some(None::<int>),
        forall|other: (Seq<char>, Seq<char>, int)|
            other != k ==> #[trigger] state_of(resolve_conflict(list, k), other) == state_of(list, other),
{
    lemma_insert_keeps_sorted(list, k, None);
    let p = insert_pos(list, k, 0);
    let r = resolve_conflict(list, k);
    if p < list.len() && list[p].0 == k {
        assert(list.update(p, (list[p].0, None)) == r);
    }
    lemma_own_key(list, r, k, None);
    assert forall|other: (Seq<char>, Seq<char>, int)| other != k implies #[trigger] state_of(r, other)
        == state_of(list, other) by {
        lemma_other_keys_kept(list, r, k, other, None);
    }
}

proof fn lemma_conflicts_state(conflicts: Seq<(Seq<char>, Seq<char>, int)>, k: (Seq<char>, Seq<char>, int))
    ensures
        sorted_keys(resolve_conflicts(conflicts)),
        state_of(resolve_conflicts(conflicts), k) == if conflicts.contains(k) { Some(None::<int>) } else { None },
    decreases conflicts.len(),
{
    if conflicts.len() > 0 {
        let prev = conflicts.drop_last();
        lemma_conflicts_state(prev, k);
        lemma_resolve_conflict_state(resolve_conflicts(prev), conflicts.last());
        if conflicts.contains(k) && k != conflicts.last() {
            let i = choose|i: int| 0 <= i < conflicts.len() && conflicts[i] == k;
            assert(prev[i] == k);
        }
        if prev.contains(k) {
            let i = choose|i: int| 0 <= i < prev.len() && prev[i] == k;
            assert(conflicts[i] == k);
        }
        assert(conflicts[conflicts.len() - 1] == conflicts.last());
    }
}

proof fn lemma_resolve_all_state(
    conflicts: Seq<(Seq<char>, Seq<char>, int)>,
    cands: Seq<(Seq<char>, Seq<char>, int, int)>,
    k: (Seq<char>, Seq<char>, int),
)
    ensures
        sorted_keys(resolve_all(conflicts, cands)),
        state_of(resolve_all(conflicts, cands), k) == owed_state(conflicts, cands, k),
    decreases cands.len(),
{
    if cands.len() == 0 {
        lemma_conflicts_state(conflicts, k);
    } else {
        let prev = cands.drop_last();
        let c = cands.last();
        let n = cands.len() - 1;
        lemma_resolve_all_state(conflicts, prev, k);
        let before = resolve_all(conflicts, prev);
        assert(cands[n] == c);
        assert forall|i: int| 0 <= i < n implies cands[i] == prev[i] by {}
        match candidate_key(c) {
            None => {
                assert(has_valid(cands, k) == has_valid(prev, k)) by {
                    if has_valid(cands, k) {
                        let i = choose|i: int| 0 <= i < cands.len() && candidate_key(#[trigger] cands[i]) == Some(k);
                        assert(prev[i] == cands[i]);
                    }
                    if has_valid(prev, k) {
                        let i = choose|i: int| 0 <= i < prev.len() && candidate_key(#[trigger] prev[i]) == Some(k);
                        assert(prev[i] == cands[i]);
                    }
                }
                assert(agree(cands, k) == agree(prev, k)) by {
                    if agree(prev, k) {
                        assert forall|i: int, j: int|
                            0 <= i < cands.len() && 0 <= j < cands.len() && candidate_key(#[trigger] cands[i]) == Some(k)
                                && candidate_key(#[trigger] cands[j]) == Some(k) implies cands[i].3 == cands[j].3 by {
                            assert(prev[i] == cands[i] && prev[j] == cands[j]);
                        }
                    }
                    if agree(cands, k) {
                        assert forall|i: int, j: int|
                            0 <= i < prev.len() && 0 <= j < prev.len() && candidate_key(#[trigger] prev[i]) == Some(k)
                                && candidate_key(#[trigger] prev[j]) == Some(k) implies prev[i].3 == prev[j].3 by {
                            assert(prev[i] == cands[i] && prev[j] == cands[j]);
                        }
                    }
                }
                if has_valid(cands, k) && agree(cands, k) {
                    let i1 = choose|i: int| 0 <= i < cands.len() && candidate_key(#[trigger] cands[i]) == Some(k);
                    let i2 = choose|i: int| 0 <= i < prev.len() && candidate_key(#[trigger] prev[i]) == Some(k);
                    assert(prev[i2] == cands[i2]);
                    assert(cands[i1].3 == cands[i2].3);
                }
            },
            Some(kc) => {
                lemma_resolve_score_state(before, kc, c.3);
                if kc != k {
                    assert(state_of(resolve_all(conflicts, cands), k) == state_of(before, k));
                    assert(has_valid(cands, k) == has_valid(prev, k)) by {
                        if has_valid(cands, k) {
                            let i = choose|i: int| 0 <= i < cands.len() && candidate_key(#[trigger] cands[i]) == Some(k);
                            assert(i != n);
                            assert(prev[i] == cands[i]);
                        }
                        if has_valid(prev, k) {
                            let i = choose|i: int| 0 <= i < prev.len() && candidate_key(#[trigger] prev[i]) == Some(k);
                            assert(prev[i] == cands[i]);
                        }
                    }
                    assert(agree(cands, k) == agree(prev, k)) by {
                        if agree(prev, k) {
                            assert forall|i: int, j: int|
                                0 <= i < cands.len() && 0 <= j < cands.len() && candidate_key(#[trigger] cands[i]) == Some(k)
                                    && candidate_key(#[trigger] cands[j]) == Some(k) implies cands[i].3 == cands[j].3 by {
                                assert(i != n && j != n);
                                assert(prev[i] == cands[i] && prev[j] == cands[j]);
                            }
                        }
                        if agree(cands, k) {
                            assert forall|i: int, j: int|
                                0 <= i < prev.len() && 0 <= j < prev.len() && candidate_key(#[trigger] prev[i]) == Some(k)
                                    && candidate_key(#[trigger] prev[j]) == Some(k) implies prev[i].3 == prev[j].3 by {
                                assert(prev[i] == cands[i] && prev[j] == cands[j]);
                            }
                        }
                    }
                    if has_valid(cands, k) && agree(cands, k) {
                        let i1 = choose|i: int| 0 <= i < cands.len() && candidate_key(#[trigger] cands[i]) == Some(k);
                        let i2 = choose|i: int| 0 <= i < prev.len() && candidate_key(#[trigger] prev[i]) == Some(k);
                        assert(prev[i2] == cands[i2]);
                        assert(cands[i1].3 == cands[i2].3);
                    }
                } else {
                    assert(has_valid(cands, k));
                    if conflicts.contains(k) {
                    } else if !has_valid(prev, k) {
                        assert(agree(cands, k)) by {
                            assert forall|i: int, j: int|
                                0 <= i < cands.len() && 0 <= j < cands.len() && candidate_key(#[trigger] cands[i]) == Some(k)
                                    && candidate_key(#[trigger] cands[j]) == Some(k) implies cands[i].3 == cands[j].3 by {
                                if i != n {
                                    assert(prev[i] == cands[i]);
                                }
                                if j != n {
                                    assert(prev[j] == cands[j]);
                                }
                            }
                        }
                        let i1 = choose|i: int| 0 <= i < cands.len() && candidate_key(#[trigger] cands[i]) == Some(k);
                        assert(cands[i1].3 == cands[n].3);
                    } else {
                        let i2 = choose|i: int| 0 <= i < prev.len() && candidate_key(#[trigger] prev[i]) == Some(k);
                        assert(prev[i2] == cands[i2]);
                        if agree(prev, k) {
                            let s0 = valid_score(prev, k);
                            if s0 != c.3 {
                                assert(!agree(cands, k)) by {
                                    assert(candidate_key(cands[i2]) == Some(k) && candidate_key(cands[n]) == Some(k));
                                }
                            } else {
                                assert(agree(cands, k)) by {
                                    assert forall|i: int, j: int|
                                        0 <= i < cands.len() && 0 <= j < cands.len() && candidate_key(#[trigger] cands[i])
                                            == Some(k) && candidate_key(#[trigger] cands[j]) == Some(k) implies cands[i].3
                                        == cands[j].3 by {
                                        if i != n {
                                            assert(prev[i] == cands[i]);
                                            assert(prev[i].3 == prev[i2].3);
                                        }
                                        if j != n {
                                            assert(prev[j] == cands[j]);
                                            assert(prev[j].3 == prev[i2].3);
                                        }
                                    }
                                }
                                let i1 = choose|i: int| 0 <= i < cands.len() && candidate_key(#[trigger] cands[i]) == Some(k);
                                assert(cands[i1].3 == cands[n].3);
                            }
                        } else {
                            assert(!agree(cands, k)) by {
                                if agree(cands, k) {
                                    assert forall|i: int, j: int|
                                        0 <= i < prev.len() && 0 <= j < prev.len() && candidate_key(#[trigger] prev[i])
                                            == Some(k) && candidate_key(#[trigger] prev[j]) == Some(k) implies prev[i].3
                                        == prev[j].3 by {
                                        assert(prev[i] == cands[i] && prev[j] == cands[j]);
                                    }
                                }
                            }
                        }
                    }
                }
            },
        }
    }
}

proof fn lemma_outputs(list: Seq<((Seq<char>, Seq<char>, int), Option<int>)>)
    ensures
        forall|a: Seq<char>, m: Seq<char>, r: int, s: int|
            #[trigger] undisputed(list).contains((a, m, r, s)) <==> exists|i: int|
                0 <= i < list.len() && list[i] == ((a, m, r), Some(s)),
        forall|k: (Seq<char>, Seq<char>, int)|
            #[trigger] disputed(list).contains(k) <==> exists|i: int| 0 <= i < list.len() && list[i] == (k, None::<int>),
    decreases list.len(),
{
    if list.len() > 0 {
        let prev = list.drop_last();
        lemma_outputs(prev);
        let n = list.len() - 1;
        assert forall|i: int| 0 <= i < n implies list[i] == prev[i] by {}
        assert forall|a: Seq<char>, m: Seq<char>, r: int, s: int|
            #[trigger] undisputed(list).contains((a, m, r, s)) <==> exists|i: int|
                0 <= i < list.len() && list[i] == ((a, m, r), Some(s)) by {
            let u = undisputed(prev);
            if undisputed(list).contains((a, m, r, s)) {
                let j = choose|j: int| 0 <= j < undisputed(list).len() && undisputed(list)[j] == (a, m, r, s);
                if j < u.len() {
                    assert(u[j] == (a, m, r, s));
                    assert(u.contains((a, m, r, s)));
                    let i = choose|i: int| 0 <= i < prev.len() && prev[i] == ((a, m, r), Some(s));
                    assert(list[i] == prev[i]);
                } else {
                    assert(list[n] == ((a, m, r), Some(s)));
                }
            }
            if exists|i: int| 0 <= i < list.len() && list[i] == ((a, m, r), Some(s)) {
                let i = choose|i: int| 0 <= i < list.len() && list[i] == ((a, m, r), Some(s));
                if i < n {
                    assert(prev[i] == list[i]);
                    assert(u.contains((a, m, r, s)));
                    let j = choose|j: int| 0 <= j < u.len() && u[j] == (a, m, r, s);
                    assert(undisputed(list)[j] == u[j]);
                } else {
                    assert(undisputed(list) == u.push((a, m, r, s)));
                    assert(undisputed(list)[u.len() as int] == (a, m, r, s));
                }
            }
        }
        assert forall|k: (Seq<char>, Seq<char>, int)|
            #[trigger] disputed(list).contains(k) <==> exists|i: int| 0 <= i < list.len() && list[i] == (k, None::<int>) by {
            let d = disputed(prev);
            if disputed(list).contains(k) {
                let j = choose|j: int| 0 <= j < disputed(list).len() && disputed(list)[j] == k;
                if j < d.len() {
                    assert(d[j] == k);
                    assert(d.contains(k));
                    let i = choose|i: int| 0 <= i < prev.len() && prev[i] == (k, None::<int>);
                    assert(list[i] == prev[i]);
                } else {
                    assert(list[n] == (k, None::<int>));
                }
            }
            if exists|i: int| 0 <= i < list.len() && list[i] == (k, None::<int>) {
                let i = choose|i: int| 0 <= i < list.len() && list[i] == (k, None::<int>);
                if i < n {
                    assert(prev[i] == list[i]);
                    assert(d.contains(k));
                    let j = choose|j: int| 0 <= j < d.len() && d[j] == k;
                    assert(disputed(list)[j] == d[j]);
                } else {
                    assert(disputed(list) == d.push(k));
                    assert(disputed(list)[d.len() as int] == k);
                }
            }
        }
    }
}

proof fn lemma_undisputed_sorted(list: Seq<((Seq<char>, Seq<char>, int), Option<int>)>)
    requires
        sorted_keys(list),
    ensures
        forall|i: int, j: int|
            0 <= i < j < undisputed(list).len() ==> key_lt(
                (#[trigger] undisputed(list)[i].0, undisputed(list)[i].1, undisputed(list)[i].2),
                (#[trigger] undisputed(list)[j].0, undisputed(list)[j].1, undisputed(list)[j].2),
            ),
    decreases list.len(),
{
    if list.len() > 0 {
        let prev = list.drop_last();
        assert(sorted_keys(prev)) by {
            assert forall|i: int, j: int| 0 <= i < j < prev.len() implies key_lt(#[trigger] prev[i].0, #[trigger] prev[j].0) by {
                assert(prev[i] == list[i] && prev[j] == list[j]);
            }
        }
        lemma_undisputed_sorted(prev);
        lemma_outputs(prev);
        let u = undisputed(prev);
        let last = list.last();
        if last.1 is Some {
            let w = undisputed(list);
            assert(w == u.push((last.0.0, last.0.1, last.0.2, last.1->0)));
            assert forall|i: int, j: int| 0 <= i < j < w.len() implies key_lt(
                (#[trigger] w[i].0, w[i].1, w[i].2),
                (#[trigger] w[j].0, w[j].1, w[j].2),
            ) by {
                if j == u.len() {
                    assert(w[i] == u[i]);
                    assert(u.contains(u[i]));
                    let e = u[i];
                    assert(undisputed(prev).contains((e.0, e.1, e.2, e.3)));
                    let m = choose|m: int| 0 <= m < prev.len() && prev[m] == ((e.0, e.1, e.2), Some(e.3));
                    assert(list[m] == prev[m]);
                    assert(key_lt(list[m].0, list[list.len() - 1].0));
                } else {
                    assert(w[i] == u[i] && w[j] == u[j]);
                }
            }
        }
    }
}

/// What finalizing keeps of each (account, match, round) key, a candidate's key being its
/// account and match trimmed and ASCII-lowercased with its round, and a candidate valid when
/// both ids are non-empty and round and score are not negative: the kept scores come in strictly
/// increasing key order and hold `k` with score `s` exactly when `k` was not disputed before,
/// some valid candidate has key `k`, and all valid candidates with key `k` have score `s`; the
/// disputes are the earlier ones plus every key whose valid candidates disagree; a key with no
/// valid candidate and no earlier dispute appears in neither list.
pub proof fn law_finalized_scores_and_disputes(
    old: HighlightLogParseResult,
    new: HighlightLogParseResult,
    k: (Seq<char>, Seq<char>, int),
    s: int,
)
    requires
        finalized(old, new),
    ensures
        round_scores_view(new.round_scores@).contains((k.0, k.1, k.2, s)) <==> owed_state(
            conflicts_view(old.round_score_conflicts@),
            round_scores_view(old.round_scores@),
            k,
        ) == Some(Some(s)),
        conflicts_view(new.round_score_conflicts@).contains(k) <==> owed_state(
            conflicts_view(old.round_score_conflicts@),
            round_scores_view(old.round_scores@),
            k,
        ) == Some(None::<int>),
        forall|i: int, j: int|
            0 <= i < j < new.round_scores@.len() ==> key_lt(
                (#[trigger] round_scores_view(new.round_scores@)[i].0, round_scores_view(new.round_scores@)[i].1,
                    round_scores_view(new.round_scores@)[i].2),
                (#[trigger] round_scores_view(new.round_scores@)[j].0, round_scores_view(new.round_scores@)[j].1,
                    round_scores_view(new.round_scores@)[j].2),
            ),
        round_scores_view(new.round_scores@).contains((k.0, k.1, k.2, s)) <==> {
            &&& !conflicts_view(old.round_score_conflicts@).contains(k)
            &&& has_valid(round_scores_view(old.round_scores@), k)
            &&& forall|i: int|
                0 <= i < old.round_scores@.len() && candidate_key(
                    #[trigger] round_scores_view(old.round_scores@)[i],
                ) == Some(k) ==> round_scores_view(old.round_scores@)[i].3 == s
        },
        conflicts_view(new.round_score_conflicts@).contains(k) <==> {
            ||| conflicts_view(old.round_score_conflicts@).contains(k)
            ||| exists|i: int, j: int|
                0 <= i < old.round_scores@.len() && 0 <= j < old.round_scores@.len()
                    && candidate_key(#[trigger] round_scores_view(old.round_scores@)[i]) == Some(k)
                    && candidate_key(#[trigger] round_scores_view(old.round_scores@)[j]) == Some(k)
                    && round_scores_view(old.round_scores@)[i].3 != round_scores_view(
                    old.round_scores@,
                )[j].3
        },
{
    let conflicts = conflicts_view(old.round_score_conflicts@);
    let cands = round_scores_view(old.round_scores@);
    assert(cands.len() == old.round_scores@.len());
    if has_valid(cands, k) {
        let w = choose|i: int| 0 <= i < cands.len() && candidate_key(#[trigger] cands[i]) == Some(k);
        assert(valid_score(cands, k) == cands[w].3);
        if forall|i: int| 0 <= i < cands.len() && candidate_key(#[trigger] cands[i]) == Some(k) ==> cands[i].3 == s {
            assert(agree(cands, k));
        }
    }
    let list = resolve_all(conflicts, cands);
    lemma_resolve_all_state(conflicts, cands, k);
    lemma_outputs(list);
    lemma_undisputed_sorted(list);
    assert(round_scores_view(new.round_scores@).len() == new.round_scores@.len());
    assert(round_scores_view(new.round_scores@).contains((k.0, k.1, k.2, s)) == undisputed(list).contains(
        (k.0, k.1, k.2, s),
    ));
    assert(conflicts_view(new.round_score_conflicts@).contains(k) == disputed(list).contains(k));
    if exists|i: int| 0 <= i < list.len() && list[i] == ((k.0, k.1, k.2), Some(s)) {
        let i = choose|i: int| 0 <= i < list.len() && list[i] == ((k.0, k.1, k.2), Some(s));
        lemma_state_at(list, k, i);
    }
    if exists|i: int| 0 <= i < list.len() && list[i] == (k, None::<int>) {
        let i = choose|i: int| 0 <= i < list.len() && list[i] == (k, None::<int>);
        lemma_state_at(list, k, i);
    }
    if state_of(list, k) is Some {
        let i = choose|i: int| 0 <= i < list.len() && (#[trigger] list[i]).0 == k;
        assert(list[i] == (k, list[i].1));
    }
}

pub fn finalize_round_scores(result: &mut HighlightLogParseResult)
    ensures
        finalized(*old(result), *final(result)),
{
    let ghost conflicts = conflicts_view(result.round_score_conflicts@);
    let ghost candidates = round_scores_view(result.round_scores@);
    let mut resolved: Vec<ResolvedEntry> = Vec::new();
    let mut i: usize = 0;
    assert(resolved_view(resolved@) =~= Seq::<((Seq<char>, Seq<char>, int), Option<int>)>::empty());
    while i < result.round_score_conflicts.len()
        invariant
            i <= result.round_score_conflicts@.len(),
            conflicts == conflicts_view(result.round_score_conflicts@),
            resolved_view(resolved@) == resolve_conflicts(conflicts.take(i as int)),
        decreases result.round_score_conflicts.len() - i,
    {
        let c = &result.round_score_conflicts[i];
        assert(conflicts.take(i + 1).drop_last() =~= conflicts.take(i as int));
        let k = (chars_of(c.0.as_str()), chars_of(c.1.as_str()), c.2);
        resolve_conflict_exec(&mut resolved, k);
        i = i + 1;
    }
    assert(conflicts.take(i as int) =~= conflicts);
    let mut j: usize = 0;
    assert(candidates.take(0) =~= Seq::<(Seq<char>, Seq<char>, int, int)>::empty());
    while j < result.round_scores.len()
        invariant
            j <= result.round_scores@.len(),
            candidates == round_scores_view(result.round_scores@),
            resolved_view(resolved@) == resolve_all(conflicts, candidates.take(j as int)),
        decreases result.round_scores.len() - j,
    {
        let c = &result.round_scores[j];
        assert(candidates.take(j + 1).drop_last() =~= candidates.take(j as int));
        assert(candidates.take(j + 1).last() == c@);
        if let Some(k) = candidate_key_exec(c) {
            resolve_score_exec(&mut resolved, k, c.score);
        }
        j = j + 1;
    }
    assert(candidates.take(j as int) =~= candidates);
    let ghost all = resolved_view(resolved@);
    let mut scores: Vec<HighlightLogRoundScore> = Vec::new();
    let mut disputes: Vec<(String, String, i64)> = Vec::new();
    let mut n: usize = 0;
    assert(round_scores_view(scores@) =~= Seq::<(Seq<char>, Seq<char>, int, int)>::empty());
    assert(conflicts_view(disputes@) =~= Seq::<(Seq<char>, Seq<char>, int)>::empty());
    while n < resolved.len()
        invariant
            n <= resolved@.len(),
            all == resolved_view(resolved@),
            round_scores_view(scores@) == undisputed(all.take(n as int)),
            conflicts_view(disputes@) == disputed(all.take(n as int)),
        decreases resolved.len() - n,
    {
        assert(all.take(n + 1).drop_last() =~= all.take(n as int));
        let e = &resolved[n];
        let k = &e.0;
        match e.1 {
            Some(score) => {
                let ghost before = scores@;
                scores.push(
                    HighlightLogRoundScore {
                        account_id: string_of(&k.0),
                        match_id: string_of(&k.1),
                        round_id: k.2,
                        score,
                    },
                );
                assert(round_scores_view(scores@) =~= round_scores_view(before).push(
                    (k.0@, k.1@, k.2 as int, score as int),
                ));
            },
            None => {
                let ghost before = disputes@;
                disputes.push((string_of(&k.0), string_of(&k.1), k.2));
                assert(conflicts_view(disputes@) =~= conflicts_view(before).push((k.0@, k.1@, k.2 as int)));
            },
        }
        n = n + 1;
    }
    assert(all.take(n as int) =~= all);
    result.round_scores = scores;
    result.round_score_conflicts = disputes;
}

proof fn lemma_resolve_conflicts_sorted(conflicts: Seq<(Seq<char>, Seq<char>, int)>)
    ensures
        sorted_keys(resolve_conflicts(conflicts)),
    decreases conflicts.len(),
{
    if conflicts.len() > 0 {
        lemma_resolve_conflicts_sorted(conflicts.drop_last());
        lemma_insert_keeps_sorted(resolve_conflicts(conflicts.drop_last()), conflicts.last(), None);
    }
}

/// Every key is resolved once: the resolved entries, and so the settled scores and the
/// disputed keys, come out in strictly increasing key order.
pub proof fn law_resolution_keys_strictly_ordered(
    conflicts: Seq<(Seq<char>, Seq<char>, int)>,
    candidates: Seq<(Seq<char>, Seq<char>, int, int)>,
)
    ensures
        sorted_keys(resolve_all(conflicts, candidates)),
    decreases candidates.len(),
{
    if candidates.len() == 0 {
        lemma_resolve_conflicts_sorted(conflicts);
    } else {
        law_resolution_keys_strictly_ordered(conflicts, candidates.drop_last());
        let before = resolve_all(conflicts, candidates.drop_last());
        match candidate_key(candidates.last()) {
            Some(k) => {
                lemma_insert_keeps_sorted(before, k, Some(candidates.last().3));
                lemma_insert_keeps_sorted(before, k, None);
            },
            None => {},
        }
    }
}

/// A disputed key stays disputed: whatever candidates follow, it is never given a score.
pub proof fn law_disputes_are_sticky(
    list: Seq<((Seq<char>, Seq<char>, int), Option<int>)>,
    k: (Seq<char>, Seq<char>, int),
    other: (Seq<char>, Seq<char>, int),
    s: int,
)
    requires
        sorted_keys(list),
        exists|i: int| 0 <= i < list.len() && list[i].0 == k && list[i].1 is None,
    ensures
        exists|i: int|
            0 <= i < resolve_score(list, other, s).len() && (#[trigger] resolve_score(list, other, s)[i]).0
                == k && resolve_score(list, other, s)[i].1 is None,
{
    let i = choose|i: int| 0 <= i < list.len() && list[i].0 == k && list[i].1 is None;
    lemma_insert_pos_bounds(list, other, 0);
    let p = insert_pos(list, other, 0);
    let r = resolve_score(list, other, s);
    if p < list.len() && list[p].0 == other {
        if i == p {
            assert(r[i].0 == k && r[i].1 is None);
        } else {
            assert(r[i] == list[i]);
        }
    } else {
        if i < p {
            assert(r[i] == list[i]);
        } else {
            assert(r[i + 1] == list[i]);
        }
    }
}

// ---------------------------------------------------------------------------------------------
// Embedded JSON text and account hints
// ---------------------------------------------------------------------------------------------

/// How many levels of JSON text held in strings are opened.
pub const MAX_EMBEDDED_DEPTH: usize = 64;

/// A string whose trimmed text opens an object or array and is shorter than 1 MB is read as
/// JSON text.
pub open spec fn is_embedded_json(t: Seq<char>) -> bool {
    let tt = trim(t);
    (starts_with(tt, "{"@) || starts_with(tt, "["@)) && utf8_len(tt) < 1_000_000
}

/// `r` is `o` with every string that holds JSON text replaced by that document (opened in
/// turn, at most `depth` levels deep); everything else is kept as it is.
pub open spec fn expanded(o: JsonValue, r: JsonValue, depth: nat) -> bool
    decreases depth, o, 0int,
{
    match o {
        JsonValue::String(t) => if depth > 0 && is_embedded_json(t@) {
            match json_parse(trim(t@)) {
                Some(p) => expanded(p, r, (depth - 1) as nat),
                None => r == o,
            }
        } else {
            r == o
        },
        JsonValue::Array(a) => match r {
            JsonValue::Array(b) => b@.len() == a@.len() && items_expanded(a@, b@, depth, 0),
            _ => false,
        },
        JsonValue::Object(e) => match r {
            JsonValue::Object(f) => f@.len() == e@.len() && entries_expanded(e@, f@, depth, 0),
            _ => false,
        },
        _ => r == o,
    }
}

pub open spec fn items_expanded(a: Seq<JsonValue>, b: Seq<JsonValue>, depth: nat, i: int) -> bool
    decreases depth, a, a.len() - i,
{
    if i < 0 || i >= a.len() {
        true
    } else {
        i < b.len() && expanded(a[i], b[i], depth) && items_expanded(a, b, depth, i + 1)
    }
}

pub open spec fn entries_expanded(
    e: Seq<(String, JsonValue)>,
    f: Seq<(String, JsonValue)>,
    depth: nat,
    i: int,
) -> bool
    decreases depth, e, e.len() - i,
{
    if i < 0 || i >= e.len() {
        true
    } else {
        i < f.len() && f[i].0 == e[i].0 && expanded(e[i].1, f[i].1, depth) && entries_expanded(
            e,
            f,
            depth,
            i + 1,
        )
    }
}

pub const ACCOUNT_HINT_ID_KEYS: [&'static str; 6] = ["g_open_id", "gOpenId", "open_id", "openId", "openid", "OpenID"];
pub const ACCOUNT_HINT_ROLE_KEYS: [&'static str; 7] = [
    "role_name",
    "roleName",
    "user_name",
    "userName",
    "gameName",
    "GameName",
    "nick",
];
pub const ACCOUNT_HINT_NICK_KEYS: [&'static str; 7] = [
    "nick_id",
    "nickId",
    "user_nick_id",
    "userNickId",
    "tagLine",
    "TagLine",
    "tag",
];

/// A source account id: 8 to 32 ASCII digits once trimmed.
pub open spec fn is_source_account_id(v: Seq<char>) -> bool {
    let t = trim(v);
    8 <= t.len() <= 32 && crate::text::all_digits(t)
}

pub fn looks_like_source_account_id(v: &str) -> (res: bool)
    ensures
        res == is_source_account_id(v@),
{
    let t = trim_str(v);
    8 <= t.len() && t.len() <= 32 && crate::text::all_digits_exec(&t)
}

impl HighlightLogAccountNameHint {
    pub open spec fn view(&self) -> (Seq<char>, Option<Seq<char>>) {
        (self.account_id@, opt_string(self.account_name))
    }
}

pub open spec fn hints_view(v: Seq<HighlightLogAccountNameHint>) -> Seq<(Seq<char>, Option<Seq<char>>)> {
    v.map_values(|h: HighlightLogAccountNameHint| h@)
}

/// The account hint that an object's own entries give: a source account id with a role name
/// and a tag, whose joined `role#tag` is the display name when it is one.
pub open spec fn hint_of(o: JsonValue) -> Option<(Seq<char>, Option<Seq<char>>)> {
    match text_of_hit(direct_child(o, ACCOUNT_HINT_ID_KEYS@, Want::Text)) {
        None => None,
        Some(a) => if !is_source_account_id(a) {
            None
        } else {
            match (
                text_of_hit(direct_child(o, ACCOUNT_HINT_ROLE_KEYS@, Want::Text)),
                text_of_hit(direct_child(o, ACCOUNT_HINT_NICK_KEYS@, Want::Text)),
            ) {
                (Some(r), Some(n)) => Some((a, player_name(r + "#"@ + n))),
                _ => None,
            }
        },
    }
}

pub fn account_name_hint_from_object(o: &JsonValue) -> (res: Option<HighlightLogAccountNameHint>)
    ensures
        match res {
            Some(h) => hint_of(*o) == Some(h@),
            None => hint_of(*o) is None,
        },
{
    let a = match direct_string_by_keys(o, &ACCOUNT_HINT_ID_KEYS) {
        Some(a) => a,
        None => return None,
    };
    if !looks_like_source_account_id(a.as_str()) {
        return None;
    }
    let r = match direct_string_by_keys(o, &ACCOUNT_HINT_ROLE_KEYS) {
        Some(r) => r,
        None => return None,
    };
    let n = match direct_string_by_keys(o, &ACCOUNT_HINT_NICK_KEYS) {
        Some(n) => n,
        None => return None,
    };
    let joined = concat(&concat(&chars_of(r.as_str()), &chars_of("#")), &chars_of(n.as_str()));
    Some(HighlightLogAccountNameHint { account_id: a, account_name: opt_to_string(player_name_chars(&joined)) })
}

/// The account hints of every object of the expanded document, parents before children.
pub open spec fn hints_in(o: JsonValue, depth: nat) -> Seq<(Seq<char>, Option<Seq<char>>)>
    decreases depth, o, 0int,
{
    match o {
        JsonValue::String(t) => if depth > 0 && is_embedded_json(t@) {
            match json_parse(trim(t@)) {
                Some(p) => hints_in(p, (depth - 1) as nat),
                None => seq![],
            }
        } else {
            seq![]
        },
        JsonValue::Array(a) => hints_in_items(a@, depth, 0),
        JsonValue::Object(e) => (match hint_of(o) {
            Some(h) => seq![h],
            None => seq![],
        }) + hints_in_entries(e@, depth, 0),
        _ => seq![],
    }
}

pub open spec fn hints_in_items(a: Seq<JsonValue>, depth: nat, i: int) -> Seq<(Seq<char>, Option<Seq<char>>)>
    decreases depth, a, a.len() - i,
{
    if i < 0 || i >= a.len() {
        seq![]
    } else {
        hints_in(a[i], depth) + hints_in_items(a, depth, i + 1)
    }
}

pub open spec fn hints_in_entries(e: Seq<(String, JsonValue)>, depth: nat, i: int) -> Seq<(Seq<char>, Option<Seq<char>>)>
    decreases depth, e, e.len() - i,
{
    if i < 0 || i >= e.len() {
        seq![]
    } else {
        hints_in(e[i].1, depth) + hints_in_entries(e, depth, i + 1)
    }
}

proof fn lemma_items_expanded_all(a: Seq<JsonValue>, b: Seq<JsonValue>, depth: nat, i: int)
    requires
        0 <= i <= a.len(),
        b.len() == a.len(),
        forall|j: int| 0 <= j < a.len() ==> expanded(#[trigger] a[j], b[j], depth),
    ensures
        items_expanded(a, b, depth, i),
    decreases a.len() - i,
{
    if i < a.len() {
        lemma_items_expanded_all(a, b, depth, i + 1);
    }
}

pub open spec fn entry_expanded(e: Seq<(String, JsonValue)>, f: Seq<(String, JsonValue)>, depth: nat, j: int) -> bool {
    f[j].0 == e[j].0 && expanded(e[j].1, f[j].1, depth)
}

proof fn lemma_entries_expanded_all(e: Seq<(String, JsonValue)>, f: Seq<(String, JsonValue)>, depth: nat, i: int)
    requires
        0 <= i <= e.len(),
        f.len() == e.len(),
        forall|j: int| 0 <= j < e.len() ==> #[trigger] entry_expanded(e, f, depth, j),
    ensures
        entries_expanded(e, f, depth, i),
    decreases e.len() - i,
{
    if i < e.len() {
        assert(entry_expanded(e, f, depth, i));
        lemma_entries_expanded_all(e, f, depth, i + 1);
    }
}

proof fn lemma_starts_with_one(s: Seq<char>, c: char)
    ensures
        starts_with(s, seq![c]) == (s.len() > 0 && s[0] == c),
{
    if s.len() > 0 {
        assert(s.subrange(0, 1)[0] == s[0]);
        if s[0] == c {
            assert(s.subrange(0, 1) =~= seq![c]);
        }
    }
}

/// Opens the JSON text held in strings (see [`expanded`]); when `collect` is set, records the
/// account hints of every object on the way (see [`hints_in`]).
pub fn expand_value(
    v: &JsonValue,
    depth: usize,
    collect: bool,
    hints: &mut Vec<HighlightLogAccountNameHint>,
) -> (res: JsonValue)
    ensures
        expanded(*v, res, depth as nat),
        collect ==> hints_view(final(hints)@) == hints_view(old(hints)@) + hints_in(*v, depth as nat),
        !collect ==> final(hints)@ == old(hints)@,
    decreases depth, v,
{
    match v {
        JsonValue::String(t) => {
            let trimmed = trim_str(t.as_str());
            let opens = trimmed.len() > 0 && (trimmed[0] == '{' || trimmed[0] == '[');
            proof {
                crate::scanner::lemma_utf8_len_bounds(trimmed@);
                reveal_strlit("{");
                reveal_strlit("[");
                assert("{"@ =~= seq!['{']);
                assert("["@ =~= seq!['[']);
                lemma_starts_with_one(trimmed@, '{');
                lemma_starts_with_one(trimmed@, '[');
            }
            assert(trimmed@ == trim(t@));
            assert(opens == (starts_with(trimmed@, "{"@) || starts_with(trimmed@, "["@)));
            if depth > 0 && opens && trimmed.len() < 1_000_000 && crate::scanner::utf8_len_exec(&trimmed)
                < 1_000_000 {
                match parse_json(string_of(&trimmed).as_str()) {
                    Some(p) => {
                        return expand_value(&p, depth - 1, collect, hints);
                    },
                    None => {},
                }
            }
            assert(collect ==> hints_view(hints@) =~= hints_view(hints@) + Seq::<(Seq<char>, Option<Seq<char>>)>::empty());
            let kept = JsonValue::String(t.clone());
            assert(expanded(*v, kept, depth as nat));
            kept
        },
        JsonValue::Array(items) => {
            let ghost start = hints_view(hints@);
            let mut out: Vec<JsonValue> = Vec::new();
            let mut i: usize = 0;
            while i < items.len()
                invariant
                    i <= items@.len(),
                    *v == JsonValue::Array(*items),
                    out@.len() == i,
                    forall|j: int| 0 <= j < i ==> expanded(#[trigger] items@[j], out@[j], depth as nat),
                    collect ==> start + hints_in_items(items@, depth as nat, 0) == hints_view(hints@)
                        + hints_in_items(items@, depth as nat, i as int),
                    !collect ==> hints@ == old(hints)@,
                    start == hints_view(old(hints)@),
                decreases items.len() - i,
            {
                proof {
                    assert(v->Array_0 == *items);
                    assert(decreases_to!(*v => v->Array_0));
                    assert(decreases_to!(*v => items@[i as int]));
                }
                let ghost before = hints_view(hints@);
                let e = expand_value(&items[i], depth, collect, hints);
                out.push(e);
                proof {
                    if collect {
                        assert(hints_in_items(items@, depth as nat, i as int) == hints_in(items@[i as int], depth as nat)
                            + hints_in_items(items@, depth as nat, i + 1));
                        assert(before + hints_in_items(items@, depth as nat, i as int) =~= hints_view(hints@)
                            + hints_in_items(items@, depth as nat, i + 1));
                    }
                }
                i = i + 1;
            }
            proof {
                lemma_items_expanded_all(items@, out@, depth as nat, 0);
                if collect {
                    assert(hints_view(hints@) + Seq::<(Seq<char>, Option<Seq<char>>)>::empty() =~= hints_view(hints@));
                }
            }
            let res = JsonValue::Array(out);
            assert(expanded(*v, res, depth as nat));
            res
        },
        JsonValue::Object(entries) => {
            if collect {
                if let Some(h) = account_name_hint_from_object(v) {
                    hints.push(h);
                }
            }
            let ghost start = hints_view(hints@);
            proof {
                if collect {
                    assert(start =~= hints_view(old(hints)@) + match hint_of(*v) {
                        Some(h) => seq![h],
                        None => Seq::empty(),
                    });
                }
            }
            let mut out: Vec<(String, JsonValue)> = Vec::new();
            let mut i: usize = 0;
            while i < entries.len()
                invariant
                    i <= entries@.len(),
                    *v == JsonValue::Object(*entries),
                    out@.len() == i,
                    forall|j: int| 0 <= j < i ==> #[trigger] entry_expanded(entries@, out@, depth as nat, j),
                    collect ==> start + hints_in_entries(entries@, depth as nat, 0) == hints_view(
                        hints@,
                    ) + hints_in_entries(entries@, depth as nat, i as int),
                    !collect ==> hints@ == old(hints)@,
                decreases entries.len() - i,
            {
                proof {
                    assert(v->Object_0 == *entries);
                    assert(decreases_to!(*v => v->Object_0));
                    assert(decreases_to!(*v => entries@[i as int].1));
                }
                let ghost before = hints_view(hints@);
                let ghost out_before = out@;
                let e = expand_value(&entries[i].1, depth, collect, hints);
                out.push((entries[i].0.clone(), e));
                assert(entry_expanded(entries@, out@, depth as nat, i as int));
                assert forall|j: int| 0 <= j < i implies #[trigger] entry_expanded(entries@, out@, depth as nat, j) by {
                    assert(entry_expanded(entries@, out_before, depth as nat, j));
                    assert(out@[j] == out_before[j]);
                }
                proof {
                    if collect {
                        assert(hints_in_entries(entries@, depth as nat, i as int) == hints_in(entries@[i as int].1, depth as nat)
                            + hints_in_entries(entries@, depth as nat, i + 1));
                        assert(before + hints_in_entries(entries@, depth as nat, i as int) =~= hints_view(hints@)
                            + hints_in_entries(entries@, depth as nat, i + 1));
                    }
                }
                i = i + 1;
            }
            proof {
                lemma_entries_expanded_all(entries@, out@, depth as nat, 0);
                if collect {
                    assert(hints_view(hints@) + Seq::<(Seq<char>, Option<Seq<char>>)>::empty() =~= hints_view(hints@));
                    assert(hints_view(old(hints)@) + hints_in(*v, depth as nat) =~= start + hints_in_entries(entries@, depth as nat, 0));
                }
            }
            let res = JsonValue::Object(out);
            assert(expanded(*v, res, depth as nat));
            res
        },
        JsonValue::Null => JsonValue::Null,
        JsonValue::Bool(b) => JsonValue::Bool(*b),
        JsonValue::Number(n) => JsonValue::Number(JsonNumber { text: n.text.clone(), as_i64: n.as_i64 }),
    }
}

// ---------------------------------------------------------------------------------------------
// Event-parser records
// ---------------------------------------------------------------------------------------------

pub const KILLER_IS_ME_KEYS: [&'static str; 2] = ["KillerIsMe", "killerIsMe"];
pub const KILLED_IS_ME_KEYS: [&'static str; 2] = ["KilledIsMe", "killedIsMe"];
pub const IDENTITY_NAME_KEYS: [&'static str; 4] = ["playerName", "player_name", "riotId", "riot_id"];
pub const EVENT_KILLER_KEYS: [&'static str; 4] = ["killerName", "killer_name", "killer", "KillerPlayerName"];
pub const EVENT_KILLED_KEYS: [&'static str; 4] = ["killedName", "killed_name", "victimName", "KilledPlayerName"];
pub const EVENT_TIME_ONLY_KEYS: [&'static str; 4] = ["eventTime", "EventTime", "time", "时间"];
pub const EVENT_ROUND_KEYS: [&'static str; 5] = ["roundId", "round_id", "round", "Round", "回合"];
pub const EVENT_WEAPON_KEYS: [&'static str; 6] = [
    "weaponName",
    "WeaponName",
    "weapon",
    "WeaponSkinName",
    "WeaponID",
    "武器",
];
pub const VIDEO_LIST_KEYS: [&'static str; 2] = ["videoList", "video_list"];
pub const VIDEO_PATH_KEYS: [&'static str; 7] = [
    "path",
    "recordSrc",
    "record_src",
    "videoSrc",
    "video_src",
    "videoSource",
    "video_source",
];
pub const EVENT_COMBAT_SCORE_KEYS: [&'static str; 5] = [
    "combatScore",
    "combat_score",
    "MatchCombatScore",
    "score",
    "战斗分",
];
pub const KILLER_IS_ME_ONLY: [&'static str; 1] = ["KillerIsMe"];
pub const KILLED_IS_ME_ONLY: [&'static str; 1] = ["KilledIsMe"];

/// A flag entry that reads `1` or `true` once trimmed and ASCII-lower-cased.
pub open spec fn event_flag(o: JsonValue, names: Seq<&str>) -> bool {
    match text_of_hit(direct_child(o, names, Want::Text)) {
        Some(t) => lower_seq(trim(t)) == "1"@ || lower_seq(trim(t)) == "true"@,
        None => false,
    }
}

pub fn direct_event_flag(o: &JsonValue, names: &[&str]) -> (res: bool)
    ensures
        res == event_flag(*o, names@),
{
    match direct_string_by_keys(o, names) {
        Some(t) => {
            let n = to_lower(&trim_str(t.as_str()));
            literal_eq(&n, "1") || literal_eq(&n, "true")
        },
        None => false,
    }
}

/// The player that one event shows to be the recording player.
pub open spec fn current_player_in(event: JsonValue) -> Option<Seq<char>> {
    match params_of(event) {
        None => None,
        Some(eo) => {
            let killer_is_me = event_flag(eo, KILLER_IS_ME_KEYS@);
            let killed_is_me = event_flag(eo, KILLED_IS_ME_KEYS@);
            let identity = event_named(eo, "RoundStart"@);
            if !killer_is_me && !killed_is_me && !identity {
                None
            } else {
                match riot_id_of(eo) {
                    Some(r) => player_name(r),
                    None => if identity {
                        match text_of_hit(direct_child(eo, IDENTITY_NAME_KEYS@, Want::Text)) {
                            Some(n) => if contains(n, "#"@) {
                                player_name(n)
                            } else {
                                None
                            },
                            None => None,
                        }
                    } else {
                        let participant = if killer_is_me {
                            text_of_hit(direct_child(eo, EVENT_KILLER_KEYS@, Want::Text))
                        } else {
                            text_of_hit(direct_child(eo, EVENT_KILLED_KEYS@, Want::Text))
                        };
                        match participant {
                            Some(n) => if contains(n, "#"@) {
                                player_name(n)
                            } else {
                                None
                            },
                            None => None,
                        }
                    },
                }
            }
        },
    }
}

fn tagged_player(n: Option<String>) -> (res: Option<String>)
    ensures
        opt_string(res) == match opt_string(n) {
            Some(t) => if contains(t, "#"@) {
                player_name(t)
            } else {
                None
            },
            None => None,
        },
{
    match n {
        Some(t) => {
            let c = chars_of(t.as_str());
            if contains_lit(&c, "#") {
                opt_to_string(player_name_chars(&c))
            } else {
                None
            }
        },
        None => None,
    }
}

pub fn current_player_from_event(event: &JsonValue) -> (res: Option<String>)
    ensures
        opt_string(res) == current_player_in(*event),
{
    let eo = match event_params_object(event) {
        Some(eo) => eo,
        None => return None,
    };
    let killer_is_me = direct_event_flag(eo, &KILLER_IS_ME_KEYS);
    let killed_is_me = direct_event_flag(eo, &KILLED_IS_ME_KEYS);
    let identity = event_name_is(eo, "RoundStart");
    if !killer_is_me && !killed_is_me && !identity {
        return None;
    }
    if let Some(r) = riot_id_from_object(eo) {
        return opt_to_string(player_name_chars(&chars_of(r.as_str())));
    }
    if identity {
        return tagged_player(direct_string_by_keys(eo, &IDENTITY_NAME_KEYS));
    }
    if killer_is_me {
        tagged_player(direct_string_by_keys(eo, &EVENT_KILLER_KEYS))
    } else {
        tagged_player(direct_string_by_keys(eo, &EVENT_KILLED_KEYS))
    }
}

/// The recording player named by the first event from `i` on that names one.
pub open spec fn first_current_player(events: Seq<JsonValue>, i: int) -> Option<Seq<char>>
    decreases events.len() - i,
{
    if i < 0 || i >= events.len() {
        None
    } else {
        match current_player_in(events[i]) {
            Some(p) => Some(p),
            None => first_current_player(events, i + 1),
        }
    }
}

pub fn find_current_player_name_from_events(events: &Vec<JsonValue>) -> (res: Option<String>)
    ensures
        opt_string(res) == first_current_player(events@, 0),
{
    let mut i: usize = 0;
    while i < events.len()
        invariant
            i <= events@.len(),
            first_current_player(events@, 0) == first_current_player(events@, i as int),
        decreases events.len() - i,
    {
        let p = current_player_from_event(&events[i]);
        if p.is_some() {
            return p;
        }
        i = i + 1;
    }
    None
}

/// The first video path of a game's video list.
pub open spec fn video_path_in(items: Seq<JsonValue>, i: int) -> Option<Seq<char>>
    decreases items.len() - i,
{
    if i < 0 || i >= items.len() {
        None
    } else {
        match find_text(items[i], VIDEO_PATH_KEYS@) {
            Some(p) => Some(p),
            None => video_path_in(items, i + 1),
        }
    }
}

pub open spec fn video_list_path_of(game: JsonValue) -> Option<Seq<char>> {
    match find_first(game, normalized_keys(VIDEO_LIST_KEYS@), Want::List) {
        Some(JsonValue::Array(items)) => video_path_in(items@, 0),
        _ => None,
    }
}

pub fn find_video_list_path(game: &JsonValue) -> (res: Option<String>)
    ensures
        opt_string(res) == video_list_path_of(*game),
{
    let items = match find_array_by_keys(game, &VIDEO_LIST_KEYS) {
        Some(items) => items,
        None => return None,
    };
    let mut i: usize = 0;
    while i < items.len()
        invariant
            i <= items@.len(),
            find_first(*game, normalized_keys(VIDEO_LIST_KEYS@), Want::List) == Some(
                JsonValue::Array(*items),
            ),
            video_path_in(items@, 0) == video_path_in(items@, i as int),
        decreases items.len() - i,
    {
        let p = find_string_by_keys(&items[i], &VIDEO_PATH_KEYS);
        if p.is_some() {
            return p;
        }
        i = i + 1;
    }
    None
}

/// A shot counts as a kill when it is in a real round, names both players and involves the
/// recording player.
pub open spec fn real_shot_kill(e: JsonValue) -> bool {
    match find_int(e, ROUND_KEYS@) {
        None => false,
        Some(r) => r > 0 && find_text(e, EVENT_KILLER_KEYS@) is Some && find_text(e, EVENT_KILLED_KEYS@)
            is Some && (find_int(e, KILLER_IS_ME_ONLY@) == Some(1int) || find_int(
            e,
            KILLED_IS_ME_ONLY@,
        ) == Some(1int)),
    }
}

pub fn is_real_shot_kill_event(e: &JsonValue) -> (res: bool)
    ensures
        res == real_shot_kill(*e),
{
    let r = match find_i64_by_keys(e, &ROUND_KEYS) {
        Some(r) => r,
        None => return false,
    };
    if r <= 0 {
        return false;
    }
    let participants = find_string_by_keys(e, &EVENT_KILLER_KEYS).is_some() && find_string_by_keys(
        e,
        &EVENT_KILLED_KEYS,
    ).is_some();
    let killer = match find_i64_by_keys(e, &KILLER_IS_ME_ONLY) {
        Some(v) => v == 1,
        None => false,
    };
    let killed = match find_i64_by_keys(e, &KILLED_IS_ME_ONLY) {
        Some(v) => v == 1,
        None => false,
    };
    participants && (killer || killed)
}

/// Kill, kill-streak and real shot events are kills.
pub open spec fn event_parser_kill(e: JsonValue) -> bool {
    match find_text(e, EVENT_NAME_KEYS@) {
        None => false,
        Some(n) => {
            let l = unicode_lower(trim(n));
            l == "killstreak"@ || l == "kill"@ || (l == "shot"@ && real_shot_kill(e))
        },
    }
}

pub fn is_event_parser_kill_event(e: &JsonValue) -> (res: bool)
    ensures
        res == event_parser_kill(*e),
{
    let n = match find_string_by_keys(e, &EVENT_NAME_KEYS) {
        Some(n) => n,
        None => return false,
    };
    let l = chars_of(to_lowercase_str(string_of(&trim_str(n.as_str())).as_str()).as_str());
    literal_eq(&l, "killstreak") || literal_eq(&l, "kill") || (literal_eq(&l, "shot")
        && is_real_shot_kill_event(e))
}

pub open spec fn event_parser_kill_of(e: JsonValue) -> KillEventView {
    KillEventView {
        event_time: find_text(e, EVENT_TIME_ONLY_KEYS@),
        round_id: find_int(e, EVENT_ROUND_KEYS@),
        weapon_name: weapon_display(find_text(e, EVENT_WEAPON_KEYS@)),
        killer_name: find_text(e, EVENT_KILLER_KEYS@),
        killed_name: find_text(e, EVENT_KILLED_KEYS@),
        raw_json: Some(json_text(e)),
    }
}

pub open spec fn event_parser_kills(events: Seq<JsonValue>) -> Seq<KillEventView>
    decreases events.len(),
{
    if events.len() == 0 {
        seq![]
    } else {
        let rest = event_parser_kills(events.drop_last());
        if event_parser_kill(events.last()) {
            rest.push(event_parser_kill_of(events.last()))
        } else {
            rest
        }
    }
}

pub fn find_event_parser_kill_events(events: &Vec<JsonValue>) -> (res: Vec<HighlightLogKillEvent>)
    ensures
        kill_events_view(res@) == event_parser_kills(events@),
{
    let mut out: Vec<HighlightLogKillEvent> = Vec::new();
    let mut i: usize = 0;
    assert(kill_events_view(out@) =~= Seq::<KillEventView>::empty());
    while i < events.len()
        invariant
            i <= events@.len(),
            kill_events_view(out@) == event_parser_kills(events@.take(i as int)),
        decreases events.len() - i,
    {
        assert(events@.take(i + 1).drop_last() =~= events@.take(i as int));
        let e = &events[i];
        if is_event_parser_kill_event(e) {
            let k = HighlightLogKillEvent {
                event_time: find_string_by_keys(e, &EVENT_TIME_ONLY_KEYS),
                round_id: find_i64_by_keys(e, &EVENT_ROUND_KEYS),
                weapon_name: weapon_display_exec(find_string_by_keys(e, &EVENT_WEAPON_KEYS)),
                killer_name: find_string_by_keys(e, &EVENT_KILLER_KEYS),
                killed_name: find_string_by_keys(e, &EVENT_KILLED_KEYS),
                raw_json: Some(to_json_text(e)),
            };
            let ghost before = out@;
            out.push(k);
            assert(kill_events_view(out@) =~= kill_events_view(before).push(k@));
        }
        i = i + 1;
    }
    assert(events@.take(i as int) =~= events@);
    out
}

/// `r` is the event-parser record of `game` read with its decoded `events`, where `context` is
/// the array of the game (with its embedded JSON opened) and the events.
pub open spec fn is_event_record_of(
    r: HighlightLogRecord,
    context: JsonValue,
    game: JsonValue,
    game_context: JsonValue,
    events: Seq<JsonValue>,
) -> bool {
    let kills = find_int(context, KILLS_KEYS@);
    let deaths = find_int(context, DEATHS_KEYS@);
    let assists = find_int(context, ASSISTS_KEYS@);
    let won = find_int(context, ROUNDS_WON_KEYS@);
    let lost = find_int(context, ROUNDS_LOST_KEYS@);
    &&& r.line_kind == HighlightLogLineKind::EventParser
    &&& opt_string(r.match_id) == find_text(context, MATCH_ID_KEYS@)
    &&& opt_string(r.battle_id) == find_text(context, BATTLE_ID_KEYS@)
    &&& opt_string(r.record_src) == slashed(video_list_path_of(game))
    &&& opt_string(r.player_name) == or_else(player_of(game_context), first_current_player(events, 0))
    &&& opt_string(r.map_id) == map_id_of(context)
    &&& opt_string(r.map_name) == or_else(map_name_of(context), and_then_map(map_id_of(context)))
    &&& opt_string(r.game_mode) == game_mode_of(context)
    &&& opt_string(r.agent_name) == agent_of(context)
    &&& opt_string(r.kda) == or_else(find_text(context, KDA_KEYS@), kda_text(kills, deaths, assists))
    &&& opt_string(r.scoreline) == scoreline_of(context, won, lost)
    &&& r.has_won == or_flag(find_flag(context, HAS_WON_KEYS@), win_text(context))
    &&& opt_int(r.combat_score) == find_int(context, EVENT_COMBAT_SCORE_KEYS@)
    &&& kill_events_view(r.kill_events@) == event_parser_kills(events)
    &&& r.has_gzip_event
    &&& r.raw_json@ == json_text(game)
}

/// The record of one game of an event-parser line, read from the game and its decoded events;
/// the events are handed back.
pub fn parse_event_parser_record(game: &JsonValue, events: Vec<JsonValue>) -> (res: (
    HighlightLogRecord,
    Vec<JsonValue>,
))
    ensures
        res.1 == events,
        exists|items: Vec<JsonValue>, game_context: JsonValue|
            #![trigger is_event_record_of(res.0, JsonValue::Array(items), *game, game_context, events@)]
            items@ == seq![game_context, JsonValue::Array(events)] && expanded(
                *game,
                game_context,
                MAX_EMBEDDED_DEPTH as nat,
            ) && is_event_record_of(res.0, JsonValue::Array(items), *game, game_context, events@),
{
    let ghost events_in = events;
    let mut no_hints: Vec<HighlightLogAccountNameHint> = Vec::new();
    let game_context = expand_value(game, MAX_EMBEDDED_DEPTH, false, &mut no_hints);
    let ghost gc = game_context;
    let player_from_game = find_player_name(&game_context);
    let mut items: Vec<JsonValue> = Vec::new();
    items.push(game_context);
    items.push(JsonValue::Array(events));
    let ghost items_ghost = items;
    assert(items_ghost@ =~= seq![gc, JsonValue::Array(events_in)]);
    let context = JsonValue::Array(items);
    let ctx = &context;
    let kills = find_i64_by_keys(ctx, &KILLS_KEYS);
    let deaths = find_i64_by_keys(ctx, &DEATHS_KEYS);
    let assists = find_i64_by_keys(ctx, &ASSISTS_KEYS);
    let won = find_i64_by_keys(ctx, &ROUNDS_WON_KEYS);
    let lost = find_i64_by_keys(ctx, &ROUNDS_LOST_KEYS);
    let map_id = find_map_id(ctx);
    let map_name = match find_map_name(ctx) {
        Some(m) => Some(m),
        None => match &map_id {
            Some(m) => opt_to_string(map_name_chars(&chars_of(m.as_str()))),
            None => None,
        },
    };
    let kda = match find_string_by_keys(ctx, &KDA_KEYS) {
        Some(k) => Some(k),
        None => build_kda(kills, deaths, assists),
    };
    let has_won = match find_bool_by_keys(ctx, &HAS_WON_KEYS) {
        Some(b) => Some(b),
        None => parse_win_text(ctx),
    };
    let match_id = find_string_by_keys(ctx, &MATCH_ID_KEYS);
    let battle_id = find_string_by_keys(ctx, &BATTLE_ID_KEYS);
    let game_mode = find_game_mode(ctx);
    let agent_name = find_agent_name(ctx);
    let scoreline = find_scoreline(ctx, won, lost);
    let combat_score = find_i64_by_keys(ctx, &EVENT_COMBAT_SCORE_KEYS);
    let record_src = match find_video_list_path(game) {
        Some(p) => Some(normalize_path_string(p.as_str())),
        None => None,
    };
    let mut items = match context {
        JsonValue::Array(items) => items,
        _ => Vec::new(),
    };
    assert(items == items_ghost);
    let last = items.pop();
    assert(last == Some(JsonValue::Array(events_in)));
    let events = match last {
        Some(JsonValue::Array(events)) => events,
        _ => Vec::new(),
    };
    assert(events == events_in);
    let player_name = match player_from_game {
        Some(p) => Some(p),
        None => find_current_player_name_from_events(&events),
    };
    let kill_events = find_event_parser_kill_events(&events);
    let record = HighlightLogRecord {
        line_kind: HighlightLogLineKind::EventParser,
        match_id,
        battle_id,
        record_src,
        player_name,
        map_id,
        map_name,
        game_mode,
        agent_name,
        kda,
        scoreline,
        has_won,
        combat_score,
        kill_events,
        has_gzip_event: true,
        raw_json: to_json_text(game),
    };
    assert(is_event_record_of(record, JsonValue::Array(items_ghost), *game, gc, events_in@));
    let res = (record, events);
    assert(items_ghost@ == seq![gc, JsonValue::Array(events_in)] && expanded(
        *game,
        gc,
        MAX_EMBEDDED_DEPTH as nat,
    ) && is_event_record_of(res.0, JsonValue::Array(items_ghost), *game, gc, events_in@));
    res
}

// ---------------------------------------------------------------------------------------------
// Accumulating parse results
// ---------------------------------------------------------------------------------------------

/// A counter one higher, stopping at the largest `usize`.
pub open spec fn bump(n: usize) -> usize {
    if n == usize::MAX {
        n
    } else {
        (n + 1) as usize
    }
}

fn bump_exec(n: usize) -> (res: usize)
    ensures
        res == bump(n),
{
    if n == usize::MAX {
        n
    } else {
        n + 1
    }
}

/// The gzip counter after records of `values` were added to it.
pub open spec fn gzip_after(n: usize, values: Seq<JsonValue>) -> usize
    decreases values.len(),
{
    if values.len() == 0 {
        n
    } else {
        let before = gzip_after(n, values.drop_last());
        if gzip_in(values.last()) {
            bump(before)
        } else {
            before
        }
    }
}

/// `new` is `old` followed by the records of `values`, read as lines of kind `kind`.
pub open spec fn records_added(
    old: Seq<HighlightLogRecord>,
    new: Seq<HighlightLogRecord>,
    values: Seq<JsonValue>,
    kind: HighlightLogLineKind,
) -> bool {
    &&& new.len() == old.len() + values.len()
    &&& forall|i: int| 0 <= i < old.len() ==> new[i] == old[i]
    &&& forall|j: int| 0 <= j < values.len() ==> is_record_of(#[trigger] new[old.len() + j], values[j], kind)
}

/// Only the records and the gzip counter changed.
pub open spec fn only_records_changed(old: HighlightLogParseResult, new: HighlightLogParseResult) -> bool {
    &&& new.round_scores == old.round_scores
    &&& new.account_name_hints == old.account_name_hints
    &&& new.bad_line_count == old.bad_line_count
    &&& new.round_score_conflicts == old.round_score_conflicts
}

/// Only the bad-line counter went up.
pub open spec fn one_bad_line(old: HighlightLogParseResult, new: HighlightLogParseResult) -> bool {
    &&& new.records == old.records
    &&& new.round_scores == old.round_scores
    &&& new.account_name_hints == old.account_name_hints
    &&& new.gzip_event_count == old.gzip_event_count
    &&& new.round_score_conflicts == old.round_score_conflicts
    &&& new.bad_line_count == bump(old.bad_line_count)
}

pub open spec fn derefs(v: Seq<&JsonValue>) -> Seq<JsonValue> {
    v.map_values(|x: &JsonValue| *x)
}

/// Adds the records of `values`, counting those that carry a gzip event.
pub fn push_records(values: &Vec<&JsonValue>, kind: HighlightLogLineKind, result: &mut HighlightLogParseResult)
    ensures
        records_added(old(result).records@, final(result).records@, derefs(values@), kind),
        final(result).gzip_event_count == gzip_after(old(result).gzip_event_count, derefs(values@)),
        only_records_changed(*old(result), *final(result)),
{
    let ghost start = result.records@;
    let mut i: usize = 0;
    while i < values.len()
        invariant
            i <= values@.len(),
            only_records_changed(*old(result), *result),
            start == old(result).records@,
            records_added(start, result.records@, derefs(values@).take(i as int), kind),
            result.gzip_event_count == gzip_after(old(result).gzip_event_count, derefs(values@).take(i as int)),
        decreases values.len() - i,
    {
        let v = values[i];
        assert(derefs(values@).take(i + 1).drop_last() =~= derefs(values@).take(i as int));
        assert(derefs(values@).take(i + 1).last() == *v);
        let record = parse_record(v, kind);
        if record.has_gzip_event {
            result.gzip_event_count = bump_exec(result.gzip_event_count);
        }
        let ghost before = result.records@;
        result.records.push(record);
        proof {
            let vals = derefs(values@).take(i + 1);
            assert(result.records@.len() == start.len() + vals.len());
            assert forall|j: int| 0 <= j < vals.len() implies is_record_of(
                #[trigger] result.records@[start.len() + j],
                vals[j],
                kind,
            ) by {
                if j < i {
                    assert(result.records@[start.len() + j] == before[start.len() + j]);
                    assert(vals[j] == derefs(values@).take(i as int)[j]);
                }
            }
        }
        i = i + 1;
    }
    assert(derefs(values@).take(i as int) =~= derefs(values@));
}

/// The objects among `items`, in order.
pub open spec fn objects_among(items: Seq<JsonValue>) -> Seq<JsonValue>
    decreases items.len(),
{
    if items.len() == 0 {
        seq![]
    } else {
        let rest = objects_among(items.drop_last());
        if items.last() is Object {
            rest.push(items.last())
        } else {
            rest
        }
    }
}

fn object_refs<'a>(items: &'a Vec<JsonValue>) -> (res: Vec<&'a JsonValue>)
    ensures
        derefs(res@) == objects_among(items@),
{
    let mut out: Vec<&'a JsonValue> = Vec::new();
    let mut i: usize = 0;
    assert(derefs(out@) =~= Seq::<JsonValue>::empty());
    while i < items.len()
        invariant
            i <= items@.len(),
            derefs(out@) == objects_among(items@.take(i as int)),
        decreases items.len() - i,
    {
        assert(items@.take(i + 1).drop_last() =~= items@.take(i as int));
        if items[i].is_object_exec() {
            let ghost before = out@;
            out.push(&items[i]);
            assert(derefs(out@) =~= derefs(before).push(items@[i as int]));
        }
        i = i + 1;
    }
    assert(items@.take(i as int) =~= items@);
    out
}

/// What a line of one object or an array of objects does: each object becomes a record of
/// `kind`; text that is not JSON, or JSON of another shape, is a bad line.
pub open spec fn plain_payload_read(
    payload: Seq<char>,
    kind: HighlightLogLineKind,
    old: HighlightLogParseResult,
    new: HighlightLogParseResult,
) -> bool {
    match json_parse(payload) {
        Some(JsonValue::Array(items)) => records_added(old.records@, new.records@, objects_among(items@), kind)
            && new.gzip_event_count == gzip_after(old.gzip_event_count, objects_among(items@))
            && only_records_changed(old, new),
        Some(JsonValue::Object(e)) => records_added(
            old.records@,
            new.records@,
            seq![JsonValue::Object(e)],
            kind,
        ) && new.gzip_event_count == gzip_after(old.gzip_event_count, seq![JsonValue::Object(e)])
            && only_records_changed(old, new),
        _ => one_bad_line(old, new),
    }
}

pub fn parse_payload(payload: &str, kind: HighlightLogLineKind, result: &mut HighlightLogParseResult)
    ensures
        plain_payload_read(payload@, kind, *old(result), *final(result)),
{
    let value = match parse_json(payload) {
        Some(v) => v,
        None => {
            result.bad_line_count = bump_exec(result.bad_line_count);
            return;
        },
    };
    match &value {
        JsonValue::Array(items) => {
            let objects = object_refs(items);
            push_records(&objects, kind, result);
        },
        JsonValue::Object(_) => {
            let mut one: Vec<&JsonValue> = Vec::new();
            one.push(&value);
            assert(derefs(one@) =~= seq![value]);
            push_records(&one, kind, result);
        },
        _ => {
            result.bad_line_count = bump_exec(result.bad_line_count);
        },
    }
}

// ---------------------------------------------------------------------------------------------
// Compressed event lists
// ---------------------------------------------------------------------------------------------

/// What `base64`'s standard engine decodes `text` to, or `None` when it reports an error.
pub uninterp spec fn base64_standard_decode(text: Seq<char>) -> Option<Seq<u8>>;

/// The text that `flate2`'s `GzDecoder` reads from `bytes` into a `String`, or `None` when
/// reading fails (a broken stream, or text that is not UTF-8).
pub uninterp spec fn gunzip_text(bytes: Seq<u8>) -> Option<Seq<char>>;

/// Decodes `text` with `base64::engine::general_purpose::STANDARD` (`Engine::decode`).
#[verifier::external_body]
pub(crate) fn decode_base64_standard(text: &str) -> (res: Option<Vec<u8>>)
    ensures
        match res {
            Some(bytes) => base64_standard_decode(text@) == Some(bytes@),
            None => base64_standard_decode(text@) is None,
        },
{
    base64::Engine::decode(&base64::engine::general_purpose::STANDARD, text).ok()
}

/// Reads `bytes` through `flate2::read::GzDecoder` with `Read::read_to_string`.
#[verifier::external_body]
fn gunzip_to_string(bytes: &[u8]) -> (res: Option<String>)
    ensures
        opt_string(res) == gunzip_text(bytes@),
{
    let mut decoder = flate2::read::GzDecoder::new(bytes);
    let mut text = String::new();
    std::io::Read::read_to_string(&mut decoder, &mut text).ok().map(|_| text)
}

/// `s` with each pair of backslashes, read left to right, made one.
pub open spec fn single_backslashes(s: Seq<char>) -> Seq<char>
    decreases s.len(),
{
    if s.len() >= 2 && s[0] == '\\' && s[1] == '\\' {
        seq!['\\'] + single_backslashes(s.skip(2))
    } else if s.len() > 0 {
        seq![s[0]] + single_backslashes(s.skip(1))
    } else {
        seq![]
    }
}

fn single_backslashes_exec(v: &Vec<char>) -> (res: Vec<char>)
    ensures
        res@ == single_backslashes(v@),
{
    let mut out: Vec<char> = Vec::new();
    let mut i: usize = 0;
    assert(v@.skip(0) =~= v@);
    while i < v.len()
        invariant
            i <= v@.len(),
            out@ + single_backslashes(v@.skip(i as int)) == single_backslashes(v@),
        decreases v.len() - i,
    {
        let ghost rest = v@.skip(i as int);
        if i + 1 < v.len() && v[i] == '\\' && v[i + 1] == '\\' {
            assert(rest.skip(2) =~= v@.skip(i + 2));
            out.push('\\');
            assert(out@ + single_backslashes(v@.skip(i + 2)) =~= (out@.drop_last() + (seq!['\\'] + single_backslashes(rest.skip(2)))));
            i = i + 2;
        } else {
            assert(rest.skip(1) =~= v@.skip(i + 1));
            let c = v[i];
            out.push(c);
            assert(out@ + single_backslashes(v@.skip(i + 1)) =~= (out@.drop_last() + (seq![c] + single_backslashes(rest.skip(1)))));
            i = i + 1;
        }
    }
    assert(v@.skip(i as int) =~= Seq::<char>::empty());
    assert(out@ + Seq::<char>::empty() =~= out@);
    out
}

/// Base64 text padded with `=` to a multiple of four bytes.
pub open spec fn padded(s: Seq<char>) -> Seq<char> {
    let r = utf8_len(s) % 4;
    if r == 0 {
        s
    } else {
        s + Seq::new((4 - r) as nat, |i: int| '=')
    }
}

/// The decoded events: strings holding JSON are parsed, objects are kept, the rest dropped.
pub open spec fn event_values(values: Seq<JsonValue>) -> Seq<JsonValue>
    decreases values.len(),
{
    if values.len() == 0 {
        seq![]
    } else {
        let rest = event_values(values.drop_last());
        match values.last() {
            JsonValue::String(t) => match json_parse(t@) {
                Some(p) => rest.push(p),
                None => rest,
            },
            JsonValue::Object(_) => rest.push(values.last()),
            _ => rest,
        }
    }
}

/// The events of a gzip payload: base64 (with doubled backslashes undone and padding added),
/// then gzip, then a JSON array of events.
pub open spec fn gzip_events(encoded: Seq<char>) -> Option<Seq<JsonValue>> {
    let text = padded(single_backslashes(trim(encoded)));
    match base64_standard_decode(text) {
        None => None,
        Some(bytes) => match gunzip_text(bytes) {
            None => None,
            Some(decoded) => match json_parse(decoded) {
                Some(JsonValue::Array(values)) => Some(event_values(values@)),
                _ => None,
            },
        },
    }
}

fn take_event_values(values: Vec<JsonValue>) -> (res: Vec<JsonValue>)
    ensures
        res@ == event_values(values@),
{
    let ghost all = values@;
    let n = values.len();
    assert(all.len() == n);
    let mut rest = values;
    let mut out: Vec<JsonValue> = Vec::new();
    let mut taken: usize = 0;
    assert(all.take(0) =~= Seq::<JsonValue>::empty());
    while rest.len() > 0
        invariant
            taken <= all.len(),
            all.len() <= usize::MAX,
            rest@ == all.skip(taken as int),
            out@ == event_values(all.take(taken as int)),
        decreases rest.len(),
    {
        assert(taken < all.len());
        let v = rest.remove(0);
        assert(all.take(taken + 1).drop_last() =~= all.take(taken as int));
        assert(all.take(taken + 1).last() == v);
        match v {
            JsonValue::String(t) => {
                if let Some(p) = parse_json(t.as_str()) {
                    out.push(p);
                }
            },
            JsonValue::Object(e) => {
                out.push(JsonValue::Object(e));
            },
            _ => {},
        }
        assert(rest@ =~= all.skip(taken + 1));
        taken = taken + 1;
    }
    assert(all.take(taken as int) =~= all);
    out
}

/// The number of UTF-8 bytes of `v`, modulo 4.
fn utf8_len_mod4(v: &Vec<char>) -> (res: usize)
    ensures
        res == utf8_len(v@) % 4,
        res < 4,
{
    let mut acc: usize = 0;
    let mut i: usize = 0;
    while i < v.len()
        invariant
            i <= v@.len(),
            acc < 4,
            acc == utf8_len(v@.take(i as int)) % 4,
        decreases v.len() - i,
    {
        assert(v@.take(i + 1).drop_last() =~= v@.take(i as int));
        let w = crate::scanner::char_utf8_width(v[i]);
        acc = (acc + w) % 4;
        i = i + 1;
    }
    assert(v@.take(i as int) =~= v@);
    acc
}

pub fn decode_gzip_event_payload(encoded: &str) -> (res: Option<Vec<JsonValue>>)
    ensures
        match res {
            Some(events) => gzip_events(encoded@) == Some(events@),
            None => gzip_events(encoded@) is None,
        },
{
    let mut text = single_backslashes_exec(&trim_str(encoded));
    let ghost unpadded = text@;
    let r = utf8_len_mod4(&text);
    if r != 0 {
        let mut k: usize = 0;
        while k < 4 - r
            invariant
                k <= 4 - r,
                r < 4,
                text@ == unpadded + Seq::new(k as nat, |i: int| '='),
            decreases 4 - r - k,
        {
            text.push('=');
            assert(text@ =~= unpadded + Seq::new((k + 1) as nat, |i: int| '='));
            k = k + 1;
        }
    }
    let compressed = match decode_base64_standard(string_of(&text).as_str()) {
        Some(b) => b,
        None => return None,
    };
    let decoded = match gunzip_to_string(compressed.as_slice()) {
        Some(d) => d,
        None => return None,
    };
    match parse_json(decoded.as_str()) {
        Some(JsonValue::Array(values)) => Some(take_event_values(values)),
        _ => None,
    }
}

// ---------------------------------------------------------------------------------------------
// Event-parser lines
// ---------------------------------------------------------------------------------------------

/// The parameter objects of the events that have one, in order.
pub open spec fn params_objects(events: Seq<JsonValue>) -> Seq<JsonValue>
    decreases events.len(),
{
    if events.len() == 0 {
        seq![]
    } else {
        let rest = params_objects(events.drop_last());
        match params_of(events.last()) {
            Some(p) => rest.push(p),
            None => rest,
        }
    }
}

/// `scores` are the round scores of the match segments of `events`.
pub open spec fn event_scores_of(events: Seq<JsonValue>, scores: Seq<(Seq<char>, Seq<char>, int, int)>) -> bool {
    exists|objects: Seq<&JsonValue>|
        #![trigger segment_walk(objects)]
        derefs(objects) == params_objects(events) && segment_walk(objects).scores == scores
}

/// The round scores of every match segment of a decoded event list.
pub fn find_event_parser_round_scores(events: &Vec<JsonValue>) -> (res: Vec<HighlightLogRoundScore>)
    ensures
        event_scores_of(events@, round_scores_view(res@)),
{
    let mut objects: Vec<&JsonValue> = Vec::new();
    let mut i: usize = 0;
    assert(derefs(objects@) =~= Seq::<JsonValue>::empty());
    while i < events.len()
        invariant
            i <= events@.len(),
            derefs(objects@) == params_objects(events@.take(i as int)),
        decreases events.len() - i,
    {
        assert(events@.take(i + 1).drop_last() =~= events@.take(i as int));
        if let Some(p) = event_params_object(&events[i]) {
            let ghost before = objects@;
            objects.push(p);
            assert(derefs(objects@) =~= derefs(before).push(*p));
        }
        i = i + 1;
    }
    assert(events@.take(i as int) =~= events@);
    let res = round_scores_from_objects(&objects);
    assert(derefs(objects@) == params_objects(events@) && segment_walk(objects@).scores == round_scores_view(res@));
    res
}

/// `r` is the event-parser record of `game` with its decoded `events`.
pub open spec fn is_event_record_for(r: HighlightLogRecord, game: JsonValue, events: Seq<JsonValue>) -> bool {
    exists|items: Vec<JsonValue>, game_context: JsonValue, evs: Vec<JsonValue>|
        #![trigger is_event_record_of(r, JsonValue::Array(items), game, game_context, evs@)]
        evs@ == events && items@ == seq![game_context, JsonValue::Array(evs)] && expanded(
            game,
            game_context,
            MAX_EMBEDDED_DEPTH as nat,
        ) && is_event_record_of(r, JsonValue::Array(items), game, game_context, evs@)
}

pub const GAMES_KEYS: [&'static str; 1] = ["games"];
pub const EVENT_KEYS: [&'static str; 1] = ["event"];

/// The gzip payload text of a game, when it has one.
pub open spec fn game_gzip_text(game: JsonValue) -> Option<Seq<char>> {
    match find_text(game, EVENT_KEYS@) {
        Some(t) => if is_gzip_text(t) {
            Some(t)
        } else {
            None
        },
        None => None,
    }
}

/// `n` bumped `k` times.
pub open spec fn bumps(n: usize, k: nat) -> usize
    decreases k,
{
    if k == 0 {
        n
    } else {
        bump(bumps(n, (k - 1) as nat))
    }
}

/// How many games carry a gzip payload.
pub open spec fn gzip_game_count(games: Seq<JsonValue>) -> nat
    decreases games.len(),
{
    if games.len() == 0 {
        0
    } else {
        gzip_game_count(games.drop_last()) + if game_gzip_text(games.last()) is Some { 1nat } else { 0nat }
    }
}

/// How many games carry a gzip payload that does not decode.
pub open spec fn broken_game_count(games: Seq<JsonValue>) -> nat
    decreases games.len(),
{
    if games.len() == 0 {
        0
    } else {
        broken_game_count(games.drop_last()) + match game_gzip_text(games.last()) {
            Some(t) => if gzip_events(t) is None { 1nat } else { 0nat },
            None => 0nat,
        }
    }
}

/// The games whose gzip payload decodes, with their events.
pub open spec fn decoded_games(games: Seq<JsonValue>) -> Seq<(JsonValue, Seq<JsonValue>)>
    decreases games.len(),
{
    if games.len() == 0 {
        seq![]
    } else {
        let rest = decoded_games(games.drop_last());
        match game_gzip_text(games.last()) {
            Some(t) => match gzip_events(t) {
                Some(evs) => rest.push((games.last(), evs)),
                None => rest,
            },
            None => rest,
        }
    }
}

pub open spec fn flatten_scores(parts: Seq<Seq<(Seq<char>, Seq<char>, int, int)>>) -> Seq<(Seq<char>, Seq<char>, int, int)>
    decreases parts.len(),
{
    if parts.len() == 0 {
        seq![]
    } else {
        flatten_scores(parts.drop_last()) + parts.last()
    }
}

/// `new` is `old` after the games were read: one record per decoded game, its segments' round
/// scores, one gzip count per gzip game and one bad line per gzip game that does not decode.
pub open spec fn games_read(old: HighlightLogParseResult, new: HighlightLogParseResult, games: Seq<JsonValue>) -> bool {
    let decoded = decoded_games(games);
    &&& new.records@.len() == old.records@.len() + decoded.len()
    &&& forall|i: int| 0 <= i < old.records@.len() ==> new.records@[i] == old.records@[i]
    &&& forall|k: int| 0 <= k < decoded.len() ==> is_event_record_for(
        #[trigger] new.records@[old.records@.len() + k],
        decoded[k].0,
        decoded[k].1,
    )
    &&& exists|parts: Seq<Seq<(Seq<char>, Seq<char>, int, int)>>|
        #![trigger flatten_scores(parts)]
        parts.len() == decoded.len() && (forall|k: int| 0 <= k < decoded.len() ==> event_scores_of(
            decoded[k].1,
            #[trigger] parts[k],
        )) && round_scores_view(new.round_scores@) == round_scores_view(old.round_scores@)
            + flatten_scores(parts)
    &&& new.gzip_event_count == bumps(old.gzip_event_count, gzip_game_count(games))
    &&& new.bad_line_count == bumps(old.bad_line_count, broken_game_count(games))
    &&& new.account_name_hints == old.account_name_hints
    &&& new.round_score_conflicts == old.round_score_conflicts
}

fn read_games(games: &Vec<JsonValue>, result: &mut HighlightLogParseResult)
    ensures
        games_read(*old(result), *final(result), games@),
{
    let ghost parts: Seq<Seq<(Seq<char>, Seq<char>, int, int)>> = seq![];
    let mut i: usize = 0;
    proof {
        assert(games@.take(0) =~= Seq::<JsonValue>::empty());
        assert(round_scores_view(result.round_scores@) =~= round_scores_view(old(result).round_scores@)
            + flatten_scores(parts));
    }
    while i < games.len()
        invariant
            i <= games@.len(),
            ({
                let decoded = decoded_games(games@.take(i as int));
                &&& result.records@.len() == old(result).records@.len() + decoded.len()
                &&& forall|j: int| 0 <= j < old(result).records@.len() ==> result.records@[j] == old(result).records@[j]
                &&& forall|k: int| 0 <= k < decoded.len() ==> is_event_record_for(
                    #[trigger] result.records@[old(result).records@.len() + k],
                    decoded[k].0,
                    decoded[k].1,
                )
                &&& parts.len() == decoded.len()
                &&& forall|k: int| 0 <= k < decoded.len() ==> event_scores_of(decoded[k].1, #[trigger] parts[k])
                &&& round_scores_view(result.round_scores@) == round_scores_view(old(result).round_scores@)
                    + flatten_scores(parts)
            }),
            result.gzip_event_count == bumps(old(result).gzip_event_count, gzip_game_count(games@.take(i as int))),
            result.bad_line_count == bumps(old(result).bad_line_count, broken_game_count(games@.take(i as int))),
            result.account_name_hints == old(result).account_name_hints,
            result.round_score_conflicts == old(result).round_score_conflicts,
        decreases games.len() - i,
    {
        let game = &games[i];
        let ghost prefix = games@.take(i as int);
        assert(games@.take(i + 1).drop_last() =~= prefix);
        assert(games@.take(i + 1).last() == *game);
        let ghost old_records = result.records@;
        let encoded = find_string_by_keys(game, &EVENT_KEYS);
        let gz = match &encoded {
            Some(t) => is_gzip_payload(t.as_str()),
            None => false,
        };
        if gz {
            let t = match encoded {
                Some(t) => t,
                None => String::new(),
            };
            result.gzip_event_count = bump_exec(result.gzip_event_count);
            match decode_gzip_event_payload(t.as_str()) {
                Some(events) => {
                    let ghost evs = events@;
                    let (record, events) = parse_event_parser_record(game, events);
                    let scores = find_event_parser_round_scores(&events);
                    let ghost before_scores = round_scores_view(result.round_scores@);
                    let mut k: usize = 0;
                    while k < scores.len()
                        invariant
                            k <= scores@.len(),
                            round_scores_view(result.round_scores@) == before_scores + round_scores_view(scores@).take(k as int),
                            result.records@ == old_records,
                            result.gzip_event_count == bump(bumps(old(result).gzip_event_count, gzip_game_count(prefix))),
                            result.bad_line_count == bumps(old(result).bad_line_count, broken_game_count(prefix)),
                            result.account_name_hints == old(result).account_name_hints,
                            result.round_score_conflicts == old(result).round_score_conflicts,
                        decreases scores.len() - k,
                    {
                        let r = &scores[k];
                        let ghost mid = result.round_scores@;
                        result.round_scores.push(
                            HighlightLogRoundScore {
                                account_id: r.account_id.clone(),
                                match_id: r.match_id.clone(),
                                round_id: r.round_id,
                                score: r.score,
                            },
                        );
                        assert(round_scores_view(result.round_scores@) =~= round_scores_view(mid).push(scores@[k as int]@));
                        assert(round_scores_view(scores@).take(k + 1) =~= round_scores_view(scores@).take(k as int).push(scores@[k as int]@));
                        k = k + 1;
                    }
                    assert(round_scores_view(scores@).take(k as int) =~= round_scores_view(scores@));
                    result.records.push(record);
                    proof {
                        let new_parts = parts.push(round_scores_view(scores@));
                        assert(new_parts.drop_last() =~= parts);
                        assert(flatten_scores(new_parts) =~= flatten_scores(parts) + round_scores_view(scores@));
                        assert(round_scores_view(result.round_scores@) =~= round_scores_view(old(result).round_scores@)
                            + flatten_scores(new_parts));
                        let decoded = decoded_games(games@.take(i + 1));
                        assert(decoded == decoded_games(prefix).push((*game, evs)));
                        assert forall|kk: int| 0 <= kk < decoded.len() implies event_scores_of(decoded[kk].1, #[trigger] new_parts[kk]) by {
                            if kk < decoded.len() - 1 {
                                assert(new_parts[kk] == parts[kk]);
                                assert(decoded[kk] == decoded_games(prefix)[kk]);
                            }
                        }
                        assert forall|kk: int| 0 <= kk < decoded.len() implies is_event_record_for(
                            #[trigger] result.records@[old(result).records@.len() + kk],
                            decoded[kk].0,
                            decoded[kk].1,
                        ) by {
                            if kk < decoded.len() - 1 {
                                assert(decoded[kk] == decoded_games(prefix)[kk]);
                                assert(result.records@[old(result).records@.len() + kk] == old_records[old(result).records@.len() + kk]);
                            }
                        }
                        parts = new_parts;
                    }
                },
                None => {
                    result.bad_line_count = bump_exec(result.bad_line_count);
                },
            }
        }
        i = i + 1;
    }
    assert(games@.take(i as int) =~= games@);
}

/// What an event-parser line does: its document's `games` array is read (see [`games_read`]);
/// text that is not JSON, or a document without games, is a bad line.
pub open spec fn event_parser_payload_read(
    payload: Seq<char>,
    old: HighlightLogParseResult,
    new: HighlightLogParseResult,
) -> bool {
    match json_parse(payload) {
        Some(v) => match find_first(v, normalized_keys(GAMES_KEYS@), Want::List) {
            Some(JsonValue::Array(games)) => games_read(old, new, games@),
            _ => one_bad_line(old, new),
        },
        None => one_bad_line(old, new),
    }
}

pub fn parse_event_parser_payload(payload: &str, result: &mut HighlightLogParseResult)
    ensures
        event_parser_payload_read(payload@, *old(result), *final(result)),
{
    let value = match parse_json(payload) {
        Some(v) => v,
        None => {
            result.bad_line_count = bump_exec(result.bad_line_count);
            return;
        },
    };
    match find_array_by_keys(&value, &GAMES_KEYS) {
        Some(games) => read_games(games, result),
        None => {
            result.bad_line_count = bump_exec(result.bad_line_count);
        },
    }
}

// ---------------------------------------------------------------------------------------------
// Request, response and video-list lines
// ---------------------------------------------------------------------------------------------

pub const EVENT_ID_KEYS: [&'static str; 2] = ["eventId", "event_id"];
pub const BATTLE_LIST_KEYS: [&'static str; 2] = ["battleList", "battle_list"];
pub const DATA_KEYS: [&'static str; 1] = ["data"];

/// Nothing changed.
pub open spec fn unchanged(old: HighlightLogParseResult, new: HighlightLogParseResult) -> bool {
    &&& new.records == old.records
    &&& new.round_scores == old.round_scores
    &&& new.account_name_hints == old.account_name_hints
    &&& new.bad_line_count == old.bad_line_count
    &&& new.gzip_event_count == old.gzip_event_count
    &&& new.round_score_conflicts == old.round_score_conflicts
}

/// What a request line does: a `wonderfulsdk_ui_show` request (read with its embedded JSON
/// opened) becomes a record; other requests are ignored; text that is not JSON is a bad line
/// only when it mentions that event.
pub open spec fn tlog_payload_read(payload: Seq<char>, old: HighlightLogParseResult, new: HighlightLogParseResult) -> bool {
    match json_parse(payload) {
        None => if contains(payload, "wonderfulsdk_ui_show"@) {
            one_bad_line(old, new)
        } else {
            unchanged(old, new)
        },
        Some(v) => exists|r: JsonValue|
            #![trigger expanded(v, r, MAX_EMBEDDED_DEPTH as nat)]
            expanded(v, r, MAX_EMBEDDED_DEPTH as nat) && if find_text(r, EVENT_ID_KEYS@) == Some(
                "wonderfulsdk_ui_show"@,
            ) {
                records_added(old.records@, new.records@, seq![r], HighlightLogLineKind::TlogRequest)
                    && new.gzip_event_count == gzip_after(old.gzip_event_count, seq![r])
                    && only_records_changed(old, new)
            } else {
                unchanged(old, new)
            },
    }
}

pub fn parse_tlog_request_payload(payload: &str, result: &mut HighlightLogParseResult)
    ensures
        tlog_payload_read(payload@, *old(result), *final(result)),
{
    let parsed = match parse_json(payload) {
        Some(v) => v,
        None => {
            if contains_lit(&chars_of(payload), "wonderfulsdk_ui_show") {
                result.bad_line_count = bump_exec(result.bad_line_count);
            }
            return;
        },
    };
    let mut no_hints: Vec<HighlightLogAccountNameHint> = Vec::new();
    let value = expand_value(&parsed, MAX_EMBEDDED_DEPTH, false, &mut no_hints);
    let is_show = match find_string_by_keys(&value, &EVENT_ID_KEYS) {
        Some(id) => literal_eq(&chars_of(id.as_str()), "wonderfulsdk_ui_show"),
        None => false,
    };
    if is_show {
        let mut one: Vec<&JsonValue> = Vec::new();
        one.push(&value);
        assert(derefs(one@) =~= seq![value]);
        push_records(&one, HighlightLogLineKind::TlogRequest, result);
    }
    assert(expanded(parsed, value, MAX_EMBEDDED_DEPTH as nat));
}

/// Whether `payload` mentions a battle list at all.
pub open spec fn mentions_battle_list(payload: Seq<char>) -> bool {
    contains(payload, "battle_list"@) || contains(payload, "battleList"@) || contains(payload, "g_open_id"@)
}

/// What a response line does: a response that mentions a battle list is read with its
/// embedded JSON opened, every account hint in it is kept, and each object of its battle list
/// becomes a record; text that is not JSON is a bad line.
pub open spec fn battle_list_payload_read(payload: Seq<char>, old: HighlightLogParseResult, new: HighlightLogParseResult) -> bool {
    if !mentions_battle_list(payload) {
        unchanged(old, new)
    } else {
        match json_parse(payload) {
            None => one_bad_line(old, new),
            Some(v) => exists|r: JsonValue|
                #![trigger expanded(v, r, MAX_EMBEDDED_DEPTH as nat)]
                expanded(v, r, MAX_EMBEDDED_DEPTH as nat) && hints_view(new.account_name_hints@)
                    == hints_view(old.account_name_hints@) + hints_in(v, MAX_EMBEDDED_DEPTH as nat)
                    && new.round_scores == old.round_scores && new.bad_line_count == old.bad_line_count
                    && new.round_score_conflicts == old.round_score_conflicts && match find_first(
                    r,
                    normalized_keys(BATTLE_LIST_KEYS@),
                    Want::List,
                ) {
                    Some(JsonValue::Array(items)) => records_added(
                        old.records@,
                        new.records@,
                        objects_among(items@),
                        HighlightLogLineKind::BattleListResponse,
                    ) && new.gzip_event_count == gzip_after(old.gzip_event_count, objects_among(items@)),
                    _ => new.records == old.records && new.gzip_event_count == old.gzip_event_count,
                },
        }
    }
}

pub fn parse_battle_list_response_payload(payload: &str, result: &mut HighlightLogParseResult)
    ensures
        battle_list_payload_read(payload@, *old(result), *final(result)),
{
    let p = chars_of(payload);
    if !contains_lit(&p, "battle_list") && !contains_lit(&p, "battleList") && !contains_lit(&p, "g_open_id") {
        return;
    }
    let parsed = match parse_json(payload) {
        Some(v) => v,
        None => {
            result.bad_line_count = bump_exec(result.bad_line_count);
            return;
        },
    };
    let value = expand_value(&parsed, MAX_EMBEDDED_DEPTH, true, &mut result.account_name_hints);
    assert(expanded(parsed, value, MAX_EMBEDDED_DEPTH as nat));
    match find_array_by_keys(&value, &BATTLE_LIST_KEYS) {
        Some(items) => {
            let objects = object_refs(items);
            push_records(&objects, HighlightLogLineKind::BattleListResponse, result);
        },
        None => {},
    }
}

/// The array under the first of an object's own `data` keys that holds one.
pub open spec fn direct_data_array(v: JsonValue) -> Option<Seq<JsonValue>> {
    match direct_child(v, DATA_KEYS@, Want::List) {
        Some(JsonValue::Array(items)) => Some(items@),
        _ => None,
    }
}

/// What a video-list line does: the objects of its document's own `data` array (read with
/// embedded JSON opened) become records; anything else is a bad line.
pub open spec fn video_list_payload_read(payload: Seq<char>, old: HighlightLogParseResult, new: HighlightLogParseResult) -> bool {
    match json_parse(payload) {
        None => one_bad_line(old, new),
        Some(v) => exists|r: JsonValue|
            #![trigger expanded(v, r, MAX_EMBEDDED_DEPTH as nat)]
            expanded(v, r, MAX_EMBEDDED_DEPTH as nat) && match direct_data_array(r) {
                Some(items) => records_added(
                    old.records@,
                    new.records@,
                    objects_among(items),
                    HighlightLogLineKind::VideoListData,
                ) && new.gzip_event_count == gzip_after(old.gzip_event_count, objects_among(items))
                    && only_records_changed(old, new),
                None => one_bad_line(old, new),
            },
    }
}

pub fn parse_video_list_data_payload(payload: &str, result: &mut HighlightLogParseResult)
    ensures
        video_list_payload_read(payload@, *old(result), *final(result)),
{
    let parsed = match parse_json(payload) {
        Some(v) => v,
        None => {
            result.bad_line_count = bump_exec(result.bad_line_count);
            return;
        },
    };
    let mut no_hints: Vec<HighlightLogAccountNameHint> = Vec::new();
    let value = expand_value(&parsed, MAX_EMBEDDED_DEPTH, false, &mut no_hints);
    assert(expanded(parsed, value, MAX_EMBEDDED_DEPTH as nat));
    match direct_child_by_keys(&value, &DATA_KEYS, Want::List) {
        Some(JsonValue::Array(items)) => {
            let objects = object_refs(items);
            push_records(&objects, HighlightLogLineKind::VideoListData, result);
        },
        _ => {
            result.bad_line_count = bump_exec(result.bad_line_count);
        },
    }
}

// ---------------------------------------------------------------------------------------------
// Post-snapshot lines
// ---------------------------------------------------------------------------------------------

pub const CAREER_KEYS: [&'static str; 1] = ["career"];
pub const SNAPSHOT_MATCH_KEYS: [&'static str; 6] = ["matchId", "match_id", "matchesId", "matches_id", "gameId", "game_id"];
pub const SNAPSHOT_KILL_KEYS: [&'static str; 4] = ["killInfos", "kill_infos", "killEvents", "kill_events"];
pub const SNAPSHOT_SOURCE_KEYS: [&'static str; 4] = ["recordSrc", "record_src", "videoSrc", "video_src"];

/// An object whose own `career` entry is an object naming a match holds a match snapshot.
pub open spec fn is_snapshot(v: JsonValue) -> bool {
    match direct_child(v, CAREER_KEYS@, Want::Anything) {
        Some(c) => c is Object && find_text(c, SNAPSHOT_MATCH_KEYS@) is Some,
        None => false,
    }
}

/// The snapshot objects of a document: the outermost objects that hold one, in document order.
pub open spec fn snapshot_sources(v: JsonValue) -> Seq<JsonValue>
    decreases v, 0int,
{
    match v {
        JsonValue::Object(e) => if is_snapshot(v) {
            seq![v]
        } else {
            snapshot_sources_in_entries(e@, 0)
        },
        JsonValue::Array(a) => snapshot_sources_in_items(a@, 0),
        _ => seq![],
    }
}

pub open spec fn snapshot_sources_in_entries(e: Seq<(String, JsonValue)>, i: int) -> Seq<JsonValue>
    decreases e, e.len() - i,
{
    if i < 0 || i >= e.len() {
        seq![]
    } else {
        snapshot_sources(e[i].1) + snapshot_sources_in_entries(e, i + 1)
    }
}

pub open spec fn snapshot_sources_in_items(a: Seq<JsonValue>, i: int) -> Seq<JsonValue>
    decreases a, a.len() - i,
{
    if i < 0 || i >= a.len() {
        seq![]
    } else {
        snapshot_sources(a[i]) + snapshot_sources_in_items(a, i + 1)
    }
}

/// `r` is the compact record of a snapshot object: its career, kill list and video source,
/// copied under `career`, `killInfos` and `recordSrc`.
pub open spec fn compact_of(src: JsonValue, r: JsonValue) -> bool {
    let c = direct_child(src, CAREER_KEYS@, Want::Anything);
    let k = direct_child(src, SNAPSHOT_KILL_KEYS@, Want::Anything);
    let s = direct_child(src, SNAPSHOT_SOURCE_KEYS@, Want::Anything);
    match r {
        JsonValue::Object(f) => {
            let n = 1 + (if k is Some { 1int } else { 0int }) + (if s is Some { 1int } else { 0int });
            &&& c is Some
            &&& f@.len() == n
            &&& f@[0].0@ == "career"@ && expanded(c->0, f@[0].1, 0)
            &&& k is Some ==> f@[1].0@ == "killInfos"@ && expanded(k->0, f@[1].1, 0)
            &&& s is Some ==> f@[n - 1].0@ == "recordSrc"@ && expanded(s->0, f@[n - 1].1, 0)
        },
        _ => false,
    }
}

fn copy_value(v: &JsonValue) -> (res: JsonValue)
    ensures
        expanded(*v, res, 0),
{
    let mut no_hints: Vec<HighlightLogAccountNameHint> = Vec::new();
    expand_value(v, 0, false, &mut no_hints)
}

pub fn compact_post_snapshot_record(v: &JsonValue) -> (res: Option<JsonValue>)
    ensures
        res is Some == is_snapshot(*v),
        res matches Some(r) ==> compact_of(*v, r),
{
    let career = match direct_child_by_keys(v, &CAREER_KEYS, Want::Anything) {
        Some(c) => c,
        None => return None,
    };
    if !career.is_object_exec() {
        return None;
    }
    if find_string_by_keys(career, &SNAPSHOT_MATCH_KEYS).is_none() {
        return None;
    }
    let mut entries: Vec<(String, JsonValue)> = Vec::new();
    entries.push((string_of(&chars_of("career")), copy_value(career)));
    let kills = direct_child_by_keys(v, &SNAPSHOT_KILL_KEYS, Want::Anything);
    if let Some(k) = kills {
        entries.push((string_of(&chars_of("killInfos")), copy_value(k)));
    }
    let source = direct_child_by_keys(v, &SNAPSHOT_SOURCE_KEYS, Want::Anything);
    if let Some(src) = source {
        entries.push((string_of(&chars_of("recordSrc")), copy_value(src)));
    }
    Some(JsonValue::Object(entries))
}

/// `rs` are the compact records of `sources`, one each.
pub open spec fn compacts_of(sources: Seq<JsonValue>, rs: Seq<JsonValue>) -> bool {
    rs.len() == sources.len() && forall|i: int| 0 <= i < sources.len() ==> compact_of(sources[i], #[trigger] rs[i])
}

proof fn lemma_compacts_append(s1: Seq<JsonValue>, r1: Seq<JsonValue>, s2: Seq<JsonValue>, r2: Seq<JsonValue>)
    requires
        compacts_of(s1, r1),
        compacts_of(s2, r2),
    ensures
        compacts_of(s1 + s2, r1 + r2),
{
    assert forall|i: int| 0 <= i < (s1 + s2).len() implies compact_of((s1 + s2)[i], #[trigger] (r1 + r2)[i]) by {
        if i < s1.len() {
            assert(compact_of(s1[i], r1[i]));
        } else {
            assert(compact_of(s2[i - s1.len()], r2[i - s1.len()]));
        }
    }
}

/// Appends the compact records of the snapshot objects of `v` to `out`.
pub fn collect_post_snapshot_records(v: &JsonValue, out: &mut Vec<JsonValue>)
    ensures
        final(out)@.len() >= old(out)@.len(),
        final(out)@.take(old(out)@.len() as int) == old(out)@,
        compacts_of(snapshot_sources(*v), final(out)@.skip(old(out)@.len() as int)),
    decreases v,
{
    let ghost start = out@;
    match v {
        JsonValue::Object(entries) => {
            if let Some(r) = compact_post_snapshot_record(v) {
                out.push(r);
                assert(out@.skip(start.len() as int) =~= seq![r]);
                return;
            }
            let mut i: usize = 0;
            assert(out@.skip(start.len() as int) =~= Seq::<JsonValue>::empty());
            assert(out@.take(start.len() as int) =~= start);
            assert(compacts_of(Seq::<JsonValue>::empty(), out@.skip(start.len() as int)));
            assert(Seq::<JsonValue>::empty() + snapshot_sources_in_entries(entries@, 0) =~= snapshot_sources_in_entries(entries@, 0));
            while i < entries.len()
                invariant
                    i <= entries@.len(),
                    *v == JsonValue::Object(*entries),
                    !is_snapshot(*v),
                    out@.len() >= start.len(),
                    out@.take(start.len() as int) == start,
                    exists|done: Seq<JsonValue>|
                        #![trigger compacts_of(done, out@.skip(start.len() as int))]
                        compacts_of(done, out@.skip(start.len() as int)) && done + snapshot_sources_in_entries(
                            entries@,
                            i as int,
                        ) == snapshot_sources_in_entries(entries@, 0),
                decreases entries.len() - i,
            {
                proof {
                    assert(v->Object_0 == *entries);
                    assert(decreases_to!(*v => v->Object_0));
                    assert(decreases_to!(*v => entries@[i as int].1));
                }
                let ghost before = out@;
                let ghost done = choose|done: Seq<JsonValue>|
                    compacts_of(done, before.skip(start.len() as int)) && done + snapshot_sources_in_entries(
                        entries@,
                        i as int,
                    ) == snapshot_sources_in_entries(entries@, 0);
                collect_post_snapshot_records(&entries[i].1, out);
                proof {
                    let added = out@.skip(before.len() as int);
                    let s_i = snapshot_sources(entries@[i as int].1);
                    lemma_compacts_append(done, before.skip(start.len() as int), s_i, added);
                    assert(out@.skip(start.len() as int) =~= before.skip(start.len() as int) + added);
                    assert(out@.take(start.len() as int) =~= before.take(start.len() as int));
                    assert(snapshot_sources_in_entries(entries@, i as int) == s_i + snapshot_sources_in_entries(entries@, i + 1));
                    assert((done + s_i) + snapshot_sources_in_entries(entries@, i + 1) =~= done + snapshot_sources_in_entries(entries@, i as int));
                    assert(compacts_of(done + s_i, out@.skip(start.len() as int)));
                }
                i = i + 1;
            }
            proof {
                let done = choose|done: Seq<JsonValue>|
                    compacts_of(done, out@.skip(start.len() as int)) && done + snapshot_sources_in_entries(
                        entries@,
                        i as int,
                    ) == snapshot_sources_in_entries(entries@, 0);
                assert(done =~= done + Seq::<JsonValue>::empty());
            }
        },
        JsonValue::Array(items) => {
            let mut i: usize = 0;
            assert(out@.skip(start.len() as int) =~= Seq::<JsonValue>::empty());
            assert(out@.take(start.len() as int) =~= start);
            assert(Seq::<JsonValue>::empty() + snapshot_sources_in_items(items@, 0) =~= snapshot_sources_in_items(items@, 0));
            assert(compacts_of(Seq::<JsonValue>::empty(), out@.skip(start.len() as int)));
            while i < items.len()
                invariant
                    i <= items@.len(),
                    *v == JsonValue::Array(*items),
                    out@.len() >= start.len(),
                    out@.take(start.len() as int) == start,
                    exists|done: Seq<JsonValue>|
                        #![trigger compacts_of(done, out@.skip(start.len() as int))]
                        compacts_of(done, out@.skip(start.len() as int)) && done + snapshot_sources_in_items(
                            items@,
                            i as int,
                        ) == snapshot_sources_in_items(items@, 0),
                decreases items.len() - i,
            {
                proof {
                    assert(v->Array_0 == *items);
                    assert(decreases_to!(*v => v->Array_0));
                    assert(decreases_to!(*v => items@[i as int]));
                }
                let ghost before = out@;
                let ghost done = choose|done: Seq<JsonValue>|
                    compacts_of(done, before.skip(start.len() as int)) && done + snapshot_sources_in_items(
                        items@,
                        i as int,
                    ) == snapshot_sources_in_items(items@, 0);
                collect_post_snapshot_records(&items[i], out);
                proof {
                    let added = out@.skip(before.len() as int);
                    let s_i = snapshot_sources(items@[i as int]);
                    lemma_compacts_append(done, before.skip(start.len() as int), s_i, added);
                    assert(out@.skip(start.len() as int) =~= before.skip(start.len() as int) + added);
                    assert(out@.take(start.len() as int) =~= before.take(start.len() as int));
                    assert(snapshot_sources_in_items(items@, i as int) == s_i + snapshot_sources_in_items(items@, i + 1));
                    assert((done + s_i) + snapshot_sources_in_items(items@, i + 1) =~= done + snapshot_sources_in_items(items@, i as int));
                    assert(compacts_of(done + s_i, out@.skip(start.len() as int)));
                }
                i = i + 1;
            }
            proof {
                let done = choose|done: Seq<JsonValue>|
                    compacts_of(done, out@.skip(start.len() as int)) && done + snapshot_sources_in_items(
                        items@,
                        i as int,
                    ) == snapshot_sources_in_items(items@, 0);
                assert(done =~= done + Seq::<JsonValue>::empty());
            }
        },
        _ => {
            assert(out@.skip(start.len() as int) =~= Seq::<JsonValue>::empty());
            assert(out@.take(start.len() as int) =~= start);
        },
    }
}

/// What a post-snapshot line does: the compact records of the snapshot objects of its document
/// (read with embedded JSON opened) become records; text that is not JSON, or a document
/// without snapshots, is a bad line.
pub open spec fn post_snapshot_payload_read(payload: Seq<char>, old: HighlightLogParseResult, new: HighlightLogParseResult) -> bool {
    match json_parse(payload) {
        None => one_bad_line(old, new),
        Some(v) => exists|r: JsonValue, rs: Seq<JsonValue>|
            #![trigger expanded(v, r, MAX_EMBEDDED_DEPTH as nat), compacts_of(snapshot_sources(r), rs)]
            expanded(v, r, MAX_EMBEDDED_DEPTH as nat) && compacts_of(snapshot_sources(r), rs) && if rs.len()
                == 0 {
                one_bad_line(old, new)
            } else {
                records_added(old.records@, new.records@, rs, HighlightLogLineKind::PostSnapshot)
                    && new.gzip_event_count == gzip_after(old.gzip_event_count, rs)
                    && only_records_changed(old, new)
            },
    }
}

pub fn parse_post_snapshot_payload(payload: &str, result: &mut HighlightLogParseResult)
    ensures
        post_snapshot_payload_read(payload@, *old(result), *final(result)),
{
    let parsed = match parse_json(payload) {
        Some(v) => v,
        None => {
            result.bad_line_count = bump_exec(result.bad_line_count);
            return;
        },
    };
    let value = copy_or_expand(&parsed);
    let mut records: Vec<JsonValue> = Vec::new();
    collect_post_snapshot_records(&value, &mut records);
    assert(records@.skip(0) =~= records@);
    if records.len() == 0 {
        result.bad_line_count = bump_exec(result.bad_line_count);
        return;
    }
    let mut refs: Vec<&JsonValue> = Vec::new();
    let mut i: usize = 0;
    while i < records.len()
        invariant
            i <= records@.len(),
            derefs(refs@) == records@.take(i as int),
        decreases records.len() - i,
    {
        let ghost before = refs@;
        refs.push(&records[i]);
        assert(derefs(refs@) =~= derefs(before).push(records@[i as int]));
        assert(records@.take(i + 1) =~= records@.take(i as int).push(records@[i as int]));
        i = i + 1;
    }
    assert(records@.take(i as int) =~= records@);
    push_records(&refs, HighlightLogLineKind::PostSnapshot, result);
}

fn copy_or_expand(v: &JsonValue) -> (res: JsonValue)
    ensures
        expanded(*v, res, MAX_EMBEDDED_DEPTH as nat),
{
    let mut no_hints: Vec<HighlightLogAccountNameHint> = Vec::new();
    expand_value(v, MAX_EMBEDDED_DEPTH, false, &mut no_hints)
}

// ---------------------------------------------------------------------------------------------
// Log content
// ---------------------------------------------------------------------------------------------

/// The trimmed text after the first `marker` in `line`, when not empty.
pub open spec fn after_marker(line: Seq<char>, marker: Seq<char>) -> Option<Seq<char>> {
    match find(line, marker) {
        None => None,
        Some(i) => {
            let p = trim(line.skip(i + marker.len()));
            if p.len() == 0 {
                None
            } else {
                Some(p)
            }
        },
    }
}

pub fn payload_after_marker(line: &Vec<char>, marker: &str) -> (res: Option<String>)
    ensures
        opt_string(res) == after_marker(line@, marker@),
{
    let m = chars_of(marker);
    match find_at(line, &m, 0) {
        None => None,
        Some(i) => {
            let ml = m.len();
            assert(i + ml <= line.len());
            let rest = crate::text::slice(line, i + ml, line.len());
            assert(rest@ =~= line@.skip(i + m@.len()));
            let p = trim_exec(&rest);
            if p.len() == 0 {
                None
            } else {
                Some(string_of(&p))
            }
        },
    }
}

/// Which reader a trimmed log line goes to, and its payload.
pub enum LinePayload {
    Plain(HighlightLogLineKind, Seq<char>),
    EventParser(Seq<char>),
    PostSnapshot(Seq<char>),
    VideoList(Seq<char>),
    Request(Seq<char>),
    Response(Seq<char>),
    Ignored,
}

/// The first marker found in a trimmed line decides how it is read; empty lines and comments
/// are ignored.
pub open spec fn classify_line(t: Seq<char>) -> LinePayload {
    if t.len() == 0 || t[0] == '#' {
        LinePayload::Ignored
    } else if after_marker(t, "first request data is"@) is Some {
        LinePayload::Plain(HighlightLogLineKind::FirstRequestData, after_marker(t, "first request data is"@)->0)
    } else if after_marker(t, "template param =="@) is Some {
        LinePayload::Plain(HighlightLogLineKind::TemplateParam, after_marker(t, "template param =="@)->0)
    } else if after_marker(t, "now event parser params is:"@) is Some {
        LinePayload::EventParser(after_marker(t, "now event parser params is:"@)->0)
    } else if after_marker(t, "postSnapshot start data"@) is Some {
        LinePayload::PostSnapshot(after_marker(t, "postSnapshot start data"@)->0)
    } else if after_marker(t, "获取视频列表。data:"@) is Some {
        LinePayload::VideoList(after_marker(t, "获取视频列表。data:"@)->0)
    } else if after_marker(t, "REQUEST："@) is Some {
        LinePayload::Request(after_marker(t, "REQUEST："@)->0)
    } else if after_marker(t, "REQUEST:"@) is Some {
        LinePayload::Request(after_marker(t, "REQUEST:"@)->0)
    } else if after_marker(t, "RESPONSE："@) is Some {
        LinePayload::Response(after_marker(t, "RESPONSE："@)->0)
    } else if after_marker(t, "RESPONSE:"@) is Some {
        LinePayload::Response(after_marker(t, "RESPONSE:"@)->0)
    } else {
        LinePayload::Ignored
    }
}

/// What one line does to the result.
#[verifier::opaque]
pub open spec fn line_read(line: Seq<char>, old: HighlightLogParseResult, new: HighlightLogParseResult) -> bool {
    match classify_line(trim(line)) {
        LinePayload::Plain(kind, p) => plain_payload_read(p, kind, old, new),
        LinePayload::EventParser(p) => event_parser_payload_read(p, old, new),
        LinePayload::PostSnapshot(p) => post_snapshot_payload_read(p, old, new),
        LinePayload::VideoList(p) => video_list_payload_read(p, old, new),
        LinePayload::Request(p) => tlog_payload_read(p, old, new),
        LinePayload::Response(p) => battle_list_payload_read(p, old, new),
        LinePayload::Ignored => unchanged(old, new),
    }
}

/// Reads one line into `result`.
pub fn read_line(line: &Vec<char>, result: &mut HighlightLogParseResult)
    ensures
        line_read(line@, *old(result), *final(result)),
{
    reveal(line_read);
    let t = trim_exec(line);
    if t.len() == 0 || t[0] == '#' {
        return;
    }
    if let Some(p) = payload_after_marker(&t, "first request data is") {
        parse_payload(p.as_str(), HighlightLogLineKind::FirstRequestData, result);
        return;
    }
    if let Some(p) = payload_after_marker(&t, "template param ==") {
        parse_payload(p.as_str(), HighlightLogLineKind::TemplateParam, result);
        return;
    }
    if let Some(p) = payload_after_marker(&t, "now event parser params is:") {
        parse_event_parser_payload(p.as_str(), result);
        return;
    }
    if let Some(p) = payload_after_marker(&t, "postSnapshot start data") {
        parse_post_snapshot_payload(p.as_str(), result);
        return;
    }
    if let Some(p) = payload_after_marker(&t, "获取视频列表。data:") {
        parse_video_list_data_payload(p.as_str(), result);
        return;
    }
    if let Some(p) = payload_after_marker(&t, "REQUEST：") {
        parse_tlog_request_payload(p.as_str(), result);
        return;
    }
    if let Some(p) = payload_after_marker(&t, "REQUEST:") {
        parse_tlog_request_payload(p.as_str(), result);
        return;
    }
    if let Some(p) = payload_after_marker(&t, "RESPONSE：") {
        parse_battle_list_response_payload(p.as_str(), result);
        return;
    }
    if let Some(p) = payload_after_marker(&t, "RESPONSE:") {
        parse_battle_list_response_payload(p.as_str(), result);
        return;
    }
}

/// `s` cut at every line feed (the last piece may be empty).
pub open spec fn split_lines(s: Seq<char>) -> Seq<Seq<char>>
    decreases s.len(),
{
    if s.len() == 0 {
        seq![seq![]]
    } else {
        let r = split_lines(s.drop_last());
        if s.last() == '\n' {
            r.push(seq![])
        } else {
            r.update(r.len() - 1, r.last().push(s.last()))
        }
    }
}

proof fn lemma_split_lines_nonempty(s: Seq<char>)
    ensures
        split_lines(s).len() >= 1,
    decreases s.len(),
{
    if s.len() > 0 {
        lemma_split_lines_nonempty(s.drop_last());
    }
}

pub open spec fn is_empty_result(r: HighlightLogParseResult) -> bool {
    &&& r.records@.len() == 0
    &&& r.round_scores@.len() == 0
    &&& r.account_name_hints@.len() == 0
    &&& r.bad_line_count == 0
    &&& r.gzip_event_count == 0
    &&& r.round_score_conflicts@.len() == 0
}

/// `res` is what reading `lines` in order into an empty result, then settling the round
/// scores, gives.
pub open spec fn lines_read(lines: Seq<Seq<char>>, res: HighlightLogParseResult) -> bool {
    exists|states: Seq<HighlightLogParseResult>|
        #![trigger is_empty_result(states[0])]
        states.len() == lines.len() + 1 && is_empty_result(states[0]) && (forall|i: int|
            0 <= i < lines.len() ==> line_read(lines[i], #[trigger] states[i], states[i + 1]))
            && finalized(states.last(), res)
}

/// Cuts `content` at every line feed.
pub fn split_content_lines(content: &str) -> (res: Vec<Vec<char>>)
    ensures
        vecs_of(res@) == split_lines(content@),
{
    let chars = chars_of(content);
    let mut lines: Vec<Vec<char>> = Vec::new();
    let mut current: Vec<char> = Vec::new();
    let mut i: usize = 0;
    while i < chars.len()
        invariant
            i <= chars@.len(),
            chars@ == content@,
            vecs_of(lines@).push(current@) == split_lines(chars@.take(i as int)),
        decreases chars.len() - i,
    {
        assert(chars@.take(i + 1).drop_last() =~= chars@.take(i as int));
        proof {
            lemma_split_lines_nonempty(chars@.take(i as int));
        }
        let c = chars[i];
        if c == '\n' {
            let done = current;
            lines.push(done);
            current = Vec::new();
            assert(vecs_of(lines@).push(current@) =~= split_lines(chars@.take(i as int)).push(seq![]));
        } else {
            let ghost before = current@;
            current.push(c);
            assert(vecs_of(lines@).push(current@) =~= split_lines(chars@.take(i as int)).update(
                vecs_of(lines@).len() as int,
                before.push(c),
            ));
        }
        i = i + 1;
    }
    assert(chars@.take(i as int) =~= content@);
    let ghost before = vecs_of(lines@);
    lines.push(current);
    assert(vecs_of(lines@) =~= before.push(current@));
    lines
}

/// Reads a whole log: each line in turn (see [`line_read`]), then settles the round scores.
pub fn parse_highlight_log_content(content: &str) -> (res: HighlightLogParseResult)
    ensures
        lines_read(split_lines(content@), res),
{
    let lines = split_content_lines(content);
    let ghost all_lines = vecs_of(lines@);
    let mut result = HighlightLogParseResult::new();
    let ghost mut states: Seq<HighlightLogParseResult> = seq![result];
    let mut k: usize = 0;
    while k < lines.len()
        invariant
            k <= lines@.len(),
            all_lines == vecs_of(lines@),
            states.len() == k + 1,
            is_empty_result(states[0]),
            states.last() == result,
            forall|j: int| 0 <= j < k ==> line_read(all_lines[j], #[trigger] states[j], states[j + 1]),
        decreases lines.len() - k,
    {
        read_line(&lines[k], &mut result);
        proof {
            let next = states.push(result);
            assert forall|j: int| 0 <= j < k + 1 implies line_read(all_lines[j], #[trigger] next[j], next[j + 1]) by {
                if j < k {
                    assert(next[j] == states[j]);
                    assert(next[j + 1] == states[j + 1]);
                }
            }
            states = next;
        }
        k = k + 1;
    }
    finalize_round_scores(&mut result);
    assert(all_lines == split_lines(content@));
    assert(states.len() == all_lines.len() + 1 && is_empty_result(states[0]) && (forall|j: int|
        0 <= j < all_lines.len() ==> line_read(all_lines[j], #[trigger] states[j], states[j + 1]))
        && finalized(states.last(), result));
    result
}

// ---------------------------------------------------------------------------------------------
// Several logs
// ---------------------------------------------------------------------------------------------

/// The log files read from a logs directory, in this order.
pub const HIGHLIGHT_LOG_CANDIDATES: [&'static str; 4] = ["highlight.log", "highlight.old.log", "main.log", "main.old.log"];

pub open spec fn kind_name(k: HighlightLogLineKind) -> Seq<char> {
    match k {
        HighlightLogLineKind::FirstRequestData => "FirstRequestData"@,
        HighlightLogLineKind::TemplateParam => "TemplateParam"@,
        HighlightLogLineKind::EventParser => "EventParser"@,
        HighlightLogLineKind::TlogRequest => "TlogRequest"@,
        HighlightLogLineKind::BattleListResponse => "BattleListResponse"@,
        HighlightLogLineKind::VideoListData => "VideoListData"@,
        HighlightLogLineKind::PostSnapshot => "PostSnapshot"@,
    }
}

fn kind_name_exec(k: HighlightLogLineKind) -> (res: &'static str)
    ensures
        res@ == kind_name(k),
{
    match k {
        HighlightLogLineKind::FirstRequestData => "FirstRequestData",
        HighlightLogLineKind::TemplateParam => "TemplateParam",
        HighlightLogLineKind::EventParser => "EventParser",
        HighlightLogLineKind::TlogRequest => "TlogRequest",
        HighlightLogLineKind::BattleListResponse => "BattleListResponse",
        HighlightLogLineKind::VideoListData => "VideoListData",
        HighlightLogLineKind::PostSnapshot => "PostSnapshot",
    }
}

pub open spec fn or_empty(o: Option<Seq<char>>) -> Seq<char> {
    match o {
        Some(t) => t,
        None => seq![],
    }
}

/// Two records from different logs are the same when kind, ids, source and raw JSON agree.
pub open spec fn record_key(r: HighlightLogRecord) -> Seq<char> {
    kind_name(r.line_kind) + "|"@ + or_empty(opt_string(r.match_id)) + "|"@ + or_empty(
        opt_string(r.battle_id),
    ) + "|"@ + or_empty(opt_string(r.record_src)) + "|"@ + r.raw_json@
}

/// Two hints are the same when account and name agree.
pub open spec fn hint_key(h: HighlightLogAccountNameHint) -> Seq<char> {
    h.account_id@ + "|"@ + or_empty(opt_string(h.account_name))
}

fn or_empty_exec(o: &Option<String>) -> (res: Vec<char>)
    ensures
        res@ == or_empty(opt_string(*o)),
{
    match o {
        Some(t) => chars_of(t.as_str()),
        None => Vec::new(),
    }
}

fn record_key_exec(r: &HighlightLogRecord) -> (res: Vec<char>)
    ensures
        res@ == record_key(*r),
{
    let bar = chars_of("|");
    let k = concat(&chars_of(kind_name_exec(r.line_kind)), &bar);
    let k = concat(&concat(&k, &or_empty_exec(&r.match_id)), &bar);
    let k = concat(&concat(&k, &or_empty_exec(&r.battle_id)), &bar);
    let k = concat(&concat(&k, &or_empty_exec(&r.record_src)), &bar);
    concat(&k, &chars_of(r.raw_json.as_str()))
}

fn hint_key_exec(h: &HighlightLogAccountNameHint) -> (res: Vec<char>)
    ensures
        res@ == hint_key(*h),
{
    concat(&concat(&chars_of(h.account_id.as_str()), &chars_of("|")), &or_empty_exec(&h.account_name))
}

/// The items whose key no earlier item has, in order.
pub open spec fn first_by_key<T>(s: Seq<T>, key: spec_fn(T) -> Seq<char>) -> Seq<T>
    decreases s.len(),
{
    if s.len() == 0 {
        seq![]
    } else {
        let r = first_by_key(s.drop_last(), key);
        if exists|j: int| 0 <= j < s.len() - 1 && key(s[j]) == key(s.last()) {
            r
        } else {
            r.push(s.last())
        }
    }
}

fn seen_contains(seen: &Vec<Vec<char>>, k: &Vec<char>) -> (res: bool)
    ensures
        res == vecs_of(seen@).contains(k@),
{
    let mut i: usize = 0;
    while i < seen.len()
        invariant
            i <= seen@.len(),
            forall|j: int| 0 <= j < i ==> seen@[j]@ != k@,
        decreases seen.len() - i,
    {
        if crate::text::seq_eq(&seen[i], k) {
            assert(vecs_of(seen@)[i as int] == k@);
            return true;
        }
        i = i + 1;
    }
    assert forall|j: int| 0 <= j < vecs_of(seen@).len() implies vecs_of(seen@)[j] != k@ by {
        assert(vecs_of(seen@)[j] == seen@[j]@);
    }
    false
}

pub open spec fn records_flat(parsed: Seq<HighlightLogParseResult>) -> Seq<HighlightLogRecord>
    decreases parsed.len(),
{
    if parsed.len() == 0 {
        seq![]
    } else {
        records_flat(parsed.drop_last()) + parsed.last().records@
    }
}

pub open spec fn hints_flat(parsed: Seq<HighlightLogParseResult>) -> Seq<HighlightLogAccountNameHint>
    decreases parsed.len(),
{
    if parsed.len() == 0 {
        seq![]
    } else {
        hints_flat(parsed.drop_last()) + parsed.last().account_name_hints@
    }
}

pub open spec fn scores_flat(parsed: Seq<HighlightLogParseResult>) -> Seq<(Seq<char>, Seq<char>, int, int)>
    decreases parsed.len(),
{
    if parsed.len() == 0 {
        seq![]
    } else {
        scores_flat(parsed.drop_last()) + round_scores_view(parsed.last().round_scores@)
    }
}

pub open spec fn conflicts_flat(parsed: Seq<HighlightLogParseResult>) -> Seq<(Seq<char>, Seq<char>, int)>
    decreases parsed.len(),
{
    if parsed.len() == 0 {
        seq![]
    } else {
        conflicts_flat(parsed.drop_last()) + conflicts_view(parsed.last().round_score_conflicts@)
    }
}

/// Addition that stops at the largest `usize`.
pub open spec fn sat_add(a: usize, b: usize) -> usize {
    if a + b > usize::MAX {
        usize::MAX
    } else {
        (a + b) as usize
    }
}

pub open spec fn bad_total(parsed: Seq<HighlightLogParseResult>) -> usize
    decreases parsed.len(),
{
    if parsed.len() == 0 {
        0
    } else {
        sat_add(bad_total(parsed.drop_last()), parsed.last().bad_line_count)
    }
}

pub open spec fn gzip_records(records: Seq<HighlightLogRecord>) -> usize
    decreases records.len(),
{
    if records.len() == 0 {
        0
    } else {
        let n = gzip_records(records.drop_last());
        if records.last().has_gzip_event {
            bump(n)
        } else {
            n
        }
    }
}

/// `res` is the union of logs read separately: their bad lines added up, hints and records
/// kept once each (first come first kept), gzip events counted over the kept records, and the
/// round scores and disputes of all logs settled together.
pub open spec fn merged_from(parsed: Seq<HighlightLogParseResult>, res: HighlightLogParseResult) -> bool {
    let kept = first_by_key(records_flat(parsed), |r: HighlightLogRecord| record_key(r));
    &&& res.records@ == kept
    &&& res.account_name_hints@ == first_by_key(hints_flat(parsed), |h: HighlightLogAccountNameHint| hint_key(h))
    &&& res.bad_line_count == bad_total(parsed)
    &&& res.gzip_event_count == gzip_records(kept)
    &&& ({
        let resolved = resolve_all(conflicts_flat(parsed), scores_flat(parsed));
        &&& round_scores_view(res.round_scores@) == undisputed(resolved)
        &&& conflicts_view(res.round_score_conflicts@) == disputed(resolved)
    })
}

fn dedupe_records(all: Vec<HighlightLogRecord>) -> (res: Vec<HighlightLogRecord>)
    ensures
        res@ == first_by_key(all@, |r: HighlightLogRecord| record_key(r)),
{
    let ghost orig = all@;
    let n = all.len();
    let mut rest = all;
    let mut out: Vec<HighlightLogRecord> = Vec::new();
    let mut seen: Vec<Vec<char>> = Vec::new();
    let mut i: usize = 0;
    assert(orig.take(0) =~= Seq::<HighlightLogRecord>::empty());
    while i < n
        invariant
            orig.len() == n,
            i <= n,
            rest@ == orig.skip(i as int),
            out@ == first_by_key(orig.take(i as int), |r: HighlightLogRecord| record_key(r)),
            forall|k: Seq<char>| vecs_of(seen@).contains(k) <==> (exists|j: int| 0 <= j < i && record_key(orig[j]) == k),
        decreases n - i,
    {
        let r = rest.remove(0);
        assert(r == orig[i as int]);
        assert(orig.take(i + 1).drop_last() =~= orig.take(i as int));
        assert(orig.take(i + 1).last() == r);
        let k = record_key_exec(&r);
        let dup = seen_contains(&seen, &k);
        proof {
            let pre = orig.take(i + 1);
            assert(dup == (exists|j: int| 0 <= j < pre.len() - 1 && record_key(pre[j]) == record_key(pre.last()))) by {
                if dup {
                    let j = choose|j: int| 0 <= j < i && record_key(orig[j]) == k@;
                    assert(pre[j] == orig[j]);
                }
                if exists|j: int| 0 <= j < pre.len() - 1 && record_key(pre[j]) == record_key(pre.last()) {
                    let j = choose|j: int| 0 <= j < pre.len() - 1 && record_key(pre[j]) == record_key(pre.last());
                    assert(pre[j] == orig[j]);
                    assert(vecs_of(seen@).contains(k@));
                }
            }
        }
        if !dup {
            let ghost before = seen@;
            seen.push(k);
            proof {
                assert forall|kk: Seq<char>| vecs_of(seen@).contains(kk) <==> (exists|j: int| 0 <= j < i + 1 && record_key(orig[j]) == kk) by {
                    if vecs_of(seen@).contains(kk) {
                        let idx = choose|idx: int| 0 <= idx < vecs_of(seen@).len() && vecs_of(seen@)[idx] == kk;
                        if idx < before.len() {
                            assert(vecs_of(before).contains(kk)) by {
                                assert(vecs_of(before)[idx] == kk);
                            }
                            let j = choose|j: int| 0 <= j < i && record_key(orig[j]) == kk;
                            assert(0 <= j < i + 1 && record_key(orig[j]) == kk);
                        } else {
                            assert(record_key(orig[i as int]) == kk);
                        }
                    }
                    if exists|j: int| 0 <= j < i + 1 && record_key(orig[j]) == kk {
                        let j = choose|j: int| 0 <= j < i + 1 && record_key(orig[j]) == kk;
                        if j < i {
                            assert(vecs_of(before).contains(kk));
                            let idx = choose|idx: int| 0 <= idx < vecs_of(before).len() && vecs_of(before)[idx] == kk;
                            assert(vecs_of(seen@)[idx] == kk);
                        } else {
                            assert(vecs_of(seen@)[before.len() as int] == kk);
                        }
                    }
                }
            }
            out.push(r);
        } else {
            proof {
                assert forall|kk: Seq<char>| vecs_of(seen@).contains(kk) <==> (exists|j: int| 0 <= j < i + 1 && record_key(orig[j]) == kk) by {
                    if exists|j: int| 0 <= j < i + 1 && record_key(orig[j]) == kk {
                        let j = choose|j: int| 0 <= j < i + 1 && record_key(orig[j]) == kk;
                        if j == i {
                            assert(vecs_of(seen@).contains(k@));
                        } else {
                            assert(exists|j2: int| 0 <= j2 < i && record_key(orig[j2]) == kk);
                        }
                    }
                }
            }
        }
        assert(rest@ =~= orig.skip(i + 1));
        i = i + 1;
    }
    assert(orig.take(i as int) =~= orig);
    out
}

fn dedupe_hints(all: Vec<HighlightLogAccountNameHint>) -> (res: Vec<HighlightLogAccountNameHint>)
    ensures
        res@ == first_by_key(all@, |r: HighlightLogAccountNameHint| hint_key(r)),
{
    let ghost orig = all@;
    let n = all.len();
    let mut rest = all;
    let mut out: Vec<HighlightLogAccountNameHint> = Vec::new();
    let mut seen: Vec<Vec<char>> = Vec::new();
    let mut i: usize = 0;
    assert(orig.take(0) =~= Seq::<HighlightLogAccountNameHint>::empty());
    while i < n
        invariant
            orig.len() == n,
            i <= n,
            rest@ == orig.skip(i as int),
            out@ == first_by_key(orig.take(i as int), |r: HighlightLogAccountNameHint| hint_key(r)),
            forall|k: Seq<char>| vecs_of(seen@).contains(k) <==> (exists|j: int| 0 <= j < i && hint_key(orig[j]) == k),
        decreases n - i,
    {
        let r = rest.remove(0);
        assert(r == orig[i as int]);
        assert(orig.take(i + 1).drop_last() =~= orig.take(i as int));
        assert(orig.take(i + 1).last() == r);
        let k = hint_key_exec(&r);
        let dup = seen_contains(&seen, &k);
        proof {
            let pre = orig.take(i + 1);
            assert(dup == (exists|j: int| 0 <= j < pre.len() - 1 && hint_key(pre[j]) == hint_key(pre.last()))) by {
                if dup {
                    let j = choose|j: int| 0 <= j < i && hint_key(orig[j]) == k@;
                    assert(pre[j] == orig[j]);
                }
                if exists|j: int| 0 <= j < pre.len() - 1 && hint_key(pre[j]) == hint_key(pre.last()) {
                    let j = choose|j: int| 0 <= j < pre.len() - 1 && hint_key(pre[j]) == hint_key(pre.last());
                    assert(pre[j] == orig[j]);
                    assert(vecs_of(seen@).contains(k@));
                }
            }
        }
        if !dup {
            let ghost before = seen@;
            seen.push(k);
            proof {
                assert forall|kk: Seq<char>| vecs_of(seen@).contains(kk) <==> (exists|j: int| 0 <= j < i + 1 && hint_key(orig[j]) == kk) by {
                    if vecs_of(seen@).contains(kk) {
                        let idx = choose|idx: int| 0 <= idx < vecs_of(seen@).len() && vecs_of(seen@)[idx] == kk;
                        if idx < before.len() {
                            assert(vecs_of(before).contains(kk)) by {
                                assert(vecs_of(before)[idx] == kk);
                            }
                            let j = choose|j: int| 0 <= j < i && hint_key(orig[j]) == kk;
                            assert(0 <= j < i + 1 && hint_key(orig[j]) == kk);
                        } else {
                            assert(hint_key(orig[i as int]) == kk);
                        }
                    }
                    if exists|j: int| 0 <= j < i + 1 && hint_key(orig[j]) == kk {
                        let j = choose|j: int| 0 <= j < i + 1 && hint_key(orig[j]) == kk;
                        if j < i {
                            assert(vecs_of(before).contains(kk));
                            let idx = choose|idx: int| 0 <= idx < vecs_of(before).len() && vecs_of(before)[idx] == kk;
                            assert(vecs_of(seen@)[idx] == kk);
                        } else {
                            assert(vecs_of(seen@)[before.len() as int] == kk);
                        }
                    }
                }
            }
            out.push(r);
        } else {
            proof {
                assert forall|kk: Seq<char>| vecs_of(seen@).contains(kk) <==> (exists|j: int| 0 <= j < i + 1 && hint_key(orig[j]) == kk) by {
                    if exists|j: int| 0 <= j < i + 1 && hint_key(orig[j]) == kk {
                        let j = choose|j: int| 0 <= j < i + 1 && hint_key(orig[j]) == kk;
                        if j == i {
                            assert(vecs_of(seen@).contains(k@));
                        } else {
                            assert(exists|j2: int| 0 <= j2 < i && hint_key(orig[j2]) == kk);
                        }
                    }
                }
            }
        }
        assert(rest@ =~= orig.skip(i + 1));
        i = i + 1;
    }
    assert(orig.take(i as int) =~= orig);
    out
}

/// What `first_by_key` keeps: no two items share a key, every item of `s` has its key among
/// them, and each of them is an item of `s`.
#[verifier::spinoff_prover]
#[verifier::rlimit(40)]
pub proof fn lemma_first_by_key<T>(s: Seq<T>, key: spec_fn(T) -> Seq<char>)
    ensures
        forall|i: int, j: int|
            0 <= i < j < first_by_key(s, key).len() ==> key(#[trigger] first_by_key(s, key)[i]) != key(
                #[trigger] first_by_key(s, key)[j],
            ),
        forall|i: int|
            0 <= i < s.len() ==> exists|k: int|
                0 <= k < first_by_key(s, key).len() && key(#[trigger] first_by_key(s, key)[k]) == key(
                    #[trigger] s[i],
                ),
        forall|k: int| 0 <= k < first_by_key(s, key).len() ==> s.contains(#[trigger] first_by_key(s, key)[k]),
    decreases s.len(),
{
    if s.len() > 0 {
        let p = s.drop_last();
        lemma_first_by_key(p, key);
        let r = first_by_key(p, key);
        let out = first_by_key(s, key);
        if exists|j: int| 0 <= j < s.len() - 1 && key(s[j]) == key(s.last()) {
            assert(out == r);
            let j = choose|j: int| 0 <= j < s.len() - 1 && key(s[j]) == key(s.last());
            assert(p[j] == s[j]);
            assert forall|i: int| 0 <= i < s.len() implies exists|k: int|
                0 <= k < out.len() && key(#[trigger] out[k]) == key(#[trigger] s[i]) by {
                if i < s.len() - 1 {
                    assert(p[i] == s[i]);
                } else {
                    let k = choose|k: int| 0 <= k < r.len() && key(#[trigger] r[k]) == key(#[trigger] p[j]);
                    assert(key(out[k]) == key(s[i]));
                }
            }
            assert forall|k: int| 0 <= k < out.len() implies s.contains(#[trigger] out[k]) by {
                assert(p.contains(r[k]));
                let m = choose|m: int| 0 <= m < p.len() && p[m] == r[k];
                assert(s[m] == r[k]);
            }
        } else {
            assert(out == r.push(s.last()));
            assert forall|k: int| 0 <= k < r.len() implies key(#[trigger] r[k]) != key(s.last()) by {
                assert(p.contains(r[k]));
                let m = choose|m: int| 0 <= m < p.len() && p[m] == r[k];
                assert(s[m] == p[m]);
            }
            assert forall|i: int, j: int| 0 <= i < j < out.len() implies key(#[trigger] out[i]) != key(
                #[trigger] out[j],
            ) by {
                if j == out.len() - 1 {
                    assert(out[i] == r[i]);
                } else {
                    assert(out[i] == r[i] && out[j] == r[j]);
                }
            }
            assert forall|i: int| 0 <= i < s.len() implies exists|k: int|
                0 <= k < out.len() && key(#[trigger] out[k]) == key(#[trigger] s[i]) by {
                if i < s.len() - 1 {
                    assert(p[i] == s[i]);
                    let k = choose|k: int| 0 <= k < r.len() && key(#[trigger] r[k]) == key(#[trigger] p[i]);
                    assert(out[k] == r[k]);
                } else {
                    assert(out[out.len() - 1] == s[i]);
                }
            }
            assert forall|k: int| 0 <= k < out.len() implies s.contains(#[trigger] out[k]) by {
                if k == out.len() - 1 {
                    assert(s[s.len() - 1] == out[k]);
                } else {
                    assert(out[k] == r[k]);
                    assert(p.contains(r[k]));
                    let m = choose|m: int| 0 <= m < p.len() && p[m] == r[k];
                    assert(s[m] == r[k]);
                }
            }
        }
    }
}

/// Reading several logs as one keeps one record per dedupe key: no two kept records share a
/// key, every record read has its key among the kept ones, and each kept record was read. The
/// account-name hints are kept the same way, by account and name.
pub proof fn law_merge_keeps_one_per_key(parsed: Seq<HighlightLogParseResult>, res: HighlightLogParseResult)
    requires
        merged_from(parsed, res),
    ensures
        forall|i: int, j: int|
            0 <= i < j < res.records@.len() ==> record_key(#[trigger] res.records@[i]) != record_key(
                #[trigger] res.records@[j],
            ),
        forall|i: int|
            0 <= i < records_flat(parsed).len() ==> exists|k: int|
                0 <= k < res.records@.len() && record_key(#[trigger] res.records@[k]) == record_key(
                    #[trigger] records_flat(parsed)[i],
                ),
        forall|k: int| 0 <= k < res.records@.len() ==> records_flat(parsed).contains(#[trigger] res.records@[k]),
        forall|i: int, j: int|
            0 <= i < j < res.account_name_hints@.len() ==> hint_key(#[trigger] res.account_name_hints@[i])
                != hint_key(#[trigger] res.account_name_hints@[j]),
        forall|i: int|
            0 <= i < hints_flat(parsed).len() ==> exists|k: int|
                0 <= k < res.account_name_hints@.len() && hint_key(#[trigger] res.account_name_hints@[k])
                    == hint_key(#[trigger] hints_flat(parsed)[i]),
        forall|k: int|
            0 <= k < res.account_name_hints@.len() ==> hints_flat(parsed).contains(
                #[trigger] res.account_name_hints@[k],
            ),
{
    let rk = |r: HighlightLogRecord| record_key(r);
    let hk = |h: HighlightLogAccountNameHint| hint_key(h);
    lemma_first_by_key(records_flat(parsed), rk);
    lemma_first_by_key(hints_flat(parsed), hk);
    assert(res.records@ == first_by_key(records_flat(parsed), rk));
    assert(res.account_name_hints@ == first_by_key(hints_flat(parsed), hk));
}

/// Reads several logs as one (see [`merged_from`]).
pub fn merge_highlight_results(parsed: Vec<HighlightLogParseResult>) -> (res: HighlightLogParseResult)
    ensures
        merged_from(parsed@, res),
{
    let ghost all = parsed@;
    let n = parsed.len();
    let mut rest = parsed;
    let mut records: Vec<HighlightLogRecord> = Vec::new();
    let mut hints: Vec<HighlightLogAccountNameHint> = Vec::new();
    let mut scores: Vec<HighlightLogRoundScore> = Vec::new();
    let mut conflicts: Vec<(String, String, i64)> = Vec::new();
    let mut bad: usize = 0;
    let mut i: usize = 0;
    assert(all.take(0) =~= Seq::<HighlightLogParseResult>::empty());
    assert(records@ =~= records_flat(all.take(0)));
    assert(hints@ =~= hints_flat(all.take(0)));
    assert(round_scores_view(scores@) =~= scores_flat(all.take(0)));
    assert(conflicts_view(conflicts@) =~= conflicts_flat(all.take(0)));
    while i < n
        invariant
            all.len() == n,
            i <= n,
            rest@ == all.skip(i as int),
            records@ == records_flat(all.take(i as int)),
            hints@ == hints_flat(all.take(i as int)),
            round_scores_view(scores@) == scores_flat(all.take(i as int)),
            conflicts_view(conflicts@) == conflicts_flat(all.take(i as int)),
            bad == bad_total(all.take(i as int)),
        decreases n - i,
    {
        let mut p = rest.remove(0);
        assert(p == all[i as int]);
        let ghost pre = all.take(i + 1);
        assert(pre.drop_last() =~= all.take(i as int));
        assert(pre.last() == p);
        bad = if bad > usize::MAX - p.bad_line_count {
            usize::MAX
        } else {
            bad + p.bad_line_count
        };
        let ghost rec_before = records@;
        let ghost p_records = p.records@;
        records.append(&mut p.records);
        assert(records@ =~= rec_before + p_records);
        let ghost hint_before = hints@;
        let ghost p_hints = p.account_name_hints@;
        hints.append(&mut p.account_name_hints);
        assert(hints@ =~= hint_before + p_hints);
        let ghost score_before = scores@;
        let ghost p_scores = p.round_scores@;
        scores.append(&mut p.round_scores);
        assert(scores@ =~= score_before + p_scores);
        assert(round_scores_view(scores@) =~= round_scores_view(score_before) + round_scores_view(p_scores));
        let ghost conflict_before = conflicts@;
        let ghost p_conflicts = p.round_score_conflicts@;
        conflicts.append(&mut p.round_score_conflicts);
        assert(conflicts@ =~= conflict_before + p_conflicts);
        assert(conflicts_view(conflicts@) =~= conflicts_view(conflict_before) + conflicts_view(p_conflicts));
        assert(rest@ =~= all.skip(i + 1));
        i = i + 1;
    }
    assert(all.take(i as int) =~= all);
    let kept = dedupe_records(records);
    let mut gzip: usize = 0;
    let mut k: usize = 0;
    while k < kept.len()
        invariant
            k <= kept@.len(),
            gzip == gzip_records(kept@.take(k as int)),
        decreases kept.len() - k,
    {
        assert(kept@.take(k + 1).drop_last() =~= kept@.take(k as int));
        if kept[k].has_gzip_event {
            gzip = bump_exec(gzip);
        }
        k = k + 1;
    }
    assert(kept@.take(k as int) =~= kept@);
    let mut merged = HighlightLogParseResult {
        records: kept,
        round_scores: scores,
        account_name_hints: dedupe_hints(hints),
        bad_line_count: bad,
        gzip_event_count: gzip,
        round_score_conflicts: conflicts,
    };
    finalize_round_scores(&mut merged);
    merged
}

} // verus!
