//! What the recorder's video export configurations say about a clip: the highlight kind, the
//! `k/d/a`, map, mode, agent and player, read from the strings of the configuration's JSON.
use vstd::prelude::*;

use crate::json::{parse_json_outcome, json_parse_outcome, JsonValue};
use crate::scanner::{utf8_len, utf8_width, char_utf8_width};
use crate::text::{
    concat, find, trim, trim_exec, digit_prefix, digit_prefix_exec, chars_of, contains, contains_exec, find_at, find_from, occurs_at, starts_with, starts_with_exec,
    to_lowercase_str, unicode_lower, opt_chars, opt_string, opt_to_string,
};

verus! {

// ---------------------------------------------------------------------------------------------
// Keyword tables
// ---------------------------------------------------------------------------------------------

pub const TRIPLE_KILL_WORDS: [&'static str; 3] = ["三杀", "3杀", "三连杀"];

pub const QUADRA_KILL_WORDS: [&'static str; 3] = ["四杀", "4杀", "四连杀"];

pub const FIVE_KILL_WORDS: [&'static str; 3] = ["五杀", "5杀", "五连杀"];

pub const SIX_KILL_WORDS: [&'static str; 3] = ["六杀", "6杀", "六连杀"];

pub const DEATH_MOMENT_WORDS: [&'static str; 4] = ["死亡时刻", "死亡集锦", "death moment", "death compilation"];

pub const KILL_COLLECTION_KEYWORDS: [&'static str; 12] = [
    "击杀合集",
    "击杀集锦",
    "击杀剪辑",
    "击杀片段合集",
    "高光合集",
    "精彩击杀合集",
    "kill compilation",
    "kill collection",
    "kill montage",
    "kills montage",
    "highlight compilation",
    "highlight reel",
];

pub const HIGHLIGHT_MARKER_SUFFIXES: [&'static str; 7] = ["时刻", "集锦", "高光", "片段", "剪辑", "回放", "合集"];

// ---------------------------------------------------------------------------------------------
// Case-insensitive keyword tests
// ---------------------------------------------------------------------------------------------

/// `text` contains `needle`, both lowercased.
pub open spec fn contains_ci(text: Seq<char>, needle: Seq<char>) -> bool {
    contains(unicode_lower(text), unicode_lower(needle))
}

pub fn contains_case_insensitive(text: &str, needle: &str) -> (res: bool)
    ensures
        res == contains_ci(text@, needle@),
{
    let t = chars_of(to_lowercase_str(text).as_str());
    let n = chars_of(to_lowercase_str(needle).as_str());
    contains_exec(&t, &n)
}

/// Some needle occurs in `text`, ignoring case.
pub open spec fn contains_any_ci(text: Seq<char>, needles: Seq<&str>) -> bool {
    exists|i: int| 0 <= i < needles.len() && contains_ci(text, (#[trigger] needles[i])@)
}

pub fn contains_any(text: &str, needles: &[&str]) -> (res: bool)
    ensures
        res == contains_any_ci(text@, needles@),
{
    let mut i: usize = 0;
    while i < needles.len()
        invariant
            i <= needles@.len(),
            forall|j: int| 0 <= j < i ==> !contains_ci(text@, (#[trigger] needles@[j])@),
        decreases needles.len() - i,
    {
        if contains_case_insensitive(text, needles[i]) {
            return true;
        }
        i = i + 1;
    }
    false
}

pub open spec fn kill_collection_text(text: Seq<char>) -> bool {
    contains_any_ci(text, KILL_COLLECTION_KEYWORDS@)
}

pub fn is_kill_collection_text(text: &str) -> (res: bool)
    ensures
        res == kill_collection_text(text@),
{
    contains_any(text, &KILL_COLLECTION_KEYWORDS)
}

pub open spec fn death_moment_text(text: Seq<char>) -> bool {
    contains_any_ci(text, DEATH_MOMENT_WORDS@)
}

pub fn is_death_moment_text(text: &str) -> (res: bool)
    ensures
        res == death_moment_text(text@),
{
    contains_any(text, &DEATH_MOMENT_WORDS)
}

// ---------------------------------------------------------------------------------------------
// Highlight markers
// ---------------------------------------------------------------------------------------------

/// `str::is_ascii_punctuation`.
pub open spec fn is_ascii_punct(c: char) -> bool {
    let v = c as u32;
    (0x21 <= v <= 0x2f) || (0x3a <= v <= 0x40) || (0x5b <= v <= 0x60) || (0x7b <= v <= 0x7e)
}

/// Full-width punctuation that may follow a highlight marker.
pub open spec fn is_cjk_punct(c: char) -> bool {
    c == '，' || c == '。' || c == '！' || c == '？' || c == '：' || c == '；' || c == '、' || c == '—'
        || c == '…' || c == '（' || c == '）' || c == '【' || c == '】' || c == '《' || c == '》' || c == '“'
        || c == '”' || c == '‘' || c == '’'
}

/// What follows a marker such as "五杀" lets it stand as a marker: nothing, a highlight word
/// ("集锦", ...), white space or punctuation.
pub open spec fn marker_boundary(rest: Seq<char>) -> bool {
    ||| rest.len() == 0
    ||| exists|i: int| 0 <= i < HIGHLIGHT_MARKER_SUFFIXES@.len() && starts_with(rest, (#[trigger] HIGHLIGHT_MARKER_SUFFIXES@[i])@)
    ||| crate::text::is_ws(rest[0]) || is_ascii_punct(rest[0]) || is_cjk_punct(rest[0])
}

pub fn has_highlight_marker_boundary(rest: &Vec<char>) -> (res: bool)
    ensures
        res == marker_boundary(rest@),
{
    if rest.len() == 0 {
        return true;
    }
    let mut i: usize = 0;
    while i < HIGHLIGHT_MARKER_SUFFIXES.len()
        invariant
            i <= HIGHLIGHT_MARKER_SUFFIXES@.len(),
            forall|j: int| 0 <= j < i ==> !starts_with(rest@, (#[trigger] HIGHLIGHT_MARKER_SUFFIXES@[j])@),
        decreases HIGHLIGHT_MARKER_SUFFIXES.len() - i,
    {
        if starts_with_exec(rest, &chars_of(HIGHLIGHT_MARKER_SUFFIXES[i])) {
            return true;
        }
        i = i + 1;
    }
    let c = rest[0];
    let v = c as u32;
    crate::text::char_is_ws(c) || (0x21 <= v && v <= 0x2f) || (0x3a <= v && v <= 0x40) || (0x5b <= v && v <= 0x60)
        || (0x7b <= v && v <= 0x7e) || c == '，' || c == '。' || c == '！' || c == '？' || c == '：' || c == '；'
        || c == '、' || c == '—' || c == '…' || c == '（' || c == '）' || c == '【' || c == '】' || c == '《'
        || c == '》' || c == '“' || c == '”' || c == '‘' || c == '’'
}

/// Walks the non-overlapping occurrences of `marker` in `text` from `from` on, left to right
/// (as `str::match_indices` does), and tells whether one of them stands as a marker.
pub open spec fn marker_hit_from(text: Seq<char>, marker: Seq<char>, from: int) -> bool
    decreases text.len() - from,
{
    if marker.len() == 0 || from < 0 {
        false
    } else {
        match find_from(text, marker, from) {
            None => false,
            Some(i) => if i < from || i + marker.len() > text.len() {
                false
            } else {
                marker_boundary(text.skip(i + marker.len())) || marker_hit_from(text, marker, i + marker.len())
            },
        }
    }
}

/// Some marker of `markers` occurs in `text` as a marker.
pub open spec fn has_marker(text: Seq<char>, markers: Seq<&str>) -> bool {
    exists|i: int| 0 <= i < markers.len() && marker_hit_from(text, (#[trigger] markers[i])@, 0)
}

fn marker_occurs(text: &Vec<char>, marker: &Vec<char>) -> (res: bool)
    ensures
        res == marker_hit_from(text@, marker@, 0),
{
    if marker.len() == 0 {
        return false;
    }
    let mut from: usize = 0;
    while from <= text.len()
        invariant
            marker@.len() > 0,
            marker_hit_from(text@, marker@, 0) == marker_hit_from(text@, marker@, from as int),
        decreases text.len() + 1 - from,
    {
        match find_at(text, marker, from) {
            None => {
                return false;
            },
            Some(i) => {
                let end = i + marker.len();
                let rest = crate::text::slice(text, end, text.len());
                assert(rest@ =~= text@.skip(end as int));
                if has_highlight_marker_boundary(&rest) {
                    return true;
                }
                from = end;
            },
        }
    }
    false
}

pub fn contains_highlight_marker(text: &str, markers: &[&str]) -> (res: bool)
    ensures
        res == has_marker(text@, markers@),
{
    let t = chars_of(text);
    let mut i: usize = 0;
    while i < markers.len()
        invariant
            i <= markers@.len(),
            t@ == text@,
            forall|j: int| 0 <= j < i ==> !marker_hit_from(text@, (#[trigger] markers@[j])@, 0),
        decreases markers.len() - i,
    {
        if marker_occurs(&t, &chars_of(markers[i])) {
            return true;
        }
        i = i + 1;
    }
    false
}

pub open spec fn five_kill_text(text: Seq<char>) -> bool {
    has_marker(text, FIVE_KILL_WORDS@)
}

pub fn is_five_kill_text(text: &str) -> (res: bool)
    ensures
        res == five_kill_text(text@),
{
    contains_highlight_marker(text, &FIVE_KILL_WORDS)
}

pub open spec fn six_kill_text(text: Seq<char>) -> bool {
    has_marker(text, SIX_KILL_WORDS@)
}

pub fn is_six_kill_text(text: &str) -> (res: bool)
    ensures
        res == six_kill_text(text@),
{
    contains_highlight_marker(text, &SIX_KILL_WORDS)
}


// ---------------------------------------------------------------------------------------------
// Highlight kinds
// ---------------------------------------------------------------------------------------------

/// Whether a configuration could be read and what it yielded.
#[derive(Debug, Clone, PartialEq, Eq, Structural)]
pub enum ParseStatus {
    Parsed,
    Partial,
    Failed,
}

#[derive(Debug, Clone, Copy, PartialEq, Eq, Structural)]
pub enum DetectedVideoType {
    Triple,
    Quad,
    Five,
    Six,
    KillCompilation,
    Death,
}

/// How a recorded event time is positioned in an exported video: compilations store an
/// offset into the whole video, ordinary highlights an offset into their round segment.
#[derive(Debug, Clone, Copy, PartialEq, Eq, Structural)]
pub enum TimelineEventTimeSemantics {
    SegmentRelative,
    VideoAbsolute,
}

impl DetectedVideoType {
    pub open spec fn highlight_type_spec(self) -> int {
        match self {
            DetectedVideoType::KillCompilation => 2,
            DetectedVideoType::Death => 3,
            DetectedVideoType::Triple => 4,
            DetectedVideoType::Quad => 6,
            DetectedVideoType::Five | DetectedVideoType::Six => 10,
        }
    }

    pub fn highlight_type(self) -> (res: i64)
        ensures
            res == self.highlight_type_spec(),
    {
        match self {
            DetectedVideoType::KillCompilation => 2,
            DetectedVideoType::Death => 3,
            DetectedVideoType::Triple => 4,
            DetectedVideoType::Quad => 6,
            DetectedVideoType::Five | DetectedVideoType::Six => 10,
        }
    }

    pub open spec fn kill_count_spec(self) -> Option<int> {
        match self {
            DetectedVideoType::Triple => Some(3),
            DetectedVideoType::Quad => Some(4),
            DetectedVideoType::Five => Some(5),
            DetectedVideoType::Six => Some(6),
            DetectedVideoType::KillCompilation | DetectedVideoType::Death => None,
        }
    }

    pub fn kill_count(self) -> (res: Option<i64>)
        ensures
            match res {
                Some(n) => self.kill_count_spec() == Some(n as int),
                None => self.kill_count_spec() is None,
            },
    {
        match self {
            DetectedVideoType::Triple => Some(3),
            DetectedVideoType::Quad => Some(4),
            DetectedVideoType::Five => Some(5),
            DetectedVideoType::Six => Some(6),
            DetectedVideoType::KillCompilation | DetectedVideoType::Death => None,
        }
    }
}

/// The event-time convention of a recorded video. A positive numeric highlight type decides:
/// kill compilations (2) and deaths (3) store absolute video offsets, every other positive type
/// offsets relative to its round segment. Only without one do the name and type text decide, for
/// older records; anything else stays unclassified.
pub open spec fn timeline_semantics(highlight_type: Option<i64>, text: Seq<char>) -> Option<TimelineEventTimeSemantics> {
    if highlight_type == Some(2i64) || highlight_type == Some(3i64) {
        Some(TimelineEventTimeSemantics::VideoAbsolute)
    } else if highlight_type matches Some(t) && t > 0 {
        Some(TimelineEventTimeSemantics::SegmentRelative)
    } else if kill_collection_text(text) || death_moment_text(text) {
        Some(TimelineEventTimeSemantics::VideoAbsolute)
    } else if contains_any_ci(text, TRIPLE_KILL_WORDS@) || contains_any_ci(text, QUADRA_KILL_WORDS@)
        || five_kill_text(text) || six_kill_text(text) {
        Some(TimelineEventTimeSemantics::SegmentRelative)
    } else {
        None
    }
}

/// Classifies the event-time convention of a video record; a positive numeric highlight type is
/// authoritative, and the name and type text only classify records without one.
pub fn classify_timeline_event_time(highlight_type: Option<i64>, video_name: &str, video_type: &str) -> (res: Option<
    TimelineEventTimeSemantics,
>)
    ensures
        res == timeline_semantics(highlight_type, video_name@ + " "@ + video_type@),
{
    match highlight_type {
        Some(t) => {
            if t > 0 {
                if t == 2 || t == 3 {
                    return Some(TimelineEventTimeSemantics::VideoAbsolute);
                }
                return Some(TimelineEventTimeSemantics::SegmentRelative);
            }
        },
        None => {},
    }
    let joined = concat(&concat(&chars_of(video_name), &chars_of(" ")), &chars_of(video_type));
    let text = crate::text::string_of(joined.as_slice());
    if is_kill_collection_text(text.as_str()) || is_death_moment_text(text.as_str()) {
        return Some(TimelineEventTimeSemantics::VideoAbsolute);
    }
    if contains_any(text.as_str(), &TRIPLE_KILL_WORDS) || contains_any(text.as_str(), &QUADRA_KILL_WORDS)
        || is_five_kill_text(text.as_str()) || is_six_kill_text(text.as_str()) {
        return Some(TimelineEventTimeSemantics::SegmentRelative);
    }
    None
}

/// What a video export configuration says about its clip.
pub struct VideoExportConfigMetadata {
    pub json_path: String,
    pub extracted_text: String,
    pub parse_status: ParseStatus,
    pub is_mvp: bool,
    pub is_triple_kill: bool,
    pub is_quadra_kill: bool,
    pub is_ace: bool,
    pub kda: Option<String>,
    pub map_name: Option<String>,
    pub game_mode: Option<String>,
    pub agent_name: Option<String>,
    pub player_name: Option<String>,
    pub parse_error: Option<String>,
}

/// The highlight kind that a configuration's text and flags name, most specific first.
pub open spec fn detected_type(text: Seq<char>, is_ace: bool, is_quadra_kill: bool, is_triple_kill: bool) -> Option<DetectedVideoType> {
    if death_moment_text(text) {
        Some(DetectedVideoType::Death)
    } else if kill_collection_text(text) {
        Some(DetectedVideoType::KillCompilation)
    } else if six_kill_text(text) {
        Some(DetectedVideoType::Six)
    } else if five_kill_text(text) || is_ace {
        Some(DetectedVideoType::Five)
    } else if is_quadra_kill {
        Some(DetectedVideoType::Quad)
    } else if is_triple_kill {
        Some(DetectedVideoType::Triple)
    } else {
        None
    }
}

/// The detected kind never names fewer kills than the text and flags establish, and names
/// exactly that many when nothing larger applies: a death or kill-collection text decides
/// first; otherwise six kills in the text give six, five kills or an ace give five, a quadra
/// kill four and a triple kill three, and with none of these nothing is detected.
pub proof fn law_detected_type_counts_the_kills(
    text: Seq<char>,
    is_ace: bool,
    is_quadra_kill: bool,
    is_triple_kill: bool,
)
    ensures
        death_moment_text(text) ==> detected_type(text, is_ace, is_quadra_kill, is_triple_kill)
            == Some(DetectedVideoType::Death),
        !death_moment_text(text) && kill_collection_text(text) ==> detected_type(
            text,
            is_ace,
            is_quadra_kill,
            is_triple_kill,
        ) == Some(DetectedVideoType::KillCompilation),
        ({
            let t = detected_type(text, is_ace, is_quadra_kill, is_triple_kill);
            !death_moment_text(text) && !kill_collection_text(text) ==> {
                &&& (six_kill_text(text) ==> t.unwrap().kill_count_spec() == Some(6int))
                &&& (five_kill_text(text) || is_ace ==> t.unwrap().kill_count_spec()->0 >= 5)
                &&& (is_quadra_kill ==> t.unwrap().kill_count_spec()->0 >= 4)
                &&& (is_triple_kill ==> t.unwrap().kill_count_spec()->0 >= 3)
                &&& (!six_kill_text(text) && (five_kill_text(text) || is_ace)
                    ==> t.unwrap().kill_count_spec() == Some(5int))
                &&& (!six_kill_text(text) && !five_kill_text(text) && !is_ace && is_quadra_kill
                    ==> t.unwrap().kill_count_spec() == Some(4int))
                &&& (!six_kill_text(text) && !five_kill_text(text) && !is_ace && !is_quadra_kill
                    && is_triple_kill ==> t.unwrap().kill_count_spec() == Some(3int))
                &&& (!six_kill_text(text) && !five_kill_text(text) && !is_ace && !is_quadra_kill
                    && !is_triple_kill ==> t is None)
                &&& (t is Some ==> t.unwrap().kill_count_spec() is Some)
            }
        }),
{
}


impl VideoExportConfigMetadata {
    pub fn detected_video_type(&self) -> (res: Option<DetectedVideoType>)
        ensures
            res == detected_type(self.extracted_text@, self.is_ace, self.is_quadra_kill, self.is_triple_kill),
    {
        let text = self.extracted_text.as_str();
        if is_death_moment_text(text) {
            return Some(DetectedVideoType::Death);
        }
        if is_kill_collection_text(text) {
            return Some(DetectedVideoType::KillCompilation);
        }
        if is_six_kill_text(text) {
            return Some(DetectedVideoType::Six);
        }
        if is_five_kill_text(text) || self.is_ace {
            return Some(DetectedVideoType::Five);
        }
        if self.is_quadra_kill {
            return Some(DetectedVideoType::Quad);
        }
        if self.is_triple_kill {
            return Some(DetectedVideoType::Triple);
        }
        None
    }
}

// ---------------------------------------------------------------------------------------------
// k/d/a in free text
// ---------------------------------------------------------------------------------------------

proof fn lemma_digit_prefix_len(s: Seq<char>)
    ensures
        digit_prefix(s).len() <= s.len(),
    decreases s.len(),
{
    if s.len() > 0 && crate::text::is_digit(s[0]) {
        lemma_digit_prefix_len(s.drop_first());
    }
}

/// The `k/d/a` that starts at `i`: three runs of ASCII digits joined by slashes.
pub open spec fn kda_at(s: Seq<char>, i: int) -> Option<Seq<char>> {
    let k = digit_prefix(s.skip(i));
    let j = i + k.len();
    let d = digit_prefix(s.skip(j + 1));
    let l = j + 1 + d.len();
    let a = digit_prefix(s.skip(l + 1));
    if k.len() == 0 || j >= s.len() || s[j] != '/' || d.len() == 0 || l >= s.len() || s[l] != '/' || a.len() == 0 {
        None
    } else {
        Some(k + "/"@ + d + "/"@ + a)
    }
}

/// The first `k/d/a` in `s` at or after `i`.
pub open spec fn kda_from(s: Seq<char>, i: int) -> Option<Seq<char>>
    decreases s.len() - i,
{
    if i < 0 || i >= s.len() {
        None
    } else {
        match kda_at(s, i) {
            Some(k) => Some(k),
            None => kda_from(s, i + 1),
        }
    }
}

fn kda_at_exec(s: &Vec<char>, i: usize) -> (res: Option<Vec<char>>)
    requires
        i < s@.len(),
    ensures
        opt_chars(res) == kda_at(s@, i as int),
{
    let n = s.len();
    let k = digit_prefix_exec(s, i);
    proof {
        lemma_digit_prefix_len(s@.skip(i as int));
        assert(s@.skip(i as int).len() == s@.len() - i);
    }
    if k.len() == 0 {
        return None;
    }
    let j = i + k.len();
    if j >= s.len() || s[j] != '/' {
        return None;
    }
    let d = digit_prefix_exec(s, j + 1);
    proof {
        lemma_digit_prefix_len(s@.skip(j + 1));
        assert(s@.skip(j + 1).len() == s@.len() - (j + 1));
    }
    if d.len() == 0 {
        return None;
    }
    let l = j + 1 + d.len();
    if l >= s.len() || s[l] != '/' {
        return None;
    }
    let a = digit_prefix_exec(s, l + 1);
    if a.len() == 0 {
        return None;
    }
    let slash = chars_of("/");
    Some(concat(&concat(&concat(&concat(&k, &slash), &d), &slash), &a))
}

pub fn find_kda(text: &str) -> (res: Option<String>)
    ensures
        opt_string(res) == kda_from(text@, 0),
{
    let s = chars_of(text);
    let mut i: usize = 0;
    while i < s.len()
        invariant
            s@ == text@,
            i <= s@.len(),
            kda_from(s@, 0) == kda_from(s@, i as int),
        decreases s.len() - i,
    {
        match kda_at_exec(&s, i) {
            Some(k) => {
                return Some(crate::text::string_of(k.as_slice()));
            },
            None => {},
        }
        i = i + 1;
    }
    None
}


// ---------------------------------------------------------------------------------------------
// Byte offsets
// ---------------------------------------------------------------------------------------------

/// The character index from `k` on at which the UTF-8 form of `s` reaches byte `b`: where a
/// byte offset `b` falls on a character boundary of `s`.
pub open spec fn boundary_from(s: Seq<char>, b: int, k: int) -> Option<int>
    decreases s.len() - k,
{
    if k < 0 || k > s.len() {
        None
    } else if utf8_len(s.take(k)) == b {
        Some(k)
    } else if k == s.len() {
        None
    } else {
        boundary_from(s, b, k + 1)
    }
}

pub open spec fn char_boundary(s: Seq<char>, b: int) -> Option<int> {
    boundary_from(s, b, 0)
}

proof fn lemma_boundary_from_range(s: Seq<char>, b: int, k: int)
    requires
        0 <= k,
    ensures
        boundary_from(s, b, k) matches Some(j) ==> k <= j <= s.len() && utf8_len(s.take(j)) == b,
    decreases s.len() - k,
{
    if k < s.len() && utf8_len(s.take(k)) != b {
        lemma_boundary_from_range(s, b, k + 1);
    }
}

/// The number of UTF-8 bytes of the first `k` characters of `s`.
pub(crate) fn utf8_prefix_bytes(s: &Vec<char>, k: usize) -> (res: u128)
    requires
        k <= s@.len(),
    ensures
        res == utf8_len(s@.take(k as int)),
{
    let mut acc: u128 = 0;
    let mut i: usize = 0;
    assert(s@.take(0) =~= Seq::<char>::empty());
    while i < k
        invariant
            i <= k <= s@.len(),
            acc == utf8_len(s@.take(i as int)),
            acc <= 4 * i,
        decreases k - i,
    {
        proof {
            crate::scanner::lemma_utf8_len_bounds(s@.take(i as int));
        }
        let w = char_utf8_width(s[i]);
        assert(s@.take(i + 1).drop_last() =~= s@.take(i as int));
        acc = acc + w as u128;
        i = i + 1;
    }
    acc
}

/// The character index of `s` at byte offset `b`, if that is a character boundary.
fn char_index_at_byte(s: &Vec<char>, b: u128) -> (res: Option<usize>)
    ensures
        match res {
            Some(k) => char_boundary(s@, b as int) == Some(k as int),
            None => char_boundary(s@, b as int) is None,
        },
{
    let mut acc: u128 = 0;
    let mut k: usize = 0;
    assert(s@.take(0) =~= Seq::<char>::empty());
    while k < s.len()
        invariant
            k <= s@.len(),
            acc == utf8_len(s@.take(k as int)),
            acc <= 4 * k,
            char_boundary(s@, b as int) == boundary_from(s@, b as int, k as int),
        decreases s.len() - k,
    {
        if acc == b {
            return Some(k);
        }
        let w = char_utf8_width(s[k]);
        assert(s@.take(k + 1).drop_last() =~= s@.take(k as int));
        acc = acc + w as u128;
        k = k + 1;
    }
    if acc == b {
        Some(k)
    } else {
        None
    }
}

// ---------------------------------------------------------------------------------------------
// Labelled values
// ---------------------------------------------------------------------------------------------

/// Characters that may stand between a label and its value.
pub open spec fn is_label_gap(c: char) -> bool {
    crate::text::is_ws(c) || c == ':' || c == '：' || c == '=' || c == '-' || c == '_' || c == ' ' || c == '、'
}

/// Characters that end a labelled value.
pub open spec fn is_value_end(c: char) -> bool {
    c == ',' || c == '，' || c == ';' || c == '；' || c == '|' || c == '\n' || c == '\r' || c == '\t'
}

/// Characters before which a further label may start.
pub open spec fn is_label_boundary(c: char) -> bool {
    crate::text::is_ws(c) || c == ',' || c == '，' || c == ';' || c == '；' || c == '|' || c == ':' || c == '：' || c == '='
}

fn label_gap(c: char) -> (res: bool)
    ensures
        res == is_label_gap(c),
{
    crate::text::char_is_ws(c) || c == ':' || c == '：' || c == '=' || c == '-' || c == '_' || c == ' ' || c == '、'
}

fn value_end(c: char) -> (res: bool)
    ensures
        res == is_value_end(c),
{
    c == ',' || c == '，' || c == ';' || c == '；' || c == '|' || c == '\n' || c == '\r' || c == '\t'
}

fn label_boundary(c: char) -> (res: bool)
    ensures
        res == is_label_boundary(c),
{
    crate::text::char_is_ws(c) || c == ',' || c == '，' || c == ';' || c == '；' || c == '|' || c == ':' || c == '：'
        || c == '='
}

/// `s` without its leading label gap.
pub open spec fn skip_gap(s: Seq<char>) -> Seq<char>
    decreases s.len(),
{
    if s.len() > 0 && is_label_gap(s[0]) {
        skip_gap(s.drop_first())
    } else {
        s
    }
}

/// `s` up to its first value end.
pub open spec fn before_value_end(s: Seq<char>, i: int) -> Seq<char>
    decreases s.len() - i,
{
    if i < 0 || i >= s.len() {
        s
    } else if is_value_end(s[i]) {
        s.take(i)
    } else {
        before_value_end(s, i + 1)
    }
}

pub const SECONDARY_LABELS: [&'static str; 18] = [
    "地图名",
    "地图名称",
    "地图",
    "模式名",
    "模式名称",
    "游戏模式",
    "对局模式",
    "模式",
    "玩家昵称",
    "玩家名",
    "玩家名称",
    "昵称",
    "map name",
    "game mode",
    "player name",
    "map",
    "mode",
    "player",
];

/// The byte offset `b` is a boundary of `value` just after a label boundary character.
pub open spec fn label_starts_at(value: Seq<char>, b: int) -> bool {
    match char_boundary(value, b) {
        Some(k) => k > 0 && is_label_boundary(value[k - 1]),
        None => false,
    }
}

/// Walks the occurrences of the lowercased label `ll` in the lowercased value `lv` from `from`
/// on, and gives the character index in `value` of the first one that starts a further label
/// (after the first character and behind a boundary character).
pub open spec fn secondary_from(value: Seq<char>, lv: Seq<char>, ll: Seq<char>, from: int) -> Option<int>
    decreases lv.len() - from,
{
    if ll.len() == 0 || from < 0 {
        None
    } else {
        match find_from(lv, ll, from) {
            None => None,
            Some(p) => if p < from || p + ll.len() > lv.len() {
                None
            } else {
                let b = utf8_len(lv.take(p));
                if b > 0 && label_starts_at(value, b as int) {
                    char_boundary(value, b as int)
                } else {
                    secondary_from(value, lv, ll, p + ll.len())
                }
            },
        }
    }
}

pub open spec fn secondary_label_at(value: Seq<char>, label: Seq<char>) -> Option<int> {
    secondary_from(value, unicode_lower(value), unicode_lower(label), 0)
}

/// Cuts `c` before each further label of `SECONDARY_LABELS` from the `i`-th on.
pub open spec fn cut_secondary(c: Seq<char>, i: int) -> Seq<char>
    decreases SECONDARY_LABELS@.len() - i,
{
    if i < 0 || i >= SECONDARY_LABELS@.len() {
        c
    } else {
        let next = match secondary_label_at(c, SECONDARY_LABELS@[i]@) {
            Some(k) => trim(c.take(k)),
            None => c,
        };
        cut_secondary(next, i + 1)
    }
}

/// The value that follows a label: its leading gap skipped, cut at the first value end,
/// trimmed, and cut before any further label.
pub open spec fn cleaned_value(value: Seq<char>) -> Seq<char> {
    cut_secondary(trim(before_value_end(skip_gap(value), 0)), 0)
}


pub open spec fn opt_index(o: Option<usize>) -> Option<int> {
    match o {
        Some(k) => Some(k as int),
        None => None,
    }
}

fn lower_chars(v: &Vec<char>) -> (res: Vec<char>)
    ensures
        res@ == unicode_lower(v@),
{
    chars_of(to_lowercase_str(crate::text::string_of(v.as_slice()).as_str()).as_str())
}

fn secondary_label_index(value: &Vec<char>, label: &str) -> (res: Option<usize>)
    ensures
        opt_index(res) == secondary_label_at(value@, label@),
        res matches Some(k) ==> k <= value@.len(),
{
    let lv = lower_chars(value);
    let ll = chars_of(to_lowercase_str(label).as_str());
    if ll.len() == 0 {
        return None;
    }
    let mut from: usize = 0;
    while from <= lv.len()
        invariant
            ll@.len() > 0,
            lv@ == unicode_lower(value@),
            ll@ == unicode_lower(label@),
            secondary_label_at(value@, label@) == secondary_from(value@, lv@, ll@, from as int),
        decreases lv.len() + 1 - from,
    {
        match find_at(&lv, &ll, from) {
            None => {
                return None;
            },
            Some(p) => {
                let end = p + ll.len();
                let b = utf8_prefix_bytes(&lv, p);
                if b > 0 {
                    match char_index_at_byte(value, b) {
                        Some(k) => {
                            proof {
                                lemma_boundary_from_range(value@, b as int, 0);
                            }
                            if k > 0 && label_boundary(value[k - 1]) {
                                return Some(k);
                            }
                        },
                        None => {},
                    }
                }
                from = end;
            },
        }
    }
    None
}

fn skip_gap_exec(v: &Vec<char>) -> (res: Vec<char>)
    ensures
        res@ == skip_gap(v@),
{
    let mut i: usize = 0;
    assert(v@.skip(0) =~= v@);
    while i < v.len() && label_gap(v[i])
        invariant
            i <= v@.len(),
            skip_gap(v@) == skip_gap(v@.skip(i as int)),
        decreases v.len() - i,
    {
        assert(v@.skip(i as int).drop_first() =~= v@.skip(i + 1));
        i = i + 1;
    }
    assert(v@.skip(i as int) =~= v@.subrange(i as int, v@.len() as int));
    crate::text::slice(v, i, v.len())
}

fn before_value_end_exec(v: &Vec<char>) -> (res: Vec<char>)
    ensures
        res@ == before_value_end(v@, 0),
{
    let mut i: usize = 0;
    while i < v.len()
        invariant
            i <= v@.len(),
            before_value_end(v@, 0) == before_value_end(v@, i as int),
        decreases v.len() - i,
    {
        if value_end(v[i]) {
            return crate::text::slice(v, 0, i);
        }
        i = i + 1;
    }
    crate::text::slice(v, 0, v.len())
}

pub fn clean_labeled_value(value: &str) -> (res: String)
    ensures
        res@ == cleaned_value(value@),
{
    let v = chars_of(value);
    let mut c = trim_exec(&before_value_end_exec(&skip_gap_exec(&v)));
    let mut i: usize = 0;
    while i < SECONDARY_LABELS.len()
        invariant
            i <= SECONDARY_LABELS@.len(),
            cleaned_value(value@) == cut_secondary(c@, i as int),
        decreases SECONDARY_LABELS.len() - i,
    {
        match secondary_label_index(&c, SECONDARY_LABELS[i]) {
            Some(k) => {
                c = trim_exec(&crate::text::slice(&c, 0, k));
            },
            None => {},
        }
        i = i + 1;
    }
    crate::text::string_of(c.as_slice())
}


/// The cleaned value that follows the first occurrence of `label` in `value`, both lowercased;
/// `None` when the label is missing, the value is empty, or the label's end does not fall on a
/// character boundary of `value`.
pub open spec fn after_label(value: Seq<char>, label: Seq<char>) -> Option<Seq<char>> {
    let lv = unicode_lower(value);
    let ll = unicode_lower(label);
    match find(lv, ll) {
        None => None,
        Some(p) => match char_boundary(value, utf8_len(lv.take(p + ll.len())) as int) {
            None => None,
            Some(k) => {
                let c = cleaned_value(value.skip(k));
                if c.len() == 0 {
                    None
                } else {
                    Some(c)
                }
            },
        },
    }
}

pub fn value_after_label(value: &str, label: &str) -> (res: Option<String>)
    ensures
        opt_string(res) == after_label(value@, label@),
{
    let v = chars_of(value);
    let lv = lower_chars(&v);
    let ll = chars_of(to_lowercase_str(label).as_str());
    let p = match find_at(&lv, &ll, 0) {
        Some(p) => p,
        None => {
            return None;
        },
    };
    let n = lv.len();
    let b = utf8_prefix_bytes(&lv, p + ll.len());
    let k = match char_index_at_byte(&v, b) {
        Some(k) => k,
        None => {
            return None;
        },
    };
    proof {
        lemma_boundary_from_range(v@, b as int, 0);
    }
    let rest = crate::text::slice(&v, k, v.len());
    assert(rest@ =~= value@.skip(k as int));
    let c = clean_labeled_value(crate::text::string_of(rest.as_slice()).as_str());
    if chars_of(c.as_str()).len() == 0 {
        None
    } else {
        Some(c)
    }
}

/// The value after the first label of `labels` found in the first string that has one.
pub open spec fn labeled_from(strings: Seq<Seq<char>>, labels: Seq<&str>, i: int, j: int) -> Option<Seq<char>>
    decreases strings.len() - i, labels.len() - j,
{
    if i < 0 || i >= strings.len() || j < 0 {
        None
    } else if j >= labels.len() {
        labeled_from(strings, labels, i + 1, 0)
    } else {
        match after_label(strings[i], labels[j]@) {
            Some(v) => Some(v),
            None => labeled_from(strings, labels, i, j + 1),
        }
    }
}

pub open spec fn strings_view(v: Seq<String>) -> Seq<Seq<char>> {
    v.map_values(|s: String| s@)
}

pub fn find_labeled_value(strings: &Vec<String>, labels: &[&str]) -> (res: Option<String>)
    ensures
        opt_string(res) == labeled_from(strings_view(strings@), labels@, 0, 0),
{
    let ghost sv = strings_view(strings@);
    let mut i: usize = 0;
    while i < strings.len()
        invariant
            i <= strings@.len(),
            sv == strings_view(strings@),
            labeled_from(sv, labels@, 0, 0) == labeled_from(sv, labels@, i as int, 0),
        decreases strings.len() - i,
    {
        let mut j: usize = 0;
        while j < labels.len()
            invariant
                i < strings@.len(),
                j <= labels@.len(),
                sv == strings_view(strings@),
                labeled_from(sv, labels@, 0, 0) == labeled_from(sv, labels@, i as int, j as int),
            decreases labels.len() - j,
        {
            match value_after_label(strings[i].as_str(), labels[j]) {
                Some(v) => {
                    return Some(v);
                },
                None => {},
            }
            j = j + 1;
        }
        i = i + 1;
    }
    None
}

/// The first known value that some string contains, ignoring case, taking the strings in
/// order and, for each, the known values in order.
pub open spec fn known_from(strings: Seq<Seq<char>>, known: Seq<&str>, i: int, j: int) -> Option<Seq<char>>
    decreases strings.len() - i, known.len() - j,
{
    if i < 0 || i >= strings.len() || j < 0 {
        None
    } else if j >= known.len() {
        known_from(strings, known, i + 1, 0)
    } else if contains_ci(strings[i], known[j]@) {
        Some(known[j]@)
    } else {
        known_from(strings, known, i, j + 1)
    }
}

pub fn find_known_value(strings: &Vec<String>, known: &[&str]) -> (res: Option<String>)
    ensures
        opt_string(res) == known_from(strings_view(strings@), known@, 0, 0),
{
    let ghost sv = strings_view(strings@);
    let mut i: usize = 0;
    while i < strings.len()
        invariant
            i <= strings@.len(),
            sv == strings_view(strings@),
            known_from(sv, known@, 0, 0) == known_from(sv, known@, i as int, 0),
        decreases strings.len() - i,
    {
        let mut j: usize = 0;
        while j < known.len()
            invariant
                i < strings@.len(),
                j <= known@.len(),
                sv == strings_view(strings@),
                known_from(sv, known@, 0, 0) == known_from(sv, known@, i as int, j as int),
            decreases known.len() - j,
        {
            if contains_case_insensitive(strings[i].as_str(), known[j]) {
                return Some(crate::text::string_of(chars_of(known[j]).as_slice()));
            }
            j = j + 1;
        }
        i = i + 1;
    }
    None
}


// ---------------------------------------------------------------------------------------------
// Riot ids in free text
// ---------------------------------------------------------------------------------------------

/// Characters that separate the words in which a riot id is looked for.
pub open spec fn is_riot_sep(c: char) -> bool {
    crate::text::is_ws(c) || c == ',' || c == '，' || c == ';' || c == '；' || c == '|' || c == '"' || c == '\''
        || c == '(' || c == ')' || c == '[' || c == ']' || c == '{' || c == '}'
}

fn riot_sep(c: char) -> (res: bool)
    ensures
        res == is_riot_sep(c),
{
    crate::text::char_is_ws(c) || c == ',' || c == '，' || c == ';' || c == '；' || c == '|' || c == '"' || c == '\''
        || c == '(' || c == ')' || c == '[' || c == ']' || c == '{' || c == '}'
}

/// `s` cut at every separator (`str::split` with a predicate: empty words included).
pub open spec fn riot_words(s: Seq<char>) -> Seq<Seq<char>>
    decreases s.len(),
{
    if s.len() == 0 {
        seq![seq![]]
    } else {
        let r = riot_words(s.drop_last());
        if is_riot_sep(s.last()) {
            r.push(seq![])
        } else {
            r.update(r.len() - 1, r.last().push(s.last()))
        }
    }
}

proof fn lemma_riot_words_nonempty(s: Seq<char>)
    ensures
        riot_words(s).len() >= 1,
    decreases s.len(),
{
    if s.len() > 0 {
        lemma_riot_words_nonempty(s.drop_last());
    }
}

fn riot_words_exec(v: &Vec<char>) -> (res: Vec<Vec<char>>)
    ensures
        res@.map_values(|x: Vec<char>| x@) == riot_words(v@),
{
    let mut parts: Vec<Vec<char>> = Vec::new();
    let mut current: Vec<char> = Vec::new();
    let mut i: usize = 0;
    while i < v.len()
        invariant
            i <= v@.len(),
            parts@.map_values(|x: Vec<char>| x@).push(current@) == riot_words(v@.take(i as int)),
        decreases v.len() - i,
    {
        assert(v@.take(i + 1).drop_last() =~= v@.take(i as int));
        proof {
            lemma_riot_words_nonempty(v@.take(i as int));
        }
        let x = v[i];
        if riot_sep(x) {
            let done = current;
            parts.push(done);
            current = Vec::new();
            assert(parts@.map_values(|x: Vec<char>| x@).push(current@) =~= riot_words(v@.take(i as int)).push(seq![]));
        } else {
            let ghost before = current@;
            current.push(x);
            assert(parts@.map_values(|x: Vec<char>| x@).push(current@) =~= riot_words(v@.take(i as int)).update(
                parts@.len() as int,
                before.push(x),
            ));
        }
        i = i + 1;
    }
    assert(v@.take(i as int) =~= v@);
    let ghost before = parts@.map_values(|x: Vec<char>| x@);
    parts.push(current);
    assert(parts@.map_values(|x: Vec<char>| x@) =~= before.push(current@));
    parts
}

pub open spec fn is_kv_sep(c: char) -> bool {
    c == ':' || c == '：' || c == '='
}

/// The part of `s` after its last `:`, `：` or `=` (`rsplit(..).next()`), from index `end` down.
pub open spec fn after_last_kv(s: Seq<char>, end: int) -> Seq<char>
    decreases end,
{
    if end <= 0 || end > s.len() {
        s
    } else if is_kv_sep(s[end - 1]) {
        s.skip(end)
    } else {
        after_last_kv(s, end - 1)
    }
}

/// `s` with separators trimmed from both ends.
pub open spec fn trim_seps_start(s: Seq<char>) -> Seq<char>
    decreases s.len(),
{
    if s.len() > 0 && is_riot_sep(s[0]) {
        trim_seps_start(s.drop_first())
    } else {
        s
    }
}

pub open spec fn trim_seps_end(s: Seq<char>) -> Seq<char>
    decreases s.len(),
{
    if s.len() > 0 && is_riot_sep(s.last()) {
        trim_seps_end(s.drop_last())
    } else {
        s
    }
}

/// The word without any `key:` or `key=` in front and without separators around it.
pub open spec fn riot_candidate(word: Seq<char>) -> Seq<char> {
    trim_seps_end(trim_seps_start(after_last_kv(word, word.len() as int)))
}

/// A riot id tag: 1 to 12 ASCII letters or digits.
pub open spec fn riot_tag_ok(t: Seq<char>) -> bool {
    0 < t.len() <= 12 && forall|i: int| 0 <= i < t.len() ==> crate::text::is_alnum(#[trigger] t[i])
}

/// A riot id word: `name#tag` whose tag (after any further `#`) is a riot id tag, as the
/// player name it displays as.
pub open spec fn riot_id_word(word: Seq<char>) -> Option<Seq<char>> {
    let candidate = riot_candidate(word);
    match crate::text::split_once(candidate, '#') {
        None => None,
        Some((_name, tag)) => if riot_tag_ok(crate::text::strip_start_char(trim(tag), '#')) {
            crate::display_names::player_name(candidate)
        } else {
            None
        },
    }
}

fn riot_candidate_exec(word: &Vec<char>) -> (res: Vec<char>)
    ensures
        res@ == riot_candidate(word@),
{
    let mut end = word.len();
    while end > 0 && !(word[end - 1] == ':' || word[end - 1] == '：' || word[end - 1] == '=')
        invariant
            end <= word@.len(),
            after_last_kv(word@, word@.len() as int) == after_last_kv(word@, end as int),
        decreases end,
    {
        end = end - 1;
    }
    let a = if end == 0 {
        crate::text::slice(word, 0, word.len())
    } else {
        crate::text::slice(word, end, word.len())
    };
    assert(word@.skip(end as int) =~= word@.subrange(end as int, word@.len() as int));
    assert(word@ =~= word@.subrange(0, word@.len() as int));
    let mut i: usize = 0;
    assert(a@.skip(0) =~= a@);
    while i < a.len() && riot_sep(a[i])
        invariant
            i <= a@.len(),
            trim_seps_start(a@) == trim_seps_start(a@.skip(i as int)),
        decreases a.len() - i,
    {
        assert(a@.skip(i as int).drop_first() =~= a@.skip(i + 1));
        i = i + 1;
    }
    let mut j: usize = a.len();
    assert(a@.skip(i as int) =~= a@.subrange(i as int, j as int));
    while j > i && riot_sep(a[j - 1])
        invariant
            i <= j <= a@.len(),
            trim_seps_end(trim_seps_start(a@)) == trim_seps_end(a@.subrange(i as int, j as int)),
        decreases j,
    {
        assert(a@.subrange(i as int, j as int).drop_last() =~= a@.subrange(i as int, j - 1));
        j = j - 1;
    }
    crate::text::slice(&a, i, j)
}

fn riot_tag_ok_exec(t: &Vec<char>) -> (res: bool)
    ensures
        res == riot_tag_ok(t@),
{
    if t.len() == 0 || t.len() > 12 {
        return false;
    }
    let mut k: usize = 0;
    while k < t.len()
        invariant
            k <= t@.len(),
            forall|x: int| 0 <= x < k ==> crate::text::is_alnum(#[trigger] t@[x]),
        decreases t.len() - k,
    {
        if !crate::text::char_is_alnum(t[k]) {
            return false;
        }
        k = k + 1;
    }
    true
}

fn riot_id_word_exec(word: &Vec<char>) -> (res: Option<String>)
    ensures
        opt_string(res) == riot_id_word(word@),
{
    let candidate = riot_candidate_exec(word);
    match crate::text::split_once_exec(&candidate, '#') {
        None => None,
        Some((_name, tag)) => {
            let t = crate::text::strip_start_char_exec(&trim_exec(&tag), '#');
            if riot_tag_ok_exec(&t) {
                opt_to_string(crate::display_names::player_name_chars(&candidate))
            } else {
                None
            }
        },
    }
}

/// The first riot id word among the words of the strings, in order.
pub open spec fn riot_id_from(strings: Seq<Seq<char>>, i: int, j: int) -> Option<Seq<char>>
    decreases strings.len() - i, riot_words(strings[i]).len() - j,
{
    if i < 0 || i >= strings.len() || j < 0 {
        None
    } else if j >= riot_words(strings[i]).len() {
        riot_id_from(strings, i + 1, 0)
    } else {
        match riot_id_word(riot_words(strings[i])[j]) {
            Some(v) => Some(v),
            None => riot_id_from(strings, i, j + 1),
        }
    }
}

pub fn find_riot_id_value(strings: &Vec<String>) -> (res: Option<String>)
    ensures
        opt_string(res) == riot_id_from(strings_view(strings@), 0, 0),
{
    let ghost sv = strings_view(strings@);
    let mut i: usize = 0;
    while i < strings.len()
        invariant
            i <= strings@.len(),
            sv == strings_view(strings@),
            riot_id_from(sv, 0, 0) == riot_id_from(sv, i as int, 0),
        decreases strings.len() - i,
    {
        let words = riot_words_exec(&chars_of(strings[i].as_str()));
        let mut j: usize = 0;
        while j < words.len()
            invariant
                i < strings@.len(),
                j <= words@.len(),
                sv == strings_view(strings@),
                words@.map_values(|x: Vec<char>| x@) == riot_words(sv[i as int]),
                riot_id_from(sv, 0, 0) == riot_id_from(sv, i as int, j as int),
            decreases words.len() - j,
        {
            assert(words@.map_values(|x: Vec<char>| x@)[j as int] == words@[j as int]@);
            match riot_id_word_exec(&words[j]) {
                Some(v) => {
                    return Some(v);
                },
                None => {},
            }
            j = j + 1;
        }
        i = i + 1;
    }
    None
}


// ---------------------------------------------------------------------------------------------
// Mis-decoded text
// ---------------------------------------------------------------------------------------------

/// The byte that a character stands for when UTF-8 text was read as Windows-1252: the
/// character's own code up to 0xff, or the byte of a Windows-1252 symbol.
pub open spec fn mojibake_byte_of(c: char) -> Option<u8> {
    let v = c as u32;
    if v <= 0xff {
        Some(v as u8)
    } else if v == 0x20AC {
        Some(0x80u8)
    } else if v == 0x201A {
        Some(0x82u8)
    } else if v == 0x0192 {
        Some(0x83u8)
    } else if v == 0x201E {
        Some(0x84u8)
    } else if v == 0x2026 {
        Some(0x85u8)
    } else if v == 0x2020 {
        Some(0x86u8)
    } else if v == 0x2021 {
        Some(0x87u8)
    } else if v == 0x02C6 {
        Some(0x88u8)
    } else if v == 0x2030 {
        Some(0x89u8)
    } else if v == 0x0160 {
        Some(0x8au8)
    } else if v == 0x2039 {
        Some(0x8bu8)
    } else if v == 0x0152 {
        Some(0x8cu8)
    } else if v == 0x017D {
        Some(0x8eu8)
    } else if v == 0x2018 {
        Some(0x91u8)
    } else if v == 0x2019 {
        Some(0x92u8)
    } else if v == 0x201C {
        Some(0x93u8)
    } else if v == 0x201D {
        Some(0x94u8)
    } else if v == 0x2022 {
        Some(0x95u8)
    } else if v == 0x2013 {
        Some(0x96u8)
    } else if v == 0x2014 {
        Some(0x97u8)
    } else if v == 0x02DC {
        Some(0x98u8)
    } else if v == 0x2122 {
        Some(0x99u8)
    } else if v == 0x0161 {
        Some(0x9au8)
    } else if v == 0x203A {
        Some(0x9bu8)
    } else if v == 0x0153 {
        Some(0x9cu8)
    } else if v == 0x017E {
        Some(0x9eu8)
    } else if v == 0x0178 {
        Some(0x9fu8)
    } else {
        None
    }
}

pub fn mojibake_byte(c: char) -> (res: Option<u8>)
    ensures
        res == mojibake_byte_of(c),
{
    let v = c as u32;
    if v <= 0xff {
        return Some(v as u8);
    }
    if v == 0x20AC { Some(0x80) }
    else if v == 0x201A { Some(0x82) }
    else if v == 0x0192 { Some(0x83) }
    else if v == 0x201E { Some(0x84) }
    else if v == 0x2026 { Some(0x85) }
    else if v == 0x2020 { Some(0x86) }
    else if v == 0x2021 { Some(0x87) }
    else if v == 0x02C6 { Some(0x88) }
    else if v == 0x2030 { Some(0x89) }
    else if v == 0x0160 { Some(0x8a) }
    else if v == 0x2039 { Some(0x8b) }
    else if v == 0x0152 { Some(0x8c) }
    else if v == 0x017D { Some(0x8e) }
    else if v == 0x2018 { Some(0x91) }
    else if v == 0x2019 { Some(0x92) }
    else if v == 0x201C { Some(0x93) }
    else if v == 0x201D { Some(0x94) }
    else if v == 0x2022 { Some(0x95) }
    else if v == 0x2013 { Some(0x96) }
    else if v == 0x2014 { Some(0x97) }
    else if v == 0x02DC { Some(0x98) }
    else if v == 0x2122 { Some(0x99) }
    else if v == 0x0161 { Some(0x9a) }
    else if v == 0x203A { Some(0x9b) }
    else if v == 0x0153 { Some(0x9c) }
    else if v == 0x017E { Some(0x9e) }
    else if v == 0x0178 { Some(0x9f) }
    else { None }
}

/// The bytes that the characters of `s` stand for, if every one stands for a byte.
pub open spec fn mojibake_bytes(s: Seq<char>) -> Option<Seq<u8>>
    decreases s.len(),
{
    if s.len() == 0 {
        Some(seq![])
    } else {
        match (mojibake_bytes(s.drop_last()), mojibake_byte_of(s.last())) {
            (Some(b), Some(x)) => Some(b.push(x)),
            _ => None,
        }
    }
}

/// The text that `s` was before UTF-8 bytes were read as Windows-1252: when every character
/// stands for a byte, some byte is not ASCII, the bytes are valid UTF-8, and the result differs.
pub open spec fn repaired(s: Seq<char>) -> Option<Seq<char>> {
    match mojibake_bytes(s) {
        None => None,
        Some(b) => if !(exists|i: int| 0 <= i < b.len() && #[trigger] b[i] > 0x7f) {
            None
        } else {
            match crate::text::utf8_decoded(b) {
                Some(r) => if r != s {
                    Some(r)
                } else {
                    None
                },
                None => None,
            }
        },
    }
}

pub fn repair_mojibake(value: &str) -> (res: Option<String>)
    ensures
        opt_string(res) == repaired(value@),
{
    let v = chars_of(value);
    let mut bytes: Vec<u8> = Vec::new();
    let mut high = false;
    let mut i: usize = 0;
    assert(v@.take(0) =~= Seq::<char>::empty());
    while i < v.len()
        invariant
            i <= v@.len(),
            v@ == value@,
            mojibake_bytes(v@.take(i as int)) == Some(bytes@),
            high == exists|j: int| 0 <= j < bytes@.len() && #[trigger] bytes@[j] > 0x7f,
        decreases v.len() - i,
    {
        assert(v@.take(i + 1).drop_last() =~= v@.take(i as int));
        let b = match mojibake_byte(v[i]) {
            Some(b) => b,
            None => {
                proof {
                    lemma_mojibake_none_stays(v@, i as int + 1);
                }
                assert(v@.take(v@.len() as int) =~= v@);
                return None;
            },
        };
        let ghost before = bytes@;
        bytes.push(b);
        if b > 0x7f {
            high = true;
        }
        assert(bytes@ == before.push(b));
        assert(high == exists|j: int| 0 <= j < bytes@.len() && #[trigger] bytes@[j] > 0x7f) by {
            if exists|j: int| 0 <= j < before.len() && #[trigger] before[j] > 0x7f {
                let j = choose|j: int| 0 <= j < before.len() && #[trigger] before[j] > 0x7f;
                assert(bytes@[j] == before[j]);
            }
            if b > 0x7f {
                assert(bytes@[before.len() as int] == b);
            }
            if exists|j: int| 0 <= j < bytes@.len() && #[trigger] bytes@[j] > 0x7f {
                let j = choose|j: int| 0 <= j < bytes@.len() && #[trigger] bytes@[j] > 0x7f;
                if j < before.len() {
                    assert(before[j] == bytes@[j]);
                }
            }
        }
        i = i + 1;
    }
    assert(v@.take(i as int) =~= v@);
    if !high {
        return None;
    }
    match crate::text::decode_utf8(bytes) {
        Some(r) => {
            if crate::text::seq_eq(&chars_of(r.as_str()), &v) {
                None
            } else {
                Some(r)
            }
        },
        None => None,
    }
}

proof fn lemma_mojibake_none_stays(s: Seq<char>, k: int)
    requires
        0 < k <= s.len(),
        mojibake_bytes(s.take(k)) is None,
    ensures
        mojibake_bytes(s) is None,
    decreases s.len() - k,
{
    if k < s.len() {
        assert(s.take(k + 1).drop_last() =~= s.take(k));
        lemma_mojibake_none_stays(s, k + 1);
    } else {
        assert(s.take(k) =~= s);
    }
}

// ---------------------------------------------------------------------------------------------
// The strings of a configuration
// ---------------------------------------------------------------------------------------------

/// A string of the document, repaired when it was mis-decoded, then trimmed.
pub open spec fn string_piece(s: Seq<char>) -> Seq<char> {
    trim(
        match repaired(s) {
            Some(r) => r,
            None => s,
        },
    )
}

/// The strings of a document in order: each string value, repaired and trimmed; an object's
/// string entries as `key: value`; empty ones left out.
pub open spec fn collected(v: JsonValue) -> Seq<Seq<char>>
    decreases v, 0int,
{
    match v {
        JsonValue::String(s) => {
            let t = string_piece(s@);
            if t.len() == 0 {
                seq![]
            } else {
                seq![t]
            }
        },
        JsonValue::Array(items) => collected_items(items@, 0),
        JsonValue::Object(entries) => collected_entries(entries@, 0),
        _ => seq![],
    }
}

pub open spec fn collected_items(items: Seq<JsonValue>, i: int) -> Seq<Seq<char>>
    decreases items, items.len() - i,
{
    if i < 0 || i >= items.len() {
        seq![]
    } else {
        collected(items[i]) + collected_items(items, i + 1)
    }
}

pub open spec fn collected_entries(entries: Seq<(String, JsonValue)>, i: int) -> Seq<Seq<char>>
    decreases entries, entries.len() - i,
{
    if i < 0 || i >= entries.len() {
        seq![]
    } else {
        let here = match entries[i].1 {
            JsonValue::String(s) => {
                let t = string_piece(s@);
                if t.len() == 0 {
                    seq![]
                } else {
                    seq![entries[i].0@ + ": "@ + t]
                }
            },
            _ => collected(entries[i].1),
        };
        here + collected_entries(entries, i + 1)
    }
}

fn string_piece_exec(s: &String) -> (res: Vec<char>)
    ensures
        res@ == string_piece(s@),
{
    match repair_mojibake(s.as_str()) {
        Some(r) => trim_exec(&chars_of(r.as_str())),
        None => trim_exec(&chars_of(s.as_str())),
    }
}

pub fn collect_strings(v: &JsonValue, out: &mut Vec<String>)
    ensures
        strings_view(final(out)@) == strings_view(old(out)@) + collected(*v),
    decreases v,
{
    let ghost start = strings_view(out@);
    match v {
        JsonValue::String(s) => {
            let t = string_piece_exec(s);
            if t.len() > 0 {
                out.push(crate::text::string_of(t.as_slice()));
                assert(strings_view(out@) =~= start + seq![t@]);
            } else {
                assert(strings_view(out@) =~= start + Seq::<Seq<char>>::empty());
            }
        },
        JsonValue::Array(items) => {
            let mut j: usize = 0;
            while j < items.len()
                invariant
                    j <= items@.len(),
                    *v == JsonValue::Array(*items),
                    start == strings_view(old(out)@),
                    strings_view(out@) + collected_items(items@, j as int) == start + collected_items(items@, 0),
                decreases items.len() - j,
            {
                proof {
                    assert(v->Array_0 == *items);
                    assert(decreases_to!(*v => v->Array_0));
                    assert(decreases_to!(*v => items@[j as int]));
                }
                let ghost before = strings_view(out@);
                collect_strings(&items[j], out);
                assert(strings_view(out@) + collected_items(items@, j + 1) =~= before + collected_items(items@, j as int));
                j = j + 1;
            }
            assert(strings_view(out@) =~= strings_view(out@) + collected_items(items@, j as int));
        },
        JsonValue::Object(entries) => {
            let mut j: usize = 0;
            while j < entries.len()
                invariant
                    j <= entries@.len(),
                    *v == JsonValue::Object(*entries),
                    start == strings_view(old(out)@),
                    strings_view(out@) + collected_entries(entries@, j as int) == start + collected_entries(entries@, 0),
                decreases entries.len() - j,
            {
                let ghost before = strings_view(out@);
                match &entries[j].1 {
                    JsonValue::String(s) => {
                        let t = string_piece_exec(s);
                        if t.len() > 0 {
                            let joined = concat(&concat(&chars_of(entries[j].0.as_str()), &chars_of(": ")), &t);
                            out.push(crate::text::string_of(joined.as_slice()));
                            assert(strings_view(out@) =~= before.push(joined@));
                        }
                    },
                    _ => {
                        proof {
                            assert(v->Object_0 == *entries);
                            assert(decreases_to!(*v => v->Object_0));
                            assert(decreases_to!(*v => entries@[j as int].1));
                        }
                        collect_strings(&entries[j].1, out);
                    },
                }
                assert(strings_view(out@) + collected_entries(entries@, j + 1) =~= before + collected_entries(entries@, j as int));
                j = j + 1;
            }
            assert(strings_view(out@) =~= strings_view(out@) + collected_entries(entries@, j as int));
        },
        _ => {
            assert(strings_view(out@) =~= start + Seq::<Seq<char>>::empty());
        },
    }
}


// ---------------------------------------------------------------------------------------------
// A configuration's metadata
// ---------------------------------------------------------------------------------------------

pub const MAP_LABELS: [&'static str; 5] = ["地图名", "地图名称", "地图", "map name", "map"];

pub const GAME_MODE_LABELS: [&'static str; 7] = ["模式名", "模式名称", "游戏模式", "对局模式", "模式", "game mode", "mode"];

pub const AGENT_LABELS: [&'static str; 8] = [
    "英雄名",
    "英雄名称",
    "英雄",
    "agent name",
    "agentName",
    "agent_name",
    "heroName",
    "hero_name",
];

pub const PLAYER_LABELS: [&'static str; 12] = [
    "玩家昵称",
    "玩家名",
    "玩家名称",
    "昵称",
    "riot id",
    "riotId",
    "gameNameWithTag",
    "player name",
    "playerName",
    "player_name",
    "nickName",
    "player",
];

pub const MAP_NAMES: [&'static str; 23] = [
    "源工重镇",
    "隐世修所",
    "霓虹町",
    "双塔迷城",
    "亚海悬城",
    "森寒冬港",
    "微风岛屿",
    "裂变峡谷",
    "深海明珠",
    "莲华古城",
    "日落之城",
    "迷邃幽境",
    "Ascent",
    "Haven",
    "Split",
    "Bind",
    "Icebox",
    "Breeze",
    "Fracture",
    "Pearl",
    "Lotus",
    "Sunset",
    "Abyss",
];

pub const GAME_MODES: [&'static str; 17] = [
    "竞技模式",
    "未评级",
    "普通模式",
    "极速模式",
    "乱斗模式",
    "死斗模式",
    "团队乱斗",
    "复制乱战",
    "自定义游戏",
    "排位",
    "Competitive",
    "Unrated",
    "Swiftplay",
    "Spike Rush",
    "Deathmatch",
    "Team Deathmatch",
    "Custom Game",
];

/// The trimmed, non-empty strings joined by single spaces.
pub open spec fn joined_text(strings: Seq<Seq<char>>) -> Seq<char>
    decreases strings.len(),
{
    if strings.len() == 0 {
        seq![]
    } else {
        let p = joined_text(strings.drop_last());
        let t = trim(strings.last());
        if t.len() == 0 {
            p
        } else if p.len() == 0 {
            t
        } else {
            p + " "@ + t
        }
    }
}

fn joined_text_exec(strings: &Vec<String>) -> (res: Vec<char>)
    ensures
        res@ == joined_text(strings_view(strings@)),
{
    let ghost sv = strings_view(strings@);
    let mut out: Vec<char> = Vec::new();
    let mut i: usize = 0;
    assert(sv.take(0) =~= Seq::<Seq<char>>::empty());
    while i < strings.len()
        invariant
            i <= strings@.len(),
            sv == strings_view(strings@),
            out@ == joined_text(sv.take(i as int)),
        decreases strings.len() - i,
    {
        assert(sv.take(i + 1).drop_last() =~= sv.take(i as int));
        assert(sv.take(i + 1).last() == strings@[i as int]@);
        let t = crate::text::trim_str(strings[i].as_str());
        if t.len() > 0 {
            if out.len() == 0 {
                out = t;
            } else {
                out = concat(&concat(&out, &chars_of(" ")), &t);
            }
        }
        i = i + 1;
    }
    assert(sv.take(i as int) =~= sv);
    out
}

pub open spec fn labeled_or_known(strings: Seq<Seq<char>>, labels: Seq<&str>, known: Seq<&str>) -> Option<Seq<char>> {
    match labeled_from(strings, labels, 0, 0) {
        Some(v) => Some(v),
        None => known_from(strings, known, 0, 0),
    }
}

pub open spec fn map_field(strings: Seq<Seq<char>>) -> Option<Seq<char>> {
    match labeled_or_known(strings, MAP_LABELS@, MAP_NAMES@) {
        Some(v) => crate::display_names::map_name(v),
        None => None,
    }
}

pub open spec fn game_mode_field(strings: Seq<Seq<char>>) -> Option<Seq<char>> {
    match labeled_or_known(strings, GAME_MODE_LABELS@, GAME_MODES@) {
        Some(v) => crate::display_names::game_mode_name(v),
        None => None,
    }
}

pub open spec fn agent_field(strings: Seq<Seq<char>>, text: Seq<char>) -> Option<Seq<char>> {
    let labeled = match labeled_from(strings, AGENT_LABELS@, 0, 0) {
        Some(v) => crate::display_names::agent_name(v),
        None => None,
    };
    match labeled {
        Some(a) => Some(a),
        None => crate::display_names::export_text_agent(text),
    }
}

pub open spec fn player_field(strings: Seq<Seq<char>>) -> Option<Seq<char>> {
    match riot_id_from(strings, 0, 0) {
        Some(p) => Some(p),
        None => match labeled_from(strings, PLAYER_LABELS@, 0, 0) {
            Some(v) => crate::display_names::player_name(v),
            None => None,
        },
    }
}

/// A configuration that could not be read: only its path and the error.
pub open spec fn is_failed_config(m: VideoExportConfigMetadata, json_path: Seq<char>, error: Seq<char>) -> bool {
    &&& m.json_path@ == json_path
    &&& m.extracted_text@ == Seq::<char>::empty()
    &&& m.parse_status == ParseStatus::Failed
    &&& !m.is_mvp && !m.is_triple_kill && !m.is_quadra_kill && !m.is_ace
    &&& m.kda is None && m.map_name is None && m.game_mode is None && m.agent_name is None && m.player_name is None
    &&& opt_string(m.parse_error) == Some(error)
}

pub fn failed_metadata(json_path: String, parse_error: String) -> (res: VideoExportConfigMetadata)
    ensures
        is_failed_config(res, json_path@, parse_error@),
{
    VideoExportConfigMetadata {
        json_path,
        extracted_text: crate::text::string_of(Vec::<char>::new().as_slice()),
        parse_status: ParseStatus::Failed,
        is_mvp: false,
        is_triple_kill: false,
        is_quadra_kill: false,
        is_ace: false,
        kda: None,
        map_name: None,
        game_mode: None,
        agent_name: None,
        player_name: None,
        parse_error: Some(parse_error),
    }
}

/// What a configuration whose strings are `strings` says.
pub open spec fn is_config_of(m: VideoExportConfigMetadata, json_path: Seq<char>, strings: Seq<Seq<char>>) -> bool {
    let text = joined_text(strings);
    let structured = contains_ci(text, "MVP"@) || contains_any_ci(text, TRIPLE_KILL_WORDS@) || contains_any_ci(
        text,
        QUADRA_KILL_WORDS@,
    ) || five_kill_text(text) || six_kill_text(text) || contains_ci(text, "ACE"@) || kda_from(text, 0) is Some
        || map_field(strings) is Some || game_mode_field(strings) is Some || agent_field(strings, text) is Some
        || player_field(strings) is Some;
    &&& m.json_path@ == json_path
    &&& m.extracted_text@ == text
    &&& m.parse_status == if structured {
        ParseStatus::Parsed
    } else {
        ParseStatus::Partial
    }
    &&& m.is_mvp == contains_ci(text, "MVP"@)
    &&& m.is_triple_kill == contains_any_ci(text, TRIPLE_KILL_WORDS@)
    &&& m.is_quadra_kill == contains_any_ci(text, QUADRA_KILL_WORDS@)
    &&& m.is_ace == contains_ci(text, "ACE"@)
    &&& opt_string(m.kda) == kda_from(text, 0)
    &&& opt_string(m.map_name) == map_field(strings)
    &&& opt_string(m.game_mode) == game_mode_field(strings)
    &&& opt_string(m.agent_name) == agent_field(strings, text)
    &&& opt_string(m.player_name) == player_field(strings)
    &&& m.parse_error is None
}

/// What a video export configuration with this content says: a failure naming the JSON error,
/// a failure when the document holds no string, else the fields read from its strings.
pub open spec fn config_from_content(m: VideoExportConfigMetadata, json_path: Seq<char>, content: Seq<char>) -> bool {
    match json_parse_outcome(content) {
        Err(e) => is_failed_config(m, json_path, "Failed to parse JSON: "@ + e),
        Ok(v) => if joined_text(collected(v)).len() == 0 {
            is_failed_config(m, json_path, "No string fields found"@)
        } else {
            is_config_of(m, json_path, collected(v))
        },
    }
}

fn opt_and_then_map(v: Option<String>) -> (res: Option<String>)
    ensures
        opt_string(res) == match opt_string(v) {
            Some(x) => crate::display_names::map_name(x),
            None => None,
        },
{
    match v {
        Some(x) => crate::display_names::map_name_for_display(x.as_str()),
        None => None,
    }
}

fn opt_and_then_mode(v: Option<String>) -> (res: Option<String>)
    ensures
        opt_string(res) == match opt_string(v) {
            Some(x) => crate::display_names::game_mode_name(x),
            None => None,
        },
{
    match v {
        Some(x) => crate::display_names::game_mode_for_display(x.as_str()),
        None => None,
    }
}

pub fn video_export_config_from_content(json_path: String, content: &str) -> (res: VideoExportConfigMetadata)
    ensures
        config_from_content(res, json_path@, content@),
{
    let value = match parse_json_outcome(content) {
        Ok(v) => v,
        Err(e) => {
            let msg = concat(&chars_of("Failed to parse JSON: "), &chars_of(e.as_str()));
            return failed_metadata(json_path, crate::text::string_of(msg.as_slice()));
        },
    };
    let mut strings: Vec<String> = Vec::new();
    collect_strings(&value, &mut strings);
    assert(strings_view(strings@) =~= collected(value));
    let text_chars = joined_text_exec(&strings);
    if text_chars.len() == 0 {
        let msg = chars_of("No string fields found");
        return failed_metadata(json_path, crate::text::string_of(msg.as_slice()));
    }
    let extracted_text = crate::text::string_of(text_chars.as_slice());
    let text = extracted_text.as_str();
    let is_mvp = contains_case_insensitive(text, "MVP");
    let is_triple_kill = contains_any(text, &TRIPLE_KILL_WORDS);
    let is_quadra_kill = contains_any(text, &QUADRA_KILL_WORDS);
    let is_five_kill = is_five_kill_text(text);
    let is_six_kill = is_six_kill_text(text);
    let is_ace = contains_case_insensitive(text, "ACE");
    let kda = find_kda(text);
    let map_source = match find_labeled_value(&strings, &MAP_LABELS) {
        Some(v) => Some(v),
        None => find_known_value(&strings, &MAP_NAMES),
    };
    let map_name = opt_and_then_map(map_source);
    let mode_source = match find_labeled_value(&strings, &GAME_MODE_LABELS) {
        Some(v) => Some(v),
        None => find_known_value(&strings, &GAME_MODES),
    };
    let game_mode = opt_and_then_mode(mode_source);
    let labeled_agent = match find_labeled_value(&strings, &AGENT_LABELS) {
        Some(v) => crate::display_names::agent_name_for_display(v.as_str()),
        None => None,
    };
    let agent_name = match labeled_agent {
        Some(a) => Some(a),
        None => crate::display_names::agent_name_from_export_text(text),
    };
    let player_name = match find_riot_id_value(&strings) {
        Some(p) => Some(p),
        None => match find_labeled_value(&strings, &PLAYER_LABELS) {
            Some(v) => crate::display_names::player_name_for_display(v.as_str()),
            None => None,
        },
    };
    let structured = is_mvp || is_triple_kill || is_quadra_kill || is_five_kill || is_six_kill || is_ace
        || kda.is_some() || map_name.is_some() || game_mode.is_some() || agent_name.is_some() || player_name.is_some();
    let parse_status = if structured {
        ParseStatus::Parsed
    } else {
        ParseStatus::Partial
    };
    VideoExportConfigMetadata {
        json_path,
        extracted_text,
        parse_status,
        is_mvp,
        is_triple_kill,
        is_quadra_kill,
        is_ace,
        kda,
        map_name,
        game_mode,
        agent_name,
        player_name,
        parse_error: None,
    }
}


/// A video export configuration file: `config-*.json`, the extension in any case.
pub open spec fn is_export_config_name(name: Seq<char>) -> bool {
    &&& starts_with(name, "config-"@)
    &&& (crate::scanner::file_extension(name) matches Some(ext) && crate::text::eq_ic(ext, "json"@))
}

pub fn is_video_export_config_name(file_name: &str) -> (res: bool)
    ensures
        res == is_export_config_name(file_name@),
{
    let name = chars_of(file_name);
    if !starts_with_exec(&name, &chars_of("config-")) {
        return false;
    }
    if crate::text::seq_eq(&name, &chars_of("..")) {
        return false;
    }
    match crate::text::char_rpos(&name, '.') {
        None => false,
        Some(i) => {
            if i == 0 {
                false
            } else {
                let ext = crate::text::slice(&name, i + 1, name.len());
                crate::text::eq_ignore_case(&ext, &chars_of("json"))
            }
        },
    }
}

} // verus!
