//! Match lists and account roles recovered from the recorder's browser storage (LevelDB
//! files), read as raw bytes: well-formed JSON arrays where they survive, and a tolerant scan of
//! the surrounding text where they do not.
use vstd::prelude::*;

use crate::highlight_log_parser::{find_i64_by_keys, find_int, find_string_by_keys, find_text};
use crate::json::JsonValue;
use crate::text::{chars_of, opt_string, trim, trim_exec};

verus! {

#[derive(Debug, Clone, PartialEq, Eq)]
pub struct LevelDbBattleRecord {
    pub account_id: String,
    pub battle_id: Option<String>,
    pub match_id: Option<String>,
    pub player_name: Option<String>,
    pub kda: Option<String>,
    pub match_date: Option<String>,
    pub agent_avatar_url: Option<String>,
    pub raw_json: String,
}

#[derive(Debug, Clone, PartialEq, Eq)]
pub struct LevelDbAccountRoleRecord {
    pub account_id: String,
    pub player_name: Option<String>,
    pub nick_name: Option<String>,
    pub tag_line: Option<String>,
    pub raw_text: String,
}


// ---------------------------------------------------------------------------------------------
// Bytes
// ---------------------------------------------------------------------------------------------

pub const BATTLE_LIST_PREFIX: [u8; 27] = [
    97, 99, 108, 111, 115, 104, 105, 103, 104, 108, 105, 103, 104, 116, 95, 98, 97, 116, 116, 108, 101, 95, 108, 105,
    115, 116, 95,
];

pub const ACCOUNT_ROLES_KEY: [u8; 21] = [65, 67, 76, 79, 83, 95, 85, 83, 69, 82, 95, 82, 79, 76, 69, 83, 95, 73, 78, 70, 79];

pub const MAX_JSON_START_DISTANCE: usize = 512;

pub const MAX_JSON_BYTES: usize = 262144;

pub const MAX_ACCOUNT_ROLE_SCAN_BYTES: usize = 8192;

pub const MAX_NOISY_BATTLE_SCAN_BYTES: usize = 65536;

pub open spec fn is_digit_byte(b: u8) -> bool {
    48 <= b <= 57
}

pub open spec fn is_hex_byte(b: u8) -> bool {
    (48 <= b <= 57) || (65 <= b <= 70) || (97 <= b <= 102)
}

pub open spec fn is_alpha_byte(b: u8) -> bool {
    (65 <= b <= 90) || (97 <= b <= 122)
}

/// `u8::to_ascii_lowercase`.
pub open spec fn lower_byte(b: u8) -> u8 {
    if 65 <= b <= 90 {
        (b + 32) as u8
    } else {
        b
    }
}

pub fn lower_byte_exec(b: u8) -> (res: u8)
    ensures
        res == lower_byte(b),
{
    if 65 <= b && b <= 90 {
        b + 32
    } else {
        b
    }
}

/// `needle` occurs in `hay` at `i`.
pub open spec fn bytes_at(hay: Seq<u8>, needle: Seq<u8>, i: int) -> bool {
    0 <= i && i + needle.len() <= hay.len() && hay.subrange(i, i + needle.len()) == needle
}

/// `needle` occurs in `hay` at `i`, ignoring ASCII case.
pub open spec fn bytes_at_ci(hay: Seq<u8>, needle: Seq<u8>, i: int) -> bool {
    0 <= i && i + needle.len() <= hay.len() && forall|k: int|
        0 <= k < needle.len() ==> lower_byte(#[trigger] hay[i + k]) == lower_byte(needle[k])
}

/// The first `i` in `from..=end - needle.len()` at which `needle` occurs, ignoring ASCII case
/// when `ci` holds: the offset of the first window of `hay[from..end]` equal to `needle`.
pub open spec fn find_bytes(hay: Seq<u8>, needle: Seq<u8>, from: int, end: int, ci: bool) -> Option<int>
    decreases end - from,
{
    if from < 0 || from + needle.len() > end || end > hay.len() {
        None
    } else if (if ci {
        bytes_at_ci(hay, needle, from)
    } else {
        bytes_at(hay, needle, from)
    }) {
        Some(from)
    } else if from >= end {
        None
    } else {
        find_bytes(hay, needle, from + 1, end, ci)
    }
}

fn bytes_at_exec(hay: &[u8], needle: &[u8], i: usize, ci: bool) -> (res: bool)
    requires
        i + needle@.len() <= hay@.len(),
    ensures
        res == if ci {
            bytes_at_ci(hay@, needle@, i as int)
        } else {
            bytes_at(hay@, needle@, i as int)
        },
{
    let n = hay.len();
    let mut k: usize = 0;
    while k < needle.len()
        invariant
            n == hay@.len(),
            i + needle@.len() <= hay@.len(),
            k <= needle@.len(),
            forall|j: int|
                0 <= j < k ==> (if ci {
                    lower_byte(#[trigger] hay@[i + j]) == lower_byte(needle@[j])
                } else {
                    hay@[i + j] == needle@[j]
                }),
        decreases needle.len() - k,
    {
        let a = hay[i + k];
        let b = needle[k];
        let same = if ci {
            lower_byte_exec(a) == lower_byte_exec(b)
        } else {
            a == b
        };
        if !same {
            if !ci {
                assert(hay@.subrange(i as int, i + needle@.len())[k as int] != needle@[k as int]);
            }
            return false;
        }
        k = k + 1;
    }
    if !ci {
        assert forall|j: int| 0 <= j < needle@.len() implies #[trigger] hay@.subrange(i as int, i + needle@.len())[j]
            == needle@[j] by {
            assert(hay@[i + j] == needle@[j]);
        }
        assert(hay@.subrange(i as int, i + needle@.len()) =~= needle@);
    }
    true
}

/// The first occurrence of `needle` in `hay[from..end]`, as an index into `hay`.
pub fn find_bytes_exec(hay: &[u8], needle: &[u8], from: usize, end: usize, ci: bool) -> (res: Option<usize>)
    ensures
        opt_usize(res) == find_bytes(hay@, needle@, from as int, end as int, ci),
        res matches Some(i) ==> from <= i && i + needle@.len() <= end,
{
    if end > hay.len() || needle.len() > end {
        return None;
    }
    let last = end - needle.len();
    let mut i = from;
    while i <= last
        invariant
            last + needle@.len() == end <= hay@.len(),
            from <= i,
            find_bytes(hay@, needle@, from as int, end as int, ci) == find_bytes(hay@, needle@, i as int, end as int, ci),
        decreases last + 1 - i,
    {
        if bytes_at_exec(hay, needle, i, ci) {
            return Some(i);
        }
        if i == last {
            return None;
        }
        i = i + 1;
    }
    None
}

pub open spec fn opt_usize(o: Option<usize>) -> Option<int> {
    match o {
        Some(i) => Some(i as int),
        None => None,
    }
}

/// The end of the run of ASCII digits that starts at `start`.
pub open spec fn digits_end(bytes: Seq<u8>, start: int) -> int
    decreases bytes.len() - start,
{
    if start < 0 || start >= bytes.len() || !is_digit_byte(bytes[start]) {
        start
    } else {
        digits_end(bytes, start + 1)
    }
}

pub fn read_ascii_digits_end(bytes: &[u8], start: usize) -> (res: usize)
    ensures
        res == digits_end(bytes@, start as int),
{
    let mut end = start;
    while end < bytes.len() && 48 <= bytes[end] && bytes[end] <= 57
        invariant
            start <= end,
            digits_end(bytes@, start as int) == digits_end(bytes@, end as int),
        decreases bytes.len() - end,
    {
        end = end + 1;
    }
    end
}

/// Bytes as the characters of the same codes: the text that ASCII bytes encode.
pub open spec fn ascii_chars(bytes: Seq<u8>) -> Seq<char> {
    bytes.map_values(|b: u8| b as char)
}

pub fn ascii_string(bytes: &[u8]) -> (res: String)
    ensures
        res@ == ascii_chars(bytes@),
{
    let mut out: Vec<char> = Vec::new();
    let mut i: usize = 0;
    while i < bytes.len()
        invariant
            i <= bytes@.len(),
            out@ == ascii_chars(bytes@.take(i as int)),
        decreases bytes.len() - i,
    {
        let c = bytes[i] as char;
        let ghost before = out@;
        out.push(c);
        assert(bytes@.take(i + 1) =~= bytes@.take(i as int).push(bytes@[i as int]));
        assert(out@ =~= ascii_chars(bytes@.take(i + 1)));
        i = i + 1;
    }
    assert(bytes@.take(i as int) =~= bytes@);
    crate::text::string_of(out.as_slice())
}

/// The text kept of a raw byte: NUL and other control bytes dropped, tabs and line breaks and
/// non-ASCII bytes as spaces.
pub open spec fn compact_byte(b: u8) -> Option<u8> {
    if b == 0 {
        None
    } else if b == 9 || b == 13 || b == 10 {
        Some(32u8)
    } else if 0x20 <= b <= 0x7e {
        Some(b)
    } else if b <= 0x1f {
        None
    } else {
        Some(32u8)
    }
}

pub open spec fn compacted(bytes: Seq<u8>) -> Seq<u8>
    decreases bytes.len(),
{
    if bytes.len() == 0 {
        seq![]
    } else {
        match compact_byte(bytes.last()) {
            Some(b) => compacted(bytes.drop_last()).push(b),
            None => compacted(bytes.drop_last()),
        }
    }
}

proof fn lemma_compacted_ascii(bytes: Seq<u8>)
    ensures
        forall|i: int| 0 <= i < compacted(bytes).len() ==> 0x20 <= #[trigger] compacted(bytes)[i] <= 0x7e,
    decreases bytes.len(),
{
    if bytes.len() > 0 {
        lemma_compacted_ascii(bytes.drop_last());
        let prev = compacted(bytes.drop_last());
        assert forall|i: int| 0 <= i < compacted(bytes).len() implies 0x20 <= #[trigger] compacted(bytes)[i] <= 0x7e by {
            if i < prev.len() {
                assert(compacted(bytes)[i] == prev[i]);
            }
        }
    }
}

/// The printable ASCII text of `bytes[start..end]`.
pub fn compact_ascii_text(bytes: &[u8], start: usize, end: usize) -> (res: Vec<u8>)
    requires
        start <= end <= bytes@.len(),
    ensures
        res@ == compacted(bytes@.subrange(start as int, end as int)),
        forall|i: int| 0 <= i < res@.len() ==> 0x20 <= #[trigger] res@[i] <= 0x7e,
{
    let mut out: Vec<u8> = Vec::new();
    let mut i = start;
    assert(bytes@.subrange(start as int, start as int) =~= Seq::<u8>::empty());
    while i < end
        invariant
            start <= i <= end <= bytes@.len(),
            out@ == compacted(bytes@.subrange(start as int, i as int)),
        decreases end - i,
    {
        let b = bytes[i];
        assert(bytes@.subrange(start as int, i + 1).drop_last() =~= bytes@.subrange(start as int, i as int));
        if b == 0 {
        } else if b == 9 || b == 13 || b == 10 {
            out.push(32);
        } else if 0x20 <= b && b <= 0x7e {
            out.push(b);
        } else if b <= 0x1f {
        } else {
            out.push(32);
        }
        i = i + 1;
    }
    proof {
        lemma_compacted_ascii(bytes@.subrange(start as int, end as int));
    }
    out
}


// ---------------------------------------------------------------------------------------------
// UUIDs in noisy text
// ---------------------------------------------------------------------------------------------

/// The lengths of a UUID's five groups of hex digits.
pub open spec fn group_len(g: int) -> int {
    if g == 4 {
        12
    } else if g == 0 {
        8
    } else {
        4
    }
}

fn group_len_exec(g: usize) -> (res: usize)
    requires
        g < 5,
    ensures
        res == group_len(g as int),
{
    if g == 4 {
        12
    } else if g == 0 {
        8
    } else {
        4
    }
}

pub open spec fn all_hex(bytes: Seq<u8>, from: int, to: int) -> bool {
    forall|k: int| from <= k < to ==> is_hex_byte(#[trigger] bytes[k])
}

/// Where a clean UUID whose groups `g..` start at `index` ends: groups of hex digits of the
/// right lengths, within `limit`, joined by hyphens.
pub open spec fn uuid_end(bytes: Seq<u8>, limit: int, g: int, index: int) -> Option<int>
    decreases 5 - g,
{
    if g < 0 || g >= 5 {
        Some(index)
    } else {
        let next = index + group_len(g);
        if next > limit || !all_hex(bytes, index, next) {
            None
        } else if g + 1 < 5 {
            if next < bytes.len() && bytes[next] == 45 {
                uuid_end(bytes, limit, g + 1, next + 1)
            } else {
                None
            }
        } else {
            Some(next)
        }
    }
}

/// The UUID written plainly at `start`, as written.
pub open spec fn uuid_at(bytes: Seq<u8>, start: int, limit: int) -> Option<Seq<u8>> {
    match uuid_end(bytes, limit, 0, start) {
        Some(e) => Some(bytes.subrange(start, e)),
        None => None,
    }
}

proof fn lemma_uuid_end_range(bytes: Seq<u8>, limit: int, g: int, index: int)
    requires
        0 <= g,
        0 <= index,
    ensures
        uuid_end(bytes, limit, g, index) matches Some(e) ==> index <= e && (g < 5 ==> e <= limit),
    decreases 5 - g,
{
    if g < 5 {
        let next = index + group_len(g);
        if next <= limit && all_hex(bytes, index, next) && g + 1 < 5 && next < bytes.len() && bytes[next] == 45 {
            lemma_uuid_end_range(bytes, limit, g + 1, next + 1);
        }
    }
}

fn is_hex_byte_exec(b: u8) -> (res: bool)
    ensures
        res == is_hex_byte(b),
{
    (48 <= b && b <= 57) || (65 <= b && b <= 70) || (97 <= b && b <= 102)
}

fn all_hex_exec(bytes: &[u8], from: usize, to: usize) -> (res: bool)
    requires
        from <= to <= bytes@.len(),
    ensures
        res == all_hex(bytes@, from as int, to as int),
{
    let mut k = from;
    while k < to
        invariant
            from <= k <= to <= bytes@.len(),
            all_hex(bytes@, from as int, k as int),
        decreases to - k,
    {
        if !is_hex_byte_exec(bytes[k]) {
            assert(!is_hex_byte(bytes@[k as int]));
            return false;
        }
        k = k + 1;
    }
    true
}

fn uuid_at_exec(bytes: &[u8], start: usize, limit: usize) -> (res: Option<Vec<u8>>)
    requires
        limit <= bytes@.len(),
    ensures
        opt_bytes(res) == uuid_at(bytes@, start as int, limit as int),
{
    let mut g: usize = 0;
    let mut index = start;
    while g < 5
        invariant
            g <= 5,
            start <= index,
            limit <= bytes@.len(),
            uuid_end(bytes@, limit as int, 0, start as int) == uuid_end(bytes@, limit as int, g as int, index as int),
        decreases 5 - g,
    {
        let len = group_len_exec(g);
        if index > limit || len > limit - index {
            return None;
        }
        let next = index + len;
        if !all_hex_exec(bytes, index, next) {
            return None;
        }
        if g + 1 < 5 {
            if next < bytes.len() && bytes[next] == 45 {
                index = next + 1;
            } else {
                return None;
            }
        } else {
            index = next;
        }
        g = g + 1;
    }
    let ghost e = index;
    proof {
        lemma_uuid_end_range(bytes@, limit as int, 0, start as int);
    }
    Some(byte_slice(bytes, start, index))
}

pub open spec fn opt_bytes(o: Option<Vec<u8>>) -> Option<Seq<u8>> {
    match o {
        Some(v) => Some(v@),
        None => None,
    }
}

pub fn byte_slice(bytes: &[u8], start: usize, end: usize) -> (res: Vec<u8>)
    requires
        start <= end <= bytes@.len(),
    ensures
        res@ == bytes@.subrange(start as int, end as int),
{
    let mut out: Vec<u8> = Vec::new();
    let mut i = start;
    while i < end
        invariant
            start <= i <= end <= bytes@.len(),
            out@ == bytes@.subrange(start as int, i as int),
        decreases end - i,
    {
        out.push(bytes[i]);
        assert(out@ =~= bytes@.subrange(start as int, i + 1));
        i = i + 1;
    }
    out
}

/// Bytes that may be mixed into a UUID stored in damaged text: letters, quotes, colons,
/// underscores, braces, commas and backslashes.
pub open spec fn is_uuid_noise(b: u8) -> bool {
    is_alpha_byte(b) || b == 32 || b == 34 || b == 39 || b == 58 || b == 95 || b == 123 || b == 125 || b == 44 || b == 92
}

/// Skips up to eight noise bytes from `index`: the index of the next hex digit or hyphen; at
/// `limit`, the limit itself unless a hyphen was wanted.
pub open spec fn skip_noise(bytes: Seq<u8>, limit: int, hyphen: bool, index: int, skipped: int) -> Option<int>
    decreases limit - index,
{
    if index < limit && index >= 0 {
        let b = bytes[index];
        if is_hex_byte(b) || b == 45 {
            Some(index)
        } else if !is_uuid_noise(b) || skipped >= 8 {
            None
        } else {
            skip_noise(bytes, limit, hyphen, index + 1, skipped + 1)
        }
    } else if hyphen {
        None
    } else {
        Some(index)
    }
}

fn skip_uuid_noise(bytes: &[u8], index: usize, limit: usize, hyphen: bool) -> (res: Option<usize>)
    requires
        limit <= bytes@.len(),
    ensures
        opt_usize(res) == skip_noise(bytes@, limit as int, hyphen, index as int, 0),
        res matches Some(i) ==> index <= i && (i < limit || (!hyphen && i == index && index >= limit) || i <= limit),
{
    let mut i = index;
    let mut skipped: usize = 0;
    while i < limit
        invariant
            index <= i,
            skipped <= 8,
            limit <= bytes@.len(),
            skip_noise(bytes@, limit as int, hyphen, index as int, 0) == skip_noise(
                bytes@,
                limit as int,
                hyphen,
                i as int,
                skipped as int,
            ),
            i > index ==> i <= limit,
        decreases limit - i,
    {
        let b = bytes[i];
        if is_hex_byte_exec(b) || b == 45 {
            return Some(i);
        }
        let noise = (65 <= b && b <= 90) || (97 <= b && b <= 122) || b == 32 || b == 34 || b == 39 || b == 58 || b == 95
            || b == 123 || b == 125 || b == 44 || b == 92;
        if !noise || skipped >= 8 {
            return None;
        }
        i = i + 1;
        skipped = skipped + 1;
    }
    if hyphen {
        None
    } else {
        Some(i)
    }
}

/// The walk that reads a UUID through noise: `r` more digits of group `g` from `index`, the
/// digits read so far lowercased in `out`.
pub open spec fn noisy_walk(bytes: Seq<u8>, limit: int, g: int, r: int, index: int, out: Seq<u8>) -> Option<Seq<u8>>
    decreases 5 - g, r,
{
    if g < 0 || g >= 5 || r < 0 {
        None
    } else if r > 0 {
        match skip_noise(bytes, limit, false, index, 0) {
            None => None,
            Some(i) => if i >= limit || i < 0 || !is_hex_byte(bytes[i]) {
                None
            } else {
                noisy_walk(bytes, limit, g, r - 1, i + 1, out.push(lower_byte(bytes[i])))
            },
        }
    } else if g + 1 < 5 {
        match skip_noise(bytes, limit, true, index, 0) {
            None => None,
            Some(i) => if 0 <= i < bytes.len() && bytes[i] == 45 {
                noisy_walk(bytes, limit, g + 1, group_len(g + 1), i + 1, out.push(45u8))
            } else {
                None
            },
        }
    } else {
        Some(out)
    }
}

/// A UUID read at `start` through noise bytes, lowercased.
pub open spec fn noisy_uuid_at(bytes: Seq<u8>, start: int, limit: int) -> Option<Seq<u8>> {
    if !(0 <= start < bytes.len() && is_hex_byte(bytes[start])) {
        None
    } else {
        noisy_walk(bytes, limit, 0, 8, start, seq![])
    }
}

fn noisy_uuid_at_exec(bytes: &[u8], start: usize, limit: usize) -> (res: Option<Vec<u8>>)
    requires
        limit <= bytes@.len(),
    ensures
        opt_bytes(res) == noisy_uuid_at(bytes@, start as int, limit as int),
{
    if !(start < bytes.len() && is_hex_byte_exec(bytes[start])) {
        return None;
    }
    let mut out: Vec<u8> = Vec::new();
    let mut g: usize = 0;
    let mut r: usize = 8;
    let mut index = start;
    while g < 5
        invariant
            g <= 5,
            limit <= bytes@.len(),
            g < 5 ==> r <= 12,
            noisy_uuid_at(bytes@, start as int, limit as int) == if g < 5 {
                noisy_walk(bytes@, limit as int, g as int, r as int, index as int, out@)
            } else {
                Some(out@)
            },
        decreases 5 - g, r,
    {
        if r > 0 {
            match skip_uuid_noise(bytes, index, limit, false) {
                None => {
                    return None;
                },
                Some(i) => {
                    if i >= limit || !is_hex_byte_exec(bytes[i]) {
                        return None;
                    }
                    out.push(lower_byte_exec(bytes[i]));
                    index = i + 1;
                    r = r - 1;
                },
            }
        } else if g + 1 < 5 {
            match skip_uuid_noise(bytes, index, limit, true) {
                None => {
                    return None;
                },
                Some(i) => {
                    if i < bytes.len() && bytes[i] == 45 {
                        out.push(45);
                        index = i + 1;
                        g = g + 1;
                        r = group_len_exec(g);
                    } else {
                        return None;
                    }
                },
            }
        } else {
            g = 5;
        }
    }
    Some(out)
}

/// The first UUID, plain or through noise, that starts in `start..min(len, end)`, with its
/// start.
pub open spec fn uuid_from(text: Seq<u8>, limit: int, index: int) -> Option<(Seq<u8>, int)>
    decreases limit - index,
{
    if index < 0 || index >= limit {
        None
    } else {
        match uuid_at(text, index, limit) {
            Some(u) => Some((u, index)),
            None => match noisy_uuid_at(text, index, limit) {
                Some(u) => Some((u, index)),
                None => uuid_from(text, limit, index + 1),
            },
        }
    }
}

pub open spec fn find_uuid(text: Seq<u8>, start: int, end: int) -> Option<(Seq<u8>, int)> {
    let limit = if end < text.len() {
        end
    } else {
        text.len() as int
    };
    uuid_from(
        text,
        limit,
        if start < limit {
            start
        } else {
            limit
        },
    )
}

pub open spec fn opt_mention(o: Option<(Vec<u8>, usize)>) -> Option<(Seq<u8>, int)> {
    match o {
        Some((u, i)) => Some((u@, i as int)),
        None => None,
    }
}

pub fn find_uuid_in(text: &[u8], start: usize, end: usize) -> (res: Option<(Vec<u8>, usize)>)
    ensures
        opt_mention(res) == find_uuid(text@, start as int, end as int),
        res matches Some((u, i)) ==> i < text@.len(),
{
    let limit = if end < text.len() {
        end
    } else {
        text.len()
    };
    let mut index = if start < limit {
        start
    } else {
        limit
    };
    while index < limit
        invariant
            limit <= text@.len(),
            find_uuid(text@, start as int, end as int) == uuid_from(text@, limit as int, index as int),
        decreases limit - index,
    {
        match uuid_at_exec(text, index, limit) {
            Some(u) => {
                return Some((u, index));
            },
            None => {},
        }
        match noisy_uuid_at_exec(text, index, limit) {
            Some(u) => {
                return Some((u, index));
            },
            None => {},
        }
        index = index + 1;
    }
    None
}


// ---------------------------------------------------------------------------------------------
// UUID mentions
// ---------------------------------------------------------------------------------------------

/// The keywords (`match_id`, `matchid`, `matches_id`, `matchesid`, `game_id`, `gameid`) before a match's UUID.
pub open spec fn match_keywords() -> Seq<Seq<u8>> {
    seq![
        seq![109u8, 97, 116, 99, 104, 95, 105, 100],
        seq![109u8, 97, 116, 99, 104, 105, 100],
        seq![109u8, 97, 116, 99, 104, 101, 115, 95, 105, 100],
        seq![109u8, 97, 116, 99, 104, 101, 115, 105, 100],
        seq![103u8, 97, 109, 101, 95, 105, 100],
        seq![103u8, 97, 109, 101, 105, 100],
    ]
}

fn match_keywords_exec() -> (res: Vec<Vec<u8>>)
    ensures
        res@.map_values(|v: Vec<u8>| v@) == match_keywords(),
{
    let mut res: Vec<Vec<u8>> = Vec::new();
    res.push(vec![109, 97, 116, 99, 104, 95, 105, 100]);
    res.push(vec![109, 97, 116, 99, 104, 105, 100]);
    res.push(vec![109, 97, 116, 99, 104, 101, 115, 95, 105, 100]);
    res.push(vec![109, 97, 116, 99, 104, 101, 115, 105, 100]);
    res.push(vec![103, 97, 109, 101, 95, 105, 100]);
    res.push(vec![103, 97, 109, 101, 105, 100]);
    assert(res@.map_values(|v: Vec<u8>| v@) =~= match_keywords());
    res
}

/// The keywords (`battle_id`, `battleid`) before a battle's UUID.
pub open spec fn battle_keywords() -> Seq<Seq<u8>> {
    seq![
        seq![98u8, 97, 116, 116, 108, 101, 95, 105, 100],
        seq![98u8, 97, 116, 116, 108, 101, 105, 100],
    ]
}

fn battle_keywords_exec() -> (res: Vec<Vec<u8>>)
    ensures
        res@.map_values(|v: Vec<u8>| v@) == battle_keywords(),
{
    let mut res: Vec<Vec<u8>> = Vec::new();
    res.push(vec![98, 97, 116, 116, 108, 101, 95, 105, 100]);
    res.push(vec![98, 97, 116, 116, 108, 101, 105, 100]);
    assert(res@.map_values(|v: Vec<u8>| v@) =~= battle_keywords());
    res
}

pub open spec fn lower_bytes(s: Seq<u8>) -> Seq<u8> {
    s.map_values(|b: u8| lower_byte(b))
}

fn lower_bytes_exec(s: &[u8]) -> (res: Vec<u8>)
    ensures
        res@ == lower_bytes(s@),
{
    let mut out: Vec<u8> = Vec::new();
    let mut i: usize = 0;
    while i < s.len()
        invariant
            i <= s@.len(),
            out@ == lower_bytes(s@.take(i as int)),
        decreases s.len() - i,
    {
        out.push(lower_byte_exec(s[i]));
        assert(out@ =~= lower_bytes(s@.take(i + 1)));
        i = i + 1;
    }
    assert(s@.take(i as int) =~= s@);
    out
}

/// The UUIDs found after each occurrence of `kw` in the lowercased text from `position` on,
/// each looked for in the 320 bytes after the keyword.
pub open spec fn mentions_after(text: Seq<u8>, lower: Seq<u8>, kw: Seq<u8>, position: int) -> Seq<(Seq<u8>, int)>
    decreases lower.len() - position,
{
    if position < 0 || kw.len() == 0 {
        seq![]
    } else {
        match find_bytes(lower, kw, position, lower.len() as int, false) {
            None => seq![],
            Some(ks) => if ks < position || ks + kw.len() > lower.len() {
                seq![]
            } else {
                let search_start = ks + kw.len();
                let search_end = if search_start + 320 < lower.len() {
                    search_start + 320
                } else {
                    lower.len() as int
                };
                let here = match find_uuid(text, search_start, search_end) {
                    Some(m) => seq![m],
                    None => seq![],
                };
                here + mentions_after(text, lower, kw, search_start)
            },
        }
    }
}

/// The mentions after every keyword, keyword by keyword.
pub open spec fn all_mentions(text: Seq<u8>, keywords: Seq<Seq<u8>>) -> Seq<(Seq<u8>, int)>
    decreases keywords.len(),
{
    if keywords.len() == 0 {
        seq![]
    } else {
        all_mentions(text, keywords.drop_last()) + mentions_after(text, lower_bytes(text), keywords.last(), 0)
    }
}

/// Inserts `m` after every mention that starts no later: a stable sort by start.
pub open spec fn insert_by_start(sorted: Seq<(Seq<u8>, int)>, m: (Seq<u8>, int)) -> Seq<(Seq<u8>, int)>
    decreases sorted.len(),
{
    if sorted.len() == 0 {
        seq![m]
    } else if sorted.last().1 <= m.1 {
        sorted.push(m)
    } else {
        insert_by_start(sorted.drop_last(), m).push(sorted.last())
    }
}

pub open spec fn sort_by_start(s: Seq<(Seq<u8>, int)>) -> Seq<(Seq<u8>, int)>
    decreases s.len(),
{
    if s.len() == 0 {
        seq![]
    } else {
        insert_by_start(sort_by_start(s.drop_last()), s.last())
    }
}

/// Runs of mentions of one UUID reduced to their first.
pub open spec fn dedup_uuids(s: Seq<(Seq<u8>, int)>) -> Seq<(Seq<u8>, int)>
    decreases s.len(),
{
    if s.len() == 0 {
        seq![]
    } else {
        let d = dedup_uuids(s.drop_last());
        if d.len() > 0 && d.last().0 == s.last().0 {
            d
        } else {
            d.push(s.last())
        }
    }
}

/// The UUIDs mentioned after the keywords, ordered by where they start, each run of one UUID
/// kept once.
pub open spec fn uuid_mentions(text: Seq<u8>, keywords: Seq<Seq<u8>>) -> Seq<(Seq<u8>, int)> {
    dedup_uuids(sort_by_start(all_mentions(text, keywords)))
}

pub open spec fn mentions_view(v: Seq<(Vec<u8>, usize)>) -> Seq<(Seq<u8>, int)> {
    v.map_values(|m: (Vec<u8>, usize)| (m.0@, m.1 as int))
}

fn mentions_after_exec(text: &[u8], lower: &Vec<u8>, kw: &Vec<u8>, out: &mut Vec<(Vec<u8>, usize)>)
    requires
        lower@.len() == text@.len(),
    ensures
        mentions_view(final(out)@) == mentions_view(old(out)@) + mentions_after(text@, lower@, kw@, 0),
{
    if kw.len() == 0 {
        assert(mentions_view(out@) =~= mentions_view(out@) + Seq::<(Seq<u8>, int)>::empty());
        return;
    }
    let ghost start = mentions_view(out@);
    let mut position: usize = 0;
    assert(start + mentions_after(text@, lower@, kw@, 0) =~= mentions_view(out@) + mentions_after(text@, lower@, kw@, 0));
    while position <= lower.len()
        invariant
            kw@.len() > 0,
            lower@.len() == text@.len(),
            start == mentions_view(old(out)@),
            mentions_view(out@) + mentions_after(text@, lower@, kw@, position as int) == start + mentions_after(
                text@,
                lower@,
                kw@,
                0,
            ),
        decreases lower.len() + 1 - position,
    {
        let ghost before = mentions_view(out@);
        match find_bytes_exec(lower, kw, position, lower.len(), false) {
            None => {
                assert(mentions_view(out@) =~= mentions_view(out@) + Seq::<(Seq<u8>, int)>::empty());
                return;
            },
            Some(ks) => {
                let search_start = ks + kw.len();
                let search_end = if lower.len() >= 320 && search_start < lower.len() - 320 {
                    search_start + 320
                } else {
                    lower.len()
                };
                assert(search_end == if search_start + 320 < lower@.len() {
                    search_start + 320
                } else {
                    lower@.len() as int
                });
                match find_uuid_in(text, search_start, search_end) {
                    Some(m) => {
                        let ghost mv = (m.0@, m.1 as int);
                        out.push(m);
                        assert(mentions_view(out@) =~= before.push(mv));
                        assert(mentions_view(out@) + mentions_after(text@, lower@, kw@, search_start as int) =~= before
                            + mentions_after(text@, lower@, kw@, position as int));
                    },
                    None => {
                        assert(mentions_view(out@) + mentions_after(text@, lower@, kw@, search_start as int) =~= before
                            + mentions_after(text@, lower@, kw@, position as int));
                    },
                }
                position = search_start;
            },
        }
    }
    assert(mentions_view(out@) =~= mentions_view(out@) + mentions_after(text@, lower@, kw@, position as int));
}

fn insert_by_start_exec(sorted: &mut Vec<(Vec<u8>, usize)>, m: (Vec<u8>, usize))
    ensures
        mentions_view(final(sorted)@) == insert_by_start(mentions_view(old(sorted)@), (m.0@, m.1 as int)),
{
    let ghost mv = (m.0@, m.1 as int);
    let ghost sv = mentions_view(sorted@);
    let mut k = sorted.len();
    assert(sv.take(k as int) =~= sv);
    assert(sv.skip(k as int) =~= Seq::<(Seq<u8>, int)>::empty());
    assert(insert_by_start(sv, mv) + Seq::<(Seq<u8>, int)>::empty() =~= insert_by_start(sv, mv));
    while k > 0 && sorted[k - 1].1 > m.1
        invariant
            k <= sorted@.len(),
            sv == mentions_view(sorted@),
            mv == (m.0@, m.1 as int),
            insert_by_start(sv, mv) == insert_by_start(sv.take(k as int), mv) + sv.skip(k as int),
        decreases k,
    {
        assert(sv.take(k as int).drop_last() =~= sv.take(k - 1));
        assert(sv.take(k as int).last() == sv[k - 1]);
        assert(sv[k - 1] == (sorted@[k - 1].0@, sorted@[k - 1].1 as int));
        assert(sv[k - 1].1 > mv.1);
        assert(sv.take(k as int).len() > 0);
        assert(insert_by_start(sv.take(k as int), mv) == insert_by_start(sv.take(k - 1), mv).push(sv[k - 1]));
        assert(seq![sv[k - 1]] + sv.skip(k as int) =~= sv.skip(k - 1));
        assert(insert_by_start(sv.take(k - 1), mv).push(sv[k - 1]) + sv.skip(k as int) =~= insert_by_start(
            sv.take(k - 1),
            mv,
        ) + sv.skip(k - 1));
        k = k - 1;
    }
    proof {
        if k > 0 {
            assert(sv.take(k as int).last() == sv[k - 1]);
        } else {
            assert(sv.take(0) =~= Seq::<(Seq<u8>, int)>::empty());
        }
        assert(insert_by_start(sv.take(k as int), mv) =~= sv.take(k as int).push(mv));
    }
    sorted.insert(k, m);
    assert(mentions_view(sorted@) =~= sv.take(k as int).push(mv) + sv.skip(k as int));
}

fn sort_mentions(v: Vec<(Vec<u8>, usize)>) -> (res: Vec<(Vec<u8>, usize)>)
    ensures
        mentions_view(res@) == sort_by_start(mentions_view(v@)),
{
    let ghost vv = mentions_view(v@);
    let mut rest = v;
    let mut sorted: Vec<(Vec<u8>, usize)> = Vec::new();
    let n = rest.len();
    let mut i: usize = 0;
    assert(vv.take(0) =~= Seq::<(Seq<u8>, int)>::empty());
    while i < n
        invariant
            i <= n,
            vv.len() == n,
            rest@.len() == n - i,
            mentions_view(rest@) == vv.skip(i as int),
            mentions_view(sorted@) == sort_by_start(vv.take(i as int)),
        decreases n - i,
    {
        let ghost before = rest@;
        let m = rest.remove(0);
        assert(mentions_view(before)[0] == vv[i as int]);
        assert(mentions_view(rest@) =~= vv.skip(i + 1)) by {
            assert forall|j: int| 0 <= j < rest@.len() implies mentions_view(rest@)[j] == vv.skip(i + 1)[j] by {
                assert(rest@[j] == before[j + 1]);
                assert(mentions_view(before)[j + 1] == vv.skip(i as int)[j + 1]);
            }
        }
        assert(vv.take(i + 1).drop_last() =~= vv.take(i as int));
        assert(vv.take(i + 1).last() == (m.0@, m.1 as int));
        insert_by_start_exec(&mut sorted, m);
        i = i + 1;
    }
    assert(vv.take(n as int) =~= vv);
    sorted
}

fn dedup_mentions(v: Vec<(Vec<u8>, usize)>) -> (res: Vec<(Vec<u8>, usize)>)
    ensures
        mentions_view(res@) == dedup_uuids(mentions_view(v@)),
{
    let ghost vv = mentions_view(v@);
    let mut rest = v;
    let mut out: Vec<(Vec<u8>, usize)> = Vec::new();
    let n = rest.len();
    let mut i: usize = 0;
    assert(vv.take(0) =~= Seq::<(Seq<u8>, int)>::empty());
    while i < n
        invariant
            i <= n,
            vv.len() == n,
            rest@.len() == n - i,
            mentions_view(rest@) == vv.skip(i as int),
            mentions_view(out@) == dedup_uuids(vv.take(i as int)),
        decreases n - i,
    {
        let ghost before = rest@;
        let m = rest.remove(0);
        assert(mentions_view(before)[0] == vv[i as int]);
        assert(mentions_view(rest@) =~= vv.skip(i + 1)) by {
            assert forall|j: int| 0 <= j < rest@.len() implies mentions_view(rest@)[j] == vv.skip(i + 1)[j] by {
                assert(rest@[j] == before[j + 1]);
                assert(mentions_view(before)[j + 1] == vv.skip(i as int)[j + 1]);
            }
        }
        assert(vv.take(i + 1).drop_last() =~= vv.take(i as int));
        assert(vv.take(i + 1).last() == (m.0@, m.1 as int));
        let same = out.len() > 0 && bytes_equal(&out[out.len() - 1].0, &m.0);
        if !same {
            let ghost ov = mentions_view(out@);
            let ghost mv = (m.0@, m.1 as int);
            out.push(m);
            assert(mentions_view(out@) =~= ov.push(mv));
        }
        i = i + 1;
    }
    assert(vv.take(n as int) =~= vv);
    out
}

pub fn bytes_equal(a: &Vec<u8>, b: &Vec<u8>) -> (res: bool)
    ensures
        res == (a@ == b@),
{
    if a.len() != b.len() {
        return false;
    }
    let mut i: usize = 0;
    while i < a.len()
        invariant
            i <= a@.len(),
            a@.len() == b@.len(),
            forall|j: int| 0 <= j < i ==> a@[j] == b@[j],
        decreases a.len() - i,
    {
        if a[i] != b[i] {
            return false;
        }
        i = i + 1;
    }
    assert(a@ =~= b@);
    true
}

pub fn find_uuid_mentions_after_keywords(text: &[u8], keywords: &Vec<Vec<u8>>) -> (res: Vec<(Vec<u8>, usize)>)
    ensures
        mentions_view(res@) == uuid_mentions(text@, keywords@.map_values(|v: Vec<u8>| v@)),
{
    let ghost kv = keywords@.map_values(|v: Vec<u8>| v@);
    let lower = lower_bytes_exec(text);
    let mut mentions: Vec<(Vec<u8>, usize)> = Vec::new();
    let mut i: usize = 0;
    assert(kv.take(0) =~= Seq::<Seq<u8>>::empty());
    assert(mentions_view(mentions@) =~= Seq::<(Seq<u8>, int)>::empty());
    while i < keywords.len()
        invariant
            i <= keywords@.len(),
            kv == keywords@.map_values(|v: Vec<u8>| v@),
            lower@ == lower_bytes(text@),
            mentions_view(mentions@) == all_mentions(text@, kv.take(i as int)),
        decreases keywords.len() - i,
    {
        assert(kv.take(i + 1).drop_last() =~= kv.take(i as int));
        assert(kv.take(i + 1).last() == keywords@[i as int]@);
        mentions_after_exec(text, &lower, &keywords[i], &mut mentions);
        i = i + 1;
    }
    assert(kv.take(i as int) =~= kv);
    dedup_mentions(sort_mentions(mentions))
}


// ---------------------------------------------------------------------------------------------
// k/d/a and avatars in noisy text
// ---------------------------------------------------------------------------------------------

/// The value of a run of ASCII digit bytes.
pub open spec fn byte_digits_value(s: Seq<u8>) -> nat
    decreases s.len(),
{
    if s.len() == 0 {
        0
    } else {
        byte_digits_value(s.drop_last()) * 10 + (s.last() - 48) as nat
    }
}

/// A number of one to three digits at `start`, written without leading zeros, and its end.
pub open spec fn small_number(b: Seq<u8>, start: int) -> Option<(Seq<char>, int)> {
    let end = digits_end(b, start);
    if 1 <= end - start <= 3 {
        Some((crate::text::decimal(byte_digits_value(b.subrange(start, end))), end))
    } else {
        None
    }
}

proof fn lemma_digits_end_range(b: Seq<u8>, start: int)
    requires
        0 <= start,
    ensures
        start <= digits_end(b, start),
        digits_end(b, start) <= b.len() || digits_end(b, start) == start,
        forall|k: int| start <= k < digits_end(b, start) ==> is_digit_byte(#[trigger] b[k]),
    decreases b.len() - start,
{
    if start < b.len() && is_digit_byte(b[start]) {
        lemma_digits_end_range(b, start + 1);
    }
}

fn read_small_number(b: &[u8], start: usize) -> (res: Option<(Vec<char>, usize)>)
    ensures
        match res {
            Some((t, e)) => small_number(b@, start as int) == Some((t@, e as int)),
            None => small_number(b@, start as int) is None,
        },
{
    let end = read_ascii_digits_end(b, start);
    proof {
        lemma_digits_end_range(b@, start as int);
    }
    let count = end - start;
    if count < 1 || count > 3 {
        return None;
    }
    let mut v: u64 = 0;
    let mut i = start;
    assert(b@.subrange(start as int, start as int) =~= Seq::<u8>::empty());
    while i < end
        invariant
            start <= i <= end <= b@.len(),
            end - start <= 3,
            forall|k: int| start <= k < end ==> is_digit_byte(#[trigger] b@[k]),
            v == byte_digits_value(b@.subrange(start as int, i as int)),
            v < 1000,
            i - start == 0 ==> v == 0,
            i - start == 1 ==> v < 10,
            i - start == 2 ==> v < 100,
        decreases end - i,
    {
        let d = b[i] - 48;
        assert(b@.subrange(start as int, i + 1).drop_last() =~= b@.subrange(start as int, i as int));
        v = v * 10 + d as u64;
        i = i + 1;
    }
    Some((crate::text::decimal_u64(v), end))
}

/// `find_kda_pattern`'s scan from `index`: the first `k/d/a` of small numbers.
pub open spec fn kda_scan(b: Seq<u8>, index: int) -> Option<Seq<char>>
    decreases b.len() - index,
{
    if index < 0 || index >= b.len() {
        None
    } else if !is_digit_byte(b[index]) {
        kda_scan(b, index + 1)
    } else {
        match small_number(b, index) {
            None => kda_scan(b, index + 1),
            Some((k, ak)) => if ak <= index || ak > b.len() {
                None
            } else if !(ak < b.len() && b[ak] == 47) {
                kda_scan(b, ak)
            } else {
                match small_number(b, ak + 1) {
                    None => kda_scan(b, ak + 1),
                    Some((d, ad)) => if ad <= ak + 1 || ad > b.len() {
                        None
                    } else if !(ad < b.len() && b[ad] == 47) {
                        kda_scan(b, ad)
                    } else {
                        match small_number(b, ad + 1) {
                            None => kda_scan(b, ad + 1),
                            Some((a, _)) => Some(k + "/"@ + d + "/"@ + a),
                        }
                    },
                }
            },
        }
    }
}

pub fn find_kda_pattern(b: &[u8], from: usize) -> (res: Option<String>)
    ensures
        opt_string(res) == kda_scan(b@, from as int),
{
    let mut index = from;
    while index < b.len()
        invariant
            kda_scan(b@, from as int) == kda_scan(b@, index as int),
        decreases b.len() - index,
    {
        if !(48 <= b[index] && b[index] <= 57) {
            index = index + 1;
            continue;
        }
        let (k, ak) = match read_small_number(b, index) {
            None => {
                index = index + 1;
                continue;
            },
            Some(r) => r,
        };
        proof {
            lemma_digits_end_range(b@, index as int);
        }
        if !(ak < b.len() && b[ak] == 47) {
            index = ak;
            continue;
        }
        let (d, ad) = match read_small_number(b, ak + 1) {
            None => {
                index = ak + 1;
                continue;
            },
            Some(r) => r,
        };
        proof {
            lemma_digits_end_range(b@, ak + 1);
        }
        if !(ad < b.len() && b[ad] == 47) {
            index = ad;
            continue;
        }
        match read_small_number(b, ad + 1) {
            None => {
                index = ad + 1;
                continue;
            },
            Some((a, _)) => {
                let slash = chars_of("/");
                let t = crate::text::concat(
                    &crate::text::concat(&crate::text::concat(&crate::text::concat(&k, &slash), &d), &slash),
                    &a,
                );
                return Some(crate::text::string_of(t.as_slice()));
            },
        }
    }
    None
}

proof fn lemma_digits_end_shift(p: Seq<u8>, s: Seq<u8>, j: int)
    requires
        0 <= j,
    ensures
        digits_end(p + s, p.len() + j) == p.len() + digits_end(s, j),
    decreases s.len() - j,
{
    if j < s.len() {
        assert((p + s)[p.len() + j] == s[j]);
        if is_digit_byte(s[j]) {
            lemma_digits_end_shift(p, s, j + 1);
        }
    }
}

proof fn lemma_small_number_shift(p: Seq<u8>, s: Seq<u8>, j: int)
    requires
        0 <= j,
    ensures
        small_number(p + s, p.len() + j) == match small_number(s, j) {
            Some((x, e)) => Some((x, p.len() + e)),
            None => None,
        },
{
    lemma_digits_end_shift(p, s, j);
    lemma_digits_end_range(s, j);
    let e = digits_end(s, j);
    if 1 <= e - j <= 3 {
        assert((p + s).subrange(p.len() + j, p.len() + e) =~= s.subrange(j, e));
    }
}

/// Scanning for a `k/d/a` inside the tail of a text finds what scanning the tail alone finds.
proof fn lemma_kda_scan_shift(p: Seq<u8>, s: Seq<u8>, j: int)
    requires
        0 <= j,
    ensures
        kda_scan(p + s, p.len() + j) == kda_scan(s, j),
    decreases s.len() + 1 - j,
{
    let b = p + s;
    let n = p.len();
    if j < s.len() {
        assert(b[n + j] == s[j]);
        if !is_digit_byte(s[j]) {
            lemma_kda_scan_shift(p, s, j + 1);
        } else {
            lemma_small_number_shift(p, s, j);
            match small_number(s, j) {
                None => lemma_kda_scan_shift(p, s, j + 1),
                Some((k, ak)) => {
                    if !(ak <= j || ak > s.len()) {
                        if ak < s.len() {
                            assert(b[n + ak] == s[ak]);
                        }
                        if !(ak < s.len() && s[ak] == 47) {
                            lemma_kda_scan_shift(p, s, ak);
                        } else {
                            lemma_small_number_shift(p, s, ak + 1);
                            match small_number(s, ak + 1) {
                                None => lemma_kda_scan_shift(p, s, ak + 1),
                                Some((d, ad)) => {
                                    if !(ad <= ak + 1 || ad > s.len()) {
                                        if ad < s.len() {
                                            assert(b[n + ad] == s[ad]);
                                        }
                                        if !(ad < s.len() && s[ad] == 47) {
                                            lemma_kda_scan_shift(p, s, ad);
                                        } else {
                                            lemma_small_number_shift(p, s, ad + 1);
                                            if small_number(s, ad + 1) is None {
                                                lemma_kda_scan_shift(p, s, ad + 1);
                                            }
                                        }
                                    }
                                },
                            }
                        }
                    }
                },
            }
        }
    }
}

proof fn lemma_find_bytes_first(hay: Seq<u8>, needle: Seq<u8>, from: int, end: int, i: int)
    requires
        0 <= from <= i,
        i + needle.len() <= end <= hay.len(),
        bytes_at(hay, needle, i),
        forall|j: int| from <= j < i ==> !bytes_at(hay, needle, j),
    ensures
        find_bytes(hay, needle, from, end, false) == Some(i),
    decreases i - from,
{
    if from < i {
        lemma_find_bytes_first(hay, needle, from + 1, end, i);
    }
}

/// The `k/d/a` of a text is the one that follows its first "kda" (in any case): a text whose
/// first "kda" opens its tail `s`, and whose tail holds a `k/d/a`, gives what the tail alone
/// gives, whatever `k/d/a`-like numbers stand before it.
pub proof fn law_kda_follows_keyword(p: Seq<u8>, s: Seq<u8>)
    requires
        bytes_at(lower_bytes(s), seq![107u8, 100, 97], 0),
        forall|j: int| 0 <= j < p.len() ==> !bytes_at(lower_bytes(p + s), seq![107u8, 100, 97], j),
        kda_in(s) is Some,
    ensures
        kda_in(p + s) == kda_in(s),
{
    let kda = seq![107u8, 100, 97];
    let h = lower_bytes(p + s);
    assert(h =~= lower_bytes(p) + lower_bytes(s));
    assert(h.subrange(p.len() as int, p.len() + 3int) =~= lower_bytes(s).subrange(0, 3));
    lemma_find_bytes_first(h, kda, 0, (p + s).len() as int, p.len() as int);
    lemma_find_bytes_first(lower_bytes(s), kda, 0, s.len() as int, 0);
    lemma_kda_scan_shift(p, s, 0);
}


/// The `k/d/a` after the first "kda" in the text, else the first anywhere.
pub open spec fn kda_in(text: Seq<u8>) -> Option<Seq<char>> {
    let first = match find_bytes(lower_bytes(text), seq![107u8, 100, 97], 0, text.len() as int, false) {
        Some(i) => kda_scan(text, i),
        None => None,
    };
    match first {
        Some(k) => Some(k),
        None => kda_scan(text, 0),
    }
}

pub fn find_kda_in(text: &[u8]) -> (res: Option<String>)
    ensures
        opt_string(res) == kda_in(text@),
{
    let lower = lower_bytes_exec(text);
    let kda: Vec<u8> = vec![107, 100, 97];
    assert(kda@ =~= seq![107u8, 100, 97]);
    let first = match find_bytes_exec(&lower, &kda, 0, lower.len(), false) {
        Some(i) => find_kda_pattern(text, i),
        None => None,
    };
    match first {
        Some(k) => Some(k),
        None => find_kda_pattern(text, 0),
    }
}


/// The last `i` with `i + needle.len() <= end` at which `needle` occurs.
pub open spec fn rfind_bytes(hay: Seq<u8>, needle: Seq<u8>, end: int, i: int) -> Option<int>
    decreases i + 1,
{
    if i < 0 {
        None
    } else if i + needle.len() <= end && bytes_at(hay, needle, i) {
        Some(i)
    } else {
        rfind_bytes(hay, needle, end, i - 1)
    }
}

fn rfind_bytes_exec(hay: &[u8], needle: &[u8], end: usize) -> (res: Option<usize>)
    requires
        end <= hay@.len(),
    ensures
        opt_usize(res) == rfind_bytes(hay@, needle@, end as int, end as int),
{
    let mut i = end;
    loop
        invariant
            i <= end <= hay@.len(),
            rfind_bytes(hay@, needle@, end as int, end as int) == rfind_bytes(hay@, needle@, end as int, i as int),
        decreases i,
    {
        if needle.len() <= end && i <= end - needle.len() && bytes_at_exec(hay, needle, i, false) {
            return Some(i);
        }
        if i == 0 {
            assert(rfind_bytes(hay@, needle@, end as int, -1) is None);
            return None;
        }
        i = i - 1;
    }
}

/// Bytes that end an avatar URL in text.
pub open spec fn is_url_end(b: u8) -> bool {
    b == 34 || b == 39 || b == 44 || b == 125 || b == 93 || b == 32 || b == 9 || b == 13 || b == 10
}

pub open spec fn url_end(text: Seq<u8>, i: int) -> int
    decreases text.len() - i,
{
    if i < 0 || i >= text.len() || is_url_end(text[i]) {
        i
    } else {
        url_end(text, i + 1)
    }
}

/// The avatar URL around the first occurrence of `marker` (`headico/` or `headicon/`): from the
/// last `http` before it (or the marker), up to a quote, comma, bracket or space; trimmed and
/// without surrounding quotes.
pub open spec fn avatar_at_marker(text: Seq<u8>, marker: Seq<u8>) -> Option<Seq<char>> {
    let lower = lower_bytes(text);
    match find_bytes(lower, marker, 0, text.len() as int, false) {
        None => None,
        Some(mi) => {
            let start = match rfind_bytes(lower, seq![104u8, 116, 116, 112], mi, mi) {
                Some(h) => h,
                None => mi,
            };
            let end = url_end(text, mi + marker.len());
            let value = crate::text::strip_char(
                crate::text::strip_char(trim(ascii_chars(text.subrange(start, end))), '"'),
                '\'',
            );
            if value.len() == 0 {
                None
            } else {
                Some(value)
            }
        },
    }
}

pub open spec fn avatar_in(text: Seq<u8>) -> Option<Seq<char>> {
    match avatar_at_marker(text, seq![104u8, 101, 97, 100, 105, 99, 111, 47]) {
        Some(v) => Some(v),
        None => avatar_at_marker(text, seq![104u8, 101, 97, 100, 105, 99, 111, 110, 47]),
    }
}

fn avatar_at_marker_exec(text: &[u8], lower: &Vec<u8>, marker: &Vec<u8>) -> (res: Option<String>)
    requires
        lower@ == lower_bytes(text@),
    ensures
        opt_string(res) == avatar_at_marker(text@, marker@),
{
    let mi = match find_bytes_exec(lower, marker, 0, text.len(), false) {
        Some(mi) => mi,
        None => {
            return None;
        },
    };
    let http: Vec<u8> = vec![104, 116, 116, 112];
    assert(http@ =~= seq![104u8, 116, 116, 112]);
    let start = match rfind_bytes_exec(lower, &http, mi) {
        Some(h) => h,
        None => mi,
    };
    proof {
        lemma_rfind_bytes_range(lower@, http@, mi as int, mi as int);
    }
    let mut end = mi + marker.len();
    while end < text.len() && !(text[end] == 34 || text[end] == 39 || text[end] == 44 || text[end] == 125 || text[end]
        == 93 || text[end] == 32 || text[end] == 9 || text[end] == 13 || text[end] == 10)
        invariant
            mi + marker@.len() <= end <= text@.len(),
            url_end(text@, mi + marker@.len()) == url_end(text@, end as int),
        decreases text.len() - end,
    {
        end = end + 1;
    }
    let raw = ascii_string(&byte_slice(text, start, end));
    let value = crate::text::strip_char_exec(
        &crate::text::strip_char_exec(&crate::text::trim_str(raw.as_str()), '"'),
        '\'',
    );
    if value.len() == 0 {
        None
    } else {
        Some(crate::text::string_of(value.as_slice()))
    }
}

proof fn lemma_rfind_bytes_range(hay: Seq<u8>, needle: Seq<u8>, end: int, i: int)
    ensures
        rfind_bytes(hay, needle, end, i) matches Some(h) ==> 0 <= h <= i,
    decreases i + 1,
{
    if i >= 0 && !(i + needle.len() <= end && bytes_at(hay, needle, i)) {
        lemma_rfind_bytes_range(hay, needle, end, i - 1);
    }
}

pub fn find_avatar_url_in(text: &[u8]) -> (res: Option<String>)
    ensures
        opt_string(res) == avatar_in(text@),
{
    let lower = lower_bytes_exec(text);
    let headico: Vec<u8> = vec![104, 101, 97, 100, 105, 99, 111, 47];
    assert(headico@ =~= seq![104u8, 101, 97, 100, 105, 99, 111, 47]);
    match avatar_at_marker_exec(text, &lower, &headico) {
        Some(v) => {
            return Some(v);
        },
        None => {},
    }
    let headicon: Vec<u8> = vec![104, 101, 97, 100, 105, 99, 111, 110, 47];
    assert(headicon@ =~= seq![104u8, 101, 97, 100, 105, 99, 111, 110, 47]);
    avatar_at_marker_exec(text, &lower, &headicon)
}


// ---------------------------------------------------------------------------------------------
// Account roles in noisy bytes
// ---------------------------------------------------------------------------------------------

/// The end of the run of digits from `i` that stays below `limit`.
pub open spec fn run_end(b: Seq<u8>, limit: int, i: int) -> int
    decreases limit - i,
{
    if i < 0 || i >= limit || i >= b.len() || !is_digit_byte(b[i]) {
        i
    } else {
        run_end(b, limit, i + 1)
    }
}

proof fn lemma_run_end_range(b: Seq<u8>, limit: int, i: int)
    requires
        0 <= i,
    ensures
        i <= run_end(b, limit, i),
        i < limit && i < b.len() ==> run_end(b, limit, i) <= limit && run_end(b, limit, i) <= b.len(),
        i < limit && i < b.len() && is_digit_byte(b[i]) ==> run_end(b, limit, i) > i,
        forall|k: int| i <= k < run_end(b, limit, i) ==> is_digit_byte(#[trigger] b[k]),
    decreases limit - i,
{
    if i < limit && i < b.len() && is_digit_byte(b[i]) {
        lemma_run_end_range(b, limit, i + 1);
    }
}

fn run_end_exec(b: &[u8], limit: usize, i: usize) -> (res: usize)
    requires
        limit <= b@.len(),
    ensures
        res == run_end(b@, limit as int, i as int),
{
    let mut j = i;
    while j < limit && 48 <= b[j] && b[j] <= 57
        invariant
            i <= j,
            limit <= b@.len(),
            run_end(b@, limit as int, i as int) == run_end(b@, limit as int, j as int),
        decreases limit - j,
    {
        j = j + 1;
    }
    j
}

/// The first run of `min_len..=max_len` digits that starts in `index..limit` and ends before
/// `limit`, with its end.
pub open spec fn digit_run_from(b: Seq<u8>, limit: int, min_len: int, max_len: int, index: int) -> Option<(Seq<u8>, int)>
    decreases limit - index,
{
    if index < 0 || index >= limit || index >= b.len() {
        None
    } else if !is_digit_byte(b[index]) {
        digit_run_from(b, limit, min_len, max_len, index + 1)
    } else {
        let e = run_end(b, limit, index);
        if e <= index || e > limit {
            None
        } else if min_len <= e - index <= max_len {
            Some((b.subrange(index, e), e))
        } else {
            digit_run_from(b, limit, min_len, max_len, e)
        }
    }
}

pub open spec fn digit_run_after(b: Seq<u8>, start: int, max_distance: int, min_len: int, max_len: int) -> Option<(Seq<u8>, int)> {
    let reach = if start + max_distance > usize::MAX {
        usize::MAX as int
    } else {
        start + max_distance
    };
    let limit = if reach < b.len() {
        reach
    } else {
        b.len() as int
    };
    digit_run_from(b, limit, min_len, max_len, start)
}

pub fn find_digit_run_after(b: &[u8], start: usize, max_distance: usize, min_len: usize, max_len: usize) -> (res: Option<(Vec<u8>, usize)>)
    ensures
        opt_mention(res) == digit_run_after(b@, start as int, max_distance as int, min_len as int, max_len as int),
        res matches Some((d, e)) ==> e <= b@.len() && start < e && (forall|k: int| 0 <= k < d@.len() ==> is_digit_byte(#[trigger] d@[k])),
{
    let reach = start.saturating_add(max_distance);
    let limit = if reach < b.len() {
        reach
    } else {
        b.len()
    };
    let mut index = start;
    while index < limit
        invariant
            start <= index,
            limit <= b@.len(),
            digit_run_after(b@, start as int, max_distance as int, min_len as int, max_len as int) == digit_run_from(
                b@,
                limit as int,
                min_len as int,
                max_len as int,
                index as int,
            ),
        decreases limit - index,
    {
        if !(48 <= b[index] && b[index] <= 57) {
            index = index + 1;
            continue;
        }
        let e = run_end_exec(b, limit, index);
        proof {
            lemma_run_end_range(b@, limit as int, index as int);
        }
        let count = e - index;
        if min_len <= count && count <= max_len {
            let d = byte_slice(b, index, e);
            assert forall|k: int| 0 <= k < d@.len() implies is_digit_byte(#[trigger] d@[k]) by {
                assert(d@[k] == b@[index + k]);
            }
            return Some((d, e));
        }
        index = e;
    }
    None
}

/// The last run of five or six digits in `index..limit`.
pub open spec fn digit_tag_from(b: Seq<u8>, limit: int, index: int, best: Option<Seq<u8>>) -> Option<Seq<u8>>
    decreases limit - index,
{
    if index < 0 || index >= limit || index >= b.len() {
        best
    } else if !is_digit_byte(b[index]) {
        digit_tag_from(b, limit, index + 1, best)
    } else {
        let e = run_end(b, limit, index);
        if e <= index || e > limit {
            best
        } else {
            digit_tag_from(
                b,
                limit,
                e,
                if 5 <= e - index <= 6 {
                    Some(b.subrange(index, e))
                } else {
                    best
                },
            )
        }
    }
}

/// The tag written as digits after a nick name: the last run of five or six digits before the
/// next "avatar" (in any case) or `end`.
pub open spec fn digit_tag_after_nick(b: Seq<u8>, start: int, end: int) -> Option<Seq<u8>> {
    let limit = match find_bytes(b, seq![97u8, 118, 97, 116, 97, 114], start, end, true) {
        Some(i) => i,
        None => end,
    };
    digit_tag_from(b, limit, start, None)
}

pub fn find_digit_tag_after_nick(b: &[u8], start: usize, end: usize) -> (res: Option<Vec<u8>>)
    requires
        start <= end <= b@.len(),
    ensures
        opt_bytes(res) == digit_tag_after_nick(b@, start as int, end as int),
        res matches Some(d) ==> (forall|k: int| 0 <= k < d@.len() ==> is_digit_byte(#[trigger] d@[k])),
{
    let avatar: Vec<u8> = vec![97, 118, 97, 116, 97, 114];
    assert(avatar@ =~= seq![97u8, 118, 97, 116, 97, 114]);
    let limit = match find_bytes_exec(b, &avatar, start, end, true) {
        Some(i) => i,
        None => end,
    };
    let mut index = start;
    let mut best: Option<Vec<u8>> = None;
    while index < limit
        invariant
            start <= index,
            limit <= b@.len(),
            digit_tag_after_nick(b@, start as int, end as int) == digit_tag_from(
                b@,
                limit as int,
                index as int,
                opt_bytes(best),
            ),
            best matches Some(d) ==> (forall|k: int| 0 <= k < d@.len() ==> is_digit_byte(#[trigger] d@[k])),
        decreases limit - index,
    {
        if !(48 <= b[index] && b[index] <= 57) {
            index = index + 1;
            continue;
        }
        let e = run_end_exec(b, limit, index);
        proof {
            lemma_run_end_range(b@, limit as int, index as int);
        }
        let count = e - index;
        if 5 <= count && count <= 6 {
            let d = byte_slice(b, index, e);
            assert forall|k: int| 0 <= k < d@.len() implies is_digit_byte(#[trigger] d@[k]) by {
                assert(d@[k] == b@[index + k]);
            }
            best = Some(d);
        }
        index = e;
    }
    best
}

/// Bytes that end a quoted value in noisy text.
pub open spec fn is_value_stop(b: u8) -> bool {
    b == 34 || b == 44 || b == 123 || b == 125 || b == 91 || b == 93 || b < 0x20
}

pub open spec fn skip_to_quote(b: Seq<u8>, end: int, i: int) -> int
    decreases end - i,
{
    if i < 0 || i >= end || i >= b.len() || b[i] == 34 {
        i
    } else {
        skip_to_quote(b, end, i + 1)
    }
}

pub open spec fn value_stop(b: Seq<u8>, end: int, i: int) -> int
    decreases end - i,
{
    if i < 0 || i >= end || i >= b.len() || is_value_stop(b[i]) {
        i
    } else {
        value_stop(b, end, i + 1)
    }
}

/// The value after `key` (in any case) in `b[start..end]`: past two quotes, up to a quote,
/// comma, bracket or control byte; decoded, trimmed, without a leading `#`; with the index
/// where it stopped. `None` when the key is missing, the value is empty, or the quotes run past
/// the bytes.
pub open spec fn stringish_after(b: Seq<u8>, key: Seq<u8>, start: int, end: int) -> Option<(Seq<char>, int)> {
    match find_bytes(b, key, start, end, true) {
        None => None,
        Some(ks) => {
            let q1 = skip_to_quote(b, end, ks + key.len());
            let q2 = skip_to_quote(b, end, q1 + 1);
            let value_start = q2 + 1;
            if value_start > b.len() {
                None
            } else {
                let stop = value_stop(b, end, value_start);
                let value = trim(crate::text::strip_start_char(trim(crate::text::utf8_lossy(b.subrange(value_start, stop))), '#'));
                if value.len() == 0 {
                    None
                } else {
                    Some((value, stop))
                }
            }
        },
    }
}

proof fn lemma_skip_to_quote_range(b: Seq<u8>, end: int, i: int)
    requires
        0 <= i,
    ensures
        i <= skip_to_quote(b, end, i),
        i <= end && end <= b.len() ==> skip_to_quote(b, end, i) <= end,
    decreases end - i,
{
    if i < end && i < b.len() && b[i] != 34 {
        lemma_skip_to_quote_range(b, end, i + 1);
    }
}

proof fn lemma_value_stop_range(b: Seq<u8>, end: int, i: int)
    requires
        0 <= i,
    ensures
        i <= value_stop(b, end, i),
        i <= end && end <= b.len() ==> value_stop(b, end, i) <= end,
    decreases end - i,
{
    if i < end && i < b.len() && !is_value_stop(b[i]) {
        lemma_value_stop_range(b, end, i + 1);
    }
}

proof fn lemma_trim_empty(s: Seq<char>)
    requires
        s.len() == 0,
    ensures
        trim(crate::text::strip_start_char(trim(s), '#')).len() == 0,
{
    assert(crate::text::trim_start(s) =~= s);
    assert(crate::text::trim_end(s) =~= s);
    assert(trim(s) =~= s);
    assert(crate::text::strip_start_char(s, '#') =~= s);
}

fn skip_to_quote_exec(b: &[u8], end: usize, i: usize) -> (res: usize)
    requires
        end <= b@.len(),
    ensures
        res == skip_to_quote(b@, end as int, i as int),
{
    let mut j = i;
    while j < end && b[j] != 34
        invariant
            i <= j,
            end <= b@.len(),
            skip_to_quote(b@, end as int, i as int) == skip_to_quote(b@, end as int, j as int),
        decreases end - j,
    {
        j = j + 1;
    }
    j
}

pub fn find_stringish_value_after(b: &[u8], key: &[u8], start: usize, end: usize) -> (res: Option<(String, usize)>)
    requires
        start <= end <= b@.len(),
    ensures
        match res {
            Some((v, stop)) => stringish_after(b@, key@, start as int, end as int) == Some((v@, stop as int)),
            None => stringish_after(b@, key@, start as int, end as int) is None,
        },
        res matches Some((v, stop)) ==> stop <= end,
{
    let ks = match find_bytes_exec(b, key, start, end, true) {
        Some(ks) => ks,
        None => {
            return None;
        },
    };
    let q1 = skip_to_quote_exec(b, end, ks + key.len());
    proof {
        lemma_skip_to_quote_range(b@, end as int, ks + key@.len());
    }
    if q1 >= b.len() {
        proof {
            lemma_skip_to_quote_range(b@, end as int, q1 + 1);
        }
        return None;
    }
    let q2 = skip_to_quote_exec(b, end, q1 + 1);
    proof {
        lemma_skip_to_quote_range(b@, end as int, q1 + 1);
    }
    if q2 >= b.len() {
        return None;
    }
    let value_start = q2 + 1;
    let mut stop = value_start;
    while stop < end && !(b[stop] == 34 || b[stop] == 44 || b[stop] == 123 || b[stop] == 125 || b[stop] == 91
        || b[stop] == 93 || b[stop] < 0x20)
        invariant
            value_start <= stop,
            end <= b@.len(),
            value_stop(b@, end as int, value_start as int) == value_stop(b@, end as int, stop as int),
        decreases end - stop,
    {
        stop = stop + 1;
    }
    proof {
        lemma_value_stop_range(b@, end as int, value_start as int);
    }
    let decoded = crate::text::decode_utf8_lossy(byte_slice(b, value_start, stop).as_slice());
    let value = trim_exec(&crate::text::strip_start_char_exec(&crate::text::trim_str(decoded.as_str()), '#'));
    if value.len() == 0 {
        None
    } else {
        proof {
            if stop > end {
                assert(decoded@.len() == 0);
                lemma_trim_empty(decoded@);
            }
        }
        Some((crate::text::string_of(value.as_slice()), stop))
    }
}


// ---------------------------------------------------------------------------------------------
// Records
// ---------------------------------------------------------------------------------------------

/// An account id: 10 to 24 ASCII digits once trimmed.
pub open spec fn account_id_like(v: Seq<char>) -> bool {
    let t = trim(v);
    10 <= t.len() <= 24 && crate::text::all_digits(t)
}

pub fn looks_like_account_id(value: &str) -> (res: bool)
    ensures
        res == account_id_like(value@),
{
    let t = crate::text::trim_str(value);
    10 <= t.len() && t.len() <= 24 && crate::text::all_digits_exec(&t)
}

/// A tag line: 3 to 6 ASCII letters or digits once trimmed and without leading `#`.
pub open spec fn tag_line_like(v: Seq<char>) -> bool {
    let t = crate::text::strip_start_char(trim(v), '#');
    3 <= t.len() <= 6 && forall|i: int| 0 <= i < t.len() ==> crate::text::is_alnum(#[trigger] t[i])
}

pub fn looks_like_tag_line(value: &str) -> (res: bool)
    ensures
        res == tag_line_like(value@),
{
    let t = crate::text::strip_start_char_exec(&crate::text::trim_str(value), '#');
    if t.len() < 3 || t.len() > 6 {
        return false;
    }
    let mut i: usize = 0;
    while i < t.len()
        invariant
            i <= t@.len(),
            t@ == crate::text::strip_start_char(trim(value@), '#'),
            forall|k: int| 0 <= k < i ==> crate::text::is_alnum(#[trigger] t@[k]),
        decreases t.len() - i,
    {
        if !crate::text::char_is_alnum(t[i]) {
            assert(!crate::text::is_alnum(t@[i as int]));
            return false;
        }
        i = i + 1;
    }
    true
}

/// `name#tag` from a game name and a tag line; the name alone when it already holds a `#` or
/// the tag is empty.
pub open spec fn riot_id(game_name: Seq<char>, tag_line: Seq<char>) -> Option<Seq<char>> {
    let g = trim(game_name);
    let t = crate::text::strip_start_char(trim(tag_line), '#');
    if g.len() == 0 {
        None
    } else if crate::text::contains(g, "#"@) || t.len() == 0 {
        Some(g)
    } else {
        Some(g + "#"@ + t)
    }
}

pub fn format_riot_id(game_name: &str, tag_line: &str) -> (res: Option<String>)
    ensures
        opt_string(res) == riot_id(game_name@, tag_line@),
{
    let g = crate::text::trim_str(game_name);
    let t = crate::text::strip_start_char_exec(&crate::text::trim_str(tag_line), '#');
    if g.len() == 0 {
        return None;
    }
    if crate::text::contains_exec(&g, &chars_of("#")) || t.len() == 0 {
        return Some(crate::text::string_of(g.as_slice()));
    }
    let joined = crate::text::concat(&crate::text::concat(&g, &chars_of("#")), &t);
    Some(crate::text::string_of(joined.as_slice()))
}

/// The player name of an account role: the trimmed nick name when it holds a `#`, else the
/// riot id of the nick name and the tag line.
pub open spec fn role_name(nick: Option<Seq<char>>, tag: Option<Seq<char>>) -> Option<Seq<char>> {
    match nick {
        None => None,
        Some(n) => {
            let t = trim(n);
            if t.len() == 0 {
                None
            } else if crate::text::contains(t, "#"@) {
                Some(t)
            } else {
                match tag {
                    None => None,
                    Some(g) => riot_id(t, g),
                }
            }
        },
    }
}

pub fn role_player_name(nick_name: Option<&str>, tag_line: Option<&str>) -> (res: Option<String>)
    ensures
        opt_string(res) == role_name(
            match nick_name {
                Some(n) => Some(n@),
                None => None,
            },
            match tag_line {
                Some(t) => Some(t@),
                None => None,
            },
        ),
{
    let n = match nick_name {
        Some(n) => crate::text::trim_str(n),
        None => {
            return None;
        },
    };
    if n.len() == 0 {
        return None;
    }
    if crate::text::contains_exec(&n, &chars_of("#")) {
        return Some(crate::text::string_of(n.as_slice()));
    }
    match tag_line {
        None => None,
        Some(t) => {
            let trimmed = crate::text::string_of(n.as_slice());
            proof {
                crate::text::lemma_trim_idempotent(nick_name.unwrap()@);
            }
            format_riot_id(trimmed.as_str(), t)
        },
    }
}

pub const BATTLE_ID_KEYS: [&'static str; 3] = ["battleId", "battle_id", "battleID"];

pub const MATCH_ID_KEYS: [&'static str; 4] = ["matchId", "match_id", "gameId", "game_id"];

pub const KILLS_KEYS: [&'static str; 3] = ["kills", "killCount", "kill_count"];

pub const DEATHS_KEYS: [&'static str; 3] = ["deaths", "deathCount", "death_count"];

pub const ASSISTS_KEYS: [&'static str; 3] = ["assists", "assistCount", "assist_count"];

pub const KDA_KEYS: [&'static str; 2] = ["kda", "KDA"];

pub const DATE_KEYS: [&'static str; 7] = ["date", "matchDate", "match_date", "battleDate", "startedAt", "startTime", "createTime"];

pub const AVATAR_KEYS: [&'static str; 7] = [
    "heroAvatarUrl",
    "hero_avatar_url",
    "agentAvatarUrl",
    "agent_avatar_url",
    "characterAvatarUrl",
    "avatarUrl",
    "英雄头像",
];

pub const GAME_NAME_KEYS: [&'static str; 5] = ["gameName", "GameName", "riotGameName", "riot_game_name", "playerGameName"];

pub const TAG_LINE_KEYS: [&'static str; 6] = ["tagLine", "TagLine", "tagline", "riotTagLine", "riot_tag_line", "gameTag"];

pub const PLAYER_NAME_KEYS: [&'static str; 9] = [
    "riotId",
    "riot_id",
    "gameNameWithTag",
    "playerName",
    "player_name",
    "userName",
    "nickName",
    "玩家昵称",
    "玩家名",
];

pub const OPENID_KEYS: [&'static str; 6] = ["openid", "open_id", "gopenid", "gopen_id", "accountId", "account_id"];

pub const NICK_KEYS: [&'static str; 7] = ["nick", "nickname", "nickName", "nick_name", "gameName", "playerName", "player_name"];

pub const TAG_KEYS: [&'static str; 6] = ["tag", "tagLine", "tagline", "tag_line", "gameTag", "game_tag"];

/// The riot id built from a document's game name and tag line, wherever they are.
pub open spec fn riot_id_of(v: JsonValue) -> Option<Seq<char>> {
    match find_text(v, GAME_NAME_KEYS@) {
        None => None,
        Some(g) => match find_text(v, TAG_LINE_KEYS@) {
            None => None,
            Some(t) => riot_id(g, t),
        },
    }
}

pub open spec fn player_name_of(v: JsonValue) -> Option<Seq<char>> {
    match riot_id_of(v) {
        Some(p) => Some(p),
        None => find_text(v, PLAYER_NAME_KEYS@),
    }
}

pub fn find_player_name(v: &JsonValue) -> (res: Option<String>)
    ensures
        opt_string(res) == player_name_of(*v),
{
    let riot = match find_string_by_keys(v, &GAME_NAME_KEYS) {
        None => None,
        Some(g) => match find_string_by_keys(v, &TAG_LINE_KEYS) {
            None => None,
            Some(t) => format_riot_id(g.as_str(), t.as_str()),
        },
    };
    match riot {
        Some(p) => Some(p),
        None => find_string_by_keys(v, &PLAYER_NAME_KEYS),
    }
}

/// The battle that a record of a battle list describes, for `account_id`.
pub open spec fn battle_view_of(account_id: Seq<char>, v: JsonValue) -> BattleView {
    BattleView {
        account_id: account_id,
        battle_id: find_text(v, BATTLE_ID_KEYS@),
        match_id: find_text(v, MATCH_ID_KEYS@),
        player_name: player_name_of(v),
        kda: match find_text(v, KDA_KEYS@) {
            Some(k) => Some(k),
            None => crate::highlight_log_parser::kda_text(
                find_int(v, KILLS_KEYS@),
                find_int(v, DEATHS_KEYS@),
                find_int(v, ASSISTS_KEYS@),
            ),
        },
        match_date: find_text(v, DATE_KEYS@),
        agent_avatar_url: find_text(v, AVATAR_KEYS@),
        raw_json: crate::json::json_text(v),
    }
}

pub open spec fn battle_found(v: JsonValue) -> bool {
    v is Object && (find_text(v, BATTLE_ID_KEYS@) is Some || find_text(v, MATCH_ID_KEYS@) is Some)
}

pub fn parse_battle_record(account_id: &str, v: &JsonValue) -> (res: Option<LevelDbBattleRecord>)
    ensures
        res is Some <==> battle_found(*v),
        res matches Some(r) ==> r@ == battle_view_of(account_id@, *v),
{
    if !v.is_object_exec() {
        return None;
    }
    let battle_id = find_string_by_keys(v, &BATTLE_ID_KEYS);
    let match_id = find_string_by_keys(v, &MATCH_ID_KEYS);
    if battle_id.is_none() && match_id.is_none() {
        return None;
    }
    let kills = find_i64_by_keys(v, &KILLS_KEYS);
    let deaths = find_i64_by_keys(v, &DEATHS_KEYS);
    let assists = find_i64_by_keys(v, &ASSISTS_KEYS);
    let kda = match find_string_by_keys(v, &KDA_KEYS) {
        Some(k) => Some(k),
        None => crate::highlight_log_parser::build_kda(kills, deaths, assists),
    };
    Some(LevelDbBattleRecord {
        account_id: crate::text::string_of(chars_of(account_id).as_slice()),
        battle_id,
        match_id,
        player_name: find_player_name(v),
        kda,
        match_date: find_string_by_keys(v, &DATE_KEYS),
        agent_avatar_url: find_string_by_keys(v, &AVATAR_KEYS),
        raw_json: crate::json::to_json_text(v),
    })
}

/// The account role that a record describes.
pub open spec fn role_view_of(v: JsonValue, raw_text: Seq<char>) -> RoleView {
    RoleView {
        account_id: match find_text(v, OPENID_KEYS@) {
            Some(a) => a,
            None => seq![],
        },
        player_name: role_name(find_text(v, NICK_KEYS@), find_text(v, TAG_KEYS@)),
        nick_name: find_text(v, NICK_KEYS@),
        tag_line: find_text(v, TAG_KEYS@),
        raw_text: raw_text,
    }
}

pub open spec fn role_found(v: JsonValue) -> bool {
    v is Object && (find_text(v, OPENID_KEYS@) matches Some(a) && account_id_like(a))
}

pub fn parse_account_role_record(v: &JsonValue, raw_text: &str) -> (res: Option<LevelDbAccountRoleRecord>)
    ensures
        res is Some <==> role_found(*v),
        res matches Some(r) ==> r@ == role_view_of(*v, raw_text@),
{
    if !v.is_object_exec() {
        return None;
    }
    let account_id = match find_string_by_keys(v, &OPENID_KEYS) {
        Some(a) => a,
        None => {
            return None;
        },
    };
    if !looks_like_account_id(account_id.as_str()) {
        return None;
    }
    let nick_name = find_string_by_keys(v, &NICK_KEYS);
    let tag_line = find_string_by_keys(v, &TAG_KEYS);
    let player_name = role_player_name(
        match &nick_name {
            Some(n) => Some(n.as_str()),
            None => None,
        },
        match &tag_line {
            Some(t) => Some(t.as_str()),
            None => None,
        },
    );
    Some(LevelDbAccountRoleRecord {
        account_id,
        player_name,
        nick_name,
        tag_line,
        raw_text: crate::text::string_of(chars_of(raw_text).as_slice()),
    })
}


// ---------------------------------------------------------------------------------------------
// The result of a scan
// ---------------------------------------------------------------------------------------------

/// What the battle lists and account roles of a LevelDB directory yielded.
pub struct LevelDbBattleListResult {
    pub battles: Vec<LevelDbBattleRecord>,
    pub account_roles: Vec<LevelDbAccountRoleRecord>,
    pub bad_record_count: usize,
    pub warning_count: usize,
    pub copied_file_count: usize,
    pub used_snapshot: bool,
}

impl LevelDbBattleListResult {
    pub fn new() -> (res: Self)
        ensures
            res.battles@.len() == 0,
            res.account_roles@.len() == 0,
            res.bad_record_count == 0,
            res.warning_count == 0,
            res.copied_file_count == 0,
            !res.used_snapshot,
    {
        LevelDbBattleListResult {
            battles: Vec::new(),
            account_roles: Vec::new(),
            bad_record_count: 0,
            warning_count: 0,
            copied_file_count: 0,
            used_snapshot: false,
        }
    }
}

/// A battle record's fields as values.
pub struct BattleView {
    pub account_id: Seq<char>,
    pub battle_id: Option<Seq<char>>,
    pub match_id: Option<Seq<char>>,
    pub player_name: Option<Seq<char>>,
    pub kda: Option<Seq<char>>,
    pub match_date: Option<Seq<char>>,
    pub agent_avatar_url: Option<Seq<char>>,
    pub raw_json: Seq<char>,
}

/// An account role's fields as values.
pub struct RoleView {
    pub account_id: Seq<char>,
    pub player_name: Option<Seq<char>>,
    pub nick_name: Option<Seq<char>>,
    pub tag_line: Option<Seq<char>>,
    pub raw_text: Seq<char>,
}

impl LevelDbBattleRecord {
    pub open spec fn view(&self) -> BattleView {
        BattleView {
            account_id: self.account_id@,
            battle_id: opt_string(self.battle_id),
            match_id: opt_string(self.match_id),
            player_name: opt_string(self.player_name),
            kda: opt_string(self.kda),
            match_date: opt_string(self.match_date),
            agent_avatar_url: opt_string(self.agent_avatar_url),
            raw_json: self.raw_json@,
        }
    }
}

impl LevelDbAccountRoleRecord {
    pub open spec fn view(&self) -> RoleView {
        RoleView {
            account_id: self.account_id@,
            player_name: opt_string(self.player_name),
            nick_name: opt_string(self.nick_name),
            tag_line: opt_string(self.tag_line),
            raw_text: self.raw_text@,
        }
    }
}

/// What a scan has found so far, and the keys of what it has kept.
pub struct ScanState {
    pub battles: Seq<BattleView>,
    pub roles: Seq<RoleView>,
    pub bad: usize,
    pub seen_battles: Seq<Seq<char>>,
    pub seen_roles: Seq<Seq<char>>,
}

/// The keys of the battles and roles kept so far.
pub struct SeenKeys {
    pub battles: Vec<String>,
    pub roles: Vec<String>,
}

impl SeenKeys {
    pub fn new() -> (res: Self)
        ensures
            res.battles@.len() == 0,
            res.roles@.len() == 0,
    {
        SeenKeys { battles: Vec::new(), roles: Vec::new() }
    }
}

pub open spec fn scan_state(r: LevelDbBattleListResult, seen: SeenKeys) -> ScanState {
    ScanState {
        battles: r.battles@.map_values(|b: LevelDbBattleRecord| b@),
        roles: r.account_roles@.map_values(|a: LevelDbAccountRoleRecord| a@),
        bad: r.bad_record_count,
        seen_battles: seen.battles@.map_values(|k: String| k@),
        seen_roles: seen.roles@.map_values(|k: String| k@),
    }
}

/// The counts that only reading files changes are the same in `a` and `b`.
pub open spec fn same_file_counts(a: LevelDbBattleListResult, b: LevelDbBattleListResult) -> bool {
    a.warning_count == b.warning_count && a.copied_file_count == b.copied_file_count && a.used_snapshot == b.used_snapshot
}

/// The key under which a battle is kept once: account, battle id and match id joined by `|`.
pub open spec fn battle_key(b: BattleView) -> Seq<char> {
    b.account_id + "|"@ + match b.battle_id {
        Some(x) => x,
        None => seq![],
    } + "|"@ + match b.match_id {
        Some(x) => x,
        None => seq![],
    }
}

/// Keeps a battle unless one with its key was kept; tells whether it was.
pub open spec fn push_battle(st: ScanState, b: BattleView) -> (ScanState, bool) {
    let k = battle_key(b);
    if st.seen_battles.contains(k) {
        (st, false)
    } else {
        (ScanState { battles: st.battles.push(b), seen_battles: st.seen_battles.push(k), ..st }, true)
    }
}

/// Keeps a role whose player name holds a `#`, unless one with its account and name was kept.
pub open spec fn push_role(st: ScanState, r: RoleView) -> (ScanState, bool) {
    match r.player_name {
        None => (st, false),
        Some(p) => if !crate::text::contains(p, "#"@) {
            (st, false)
        } else {
            let k = r.account_id + "|"@ + p;
            if st.seen_roles.contains(k) {
                (st, false)
            } else {
                (ScanState { roles: st.roles.push(r), seen_roles: st.seen_roles.push(k), ..st }, true)
            }
        },
    }
}

/// The scan state `st` with the bad-record count raised by one (it stays at its maximum).
pub open spec fn with_bad(st: ScanState) -> ScanState {
    ScanState { bad: crate::highlight_log_parser::bump(st.bad), ..st }
}

fn opt_text(o: &Option<String>) -> (res: Vec<char>)
    ensures
        res@ == match opt_string(*o) {
            Some(x) => x,
            None => Seq::<char>::empty(),
        },
{
    match o {
        Some(x) => chars_of(x.as_str()),
        None => Vec::new(),
    }
}

fn seen_contains(seen: &Vec<String>, key: &Vec<char>) -> (res: bool)
    ensures
        res == seen@.map_values(|k: String| k@).contains(key@),
{
    let ghost sv = seen@.map_values(|k: String| k@);
    let mut i: usize = 0;
    while i < seen.len()
        invariant
            i <= seen@.len(),
            sv == seen@.map_values(|k: String| k@),
            forall|j: int| 0 <= j < i ==> sv[j] != key@,
        decreases seen.len() - i,
    {
        if crate::text::seq_eq(&chars_of(seen[i].as_str()), key) {
            assert(sv[i as int] == key@);
            return true;
        }
        i = i + 1;
    }
    false
}

pub fn push_battle_record(result: &mut LevelDbBattleListResult, seen: &mut SeenKeys, battle: LevelDbBattleRecord) -> (res: bool)
    ensures
        (scan_state(*final(result), *final(seen)), res) == push_battle(scan_state(*old(result), *old(seen)), battle@),
        same_file_counts(*final(result), *old(result)),
{
    let bar = chars_of("|");
    let key = crate::text::concat(
        &crate::text::concat(
            &crate::text::concat(&crate::text::concat(&chars_of(battle.account_id.as_str()), &bar), &opt_text(&battle.battle_id)),
            &bar,
        ),
        &opt_text(&battle.match_id),
    );
    if seen_contains(&seen.battles, &key) {
        return false;
    }
    let ghost bv = battle@;
    let ghost old_b = result.battles@;
    let ghost old_s = seen.battles@;
    result.battles.push(battle);
    seen.battles.push(crate::text::string_of(key.as_slice()));
    assert(result.battles@.map_values(|b: LevelDbBattleRecord| b@) =~= old_b.map_values(|b: LevelDbBattleRecord| b@).push(bv));
    assert(seen.battles@.map_values(|k: String| k@) =~= old_s.map_values(|k: String| k@).push(key@));
    true
}

pub fn push_account_role(result: &mut LevelDbBattleListResult, seen: &mut SeenKeys, role: LevelDbAccountRoleRecord) -> (res: bool)
    ensures
        (scan_state(*final(result), *final(seen)), res) == push_role(scan_state(*old(result), *old(seen)), role@),
        same_file_counts(*final(result), *old(result)),
{
    let p = match &role.player_name {
        Some(p) => chars_of(p.as_str()),
        None => {
            return false;
        },
    };
    if !crate::text::contains_exec(&p, &chars_of("#")) {
        return false;
    }
    let key = crate::text::concat(&crate::text::concat(&chars_of(role.account_id.as_str()), &chars_of("|")), &p);
    if seen_contains(&seen.roles, &key) {
        return false;
    }
    let ghost rv = role@;
    let ghost old_r = result.account_roles@;
    let ghost old_s = seen.roles@;
    result.account_roles.push(role);
    seen.roles.push(crate::text::string_of(key.as_slice()));
    assert(result.account_roles@.map_values(|a: LevelDbAccountRoleRecord| a@) =~= old_r.map_values(
        |a: LevelDbAccountRoleRecord| a@,
    ).push(rv));
    assert(seen.roles@.map_values(|k: String| k@) =~= old_s.map_values(|k: String| k@).push(key@));
    true
}

fn count_bad(result: &mut LevelDbBattleListResult)
    ensures
        final(result).bad_record_count == crate::highlight_log_parser::bump(old(result).bad_record_count),
        final(result).battles@ == old(result).battles@,
        final(result).account_roles@ == old(result).account_roles@,
        same_file_counts(*final(result), *old(result)),
{
    if result.bad_record_count < usize::MAX {
        result.bad_record_count = result.bad_record_count + 1;
    }
}


// ---------------------------------------------------------------------------------------------
// Well-formed JSON arrays
// ---------------------------------------------------------------------------------------------

/// The records of a battle list from `i` on: each battle kept once, each record that is no
/// battle counted as bad; whether a battle was kept.
pub open spec fn battle_items(st: ScanState, account: Seq<char>, items: Seq<JsonValue>, i: int, any: bool) -> (ScanState, bool)
    decreases items.len() - i,
{
    if i < 0 || i >= items.len() {
        (st, any)
    } else if battle_found(items[i]) {
        let (next, added) = push_battle(st, battle_view_of(account, items[i]));
        battle_items(next, account, items, i + 1, any || added)
    } else {
        battle_items(with_bad(st), account, items, i + 1, any)
    }
}

/// A battle list given as JSON text: its records when it is an array, else an error.
pub open spec fn battle_list_json(st: ScanState, account: Seq<char>, json: Seq<char>) -> (ScanState, Result<bool, ()>) {
    match crate::json::json_parse(json) {
        Some(JsonValue::Array(items)) => {
            let (next, any) = battle_items(st, account, items@, 0, false);
            (next, Ok(any))
        },
        _ => (st, Err(())),
    }
}

pub fn parse_battle_list_json(account_id: &str, json: &str, result: &mut LevelDbBattleListResult, seen: &mut SeenKeys) -> (res: Result<bool, ()>)
    ensures
        (scan_state(*final(result), *final(seen)), res) == battle_list_json(scan_state(*old(result), *old(seen)), account_id@, json@),
        same_file_counts(*final(result), *old(result)),
{
    let value = match crate::json::parse_json(json) {
        Some(v) => v,
        None => {
            return Err(());
        },
    };
    let items = match &value {
        JsonValue::Array(items) => items,
        _ => {
            return Err(());
        },
    };
    let ghost start = scan_state(*result, *seen);
    let mut any = false;
    let mut i: usize = 0;
    while i < items.len()
        invariant
            i <= items@.len(),
            value == JsonValue::Array(*items),
            same_file_counts(*result, *old(result)),
            battle_items(start, account_id@, items@, 0, false) == battle_items(
                scan_state(*result, *seen),
                account_id@,
                items@,
                i as int,
                any,
            ),
        decreases items.len() - i,
    {
        match parse_battle_record(account_id, &items[i]) {
            None => {
                count_bad(result);
            },
            Some(battle) => {
                let added = push_battle_record(result, seen, battle);
                any = any || added;
            },
        }
        i = i + 1;
    }
    Ok(any)
}


/// The records of a role list from `i` on: each account role kept once.
pub open spec fn role_items(st: ScanState, raw: Seq<char>, items: Seq<JsonValue>, i: int, any: bool) -> (ScanState, bool)
    decreases items.len() - i,
{
    if i < 0 || i >= items.len() {
        (st, any)
    } else if role_found(items[i]) {
        let (next, added) = push_role(st, role_view_of(items[i], raw));
        role_items(next, raw, items, i + 1, any || added)
    } else {
        role_items(st, raw, items, i + 1, any)
    }
}

/// A role list given as JSON text; whether a role was kept.
pub open spec fn role_list_json(st: ScanState, json: Seq<char>) -> (ScanState, bool) {
    match crate::json::json_parse(json) {
        Some(JsonValue::Array(items)) => role_items(st, json, items@, 0, false),
        _ => (st, false),
    }
}

pub fn parse_account_roles_json(json: &str, result: &mut LevelDbBattleListResult, seen: &mut SeenKeys) -> (res: bool)
    ensures
        (scan_state(*final(result), *final(seen)), res) == role_list_json(scan_state(*old(result), *old(seen)), json@),
        same_file_counts(*final(result), *old(result)),
{
    let value = match crate::json::parse_json(json) {
        Some(v) => v,
        None => {
            return false;
        },
    };
    let items = match &value {
        JsonValue::Array(items) => items,
        _ => {
            return false;
        },
    };
    let ghost start = scan_state(*result, *seen);
    let mut any = false;
    let mut i: usize = 0;
    while i < items.len()
        invariant
            i <= items@.len(),
            value == JsonValue::Array(*items),
            same_file_counts(*result, *old(result)),
            role_items(start, json@, items@, 0, false) == role_items(scan_state(*result, *seen), json@, items@, i as int, any),
        decreases items.len() - i,
    {
        match parse_account_role_record(&items[i], json) {
            None => {},
            Some(role) => {
                let added = push_account_role(result, seen, role);
                any = any || added;
            },
        }
        i = i + 1;
    }
    any
}

/// How the JSON text after a key is encoded.
#[derive(Debug, Clone, Copy, PartialEq, Eq, Structural)]
pub enum JsonEncoding {
    Utf16Le,
    Utf8,
}

/// The first `[` in the 512 bytes from `from`, and its encoding: UTF-16 when a NUL follows.
pub open spec fn json_array_start(b: Seq<u8>, from: int) -> Option<(int, JsonEncoding)> {
    let reach = if from + MAX_JSON_START_DISTANCE > usize::MAX {
        usize::MAX as int
    } else {
        from + MAX_JSON_START_DISTANCE
    };
    let limit = if reach < b.len() {
        reach
    } else {
        b.len() as int
    };
    match bracket_from(b, limit, from) {
        None => None,
        Some(i) => Some(
            (
                i,
                if i + 1 < b.len() && b[i + 1] == 0 {
                    JsonEncoding::Utf16Le
                } else {
                    JsonEncoding::Utf8
                },
            ),
        ),
    }
}

pub open spec fn bracket_from(b: Seq<u8>, limit: int, i: int) -> Option<int>
    decreases limit - i,
{
    if i < 0 || i >= limit || i >= b.len() {
        None
    } else if b[i] == 91 {
        Some(i)
    } else {
        bracket_from(b, limit, i + 1)
    }
}

pub fn find_json_array_start(b: &[u8], from: usize) -> (res: Option<(usize, JsonEncoding)>)
    ensures
        match res {
            Some((i, e)) => json_array_start(b@, from as int) == Some((i as int, e)),
            None => json_array_start(b@, from as int) is None,
        },
        res matches Some((i, e)) ==> i < b@.len(),
{
    let reach = from.saturating_add(MAX_JSON_START_DISTANCE);
    let limit = if reach < b.len() {
        reach
    } else {
        b.len()
    };
    let mut i = from;
    while i < limit
        invariant
            from <= i,
            limit <= b@.len(),
            json_array_start(b@, from as int) == match bracket_from(b@, limit as int, i as int) {
                None => None,
                Some(j) => Some(
                    (
                        j,
                        if j + 1 < b@.len() && b@[j + 1] == 0 {
                            JsonEncoding::Utf16Le
                        } else {
                            JsonEncoding::Utf8
                        },
                    ),
                ),
            },
        decreases limit - i,
    {
        if b[i] == 91 {
            let enc = if i + 1 < b.len() && b[i + 1] == 0 {
                JsonEncoding::Utf16Le
            } else {
                JsonEncoding::Utf8
            };
            return Some((i, enc));
        }
        i = i + 1;
    }
    None
}

/// The little-endian 16-bit units of `b`, a trailing odd byte left out.
pub open spec fn le_units(b: Seq<u8>) -> Seq<u16> {
    Seq::new((b.len() / 2) as nat, |k: int| (b[2 * k] as int + 256 * (b[2 * k + 1] as int)) as u16)
}

pub fn decode_utf16le_lossy(b: &[u8]) -> (res: String)
    ensures
        res@ == crate::text::utf16_lossy(le_units(b@)),
{
    let n = b.len() / 2;
    let mut units: Vec<u16> = Vec::new();
    let mut k: usize = 0;
    while k < n
        invariant
            k <= n,
            n == b@.len() / 2,
            n + n <= b@.len(),
            b@.len() <= usize::MAX,
            units@ =~= le_units(b@).take(k as int),
        decreases n - k,
    {
        let j = k + k;
        let lo = b[j] as u16;
        let hi = b[j + 1] as u16;
        let u = lo + 256 * hi;
        units.push(u);
        assert(units@ =~= le_units(b@).take(k + 1));
        k = k + 1;
    }
    assert(le_units(b@).take(n as int) =~= le_units(b@));
    crate::text::decode_utf16_lossy(units.as_slice())
}


/// The scan for the end of the array that starts at `start`: brackets counted outside strings,
/// escapes honoured inside them; the array's text once the count drops back to zero.
pub open spec fn bracket_scan(t: Seq<char>, start: int, i: int, depth: nat, in_string: bool, escaped: bool) -> Option<Seq<char>>
    decreases t.len() - i,
{
    if i < 0 || i >= t.len() {
        None
    } else {
        let c = t[i];
        if in_string {
            if escaped {
                bracket_scan(t, start, i + 1, depth, true, false)
            } else if c == '\\' {
                bracket_scan(t, start, i + 1, depth, true, true)
            } else if c == '"' {
                bracket_scan(t, start, i + 1, depth, false, false)
            } else {
                bracket_scan(t, start, i + 1, depth, true, false)
            }
        } else if c == '"' {
            bracket_scan(t, start, i + 1, depth, true, false)
        } else if c == '[' {
            bracket_scan(t, start, i + 1, depth + 1, false, false)
        } else if c == ']' {
            let d: nat = if depth == 0 {
                0
            } else {
                (depth - 1) as nat
            };
            if d == 0 {
                Some(t.subrange(start, i + 1))
            } else {
                bracket_scan(t, start, i + 1, d, false, false)
            }
        } else {
            bracket_scan(t, start, i + 1, depth, false, false)
        }
    }
}

/// The complete JSON array at the first `[` of `t`.
pub open spec fn array_prefix(t: Seq<char>) -> Option<Seq<char>> {
    match crate::text::char_pos_from(t, '[', 0) {
        None => None,
        Some(start) => bracket_scan(t, start, start, 0, false, false),
    }
}

pub fn json_array_prefix(text: &str) -> (res: Option<String>)
    ensures
        opt_string(res) == array_prefix(text@),
{
    let t = chars_of(text);
    let start = match crate::text::char_pos(&t, '[', 0) {
        Some(s) => s,
        None => {
            return None;
        },
    };
    let mut depth: usize = 0;
    let mut in_string = false;
    let mut escaped = false;
    let mut i = start;
    while i < t.len()
        invariant
            start <= i <= t@.len(),
            t@ == text@,
            depth <= i - start,
            escaped ==> in_string,
            array_prefix(text@) == bracket_scan(t@, start as int, i as int, depth as nat, in_string, escaped),
        decreases t.len() - i,
    {
        let c = t[i];
        if in_string {
            if escaped {
                escaped = false;
            } else if c == '\\' {
                escaped = true;
            } else if c == '"' {
                in_string = false;
            }
        } else if c == '"' {
            in_string = true;
        } else if c == '[' {
            depth = depth + 1;
        } else if c == ']' {
            if depth > 0 {
                depth = depth - 1;
            }
            if depth == 0 {
                return Some(crate::text::string_of(crate::text::slice(&t, start, i + 1).as_slice()));
            }
        }
        i = i + 1;
    }
    None
}

/// The text of the JSON array at `start`, decoded as `enc` from at most 256 KiB of bytes.
pub open spec fn json_array_at(b: Seq<u8>, start: int, enc: JsonEncoding) -> Option<Seq<char>> {
    let reach = if start + MAX_JSON_BYTES > usize::MAX {
        usize::MAX as int
    } else {
        start + MAX_JSON_BYTES
    };
    let end = if reach < b.len() {
        reach
    } else {
        b.len() as int
    };
    let window = b.subrange(start, end);
    array_prefix(
        match enc {
            JsonEncoding::Utf16Le => crate::text::utf16_lossy(le_units(window)),
            JsonEncoding::Utf8 => crate::text::utf8_lossy(window),
        },
    )
}

pub fn extract_json_array(b: &[u8], start: usize, enc: JsonEncoding) -> (res: Option<String>)
    requires
        start <= b@.len(),
    ensures
        opt_string(res) == json_array_at(b@, start as int, enc),
{
    let reach = start.saturating_add(MAX_JSON_BYTES);
    let end = if reach < b.len() {
        reach
    } else {
        b.len()
    };
    let window = byte_slice(b, start, end);
    let text = match enc {
        JsonEncoding::Utf16Le => decode_utf16le_lossy(window.as_slice()),
        JsonEncoding::Utf8 => crate::text::decode_utf8_lossy(window.as_slice()),
    };
    json_array_prefix(text.as_str())
}


// ---------------------------------------------------------------------------------------------
// Damaged battle lists
// ---------------------------------------------------------------------------------------------

pub open spec fn sat_sum(a: int, b: int) -> int {
    if a + b > usize::MAX {
        usize::MAX as int
    } else {
        a + b
    }
}

pub open spec fn min_int(a: int, b: int) -> int {
    if a < b {
        a
    } else {
        b
    }
}

/// The first UUID of `mentions` other than `id`.
pub open spec fn other_uuid(mentions: Seq<(Seq<u8>, int)>, id: Seq<u8>, i: int) -> Option<Seq<u8>>
    decreases mentions.len() - i,
{
    if i < 0 || i >= mentions.len() {
        None
    } else if mentions[i].0 != id {
        Some(mentions[i].0)
    } else {
        other_uuid(mentions, id, i + 1)
    }
}

pub open spec fn opt_latin(o: Option<Seq<u8>>) -> Option<Seq<char>> {
    match o {
        Some(b) => Some(ascii_chars(b)),
        None => None,
    }
}

/// The battle that the text around a candidate match id describes, if it gives a `k/d/a`,
/// an avatar or a battle id; with a single candidate, the whole text may give the first two.
pub open spec fn noisy_battle(raw: Seq<u8>, account: Seq<char>, id: Seq<u8>, pos: int, single: bool) -> Option<BattleView> {
    let ce = min_int(raw.len() as int, sat_sum(pos, 2048));
    let cs = min_int(
        if pos >= 1024 {
            pos - 1024
        } else {
            0
        },
        ce,
    );
    let context = raw.subrange(cs, ce);
    let kda = match kda_in(context) {
        Some(k) => Some(k),
        None => if single {
            kda_in(raw)
        } else {
            None
        },
    };
    let avatar = match avatar_in(context) {
        Some(a) => Some(a),
        None => if single {
            avatar_in(raw)
        } else {
            None
        },
    };
    let battle_id = other_uuid(uuid_mentions(context, battle_keywords()), id, 0);
    if kda is None && avatar is None && battle_id is None {
        None
    } else {
        Some(
            BattleView {
                account_id: account,
                battle_id: opt_latin(battle_id),
                match_id: Some(ascii_chars(id)),
                player_name: None,
                kda: kda,
                match_date: None,
                agent_avatar_url: avatar,
                raw_json: ascii_chars(context),
            },
        )
    }
}

/// The candidates from `i` on, each id tried once.
pub open spec fn noisy_candidates(
    st: ScanState,
    raw: Seq<u8>,
    account: Seq<char>,
    cands: Seq<(Seq<u8>, int)>,
    single: bool,
    i: int,
    tried: Seq<Seq<u8>>,
    any: bool,
) -> (ScanState, bool)
    decreases cands.len() - i,
{
    if i < 0 || i >= cands.len() {
        (st, any)
    } else if tried.contains(cands[i].0) {
        noisy_candidates(st, raw, account, cands, single, i + 1, tried, any)
    } else {
        match noisy_battle(raw, account, cands[i].0, cands[i].1, single) {
            None => noisy_candidates(st, raw, account, cands, single, i + 1, tried.push(cands[i].0), any),
            Some(bv) => {
                let (next, added) = push_battle(st, bv);
                noisy_candidates(next, raw, account, cands, single, i + 1, tried.push(cands[i].0), any || added)
            },
        }
    }
}

/// The printable text of a damaged battle list: from its key up to the next key, at most
/// 64 KiB.
pub open spec fn noisy_window(b: Seq<u8>, prefix_start: int, account_end: int) -> Seq<u8> {
    let max_end = min_int(b.len() as int, sat_sum(prefix_start, MAX_NOISY_BATTLE_SCAN_BYTES as int));
    let next_prefix = match find_bytes(b, BATTLE_LIST_PREFIX@, account_end, b.len() as int, false) {
        Some(i) => i,
        None => max_end,
    };
    compacted(b.subrange(prefix_start, min_int(max_end, next_prefix)))
}

/// A damaged battle list: the UUIDs after match-id keywords (or the first UUID at all) are
/// the candidate matches.
pub open spec fn noisy_battle_list(st: ScanState, b: Seq<u8>, prefix_start: int, account_end: int, account: Seq<char>) -> (ScanState, bool) {
    let raw = noisy_window(b, prefix_start, account_end);
    let mentions = uuid_mentions(raw, match_keywords());
    let cands = if mentions.len() == 0 {
        match find_uuid(raw, 0, raw.len() as int) {
            Some(m) => seq![m],
            None => seq![],
        }
    } else {
        mentions
    };
    noisy_candidates(st, raw, account, cands, cands.len() == 1, 0, seq![], false)
}

fn tried_contains(tried: &Vec<Vec<u8>>, id: &Vec<u8>) -> (res: bool)
    ensures
        res == tried@.map_values(|v: Vec<u8>| v@).contains(id@),
{
    let ghost tv = tried@.map_values(|v: Vec<u8>| v@);
    let mut i: usize = 0;
    while i < tried.len()
        invariant
            i <= tried@.len(),
            tv == tried@.map_values(|v: Vec<u8>| v@),
            forall|j: int| 0 <= j < i ==> tv[j] != id@,
        decreases tried.len() - i,
    {
        if bytes_equal(&tried[i], id) {
            assert(tv[i as int] == id@);
            return true;
        }
        i = i + 1;
    }
    false
}

fn other_uuid_exec(mentions: &Vec<(Vec<u8>, usize)>, id: &Vec<u8>) -> (res: Option<Vec<u8>>)
    ensures
        opt_bytes(res) == other_uuid(mentions_view(mentions@), id@, 0),
{
    let ghost mv = mentions_view(mentions@);
    let mut j: usize = 0;
    while j < mentions.len()
        invariant
            j <= mentions@.len(),
            mv == mentions_view(mentions@),
            other_uuid(mv, id@, 0) == other_uuid(mv, id@, j as int),
        decreases mentions.len() - j,
    {
        assert(mv[j as int].0 == mentions@[j as int].0@);
        if !bytes_equal(&mentions[j].0, id) {
            let u = byte_slice(mentions[j].0.as_slice(), 0, mentions[j].0.len());
            assert(mentions@[j as int].0@.subrange(0, mentions@[j as int].0@.len() as int) =~= mentions@[j as int].0@);
            return Some(u);
        }
        j = j + 1;
    }
    None
}

fn noisy_battle_exec(raw: &Vec<u8>, account_id: &str, id: &Vec<u8>, pos: usize, single: bool) -> (res: Option<LevelDbBattleRecord>)
    ensures
        match res {
            Some(r) => noisy_battle(raw@, account_id@, id@, pos as int, single) == Some(r@),
            None => noisy_battle(raw@, account_id@, id@, pos as int, single) is None,
        },
{
    let reach = pos.saturating_add(2048);
    let ce = if raw.len() < reach {
        raw.len()
    } else {
        reach
    };
    let cs0 = if pos >= 1024 {
        pos - 1024
    } else {
        0
    };
    let cs = if cs0 < ce {
        cs0
    } else {
        ce
    };
    let context = byte_slice(raw, cs, ce);
    let kda = match find_kda_in(&context) {
        Some(k) => Some(k),
        None => if single {
            find_kda_in(raw)
        } else {
            None
        },
    };
    let avatar = match find_avatar_url_in(&context) {
        Some(a) => Some(a),
        None => if single {
            find_avatar_url_in(raw)
        } else {
            None
        },
    };
    let mentions = find_uuid_mentions_after_keywords(&context, &battle_keywords_exec());
    let battle_id = other_uuid_exec(&mentions, id);
    if kda.is_none() && avatar.is_none() && battle_id.is_none() {
        return None;
    }
    let battle_text = match &battle_id {
        Some(b) => Some(ascii_string(b.as_slice())),
        None => None,
    };
    Some(LevelDbBattleRecord {
        account_id: crate::text::string_of(chars_of(account_id).as_slice()),
        battle_id: battle_text,
        match_id: Some(ascii_string(id.as_slice())),
        player_name: None,
        kda,
        match_date: None,
        agent_avatar_url: avatar,
        raw_json: ascii_string(context.as_slice()),
    })
}


fn noisy_window_exec(b: &[u8], prefix_start: usize, account_end: usize) -> (res: Vec<u8>)
    requires
        prefix_start <= account_end <= b@.len(),
        prefix_start < b@.len(),
    ensures
        res@ == noisy_window(b@, prefix_start as int, account_end as int),
{
    let reach = prefix_start.saturating_add(MAX_NOISY_BATTLE_SCAN_BYTES);
    let max_end = if b.len() < reach {
        b.len()
    } else {
        reach
    };
    let next_prefix = match find_bytes_exec(b, &BATTLE_LIST_PREFIX, account_end, b.len(), false) {
        Some(i) => i,
        None => max_end,
    };
    let scan_end = if max_end < next_prefix {
        max_end
    } else {
        next_prefix
    };
    compact_ascii_text(b, prefix_start, scan_end)
}

pub fn parse_noisy_battle_list(
    b: &[u8],
    prefix_start: usize,
    account_end: usize,
    account_id: &str,
    result: &mut LevelDbBattleListResult,
    seen: &mut SeenKeys,
) -> (res: bool)
    requires
        prefix_start <= account_end <= b@.len(),
        prefix_start < b@.len(),
    ensures
        (scan_state(*final(result), *final(seen)), res) == noisy_battle_list(
            scan_state(*old(result), *old(seen)),
            b@,
            prefix_start as int,
            account_end as int,
            account_id@,
        ),
        same_file_counts(*final(result), *old(result)),
{
    let raw = noisy_window_exec(b, prefix_start, account_end);
    let mut cands = find_uuid_mentions_after_keywords(&raw, &match_keywords_exec());
    if cands.len() == 0 {
        match find_uuid_in(&raw, 0, raw.len()) {
            Some(m) => {
                let ghost mv = (m.0@, m.1 as int);
                cands.push(m);
                assert(mentions_view(cands@) =~= seq![mv]);
            },
            None => {
                assert(mentions_view(cands@) =~= Seq::<(Seq<u8>, int)>::empty());
            },
        }
    }
    let ghost cv = mentions_view(cands@);
    let single = cands.len() == 1;
    let ghost start = scan_state(*result, *seen);
    let mut tried: Vec<Vec<u8>> = Vec::new();
    let mut any = false;
    let mut i: usize = 0;
    assert(tried@.map_values(|v: Vec<u8>| v@) =~= Seq::<Seq<u8>>::empty());
    while i < cands.len()
        invariant
            i <= cands@.len(),
            cv == mentions_view(cands@),
            single == (cv.len() == 1),
            same_file_counts(*result, *old(result)),
            noisy_candidates(start, raw@, account_id@, cv, single, 0, seq![], false) == noisy_candidates(
                scan_state(*result, *seen),
                raw@,
                account_id@,
                cv,
                single,
                i as int,
                tried@.map_values(|v: Vec<u8>| v@),
                any,
            ),
        decreases cands.len() - i,
    {
        assert(cv[i as int] == (cands@[i as int].0@, cands@[i as int].1 as int));
        if tried_contains(&tried, &cands[i].0) {
            i = i + 1;
            continue;
        }
        let id = byte_slice(cands[i].0.as_slice(), 0, cands[i].0.len());
        assert(cands@[i as int].0@.subrange(0, cands@[i as int].0@.len() as int) =~= cands@[i as int].0@);
        let pos = cands[i].1;
        let ghost before = tried@.map_values(|v: Vec<u8>| v@);
        match noisy_battle_exec(&raw, account_id, &id, pos, single) {
            None => {},
            Some(battle) => {
                let added = push_battle_record(result, seen, battle);
                any = any || added;
            },
        }
        tried.push(id);
        assert(tried@.map_values(|v: Vec<u8>| v@) =~= before.push(cv[i as int].0));
        i = i + 1;
    }
    any
}


// ---------------------------------------------------------------------------------------------
// Damaged account roles
// ---------------------------------------------------------------------------------------------

pub open spec fn openi_bytes() -> Seq<u8> {
    seq![111u8, 112, 101, 110, 105]
}

pub open spec fn nick_bytes() -> Seq<u8> {
    seq![110u8, 105, 99, 107]
}

pub open spec fn tag_bytes() -> Seq<u8> {
    seq![116u8, 97, 103]
}

/// The tag after a nick name: a quoted value after "tag" that looks like a tag line, else the
/// last five- or six-digit run before "avatar".
pub open spec fn noisy_tag(w: Seq<u8>, nick_end: int, search_end: int) -> Option<Seq<char>> {
    match stringish_after(w, tag_bytes(), nick_end, search_end) {
        Some((v, _)) => if tag_line_like(v) {
            Some(v)
        } else {
            opt_latin(digit_tag_after_nick(w, nick_end, search_end))
        },
        None => opt_latin(digit_tag_after_nick(w, nick_end, search_end)),
    }
}

/// The roles in a damaged role list from `position` on: after each "openi" (any case), an
/// account id of 17 to 20 digits within 160 bytes, then a nick name and a tag within 1 KiB.
pub open spec fn noisy_roles(st: ScanState, w: Seq<u8>, raw: Seq<char>, position: int) -> ScanState
    decreases w.len() - position,
{
    if position < 0 {
        st
    } else {
        match find_bytes(w, openi_bytes(), position, w.len() as int, true) {
            None => st,
            Some(anchor) => if anchor < position || anchor + 5 > w.len() {
                st
            } else {
                match digit_run_after(w, anchor, 160, 17, 20) {
                    None => noisy_roles(st, w, raw, anchor + 5),
                    Some((acct, acct_end)) => if acct_end <= position || acct_end > w.len() {
                        st
                    } else {
                        let search_end = min_int(w.len() as int, sat_sum(acct_end, 1024));
                        match stringish_after(w, nick_bytes(), acct_end, search_end) {
                            None => noisy_roles(st, w, raw, acct_end),
                            Some((nick, nick_end)) => {
                                let tag = noisy_tag(w, nick_end, search_end);
                                match role_name(Some(nick), tag) {
                                    None => noisy_roles(st, w, raw, acct_end),
                                    Some(p) => {
                                        let role = RoleView {
                                            account_id: ascii_chars(acct),
                                            player_name: Some(p),
                                            nick_name: Some(nick),
                                            tag_line: tag,
                                            raw_text: raw,
                                        };
                                        noisy_roles(push_role(st, role).0, w, raw, acct_end)
                                    },
                                }
                            },
                        }
                    },
                }
            },
        }
    }
}

/// The at most 8 KiB of bytes from a role key.
pub open spec fn role_window(b: Seq<u8>, key_start: int) -> Seq<u8> {
    b.subrange(key_start, min_int(b.len() as int, sat_sum(key_start, MAX_ACCOUNT_ROLE_SCAN_BYTES as int)))
}

fn noisy_tag_exec(w: &Vec<u8>, nick_end: usize, search_end: usize) -> (res: Option<String>)
    requires
        nick_end <= search_end <= w@.len(),
    ensures
        opt_string(res) == noisy_tag(w@, nick_end as int, search_end as int),
{
    let tag: Vec<u8> = vec![116, 97, 103];
    assert(tag@ =~= tag_bytes());
    let quoted = match find_stringish_value_after(w, &tag, nick_end, search_end) {
        Some((v, _)) => if looks_like_tag_line(v.as_str()) {
            Some(v)
        } else {
            None
        },
        None => None,
    };
    match quoted {
        Some(v) => Some(v),
        None => match find_digit_tag_after_nick(w, nick_end, search_end) {
            Some(d) => Some(ascii_string(d.as_slice())),
            None => None,
        },
    }
}

pub fn parse_noisy_account_roles(b: &[u8], key_start: usize, result: &mut LevelDbBattleListResult, seen: &mut SeenKeys)
    requires
        key_start <= b@.len(),
    ensures
        scan_state(*final(result), *final(seen)) == noisy_roles(
            scan_state(*old(result), *old(seen)),
            role_window(b@, key_start as int),
            crate::text::utf8_lossy(role_window(b@, key_start as int)),
            0,
        ),
        same_file_counts(*final(result), *old(result)),
{
    let reach = key_start.saturating_add(MAX_ACCOUNT_ROLE_SCAN_BYTES);
    let scan_end = if b.len() < reach {
        b.len()
    } else {
        reach
    };
    let w = byte_slice(b, key_start, scan_end);
    let raw = crate::text::decode_utf8_lossy(w.as_slice());
    let openi: Vec<u8> = vec![111, 112, 101, 110, 105];
    assert(openi@ =~= openi_bytes());
    let nick: Vec<u8> = vec![110, 105, 99, 107];
    assert(nick@ =~= nick_bytes());
    let ghost target = noisy_roles(scan_state(*result, *seen), w@, raw@, 0);
    let mut position: usize = 0;
    while position <= w.len()
        invariant
            w@ == role_window(b@, key_start as int),
            raw@ == crate::text::utf8_lossy(w@),
            openi@ == openi_bytes(),
            nick@ == nick_bytes(),
            same_file_counts(*result, *old(result)),
            target == noisy_roles(scan_state(*old(result), *old(seen)), w@, raw@, 0),
            target == noisy_roles(scan_state(*result, *seen), w@, raw@, position as int),
        decreases w.len() + 1 - position,
    {
        let anchor = match find_bytes_exec(&w, &openi, position, w.len(), true) {
            None => {
                return;
            },
            Some(a) => a,
        };
        let (acct, acct_end) = match find_digit_run_after(&w, anchor, 160, 17, 20) {
            None => {
                position = anchor + 5;
                continue;
            },
            Some(r) => r,
        };
        let reach2 = acct_end.saturating_add(1024);
        let search_end = if w.len() < reach2 {
            w.len()
        } else {
            reach2
        };
        let (nick_name, nick_end) = match find_stringish_value_after(&w, &nick, acct_end, search_end) {
            None => {
                position = acct_end;
                continue;
            },
            Some(r) => r,
        };
        let tag_line = noisy_tag_exec(&w, nick_end, search_end);
        let player_name = role_player_name(
            Some(nick_name.as_str()),
            match &tag_line {
                Some(t) => Some(t.as_str()),
                None => None,
            },
        );
        if player_name.is_none() {
            position = acct_end;
            continue;
        }
        let role = LevelDbAccountRoleRecord {
            account_id: ascii_string(acct.as_slice()),
            player_name,
            nick_name: Some(nick_name),
            tag_line,
            raw_text: crate::text::string_of(chars_of(raw.as_str()).as_slice()),
        };
        push_account_role(result, seen, role);
        position = acct_end;
    }
}


// ---------------------------------------------------------------------------------------------
// Whole files
// ---------------------------------------------------------------------------------------------

/// The JSON array text after `from`, if an array starts within reach and closes.
pub open spec fn json_array_after(b: Seq<u8>, from: int) -> Option<Seq<char>> {
    match json_array_start(b, from) {
        None => None,
        Some((js, enc)) => json_array_at(b, js, enc),
    }
}

/// The role lists from `position` on: each read as JSON, else through the noise.
pub open spec fn role_entries(st: ScanState, b: Seq<u8>, position: int) -> ScanState
    decreases b.len() - position,
{
    if position < 0 {
        st
    } else {
        match find_bytes(b, ACCOUNT_ROLES_KEY@, position, b.len() as int, false) {
            None => st,
            Some(ks) => if ks < position || ks + ACCOUNT_ROLES_KEY@.len() > b.len() {
                st
            } else {
                let vs = ks + ACCOUNT_ROLES_KEY@.len();
                let (st2, ok) = match json_array_after(b, vs) {
                    Some(json) => role_list_json(st, json),
                    None => (st, false),
                };
                let st3 = if ok {
                    st2
                } else {
                    let w = role_window(b, ks);
                    noisy_roles(st2, w, crate::text::utf8_lossy(w), 0)
                };
                role_entries(st3, b, vs)
            },
        }
    }
}

fn json_array_after_exec(b: &[u8], from: usize) -> (res: Option<String>)
    ensures
        opt_string(res) == json_array_after(b@, from as int),
{
    match find_json_array_start(b, from) {
        None => None,
        Some((js, enc)) => extract_json_array(b, js, enc),
    }
}

pub fn parse_account_role_entries(b: &[u8], result: &mut LevelDbBattleListResult, seen: &mut SeenKeys)
    ensures
        scan_state(*final(result), *final(seen)) == role_entries(scan_state(*old(result), *old(seen)), b@, 0),
        same_file_counts(*final(result), *old(result)),
{
    let mut position: usize = 0;
    while position <= b.len()
        invariant
            same_file_counts(*result, *old(result)),
            role_entries(scan_state(*old(result), *old(seen)), b@, 0) == role_entries(
                scan_state(*result, *seen),
                b@,
                position as int,
            ),
        decreases b.len() + 1 - position,
    {
        let ks = match find_bytes_exec(b, &ACCOUNT_ROLES_KEY, position, b.len(), false) {
            None => {
                return;
            },
            Some(k) => k,
        };
        let vs = ks + ACCOUNT_ROLES_KEY.len();
        let ok = match json_array_after_exec(b, vs) {
            Some(json) => parse_account_roles_json(json.as_str(), result, seen),
            None => false,
        };
        if !ok {
            parse_noisy_account_roles(b, ks, result, seen);
        }
        position = vs;
    }
}

/// The battle lists from `position` on: after each key, the account's digits; the list read
/// as JSON, else through the noise; a list that yields nothing counts as bad.
pub open spec fn battle_entries(st: ScanState, b: Seq<u8>, position: int) -> ScanState
    decreases b.len() - position,
{
    if position < 0 {
        st
    } else {
        match find_bytes(b, BATTLE_LIST_PREFIX@, position, b.len() as int, false) {
            None => st,
            Some(ps) => if ps < position || ps + BATTLE_LIST_PREFIX@.len() > b.len() {
                st
            } else {
                let acs = ps + BATTLE_LIST_PREFIX@.len();
                let ace = digits_end(b, acs);
                if ace <= acs || ace > b.len() {
                    battle_entries(st, b, ps + 1)
                } else {
                    let account = ascii_chars(b.subrange(acs, ace));
                    let strict = match json_array_after(b, ace) {
                        Some(json) => Some(battle_list_json(st, account, json)),
                        None => None,
                    };
                    let st1 = match strict {
                        Some((s1, _)) => s1,
                        None => st,
                    };
                    let parsed_strict = strict matches Some((_, Ok(true)));
                    let (st2, noisy) = if parsed_strict {
                        (st1, false)
                    } else {
                        noisy_battle_list(st1, b, ps, ace, account)
                    };
                    let st3 = if !parsed_strict && !noisy && !(strict matches Some((_, Ok(_)))) {
                        with_bad(st2)
                    } else {
                        st2
                    };
                    battle_entries(st3, b, ace)
                }
            },
        }
    }
}

/// Everything that the bytes of one LevelDB file hold: its battle lists, then its role lists.
pub open spec fn leveldb_bytes(st: ScanState, b: Seq<u8>) -> ScanState {
    role_entries(battle_entries(st, b, 0), b, 0)
}

proof fn lemma_digits_end_bound(b: Seq<u8>, start: int)
    requires
        0 <= start <= b.len(),
    ensures
        start <= digits_end(b, start) <= b.len(),
    decreases b.len() - start,
{
    if start < b.len() && is_digit_byte(b[start]) {
        lemma_digits_end_bound(b, start + 1);
    }
}

fn parse_battle_entries(b: &[u8], result: &mut LevelDbBattleListResult, seen: &mut SeenKeys)
    ensures
        scan_state(*final(result), *final(seen)) == battle_entries(scan_state(*old(result), *old(seen)), b@, 0),
        same_file_counts(*final(result), *old(result)),
{
    let mut position: usize = 0;
    while position <= b.len()
        invariant
            same_file_counts(*result, *old(result)),
            battle_entries(scan_state(*old(result), *old(seen)), b@, 0) == battle_entries(
                scan_state(*result, *seen),
                b@,
                position as int,
            ),
        decreases b.len() + 1 - position,
    {
        let ps = match find_bytes_exec(b, &BATTLE_LIST_PREFIX, position, b.len(), false) {
            None => {
                return;
            },
            Some(p) => p,
        };
        let acs = ps + BATTLE_LIST_PREFIX.len();
        let ace = read_ascii_digits_end(b, acs);
        proof {
            lemma_digits_end_bound(b@, acs as int);
        }
        if ace == acs {
            position = ps + 1;
            continue;
        }
        let account = ascii_string(byte_slice(b, acs, ace).as_slice());
        let ghost st0 = scan_state(*result, *seen);
        let strict: Option<Result<bool, ()>> = match json_array_after_exec(b, ace) {
            Some(json) => Some(parse_battle_list_json(account.as_str(), json.as_str(), result, seen)),
            None => None,
        };
        let parsed_strict = match strict {
            Some(Ok(true)) => true,
            _ => false,
        };
        let noisy = if parsed_strict {
            false
        } else {
            parse_noisy_battle_list(b, ps, ace, account.as_str(), result, seen)
        };
        let strict_ok = match strict {
            Some(Ok(_)) => true,
            _ => false,
        };
        if !parsed_strict && !noisy && !strict_ok {
            count_bad(result);
        }
        position = ace;
    }
}

pub fn parse_leveldb_bytes(b: &[u8], result: &mut LevelDbBattleListResult, seen: &mut SeenKeys)
    ensures
        scan_state(*final(result), *final(seen)) == leveldb_bytes(scan_state(*old(result), *old(seen)), b@),
        same_file_counts(*final(result), *old(result)),
{
    parse_battle_entries(b, result, seen);
    parse_account_role_entries(b, result, seen);
}

/// The files of a LevelDB directory that may hold its records: `CURRENT`, `MANIFEST-*`, and
/// `.ldb` and `.log` files (the extension in any case).
pub open spec fn is_candidate_name(name: Seq<char>) -> bool {
    ||| name == "CURRENT"@
    ||| crate::text::starts_with(name, "MANIFEST-"@)
    ||| (crate::scanner::file_extension(name) matches Some(ext) && (crate::text::eq_ic(ext, "ldb"@) || crate::text::eq_ic(ext, "log"@)))
}

pub fn is_leveldb_candidate_file(file_name: &str) -> (res: bool)
    ensures
        res == is_candidate_name(file_name@),
{
    let name = chars_of(file_name);
    if crate::text::seq_eq(&name, &chars_of("CURRENT")) || crate::text::starts_with_exec(&name, &chars_of("MANIFEST-")) {
        return true;
    }
    if crate::text::seq_eq(&name, &chars_of("..")) {
        return false;
    }
    match crate::text::char_rpos(&name, '.') {
        None => false,
        Some(i) => {
            if i == 0 {
                false
            } else {
                let ext = crate::text::slice(&name, i + 1, name.len());
                crate::text::eq_ignore_case(&ext, &chars_of("ldb")) || crate::text::eq_ignore_case(&ext, &chars_of("log"))
            }
        },
    }
}


// ---------------------------------------------------------------------------------------------
// Each battle and role kept once
// ---------------------------------------------------------------------------------------------

pub open spec fn role_key(r: RoleView) -> Seq<char> {
    r.account_id + "|"@ + match r.player_name {
        Some(p) => p,
        None => seq![],
    }
}

/// The keys seen are exactly the keys of what was kept, each once.
pub open spec fn kept_once(st: ScanState) -> bool {
    &&& st.seen_battles == st.battles.map_values(|b: BattleView| battle_key(b))
    &&& st.seen_battles.no_duplicates()
    &&& st.seen_roles == st.roles.map_values(|r: RoleView| role_key(r))
    &&& st.seen_roles.no_duplicates()
}

proof fn lemma_push_battle_kept_once(st: ScanState, b: BattleView)
    requires
        kept_once(st),
    ensures
        kept_once(push_battle(st, b).0),
{
    let k = battle_key(b);
    if !st.seen_battles.contains(k) {
        let next = push_battle(st, b).0;
        assert(next.battles.map_values(|x: BattleView| battle_key(x)) =~= st.battles.map_values(
            |x: BattleView| battle_key(x),
        ).push(k));
        assert forall|i: int, j: int| 0 <= i < next.seen_battles.len() && 0 <= j < next.seen_battles.len() && i != j implies next.seen_battles[i]
            != next.seen_battles[j] by {
            if i == st.seen_battles.len() as int {
                assert(!st.seen_battles.contains(k));
                assert(next.seen_battles[j] == st.seen_battles[j]);
            } else if j == st.seen_battles.len() as int {
                assert(next.seen_battles[i] == st.seen_battles[i]);
            }
        }
    }
}

proof fn lemma_push_role_kept_once(st: ScanState, r: RoleView)
    requires
        kept_once(st),
    ensures
        kept_once(push_role(st, r).0),
{
    if let Some(p) = r.player_name {
        if crate::text::contains(p, "#"@) {
            let k = r.account_id + "|"@ + p;
            if !st.seen_roles.contains(k) {
                let next = push_role(st, r).0;
                assert(role_key(r) == k);
                assert(next.roles.map_values(|x: RoleView| role_key(x)) =~= st.roles.map_values(|x: RoleView| role_key(x)).push(
                    k,
                ));
                assert forall|i: int, j: int| 0 <= i < next.seen_roles.len() && 0 <= j < next.seen_roles.len() && i != j implies next.seen_roles[i]
                    != next.seen_roles[j] by {
                    if i == st.seen_roles.len() as int {
                        assert(next.seen_roles[j] == st.seen_roles[j]);
                    } else if j == st.seen_roles.len() as int {
                        assert(next.seen_roles[i] == st.seen_roles[i]);
                    }
                }
            }
        }
    }
}

proof fn lemma_battle_items_kept_once(st: ScanState, account: Seq<char>, items: Seq<JsonValue>, i: int, any: bool)
    requires
        kept_once(st),
    ensures
        kept_once(battle_items(st, account, items, i, any).0),
    decreases items.len() - i,
{
    if 0 <= i < items.len() {
        if battle_found(items[i]) {
            let (next, added) = push_battle(st, battle_view_of(account, items[i]));
            lemma_push_battle_kept_once(st, battle_view_of(account, items[i]));
            lemma_battle_items_kept_once(next, account, items, i + 1, any || added);
        } else {
            lemma_battle_items_kept_once(with_bad(st), account, items, i + 1, any);
        }
    }
}

proof fn lemma_role_items_kept_once(st: ScanState, raw: Seq<char>, items: Seq<JsonValue>, i: int, any: bool)
    requires
        kept_once(st),
    ensures
        kept_once(role_items(st, raw, items, i, any).0),
    decreases items.len() - i,
{
    if 0 <= i < items.len() {
        if role_found(items[i]) {
            let (next, added) = push_role(st, role_view_of(items[i], raw));
            lemma_push_role_kept_once(st, role_view_of(items[i], raw));
            lemma_role_items_kept_once(next, raw, items, i + 1, any || added);
        } else {
            lemma_role_items_kept_once(st, raw, items, i + 1, any);
        }
    }
}

proof fn lemma_noisy_candidates_kept_once(
    st: ScanState,
    raw: Seq<u8>,
    account: Seq<char>,
    cands: Seq<(Seq<u8>, int)>,
    single: bool,
    i: int,
    tried: Seq<Seq<u8>>,
    any: bool,
)
    requires
        kept_once(st),
    ensures
        kept_once(noisy_candidates(st, raw, account, cands, single, i, tried, any).0),
    decreases cands.len() - i,
{
    if 0 <= i < cands.len() {
        if tried.contains(cands[i].0) {
            lemma_noisy_candidates_kept_once(st, raw, account, cands, single, i + 1, tried, any);
        } else {
            match noisy_battle(raw, account, cands[i].0, cands[i].1, single) {
                None => lemma_noisy_candidates_kept_once(st, raw, account, cands, single, i + 1, tried.push(cands[i].0), any),
                Some(bv) => {
                    let (next, added) = push_battle(st, bv);
                    lemma_push_battle_kept_once(st, bv);
                    lemma_noisy_candidates_kept_once(next, raw, account, cands, single, i + 1, tried.push(cands[i].0), any || added);
                },
            }
        }
    }
}

proof fn lemma_noisy_roles_kept_once(st: ScanState, w: Seq<u8>, raw: Seq<char>, position: int)
    requires
        kept_once(st),
    ensures
        kept_once(noisy_roles(st, w, raw, position)),
    decreases w.len() - position,
{
    if position >= 0 {
        match find_bytes(w, openi_bytes(), position, w.len() as int, true) {
            None => {},
            Some(anchor) => if !(anchor < position || anchor + 5 > w.len()) {
                match digit_run_after(w, anchor, 160, 17, 20) {
                    None => lemma_noisy_roles_kept_once(st, w, raw, anchor + 5),
                    Some((acct, acct_end)) => if !(acct_end <= position || acct_end > w.len()) {
                        let search_end = min_int(w.len() as int, sat_sum(acct_end, 1024));
                        match stringish_after(w, nick_bytes(), acct_end, search_end) {
                            None => lemma_noisy_roles_kept_once(st, w, raw, acct_end),
                            Some((nick, nick_end)) => {
                                let tag = noisy_tag(w, nick_end, search_end);
                                match role_name(Some(nick), tag) {
                                    None => lemma_noisy_roles_kept_once(st, w, raw, acct_end),
                                    Some(p) => {
                                        let role = RoleView {
                                            account_id: ascii_chars(acct),
                                            player_name: Some(p),
                                            nick_name: Some(nick),
                                            tag_line: tag,
                                            raw_text: raw,
                                        };
                                        lemma_push_role_kept_once(st, role);
                                        lemma_noisy_roles_kept_once(push_role(st, role).0, w, raw, acct_end);
                                    },
                                }
                            },
                        }
                    },
                }
            },
        }
    }
}

proof fn lemma_role_entries_kept_once(st: ScanState, b: Seq<u8>, position: int)
    requires
        kept_once(st),
    ensures
        kept_once(role_entries(st, b, position)),
    decreases b.len() - position,
{
    if position >= 0 {
        match find_bytes(b, ACCOUNT_ROLES_KEY@, position, b.len() as int, false) {
            None => {},
            Some(ks) => if !(ks < position || ks + ACCOUNT_ROLES_KEY@.len() > b.len()) {
                let vs = ks + ACCOUNT_ROLES_KEY@.len();
                let (st2, ok) = match json_array_after(b, vs) {
                    Some(json) => role_list_json(st, json),
                    None => (st, false),
                };
                if let Some(json) = json_array_after(b, vs) {
                    if let Some(JsonValue::Array(items)) = crate::json::json_parse(json) {
                        lemma_role_items_kept_once(st, json, items@, 0, false);
                    }
                }
                let st3 = if ok {
                    st2
                } else {
                    let w = role_window(b, ks);
                    lemma_noisy_roles_kept_once(st2, w, crate::text::utf8_lossy(w), 0);
                    noisy_roles(st2, w, crate::text::utf8_lossy(w), 0)
                };
                lemma_role_entries_kept_once(st3, b, vs);
            },
        }
    }
}

proof fn lemma_battle_entries_kept_once(st: ScanState, b: Seq<u8>, position: int)
    requires
        kept_once(st),
    ensures
        kept_once(battle_entries(st, b, position)),
    decreases b.len() - position,
{
    if position >= 0 {
        match find_bytes(b, BATTLE_LIST_PREFIX@, position, b.len() as int, false) {
            None => {},
            Some(ps) => if !(ps < position || ps + BATTLE_LIST_PREFIX@.len() > b.len()) {
                let acs = ps + BATTLE_LIST_PREFIX@.len();
                let ace = digits_end(b, acs);
                if ace <= acs || ace > b.len() {
                    lemma_battle_entries_kept_once(st, b, ps + 1);
                } else {
                    let account = ascii_chars(b.subrange(acs, ace));
                    let strict = match json_array_after(b, ace) {
                        Some(json) => Some(battle_list_json(st, account, json)),
                        None => None,
                    };
                    if let Some(json) = json_array_after(b, ace) {
                        if let Some(JsonValue::Array(items)) = crate::json::json_parse(json) {
                            lemma_battle_items_kept_once(st, account, items@, 0, false);
                        }
                    }
                    let st1 = match strict {
                        Some((s1, _)) => s1,
                        None => st,
                    };
                    let parsed_strict = strict matches Some((_, Ok(true)));
                    let (st2, noisy) = if parsed_strict {
                        (st1, false)
                    } else {
                        let raw = noisy_window(b, ps, ace);
                        let mentions = uuid_mentions(raw, match_keywords());
                        let cands = if mentions.len() == 0 {
                            match find_uuid(raw, 0, raw.len() as int) {
                                Some(m) => seq![m],
                                None => seq![],
                            }
                        } else {
                            mentions
                        };
                        lemma_noisy_candidates_kept_once(st1, raw, account, cands, cands.len() == 1, 0, seq![], false);
                        noisy_battle_list(st1, b, ps, ace, account)
                    };
                    let st3 = if !parsed_strict && !noisy && !(strict matches Some((_, Ok(_)))) {
                        with_bad(st2)
                    } else {
                        st2
                    };
                    lemma_battle_entries_kept_once(st3, b, ace);
                }
            },
        }
    }
}

/// However many files are read, every battle is kept once per account, battle id and match
/// id, and every account role once per account and player name: the keys seen are exactly the
/// keys of what was kept, and none repeats.
pub proof fn law_leveldb_keeps_each_record_once(st: ScanState, b: Seq<u8>)
    requires
        kept_once(st),
    ensures
        kept_once(leveldb_bytes(st, b)),
{
    lemma_battle_entries_kept_once(st, b, 0);
    lemma_role_entries_kept_once(battle_entries(st, b, 0), b, 0);
}

} // verus!
