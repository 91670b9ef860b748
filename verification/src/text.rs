//! Character-level text primitives shared by the parsers and display-name tables.
//!
//! Every function works on the Unicode scalar values of a string (`Seq<char>`), and every
//! position is a character index. The spec functions here are the vocabulary that the
//! contracts of the rest of the library are written in.
use vstd::prelude::*;

verus! {

// ---------------------------------------------------------------------------------------------
// Character classes
// ---------------------------------------------------------------------------------------------

/// ASCII decimal digit `0`..=`9`.
pub open spec fn is_digit(c: char) -> bool {
    48 <= (c as u32) <= 57
}

/// ASCII upper-case letter.
pub open spec fn is_upper(c: char) -> bool {
    65 <= (c as u32) <= 90
}

/// ASCII letter.
pub open spec fn is_alpha(c: char) -> bool {
    is_upper(c) || (97 <= (c as u32) <= 122)
}

/// ASCII letter or digit.
pub open spec fn is_alnum(c: char) -> bool {
    is_alpha(c) || is_digit(c)
}

/// The ASCII lower-case form of `c`; every other character is unchanged.
pub open spec fn lower(c: char) -> char {
    if is_upper(c) {
        ((c as u32) + 32) as char
    } else {
        c
    }
}

/// The Unicode `White_Space` property, which is what `char::is_whitespace` tests.
pub open spec fn is_ws(c: char) -> bool {
    let v = c as u32;
    (9 <= v <= 13) || v == 32 || v == 0x85 || v == 0xa0 || v == 0x1680 || (0x2000 <= v <= 0x200a)
        || v == 0x2028 || v == 0x2029 || v == 0x202f || v == 0x205f || v == 0x3000
}

pub fn char_is_digit(c: char) -> (res: bool)
    ensures
        res == is_digit(c),
{
    let v = c as u32;
    48 <= v && v <= 57
}

pub fn char_is_alpha(c: char) -> (res: bool)
    ensures
        res == is_alpha(c),
{
    let v = c as u32;
    (65 <= v && v <= 90) || (97 <= v && v <= 122)
}

pub fn char_is_alnum(c: char) -> (res: bool)
    ensures
        res == is_alnum(c),
{
    char_is_alpha(c) || char_is_digit(c)
}

pub fn char_is_ws(c: char) -> (res: bool)
    ensures
        res == is_ws(c),
{
    let v = c as u32;
    (9 <= v && v <= 13) || v == 32 || v == 0x85 || v == 0xa0 || v == 0x1680 || (0x2000 <= v && v
        <= 0x200a) || v == 0x2028 || v == 0x2029 || v == 0x202f || v == 0x205f || v == 0x3000
}

pub fn char_lower(c: char) -> (res: char)
    ensures
        res == lower(c),
{
    let v = c as u32;
    if 65 <= v && v <= 90 {
        assert(((v + 32) as u32) <= 0x7f);
        let r = ((v + 32) as u8) as char;
        assert(r == ((c as u32) + 32) as char);
        r
    } else {
        c
    }
}


// ---------------------------------------------------------------------------------------------
// Conversions between strings and character vectors
// ---------------------------------------------------------------------------------------------

/// The characters of `s`, in order.
pub fn chars_of(s: &str) -> (res: Vec<char>)
    ensures
        res@ == s@,
{
    let mut res: Vec<char> = Vec::new();
    for c in it: s.chars()
        invariant
            res@ == it.seq().take(it.index() as int),
    {
        res.push(c);
    }
    res
}

/// Builds a string from its characters: `String`'s `FromIterator<&char>` collects them in order.
#[verifier::external_body]
pub(crate) fn string_of(chars: &[char]) -> (res: String)
    ensures
        res@ == chars@,
{
    chars.iter().collect()
}

/// Copies `v[start..end]`.
pub fn slice(v: &[char], start: usize, end: usize) -> (res: Vec<char>)
    requires
        start <= end <= v@.len(),
    ensures
        res@ == v@.subrange(start as int, end as int),
{
    let mut res: Vec<char> = Vec::new();
    let mut i = start;
    while i < end
        invariant
            start <= i <= end <= v@.len(),
            res@ == v@.subrange(start as int, i as int),
        decreases end - i,
    {
        res.push(v[i]);
        i = i + 1;
    }
    res
}

/// `a` followed by `b`.
pub fn concat(a: &[char], b: &[char]) -> (res: Vec<char>)
    ensures
        res@ == a@ + b@,
{
    let mut res: Vec<char> = Vec::new();
    let mut i: usize = 0;
    while i < a.len()
        invariant
            i <= a@.len(),
            res@ == a@.subrange(0, i as int),
        decreases a.len() - i,
    {
        res.push(a[i]);
        i = i + 1;
    }
    let mut j: usize = 0;
    while j < b.len()
        invariant
            j <= b@.len(),
            res@ == a@ + b@.subrange(0, j as int),
        decreases b.len() - j,
    {
        res.push(b[j]);
        j = j + 1;
    }
    assert(b@.subrange(0, b@.len() as int) =~= b@);
    res
}

// ---------------------------------------------------------------------------------------------
// Case folding and comparison
// ---------------------------------------------------------------------------------------------

/// ASCII lower-casing of every character (`str::to_ascii_lowercase`).
pub open spec fn lower_seq(s: Seq<char>) -> Seq<char> {
    s.map_values(|c: char| lower(c))
}

/// `str::eq_ignore_ascii_case`.
pub open spec fn eq_ic(a: Seq<char>, b: Seq<char>) -> bool {
    lower_seq(a) == lower_seq(b)
}

pub fn to_lower(v: &[char]) -> (res: Vec<char>)
    ensures
        res@ == lower_seq(v@),
{
    let mut res: Vec<char> = Vec::new();
    let mut i: usize = 0;
    while i < v.len()
        invariant
            i <= v@.len(),
            res@ == lower_seq(v@.subrange(0, i as int)),
        decreases v.len() - i,
    {
        let c = char_lower(v[i]);
        res.push(c);
        i = i + 1;
        assert(lower_seq(v@.subrange(0, i as int)) =~= lower_seq(v@.subrange(0, i - 1)).push(c));
    }
    assert(v@.subrange(0, v@.len() as int) =~= v@);
    res
}

pub fn seq_eq(a: &[char], b: &[char]) -> (res: bool)
    ensures
        res == (a@ == b@),
{
    if a.len() != b.len() {
        return false;
    }
    let mut i: usize = 0;
    while i < a.len()
        invariant
            a@.len() == b@.len(),
            i <= a@.len(),
            forall|k: int| 0 <= k < i ==> a@[k] == b@[k],
        decreases a.len() - i,
    {
        if a[i] != b[i] {
            return false;
        }
        i = i + 1;
    }
    assert(a@ =~= b@);
    true
}

pub fn eq_ignore_case(a: &[char], b: &[char]) -> (res: bool)
    ensures
        res == eq_ic(a@, b@),
{
    if a.len() != b.len() {
        assert(lower_seq(a@).len() != lower_seq(b@).len());
        return false;
    }
    let mut i: usize = 0;
    while i < a.len()
        invariant
            a@.len() == b@.len(),
            i <= a@.len(),
            forall|k: int| 0 <= k < i ==> lower(a@[k]) == lower(b@[k]),
        decreases a.len() - i,
    {
        if char_lower(a[i]) != char_lower(b[i]) {
            assert(lower_seq(a@)[i as int] != lower_seq(b@)[i as int]);
            return false;
        }
        i = i + 1;
    }
    assert(lower_seq(a@) =~= lower_seq(b@));
    true
}

// ---------------------------------------------------------------------------------------------
// Searching
// ---------------------------------------------------------------------------------------------

/// `needle` occurs in `hay` at character index `i`.
pub open spec fn occurs_at(hay: Seq<char>, needle: Seq<char>, i: int) -> bool {
    0 <= i && i + needle.len() <= hay.len() && hay.subrange(i, i + needle.len()) == needle
}

/// The first index at or after `from` where `needle` occurs in `hay`.
pub open spec fn find_from(hay: Seq<char>, needle: Seq<char>, from: int) -> Option<int>
    decreases hay.len() - from,
{
    if from < 0 || from + needle.len() > hay.len() {
        None
    } else if occurs_at(hay, needle, from) {
        Some(from)
    } else if from >= hay.len() {
        None
    } else {
        find_from(hay, needle, from + 1)
    }
}

/// `str::find`: the first occurrence of `needle` in `hay`.
pub open spec fn find(hay: Seq<char>, needle: Seq<char>) -> Option<int> {
    find_from(hay, needle, 0)
}

/// `str::contains`.
pub open spec fn contains(hay: Seq<char>, needle: Seq<char>) -> bool {
    find(hay, needle) is Some
}

pub open spec fn starts_with(s: Seq<char>, prefix: Seq<char>) -> bool {
    prefix.len() <= s.len() && s.subrange(0, prefix.len() as int) == prefix
}

pub open spec fn ends_with(s: Seq<char>, suffix: Seq<char>) -> bool {
    suffix.len() <= s.len() && s.subrange(s.len() - suffix.len(), s.len() as int) == suffix
}

pub fn occurs_at_exec(hay: &[char], needle: &[char], i: usize) -> (res: bool)
    ensures
        res == occurs_at(hay@, needle@, i as int),
{
    if needle.len() > hay.len() || i > hay.len() - needle.len() {
        return false;
    }
    let hay_len = hay.len();
    let mut k: usize = 0;
    while k < needle.len()
        invariant
            hay_len == hay@.len(),
            i + needle@.len() <= hay@.len(),
            k <= needle@.len(),
            forall|j: int| 0 <= j < k ==> hay@[i + j] == needle@[j],
        decreases needle.len() - k,
    {
        assert(i + k < hay@.len());
        if hay[i + k] != needle[k] {
            assert(hay@.subrange(i as int, i + needle@.len())[k as int] != needle@[k as int]);
            return false;
        }
        k = k + 1;
    }
    assert(hay@.subrange(i as int, i + needle@.len()) =~= needle@);
    true
}

/// The first occurrence of `needle` at or after `from`.
pub fn find_at(hay: &[char], needle: &[char], from: usize) -> (res: Option<usize>)
    ensures
        match res {
            Some(i) => find_from(hay@, needle@, from as int) == Some(i as int),
            None => find_from(hay@, needle@, from as int) is None,
        },
        res matches Some(i) ==> occurs_at(hay@, needle@, i as int) && from <= i,
{
    if needle.len() > hay.len() {
        return None;
    }
    if needle.len() == 0 {
        if from <= hay.len() {
            assert(occurs_at(hay@, needle@, from as int)) by {
                assert(hay@.subrange(from as int, from as int) =~= needle@);
            }
            return Some(from);
        }
        return None;
    }
    let last = hay.len() - needle.len();
    let mut i = from;
    while i <= last
        invariant
            last + needle@.len() == hay@.len(),
            needle@.len() > 0,
            last < usize::MAX,
            from <= i,
            find_from(hay@, needle@, from as int) == find_from(hay@, needle@, i as int),
        decreases last + 1 - i,
    {
        if occurs_at_exec(hay, needle, i) {
            return Some(i);
        }
        i = i + 1;
    }
    None
}

pub fn contains_exec(hay: &[char], needle: &[char]) -> (res: bool)
    ensures
        res == contains(hay@, needle@),
{
    find_at(hay, needle, 0).is_some()
}

pub fn starts_with_exec(s: &[char], prefix: &[char]) -> (res: bool)
    ensures
        res == starts_with(s@, prefix@),
{
    occurs_at_exec(s, prefix, 0)
}

pub fn ends_with_exec(s: &[char], suffix: &[char]) -> (res: bool)
    ensures
        res == ends_with(s@, suffix@),
{
    if suffix.len() > s.len() {
        return false;
    }
    occurs_at_exec(s, suffix, s.len() - suffix.len())
}

/// The index of the first `c` in `s` at or after `from`.
pub open spec fn char_pos_from(s: Seq<char>, c: char, from: int) -> Option<int>
    decreases s.len() - from,
{
    if from < 0 || from >= s.len() {
        None
    } else if s[from] == c {
        Some(from)
    } else {
        char_pos_from(s, c, from + 1)
    }
}

/// The index of the last `c` in `s` before `end`.
pub open spec fn char_rpos_before(s: Seq<char>, c: char, end: int) -> Option<int>
    decreases end,
{
    if end <= 0 || end > s.len() {
        None
    } else if s[end - 1] == c {
        Some(end - 1)
    } else {
        char_rpos_before(s, c, end - 1)
    }
}

pub fn char_pos(s: &[char], c: char, from: usize) -> (res: Option<usize>)
    ensures
        match res {
            Some(i) => char_pos_from(s@, c, from as int) == Some(i as int),
            None => char_pos_from(s@, c, from as int) is None,
        },
        res matches Some(i) ==> from <= i < s@.len() && s@[i as int] == c,
{
    let mut i = from;
    while i < s.len()
        invariant
            from <= i,
            char_pos_from(s@, c, from as int) == char_pos_from(s@, c, i as int),
        decreases s.len() - i,
    {
        if s[i] == c {
            return Some(i);
        }
        i = i + 1;
    }
    None
}

pub fn char_rpos(s: &[char], c: char) -> (res: Option<usize>)
    ensures
        match res {
            Some(i) => char_rpos_before(s@, c, s@.len() as int) == Some(i as int),
            None => char_rpos_before(s@, c, s@.len() as int) is None,
        },
        res matches Some(i) ==> i < s@.len() && s@[i as int] == c,
{
    let mut end = s.len();
    while end > 0
        invariant
            end <= s@.len(),
            char_rpos_before(s@, c, s@.len() as int) == char_rpos_before(s@, c, end as int),
        decreases end,
    {
        if s[end - 1] == c {
            return Some(end - 1);
        }
        end = end - 1;
    }
    None
}


// ---------------------------------------------------------------------------------------------
// Trimming
// ---------------------------------------------------------------------------------------------

/// `str::trim_start`: drops leading white space.
pub open spec fn trim_start(s: Seq<char>) -> Seq<char>
    decreases s.len(),
{
    if s.len() > 0 && is_ws(s[0]) {
        trim_start(s.drop_first())
    } else {
        s
    }
}

/// `str::trim_end`: drops trailing white space.
pub open spec fn trim_end(s: Seq<char>) -> Seq<char>
    decreases s.len(),
{
    if s.len() > 0 && is_ws(s.last()) {
        trim_end(s.drop_last())
    } else {
        s
    }
}

/// `str::trim`.
pub open spec fn trim(s: Seq<char>) -> Seq<char> {
    trim_end(trim_start(s))
}

/// `str::trim_start_matches(c)` for a single character `c`.
pub open spec fn strip_start_char(s: Seq<char>, c: char) -> Seq<char>
    decreases s.len(),
{
    if s.len() > 0 && s[0] == c {
        strip_start_char(s.drop_first(), c)
    } else {
        s
    }
}

/// `str::trim_end_matches(c)` for a single character `c`.
pub open spec fn strip_end_char(s: Seq<char>, c: char) -> Seq<char>
    decreases s.len(),
{
    if s.len() > 0 && s.last() == c {
        strip_end_char(s.drop_last(), c)
    } else {
        s
    }
}

/// `str::trim_matches(c)` for a single character `c`.
pub open spec fn strip_char(s: Seq<char>, c: char) -> Seq<char> {
    strip_end_char(strip_start_char(s, c), c)
}

/// `str::trim_start_matches(p)` for a string pattern `p`: drops `p` from the front for as
/// long as `s` starts with it.
pub open spec fn strip_prefix_all(s: Seq<char>, p: Seq<char>) -> Seq<char>
    decreases s.len(),
{
    if p.len() > 0 && starts_with(s, p) {
        strip_prefix_all(s.skip(p.len() as int), p)
    } else {
        s
    }
}

/// `str::trim_end_matches(p)` for a string pattern `p`.
pub open spec fn strip_suffix_all(s: Seq<char>, p: Seq<char>) -> Seq<char>
    decreases s.len(),
{
    if p.len() > 0 && ends_with(s, p) {
        strip_suffix_all(s.take(s.len() - p.len()), p)
    } else {
        s
    }
}

proof fn lemma_trim_start_first(s: Seq<char>)
    ensures
        trim_start(s).len() > 0 ==> !is_ws(trim_start(s)[0]),
    decreases s.len(),
{
    if s.len() > 0 && is_ws(s[0]) {
        lemma_trim_start_first(s.drop_first());
    }
}

/// A trimmed value that is not empty starts and ends with a character that is not white space.
pub proof fn lemma_trim_ends(s: Seq<char>)
    ensures
        trim(s).len() > 0 ==> !is_ws(trim(s)[0]) && !is_ws(trim(s).last()),
{
    lemma_trim_start_first(s);
    lemma_trim_end_idempotent(trim_start(s));
}

/// A value that starts and ends with a character that is not white space is its own trim.
pub proof fn lemma_trim_fixed(s: Seq<char>)
    requires
        s.len() > 0,
        !is_ws(s[0]),
        !is_ws(s.last()),
    ensures
        trim(s) == s,
{
    assert(trim_start(s) == s);
    assert(trim_end(s) == s);
}

/// Where `find_from` stops: at an occurrence, the first from `from`; without one, there is none.
pub proof fn lemma_find_from(hay: Seq<char>, needle: Seq<char>, from: int)
    requires
        0 <= from,
    ensures
        find_from(hay, needle, from) matches Some(j) ==> from <= j && occurs_at(hay, needle, j),
        find_from(hay, needle, from) is None ==> forall|j: int| from <= j ==> !occurs_at(hay, needle, j),
    decreases hay.len() + 1 - from,
{
    if from + needle.len() <= hay.len() && !occurs_at(hay, needle, from) {
        lemma_find_from(hay, needle, from + 1);
        assert forall|j: int| from <= j && find_from(hay, needle, from) is None implies !occurs_at(hay, needle, j) by {
            if j > from {
            }
        }
    }
}

/// `trim_end` keeps a prefix and `trim_start` a suffix.
pub proof fn lemma_trim_sides(s: Seq<char>)
    ensures
        trim_end(s).len() <= s.len(),
        trim_end(s) == s.take(trim_end(s).len() as int),
        trim_start(s).len() <= s.len(),
        trim_start(s) == s.skip(s.len() - trim_start(s).len()),
    decreases s.len(),
{
    if s.len() > 0 {
        lemma_trim_sides(s.drop_last());
        lemma_trim_sides(s.drop_first());
        if is_ws(s.last()) {
            assert(s.drop_last().take(trim_end(s).len() as int) =~= s.take(trim_end(s).len() as int));
        } else {
            assert(s.take(s.len() as int) =~= s);
        }
        if is_ws(s[0]) {
            assert(s.drop_first().skip(s.drop_first().len() - trim_start(s).len()) =~= s.skip(s.len() - trim_start(s).len()));
        } else {
            assert(s.skip(0) =~= s);
        }
    } else {
        assert(s.take(0) =~= s);
        assert(s.skip(0) =~= s);
    }
}

/// `strip_start_char` keeps a suffix.
pub proof fn lemma_strip_start_char_suffix(s: Seq<char>, c: char)
    ensures
        strip_start_char(s, c).len() <= s.len(),
        strip_start_char(s, c) == s.skip(s.len() - strip_start_char(s, c).len()),
    decreases s.len(),
{
    if s.len() > 0 && s[0] == c {
        lemma_strip_start_char_suffix(s.drop_first(), c);
        assert(s.drop_first().skip(s.drop_first().len() - strip_start_char(s, c).len()) =~= s.skip(
            s.len() - strip_start_char(s, c).len(),
        ));
    } else {
        assert(s.skip(0) =~= s);
    }
}

/// Every character of `t` occurs in `s`.
pub open spec fn chars_within(t: Seq<char>, s: Seq<char>) -> bool {
    forall|x: char| t.contains(x) ==> s.contains(x)
}

pub proof fn lemma_trim_within(s: Seq<char>)
    ensures
        chars_within(trim_start(s), s),
        chars_within(trim_end(s), s),
        chars_within(trim(s), s),
    decreases s.len(),
{
    if s.len() > 0 {
        lemma_trim_within(s.drop_first());
        lemma_trim_within(s.drop_last());
        assert forall|x: char| s.drop_first().contains(x) implies s.contains(x) by {
            let k = choose|k: int| 0 <= k < s.drop_first().len() && s.drop_first()[k] == x;
            assert(s[k + 1] == x);
        }
        assert forall|x: char| s.drop_last().contains(x) implies s.contains(x) by {
            let k = choose|k: int| 0 <= k < s.drop_last().len() && s.drop_last()[k] == x;
            assert(s[k] == x);
        }
    }
    lemma_trim_within_end(trim_start(s));
}

proof fn lemma_trim_within_end(s: Seq<char>)
    ensures
        chars_within(trim_end(s), s),
    decreases s.len(),
{
    if s.len() > 0 {
        lemma_trim_within_end(s.drop_last());
        assert forall|x: char| s.drop_last().contains(x) implies s.contains(x) by {
            let k = choose|k: int| 0 <= k < s.drop_last().len() && s.drop_last()[k] == x;
            assert(s[k] == x);
        }
    }
}

pub proof fn lemma_strip_affixes_within(s: Seq<char>, p: Seq<char>)
    ensures
        chars_within(strip_prefix_all(s, p), s),
        chars_within(strip_suffix_all(s, p), s),
    decreases s.len(),
{
    if p.len() > 0 && starts_with(s, p) {
        lemma_strip_affixes_within(s.skip(p.len() as int), p);
        let t = s.skip(p.len() as int);
        assert forall|x: char| t.contains(x) implies s.contains(x) by {
            let k = choose|k: int| 0 <= k < t.len() && t[k] == x;
            assert(s[k + p.len()] == x);
        }
    }
    if p.len() > 0 && ends_with(s, p) {
        lemma_strip_affixes_within(s.take(s.len() - p.len()), p);
        let t = s.take(s.len() - p.len());
        assert forall|x: char| t.contains(x) implies s.contains(x) by {
            let k = choose|k: int| 0 <= k < t.len() && t[k] == x;
            assert(s[k] == x);
        }
    }
}

pub proof fn lemma_char_pos_from(s: Seq<char>, c: char, from: int)
    requires
        0 <= from,
    ensures
        match char_pos_from(s, c, from) {
            Some(i) => from <= i < s.len() && s[i] == c && forall|k: int| from <= k < i ==> s[k] != c,
            None => forall|k: int| from <= k < s.len() ==> s[k] != c,
        },
    decreases s.len() - from,
{
    if from < s.len() && s[from] != c {
        lemma_char_pos_from(s, c, from + 1);
    }
}

proof fn lemma_char_rpos_before(s: Seq<char>, c: char, end: int)
    requires
        end <= s.len(),
    ensures
        match char_rpos_before(s, c, end) {
            Some(i) => 0 <= i < end && s[i] == c && forall|k: int| i < k < end ==> s[k] != c,
            None => forall|k: int| 0 <= k < end ==> s[k] != c,
        },
    decreases end,
{
    if end > 0 && s[end - 1] != c {
        lemma_char_rpos_before(s, c, end - 1);
    }
}

/// What precedes the first `c` holds no `c`, and what follows the last `c` holds none either;
/// both hold only characters of `s`.
pub proof fn lemma_cut_at_char(s: Seq<char>, c: char)
    ensures
        !before_first_char(s, c).contains(c),
        chars_within(before_first_char(s, c), s),
        !after_last(s, c).contains(c),
        chars_within(after_last(s, c), s),
{
    lemma_char_pos_from(s, c, 0);
    lemma_char_rpos_before(s, c, s.len() as int);
    let b = before_first_char(s, c);
    let a = after_last(s, c);
    assert forall|x: char| b.contains(x) implies s.contains(x) && x != c by {
        let k = choose|k: int| 0 <= k < b.len() && b[k] == x;
        assert(s[k] == x);
    }
    assert forall|x: char| a.contains(x) implies s.contains(x) && x != c by {
        let k = choose|k: int| 0 <= k < a.len() && a[k] == x;
        match char_rpos_before(s, c, s.len() as int) {
            Some(i) => assert(s[i + 1 + k] == x),
            None => assert(s[k] == x),
        }
    }
}

/// Trimming twice is trimming once.
pub proof fn lemma_trim_idempotent(s: Seq<char>)
    ensures
        trim(trim(s)) == trim(s),
{
    lemma_trim_start_of_trimmed(s);
    lemma_trim_end_idempotent(trim_start(s));
}

proof fn lemma_trim_start_idempotent(s: Seq<char>)
    ensures
        trim_start(trim_start(s)) == trim_start(s),
        trim_start(s).len() > 0 ==> !is_ws(trim_start(s)[0]),
    decreases s.len(),
{
    if s.len() > 0 && is_ws(s[0]) {
        lemma_trim_start_idempotent(s.drop_first());
    }
}

proof fn lemma_trim_end_idempotent(s: Seq<char>)
    ensures
        trim_end(trim_end(s)) == trim_end(s),
        trim_end(s).len() > 0 ==> !is_ws(trim_end(s).last()),
        trim_end(s).len() > 0 && !is_ws(s[0]) ==> !is_ws(trim_end(s)[0]),
        trim_end(s).len() > 0 ==> trim_end(s)[0] == s[0],
    decreases s.len(),
{
    if s.len() > 0 && is_ws(s.last()) {
        lemma_trim_end_idempotent(s.drop_last());
    }
}

/// `trim_start` does nothing to a value whose first character is not white space, and so
/// does nothing to the result of `trim`.
proof fn lemma_trim_start_of_trimmed(s: Seq<char>)
    ensures
        trim_start(trim_end(trim_start(s))) == trim_end(trim_start(s)),
{
    lemma_trim_start_idempotent(s);
    lemma_trim_end_idempotent(trim_start(s));
}

pub fn trim_start_exec(v: &[char]) -> (res: Vec<char>)
    ensures
        res@ == trim_start(v@),
{
    let mut i: usize = 0;
    assert(v@.skip(0) =~= v@);
    while i < v.len() && char_is_ws(v[i])
        invariant
            i <= v@.len(),
            trim_start(v@) == trim_start(v@.skip(i as int)),
        decreases v.len() - i,
    {
        assert(v@.skip(i as int).drop_first() =~= v@.skip(i + 1));
        i = i + 1;
    }
    assert(v@.skip(i as int) =~= v@.subrange(i as int, v@.len() as int));
    slice(v, i, v.len())
}

pub fn trim_end_exec(v: &[char]) -> (res: Vec<char>)
    ensures
        res@ == trim_end(v@),
{
    let mut j: usize = v.len();
    assert(v@.take(v@.len() as int) =~= v@);
    while j > 0 && char_is_ws(v[j - 1])
        invariant
            j <= v@.len(),
            trim_end(v@) == trim_end(v@.take(j as int)),
        decreases j,
    {
        assert(v@.take(j as int).drop_last() =~= v@.take(j - 1));
        j = j - 1;
    }
    assert(v@.take(j as int) =~= v@.subrange(0, j as int));
    slice(v, 0, j)
}

pub fn trim_exec(v: &[char]) -> (res: Vec<char>)
    ensures
        res@ == trim(v@),
{
    let a = trim_start_exec(v);
    trim_end_exec(&a)
}

/// Trims white space from both ends of `s`.
pub fn trim_str(s: &str) -> (res: Vec<char>)
    ensures
        res@ == trim(s@),
{
    let v = chars_of(s);
    trim_exec(&v)
}

pub fn strip_start_char_exec(v: &[char], c: char) -> (res: Vec<char>)
    ensures
        res@ == strip_start_char(v@, c),
{
    let mut i: usize = 0;
    assert(v@.skip(0) =~= v@);
    while i < v.len() && v[i] == c
        invariant
            i <= v@.len(),
            strip_start_char(v@, c) == strip_start_char(v@.skip(i as int), c),
        decreases v.len() - i,
    {
        assert(v@.skip(i as int).drop_first() =~= v@.skip(i + 1));
        i = i + 1;
    }
    assert(v@.skip(i as int) =~= v@.subrange(i as int, v@.len() as int));
    slice(v, i, v.len())
}

pub fn strip_end_char_exec(v: &[char], c: char) -> (res: Vec<char>)
    ensures
        res@ == strip_end_char(v@, c),
{
    let mut j: usize = v.len();
    assert(v@.take(v@.len() as int) =~= v@);
    while j > 0 && v[j - 1] == c
        invariant
            j <= v@.len(),
            strip_end_char(v@, c) == strip_end_char(v@.take(j as int), c),
        decreases j,
    {
        assert(v@.take(j as int).drop_last() =~= v@.take(j - 1));
        j = j - 1;
    }
    assert(v@.take(j as int) =~= v@.subrange(0, j as int));
    slice(v, 0, j)
}

pub fn strip_char_exec(v: &[char], c: char) -> (res: Vec<char>)
    ensures
        res@ == strip_char(v@, c),
{
    let a = strip_start_char_exec(v, c);
    strip_end_char_exec(&a, c)
}

pub fn strip_prefix_all_exec(v: &[char], p: &[char]) -> (res: Vec<char>)
    ensures
        res@ == strip_prefix_all(v@, p@),
{
    if p.len() == 0 {
        return slice(v, 0, v.len());
    }
    let mut i: usize = 0;
    assert(v@.skip(0) =~= v@);
    while p.len() <= v.len() - i && occurs_at_exec(v, p, i)
        invariant
            i <= v@.len(),
            p@.len() > 0,
            strip_prefix_all(v@, p@) == strip_prefix_all(v@.skip(i as int), p@),
        decreases v.len() - i,
    {
        assert(v@.skip(i as int).subrange(0, p@.len() as int) =~= v@.subrange(i as int, i + p@.len()));
        assert(v@.skip(i as int).skip(p@.len() as int) =~= v@.skip(i + p@.len()));
        i = i + p.len();
    }
    assert(!starts_with(v@.skip(i as int), p@)) by {
        if starts_with(v@.skip(i as int), p@) {
            assert(v@.skip(i as int).subrange(0, p@.len() as int) =~= v@.subrange(i as int, i + p@.len()));
        }
    }
    assert(v@.skip(i as int) =~= v@.subrange(i as int, v@.len() as int));
    slice(v, i, v.len())
}

pub fn strip_suffix_all_exec(v: &[char], p: &[char]) -> (res: Vec<char>)
    ensures
        res@ == strip_suffix_all(v@, p@),
{
    if p.len() == 0 {
        return slice(v, 0, v.len());
    }
    let mut j: usize = v.len();
    assert(v@.take(v@.len() as int) =~= v@);
    while j >= p.len() && occurs_at_exec(v, p, j - p.len())
        invariant
            j <= v@.len(),
            p@.len() > 0,
            strip_suffix_all(v@, p@) == strip_suffix_all(v@.take(j as int), p@),
        decreases j,
    {
        assert(v@.take(j as int).subrange(j - p@.len(), j as int) =~= v@.subrange(j - p@.len(), j as int));
        assert(v@.take(j as int).take(j - p@.len()) =~= v@.take(j - p@.len()));
        j = j - p.len();
    }
    assert(!ends_with(v@.take(j as int), p@)) by {
        if ends_with(v@.take(j as int), p@) {
            assert(v@.take(j as int).subrange(j - p@.len(), j as int) =~= v@.subrange(j - p@.len(), j as int));
        }
    }
    assert(v@.take(j as int) =~= v@.subrange(0, j as int));
    slice(v, 0, j)
}


// ---------------------------------------------------------------------------------------------
// Splitting and rewriting
// ---------------------------------------------------------------------------------------------

/// Every `from` replaced by `to` (`str::replace` with single characters).
pub open spec fn replace_char(s: Seq<char>, from: char, to: char) -> Seq<char> {
    s.map_values(|c: char| if c == from { to } else { c })
}

/// The part of `s` after its last `c`, or all of `s` (`s.rsplit(c).next()`).
pub open spec fn after_last(s: Seq<char>, c: char) -> Seq<char> {
    match char_rpos_before(s, c, s.len() as int) {
        Some(i) => s.skip(i + 1),
        None => s,
    }
}

/// The part of `s` before its first `c`, or all of `s` (`s.split(c).next()`).
pub open spec fn before_first_char(s: Seq<char>, c: char) -> Seq<char> {
    match char_pos_from(s, c, 0) {
        Some(i) => s.take(i),
        None => s,
    }
}

/// The part of `s` before the first occurrence of `p`, or all of `s` (`s.split(p).next()`).
pub open spec fn before_first(s: Seq<char>, p: Seq<char>) -> Seq<char> {
    match find(s, p) {
        Some(i) => s.take(i),
        None => s,
    }
}

/// `str::split_once(c)`.
pub open spec fn split_once(s: Seq<char>, c: char) -> Option<(Seq<char>, Seq<char>)> {
    match char_pos_from(s, c, 0) {
        Some(i) => Some((s.take(i), s.skip(i + 1))),
        None => None,
    }
}

/// The longest prefix of `s` made of ASCII digits (`take_while(is_ascii_digit)`).
pub open spec fn digit_prefix(s: Seq<char>) -> Seq<char>
    decreases s.len(),
{
    if s.len() > 0 && is_digit(s[0]) {
        seq![s[0]] + digit_prefix(s.drop_first())
    } else {
        Seq::empty()
    }
}

/// Every character of `s` is an ASCII digit.
pub open spec fn all_digits(s: Seq<char>) -> bool {
    forall|i: int| 0 <= i < s.len() ==> is_digit(#[trigger] s[i])
}

pub fn replace_char_exec(v: &[char], from: char, to: char) -> (res: Vec<char>)
    ensures
        res@ == replace_char(v@, from, to),
{
    let mut res: Vec<char> = Vec::new();
    let mut i: usize = 0;
    while i < v.len()
        invariant
            i <= v@.len(),
            res@ == replace_char(v@.subrange(0, i as int), from, to),
        decreases v.len() - i,
    {
        let c = if v[i] == from {
            to
        } else {
            v[i]
        };
        res.push(c);
        i = i + 1;
        assert(replace_char(v@.subrange(0, i as int), from, to) =~= replace_char(
            v@.subrange(0, i - 1),
            from,
            to,
        ).push(c));
    }
    assert(v@.subrange(0, v@.len() as int) =~= v@);
    res
}

pub fn after_last_exec(v: &[char], c: char) -> (res: Vec<char>)
    ensures
        res@ == after_last(v@, c),
{
    let n = v.len();
    match char_rpos(v, c) {
        Some(i) => {
            assert(v@.skip(i + 1) =~= v@.subrange(i + 1, v@.len() as int));
            slice(v, i + 1, v.len())
        },
        None => slice(v, 0, v.len()),
    }
}

pub fn before_first_char_exec(v: &[char], c: char) -> (res: Vec<char>)
    ensures
        res@ == before_first_char(v@, c),
{
    match char_pos(v, c, 0) {
        Some(i) => slice(v, 0, i),
        None => slice(v, 0, v.len()),
    }
}

pub fn before_first_exec(v: &[char], p: &[char]) -> (res: Vec<char>)
    ensures
        res@ == before_first(v@, p@),
{
    match find_at(v, p, 0) {
        Some(i) => slice(v, 0, i),
        None => slice(v, 0, v.len()),
    }
}

pub fn split_once_exec(v: &[char], c: char) -> (res: Option<(Vec<char>, Vec<char>)>)
    ensures
        match res {
            Some((a, b)) => split_once(v@, c) == Some((a@, b@)),
            None => split_once(v@, c) is None,
        },
{
    let n = v.len();
    match char_pos(v, c, 0) {
        Some(i) => {
            assert(v@.skip(i + 1) =~= v@.subrange(i + 1, v@.len() as int));
            Some((slice(v, 0, i), slice(v, i + 1, v.len())))
        },
        None => None,
    }
}

pub fn digit_prefix_exec(v: &[char], from: usize) -> (res: Vec<char>)
    requires
        from <= v@.len(),
    ensures
        res@ == digit_prefix(v@.skip(from as int)),
{
    let mut i = from;
    while i < v.len() && char_is_digit(v[i])
        invariant
            from <= i <= v@.len(),
            forall|k: int| from <= k < i ==> is_digit(#[trigger] v@[k]),
        decreases v.len() - i,
    {
        i = i + 1;
    }
    proof {
        lemma_digit_prefix_run(v@, from as int, i as int);
    }
    slice(v, from, i)
}

/// A run of digits `s[from..end]` that is not followed by a digit is the digit prefix of
/// `s[from..]`.
pub proof fn lemma_digit_prefix_run(s: Seq<char>, from: int, end: int)
    requires
        0 <= from <= end <= s.len(),
        forall|k: int| from <= k < end ==> is_digit(#[trigger] s[k]),
        end == s.len() || !is_digit(s[end]),
    ensures
        digit_prefix(s.skip(from)) == s.subrange(from, end),
    decreases end - from,
{
    if from == end {
        assert(digit_prefix(s.skip(from)) =~= s.subrange(from, end));
    } else {
        lemma_digit_prefix_run(s, from + 1, end);
        assert(s.skip(from).drop_first() =~= s.skip(from + 1));
        assert(seq![s[from]] + s.subrange(from + 1, end) =~= s.subrange(from, end));
    }
}

pub fn all_digits_exec(v: &[char]) -> (res: bool)
    ensures
        res == all_digits(v@),
{
    let mut i: usize = 0;
    while i < v.len()
        invariant
            i <= v@.len(),
            forall|k: int| 0 <= k < i ==> is_digit(#[trigger] v@[k]),
        decreases v.len() - i,
    {
        if !char_is_digit(v[i]) {
            return false;
        }
        i = i + 1;
    }
    true
}


// ---------------------------------------------------------------------------------------------
// Views of optional values
// ---------------------------------------------------------------------------------------------

pub open spec fn opt_chars(o: Option<Vec<char>>) -> Option<Seq<char>> {
    match o {
        Some(v) => Some(v@),
        None => None,
    }
}

pub open spec fn opt_string(o: Option<String>) -> Option<Seq<char>> {
    match o {
        Some(v) => Some(v@),
        None => None,
    }
}

pub fn opt_to_string(o: Option<Vec<char>>) -> (res: Option<String>)
    ensures
        opt_string(res) == opt_chars(o),
{
    match o {
        Some(v) => Some(string_of(&v)),
        None => None,
    }
}


// ---------------------------------------------------------------------------------------------
// Decimal numbers
// ---------------------------------------------------------------------------------------------

/// The ASCII digit for `d` (which is below 10).
pub open spec fn digit_char(d: nat) -> char {
    ((48 + d) as u32) as char
}

/// The decimal representation of `n` without leading zeros, as `Display` writes it.
pub open spec fn decimal(n: nat) -> Seq<char>
    decreases n,
{
    if n < 10 {
        seq![digit_char(n)]
    } else {
        decimal(n / 10).push(digit_char(n % 10))
    }
}

/// The decimal representation of a signed integer.
pub open spec fn signed_decimal(n: int) -> Seq<char> {
    if n < 0 {
        seq!['-'] + decimal((-n) as nat)
    } else {
        decimal(n as nat)
    }
}

pub fn decimal_u128(n: u128) -> (res: Vec<char>)
    ensures
        res@ == decimal(n as nat),
    decreases n,
{
    let d = (n % 10) as u8;
    let c = (48 + d) as char;
    assert(c == digit_char((n % 10) as nat));
    if n < 10 {
        let mut v: Vec<char> = Vec::new();
        v.push(c);
        assert(v@ =~= seq![digit_char(n as nat)]);
        v
    } else {
        let mut v = decimal_u128(n / 10);
        v.push(c);
        v
    }
}

pub fn decimal_u64(n: u64) -> (res: Vec<char>)
    ensures
        res@ == decimal(n as nat),
{
    decimal_u128(n as u128)
}

pub fn decimal_i64(n: i64) -> (res: Vec<char>)
    ensures
        res@ == signed_decimal(n as int),
{
    if n < 0 {
        let magnitude = (0 - (n as i128)) as u128;
        let digits = decimal_u128(magnitude);
        let mut v: Vec<char> = Vec::new();
        v.push('-');
        let r = concat(&v, &digits);
        assert(v@ =~= seq!['-']);
        r
    } else {
        decimal_u128(n as u128)
    }
}

// ---------------------------------------------------------------------------------------------
// Unicode case folding
// ---------------------------------------------------------------------------------------------

/// What `str::to_lowercase` returns for `s`.
pub uninterp spec fn unicode_lower(s: Seq<char>) -> Seq<char>;

/// The characters that `char::to_lowercase` yields for `c`.
pub uninterp spec fn unicode_char_lower(c: char) -> Seq<char>;

/// `str::to_lowercase`.
#[verifier::external_body]
pub(crate) fn to_lowercase_str(s: &str) -> (res: String)
    ensures
        res@ == unicode_lower(s@),
{
    s.to_lowercase()
}

/// `char::to_lowercase`, collected.
#[verifier::external_body]
pub(crate) fn char_to_lowercase(c: char) -> (res: Vec<char>)
    ensures
        res@ == unicode_char_lower(c),
{
    c.to_lowercase().collect()
}

// ---------------------------------------------------------------------------------------------
// Signed integers (`str::parse::<i64>`)
// ---------------------------------------------------------------------------------------------

/// The value of a run of ASCII digits.
pub open spec fn digits_value(s: Seq<char>) -> nat
    decreases s.len(),
{
    if s.len() == 0 {
        0
    } else {
        digits_value(s.drop_last()) * 10 + ((s.last() as u32) - 48) as nat
    }
}

/// `i64::from_str`: an optional `+` or `-`, then at least one ASCII digit and nothing else, of a
/// value that fits.
pub open spec fn parse_i64(s: Seq<char>) -> Option<int> {
    let (negative, digits) = if s.len() > 0 && s[0] == '-' {
        (true, s.drop_first())
    } else if s.len() > 0 && s[0] == '+' {
        (false, s.drop_first())
    } else {
        (false, s)
    };
    if digits.len() == 0 || !all_digits(digits) {
        None
    } else {
        let v: int = if negative {
            -(digits_value(digits) as int)
        } else {
            digits_value(digits) as int
        };
        if i64::MIN <= v <= i64::MAX {
            Some(v)
        } else {
            None
        }
    }
}

proof fn lemma_digits_value_grows(s: Seq<char>, i: int)
    requires
        0 <= i <= s.len(),
        all_digits(s),
    ensures
        digits_value(s.take(i)) <= digits_value(s),
    decreases s.len() - i,
{
    if i < s.len() {
        lemma_digits_value_grows(s, i + 1);
        assert(s.take(i + 1).drop_last() =~= s.take(i));
    } else {
        assert(s.take(i) =~= s);
    }
}

pub fn parse_i64_exec(s: &[char]) -> (res: Option<i64>)
    ensures
        match res {
            Some(v) => parse_i64(s@) == Some(v as int),
            None => parse_i64(s@) is None,
        },
{
    let mut start: usize = 0;
    let mut negative = false;
    if s.len() > 0 && s[0] == '-' {
        start = 1;
        negative = true;
    } else if s.len() > 0 && s[0] == '+' {
        start = 1;
    }
    let ghost digits = s@.subrange(start as int, s@.len() as int);
    assert(start == 1 ==> digits =~= s@.drop_first());
    assert(start == 0 ==> digits =~= s@);
    if start >= s.len() {
        return None;
    }
    let limit: u128 = if negative { 9_223_372_036_854_775_808 } else { 9_223_372_036_854_775_807 };
    let mut acc: u128 = 0;
    let mut i = start;
    while i < s.len()
        invariant
            start <= i <= s@.len(),
            start < s@.len(),
            digits == s@.subrange(start as int, s@.len() as int),
            negative == (s@.len() > 0 && s@[0] == '-'),
            start == (if s@.len() > 0 && (s@[0] == '-' || s@[0] == '+') { 1usize } else { 0usize }),
            all_digits(digits.take(i - start)),
            acc == digits_value(digits.take(i - start)),
            acc <= limit,
            limit <= 9_223_372_036_854_775_808,
            limit == (if negative { 9_223_372_036_854_775_808u128 } else { 9_223_372_036_854_775_807u128 }),
        decreases s.len() - i,
    {
        let c = s[i];
        assert(digits.take(i + 1 - start).drop_last() =~= digits.take(i - start));
        assert(digits.take(i + 1 - start).last() == c);
        if !char_is_digit(c) {
            proof {
                assert(!is_digit(digits[i - start]));
            }
            return None;
        }
        let d = ((c as u32) - 48) as u128;
        let next = acc * 10 + d;
        assert(next == digits_value(digits.take(i + 1 - start)));
        if next > limit {
            proof {
                if s@.len() > 0 && (s@[0] == '-' || s@[0] == '+') {
                    assert(digits =~= s@.drop_first());
                } else {
                    assert(digits =~= s@);
                }
                assert(all_digits(digits.take(i + 1 - start)));
                if all_digits(digits) {
                    lemma_digits_value_grows(digits, i + 1 - start);
                }
            }
            return None;
        }
        acc = next;
        i = i + 1;
    }
    assert(digits.take(i - start) =~= digits);
    if negative {
        if acc == 9_223_372_036_854_775_808 {
            Some(i64::MIN)
        } else {
            Some(0 - (acc as i64))
        }
    } else {
        Some(acc as i64)
    }
}


// ---------------------------------------------------------------------------------------------
// UTF-8
// ---------------------------------------------------------------------------------------------

/// What `String::from_utf8` makes of `bytes`: the text they encode, or `None` when they are
/// not valid UTF-8.
pub uninterp spec fn utf8_decoded(bytes: Seq<u8>) -> Option<Seq<char>>;

/// `String::from_utf8(bytes).ok()`.
#[verifier::external_body]
pub(crate) fn decode_utf8(bytes: Vec<u8>) -> (res: Option<String>)
    ensures
        opt_string(res) == utf8_decoded(bytes@),
{
    String::from_utf8(bytes).ok()
}


/// What `String::from_utf8_lossy` makes of `bytes`: their text, each invalid sequence replaced
/// by U+FFFD.
pub uninterp spec fn utf8_lossy(bytes: Seq<u8>) -> Seq<char>;

/// `String::from_utf8_lossy(bytes).into_owned()`; no bytes give the empty string.
#[verifier::external_body]
pub(crate) fn decode_utf8_lossy(bytes: &[u8]) -> (res: String)
    ensures
        res@ == utf8_lossy(bytes@),
        bytes@.len() == 0 ==> res@.len() == 0,
{
    String::from_utf8_lossy(bytes).into_owned()
}

/// What `String::from_utf16_lossy` makes of `units`: their text, each unpaired surrogate
/// replaced by U+FFFD.
pub uninterp spec fn utf16_lossy(units: Seq<u16>) -> Seq<char>;

/// `String::from_utf16_lossy(units)`.
#[verifier::external_body]
pub(crate) fn decode_utf16_lossy(units: &[u16]) -> (res: String)
    ensures
        res@ == utf16_lossy(units@),
{
    String::from_utf16_lossy(units)
}

} // verus!
