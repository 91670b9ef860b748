//! The bookkeeping rules of a library scan: how errors are sampled and bounded, which status a
//! finished scan reports, which files are candidates, and how progress is counted.
use vstd::prelude::*;

use crate::display_names::strings_view;
use crate::text::{
    opt_chars, opt_string, char_rpos, char_rpos_before, chars_of, concat, eq_ic, eq_ignore_case, lower_seq, slice,
    starts_with, starts_with_exec, string_of, to_lower, signed_decimal, decimal_i64, decimal, decimal_u128,
};
use crate::leveldb_reader::{LevelDbAccountRoleRecord, LevelDbBattleListResult};
use crate::highlight_log_parser::{HighlightLogAccountNameHint, HighlightLogParseResult};
use crate::metadata_ingest::MetadataIngestSummary;

verus! {

pub const MAX_SCAN_ERROR_SAMPLES: usize = 200;
pub const MAX_SCAN_ERROR_MESSAGE_BYTES: usize = 2048;
pub const MAX_SOURCE_ERROR_SAMPLES: usize = 16;
pub const MAX_SOURCE_ERROR_TEXT_BYTES: usize = 4096;

// ---------------------------------------------------------------------------------------------
// UTF-8 lengths and byte-bounded truncation
// ---------------------------------------------------------------------------------------------

/// The number of bytes that UTF-8 spends on `c` (`char::len_utf8`).
pub open spec fn utf8_width(c: char) -> nat {
    if (c as u32) < 0x80 {
        1
    } else if (c as u32) < 0x800 {
        2
    } else if (c as u32) < 0x10000 {
        3
    } else {
        4
    }
}

/// The number of bytes of `s` in UTF-8 (`str::len`).
pub open spec fn utf8_len(s: Seq<char>) -> nat
    decreases s.len(),
{
    if s.len() == 0 {
        0
    } else {
        utf8_len(s.drop_last()) + utf8_width(s.last())
    }
}

/// The longest prefix of `s` whose UTF-8 form has at most `max` bytes: what truncating at the
/// last character boundary at or before `max` leaves.
pub open spec fn utf8_prefix_len(s: Seq<char>, max: nat) -> nat
    decreases s.len(),
{
    if utf8_len(s) <= max {
        s.len()
    } else {
        utf8_prefix_len(s.drop_last(), max)
    }
}

pub open spec fn truncated_utf8(s: Seq<char>, max: nat) -> Seq<char> {
    s.take(utf8_prefix_len(s, max) as int)
}

pub fn char_utf8_width(c: char) -> (res: usize)
    ensures
        res == utf8_width(c),
{
    let v = c as u32;
    if v < 0x80 {
        1
    } else if v < 0x800 {
        2
    } else if v < 0x10000 {
        3
    } else {
        4
    }
}

proof fn lemma_utf8_len_monotone(s: Seq<char>, i: int, j: int)
    requires
        0 <= i <= j <= s.len(),
    ensures
        utf8_len(s.take(i)) <= utf8_len(s.take(j)),
    decreases j - i,
{
    if i < j {
        lemma_utf8_len_monotone(s, i, j - 1);
        assert(s.take(j).drop_last() =~= s.take(j - 1));
    }
}

proof fn lemma_prefix_len_is_max(s: Seq<char>, max: nat, k: int)
    requires
        0 <= k <= s.len(),
        utf8_len(s.take(k)) <= max,
        forall|j: int| k < j <= s.len() ==> utf8_len(#[trigger] s.take(j)) > max,
    ensures
        utf8_prefix_len(s, max) == k,
    decreases s.len(),
{
    assert(s.take(s.len() as int) =~= s);
    if k < s.len() {
        assert(utf8_len(s.take(s.len() as int)) > max);
        let t = s.drop_last();
        assert forall|j: int| k < j <= t.len() implies utf8_len(#[trigger] t.take(j)) > max by {
            assert(t.take(j) =~= s.take(j));
        }
        assert(t.take(k) =~= s.take(k));
        lemma_prefix_len_is_max(t, max, k);
    }
}

/// `s` cut at the last character boundary that keeps at most `max_bytes` bytes.
pub fn truncate_utf8_bytes(value: &str, max_bytes: usize) -> (res: String)
    ensures
        res@ == truncated_utf8(value@, max_bytes as nat),
{
    let chars = chars_of(value);
    let mut used: usize = 0;
    let mut k: usize = 0;
    while k < chars.len()
        invariant
            chars@ == value@,
            k <= chars@.len(),
            used == utf8_len(chars@.take(k as int)),
            used <= max_bytes,
        decreases chars.len() - k,
    {
        let w = char_utf8_width(chars[k]);
        assert(chars@.take(k + 1).drop_last() =~= chars@.take(k as int));
        if w > max_bytes - used {
            proof {
                assert forall|j: int| k < j <= chars@.len() implies utf8_len(
                    #[trigger] chars@.take(j),
                ) > max_bytes by {
                    lemma_utf8_len_monotone(chars@, k + 1, j);
                }
                lemma_prefix_len_is_max(chars@, max_bytes as nat, k as int);
                assert(chars@.subrange(0, k as int) =~= chars@.take(k as int));
            }
            return string_of(&slice(&chars, 0, k));
        }
        used = used + w;
        k = k + 1;
    }
    proof {
        assert(chars@.take(k as int) =~= chars@);
        lemma_prefix_len_is_max(chars@, max_bytes as nat, k as int);
        assert(chars@.subrange(0, k as int) =~= chars@.take(k as int));
    }
    string_of(&chars)
}

// ---------------------------------------------------------------------------------------------
// Error samples
// ---------------------------------------------------------------------------------------------

/// A list of error samples: no message occurs twice and there are at most `cap` of them.
pub open spec fn bounded_unique(errors: Seq<Seq<char>>, cap: nat) -> bool {
    &&& errors.len() <= cap
    &&& errors.no_duplicates()
}

/// `errors` after offering it `error`: kept when new and room is left.
pub open spec fn offered(errors: Seq<Seq<char>>, error: Seq<char>, cap: nat) -> Seq<Seq<char>> {
    if errors.contains(error) || errors.len() >= cap {
        errors
    } else {
        errors.push(error)
    }
}

fn contains_string(errors: &Vec<String>, error: &String) -> (res: bool)
    ensures
        res == strings_view(errors@).contains(error@),
{
    let mut i: usize = 0;
    while i < errors.len()
        invariant
            i <= errors@.len(),
            forall|k: int| 0 <= k < i ==> errors@[k]@ != error@,
        decreases errors.len() - i,
    {
        if crate::text::seq_eq(&chars_of(errors[i].as_str()), &chars_of(error.as_str())) {
            assert(strings_view(errors@)[i as int] == error@);
            return true;
        }
        i = i + 1;
    }
    assert forall|k: int| 0 <= k < strings_view(errors@).len() implies strings_view(errors@)[k]
        != error@ by {
        assert(strings_view(errors@)[k] == errors@[k]@);
    }
    false
}

/// Offers `error` to `errors`, which keeps at most `cap` distinct messages; returns whether it
/// was kept.
pub fn offer_error(errors: &mut Vec<String>, error: String, cap: usize) -> (kept: bool)
    ensures
        strings_view(final(errors)@) == offered(strings_view(old(errors)@), error@, cap as nat),
        kept == (strings_view(final(errors)@) != strings_view(old(errors)@)),
        kept == (!strings_view(old(errors)@).contains(error@) && old(errors)@.len() < cap),
{
    if contains_string(errors, &error) || errors.len() >= cap {
        return false;
    }
    let ghost before = strings_view(errors@);
    errors.push(error);
    assert(strings_view(errors@) =~= before.push(error@));
    assert(strings_view(errors@).len() != before.len());
    true
}

/// Offering an error keeps a sample list duplicate-free and within its bound.
pub proof fn law_offered_stays_bounded_unique(errors: Seq<Seq<char>>, error: Seq<char>, cap: nat)
    requires
        bounded_unique(errors, cap),
    ensures
        bounded_unique(offered(errors, error, cap), cap),
        offered(errors, error, cap).len() >= errors.len(),
        offered(errors, error, cap).contains(error) || errors.len() >= cap,
{
    if !(errors.contains(error) || errors.len() >= cap) {
        let pushed = errors.push(error);
        assert(pushed[errors.len() as int] == error);
        assert forall|i: int, j: int| 0 <= i < pushed.len() && 0 <= j < pushed.len() && i != j
            implies pushed[i] != pushed[j] by {
            if i < errors.len() && j < errors.len() {
            } else if i == errors.len() {
                assert(errors[j] == pushed[j]);
            } else {
                assert(errors[i] == pushed[i]);
            }
        }
    }
}

/// Adds `error`, cut to the per-message byte limit, to `errors` unless it is already there or
/// the sample limit is reached.
pub fn push_unique_error(errors: &mut Vec<String>, error: &str)
    ensures
        strings_view(final(errors)@) == offered(
            strings_view(old(errors)@),
            truncated_utf8(error@, MAX_SCAN_ERROR_MESSAGE_BYTES as nat),
            MAX_SCAN_ERROR_SAMPLES as nat,
        ),
{
    let cut = truncate_utf8_bytes(error, MAX_SCAN_ERROR_MESSAGE_BYTES);
    offer_error(errors, cut, MAX_SCAN_ERROR_SAMPLES);
}

/// The joined source error samples, cut to the per-source byte limit with an ellipsis marking
/// the cut.
pub open spec fn joined(errors: Seq<Seq<char>>, sep: Seq<char>) -> Seq<char>
    decreases errors.len(),
{
    if errors.len() == 0 {
        seq![]
    } else if errors.len() == 1 {
        errors[0]
    } else {
        joined(errors.drop_last(), sep) + sep + errors.last()
    }
}

pub open spec fn bounded_source_text(errors: Seq<Seq<char>>) -> Seq<char> {
    let text = joined(errors, " | "@);
    if utf8_len(text) <= MAX_SOURCE_ERROR_TEXT_BYTES {
        text
    } else {
        truncated_utf8(text, MAX_SOURCE_ERROR_TEXT_BYTES as nat).push('…')
    }
}

fn join_strings(errors: &Vec<String>, sep: &str) -> (res: Vec<char>)
    ensures
        res@ == joined(strings_view(errors@), sep@),
{
    let sep_chars = chars_of(sep);
    let mut acc: Vec<char> = Vec::new();
    let mut i: usize = 0;
    while i < errors.len()
        invariant
            i <= errors@.len(),
            sep_chars@ == sep@,
            acc@ == joined(strings_view(errors@).take(i as int), sep@),
        decreases errors.len() - i,
    {
        let item = chars_of(errors[i].as_str());
        let ghost prefix = strings_view(errors@).take(i as int);
        assert(strings_view(errors@).take(i + 1).drop_last() =~= prefix);
        assert(strings_view(errors@).take(i + 1).last() == errors@[i as int]@);
        if i == 0 {
            acc = item;
            assert(acc@ == joined(strings_view(errors@).take(1), sep@));
        } else {
            let with_sep = concat(&acc, &sep_chars);
            acc = concat(&with_sep, &item);
        }
        i = i + 1;
    }
    assert(strings_view(errors@).take(i as int) =~= strings_view(errors@));
    acc
}

/// A text has at least as many UTF-8 bytes as characters, and at most four times as many.
pub proof fn lemma_utf8_len_bounds(s: Seq<char>)
    ensures
        s.len() <= utf8_len(s) <= 4 * s.len(),
    decreases s.len(),
{
    if s.len() > 0 {
        lemma_utf8_len_bounds(s.drop_last());
    }
}

/// `String::len` of a character sequence.
pub fn utf8_len_exec(v: &Vec<char>) -> (res: usize)
    requires
        v@.len() * 4 <= usize::MAX,
    ensures
        res == utf8_len(v@),
{
    let mut total: usize = 0;
    let mut i: usize = 0;
    while i < v.len()
        invariant
            i <= v@.len(),
            v@.len() * 4 <= usize::MAX,
            total == utf8_len(v@.take(i as int)),
            total <= i * 4,
        decreases v.len() - i,
    {
        assert(v@.take(i + 1).drop_last() =~= v@.take(i as int));
        total = total + char_utf8_width(v[i]);
        i = i + 1;
    }
    assert(v@.take(i as int) =~= v@);
    total
}

/// The source error samples joined by ` | `, cut to 4 KiB with a trailing ellipsis.
pub fn bounded_source_error_text(errors: &Vec<String>) -> (res: String)
    requires
        joined(strings_view(errors@), " | "@).len() * 4 <= usize::MAX,
    ensures
        res@ == bounded_source_text(strings_view(errors@)),
{
    let text = join_strings(errors, " | ");
    if utf8_len_exec(&text) <= MAX_SOURCE_ERROR_TEXT_BYTES {
        return string_of(&text);
    }
    let cut = truncate_utf8_bytes(string_of(&text).as_str(), MAX_SOURCE_ERROR_TEXT_BYTES);
    let mut out = chars_of(cut.as_str());
    out.push('…');
    string_of(&out)
}

// ---------------------------------------------------------------------------------------------
// The scan summary
// ---------------------------------------------------------------------------------------------

pub struct ScanSummary {
    pub root_path: String,
    pub source_dir_count: i64,
    pub clip_group_count: i64,
    pub new_clip_count: i64,
    pub updated_clip_count: i64,
    pub missing_clip_count: i64,
    /// Videos discovered but held back for manual classification; never imported on their own.
    pub pending_clip_count: i64,
    pub cover_missing_count: i64,
    pub metadata_match_count: i64,
    pub metadata_enriched_clip_count: i64,
    pub metadata_event_count: i64,
    pub metadata_warning_count: i64,
    pub omitted_error_count: i64,
    pub errors: Vec<String>,
    pub message: Option<String>,
}

/// The error list that `push_error` leaves: the message cut to 2 KiB, kept when new while
/// fewer than 200 samples are held.
pub open spec fn summary_errors_after(errors: Seq<Seq<char>>, error: Seq<char>) -> Seq<Seq<char>> {
    offered(
        errors,
        truncated_utf8(error, MAX_SCAN_ERROR_MESSAGE_BYTES as nat),
        MAX_SCAN_ERROR_SAMPLES as nat,
    )
}

/// Only the error list and the omitted count differ.
pub open spec fn same_counts(a: ScanSummary, b: ScanSummary) -> bool {
    &&& a.root_path@ == b.root_path@
    &&& a.source_dir_count == b.source_dir_count
    &&& a.clip_group_count == b.clip_group_count
    &&& a.new_clip_count == b.new_clip_count
    &&& a.updated_clip_count == b.updated_clip_count
    &&& a.missing_clip_count == b.missing_clip_count
    &&& a.pending_clip_count == b.pending_clip_count
    &&& a.cover_missing_count == b.cover_missing_count
    &&& a.metadata_match_count == b.metadata_match_count
    &&& a.metadata_enriched_clip_count == b.metadata_enriched_clip_count
    &&& a.metadata_event_count == b.metadata_event_count
    &&& a.metadata_warning_count == b.metadata_warning_count
    &&& a.message == b.message
}

impl ScanSummary {
    /// A summary with every count zero and no errors.
    pub fn empty(root_path: String) -> (res: Self)
        ensures
            res.root_path@ == root_path@,
            res.source_dir_count == 0,
            res.clip_group_count == 0,
            res.new_clip_count == 0,
            res.updated_clip_count == 0,
            res.missing_clip_count == 0,
            res.pending_clip_count == 0,
            res.cover_missing_count == 0,
            res.metadata_match_count == 0,
            res.metadata_enriched_clip_count == 0,
            res.metadata_event_count == 0,
            res.metadata_warning_count == 0,
            res.omitted_error_count == 0,
            res.errors@.len() == 0,
            res.message is None,
    {
        ScanSummary {
            root_path,
            source_dir_count: 0,
            clip_group_count: 0,
            new_clip_count: 0,
            updated_clip_count: 0,
            missing_clip_count: 0,
            pending_clip_count: 0,
            cover_missing_count: 0,
            metadata_match_count: 0,
            metadata_enriched_clip_count: 0,
            metadata_event_count: 0,
            metadata_warning_count: 0,
            omitted_error_count: 0,
            errors: Vec::new(),
            message: None,
        }
    }

    /// Records an error: cut to 2 KiB, dropped when already recorded, and only counted once 200
    /// distinct errors are held.
    pub fn push_error(&mut self, error: &str)
        ensures
            same_counts(*old(self), *final(self)),
            strings_view(final(self).errors@) == summary_errors_after(
                strings_view(old(self).errors@),
                error@,
            ),
            final(self).omitted_error_count == if !strings_view(old(self).errors@).contains(
                truncated_utf8(error@, MAX_SCAN_ERROR_MESSAGE_BYTES as nat),
            ) && old(self).errors@.len() >= MAX_SCAN_ERROR_SAMPLES {
                if old(self).omitted_error_count == i64::MAX {
                    i64::MAX
                } else {
                    (old(self).omitted_error_count + 1) as i64
                }
            } else {
                old(self).omitted_error_count
            },
    {
        let cut = truncate_utf8_bytes(error, MAX_SCAN_ERROR_MESSAGE_BYTES);
        if contains_string(&self.errors, &cut) {
            return;
        }
        if self.errors.len() >= MAX_SCAN_ERROR_SAMPLES {
            if self.omitted_error_count < i64::MAX {
                self.omitted_error_count = self.omitted_error_count + 1;
            }
            return;
        }
        offer_error(&mut self.errors, cut, MAX_SCAN_ERROR_SAMPLES);
    }

    /// Records each error in turn.
    pub fn merge_errors(&mut self, errors: &Vec<String>)
        ensures
            same_counts(*old(self), *final(self)),
            (strings_view(final(self).errors@), final(self).omitted_error_count) == pushed_all(
                strings_view(old(self).errors@),
                old(self).omitted_error_count,
                strings_view(errors@),
            ),
            bounded_unique(strings_view(old(self).errors@), MAX_SCAN_ERROR_SAMPLES as nat)
                ==> bounded_unique(strings_view(final(self).errors@), MAX_SCAN_ERROR_SAMPLES as nat),
    {
        let mut i: usize = 0;
        while i < errors.len()
            invariant
                i <= errors@.len(),
                same_counts(*old(self), *self),
                (strings_view(self.errors@), self.omitted_error_count) == pushed_all(
                    strings_view(old(self).errors@),
                    old(self).omitted_error_count,
                    strings_view(errors@).take(i as int),
                ),
                bounded_unique(strings_view(old(self).errors@), MAX_SCAN_ERROR_SAMPLES as nat)
                    ==> bounded_unique(strings_view(self.errors@), MAX_SCAN_ERROR_SAMPLES as nat),
            decreases errors.len() - i,
        {
            proof {
                let e = truncated_utf8(errors@[i as int]@, MAX_SCAN_ERROR_MESSAGE_BYTES as nat);
                if bounded_unique(strings_view(self.errors@), MAX_SCAN_ERROR_SAMPLES as nat) {
                    law_offered_stays_bounded_unique(
                        strings_view(self.errors@),
                        e,
                        MAX_SCAN_ERROR_SAMPLES as nat,
                    );
                }
            }
            let ghost before = *self;
            self.push_error(errors[i].as_str());
            proof {
                let all = strings_view(errors@);
                assert(all.take(i + 1).drop_last() =~= all.take(i as int));
                assert(all.take(i + 1).last() == errors@[i as int]@);
                assert(strings_view(before.errors@).len() == before.errors@.len());
            }
            i = i + 1;
        }
        proof {
            assert(strings_view(errors@).take(errors@.len() as int) =~= strings_view(errors@));
        }
    }
}

/// The omitted count after `push_error` offers `error` to a list holding `errors`.
pub open spec fn omitted_after(errors: Seq<Seq<char>>, omitted: i64, error: Seq<char>) -> i64 {
    if !errors.contains(truncated_utf8(error, MAX_SCAN_ERROR_MESSAGE_BYTES as nat))
        && errors.len() >= MAX_SCAN_ERROR_SAMPLES {
        if omitted == i64::MAX {
            i64::MAX
        } else {
            (omitted + 1) as i64
        }
    } else {
        omitted
    }
}

/// The error list and omitted count after `push_error` offers each of `list` in turn.
pub open spec fn pushed_all(errors: Seq<Seq<char>>, omitted: i64, list: Seq<Seq<char>>) -> (
    Seq<Seq<char>>,
    i64,
)
    decreases list.len(),
{
    if list.len() == 0 {
        (errors, omitted)
    } else {
        let prev = pushed_all(errors, omitted, list.drop_last());
        (summary_errors_after(prev.0, list.last()), omitted_after(prev.0, prev.1, list.last()))
    }
}

/// The warnings that the metadata readers' counts call for, in this order: unreadable LevelDB
/// files, LevelDB records that failed to parse, bad lines of the highlight log.
pub open spec fn metadata_warning_texts(leveldb_warnings: nat, bad_records: nat, bad_lines: nat) -> Seq<Seq<char>> {
    (if leveldb_warnings > 0 {
        seq!["LevelDB 读取警告 "@ + decimal(leveldb_warnings) + " 条，已跳过不可读文件并继续扫描"@]
    } else {
        Seq::empty()
    }) + (if bad_records > 0 {
        seq!["LevelDB 对局记录解析失败 "@ + decimal(bad_records) + " 条，其他记录已继续导入"@]
    } else {
        Seq::empty()
    }) + (if bad_lines > 0 {
        seq!["highlight.log 解析坏行 "@ + decimal(bad_lines) + " 条，其他日志行已继续导入"@]
    } else {
        Seq::empty()
    })
}

fn count_text(prefix: &str, n: usize, suffix: &str) -> (res: String)
    ensures
        res@ == prefix@ + decimal(n as nat) + suffix@,
{
    string_of(concat(&concat(&chars_of(prefix), &decimal_u128(n as u128)), &chars_of(suffix)).as_slice())
}

/// Records, as scan errors, the warnings that the metadata readers counted.
pub fn push_metadata_warnings(
    summary: &mut ScanSummary,
    leveldb_result: &LevelDbBattleListResult,
    log_result: &HighlightLogParseResult,
)
    ensures
        same_counts(*old(summary), *final(summary)),
        (strings_view(final(summary).errors@), final(summary).omitted_error_count) == pushed_all(
            strings_view(old(summary).errors@),
            old(summary).omitted_error_count,
            metadata_warning_texts(
                leveldb_result.warning_count as nat,
                leveldb_result.bad_record_count as nat,
                log_result.bad_line_count as nat,
            ),
        ),
{
    let mut warnings: Vec<String> = Vec::new();
    if leveldb_result.warning_count > 0 {
        warnings.push(count_text("LevelDB 读取警告 ", leveldb_result.warning_count, " 条，已跳过不可读文件并继续扫描"));
    }
    if leveldb_result.bad_record_count > 0 {
        warnings.push(count_text("LevelDB 对局记录解析失败 ", leveldb_result.bad_record_count, " 条，其他记录已继续导入"));
    }
    if log_result.bad_line_count > 0 {
        warnings.push(count_text("highlight.log 解析坏行 ", log_result.bad_line_count, " 条，其他日志行已继续导入"));
    }
    assert(strings_view(warnings@) =~= metadata_warning_texts(
        leveldb_result.warning_count as nat,
        leveldb_result.bad_record_count as nat,
        log_result.bad_line_count as nat,
    ));
    summary.merge_errors(&warnings);
}

/// Offering `a` and then `b` leaves what offering `a + b` leaves.
pub proof fn lemma_pushed_all_concat(
    errors: Seq<Seq<char>>,
    omitted: i64,
    a: Seq<Seq<char>>,
    b: Seq<Seq<char>>,
)
    ensures
        pushed_all(errors, omitted, a + b) == pushed_all(
            pushed_all(errors, omitted, a).0,
            pushed_all(errors, omitted, a).1,
            b,
        ),
    decreases b.len(),
{
    if b.len() == 0 {
        assert(a + b =~= a);
    } else {
        lemma_pushed_all_concat(errors, omitted, a, b.drop_last());
        assert((a + b).drop_last() =~= a + b.drop_last());
        assert((a + b).last() == b.last());
    }
}

/// Only the metadata warning count, the error list and the omitted count differ.
pub open spec fn same_except_warnings(a: ScanSummary, b: ScanSummary) -> bool {
    &&& a.root_path@ == b.root_path@
    &&& a.source_dir_count == b.source_dir_count
    &&& a.clip_group_count == b.clip_group_count
    &&& a.new_clip_count == b.new_clip_count
    &&& a.updated_clip_count == b.updated_clip_count
    &&& a.missing_clip_count == b.missing_clip_count
    &&& a.pending_clip_count == b.pending_clip_count
    &&& a.cover_missing_count == b.cover_missing_count
    &&& a.metadata_match_count == b.metadata_match_count
    &&& a.metadata_enriched_clip_count == b.metadata_enriched_clip_count
    &&& a.metadata_event_count == b.metadata_event_count
    &&& a.message == b.message
}

/// A length as an `i64`, capped at `i64::MAX`.
pub open spec fn capped_count(n: nat) -> int {
    if n > i64::MAX { i64::MAX as int } else { n as int }
}

/// Books what the metadata readers reported: each read error and each counted warning adds to
/// the warning count, the read errors are recorded, then the warnings for the readers' counts.
pub fn record_metadata_read_warnings(
    summary: &mut ScanSummary,
    errors: &Vec<String>,
    leveldb_result: &LevelDbBattleListResult,
    log_result: &HighlightLogParseResult,
)
    requires
        leveldb_result.warning_count + leveldb_result.bad_record_count + log_result.bad_line_count
            <= i64::MAX,
        leveldb_result.warning_count + leveldb_result.bad_record_count + log_result.bad_line_count
            <= usize::MAX,
        old(summary).metadata_warning_count + capped_count(errors@.len()) + leveldb_result.warning_count
            + leveldb_result.bad_record_count + log_result.bad_line_count <= i64::MAX,
    ensures
        same_except_warnings(*old(summary), *final(summary)),
        final(summary).metadata_warning_count == old(summary).metadata_warning_count + capped_count(
            errors@.len(),
        ) + leveldb_result.warning_count + leveldb_result.bad_record_count
            + log_result.bad_line_count,
        (strings_view(final(summary).errors@), final(summary).omitted_error_count) == pushed_all(
            strings_view(old(summary).errors@),
            old(summary).omitted_error_count,
            strings_view(errors@) + metadata_warning_texts(
                leveldb_result.warning_count as nat,
                leveldb_result.bad_record_count as nat,
                log_result.bad_line_count as nat,
            ),
        ),
{
    let ghost start = *summary;
    let read_errors: i64 = if errors.len() as u128 > i64::MAX as u128 {
        i64::MAX
    } else {
        errors.len() as i64
    };
    summary.metadata_warning_count = summary.metadata_warning_count + read_errors;
    summary.merge_errors(errors);
    let ghost middle = *summary;
    let read_warnings = leveldb_result.warning_count + leveldb_result.bad_record_count
        + log_result.bad_line_count;
    summary.metadata_warning_count = summary.metadata_warning_count + read_warnings as i64;
    push_metadata_warnings(summary, leveldb_result, log_result);
    proof {
        lemma_pushed_all_concat(
            strings_view(start.errors@),
            start.omitted_error_count,
            strings_view(errors@),
            metadata_warning_texts(
                leveldb_result.warning_count as nat,
                leveldb_result.bad_record_count as nat,
                log_result.bad_line_count as nat,
            ),
        );
    }
}

/// Books the outcome of ingesting match metadata: its counts on success, one more warning and
/// the error otherwise.
pub fn record_ingest_result(summary: &mut ScanSummary, result: Result<MetadataIngestSummary, String>)
    requires
        match result {
            Ok(s) => {
                &&& s.matches_upserted <= i64::MAX
                &&& s.enriched_clip_count <= i64::MAX
                &&& s.events_inserted <= i64::MAX
                &&& old(summary).metadata_match_count + s.matches_upserted <= i64::MAX
                &&& old(summary).metadata_enriched_clip_count + s.enriched_clip_count <= i64::MAX
                &&& old(summary).metadata_event_count + s.events_inserted <= i64::MAX
            },
            Err(_) => old(summary).metadata_warning_count < i64::MAX,
        },
    ensures
        old(summary).root_path@ == final(summary).root_path@,
        old(summary).source_dir_count == final(summary).source_dir_count,
        old(summary).clip_group_count == final(summary).clip_group_count,
        old(summary).new_clip_count == final(summary).new_clip_count,
        old(summary).updated_clip_count == final(summary).updated_clip_count,
        old(summary).missing_clip_count == final(summary).missing_clip_count,
        old(summary).pending_clip_count == final(summary).pending_clip_count,
        old(summary).cover_missing_count == final(summary).cover_missing_count,
        old(summary).message == final(summary).message,
        match result {
            Ok(s) => {
                &&& final(summary).metadata_match_count == old(summary).metadata_match_count + s.matches_upserted
                &&& final(summary).metadata_enriched_clip_count
                    == old(summary).metadata_enriched_clip_count + s.enriched_clip_count
                &&& final(summary).metadata_event_count == old(summary).metadata_event_count + s.events_inserted
                &&& final(summary).metadata_warning_count == old(summary).metadata_warning_count
                &&& final(summary).omitted_error_count == old(summary).omitted_error_count
                &&& final(summary).errors@ == old(summary).errors@
            },
            Err(e) => {
                &&& final(summary).metadata_match_count == old(summary).metadata_match_count
                &&& final(summary).metadata_enriched_clip_count == old(summary).metadata_enriched_clip_count
                &&& final(summary).metadata_event_count == old(summary).metadata_event_count
                &&& final(summary).metadata_warning_count == old(summary).metadata_warning_count + 1
                &&& (strings_view(final(summary).errors@), final(summary).omitted_error_count) == pushed_all(
                    strings_view(old(summary).errors@),
                    old(summary).omitted_error_count,
                    seq![e@],
                )
            },
        },
{
    match result {
        Ok(s) => {
            summary.metadata_match_count = summary.metadata_match_count + s.matches_upserted as i64;
            summary.metadata_enriched_clip_count = summary.metadata_enriched_clip_count
                + s.enriched_clip_count as i64;
            summary.metadata_event_count = summary.metadata_event_count + s.events_inserted as i64;
        },
        Err(e) => {
            summary.metadata_warning_count = summary.metadata_warning_count + 1;
            let ghost before = *summary;
            summary.push_error(e.as_str());
            proof {
                let ghost prior = (strings_view(before.errors@), before.omitted_error_count);
                assert(seq![e@].drop_last() =~= Seq::<Seq<char>>::empty());
                assert(pushed_all(prior.0, prior.1, Seq::empty()) == prior);
                assert(strings_view(before.errors@).len() == before.errors@.len());
            }
        },
    }
}

/// An account and the name that a metadata reader found for it.
pub struct AccountNameHint {
    pub account_id: String,
    pub account_name: String,
}

pub open spec fn hint_pairs(v: Seq<AccountNameHint>) -> Seq<(Seq<char>, Seq<char>)> {
    v.map_values(|h: AccountNameHint| (h.account_id@, h.account_name@))
}

/// The LevelDB roles that carry a player name, as (account, name), in order.
pub open spec fn role_hints(roles: Seq<LevelDbAccountRoleRecord>) -> Seq<(Seq<char>, Seq<char>)>
    decreases roles.len(),
{
    if roles.len() == 0 {
        Seq::empty()
    } else {
        let prev = role_hints(roles.drop_last());
        match roles.last().player_name {
            Some(n) => prev.push((roles.last().account_id@, n@)),
            None => prev,
        }
    }
}

/// The log hints that carry an account name, as (account, name), in order.
pub open spec fn log_hints(hints: Seq<HighlightLogAccountNameHint>) -> Seq<(Seq<char>, Seq<char>)>
    decreases hints.len(),
{
    if hints.len() == 0 {
        Seq::empty()
    } else {
        let prev = log_hints(hints.drop_last());
        match hints.last().account_name {
            Some(n) => prev.push((hints.last().account_id@, n@)),
            None => prev,
        }
    }
}

/// The account names to spread over the library: those of the LevelDB roles, then those of the
/// log hints, each kept in its reader's order.
pub fn account_name_hints(
    leveldb_result: &LevelDbBattleListResult,
    log_result: &HighlightLogParseResult,
) -> (res: Vec<AccountNameHint>)
    ensures
        hint_pairs(res@) == role_hints(leveldb_result.account_roles@) + log_hints(
            log_result.account_name_hints@,
        ),
{
    let roles = &leveldb_result.account_roles;
    let hints = &log_result.account_name_hints;
    let mut out: Vec<AccountNameHint> = Vec::new();
    let mut i: usize = 0;
    while i < roles.len()
        invariant
            i <= roles@.len(),
            hint_pairs(out@) == role_hints(roles@.take(i as int)),
        decreases roles.len() - i,
    {
        assert(roles@.take(i + 1).drop_last() =~= roles@.take(i as int));
        match &roles[i].player_name {
            Some(n) => {
                let h = AccountNameHint { account_id: copy_text(&roles[i].account_id), account_name: copy_text(n) };
                out.push(h);
                assert(hint_pairs(out@) =~= role_hints(roles@.take(i as int)).push(
                    (roles@[i as int].account_id@, n@),
                ));
            },
            None => {},
        }
        i = i + 1;
    }
    assert(roles@.take(roles@.len() as int) =~= roles@);
    let mut j: usize = 0;
    while j < hints.len()
        invariant
            j <= hints@.len(),
            hint_pairs(out@) == role_hints(roles@) + log_hints(hints@.take(j as int)),
        decreases hints.len() - j,
    {
        assert(hints@.take(j + 1).drop_last() =~= hints@.take(j as int));
        match &hints[j].account_name {
            Some(n) => {
                let h = AccountNameHint { account_id: copy_text(&hints[j].account_id), account_name: copy_text(n) };
                out.push(h);
                let ghost x = (hints@[j as int].account_id@, n@);
                assert(log_hints(hints@.take(j + 1)) == log_hints(hints@.take(j as int)).push(x));
                assert((role_hints(roles@) + log_hints(hints@.take(j as int))).push(x)
                    =~= role_hints(roles@) + log_hints(hints@.take(j as int)).push(x));
                assert(hint_pairs(out@) =~= (role_hints(roles@) + log_hints(hints@.take(j as int))).push(x));
            },
            None => {},
        }
        j = j + 1;
    }
    assert(hints@.take(hints@.len() as int) =~= hints@);
    out
}

/// Records an error about one source, prefixed with the source's path.
pub fn push_source_error(summary: &mut ScanSummary, source_path: &str, error: &str)
    ensures
        same_counts(*old(summary), *final(summary)),
        (strings_view(final(summary).errors@), final(summary).omitted_error_count) == pushed_all(
            strings_view(old(summary).errors@),
            old(summary).omitted_error_count,
            seq!["Source "@ + source_path@ + ": "@ + error@],
        ),
{
    let text = concat(&concat(&concat(&chars_of("Source "), &chars_of(source_path)), &chars_of(": ")), &chars_of(error));
    let message = string_of(text.as_slice());
    let ghost before = *summary;
    summary.push_error(message.as_str());
    proof {
        let ghost prior = (strings_view(before.errors@), before.omitted_error_count);
        assert(seq![message@].drop_last() =~= Seq::<Seq<char>>::empty());
        assert(pushed_all(prior.0, prior.1, Seq::empty()) == prior);
        assert(strings_view(before.errors@).len() == before.errors@.len());
    }
}

/// Records a warning raised while reconnecting moved clips: one that makes the source's
/// listing untrustworthy keeps missing clips from being marked, the scan records the message,
/// and the source keeps up to 16 distinct samples.
pub fn record_reconnect_warning(
    summary: &mut ScanSummary,
    source_errors: &mut Vec<String>,
    complete_for_missing: &mut bool,
    blocks_missing_reconciliation: bool,
    message: &str,
)
    ensures
        *final(complete_for_missing) == (*old(complete_for_missing) && !blocks_missing_reconciliation),
        same_counts(*old(summary), *final(summary)),
        (strings_view(final(summary).errors@), final(summary).omitted_error_count) == pushed_all(
            strings_view(old(summary).errors@),
            old(summary).omitted_error_count,
            seq![message@],
        ),
        strings_view(final(source_errors)@) == offered(
            strings_view(old(source_errors)@),
            message@,
            MAX_SOURCE_ERROR_SAMPLES as nat,
        ),
{
    if blocks_missing_reconciliation {
        *complete_for_missing = false;
    }
    let ghost before = *summary;
    summary.push_error(message);
    proof {
        let ghost prior = (strings_view(before.errors@), before.omitted_error_count);
        assert(seq![message@].drop_last() =~= Seq::<Seq<char>>::empty());
        assert(pushed_all(prior.0, prior.1, Seq::empty()) == prior);
        assert(strings_view(before.errors@).len() == before.errors@.len());
    }
    offer_error(source_errors, string_of(chars_of(message).as_slice()), MAX_SOURCE_ERROR_SAMPLES);
}

// ---------------------------------------------------------------------------------------------
// The batch of sources a scan works through
// ---------------------------------------------------------------------------------------------

/// What scanning one source leaves for the rest of the batch: whether it could be read, whether
/// its metadata may be imported, whether its listing was complete enough to mark unseen clips
/// missing, and the clip paths it saw.
pub struct SourceScanOutcome {
    pub source_path: String,
    pub source_id: Option<i64>,
    pub accessible: bool,
    pub metadata_eligible: bool,
    pub complete_for_missing: bool,
    pub seen_paths: Vec<String>,
}

/// One source's outcome, and whether the scan was stopped during it.
pub struct SourceScanStep {
    pub outcome: SourceScanOutcome,
    pub cancelled: bool,
}

impl SourceScanStep {
    /// The source ran to its end.
    pub fn finished(outcome: SourceScanOutcome) -> (res: Self)
        ensures
            res.outcome == outcome,
            !res.cancelled,
    {
        SourceScanStep { outcome, cancelled: false }
    }

    /// The scan was stopped during the source.
    pub fn cancelled(outcome: SourceScanOutcome) -> (res: Self)
        ensures
            res.outcome == outcome,
            res.cancelled,
    {
        SourceScanStep { outcome, cancelled: true }
    }
}

/// Ends a source that the scan was stopped in: the report says so, no source is under way, and
/// the outcome keeps what was seen but cannot prove any clip missing.
pub fn cancelled_source_step(
    progress: &mut ScanProgressState,
    source_name: &str,
    source_path: String,
    source_id: Option<i64>,
    metadata_eligible: bool,
    seen_paths: Vec<String>,
) -> (res: (SourceScanStep, ScanProgress))
    ensures
        res.0.cancelled,
        res.0.outcome.source_path == source_path,
        res.0.outcome.source_id == source_id,
        res.0.outcome.accessible,
        res.0.outcome.metadata_eligible == metadata_eligible,
        !res.0.outcome.complete_for_missing,
        res.0.outcome.seen_paths == seen_paths,
        same_progress_counts(*old(progress), *final(progress)),
        final(progress).source is None,
        reports(res.1, *old(progress), ScanProgressPhase::Scanning, "已停止扫描来源 "@ + source_name@),
{
    let report = progress.source_interrupted(source_name);
    let step = SourceScanStep::cancelled(SourceScanOutcome {
        source_path,
        source_id,
        accessible: true,
        metadata_eligible,
        complete_for_missing: false,
        seen_paths,
    });
    (step, report)
}

/// Ends a source that could not be read: the scan records the error against the source, the
/// source counts as done, and the outcome marks it unreadable with nothing seen.
pub fn unavailable_source_step(
    summary: &mut ScanSummary,
    progress: &mut ScanProgressState,
    source_name: &str,
    source_path: String,
    source_id: Option<i64>,
    metadata_eligible: bool,
    error: &str,
) -> (res: (SourceScanStep, ScanProgress))
    requires
        old(progress).current < i64::MAX,
        old(progress).source_dir_count < i64::MAX,
    ensures
        !res.0.cancelled,
        res.0.outcome.source_path@ == source_path@,
        res.0.outcome.source_id == source_id,
        !res.0.outcome.accessible,
        res.0.outcome.metadata_eligible == metadata_eligible,
        !res.0.outcome.complete_for_missing,
        res.0.outcome.seen_paths@.len() == 0,
        same_counts(*old(summary), *final(summary)),
        (strings_view(final(summary).errors@), final(summary).omitted_error_count) == pushed_all(
            strings_view(old(summary).errors@),
            old(summary).omitted_error_count,
            seq!["Source "@ + source_path@ + ": "@ + error@],
        ),
        final(progress).current == old(progress).current + 1,
        final(progress).source_dir_count == old(progress).source_dir_count + 1,
        final(progress).source is None,
        final(progress).root_path@ == old(progress).root_path@,
        final(progress).total == old(progress).total,
        final(progress).clip_group_count == old(progress).clip_group_count,
        final(progress).clip_file_count == old(progress).clip_file_count,
        res.1.message@ == "已完成来源 "@ + source_name@,
        res.1.current == final(progress).current,
        res.1.source_dir_count == final(progress).source_dir_count,
{
    push_source_error(summary, source_path.as_str(), error);
    let report = progress.source_finished(source_name);
    let step = SourceScanStep::finished(SourceScanOutcome {
        source_path,
        source_id,
        accessible: false,
        metadata_eligible,
        complete_for_missing: false,
        seen_paths: Vec::new(),
    });
    (step, report)
}

/// Checks that an ACLOS source's canonical path (given by its components) lies in its
/// authorized scan root, the root itself included; otherwise the error names the source's
/// canonical path (`display_path`).
pub fn check_source_within_scan_root(
    source_components: &Vec<String>,
    root_components: &Vec<String>,
    display_path: &str,
) -> (res: Result<(), String>)
    ensures
        res is Ok <==> crate::startup::components_start_with(
            strings_view(source_components@),
            strings_view(root_components@),
        ),
        res matches Err(e) ==> e@ == "ACLOS source canonical path is outside its authorized scan root: "@
            + display_path@,
{
    if crate::startup::components_prefix(source_components, root_components) {
        Ok(())
    } else {
        Err(join_text("ACLOS source canonical path is outside its authorized scan root: ", display_path))
    }
}

/// Files of a directory are read in the order of their lowercased paths (`str::to_lowercase`;
/// [`crate::drive_discovery::ordered_paths`] compares the keys with ASCII case folded, which
/// leaves lowercased text as it is), paths that compare equal keeping their listing order.
pub open spec fn read_order(paths: Seq<String>) -> Seq<Seq<char>> {
    crate::drive_discovery::ordered_paths(
        paths.map_values(|p: String| (crate::text::unicode_lower(p@), p@)),
    )
}

/// The order in which the files of a directory are read (see [`read_order`]).
pub fn in_read_order(paths: Vec<String>) -> (res: Vec<String>)
    ensures
        strings_view(res@) == read_order(paths@),
{
    let mut entries: Vec<(String, String)> = Vec::new();
    let mut i: usize = 0;
    while i < paths.len()
        invariant
            i <= paths@.len(),
            crate::drive_discovery::keyed_view(entries@) == paths@.take(i as int).map_values(
                |p: String| (crate::text::unicode_lower(p@), p@),
            ),
        decreases paths.len() - i,
    {
        let key = crate::text::to_lowercase_str(paths[i].as_str());
        let ghost before = crate::drive_discovery::keyed_view(entries@);
        entries.push((key, copy_text(&paths[i])));
        assert(crate::drive_discovery::keyed_view(entries@) =~= before.push(
            (crate::text::unicode_lower(paths@[i as int]@), paths@[i as int]@),
        ));
        assert(paths@.take(i + 1).map_values(|p: String| (crate::text::unicode_lower(p@), p@)) =~= paths@.take(
            i as int,
        ).map_values(|p: String| (crate::text::unicode_lower(p@), p@)).push(
            (crate::text::unicode_lower(paths@[i as int]@), paths@[i as int]@),
        ));
        i = i + 1;
    }
    assert(paths@.take(paths@.len() as int) =~= paths@);
    let res = crate::drive_discovery::ordered_paths_exec(crate::drive_discovery::KeyedPaths { entries });
    assert(strings_view(res@) =~= res@.map_values(|p: String| p@));
    res
}

/// The scan-wide form of a problem met in one source: prefixed with the source's path.
pub open spec fn source_error_text(source_path: Seq<char>, error: Seq<char>) -> Seq<char> {
    "Source "@ + source_path + ": "@ + error
}

/// The problems of a source, each in its scan-wide form.
pub open spec fn source_error_texts(source_path: Seq<char>, problems: Seq<Seq<char>>) -> Seq<Seq<char>>
    decreases problems.len(),
{
    if problems.len() == 0 {
        Seq::empty()
    } else {
        source_error_texts(source_path, problems.drop_last()).push(
            source_error_text(source_path, problems.last()),
        )
    }
}

/// The source's own error samples after each of `problems` was offered in turn.
pub open spec fn sampled_all(errors: Seq<Seq<char>>, problems: Seq<Seq<char>>) -> Seq<Seq<char>>
    decreases problems.len(),
{
    if problems.len() == 0 {
        errors
    } else {
        offered(
            sampled_all(errors, problems.drop_last()),
            truncated_utf8(problems.last(), MAX_SCAN_ERROR_MESSAGE_BYTES as nat),
            MAX_SCAN_ERROR_SAMPLES as nat,
        )
    }
}

/// Records a problem met while scanning a source: the source can no longer prove clips missing,
/// the scan records the problem under the source's path, and the source keeps it among its own
/// samples.
pub fn record_source_problem(
    summary: &mut ScanSummary,
    source_errors: &mut Vec<String>,
    complete_for_missing: &mut bool,
    source_path: &str,
    error: &str,
)
    ensures
        !*final(complete_for_missing),
        same_counts(*old(summary), *final(summary)),
        (strings_view(final(summary).errors@), final(summary).omitted_error_count) == pushed_all(
            strings_view(old(summary).errors@),
            old(summary).omitted_error_count,
            seq![source_error_text(source_path@, error@)],
        ),
        strings_view(final(source_errors)@) == offered(
            strings_view(old(source_errors)@),
            truncated_utf8(error@, MAX_SCAN_ERROR_MESSAGE_BYTES as nat),
            MAX_SCAN_ERROR_SAMPLES as nat,
        ),
{
    *complete_for_missing = false;
    push_source_error(summary, source_path, error);
    push_unique_error(source_errors, error);
}

/// Records a warning raised while reconnecting the clips of an ACLOS source: one that makes the
/// listing untrustworthy keeps missing clips from being marked, the scan records it under the
/// source's path, and the source keeps it among its own samples.
pub fn record_aclos_reconnect_warning(
    summary: &mut ScanSummary,
    source_errors: &mut Vec<String>,
    complete_for_missing: &mut bool,
    source_path: &str,
    blocks_missing_reconciliation: bool,
    message: &str,
)
    ensures
        *final(complete_for_missing) == (*old(complete_for_missing) && !blocks_missing_reconciliation),
        same_counts(*old(summary), *final(summary)),
        (strings_view(final(summary).errors@), final(summary).omitted_error_count) == pushed_all(
            strings_view(old(summary).errors@),
            old(summary).omitted_error_count,
            seq![source_error_text(source_path@, message@)],
        ),
        strings_view(final(source_errors)@) == offered(
            strings_view(old(source_errors)@),
            truncated_utf8(message@, MAX_SCAN_ERROR_MESSAGE_BYTES as nat),
            MAX_SCAN_ERROR_SAMPLES as nat,
        ),
{
    if blocks_missing_reconciliation {
        *complete_for_missing = false;
    }
    push_source_error(summary, source_path, message);
    push_unique_error(source_errors, message);
}

/// An mp4 file: its path and its file name.
pub struct FoundFile {
    pub path: String,
    pub file_name: String,
}

/// What the walk of a source's top directory found at one entry.
pub enum SourceEntry {
    /// The entry could not be inspected.
    Unreadable { path: String, error: String },
    /// A symbolic link or reparse point, which is never followed.
    Link { path: String },
    /// A directory and whether it resolved inside the source. For a per-clip `record` directory
    /// that did, `per_clip_files` holds the listing of its mp4 files.
    Directory {
        path: String,
        name: String,
        within_root: Result<(), String>,
        per_clip_files: Option<Result<Vec<FoundFile>, String>>,
    },
    /// An mp4 file directly in the source, and whether it resolved inside the source.
    Mp4File { file: FoundFile, within_root: Result<(), String> },
    /// Anything else, which is ignored.
    Other,
}

/// A clip group to scan: its directory, its name, the one clip it holds when it stands for a
/// single file, and how many clips share its directory when that is a per-clip directory.
pub struct RawGroup {
    pub group_path: String,
    pub group_name: String,
    pub root_clip: Option<String>,
    pub shared_dir_clip_count: usize,
}

pub open spec fn raw_group_view(g: RawGroup) -> (Seq<char>, Seq<char>, Option<Seq<char>>, nat) {
    (g.group_path@, g.group_name@, opt_string(g.root_clip), g.shared_dir_clip_count as nat)
}

pub open spec fn raw_groups_view(v: Seq<RawGroup>) -> Seq<(Seq<char>, Seq<char>, Option<Seq<char>>, nat)> {
    v.map_values(|g: RawGroup| raw_group_view(g))
}

/// The groups that the files of a per-clip directory become: one per file, named by its stem.
pub open spec fn per_clip_groups(dir: Seq<char>, files: Seq<FoundFile>) -> Seq<(Seq<char>, Seq<char>, Option<Seq<char>>, nat)> {
    files.map_values(|f: FoundFile| (dir, file_stem(f.file_name@), Some(f.path@), files.len()))
}

/// The groups an entry yields.
pub open spec fn entry_groups(e: SourceEntry, source_path: Seq<char>) -> Seq<(Seq<char>, Seq<char>, Option<Seq<char>>, nat)> {
    match e {
        SourceEntry::Directory { path, name, within_root, per_clip_files } => match within_root {
            Err(_) => Seq::empty(),
            Ok(_) => if eq_ic(name@, "record"@) {
                match per_clip_files {
                    Some(Ok(files)) => per_clip_groups(path@, files@),
                    _ => Seq::empty(),
                }
            } else {
                seq![(path@, name@, None, 0nat)]
            },
        },
        SourceEntry::Mp4File { file, within_root } => match within_root {
            Ok(_) => seq![(source_path, file_stem(file.file_name@), Some(file.path@), 0nat)],
            Err(_) => Seq::empty(),
        },
        _ => Seq::empty(),
    }
}

/// The problem an entry reports, if any.
pub open spec fn entry_problem(e: SourceEntry) -> Option<Seq<char>> {
    match e {
        SourceEntry::Unreadable { path, error } => Some(
            "Failed to inspect source entry "@ + path@ + ": "@ + error@,
        ),
        SourceEntry::Link { path } => Some("Skipped symbolic link or reparse point: "@ + path@),
        SourceEntry::Directory { path, name, within_root, per_clip_files } => match within_root {
            Err(e) => Some(e@),
            Ok(_) => if eq_ic(name@, "record"@) {
                match per_clip_files {
                    Some(Err(e)) => Some(e@),
                    _ => None,
                }
            } else {
                None
            },
        },
        SourceEntry::Mp4File { file, within_root } => match within_root {
            Err(e) => Some(e@),
            Ok(_) => None,
        },
        SourceEntry::Other => None,
    }
}

pub open spec fn planned_groups(entries: Seq<SourceEntry>, source_path: Seq<char>) -> Seq<(Seq<char>, Seq<char>, Option<Seq<char>>, nat)>
    decreases entries.len(),
{
    if entries.len() == 0 {
        Seq::empty()
    } else {
        planned_groups(entries.drop_last(), source_path) + entry_groups(entries.last(), source_path)
    }
}

pub open spec fn planned_problems(entries: Seq<SourceEntry>) -> Seq<Seq<char>>
    decreases entries.len(),
{
    if entries.len() == 0 {
        Seq::empty()
    } else {
        match entry_problem(entries.last()) {
            Some(p) => planned_problems(entries.drop_last()).push(p),
            None => planned_problems(entries.drop_last()),
        }
    }
}

fn per_clip_raw_groups(dir: &String, files: &Vec<FoundFile>) -> (res: Vec<RawGroup>)
    ensures
        raw_groups_view(res@) == per_clip_groups(dir@, files@),
{
    let mut out: Vec<RawGroup> = Vec::new();
    let mut k: usize = 0;
    while k < files.len()
        invariant
            k <= files@.len(),
            raw_groups_view(out@) == per_clip_groups(dir@, files@).take(k as int),
        decreases files.len() - k,
    {
        let g = RawGroup {
            group_path: copy_text(dir),
            group_name: clip_group_name_for_file(files[k].file_name.as_str()),
            root_clip: Some(copy_text(&files[k].path)),
            shared_dir_clip_count: files.len(),
        };
        let ghost before = raw_groups_view(out@);
        out.push(g);
        assert(raw_groups_view(out@) =~= before.push(raw_group_view(g)));
        assert(per_clip_groups(dir@, files@).take(k + 1) =~= per_clip_groups(dir@, files@).take(k as int).push(
            per_clip_groups(dir@, files@)[k as int],
        ));
        k = k + 1;
    }
    assert(per_clip_groups(dir@, files@).take(files@.len() as int) =~= per_clip_groups(dir@, files@));
    out
}

/// The groups and the problem of one entry.
fn plan_entry(e: &SourceEntry, source_path: &str) -> (res: (Vec<RawGroup>, Option<String>))
    ensures
        raw_groups_view(res.0@) == entry_groups(*e, source_path@),
        opt_string(res.1) == entry_problem(*e),
{
    let mut groups: Vec<RawGroup> = Vec::new();
    match e {
        SourceEntry::Unreadable { path, error } => {
            let text = concat(
                &concat(&concat(&chars_of("Failed to inspect source entry "), &chars_of(path.as_str())), &chars_of(": ")),
                &chars_of(error.as_str()),
            );
            assert(raw_groups_view(groups@) =~= Seq::<(Seq<char>, Seq<char>, Option<Seq<char>>, nat)>::empty());
            (groups, Some(string_of(text.as_slice())))
        },
        SourceEntry::Link { path } => {
            let text = concat(&chars_of("Skipped symbolic link or reparse point: "), &chars_of(path.as_str()));
            assert(raw_groups_view(groups@) =~= Seq::<(Seq<char>, Seq<char>, Option<Seq<char>>, nat)>::empty());
            (groups, Some(string_of(text.as_slice())))
        },
        SourceEntry::Directory { path, name, within_root, per_clip_files } => {
            match within_root {
                Err(err) => {
                    assert(raw_groups_view(groups@) =~= Seq::<(Seq<char>, Seq<char>, Option<Seq<char>>, nat)>::empty());
                    (groups, Some(copy_text(err)))
                },
                Ok(_) => {
                    if is_aclos_per_clip_group_dir(name.as_str()) {
                        match per_clip_files {
                            Some(Ok(files)) => (per_clip_raw_groups(path, files), None),
                            Some(Err(err)) => {
                                assert(raw_groups_view(groups@) =~= Seq::<(Seq<char>, Seq<char>, Option<Seq<char>>, nat)>::empty());
                                (groups, Some(copy_text(err)))
                            },
                            None => {
                                assert(raw_groups_view(groups@) =~= Seq::<(Seq<char>, Seq<char>, Option<Seq<char>>, nat)>::empty());
                                (groups, None)
                            },
                        }
                    } else {
                        let g = RawGroup {
                            group_path: copy_text(path),
                            group_name: copy_text(name),
                            root_clip: None,
                            shared_dir_clip_count: 0,
                        };
                        groups.push(g);
                        assert(raw_groups_view(groups@) =~= seq![raw_group_view(g)]);
                        (groups, None)
                    }
                },
            }
        },
        SourceEntry::Mp4File { file, within_root } => {
            match within_root {
                Err(err) => {
                    assert(raw_groups_view(groups@) =~= Seq::<(Seq<char>, Seq<char>, Option<Seq<char>>, nat)>::empty());
                    (groups, Some(copy_text(err)))
                },
                Ok(_) => {
                    let g = RawGroup {
                        group_path: string_of(chars_of(source_path).as_slice()),
                        group_name: clip_group_name_for_file(file.file_name.as_str()),
                        root_clip: Some(copy_text(&file.path)),
                        shared_dir_clip_count: 0,
                    };
                    groups.push(g);
                    assert(raw_groups_view(groups@) =~= seq![raw_group_view(g)]);
                    (groups, None)
                },
            }
        },
        SourceEntry::Other => {
            assert(raw_groups_view(groups@) =~= Seq::<(Seq<char>, Seq<char>, Option<Seq<char>>, nat)>::empty());
            (groups, None)
        },
    }
}

/// Plans the clip groups of an ACLOS source from the entries of its top directory, in order:
/// each ordinary directory is a group; each mp4 file of a per-clip `record` directory, and each
/// mp4 file directly in the source, is a group of its own. Each entry that could not be used is
/// recorded as a problem of the source, and any problem keeps unseen clips from being marked
/// missing.
pub fn plan_source_groups(
    summary: &mut ScanSummary,
    source_errors: &mut Vec<String>,
    complete_for_missing: &mut bool,
    source_path: &str,
    entries: &Vec<SourceEntry>,
) -> (res: Vec<RawGroup>)
    ensures
        raw_groups_view(res@) == planned_groups(entries@, source_path@),
        *final(complete_for_missing) == (*old(complete_for_missing) && planned_problems(entries@).len() == 0),
        same_counts(*old(summary), *final(summary)),
        (strings_view(final(summary).errors@), final(summary).omitted_error_count) == pushed_all(
            strings_view(old(summary).errors@),
            old(summary).omitted_error_count,
            source_error_texts(source_path@, planned_problems(entries@)),
        ),
        strings_view(final(source_errors)@) == sampled_all(
            strings_view(old(source_errors)@),
            planned_problems(entries@),
        ),
{
    let mut groups: Vec<RawGroup> = Vec::new();
    let mut i: usize = 0;
    while i < entries.len()
        invariant
            i <= entries@.len(),
            raw_groups_view(groups@) == planned_groups(entries@.take(i as int), source_path@),
            *complete_for_missing == (*old(complete_for_missing) && planned_problems(entries@.take(i as int)).len()
                == 0),
            same_counts(*old(summary), *summary),
            (strings_view(summary.errors@), summary.omitted_error_count) == pushed_all(
                strings_view(old(summary).errors@),
                old(summary).omitted_error_count,
                source_error_texts(source_path@, planned_problems(entries@.take(i as int))),
            ),
            strings_view(source_errors@) == sampled_all(
                strings_view(old(source_errors)@),
                planned_problems(entries@.take(i as int)),
            ),
        decreases entries.len() - i,
    {
        let ghost prefix = entries@.take(i as int);
        assert(entries@.take(i + 1).drop_last() =~= prefix);
        assert(entries@.take(i + 1).last() == entries@[i as int]);
        let (mut more, problem) = plan_entry(&entries[i], source_path);
        let ghost before = raw_groups_view(groups@);
        groups.append(&mut more);
        assert(raw_groups_view(groups@) =~= before + entry_groups(entries@[i as int], source_path@));
        match problem {
            Some(p) => {
                let ghost s0 = *summary;
                let ghost probs = planned_problems(prefix);
                record_source_problem(summary, source_errors, complete_for_missing, source_path, p.as_str());
                proof {
                    let texts = source_error_texts(source_path@, probs);
                    let next = source_error_texts(source_path@, probs.push(p@));
                    assert(probs.push(p@).drop_last() =~= probs);
                    assert(next == texts.push(source_error_text(source_path@, p@)));
                    lemma_pushed_all_concat(
                        strings_view(old(summary).errors@),
                        old(summary).omitted_error_count,
                        texts,
                        seq![source_error_text(source_path@, p@)],
                    );
                    assert(texts + seq![source_error_text(source_path@, p@)] =~= next);
                    let mid = pushed_all(strings_view(old(summary).errors@), old(summary).omitted_error_count, texts);
                    assert(seq![source_error_text(source_path@, p@)].drop_last() =~= Seq::<Seq<char>>::empty());
                    assert(pushed_all(mid.0, mid.1, Seq::empty()) == mid);
                }
            },
            None => {},
        }
        i = i + 1;
    }
    assert(entries@.take(entries@.len() as int) =~= entries@);
    groups
}

/// How the store saved a scanned clip.
#[derive(Debug, Clone, Copy, PartialEq, Eq, Structural)]
pub enum ClipSaveOutcome {
    Inserted,
    Updated,
    Unchanged,
}

/// Counts a saved clip: as new or updated as the store reports, and as missing its cover when
/// none was found for it.
pub fn count_saved_clip(summary: &mut ScanSummary, outcome: ClipSaveOutcome, has_cover: bool)
    requires
        old(summary).new_clip_count < i64::MAX,
        old(summary).updated_clip_count < i64::MAX,
        old(summary).cover_missing_count < i64::MAX,
    ensures
        final(summary).new_clip_count == old(summary).new_clip_count + if outcome == ClipSaveOutcome::Inserted {
            1int
        } else {
            0
        },
        final(summary).updated_clip_count == old(summary).updated_clip_count + if outcome
            == ClipSaveOutcome::Updated {
            1int
        } else {
            0
        },
        final(summary).cover_missing_count == old(summary).cover_missing_count + if has_cover {
            0int
        } else {
            1
        },
        final(summary).root_path@ == old(summary).root_path@,
        final(summary).source_dir_count == old(summary).source_dir_count,
        final(summary).clip_group_count == old(summary).clip_group_count,
        final(summary).missing_clip_count == old(summary).missing_clip_count,
        final(summary).pending_clip_count == old(summary).pending_clip_count,
        final(summary).metadata_match_count == old(summary).metadata_match_count,
        final(summary).metadata_enriched_clip_count == old(summary).metadata_enriched_clip_count,
        final(summary).metadata_event_count == old(summary).metadata_event_count,
        final(summary).metadata_warning_count == old(summary).metadata_warning_count,
        final(summary).omitted_error_count == old(summary).omitted_error_count,
        final(summary).errors@ == old(summary).errors@,
        final(summary).message == old(summary).message,
{
    match outcome {
        ClipSaveOutcome::Inserted => summary.new_clip_count = summary.new_clip_count + 1,
        ClipSaveOutcome::Updated => summary.updated_clip_count = summary.updated_clip_count + 1,
        ClipSaveOutcome::Unchanged => {},
    }
    if !has_cover {
        summary.cover_missing_count = summary.cover_missing_count + 1;
    }
}

/// How a finished ACLOS source is recorded: as fine when it met no problem, otherwise as partial
/// with its problems joined by ` | `.
pub fn source_problem_text(source_errors: &Vec<String>) -> (res: Option<String>)
    ensures
        match res {
            None => source_errors@.len() == 0,
            Some(t) => source_errors@.len() > 0 && t@ == joined(strings_view(source_errors@), " | "@),
        },
{
    if source_errors.len() == 0 {
        return None;
    }
    Some(string_of(join_strings(source_errors, " | ").as_slice()))
}

/// The paths of the sources whose metadata is imported: those read and eligible, in order.
pub open spec fn metadata_source_list(outcomes: Seq<SourceScanOutcome>) -> Seq<Seq<char>>
    decreases outcomes.len(),
{
    if outcomes.len() == 0 {
        Seq::empty()
    } else {
        let prev = metadata_source_list(outcomes.drop_last());
        let o = outcomes.last();
        if o.accessible && o.metadata_eligible {
            prev.push(o.source_path@)
        } else {
            prev
        }
    }
}

/// The stored sources that a completed scan marks fresh: those read completely, in order.
pub open spec fn fresh_source_list(outcomes: Seq<SourceScanOutcome>) -> Seq<i64>
    decreases outcomes.len(),
{
    if outcomes.len() == 0 {
        Seq::empty()
    } else {
        let prev = fresh_source_list(outcomes.drop_last());
        let o = outcomes.last();
        match o.source_id {
            Some(id) => if o.accessible && o.complete_for_missing {
                prev.push(id)
            } else {
                prev
            },
            None => prev,
        }
    }
}

/// The sources whose metadata is imported: those that could be read and are eligible, in the
/// order they were scanned.
pub fn metadata_source_paths_of(outcomes: &Vec<SourceScanOutcome>) -> (res: Vec<String>)
    ensures
        strings_view(res@) == metadata_source_list(outcomes@),
{
    let mut out: Vec<String> = Vec::new();
    let mut i: usize = 0;
    while i < outcomes.len()
        invariant
            i <= outcomes@.len(),
            strings_view(out@) == metadata_source_list(outcomes@.take(i as int)),
        decreases outcomes.len() - i,
    {
        assert(outcomes@.take(i + 1).drop_last() =~= outcomes@.take(i as int));
        let o = &outcomes[i];
        if o.accessible && o.metadata_eligible {
            let ghost before = strings_view(out@);
            out.push(copy_text(&o.source_path));
            assert(strings_view(out@) =~= before.push(o.source_path@));
        }
        i = i + 1;
    }
    assert(outcomes@.take(outcomes@.len() as int) =~= outcomes@);
    out
}

/// The stored sources that a scan completed without warnings marks as freshly scanned: those
/// read in full, in the order they were scanned.
pub fn fresh_source_ids(outcomes: &Vec<SourceScanOutcome>) -> (res: Vec<i64>)
    ensures
        res@ == fresh_source_list(outcomes@),
{
    let mut out: Vec<i64> = Vec::new();
    let mut i: usize = 0;
    while i < outcomes.len()
        invariant
            i <= outcomes@.len(),
            out@ == fresh_source_list(outcomes@.take(i as int)),
        decreases outcomes.len() - i,
    {
        assert(outcomes@.take(i + 1).drop_last() =~= outcomes@.take(i as int));
        let o = &outcomes[i];
        match o.source_id {
            Some(id) => {
                if o.accessible && o.complete_for_missing {
                    out.push(id);
                }
            },
            None => {},
        }
        i = i + 1;
    }
    assert(outcomes@.take(outcomes@.len() as int) =~= outcomes@);
    out
}

/// The active clips of `active_paths` that a scan did not see, in order.
pub open spec fn unseen_list(active_paths: Seq<Seq<char>>, seen: Seq<Seq<char>>) -> Seq<Seq<char>>
    decreases active_paths.len(),
{
    if active_paths.len() == 0 {
        Seq::empty()
    } else {
        let prev = unseen_list(active_paths.drop_last(), seen);
        if seen.contains(active_paths.last()) {
            prev
        } else {
            prev.push(active_paths.last())
        }
    }
}

/// The clips of a stored source to mark missing: its active clips that the scan did not see,
/// and none unless the source was read completely.
pub fn unseen_clip_paths(outcome: &SourceScanOutcome, active_paths: &Vec<String>) -> (res: Vec<String>)
    ensures
        strings_view(res@) == if outcome.complete_for_missing && outcome.source_id is Some {
            unseen_list(strings_view(active_paths@), strings_view(outcome.seen_paths@))
        } else {
            Seq::empty()
        },
{
    let mut out: Vec<String> = Vec::new();
    if !outcome.complete_for_missing || outcome.source_id.is_none() {
        assert(strings_view(out@) =~= Seq::<Seq<char>>::empty());
        return out;
    }
    let ghost active = strings_view(active_paths@);
    let ghost seen = strings_view(outcome.seen_paths@);
    let mut i: usize = 0;
    while i < active_paths.len()
        invariant
            i <= active_paths@.len(),
            active == strings_view(active_paths@),
            seen == strings_view(outcome.seen_paths@),
            strings_view(out@) == unseen_list(active.take(i as int), seen),
        decreases active_paths.len() - i,
    {
        assert(active.take(i + 1).drop_last() =~= active.take(i as int));
        assert(active.take(i + 1).last() == active_paths@[i as int]@);
        let path = copy_text(&active_paths[i]);
        if !contains_string(&outcome.seen_paths, &path) {
            let ghost before = strings_view(out@);
            out.push(path);
            assert(strings_view(out@) =~= before.push(active_paths@[i as int]@));
        }
        i = i + 1;
    }
    assert(active.take(active.len() as int) =~= active);
    out
}

/// The message of a scan that found no sources to scan.
pub open spec fn empty_batch_message(source_dir_count: i64, clip_group_count: i64) -> Seq<char> {
    "Scan completed: "@ + signed_decimal(source_dir_count as int) + " sources, "@ + signed_decimal(
        clip_group_count as int,
    ) + " groups"@
}

/// The message of a scan that ran through its batch, noting whether it met warnings.
pub open spec fn batch_message(root_count: nat, source_dir_count: i64, clip_group_count: i64, warned: bool) -> Seq<char> {
    (if warned {
        "Scan completed with warnings: "@
    } else {
        "Scan completed: "@
    }) + decimal(root_count) + " roots, "@ + signed_decimal(source_dir_count as int) + " sources, "@
        + signed_decimal(clip_group_count as int) + " groups"@
}

/// The message of a scan that found no sources to scan.
pub fn empty_scan_message(summary: &ScanSummary) -> (res: String)
    ensures
        res@ == empty_batch_message(summary.source_dir_count, summary.clip_group_count),
{
    let text = concat(
        &concat(
            &concat(
                &concat(&chars_of("Scan completed: "), &decimal_i64(summary.source_dir_count)),
                &chars_of(" sources, "),
            ),
            &decimal_i64(summary.clip_group_count),
        ),
        &chars_of(" groups"),
    );
    string_of(text.as_slice())
}

/// The message of a scan that ran through its batch of `root_count` roots: with warnings when
/// it recorded any error.
pub fn completed_scan_message(root_count: usize, summary: &ScanSummary) -> (res: String)
    ensures
        res@ == batch_message(
            root_count as nat,
            summary.source_dir_count,
            summary.clip_group_count,
            summary.errors@.len() > 0,
        ),
{
    let head = if summary.errors.len() > 0 {
        chars_of("Scan completed with warnings: ")
    } else {
        chars_of("Scan completed: ")
    };
    let text = concat(
        &concat(
            &concat(
                &concat(
                    &concat(&concat(&head, &decimal_u128(root_count as u128)), &chars_of(" roots, ")),
                    &decimal_i64(summary.source_dir_count),
                ),
                &chars_of(" sources, "),
            ),
            &decimal_i64(summary.clip_group_count),
        ),
        &chars_of(" groups"),
    );
    string_of(text.as_slice())
}

/// A scan with no error samples completed; one with any is partial.
#[derive(Debug, Clone, Copy, PartialEq, Eq, Structural)]
pub enum ScanExecutionStatus {
    Completed,
    Partial,
    Cancelled,
}

impl ScanExecutionStatus {
    pub fn as_str(self) -> (res: &'static str)
        ensures
            res@ == match self {
                ScanExecutionStatus::Completed => "completed"@,
                ScanExecutionStatus::Partial => "partial"@,
                ScanExecutionStatus::Cancelled => "cancelled"@,
            },
    {
        match self {
            ScanExecutionStatus::Completed => "completed",
            ScanExecutionStatus::Partial => "partial",
            ScanExecutionStatus::Cancelled => "cancelled",
        }
    }
}

/// The status of a scan that ran to its end.
pub fn completed_status(summary: &ScanSummary) -> (res: ScanExecutionStatus)
    ensures
        res == (if summary.errors@.len() == 0 {
            ScanExecutionStatus::Completed
        } else {
            ScanExecutionStatus::Partial
        }),
{
    if summary.errors.len() == 0 {
        ScanExecutionStatus::Completed
    } else {
        ScanExecutionStatus::Partial
    }
}

/// Records a warning about one source: the source can no longer be trusted to prove clips
/// missing, the scan records the error, and the source keeps up to 16 distinct samples.
pub fn record_source_warning(
    summary: &mut ScanSummary,
    source_errors: &mut Vec<String>,
    complete_for_missing: &mut bool,
    error: &str,
)
    ensures
        !*final(complete_for_missing),
        same_counts(*old(summary), *final(summary)),
        strings_view(final(summary).errors@) == summary_errors_after(
            strings_view(old(summary).errors@),
            error@,
        ),
        strings_view(final(source_errors)@) == offered(
            strings_view(old(source_errors)@),
            error@,
            MAX_SOURCE_ERROR_SAMPLES as nat,
        ),
{
    *complete_for_missing = false;
    summary.push_error(error);
    offer_error(source_errors, string_of(&chars_of(error)), MAX_SOURCE_ERROR_SAMPLES);
}

// ---------------------------------------------------------------------------------------------
// The walk of a plain MP4 source
// ---------------------------------------------------------------------------------------------

/// How deep below its root a plain MP4 source is searched.
pub const MAX_RECURSIVE_DEPTH: usize = 64;
/// How many MP4 files one plain source may hold before its walk stops.
pub const MAX_RECURSIVE_MP4_FILES: usize = 1000000;

/// What the walk does with a directory taken from its stack.
pub enum DirectoryDecision {
    /// It lies deeper than the limit: skipped, with this warning.
    TooDeep(String),
    /// It was read before (through another path): skipped quietly.
    AlreadyVisited,
    /// It is read.
    Read,
}

/// Decides whether the walk reads a directory found at `depth`.
pub fn recursive_directory_decision(directory: &str, depth: usize, already_visited: bool) -> (res:
    DirectoryDecision)
    ensures
        depth > MAX_RECURSIVE_DEPTH ==> (res matches DirectoryDecision::TooDeep(w) && w@
            == "Skipped directory deeper than 64 levels: "@ + directory@),
        depth <= MAX_RECURSIVE_DEPTH && already_visited ==> res is AlreadyVisited,
        depth <= MAX_RECURSIVE_DEPTH && !already_visited ==> res is Read,
{
    if depth > MAX_RECURSIVE_DEPTH {
        return DirectoryDecision::TooDeep(join_text("Skipped directory deeper than 64 levels: ", directory));
    }
    if already_visited {
        DirectoryDecision::AlreadyVisited
    } else {
        DirectoryDecision::Read
    }
}

/// What the walk met while reading a directory.
pub enum WalkEntry {
    /// The directory could not be read.
    DirectoryUnreadable { directory: String, error: String },
    /// An entry of the directory could not be enumerated.
    EnumerateFailed { directory: String, error: String },
    /// An entry could not be inspected.
    InspectFailed { path: String, error: String },
    /// A symbolic link or reparse point, which is never followed.
    Link { path: String },
    /// A directory, with its canonical path when it resolved inside the source's root.
    Directory { path: String, canonical: Result<String, String> },
    /// A regular file, and whether it has the `mp4` extension.
    File { path: String, is_mp4: bool },
    /// Anything else.
    Other,
}

/// What the walk does about an entry.
pub enum WalkAction {
    /// Records this warning and goes on.
    Warn(String),
    /// Searches this directory next, one level deeper.
    Descend { directory: String, depth: usize },
    /// Ignores the entry.
    Skip,
    /// The entry is an MP4 candidate.
    Candidate,
}

/// One more than `n`, saturating at `usize::MAX`.
pub open spec fn sat_next(n: usize) -> usize {
    if n == usize::MAX { usize::MAX } else { (n + 1) as usize }
}

/// Decides what the walk does about an entry of a directory at `depth`.
pub fn recursive_walk_action(e: &WalkEntry, depth: usize) -> (res: WalkAction)
    ensures
        match *e {
            WalkEntry::DirectoryUnreadable { directory, error } => (res matches WalkAction::Warn(w) && w@
                == "Failed to read directory "@ + directory@ + ": "@ + error@),
            WalkEntry::EnumerateFailed { directory, error } => (res matches WalkAction::Warn(w) && w@
                == "Failed to enumerate an entry in "@ + directory@ + ": "@ + error@),
            WalkEntry::InspectFailed { path, error } => (res matches WalkAction::Warn(w) && w@ == "Failed to inspect "@
                + path@ + ": "@ + error@),
            WalkEntry::Link { path } => (res matches WalkAction::Warn(w) && w@
                == "Skipped symbolic link or reparse point: "@ + path@),
            WalkEntry::Directory { path, canonical } => match canonical {
                Ok(c) => (res matches WalkAction::Descend { directory, depth: d } && directory@ == c@ && d
                    == sat_next(depth)),
                Err(err) => (res matches WalkAction::Warn(w) && w@ == err@),
            },
            WalkEntry::File { path, is_mp4 } => if is_mp4 {
                res is Candidate
            } else {
                res is Skip
            },
            WalkEntry::Other => res is Skip,
        },
{
    match e {
        WalkEntry::DirectoryUnreadable { directory, error } => {
            let text = concat(
                &concat(&concat(&chars_of("Failed to read directory "), &chars_of(directory.as_str())), &chars_of(": ")),
                &chars_of(error.as_str()),
            );
            WalkAction::Warn(string_of(text.as_slice()))
        },
        WalkEntry::EnumerateFailed { directory, error } => {
            let text = concat(
                &concat(
                    &concat(&chars_of("Failed to enumerate an entry in "), &chars_of(directory.as_str())),
                    &chars_of(": "),
                ),
                &chars_of(error.as_str()),
            );
            WalkAction::Warn(string_of(text.as_slice()))
        },
        WalkEntry::InspectFailed { path, error } => {
            let text = concat(
                &concat(&concat(&chars_of("Failed to inspect "), &chars_of(path.as_str())), &chars_of(": ")),
                &chars_of(error.as_str()),
            );
            WalkAction::Warn(string_of(text.as_slice()))
        },
        WalkEntry::Link { path } => WalkAction::Warn(
            join_text("Skipped symbolic link or reparse point: ", path.as_str()),
        ),
        WalkEntry::Directory { path, canonical } => match canonical {
            Ok(c) => {
                let d = if depth == usize::MAX { usize::MAX } else { depth + 1 };
                WalkAction::Descend { directory: copy_text(c), depth: d }
            },
            Err(err) => WalkAction::Warn(copy_text(err)),
        },
        WalkEntry::File { path, is_mp4 } => if *is_mp4 {
            WalkAction::Candidate
        } else {
            WalkAction::Skip
        },
        WalkEntry::Other => WalkAction::Skip,
    }
}

/// Counts one more MP4 candidate; past the limit the walk stops, with a warning naming the root.
pub fn count_recursive_candidate(count: usize, root: &str) -> (res: (usize, Option<String>))
    ensures
        res.0 == sat_next(count),
        res.1 is Some <==> res.0 > MAX_RECURSIVE_MP4_FILES,
        res.1 matches Some(w) ==> w@ == "Stopped after 1000000 MP4 candidates under "@ + root@,
{
    let next = if count == usize::MAX { usize::MAX } else { count + 1 };
    if next > MAX_RECURSIVE_MP4_FILES {
        (next, Some(join_text("Stopped after 1000000 MP4 candidates under ", root)))
    } else {
        (next, None)
    }
}

/// How the store judged a staged candidate against what it already holds.
pub enum ReconnectJudgement {
    /// A clip is already indexed at this path.
    ExistingPath,
    /// The file is new.
    New,
    /// The file is new, with a warning; `skips_candidate` when the warning says another source
    /// owns the path or the normalized path conflicts.
    NewWithWarning { skips_candidate: bool },
    /// The file is a moved clip; `same_identity` when it still shows the identity the plan was
    /// built with.
    Reconnect { same_identity: bool },
}

/// What the walk does with a staged candidate.
#[derive(Debug, Clone, Copy, PartialEq, Eq, Structural)]
pub enum CandidateRoute {
    /// Leaves it alone.
    Skip,
    /// Queues it for manual classification instead of importing it.
    QueuePending,
    /// Moves the old clip onto it.
    Reconnect,
    /// Indexes it as a clip of the source.
    SaveNormally,
}

/// Routes a staged candidate: a warning about a foreign owner or a path conflict skips it; a
/// new recording of an NVIDIA source waits for manual classification; a moved clip whose
/// identity still matches the plan is reconnected; everything else is indexed normally.
pub fn route_staged_candidate(judgement: &ReconnectJudgement, is_nvidia_source: bool) -> (res: CandidateRoute)
    ensures
        res == match *judgement {
            ReconnectJudgement::ExistingPath => CandidateRoute::SaveNormally,
            ReconnectJudgement::New => if is_nvidia_source {
                CandidateRoute::QueuePending
            } else {
                CandidateRoute::SaveNormally
            },
            ReconnectJudgement::NewWithWarning { skips_candidate } => if skips_candidate {
                CandidateRoute::Skip
            } else if is_nvidia_source {
                CandidateRoute::QueuePending
            } else {
                CandidateRoute::SaveNormally
            },
            ReconnectJudgement::Reconnect { same_identity } => if same_identity {
                CandidateRoute::Reconnect
            } else {
                CandidateRoute::SaveNormally
            },
        },
{
    match judgement {
        ReconnectJudgement::ExistingPath => CandidateRoute::SaveNormally,
        ReconnectJudgement::New => if is_nvidia_source {
            CandidateRoute::QueuePending
        } else {
            CandidateRoute::SaveNormally
        },
        ReconnectJudgement::NewWithWarning { skips_candidate } => if *skips_candidate {
            CandidateRoute::Skip
        } else if is_nvidia_source {
            CandidateRoute::QueuePending
        } else {
            CandidateRoute::SaveNormally
        },
        ReconnectJudgement::Reconnect { same_identity } => if *same_identity {
            CandidateRoute::Reconnect
        } else {
            CandidateRoute::SaveNormally
        },
    }
}

/// How applying a reconnect plan went.
pub enum ReconnectApplication {
    /// The old clip now points at the new path.
    Reconnected,
    /// The old path still exists, so the file is a copy.
    OldPathPresent,
    /// The old path could not be checked.
    OldPathUnverifiable(String),
    /// The plan no longer matches the store.
    StalePlan,
    /// The store refused.
    Failed(String),
}

/// What follows a reconnect attempt for the file at `path`: the warning to record, if any, and
/// whether the file is then indexed normally. A refused reconnect leaves the file alone.
pub fn after_reconnect(application: &ReconnectApplication, path: &str) -> (res: (Option<String>, bool))
    ensures
        match *application {
            ReconnectApplication::Reconnected => res.0 is None && !res.1,
            ReconnectApplication::OldPathPresent => res.0 is None && res.1,
            ReconnectApplication::OldPathUnverifiable(e) => opt_string(res.0) == Some(
                "Old clip path could not be verified before reconnecting "@ + path@ + ": "@ + e@,
            ) && res.1,
            ReconnectApplication::StalePlan => opt_string(res.0) == Some(
                "Reconnect plan became stale before indexing "@ + path@,
            ) && res.1,
            ReconnectApplication::Failed(e) => opt_string(res.0) == Some(
                "Failed to reconnect recursive MP4 "@ + path@ + ": "@ + e@,
            ) && !res.1,
        },
{
    match application {
        ReconnectApplication::Reconnected => (None, false),
        ReconnectApplication::OldPathPresent => (None, true),
        ReconnectApplication::OldPathUnverifiable(e) => {
            let text = concat(
                &concat(
                    &concat(&chars_of("Old clip path could not be verified before reconnecting "), &chars_of(path)),
                    &chars_of(": "),
                ),
                &chars_of(e.as_str()),
            );
            (Some(string_of(text.as_slice())), true)
        },
        ReconnectApplication::StalePlan => (Some(join_text("Reconnect plan became stale before indexing ", path)), true),
        ReconnectApplication::Failed(e) => {
            let text = concat(
                &concat(&concat(&chars_of("Failed to reconnect recursive MP4 "), &chars_of(path)), &chars_of(": ")),
                &chars_of(e.as_str()),
            );
            (Some(string_of(text.as_slice())), false)
        },
    }
}

/// The group that progress names for a clip of a plain MP4 source: its directory relative to the
/// source, or the root directory.
pub open spec fn recursive_group_label(relative_directory: Seq<char>) -> Seq<char> {
    if relative_directory.len() == 0 {
        "根目录"@
    } else {
        relative_directory
    }
}

// ---------------------------------------------------------------------------------------------
// Progress
// ---------------------------------------------------------------------------------------------

#[derive(Debug, Clone, Copy, PartialEq, Eq, Structural)]
pub enum ScanProgressPhase {
    Discovering,
    Scanning,
    Importing,
    Metadata,
    Finalizing,
    Completed,
    Partial,
    Cancelled,
}

pub open spec fn phase_name(p: ScanProgressPhase) -> Seq<char> {
    match p {
        ScanProgressPhase::Discovering => "discovering"@,
        ScanProgressPhase::Scanning => "scanning"@,
        ScanProgressPhase::Importing => "importing"@,
        ScanProgressPhase::Metadata => "metadata"@,
        ScanProgressPhase::Finalizing => "finalizing"@,
        ScanProgressPhase::Completed => "completed"@,
        ScanProgressPhase::Partial => "partial"@,
        ScanProgressPhase::Cancelled => "cancelled"@,
    }
}

impl ScanProgressPhase {
    pub fn as_str(self) -> (res: &'static str)
        ensures
            res@ == phase_name(self),
    {
        match self {
            ScanProgressPhase::Discovering => "discovering",
            ScanProgressPhase::Scanning => "scanning",
            ScanProgressPhase::Importing => "importing",
            ScanProgressPhase::Metadata => "metadata",
            ScanProgressPhase::Finalizing => "finalizing",
            ScanProgressPhase::Completed => "completed",
            ScanProgressPhase::Partial => "partial",
            ScanProgressPhase::Cancelled => "cancelled",
        }
    }

    /// The phase that reports a finished scan.
    pub fn for_status(status: ScanExecutionStatus) -> (res: ScanProgressPhase)
        ensures
            status == ScanExecutionStatus::Completed ==> res == ScanProgressPhase::Completed,
            status == ScanExecutionStatus::Partial ==> res == ScanProgressPhase::Partial,
            status == ScanExecutionStatus::Cancelled ==> res == ScanProgressPhase::Cancelled,
    {
        match status {
            ScanExecutionStatus::Completed => ScanProgressPhase::Completed,
            ScanExecutionStatus::Partial => ScanProgressPhase::Partial,
            ScanExecutionStatus::Cancelled => ScanProgressPhase::Cancelled,
        }
    }
}

/// The phase that reports a finished scan with `status`.
pub open spec fn status_phase(status: ScanExecutionStatus) -> ScanProgressPhase {
    match status {
        ScanExecutionStatus::Completed => ScanProgressPhase::Completed,
        ScanExecutionStatus::Partial => ScanProgressPhase::Partial,
        ScanExecutionStatus::Cancelled => ScanProgressPhase::Cancelled,
    }
}

/// Only the message differs.
pub open spec fn same_except_message(a: ScanSummary, b: ScanSummary) -> bool {
    &&& a.root_path@ == b.root_path@
    &&& a.source_dir_count == b.source_dir_count
    &&& a.clip_group_count == b.clip_group_count
    &&& a.new_clip_count == b.new_clip_count
    &&& a.updated_clip_count == b.updated_clip_count
    &&& a.missing_clip_count == b.missing_clip_count
    &&& a.pending_clip_count == b.pending_clip_count
    &&& a.cover_missing_count == b.cover_missing_count
    &&& a.metadata_match_count == b.metadata_match_count
    &&& a.metadata_enriched_clip_count == b.metadata_enriched_clip_count
    &&& a.metadata_event_count == b.metadata_event_count
    &&& a.metadata_warning_count == b.metadata_warning_count
    &&& a.omitted_error_count == b.omitted_error_count
    &&& a.errors@ == b.errors@
}

/// One progress report of a scan.
pub struct ScanProgress {
    pub phase: String,
    pub root_path: String,
    pub source: Option<String>,
    pub current: i64,
    pub total: i64,
    pub source_dir_count: i64,
    pub clip_group_count: i64,
    pub clip_file_count: i64,
    pub message: String,
}

/// How a scan ended, with what it found.
pub struct ScanExecution {
    pub status: ScanExecutionStatus,
    pub summary: ScanSummary,
}

/// The counters behind the progress reports of one scan. Each step returns the report that it
/// sends; the caller hands it to whoever listens.
pub struct ScanProgressState {
    pub root_path: String,
    pub source: Option<String>,
    pub current: i64,
    pub total: i64,
    pub source_dir_count: i64,
    pub clip_group_count: i64,
    pub clip_file_count: i64,
}

/// `p` reports `state` in `phase` with `message`.
pub open spec fn reports(
    p: ScanProgress,
    state: ScanProgressState,
    phase: ScanProgressPhase,
    message: Seq<char>,
) -> bool {
    &&& p.phase@ == phase_name(phase)
    &&& p.root_path@ == state.root_path@
    &&& opt_string(p.source) == opt_string(state.source)
    &&& p.current == state.current
    &&& p.total == state.total
    &&& p.source_dir_count == state.source_dir_count
    &&& p.clip_group_count == state.clip_group_count
    &&& p.clip_file_count == state.clip_file_count
    &&& p.message@ == message
}

/// Only the source being scanned differs.
pub open spec fn same_progress_counts(a: ScanProgressState, b: ScanProgressState) -> bool {
    &&& a.root_path@ == b.root_path@
    &&& a.current == b.current
    &&& a.total == b.total
    &&& a.source_dir_count == b.source_dir_count
    &&& a.clip_group_count == b.clip_group_count
    &&& a.clip_file_count == b.clip_file_count
}

/// Only the number of sources to scan differs.
pub open spec fn same_counts_but_total(a: ScanProgressState, b: ScanProgressState) -> bool {
    &&& a.root_path@ == b.root_path@
    &&& opt_string(a.source) == opt_string(b.source)
    &&& a.current == b.current
    &&& a.source_dir_count == b.source_dir_count
    &&& a.clip_group_count == b.clip_group_count
    &&& a.clip_file_count == b.clip_file_count
}

/// The message of the report that closes a scan: its summary message, else the status name.
pub open spec fn closing_message(status: ScanExecutionStatus, message: Option<String>) -> Seq<char> {
    match message {
        Some(m) => m@,
        None => match status {
            ScanExecutionStatus::Completed => "completed"@,
            ScanExecutionStatus::Partial => "partial"@,
            ScanExecutionStatus::Cancelled => "cancelled"@,
        },
    }
}

/// The message of a scan that stopped on request.
pub open spec fn cancelled_message(source_dir_count: i64, clip_group_count: i64) -> Seq<char> {
    "Scan cancelled after "@ + signed_decimal(source_dir_count as int) + " sources and "@
        + signed_decimal(clip_group_count as int) + " groups"@
}

fn copy_text(s: &String) -> (res: String)
    ensures
        res@ == s@,
{
    string_of(chars_of(s.as_str()).as_slice())
}

fn copy_opt_text(s: &Option<String>) -> (res: Option<String>)
    ensures
        opt_string(res) == opt_string(*s),
{
    match s {
        Some(t) => Some(copy_text(t)),
        None => None,
    }
}

fn join_text(a: &str, b: &str) -> (res: String)
    ensures
        res@ == a@ + b@,
{
    string_of(concat(&chars_of(a), &chars_of(b)).as_slice())
}

impl ScanProgressState {
    /// Nothing counted yet, no source under way.
    pub fn new(root_path: String) -> (res: Self)
        ensures
            res.root_path@ == root_path@,
            res.source is None,
            res.current == 0,
            res.total == 0,
            res.source_dir_count == 0,
            res.clip_group_count == 0,
            res.clip_file_count == 0,
    {
        ScanProgressState {
            root_path,
            source: None,
            current: 0,
            total: 0,
            source_dir_count: 0,
            clip_group_count: 0,
            clip_file_count: 0,
        }
    }

    /// Sets the number of sources to scan, capped at `i64::MAX`.
    pub fn set_total_sources(&mut self, total: usize)
        ensures
            final(self).total == (if total > i64::MAX { i64::MAX as int } else { total as int }),
            final(self).root_path@ == old(self).root_path@,
            opt_string(final(self).source) == opt_string(old(self).source),
            final(self).current == old(self).current,
            final(self).source_dir_count == old(self).source_dir_count,
            final(self).clip_group_count == old(self).clip_group_count,
            final(self).clip_file_count == old(self).clip_file_count,
    {
        let wide = total as u128;
        if wide > i64::MAX as u128 {
            self.total = i64::MAX;
        } else {
            self.total = wide as i64;
        }
    }

    /// The report of the present state in `phase`.
    pub fn emit(&self, phase: ScanProgressPhase, message: &str) -> (res: ScanProgress)
        ensures
            reports(res, *self, phase, message@),
    {
        ScanProgress {
            phase: string_of(chars_of(phase.as_str()).as_slice()),
            root_path: copy_text(&self.root_path),
            source: copy_opt_text(&self.source),
            current: self.current,
            total: self.total,
            source_dir_count: self.source_dir_count,
            clip_group_count: self.clip_group_count,
            clip_file_count: self.clip_file_count,
            message: string_of(chars_of(message).as_slice()),
        }
    }

    /// The first report of a scan: it is preparing to scan its roots.
    pub fn preparing(&self) -> (res: ScanProgress)
        ensures
            reports(res, *self, ScanProgressPhase::Discovering, "正在准备扫描 "@ + self.root_path@),
    {
        let message = join_text("正在准备扫描 ", self.root_path.as_str());
        self.emit(ScanProgressPhase::Discovering, message.as_str())
    }

    /// Records how many sources the scan found (capped at `i64::MAX`) and reports it.
    pub fn sources_found(&mut self, total_sources: usize) -> (res: ScanProgress)
        ensures
            final(self).total == (if total_sources > i64::MAX { i64::MAX as int } else { total_sources as int }),
            same_counts_but_total(*old(self), *final(self)),
            reports(
                res,
                *final(self),
                ScanProgressPhase::Scanning,
                "发现 "@ + decimal(total_sources as nat) + " 个来源目录"@,
            ),
    {
        self.set_total_sources(total_sources);
        let text = concat(&concat(&chars_of("发现 "), &decimal_u128(total_sources as u128)), &chars_of(" 个来源目录"));
        let message = string_of(text.as_slice());
        self.emit(ScanProgressPhase::Scanning, message.as_str())
    }

    /// A source starts: it becomes the one under way.
    pub fn source_started(&mut self, source_name: &str, source_path: &str) -> (res: ScanProgress)
        ensures
            same_progress_counts(*old(self), *final(self)),
            opt_string(final(self).source) == Some(source_path@),
            reports(res, *final(self), ScanProgressPhase::Scanning, "正在扫描 "@ + source_name@),
    {
        self.source = Some(string_of(chars_of(source_path).as_slice()));
        let message = join_text("正在扫描 ", source_name);
        self.emit(ScanProgressPhase::Scanning, message.as_str())
    }

    /// One more clip file was looked at.
    pub fn clip_scanned(&mut self, file_name: &str) -> (res: ScanProgress)
        requires
            old(self).clip_file_count < i64::MAX,
        ensures
            final(self).clip_file_count == old(self).clip_file_count + 1,
            final(self).root_path@ == old(self).root_path@,
            opt_string(final(self).source) == opt_string(old(self).source),
            final(self).current == old(self).current,
            final(self).total == old(self).total,
            final(self).source_dir_count == old(self).source_dir_count,
            final(self).clip_group_count == old(self).clip_group_count,
            reports(res, *final(self), ScanProgressPhase::Scanning, "已扫描文件 "@ + file_name@),
    {
        self.clip_file_count = self.clip_file_count + 1;
        let message = join_text("已扫描文件 ", file_name);
        self.emit(ScanProgressPhase::Scanning, message.as_str())
    }

    /// One more clip group was looked at.
    pub fn group_scanned(&mut self, group_name: &str) -> (res: ScanProgress)
        requires
            old(self).clip_group_count < i64::MAX,
        ensures
            final(self).clip_group_count == old(self).clip_group_count + 1,
            final(self).root_path@ == old(self).root_path@,
            opt_string(final(self).source) == opt_string(old(self).source),
            final(self).current == old(self).current,
            final(self).total == old(self).total,
            final(self).source_dir_count == old(self).source_dir_count,
            final(self).clip_file_count == old(self).clip_file_count,
            reports(res, *final(self), ScanProgressPhase::Scanning, "已扫描分组 "@ + group_name@),
    {
        self.clip_group_count = self.clip_group_count + 1;
        let message = join_text("已扫描分组 ", group_name);
        self.emit(ScanProgressPhase::Scanning, message.as_str())
    }

    /// Reports a clip of a plain MP4 source: the first clip of a directory first reports that
    /// directory as a scanned group, then the clip is reported.
    pub fn recursive_clip_scanned(
        &mut self,
        seen_directories: &mut Vec<String>,
        relative_directory: &str,
        file_name: &str,
    ) -> (res: Vec<ScanProgress>)
        requires
            old(self).clip_group_count < i64::MAX,
            old(self).clip_file_count < i64::MAX,
        ensures
            strings_view(old(seen_directories)@).contains(relative_directory@) ==> {
                &&& strings_view(final(seen_directories)@) == strings_view(old(seen_directories)@)
                &&& final(self).clip_group_count == old(self).clip_group_count
                &&& res@.len() == 1
            },
            !strings_view(old(seen_directories)@).contains(relative_directory@) ==> {
                &&& strings_view(final(seen_directories)@) == strings_view(old(seen_directories)@).push(
                    relative_directory@,
                )
                &&& final(self).clip_group_count == old(self).clip_group_count + 1
                &&& res@.len() == 2
                &&& res@[0].phase@ == phase_name(ScanProgressPhase::Scanning)
                &&& res@[0].clip_group_count == final(self).clip_group_count
                &&& res@[0].clip_file_count == old(self).clip_file_count
                &&& res@[0].message@ == "已扫描分组 "@ + recursive_group_label(relative_directory@)
            },
            final(self).clip_file_count == old(self).clip_file_count + 1,
            final(self).root_path@ == old(self).root_path@,
            opt_string(final(self).source) == opt_string(old(self).source),
            final(self).current == old(self).current,
            final(self).total == old(self).total,
            final(self).source_dir_count == old(self).source_dir_count,
            reports(res@.last(), *final(self), ScanProgressPhase::Scanning, "已扫描文件 "@ + file_name@),
    {
        let mut out: Vec<ScanProgress> = Vec::new();
        let dir = string_of(chars_of(relative_directory).as_slice());
        if !contains_string(seen_directories, &dir) {
            let ghost before = strings_view(seen_directories@);
            seen_directories.push(dir);
            assert(strings_view(seen_directories@) =~= before.push(relative_directory@));
            let label = if chars_of(relative_directory).len() == 0 {
                "根目录"
            } else {
                relative_directory
            };
            out.push(self.group_scanned(label));
        }
        out.push(self.clip_scanned(file_name));
        out
    }

    /// The source under way is done: one more source counted, and none under way. The report
    /// still names the finished source.
    pub fn source_finished(&mut self, source_name: &str) -> (res: ScanProgress)
        requires
            old(self).current < i64::MAX,
            old(self).source_dir_count < i64::MAX,
        ensures
            final(self).current == old(self).current + 1,
            final(self).source_dir_count == old(self).source_dir_count + 1,
            final(self).source is None,
            final(self).root_path@ == old(self).root_path@,
            final(self).total == old(self).total,
            final(self).clip_group_count == old(self).clip_group_count,
            final(self).clip_file_count == old(self).clip_file_count,
            res.phase@ == phase_name(ScanProgressPhase::Scanning),
            res.root_path@ == old(self).root_path@,
            opt_string(res.source) == opt_string(old(self).source),
            res.current == final(self).current,
            res.total == final(self).total,
            res.source_dir_count == final(self).source_dir_count,
            res.clip_group_count == final(self).clip_group_count,
            res.clip_file_count == final(self).clip_file_count,
            res.message@ == "已完成来源 "@ + source_name@,
    {
        self.current = self.current + 1;
        self.source_dir_count = self.source_dir_count + 1;
        let message = join_text("已完成来源 ", source_name);
        let report = self.emit(ScanProgressPhase::Scanning, message.as_str());
        self.source = None;
        report
    }

    /// The source under way was stopped early: nothing more is counted, and none is under way.
    pub fn source_interrupted(&mut self, source_name: &str) -> (res: ScanProgress)
        ensures
            same_progress_counts(*old(self), *final(self)),
            final(self).source is None,
            reports(res, *old(self), ScanProgressPhase::Scanning, "已停止扫描来源 "@ + source_name@),
    {
        let message = join_text("已停止扫描来源 ", source_name);
        let report = self.emit(ScanProgressPhase::Scanning, message.as_str());
        self.source = None;
        report
    }

    /// Closes a scan with `status`: the outcome, and the report whose phase names the status and
    /// whose message is the summary's message, or the status name where it has none.
    pub fn finish(&self, status: ScanExecutionStatus, summary: ScanSummary) -> (res: (
        ScanExecution,
        ScanProgress,
    ))
        ensures
            res.0.status == status,
            res.0.summary == summary,
            reports(
                res.1,
                *self,
                status_phase(status),
                closing_message(status, summary.message),
            ),
    {
        let phase = ScanProgressPhase::for_status(status);
        let report = match &summary.message {
            Some(m) => self.emit(phase, m.as_str()),
            None => self.emit(phase, status.as_str()),
        };
        (ScanExecution { status, summary }, report)
    }

    /// Closes a scan that stopped on request: the summary's message says how far it got.
    pub fn finish_cancelled(&self, summary: ScanSummary) -> (res: (ScanExecution, ScanProgress))
        ensures
            res.0.status == ScanExecutionStatus::Cancelled,
            same_except_message(res.0.summary, summary),
            opt_string(res.0.summary.message) == Some(
                cancelled_message(summary.source_dir_count, summary.clip_group_count),
            ),
            reports(
                res.1,
                *self,
                ScanProgressPhase::Cancelled,
                cancelled_message(summary.source_dir_count, summary.clip_group_count),
            ),
    {
        let mut summary = summary;
        let text = concat(
            &concat(
                &concat(
                    &concat(&chars_of("Scan cancelled after "), &decimal_i64(summary.source_dir_count)),
                    &chars_of(" sources and "),
                ),
                &decimal_i64(summary.clip_group_count),
            ),
            &chars_of(" groups"),
        );
        summary.message = Some(string_of(text.as_slice()));
        self.finish(ScanExecutionStatus::Cancelled, summary)
    }
}

// ---------------------------------------------------------------------------------------------
// Candidate files and directories
// ---------------------------------------------------------------------------------------------

/// `Path::extension` of a file name: what follows the last dot, unless that dot opens the name
/// (or the name is `..`).
pub open spec fn file_extension(name: Seq<char>) -> Option<Seq<char>> {
    if name == ".."@ {
        None
    } else {
        match char_rpos_before(name, '.', name.len() as int) {
            None => None,
            Some(i) => if i == 0 {
                None
            } else {
                Some(name.subrange(i + 1, name.len() as int))
            },
        }
    }
}

pub open spec fn is_mp4_name(name: Seq<char>) -> bool {
    file_extension(name) matches Some(ext) && eq_ic(ext, "mp4"@)
}

/// Whether a file name's extension is `mp4`, in any case.
pub fn has_mp4_extension(file_name: &str) -> (res: bool)
    ensures
        res == is_mp4_name(file_name@),
{
    let name = chars_of(file_name);
    if crate::text::seq_eq(&name, &chars_of("..")) {
        return false;
    }
    let dot = char_rpos(&name, '.');
    match dot {
        None => false,
        Some(i) => {
            assert(i < name.len());
            if i == 0 {
                false
            } else {
                let ext = slice(&name, i + 1, name.len());
                eq_ignore_case(&ext, &chars_of("mp4"))
            }
        },
    }
}

/// A source directory's name starts with `wonderfulvideos`, in any case.
pub open spec fn is_source_directory(name: Seq<char>) -> bool {
    starts_with(lower_seq(name), "wonderfulvideos"@)
}

pub fn is_source_directory_name(name: &str) -> (res: bool)
    ensures
        res == is_source_directory(name@),
{
    let lowered = to_lower(&chars_of(name));
    starts_with_exec(&lowered, &chars_of("wonderfulvideos"))
}

/// Raw session recordings share one `record` directory and are grouped per file.
pub fn is_aclos_per_clip_group_dir(dir_name: &str) -> (res: bool)
    ensures
        res == eq_ic(dir_name@, "record"@),
{
    eq_ignore_case(&chars_of(dir_name), &chars_of("record"))
}


// ---------------------------------------------------------------------------------------------
// Agent assets, videocut logs, covers and export configurations
// ---------------------------------------------------------------------------------------------

pub const EDIT_AGENT_ASSET_WINDOW_SECONDS: i64 = 60;

pub const VIDEO_EXPORT_CONFIG_WINDOW_SECONDS: i64 = 120;

/// `Path::file_stem` of a file name: all of it when it has no embedded `.` (or only a leading
/// one), else the part before its last `.`.
pub open spec fn file_stem(name: Seq<char>) -> Seq<char> {
    if name == ".."@ {
        name
    } else {
        match char_rpos_before(name, '.', name.len() as int) {
            None => name,
            Some(i) => if i == 0 {
                name
            } else {
                name.take(i)
            },
        }
    }
}

pub fn file_stem_exec(name: &Vec<char>) -> (res: Vec<char>)
    ensures
        res@ == file_stem(name@),
{
    if crate::text::seq_eq(name, &chars_of("..")) {
        return slice(name, 0, name.len());
    }
    match char_rpos(name, '.') {
        None => slice(name, 0, name.len()),
        Some(i) => {
            if i == 0 {
                slice(name, 0, name.len())
            } else {
                slice(name, 0, i)
            }
        },
    }
}

/// A stem padded with `=` to a multiple of four bytes.
pub open spec fn base64_padded(stem: Seq<char>) -> Seq<char> {
    let r = utf8_len(stem) % 4;
    if r == 0 {
        stem
    } else {
        stem + Seq::new((4 - r) as nat, |i: int| '=')
    }
}

/// The text that an edit asset's file stem holds in base64 (padded as needed), when it decodes
/// to UTF-8.
pub open spec fn decoded_stem(stem: Seq<char>) -> Option<Seq<char>> {
    match crate::highlight_log_parser::base64_standard_decode(base64_padded(stem)) {
        None => None,
        Some(bytes) => crate::text::utf8_decoded(bytes),
    }
}

pub fn decode_base64_file_stem(file_name: &str) -> (res: Option<String>)
    ensures
        opt_string(res) == decoded_stem(file_stem(file_name@)),
{
    let stem = file_stem_exec(&chars_of(file_name));
    let len = crate::metadata::utf8_prefix_bytes(&stem, stem.len());
    assert(stem@.take(stem@.len() as int) =~= stem@);
    let r = len % 4;
    let mut padded = stem;
    if r != 0 {
        let ghost base = padded@;
        let k = 4 - r;
        let mut j: u128 = 0;
        while j < k
            invariant
                j <= k <= 4,
                padded@ == base + Seq::new(j as nat, |i: int| '='),
            decreases k - j,
        {
            padded.push('=');
            assert(padded@ =~= base + Seq::new((j + 1) as nat, |i: int| '='));
            j = j + 1;
        }
    }
    let text = string_of(padded.as_slice());
    match crate::highlight_log_parser::decode_base64_standard(text.as_str()) {
        None => None,
        Some(bytes) => crate::text::decode_utf8(bytes),
    }
}

/// The digits right after the first `marker` in `lower`.
pub open spec fn id_after_marker(lower: Seq<char>, marker: Seq<char>) -> Option<Seq<char>> {
    match crate::text::find(lower, marker) {
        None => None,
        Some(i) => {
            let id = crate::text::digit_prefix(lower.skip(i + marker.len()));
            if id.len() == 0 {
                None
            } else {
                Some(id)
            }
        },
    }
}

/// The agent asset id in an asset URL: the digits after `agentbackground/agent/`, else those
/// after `agentskill/` when the URL names `agentskill/<id>_`.
pub open spec fn agent_asset_id(url: Seq<char>) -> Option<Seq<char>> {
    let lower = lower_seq(crate::text::replace_char(url, '\\', '/'));
    match id_after_marker(lower, "agentbackground/agent/"@) {
        Some(id) => Some(id),
        None => match id_after_marker(lower, "agentskill/"@) {
            None => None,
            Some(id) => if crate::text::contains(lower, "agentskill/"@ + id + "_"@) {
                Some(id)
            } else {
                None
            },
        },
    }
}

fn id_after_marker_exec(lower: &Vec<char>, marker: &str) -> (res: Option<Vec<char>>)
    ensures
        opt_chars(res) == id_after_marker(lower@, marker@),
{
    let m = chars_of(marker);
    match crate::text::find_at(lower, &m, 0) {
        None => None,
        Some(i) => {
            let n = lower.len();
            let id = crate::text::digit_prefix_exec(lower, i + m.len());
            if id.len() == 0 {
                None
            } else {
                Some(id)
            }
        },
    }
}

pub fn agent_asset_id_from_url(value: &str) -> (res: Option<String>)
    ensures
        opt_string(res) == agent_asset_id(value@),
{
    let lower = to_lower(&crate::text::replace_char_exec(&chars_of(value), '\\', '/'));
    match id_after_marker_exec(&lower, "agentbackground/agent/") {
        Some(id) => {
            return Some(string_of(id.as_slice()));
        },
        None => {},
    }
    match id_after_marker_exec(&lower, "agentskill/") {
        None => None,
        Some(id) => {
            let marker = concat(&concat(&chars_of("agentskill/"), &id), &chars_of("_"));
            if crate::text::contains_exec(&lower, &marker) {
                Some(string_of(id.as_slice()))
            } else {
                None
            }
        },
    }
}

/// The path that a videocut log line names after `marker`: the trimmed text up to the first
/// comma.
pub open spec fn path_after_marker(line: Seq<char>, marker: Seq<char>) -> Option<Seq<char>> {
    match crate::text::find(line, marker) {
        None => None,
        Some(i) => {
            let v = crate::text::trim(crate::text::before_first_char(crate::text::trim(line.skip(i + marker.len())), ','));
            if v.len() == 0 {
                None
            } else {
                Some(v)
            }
        },
    }
}

pub fn path_after_log_marker(line: &str, marker: &str) -> (res: Option<String>)
    ensures
        opt_string(res) == path_after_marker(line@, marker@),
{
    let l = chars_of(line);
    let m = chars_of(marker);
    match crate::text::find_at(&l, &m, 0) {
        None => None,
        Some(i) => {
            let n = l.len();
            let tail = slice(&l, i + m.len(), l.len());
            assert(tail@ =~= l@.skip(i + m@.len()));
            let v = crate::text::trim_exec(&crate::text::before_first_char_exec(&crate::text::trim_exec(&tail), ','));
            if v.len() == 0 {
                None
            } else {
                Some(string_of(v.as_slice()))
            }
        },
    }
}

/// Where the ACLOS application-data root of a scan entry point lies: how many directories
/// above it, and whether the entry point is one of ACLOS's own directories. An
/// `aclos-highlight` directory sits in the root; a `wonderfulVideos<openid>` directory sits in
/// `aclos-highlight` or directly in the root. `leaf` is the entry point's name (empty when it has
/// none), `parent_leaf` its parent's; `has_parent` and `has_grandparent` tell whether those
/// directories exist in the path.
pub open spec fn anchor_root_levels(
    leaf: Seq<char>,
    parent_leaf: Option<Seq<char>>,
    has_parent: bool,
    has_grandparent: bool,
) -> (nat, bool) {
    if eq_ic(leaf, "aclos-highlight"@) {
        (if has_parent { 1 } else { 0 }, true)
    } else if starts_with(lower_seq(leaf), "wonderfulvideos"@) {
        if !has_parent {
            (0, true)
        } else if parent_leaf matches Some(p) && eq_ic(p, "aclos-highlight"@) {
            (if has_grandparent { 2 } else { 1 }, true)
        } else {
            (1, true)
        }
    } else {
        (0, false)
    }
}

/// How many directories above a scan entry point its ACLOS root lies, and whether the entry
/// point is one of ACLOS's own directories (see [`anchor_root_levels`]).
pub fn aclos_root_for_scan_anchor(
    leaf: &str,
    parent_leaf: Option<&str>,
    has_parent: bool,
    has_grandparent: bool,
) -> (res: (usize, bool))
    ensures
        (res.0 as nat, res.1) == anchor_root_levels(
            leaf@,
            match parent_leaf {
                Some(p) => Some(p@),
                None => None,
            },
            has_parent,
            has_grandparent,
        ),
{
    let l = chars_of(leaf);
    let highlight = chars_of("aclos-highlight");
    if eq_ignore_case(&l, &highlight) {
        return (if has_parent { 1 } else { 0 }, true);
    }
    let lower = to_lower(&l);
    if starts_with_exec(&lower, &chars_of("wonderfulvideos")) {
        if !has_parent {
            return (0, true);
        }
        let under_highlight = match parent_leaf {
            Some(p) => eq_ignore_case(&chars_of(p), &highlight),
            None => false,
        };
        if under_highlight {
            return (if has_grandparent { 2 } else { 1 }, true);
        }
        return (1, true);
    }
    (0, false)
}

/// Whether metadata is read from the ACLOS root found next to the scanned library rather than
/// from the application-data default: there is such a root, and it holds metadata or the default
/// holds none.
pub fn prefer_scan_parent_metadata(
    has_scan_parent_root: bool,
    scan_parent_has_sources: bool,
    default_has_sources: bool,
) -> (res: bool)
    ensures
        res == (has_scan_parent_root && (scan_parent_has_sources || !default_has_sources)),
{
    has_scan_parent_root && (scan_parent_has_sources || !default_has_sources)
}

/// Whether `WonderfulDb` is read from the candidate ACLOS root rather than from the
/// application-data default: there is a candidate, and it has a `WonderfulDb` directory.
pub fn prefer_candidate_wonderful_root(has_candidate_root: bool, candidate_has_wonderful_db: bool) -> (res: bool)
    ensures
        res == (has_candidate_root && candidate_has_wonderful_db),
{
    has_candidate_root && candidate_has_wonderful_db
}

/// The library root of an ACLOS clip path: the part before `\wonderfulvideos` (any case), with
/// slashes turned to backslashes and trimmed.
pub open spec fn aclos_scan_root(value: Seq<char>) -> Option<Seq<char>> {
    let normalized = crate::text::replace_char(crate::text::trim(value), '/', '\\');
    match crate::text::find(lower_seq(normalized), "\\wonderfulvideos"@) {
        None => None,
        Some(i) => {
            let root = crate::text::trim(normalized.take(i));
            if root.len() == 0 {
                None
            } else {
                Some(root)
            }
        },
    }
}

pub fn scan_root_from_aclos_path(value: &str) -> (res: Option<String>)
    ensures
        opt_string(res) == aclos_scan_root(value@),
{
    let normalized = crate::text::replace_char_exec(&crate::text::trim_str(value), '/', '\\');
    let lower = to_lower(&normalized);
    match crate::text::find_at(&lower, &chars_of("\\wonderfulvideos"), 0) {
        None => None,
        Some(i) => {
            let root = crate::text::trim_exec(&slice(&normalized, 0, i));
            if root.len() == 0 {
                None
            } else {
                Some(string_of(root.as_slice()))
            }
        },
    }
}

/// A clip outside a per-match directory forms a group named after its file stem.
pub fn clip_group_name_for_file(file_name: &str) -> (res: String)
    ensures
        res@ == file_stem(file_name@),
{
    string_of(file_stem_exec(&chars_of(file_name)).as_slice())
}

/// A cover's key: its lowercased stem without a leading `cover-`.
pub open spec fn cover_key(cover_name: Seq<char>) -> Seq<char> {
    let stem = crate::text::unicode_lower(file_stem(cover_name));
    if starts_with(stem, "cover-"@) {
        stem.skip(6)
    } else {
        stem
    }
}

/// The first cover whose key is the clip's lowercased stem; else the only cover of a group with
/// one clip.
pub open spec fn cover_for_clip(clip_name: Seq<char>, covers: Seq<Seq<char>>, clip_count: int) -> Option<int> {
    let clip_stem = crate::text::unicode_lower(file_stem(clip_name));
    if exists|i: int| 0 <= i < covers.len() && cover_key(#[trigger] covers[i]) == clip_stem {
        Some(choose|i: int| 0 <= i < covers.len() && cover_key(#[trigger] covers[i]) == clip_stem && forall|j: int|
            0 <= j < i ==> cover_key(#[trigger] covers[j]) != clip_stem)
    } else if covers.len() == 1 && clip_count == 1 {
        Some(0)
    } else {
        None
    }
}

fn lower_stem(name: &str) -> (res: Vec<char>)
    ensures
        res@ == crate::text::unicode_lower(file_stem(name@)),
{
    let stem = string_of(file_stem_exec(&chars_of(name)).as_slice());
    chars_of(crate::text::to_lowercase_str(stem.as_str()).as_str())
}

/// The cover of a clip among the covers of its group, by index.
pub fn select_cover_for_clip(clip_name: &str, cover_names: &Vec<String>, clip_count: usize) -> (res: Option<usize>)
    ensures
        match res {
            Some(i) => cover_for_clip(clip_name@, strings_view(cover_names@), clip_count as int) == Some(i as int),
            None => cover_for_clip(clip_name@, strings_view(cover_names@), clip_count as int) is None,
        },
{
    let ghost cv = strings_view(cover_names@);
    let clip_stem = lower_stem(clip_name);
    let mut i: usize = 0;
    while i < cover_names.len()
        invariant
            i <= cover_names@.len(),
            cv == strings_view(cover_names@),
            clip_stem@ == crate::text::unicode_lower(file_stem(clip_name@)),
            forall|j: int| 0 <= j < i ==> cover_key(#[trigger] cv[j]) != clip_stem@,
        decreases cover_names.len() - i,
    {
        let stem = lower_stem(cover_names[i].as_str());
        proof {
            reveal_strlit("cover-");
        }
        let key = if starts_with_exec(&stem, &chars_of("cover-")) {
            slice(&stem, 6, stem.len())
        } else {
            slice(&stem, 0, stem.len())
        };
        proof {
            reveal_strlit("cover-");
        }
        assert(key@ =~= cover_key(cv[i as int]));
        if crate::text::seq_eq(&key, &clip_stem) {
            assert(cover_key(cv[i as int]) == clip_stem@);
            return Some(i);
        }
        i = i + 1;
    }
    if cover_names.len() == 1 && clip_count == 1 {
        Some(0)
    } else {
        None
    }
}

/// The distance in seconds between a configuration's time and the clip's, when it is within
/// the window.
pub open spec fn config_distance(observed: Option<i64>, clip: i64) -> Option<int> {
    match observed {
        None => None,
        Some(o) => {
            let d = if o >= clip {
                o - clip
            } else {
                clip - o
            };
            if d <= VIDEO_EXPORT_CONFIG_WINDOW_SECONDS {
                Some(d)
            } else {
                None
            }
        },
    }
}

/// The export configuration nearest in time to a clip, within two minutes; the first of equally
/// near ones.
pub open spec fn nearest_config(observed: Seq<Option<i64>>, clip_modified_at: Option<i64>) -> Option<int> {
    match clip_modified_at {
        None => None,
        Some(c) => if exists|i: int| 0 <= i < observed.len() && config_distance(#[trigger] observed[i], c) is Some {
            Some(
                choose|i: int|
                    0 <= i < observed.len() && (config_distance(#[trigger] observed[i], c) matches Some(d) && forall|j: int|
                        0 <= j < observed.len() ==> (config_distance(#[trigger] observed[j], c) matches Some(e) ==> (d < e
                            || (d == e && i <= j)))),
            )
        } else {
            None
        },
    }
}

pub fn select_video_export_metadata(observed: &Vec<Option<i64>>, clip_modified_at: Option<i64>) -> (res: Option<usize>)
    ensures
        match res {
            Some(i) => nearest_config(observed@, clip_modified_at) == Some(i as int),
            None => nearest_config(observed@, clip_modified_at) is None,
        },
{
    let c = match clip_modified_at {
        None => {
            return None;
        },
        Some(c) => c,
    };
    let mut best: Option<(usize, i128)> = None;
    let mut i: usize = 0;
    while i < observed.len()
        invariant
            i <= observed@.len(),
            clip_modified_at == Some(c),
            match best {
                None => forall|j: int| 0 <= j < i ==> config_distance(#[trigger] observed@[j], c) is None,
                Some((b, d)) => b < i && config_distance(observed@[b as int], c) == Some(d as int) && forall|j: int|
                    0 <= j < i ==> (config_distance(#[trigger] observed@[j], c) matches Some(e) ==> (d < e || (d == e && b
                        <= j))),
            },
        decreases observed.len() - i,
    {
        match observed[i] {
            None => {},
            Some(o) => {
                let d: i128 = if o >= c {
                    o as i128 - c as i128
                } else {
                    c as i128 - o as i128
                };
                if d <= VIDEO_EXPORT_CONFIG_WINDOW_SECONDS as i128 {
                    let better = match best {
                        None => true,
                        Some((_, bd)) => d < bd,
                    };
                    if better {
                        best = Some((i, d));
                    }
                }
            },
        }
        i = i + 1;
    }
    match best {
        None => None,
        Some((b, d)) => {
            assert(0 <= b < observed@.len() && (config_distance(observed@[b as int], c) matches Some(dd) && forall|j: int|
                0 <= j < observed@.len() ==> (config_distance(#[trigger] observed@[j], c) matches Some(e) ==> (dd < e || (dd
                == e && b <= j)))));
            proof {
                let w = choose|k: int|
                    0 <= k < observed@.len() && (config_distance(#[trigger] observed@[k], c) matches Some(dk) && forall|j: int|
                        0 <= j < observed@.len() ==> (config_distance(#[trigger] observed@[j], c) matches Some(e) ==> (dk < e
                            || (dk == e && k <= j))));
                assert(config_distance(observed@[w], c) matches Some(dw) && config_distance(observed@[b as int], c) matches Some(
                    db,
                ) && dw <= db && db <= dw && w <= b && b <= w);
            }
            Some(b)
        },
    }
}

/// Whole seconds since the Unix epoch, capped at `i64::MAX`; `None` before the epoch.
pub fn unix_seconds(after_epoch: bool, secs: u64) -> (res: Option<i64>)
    ensures
        res == if after_epoch {
            Some(
                (if secs > i64::MAX as u64 {
                    i64::MAX
                } else {
                    secs as i64
                }),
            )
        } else {
            None::<i64>
        },
{
    if !after_epoch {
        return None;
    }
    if secs > 0x7fff_ffff_ffff_ffff {
        Some(0x7fff_ffff_ffff_ffff)
    } else {
        Some(secs as i64)
    }
}

/// The decimal seconds of a time, `0` before the epoch.
pub fn format_system_time(after_epoch: bool, secs: u64) -> (res: String)
    ensures
        res@ == match unix_seconds_spec(after_epoch, secs) {
            Some(s) => crate::text::signed_decimal(s as int),
            None => "0"@,
        },
{
    match unix_seconds(after_epoch, secs) {
        Some(s) => string_of(crate::text::decimal_i64(s).as_slice()),
        None => {
            proof {
                reveal_strlit("0");
            }
            string_of(chars_of("0").as_slice())
        },
    }
}

pub open spec fn unix_seconds_spec(after_epoch: bool, secs: u64) -> Option<i64> {
    if after_epoch {
        Some(
            if secs > i64::MAX as u64 {
                i64::MAX
            } else {
                secs as i64
            },
        )
    } else {
        None
    }
}

} // verus!
