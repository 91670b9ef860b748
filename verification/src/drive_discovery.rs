//! The rules of discovering recorder libraries on the fixed drives: which directories are
//! candidates or excluded, how the sources and scan roots found are kept once and ordered, how
//! read failures are sampled, and when progress is reported. The walk over the drives reads the
//! file system and follows these rules.
use vstd::prelude::*;

use crate::highlight_log_parser::{lemma_text_lt_total, lemma_text_lt_transitive, text_less, text_lt};
use crate::text::{chars_of, concat, eq_ic, eq_ignore_case, lower_seq, opt_string, starts_with, string_of, to_lower};

verus! {

pub const MAX_WARNING_SAMPLES: usize = 8;

pub const PROGRESS_INTERVAL_DIRECTORIES: u64 = 250;

pub const SYSTEM_JUNK_DIRECTORY_NAMES: [&'static str; 2] = ["$recycle.bin", "system volume information"];

pub const FILE_ATTRIBUTE_REPARSE_POINT: u32 = 0x400;

pub const DRIVE_FIXED: u32 = 3;

/// The progress of a discovery, as reported to the user.
pub struct DiscoveryProgress {
    pub current_drive: String,
    pub visited_directory_count: u64,
    pub validated_source_dir_count: u64,
    pub message: String,
}

/// What a discovery found: counts, the source directories and scan roots (ordered by their
/// lowercased keys), and samples of the directories it could not read.
pub struct DiscoveryResult {
    pub fixed_drive_count: u64,
    pub opened_drive_count: u64,
    pub visited_directory_count: u64,
    pub validated_source_dir_count: u64,
    pub validated_source_dirs: Vec<String>,
    pub scan_roots: Vec<String>,
    pub skipped_directory_count: u64,
    pub warnings: Vec<String>,
    pub cancelled: bool,
}

pub open spec fn sat_inc(n: u64) -> u64 {
    if n == u64::MAX {
        n
    } else {
        (n + 1) as u64
    }
}

fn sat_inc_exec(n: u64) -> (res: u64)
    ensures
        res == sat_inc(n),
{
    if n == u64::MAX {
        n
    } else {
        n + 1
    }
}

/// The warning for a directory that could not be read.
pub open spec fn warning_text(path: Seq<char>, error: Seq<char>) -> Seq<char> {
    "无法读取目录 "@ + path + "："@ + error
}

impl DiscoveryResult {
    pub fn new(fixed_drive_count: usize) -> (res: Self)
        ensures
            res.fixed_drive_count == fixed_drive_count,
            res.opened_drive_count == 0,
            res.visited_directory_count == 0,
            res.validated_source_dir_count == 0,
            res.validated_source_dirs@.len() == 0,
            res.scan_roots@.len() == 0,
            res.skipped_directory_count == 0,
            res.warnings@.len() == 0,
            !res.cancelled,
    {
        DiscoveryResult {
            fixed_drive_count: fixed_drive_count as u64,
            opened_drive_count: 0,
            visited_directory_count: 0,
            validated_source_dir_count: 0,
            validated_source_dirs: Vec::new(),
            scan_roots: Vec::new(),
            skipped_directory_count: 0,
            warnings: Vec::new(),
            cancelled: false,
        }
    }

    /// Counts a directory that could not be read, keeping the first eight warnings.
    pub fn record_warning(&mut self, path: &str, error: &str)
        ensures
            final(self).skipped_directory_count == sat_inc(old(self).skipped_directory_count),
            final(self).warnings@.map_values(|w: String| w@) == if old(self).warnings@.len() < MAX_WARNING_SAMPLES {
                old(self).warnings@.map_values(|w: String| w@).push(warning_text(path@, error@))
            } else {
                old(self).warnings@.map_values(|w: String| w@)
            },
            final(self).visited_directory_count == old(self).visited_directory_count,
            final(self).validated_source_dir_count == old(self).validated_source_dir_count,
            final(self).opened_drive_count == old(self).opened_drive_count,
    {
        self.skipped_directory_count = sat_inc_exec(self.skipped_directory_count);
        if self.warnings.len() < MAX_WARNING_SAMPLES {
            let text = concat(&concat(&concat(&chars_of("无法读取目录 "), &chars_of(path)), &chars_of("：")), &chars_of(error));
            let ghost before = self.warnings@.map_values(|w: String| w@);
            self.warnings.push(string_of(text.as_slice()));
            assert(self.warnings@.map_values(|w: String| w@) =~= before.push(text@));
        }
    }

    /// Counts a drive whose top directory could be read.
    pub fn record_opened_drive(&mut self)
        ensures
            final(self).opened_drive_count == sat_inc(old(self).opened_drive_count),
            final(self).visited_directory_count == old(self).visited_directory_count,
            final(self).skipped_directory_count == old(self).skipped_directory_count,
    {
        self.opened_drive_count = sat_inc_exec(self.opened_drive_count);
    }

    /// Counts a visited directory; tells whether progress is due (every 250 directories).
    pub fn record_visit(&mut self) -> (progress_due: bool)
        ensures
            final(self).visited_directory_count == sat_inc(old(self).visited_directory_count),
            progress_due == (final(self).visited_directory_count % PROGRESS_INTERVAL_DIRECTORIES == 0),
            final(self).opened_drive_count == old(self).opened_drive_count,
            final(self).skipped_directory_count == old(self).skipped_directory_count,
    {
        self.visited_directory_count = sat_inc_exec(self.visited_directory_count);
        self.visited_directory_count % PROGRESS_INTERVAL_DIRECTORIES == 0
    }

    /// The progress to report now.
    pub fn progress(&self, current_drive: &str, message: &str) -> (res: DiscoveryProgress)
        ensures
            res.current_drive@ == current_drive@,
            res.visited_directory_count == self.visited_directory_count,
            res.validated_source_dir_count == self.validated_source_dir_count,
            res.message@ == message@,
    {
        DiscoveryProgress {
            current_drive: string_of(chars_of(current_drive).as_slice()),
            visited_directory_count: self.visited_directory_count,
            validated_source_dir_count: self.validated_source_dir_count,
            message: string_of(chars_of(message).as_slice()),
        }
    }
}

/// A candidate source directory: its name starts with `wonderfulvideos`, in any case.
pub open spec fn is_candidate(name: Seq<char>) -> bool {
    starts_with(lower_seq(name), "wonderfulvideos"@)
}

pub fn is_candidate_name(name: &str) -> (res: bool)
    ensures
        res == is_candidate(name@),
{
    crate::text::starts_with_exec(&to_lower(&chars_of(name)), &chars_of("wonderfulvideos"))
}

/// The recycle bin and system volume information, in any case.
pub open spec fn is_junk_directory(name: Seq<char>) -> bool {
    eq_ic(name, SYSTEM_JUNK_DIRECTORY_NAMES[0]@) || eq_ic(name, SYSTEM_JUNK_DIRECTORY_NAMES[1]@)
}

/// A directory under an excluded root (given as normalized paths without a trailing `/`), or
/// a junk directory, is not searched.
pub open spec fn is_excluded(name: Seq<char>, normalized: Seq<char>, excluded_roots: Seq<Seq<char>>) -> bool {
    is_junk_directory(name) || exists|i: int|
        0 <= i < excluded_roots.len() && (normalized == #[trigger] excluded_roots[i] || (starts_with(normalized, excluded_roots[i])
            && normalized.len() > excluded_roots[i].len() && normalized[excluded_roots[i].len() as int] == '/'))
}

pub fn is_excluded_directory(name: &str, normalized_path: &str, excluded_roots: &Vec<String>) -> (res: bool)
    ensures
        res == is_excluded(name@, normalized_path@, excluded_roots@.map_values(|r: String| r@)),
{
    let ghost rv = excluded_roots@.map_values(|r: String| r@);
    let n = chars_of(name);
    if eq_ignore_case(&n, &chars_of(SYSTEM_JUNK_DIRECTORY_NAMES[0])) || eq_ignore_case(&n, &chars_of(SYSTEM_JUNK_DIRECTORY_NAMES[1])) {
        return true;
    }
    let p = chars_of(normalized_path);
    let mut i: usize = 0;
    while i < excluded_roots.len()
        invariant
            i <= excluded_roots@.len(),
            rv == excluded_roots@.map_values(|r: String| r@),
            p@ == normalized_path@,
            forall|j: int|
                0 <= j < i ==> !(p@ == #[trigger] rv[j] || (starts_with(p@, rv[j]) && p@.len() > rv[j].len() && p@[rv[j].len() as int]
                    == '/')),
        decreases excluded_roots.len() - i,
    {
        let root = chars_of(excluded_roots[i].as_str());
        assert(root@ == rv[i as int]);
        if crate::text::seq_eq(&p, &root) {
            return true;
        }
        if crate::text::starts_with_exec(&p, &root) && p.len() > root.len() && p[root.len()] == '/' {
            return true;
        }
        i = i + 1;
    }
    false
}

/// An exclusion root as a normalized path without trailing `/`; an empty one excludes nothing.
pub open spec fn exclusion_root(normalized: Seq<char>) -> Option<Seq<char>> {
    let r = crate::text::strip_end_char(normalized, '/');
    if r.len() == 0 {
        None
    } else {
        Some(r)
    }
}

pub fn normalized_exclusion_root(normalized: &str) -> (res: Option<String>)
    ensures
        opt_string(res) == exclusion_root(normalized@),
{
    let r = crate::text::strip_end_char_exec(&chars_of(normalized), '/');
    if r.len() == 0 {
        None
    } else {
        Some(string_of(r.as_slice()))
    }
}

/// The reparse-point attribute of Windows file attributes.
pub fn has_reparse_attribute(attributes: u32) -> (res: bool)
    ensures
        res == (attributes & FILE_ATTRIBUTE_REPARSE_POINT != 0),
{
    attributes & FILE_ATTRIBUTE_REPARSE_POINT != 0
}

/// `GetDriveTypeW`'s code for a fixed drive.
pub fn is_fixed_drive_type(drive_type: u32) -> (res: bool)
    ensures
        res == (drive_type == DRIVE_FIXED),
{
    drive_type == DRIVE_FIXED
}

// ---------------------------------------------------------------------------------------------
// Sources and scan roots, each once
// ---------------------------------------------------------------------------------------------

/// Paths found, each under its normalized key, in the order first found.
pub struct KeyedPaths {
    pub entries: Vec<(String, String)>,
}

pub open spec fn keyed_view(v: Seq<(String, String)>) -> Seq<(Seq<char>, Seq<char>)> {
    v.map_values(|e: (String, String)| (e.0@, e.1@))
}

pub open spec fn has_key(v: Seq<(Seq<char>, Seq<char>)>, key: Seq<char>) -> bool {
    exists|i: int| 0 <= i < v.len() && (#[trigger] v[i]).0 == key
}

/// No key occurs twice.
pub open spec fn keys_unique(v: Seq<(Seq<char>, Seq<char>)>) -> bool {
    forall|i: int, j: int| 0 <= i < j < v.len() ==> (#[trigger] v[i]).0 != (#[trigger] v[j]).0
}

/// Found paths are kept once per key: adding a path under a key not yet held keeps the keys
/// distinct, and a key already held adds nothing.
pub proof fn law_paths_kept_once_per_key(v: Seq<(Seq<char>, Seq<char>)>, key: Seq<char>, path: Seq<char>)
    requires
        keys_unique(v),
    ensures
        keys_unique(if has_key(v, key) { v } else { v.push((key, path)) }),
        has_key(if has_key(v, key) { v } else { v.push((key, path)) }, key),
{
    if !has_key(v, key) {
        let w = v.push((key, path));
        assert(w[v.len() as int].0 == key);
        assert forall|i: int, j: int| 0 <= i < j < w.len() implies (#[trigger] w[i]).0 != (#[trigger] w[j]).0 by {
            if j == v.len() {
                assert(w[i] == v[i]);
            } else {
                assert(w[i] == v[i] && w[j] == v[j]);
            }
        }
    }
}

impl KeyedPaths {
    pub fn new() -> (res: Self)
        ensures
            res.entries@.len() == 0,
    {
        KeyedPaths { entries: Vec::new() }
    }

    /// Adds `path` under `key` unless the key is known; tells whether it was added.
    pub fn insert(&mut self, key: &str, path: &str) -> (added: bool)
        ensures
            added == !has_key(keyed_view(old(self).entries@), key@),
            keyed_view(final(self).entries@) == if added {
                keyed_view(old(self).entries@).push((key@, path@))
            } else {
                keyed_view(old(self).entries@)
            },
    {
        let ghost v = keyed_view(self.entries@);
        let k = chars_of(key);
        let mut i: usize = 0;
        while i < self.entries.len()
            invariant
                i <= self.entries@.len(),
                v == keyed_view(self.entries@),
                k@ == key@,
                forall|j: int| 0 <= j < i ==> (#[trigger] v[j]).0 != key@,
            decreases self.entries.len() - i,
        {
            assert(v[i as int].0 == self.entries@[i as int].0@);
            if crate::text::seq_eq(&chars_of(self.entries[i].0.as_str()), &k) {
                return false;
            }
            i = i + 1;
        }
        let entry = (string_of(k.as_slice()), string_of(chars_of(path).as_slice()));
        self.entries.push(entry);
        assert(keyed_view(self.entries@) =~= v.push((key@, path@)));
        true
    }
}

/// Inserts `e` after every entry whose lowercased key is not greater: a stable sort by the
/// ASCII-lowercased key.
pub open spec fn insert_by_key(sorted: Seq<(Seq<char>, Seq<char>)>, e: (Seq<char>, Seq<char>)) -> Seq<(Seq<char>, Seq<char>)>
    decreases sorted.len(),
{
    if sorted.len() == 0 {
        seq![e]
    } else if !text_lt(lower_seq(e.0), lower_seq(sorted.last().0)) {
        sorted.push(e)
    } else {
        insert_by_key(sorted.drop_last(), e).push(sorted.last())
    }
}

pub open spec fn sort_by_key(s: Seq<(Seq<char>, Seq<char>)>) -> Seq<(Seq<char>, Seq<char>)>
    decreases s.len(),
{
    if s.len() == 0 {
        seq![]
    } else {
        insert_by_key(sort_by_key(s.drop_last()), s.last())
    }
}

/// The paths ordered by their lowercased keys.
pub open spec fn ordered_paths(v: Seq<(Seq<char>, Seq<char>)>) -> Seq<Seq<char>> {
    sort_by_key(v).map_values(|e: (Seq<char>, Seq<char>)| e.1)
}

/// No lowercased key is below one that comes before it.
pub open spec fn sorted_by_lower_key(s: Seq<(Seq<char>, Seq<char>)>) -> bool {
    forall|i: int, j: int|
        0 <= i < j < s.len() ==> !text_lt(lower_seq(#[trigger] s[j].0), lower_seq(#[trigger] s[i].0))
}

/// Inserting into a sorted list keeps it sorted and adds exactly the new entry.
pub proof fn lemma_insert_by_key(sorted: Seq<(Seq<char>, Seq<char>)>, e: (Seq<char>, Seq<char>))
    requires
        sorted_by_lower_key(sorted),
    ensures
        sorted_by_lower_key(insert_by_key(sorted, e)),
        insert_by_key(sorted, e).to_multiset() =~= sorted.to_multiset().insert(e),
    decreases sorted.len(),
{
    broadcast use vstd::seq_lib::group_to_multiset_ensures;

    let out = insert_by_key(sorted, e);
    if sorted.len() == 0 {
        assert(out =~= Seq::<(Seq<char>, Seq<char>)>::empty().push(e));
        assert(sorted =~= Seq::<(Seq<char>, Seq<char>)>::empty());
    } else {
        let last = sorted.last();
        let p = sorted.drop_last();
        let lk = lower_seq(last.0);
        let ek = lower_seq(e.0);
        assert(sorted =~= p.push(last));
        if !text_lt(ek, lk) {
            assert(out == sorted.push(e));
            assert forall|i: int, j: int| 0 <= i < j < out.len() implies !text_lt(
                lower_seq(#[trigger] out[j].0),
                lower_seq(#[trigger] out[i].0),
            ) by {
                if j == sorted.len() {
                    let ik = lower_seq(sorted[i].0);
                    assert(out[j] == e);
                    assert(out[i] == sorted[i]);
                    if i < sorted.len() - 1 {
                        assert(!text_lt(lower_seq(sorted[sorted.len() - 1].0), lower_seq(sorted[i].0)));
                    }
                    lemma_text_lt_total(ek, lk);
                    if text_lt(ek, ik) && ek != lk {
                        lemma_text_lt_transitive(lk, ek, ik);
                    }
                } else {
                    assert(out[i] == sorted[i] && out[j] == sorted[j]);
                }
            }
        } else {
            assert forall|i: int, j: int| 0 <= i < j < p.len() implies !text_lt(
                lower_seq(#[trigger] p[j].0),
                lower_seq(#[trigger] p[i].0),
            ) by {
                assert(p[i] == sorted[i] && p[j] == sorted[j]);
            }
            lemma_insert_by_key(p, e);
            let r = insert_by_key(p, e);
            assert(out == r.push(last));
            assert forall|i: int, j: int| 0 <= i < j < out.len() implies !text_lt(
                lower_seq(#[trigger] out[j].0),
                lower_seq(#[trigger] out[i].0),
            ) by {
                if j == out.len() - 1 {
                    assert(out[j] == last);
                    assert(out[i] == r[i]);
                    assert(r.contains(r[i]));
                    assert(r.to_multiset().count(r[i]) > 0);
                    if r[i] == e {
                        lemma_text_lt_total(ek, lk);
                    } else {
                        assert(p.to_multiset().count(r[i]) > 0);
                        assert(p.contains(r[i]));
                        let m = choose|m: int| 0 <= m < p.len() && p[m] == r[i];
                        assert(sorted[m] == p[m]);
                        assert(!text_lt(lower_seq(sorted[sorted.len() - 1].0), lower_seq(sorted[m].0)));
                    }
                } else {
                    assert(out[i] == r[i] && out[j] == r[j]);
                }
            }
        }
    }
}

/// Ordering the paths found sorts them by their lowercased keys and keeps every entry, each as
/// often as it was found.
pub proof fn law_ordered_paths_are_sorted(s: Seq<(Seq<char>, Seq<char>)>)
    ensures
        sorted_by_lower_key(sort_by_key(s)),
        sort_by_key(s).to_multiset() =~= s.to_multiset(),
    decreases s.len(),
{
    broadcast use vstd::seq_lib::group_to_multiset_ensures;

    if s.len() == 0 {
        assert(sort_by_key(s) =~= s);
    } else {
        law_ordered_paths_are_sorted(s.drop_last());
        lemma_insert_by_key(sort_by_key(s.drop_last()), s.last());
        assert(s =~= s.drop_last().push(s.last()));
    }
}

fn insert_by_key_exec(sorted: &mut Vec<(String, String)>, e: (String, String))
    ensures
        keyed_view(final(sorted)@) == insert_by_key(keyed_view(old(sorted)@), (e.0@, e.1@)),
{
    let ghost ev = (e.0@, e.1@);
    let ghost sv = keyed_view(sorted@);
    let ek = to_lower(&chars_of(e.0.as_str()));
    let mut k = sorted.len();
    assert(sv.take(k as int) =~= sv);
    assert(sv.skip(k as int) =~= Seq::<(Seq<char>, Seq<char>)>::empty());
    assert(insert_by_key(sv, ev) + Seq::<(Seq<char>, Seq<char>)>::empty() =~= insert_by_key(sv, ev));
    while k > 0 && text_less(&ek, &to_lower(&chars_of(sorted[k - 1].0.as_str())))
        invariant
            k <= sorted@.len(),
            sv == keyed_view(sorted@),
            ev == (e.0@, e.1@),
            ek@ == lower_seq(e.0@),
            insert_by_key(sv, ev) == insert_by_key(sv.take(k as int), ev) + sv.skip(k as int),
        decreases k,
    {
        assert(sv.take(k as int).drop_last() =~= sv.take(k - 1));
        assert(sv.take(k as int).last() == sv[k - 1]);
        assert(sv[k - 1] == (sorted@[k - 1].0@, sorted@[k - 1].1@));
        assert(sv.take(k as int).len() > 0);
        assert(insert_by_key(sv.take(k as int), ev) == insert_by_key(sv.take(k - 1), ev).push(sv[k - 1]));
        assert(seq![sv[k - 1]] + sv.skip(k as int) =~= sv.skip(k - 1));
        assert(insert_by_key(sv.take(k - 1), ev).push(sv[k - 1]) + sv.skip(k as int) =~= insert_by_key(sv.take(k - 1), ev)
            + sv.skip(k - 1));
        k = k - 1;
    }
    proof {
        if k > 0 {
            assert(sv.take(k as int).last() == sv[k - 1]);
            assert(sv[k - 1] == (sorted@[k - 1].0@, sorted@[k - 1].1@));
        } else {
            assert(sv.take(0) =~= Seq::<(Seq<char>, Seq<char>)>::empty());
        }
        assert(insert_by_key(sv.take(k as int), ev) =~= sv.take(k as int).push(ev));
    }
    sorted.insert(k, e);
    assert(keyed_view(sorted@) =~= sv.take(k as int).push(ev) + sv.skip(k as int));
}

/// The paths of `found` ordered by their lowercased keys (keys that compare equal keep the order
/// in which they were found).
pub fn ordered_paths_exec(found: KeyedPaths) -> (res: Vec<String>)
    ensures
        res@.map_values(|p: String| p@) == ordered_paths(keyed_view(found.entries@)),
{
    let ghost all = keyed_view(found.entries@);
    let mut rest = found.entries;
    let mut sorted: Vec<(String, String)> = Vec::new();
    let n = rest.len();
    let mut i: usize = 0;
    assert(all.take(0) =~= Seq::<(Seq<char>, Seq<char>)>::empty());
    while i < n
        invariant
            i <= n,
            all.len() == n,
            rest@.len() == n - i,
            keyed_view(rest@) == all.skip(i as int),
            keyed_view(sorted@) == sort_by_key(all.take(i as int)),
        decreases n - i,
    {
        let ghost before = rest@;
        let e = rest.remove(0);
        assert(keyed_view(before)[0] == all[i as int]);
        assert(keyed_view(rest@) =~= all.skip(i + 1)) by {
            assert forall|j: int| 0 <= j < rest@.len() implies keyed_view(rest@)[j] == all.skip(i + 1)[j] by {
                assert(rest@[j] == before[j + 1]);
                assert(keyed_view(before)[j + 1] == all.skip(i as int)[j + 1]);
            }
        }
        assert(all.take(i + 1).drop_last() =~= all.take(i as int));
        assert(all.take(i + 1).last() == (e.0@, e.1@));
        insert_by_key_exec(&mut sorted, e);
        i = i + 1;
    }
    assert(all.take(n as int) =~= all);
    let ghost sv = keyed_view(sorted@);
    let mut out: Vec<String> = Vec::new();
    let mut j: usize = 0;
    while j < sorted.len()
        invariant
            j <= sorted@.len(),
            sv == keyed_view(sorted@),
            out@.map_values(|p: String| p@) == sv.take(j as int).map_values(|e: (Seq<char>, Seq<char>)| e.1),
        decreases sorted.len() - j,
    {
        let ghost before = out@.map_values(|p: String| p@);
        assert(sv[j as int].1 == sorted@[j as int].1@);
        let item = string_of(chars_of(sorted[j].1.as_str()).as_slice());
        out.push(item);
        assert(out@.map_values(|p: String| p@) =~= before.push(sv[j as int].1));
        assert(sv.take(j + 1) =~= sv.take(j as int).push(sv[j as int]));
        assert(sv.take(j + 1).map_values(|e: (Seq<char>, Seq<char>)| e.1) =~= sv.take(j as int).map_values(
            |e: (Seq<char>, Seq<char>)| e.1,
        ).push(sv[j as int].1));
        j = j + 1;
    }
    assert(sv.take(j as int) =~= sv);
    out
}

/// What looking into a group directory of a candidate found.
pub enum DirectoryProbe {
    /// Its metadata could not be read.
    InspectFailed(String),
    /// It is a symbolic link or reparse point, which is not followed.
    Link,
    /// It could not be listed.
    ListFailed(String),
    /// It was listed; `has_mp4_file` when a regular `.mp4` file (any case) lies in it.
    Listed { has_mp4_file: bool },
}

/// What one entry of a candidate directory turned out to be.
pub enum GroupProbe {
    /// Its type could not be read.
    TypeUnknown(String),
    /// A regular file; `is_mp4` when its extension is `mp4` in any case.
    File { is_mp4: bool },
    /// A real directory, looked into.
    Directory(DirectoryProbe),
    /// Anything else, a symbolic link among them.
    Other,
}

/// The entry shows a recording: an mp4 file, or a group directory holding one.
pub open spec fn probe_found(p: GroupProbe) -> bool {
    match p {
        GroupProbe::File { is_mp4 } => is_mp4,
        GroupProbe::Directory(DirectoryProbe::Listed { has_mp4_file }) => has_mp4_file,
        _ => false,
    }
}

/// The error the entry met, if any.
pub open spec fn probe_error(p: GroupProbe) -> Option<Seq<char>> {
    match p {
        GroupProbe::TypeUnknown(e) => Some(e@),
        GroupProbe::Directory(DirectoryProbe::InspectFailed(e)) => Some(e@),
        GroupProbe::Directory(DirectoryProbe::ListFailed(e)) => Some(e@),
        _ => None,
    }
}

/// The first error met among `probes`.
pub open spec fn first_probe_error(probes: Seq<GroupProbe>) -> Option<Seq<char>>
    decreases probes.len(),
{
    if probes.len() == 0 {
        None
    } else {
        match first_probe_error(probes.drop_last()) {
            Some(e) => Some(e),
            None => probe_error(probes.last()),
        }
    }
}

pub open spec fn any_probe_found(probes: Seq<GroupProbe>) -> bool {
    exists|k: int| 0 <= k < probes.len() && probe_found(#[trigger] probes[k])
}

/// Whether a candidate directory holds recordings: an mp4 file directly in it, or in one of its
/// group directories. Errors met on the way only count when nothing was found: then the first
/// of them is the answer. A candidate that could not be listed at all is that error.
pub fn candidate_has_direct_group_mp4(listing: &Result<Vec<GroupProbe>, String>) -> (res: Result<bool, String>)
    ensures
        match *listing {
            Err(e) => (res matches Err(x) && x@ == e@),
            Ok(probes) => if any_probe_found(probes@) {
                res matches Ok(b) && b
            } else {
                match first_probe_error(probes@) {
                    Some(e) => (res matches Err(x) && x@ == e),
                    None => (res matches Ok(b) && !b),
                }
            },
        },
{
    let probes = match listing {
        Err(e) => return Err(string_of(chars_of(e.as_str()).as_slice())),
        Ok(probes) => probes,
    };
    let mut first_error: Option<String> = None;
    let mut i: usize = 0;
    while i < probes.len()
        invariant
            listing is Ok,
            listing->Ok_0 == *probes,
            i <= probes@.len(),
            forall|k: int| 0 <= k < i ==> !probe_found(#[trigger] probes@[k]),
            opt_string(first_error) == first_probe_error(probes@.take(i as int)),
        decreases probes.len() - i,
    {
        assert(probes@.take(i + 1).drop_last() =~= probes@.take(i as int));
        assert(probes@.take(i + 1).last() == probes@[i as int]);
        let (found, error): (bool, Option<&String>) = match &probes[i] {
            GroupProbe::TypeUnknown(e) => (false, Some(e)),
            GroupProbe::File { is_mp4 } => (*is_mp4, None),
            GroupProbe::Directory(d) => match d {
                DirectoryProbe::InspectFailed(e) => (false, Some(e)),
                DirectoryProbe::Link => (false, None),
                DirectoryProbe::ListFailed(e) => (false, Some(e)),
                DirectoryProbe::Listed { has_mp4_file } => (*has_mp4_file, None),
            },
            GroupProbe::Other => (false, None),
        };
        if found {
            assert(probe_found(probes@[i as int]));
            return Ok(true);
        }
        if first_error.is_none() {
            match error {
                Some(e) => {
                    first_error = Some(string_of(chars_of(e.as_str()).as_slice()));
                },
                None => {},
            }
        }
        i = i + 1;
    }
    assert(probes@.take(probes@.len() as int) =~= probes@);
    match first_error {
        Some(e) => Err(e),
        None => Ok(false),
    }
}

/// Registers a validated source directory and, for a new one, its parent as a scan root; a
/// source already known changes nothing. Tells whether it was new.
pub fn register_source(
    result: &mut DiscoveryResult,
    sources: &mut KeyedPaths,
    roots: &mut KeyedPaths,
    key: &str,
    path: &str,
    parent: Option<(&str, &str)>,
) -> (added: bool)
    ensures
        added == !has_key(keyed_view(old(sources).entries@), key@),
        keyed_view(final(sources).entries@) == if added {
            keyed_view(old(sources).entries@).push((key@, path@))
        } else {
            keyed_view(old(sources).entries@)
        },
        final(result).validated_source_dir_count == if added {
            sat_inc(old(result).validated_source_dir_count)
        } else {
            old(result).validated_source_dir_count
        },
        keyed_view(final(roots).entries@) == match parent {
            Some((pk, pp)) => if added && !has_key(keyed_view(old(roots).entries@), pk@) {
                keyed_view(old(roots).entries@).push((pk@, pp@))
            } else {
                keyed_view(old(roots).entries@)
            },
            None => keyed_view(old(roots).entries@),
        },
        final(result).visited_directory_count == old(result).visited_directory_count,
        final(result).skipped_directory_count == old(result).skipped_directory_count,
        final(result).opened_drive_count == old(result).opened_drive_count,
{
    let added = sources.insert(key, path);
    if added {
        result.validated_source_dir_count = sat_inc_exec(result.validated_source_dir_count);
        match parent {
            Some((pk, pp)) => {
                roots.insert(pk, pp);
            },
            None => {},
        }
    }
    added
}

/// A directory met by the walk over a drive.
pub struct DirectoryEntry {
    pub path: String,
    pub name: String,
    /// Its path in the normalized form that exclusion roots use.
    pub normalized_path: String,
    /// Whether it is a symbolic link or reparse point, or why that could not be read.
    pub metadata: Result<bool, String>,
    /// For a candidate, whether probing it found recordings (see
    /// [`candidate_has_direct_group_mp4`]).
    pub probe: Option<Result<bool, String>>,
    /// The key it is kept under as a source.
    pub key: String,
    /// Its parent's key and path, when it has a parent.
    pub parent: Option<(String, String)>,
}

/// An entry of a directory read by the walk.
pub enum DiscoveryEntry {
    /// Its type could not be read.
    TypeUnknown { path: String, error: String },
    /// Not a directory, or a symbolic link.
    NotDirectory,
    /// A directory.
    Directory(DirectoryEntry),
}

/// What the walk did with an entry.
#[derive(Debug, Clone, PartialEq, Eq)]
pub enum EntryVisit {
    /// Nothing: not a directory to search.
    Ignored,
    /// A warning was counted for it.
    Warned,
    /// It lies under an excluded root or is a junk directory.
    Excluded,
    /// It was a candidate; `registered` when it held recordings and was new, which calls for a
    /// progress report.
    Probed { registered: bool },
    /// It is searched later: this path goes to the back of the queue.
    Enqueue(String),
}

/// `post` is `pre` with one more skipped directory and, while fewer than eight are held, the
/// warning for `path`.
pub open spec fn warned(pre: DiscoveryResult, post: DiscoveryResult, path: Seq<char>, error: Seq<char>) -> bool {
    &&& post.skipped_directory_count == sat_inc(pre.skipped_directory_count)
    &&& post.warnings@.map_values(|w: String| w@) == if pre.warnings@.len() < MAX_WARNING_SAMPLES {
        pre.warnings@.map_values(|w: String| w@).push(warning_text(path, error))
    } else {
        pre.warnings@.map_values(|w: String| w@)
    }
    &&& post.visited_directory_count == pre.visited_directory_count
    &&& post.validated_source_dir_count == pre.validated_source_dir_count
    &&& post.opened_drive_count == pre.opened_drive_count
}

/// The counts of `post` are those of `pre`.
pub open spec fn same_counts(pre: DiscoveryResult, post: DiscoveryResult) -> bool {
    &&& post.skipped_directory_count == pre.skipped_directory_count
    &&& post.warnings@ == pre.warnings@
    &&& post.visited_directory_count == pre.visited_directory_count
    &&& post.validated_source_dir_count == pre.validated_source_dir_count
    &&& post.opened_drive_count == pre.opened_drive_count
}

/// Visits one entry of a directory that the walk read: a directory whose type or metadata cannot
/// be read is counted as a warning; junk directories, those under an excluded root and links are
/// left alone; a candidate is registered when its probe found recordings (a failed probe is a
/// warning); any other directory is searched later.
pub fn visit_entry(
    result: &mut DiscoveryResult,
    sources: &mut KeyedPaths,
    roots: &mut KeyedPaths,
    excluded_roots: &Vec<String>,
    entry: &DiscoveryEntry,
) -> (res: EntryVisit)
    ensures
        match *entry {
            DiscoveryEntry::TypeUnknown { path, error } => {
                &&& res == EntryVisit::Warned
                &&& warned(*old(result), *final(result), path@, error@)
                &&& keyed_view(final(sources).entries@) == keyed_view(old(sources).entries@)
                &&& keyed_view(final(roots).entries@) == keyed_view(old(roots).entries@)
            },
            DiscoveryEntry::NotDirectory => {
                &&& res == EntryVisit::Ignored
                &&& same_counts(*old(result), *final(result))
                &&& keyed_view(final(sources).entries@) == keyed_view(old(sources).entries@)
                &&& keyed_view(final(roots).entries@) == keyed_view(old(roots).entries@)
            },
            DiscoveryEntry::Directory(d) => if is_excluded(
                d.name@,
                d.normalized_path@,
                excluded_roots@.map_values(|r: String| r@),
            ) {
                &&& res == EntryVisit::Excluded
                &&& same_counts(*old(result), *final(result))
                &&& keyed_view(final(sources).entries@) == keyed_view(old(sources).entries@)
                &&& keyed_view(final(roots).entries@) == keyed_view(old(roots).entries@)
            } else {
                match d.metadata {
                    Err(e) => {
                        &&& res == EntryVisit::Warned
                        &&& warned(*old(result), *final(result), d.path@, e@)
                        &&& keyed_view(final(sources).entries@) == keyed_view(old(sources).entries@)
                        &&& keyed_view(final(roots).entries@) == keyed_view(old(roots).entries@)
                    },
                    Ok(is_link) => if is_link {
                        &&& res == EntryVisit::Ignored
                        &&& same_counts(*old(result), *final(result))
                        &&& keyed_view(final(sources).entries@) == keyed_view(old(sources).entries@)
                        &&& keyed_view(final(roots).entries@) == keyed_view(old(roots).entries@)
                    } else if is_candidate(d.name@) {
                        match d.probe {
                            Some(Ok(true)) => {
                                let added = !has_key(keyed_view(old(sources).entries@), d.key@);
                                &&& res == EntryVisit::Probed { registered: added }
                                &&& keyed_view(final(sources).entries@) == if added {
                                    keyed_view(old(sources).entries@).push((d.key@, d.path@))
                                } else {
                                    keyed_view(old(sources).entries@)
                                }
                                &&& final(result).validated_source_dir_count == if added {
                                    sat_inc(old(result).validated_source_dir_count)
                                } else {
                                    old(result).validated_source_dir_count
                                }
                                &&& keyed_view(final(roots).entries@) == match d.parent {
                                    Some((pk, pp)) => if added && !has_key(keyed_view(old(roots).entries@), pk@) {
                                        keyed_view(old(roots).entries@).push((pk@, pp@))
                                    } else {
                                        keyed_view(old(roots).entries@)
                                    },
                                    None => keyed_view(old(roots).entries@),
                                }
                                &&& final(result).visited_directory_count == old(result).visited_directory_count
                                &&& final(result).skipped_directory_count == old(result).skipped_directory_count
                                &&& final(result).opened_drive_count == old(result).opened_drive_count
                            },
                            Some(Err(e)) => {
                                &&& res == EntryVisit::Warned
                                &&& warned(*old(result), *final(result), d.path@, e@)
                                &&& keyed_view(final(sources).entries@) == keyed_view(old(sources).entries@)
                                &&& keyed_view(final(roots).entries@) == keyed_view(old(roots).entries@)
                            },
                            _ => {
                                &&& res == (EntryVisit::Probed { registered: false })
                                &&& same_counts(*old(result), *final(result))
                                &&& keyed_view(final(sources).entries@) == keyed_view(old(sources).entries@)
                                &&& keyed_view(final(roots).entries@) == keyed_view(old(roots).entries@)
                            },
                        }
                    } else {
                        &&& res matches EntryVisit::Enqueue(p) && p@ == d.path@
                        &&& same_counts(*old(result), *final(result))
                        &&& keyed_view(final(sources).entries@) == keyed_view(old(sources).entries@)
                        &&& keyed_view(final(roots).entries@) == keyed_view(old(roots).entries@)
                    },
                }
            },
        },
{
    match entry {
        DiscoveryEntry::TypeUnknown { path, error } => {
            result.record_warning(path.as_str(), error.as_str());
            EntryVisit::Warned
        },
        DiscoveryEntry::NotDirectory => EntryVisit::Ignored,
        DiscoveryEntry::Directory(d) => {
            if is_excluded_directory(d.name.as_str(), d.normalized_path.as_str(), excluded_roots) {
                return EntryVisit::Excluded;
            }
            match &d.metadata {
                Err(e) => {
                    result.record_warning(d.path.as_str(), e.as_str());
                    EntryVisit::Warned
                },
                Ok(is_link) => {
                    if *is_link {
                        return EntryVisit::Ignored;
                    }
                    if !is_candidate_name(d.name.as_str()) {
                        return EntryVisit::Enqueue(string_of(chars_of(d.path.as_str()).as_slice()));
                    }
                    match &d.probe {
                        Some(Ok(true)) => {
                            let parent = match &d.parent {
                                Some((pk, pp)) => Some((pk.as_str(), pp.as_str())),
                                None => None,
                            };
                            let added = register_source(result, sources, roots, d.key.as_str(), d.path.as_str(), parent);
                            EntryVisit::Probed { registered: added }
                        },
                        Some(Err(e)) => {
                            result.record_warning(d.path.as_str(), e.as_str());
                            EntryVisit::Warned
                        },
                        _ => EntryVisit::Probed { registered: false },
                    }
                },
            }
        },
    }
}

/// Whether the walk goes on: a cancellation request stops it, and the result records that it
/// was cancelled. The walk asks before each drive, each directory and each entry.
pub fn stop_if_cancelled(result: &mut DiscoveryResult, cancel_requested: bool) -> (stop: bool)
    ensures
        stop == cancel_requested,
        final(result).cancelled == (old(result).cancelled || cancel_requested),
        same_counts(*old(result), *final(result)),
{
    if cancel_requested {
        result.cancelled = true;
    }
    cancel_requested
}

/// What the walk does next within a drive.
pub enum WalkNext {
    /// A cancellation request stopped the whole discovery.
    Cancelled,
    /// The drive has no directory left to search.
    Exhausted,
    /// Search this directory, the oldest in the queue.
    Visit(String),
}

/// Takes the next directory of a drive's breadth-first walk: none once cancelled (which the
/// result records) or once the queue is empty, else the front of the queue.
pub fn next_directory(result: &mut DiscoveryResult, queue: &mut Vec<String>, cancel_requested: bool) -> (res: WalkNext)
    ensures
        same_counts(*old(result), *final(result)),
        final(result).cancelled == (old(result).cancelled || cancel_requested),
        cancel_requested ==> res is Cancelled && final(queue)@ == old(queue)@,
        !cancel_requested && old(queue)@.len() == 0 ==> res is Exhausted && final(queue)@ == old(queue)@,
        !cancel_requested && old(queue)@.len() > 0 ==> (res matches WalkNext::Visit(d) && d@ == old(queue)@[0]@)
            && final(queue)@ == old(queue)@.drop_first(),
{
    if stop_if_cancelled(result, cancel_requested) {
        return WalkNext::Cancelled;
    }
    if queue.len() == 0 {
        return WalkNext::Exhausted;
    }
    let d = queue.remove(0);
    assert(queue@ =~= old(queue)@.drop_first());
    WalkNext::Visit(d)
}

/// Puts a directory that [`visit_entry`] sent on at the back of the queue; other visits leave
/// the queue as it is.
pub fn enqueue_visit(queue: &mut Vec<String>, visit: EntryVisit)
    ensures
        match visit {
            EntryVisit::Enqueue(p) => final(queue)@ == old(queue)@.push(p),
            _ => final(queue)@ == old(queue)@,
        },
{
    match visit {
        EntryVisit::Enqueue(p) => queue.push(p),
        _ => {},
    }
}

/// Ends a discovery: the sources and scan roots found, each ordered by its lowercased key.
pub fn finish_discovery(result: &mut DiscoveryResult, sources: KeyedPaths, roots: KeyedPaths)
    ensures
        final(result).validated_source_dirs@.map_values(|p: String| p@) == ordered_paths(keyed_view(sources.entries@)),
        final(result).scan_roots@.map_values(|p: String| p@) == ordered_paths(keyed_view(roots.entries@)),
        final(result).visited_directory_count == old(result).visited_directory_count,
        final(result).validated_source_dir_count == old(result).validated_source_dir_count,
        final(result).cancelled == old(result).cancelled,
{
    result.validated_source_dirs = ordered_paths_exec(sources);
    result.scan_roots = ordered_paths_exec(roots);
}

/// The message of the final progress report.
pub fn final_progress_message(cancelled: bool) -> (res: &'static str)
    ensures
        res@ == if cancelled {
            "固定磁盘搜索已取消"@
        } else {
            "固定磁盘搜索完成"@
        },
{
    if cancelled {
        "固定磁盘搜索已取消"
    } else {
        "固定磁盘搜索完成"
    }
}

} // verus!
