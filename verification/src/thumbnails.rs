//! The rules of the thumbnail queue that stand apart from its storage: the fingerprint that
//! decides when a thumbnail is stale, the clip ids a command accepts, and the cache file names
//! it trusts.
use sha2::Digest;
use vstd::prelude::*;

use crate::text::{chars_of, decimal_i64, opt_string, signed_decimal};

verus! {

pub const MAX_COMMAND_CLIP_IDS: usize = 200;

pub const THUMBNAIL_FINGERPRINT_VERSION: &'static str = "thumb-v1-jpeg-w480-seek500ms";

/// The UTF-8 bytes of a text (`str::as_bytes`).
pub open spec fn utf8_encoding(s: Seq<char>) -> Seq<u8> {
    vstd::utf8::encode_utf8(s)
}

/// `s.as_bytes().to_vec()`: the UTF-8 bytes of `s`.
fn utf8_bytes(s: &str) -> (res: Vec<u8>)
    ensures
        res@ == utf8_encoding(s@),
{
    vstd::slice::slice_to_vec(s.as_bytes())
}

/// The SHA-256 digest of `bytes`.
pub uninterp spec fn sha256_digest(bytes: Seq<u8>) -> Seq<u8>;

/// `sha2::Sha256::digest`: the 32-byte SHA-256 digest of `bytes`.
#[verifier::external_body]
fn sha256(bytes: &[u8]) -> (res: Vec<u8>)
    ensures
        res@ == sha256_digest(bytes@),
        res@.len() == 32,
{
    sha2::Sha256::digest(bytes).to_vec()
}

/// The lowercase hex digit of a value below 16.
pub open spec fn hex_digit(v: int) -> char {
    if v < 10 {
        ((48 + v) as u32) as char
    } else {
        ((87 + v) as u32) as char
    }
}

/// Two lowercase hex digits per byte, high half first.
pub open spec fn hex_text(bytes: Seq<u8>) -> Seq<char>
    decreases bytes.len(),
{
    if bytes.len() == 0 {
        seq![]
    } else {
        hex_text(bytes.drop_last()).push(hex_digit(bytes.last() as int / 16)).push(hex_digit(bytes.last() as int % 16))
    }
}

/// `hex::encode`: each byte as two lowercase hex digits, high half first.
#[verifier::external_body]
fn hex_encode(bytes: &[u8]) -> (res: String)
    ensures
        res@ == hex_text(bytes@),
{
    hex::encode(bytes)
}

/// The parts of a fingerprint, each followed by a NUL byte.
pub open spec fn fingerprint_message(parts: Seq<Seq<char>>) -> Seq<u8>
    decreases parts.len(),
{
    if parts.len() == 0 {
        seq![]
    } else {
        fingerprint_message(parts.drop_last()) + utf8_encoding(parts.last()) + seq![0u8]
    }
}

/// The fingerprint of a clip's source file for its thumbnail: the hex SHA-256 of the format
/// version, the normalized path, the size and the modification time.
pub open spec fn fingerprint_of(normalized_path: Seq<char>, size_bytes: int, modified_at: Option<Seq<char>>) -> Seq<char> {
    hex_text(
        sha256_digest(
            fingerprint_message(
                seq![
                    THUMBNAIL_FINGERPRINT_VERSION@,
                    normalized_path,
                    signed_decimal(size_bytes),
                    match modified_at {
                        Some(m) => m,
                        None => seq![],
                    },
                ],
            ),
        ),
    )
}

fn append_part(message: &mut Vec<u8>, part: &str)
    ensures
        final(message)@ == old(message)@ + utf8_encoding(part@) + seq![0u8],
{
    let bytes = utf8_bytes(part);
    let mut i: usize = 0;
    let ghost start = message@;
    while i < bytes.len()
        invariant
            i <= bytes@.len(),
            message@ == start + bytes@.take(i as int),
        decreases bytes.len() - i,
    {
        message.push(bytes[i]);
        assert(bytes@.take(i + 1) =~= bytes@.take(i as int).push(bytes@[i as int]));
        i = i + 1;
    }
    assert(bytes@.take(i as int) =~= bytes@);
    message.push(0);
}

pub fn thumbnail_fingerprint(normalized_path: &str, size_bytes: i64, modified_at: Option<&str>) -> (res: String)
    ensures
        res@ == fingerprint_of(
            normalized_path@,
            size_bytes as int,
            match modified_at {
                Some(m) => Some(m@),
                None => None,
            },
        ),
{
    let size = crate::text::string_of(decimal_i64(size_bytes).as_slice());
    let modified = match modified_at {
        Some(m) => m,
        None => "",
    };
    let mut message: Vec<u8> = Vec::new();
    let ghost p0 = THUMBNAIL_FINGERPRINT_VERSION@;
    let ghost p1 = normalized_path@;
    let ghost p2 = size@;
    let ghost p3 = modified@;
    assert(fingerprint_message(Seq::<Seq<char>>::empty()) =~= Seq::<u8>::empty());
    assert(message@ =~= Seq::<u8>::empty());
    append_part(&mut message, THUMBNAIL_FINGERPRINT_VERSION);
    assert(seq![p0].drop_last() =~= Seq::<Seq<char>>::empty());
    assert(fingerprint_message(seq![p0]) =~= message@);
    append_part(&mut message, normalized_path);
    assert(seq![p0, p1].drop_last() =~= seq![p0]);
    assert(fingerprint_message(seq![p0, p1]) =~= message@);
    append_part(&mut message, size.as_str());
    assert(seq![p0, p1, p2].drop_last() =~= seq![p0, p1]);
    assert(fingerprint_message(seq![p0, p1, p2]) =~= message@);
    append_part(&mut message, modified);
    assert(seq![p0, p1, p2, p3].drop_last() =~= seq![p0, p1, p2]);
    assert(fingerprint_message(seq![p0, p1, p2, p3]) =~= message@);
    let ghost opt_modified = match modified_at {
        Some(m) => Some(m@),
        None => None::<Seq<char>>,
    };
    proof {
        let last = match opt_modified {
            Some(m) => m,
            None => Seq::<char>::empty(),
        };
        assert(last == p3) by {
            if modified_at is None {
                reveal_strlit("");
                assert(modified@ =~= Seq::<char>::empty());
            }
        }
        assert(seq![
            THUMBNAIL_FINGERPRINT_VERSION@,
            normalized_path@,
            signed_decimal(size_bytes as int),
            match opt_modified {
                Some(m) => m,
                None => seq![],
            },
        ] =~= seq![p0, p1, p2, p3]);
    }
    hex_encode(sha256(message.as_slice()).as_slice())
}

// ---------------------------------------------------------------------------------------------
// Clip ids and cache names
// ---------------------------------------------------------------------------------------------

/// `ids` in strictly increasing order.
pub open spec fn strictly_increasing(ids: Seq<i64>) -> bool {
    forall|i: int, j: int| 0 <= i < j < ids.len() ==> ids[i] < ids[j]
}

/// The distinct clip ids of a command in increasing order, or an error when there are more
/// than 200 of them.
pub fn normalized_clip_ids(clip_ids: &[i64]) -> (res: Result<Vec<i64>, String>)
    ensures
        match res {
            Ok(ids) => strictly_increasing(ids@) && ids@.to_set() == clip_ids@.to_set() && ids@.len()
                <= MAX_COMMAND_CLIP_IDS,
            Err(e) => clip_ids@.to_set().len() > MAX_COMMAND_CLIP_IDS && e@
                == "thumbnail commands accept at most 200 unique clip ids"@,
        },
{
    let mut ids: Vec<i64> = Vec::new();
    let mut i: usize = 0;
    assert(ids@.to_set() =~= clip_ids@.take(0).to_set());
    while i < clip_ids.len()
        invariant
            i <= clip_ids@.len(),
            strictly_increasing(ids@),
            ids@.to_set() == clip_ids@.take(i as int).to_set(),
        decreases clip_ids.len() - i,
    {
        let x = clip_ids[i];
        insert_sorted(&mut ids, x);
        assert(clip_ids@.take(i + 1) =~= clip_ids@.take(i as int).push(x));
        proof {
            clip_ids@.take(i as int).lemma_push_to_set_commute(x);
        }
        i = i + 1;
    }
    assert(clip_ids@.take(i as int) =~= clip_ids@);
    proof {
        lemma_increasing_no_dups(ids@);
        ids@.unique_seq_to_set();
    }
    if ids.len() > MAX_COMMAND_CLIP_IDS {
        let msg = chars_of("thumbnail commands accept at most 200 unique clip ids");
        return Err(crate::text::string_of(msg.as_slice()));
    }
    Ok(ids)
}

proof fn lemma_increasing_no_dups(s: Seq<i64>)
    requires
        strictly_increasing(s),
    ensures
        s.no_duplicates(),
{
    assert forall|i: int, j: int| 0 <= i < s.len() && 0 <= j < s.len() && i != j implies s[i] != s[j] by {
        if i < j {
            assert(s[i] < s[j]);
        } else {
            assert(s[j] < s[i]);
        }
    }
}

/// Inserts `x` in order unless present.
pub(crate) fn insert_sorted(ids: &mut Vec<i64>, x: i64)
    requires
        strictly_increasing(old(ids)@),
    ensures
        strictly_increasing(final(ids)@),
        final(ids)@.to_set() == old(ids)@.to_set().insert(x),
{
    let mut k: usize = 0;
    while k < ids.len() && ids[k] < x
        invariant
            k <= ids@.len(),
            forall|j: int| 0 <= j < k ==> ids@[j] < x,
        decreases ids.len() - k,
    {
        k = k + 1;
    }
    if k < ids.len() && ids[k] == x {
        assert(ids@.to_set().insert(x) =~= ids@.to_set());
        return;
    }
    let ghost before = ids@;
    ids.insert(k, x);
    assert forall|i: int, j: int| 0 <= i < j < ids@.len() implies ids@[i] < ids@[j] by {
        if j < k {
            assert(ids@[i] == before[i] && ids@[j] == before[j]);
        } else if j == k {
            assert(ids@[i] == before[i]);
        } else if i < k {
            assert(ids@[i] == before[i] && ids@[j] == before[j - 1]);
            assert(before[j - 1] >= before[k as int] || j - 1 == k);
        } else if i == k {
            assert(ids@[j] == before[j - 1]);
        } else {
            assert(ids@[i] == before[i - 1] && ids@[j] == before[j - 1]);
        }
    }
    assert forall|y: i64| ids@.to_set().contains(y) <==> before.to_set().insert(x).contains(y) by {
        if ids@.to_set().contains(y) {
            let i = choose|i: int| 0 <= i < ids@.len() && ids@[i] == y;
            if i < k {
                assert(before[i] == y);
            } else if i > k {
                assert(before[i - 1] == y);
            }
        }
        if before.to_set().contains(y) {
            let i = choose|i: int| 0 <= i < before.len() && before[i] == y;
            if i < k {
                assert(ids@[i] == y);
            } else {
                assert(ids@[i + 1] == y);
            }
        }
        if y == x {
            assert(ids@[k as int] == x);
        }
    }
    assert(ids@.to_set() =~= before.to_set().insert(x));
}

/// A name that the thumbnail cache may use as a file: not empty, no surrounding white space,
/// not `.` or `..`, no path separator, at most 255 bytes.
pub open spec fn safe_basename(name: Seq<char>) -> bool {
    let t = crate::text::trim(name);
    !(t.len() == 0 || t != name || t == "."@ || t == ".."@ || crate::text::contains(t, "/"@) || crate::text::contains(
        t,
        "\\"@,
    ) || crate::scanner::utf8_len(t) > 255)
}

pub fn validate_cache_basename(cache_file: &str) -> (res: Result<(), String>)
    ensures
        res is Ok <==> safe_basename(cache_file@),
        res matches Err(e) ==> e@ == "thumbnail cache file must be a safe basename"@,
{
    let name = chars_of(cache_file);
    let t = crate::text::trim_exec(&name);
    let bad = t.len() == 0 || !crate::text::seq_eq(&t, &name) || crate::text::seq_eq(&t, &chars_of("."))
        || crate::text::seq_eq(&t, &chars_of("..")) || crate::text::contains_exec(&t, &chars_of("/"))
        || crate::text::contains_exec(&t, &chars_of("\\")) || crate::metadata::utf8_prefix_bytes(&t, t.len()) > 255;
    assert(t@.take(t@.len() as int) =~= t@);
    if bad {
        let msg = chars_of("thumbnail cache file must be a safe basename");
        return Err(crate::text::string_of(msg.as_slice()));
    }
    Ok(())
}


// ---------------------------------------------------------------------------------------------
// Reconciling a clip with its thumbnail state
// ---------------------------------------------------------------------------------------------

/// A clip and the thumbnail state stored for it.
pub struct ReconcileCandidate {
    pub clip_id: i64,
    pub normalized_path: String,
    pub size_bytes: i64,
    pub modified_at: Option<String>,
    pub file_status: String,
    pub cover_path: Option<String>,
    pub cover_source: String,
    pub thumbnail_fingerprint: Option<String>,
    pub thumbnail_status: Option<String>,
    pub thumbnail_revision: Option<String>,
    pub thumbnail_error_code: Option<String>,
}

/// What reconciling one clip does.
#[derive(Debug, Clone, Copy, PartialEq, Eq, Structural)]
pub enum ReconcileAction {
    /// Reset the state to `suppressed` (the clip has its own cover or is unavailable); counted
    /// as skipped and reported as changed.
    Suppress,
    /// The clip is ineligible and already suppressed with this fingerprint; counted as skipped.
    KeepSuppressed,
    /// Reset the state to `pending`; counted as queued and reported as changed.
    Queue,
    /// A job is pending or running; counted as already queued.
    AlreadyQueued,
    /// Nothing to do; counted as skipped.
    Skip,
}

pub open spec fn opt_is(o: Option<Seq<char>>, text: Seq<char>) -> bool {
    o == Some(text)
}

/// The clip's own cover: a cover from its files with a non-blank path.
pub open spec fn has_source_cover(c: ReconcileCandidate) -> bool {
    c.cover_source@ == "file"@ && (opt_string(c.cover_path) matches Some(p) && crate::text::trim(p).len() > 0)
}

pub open spec fn reconcile_action_of(c: ReconcileCandidate, fingerprint: Seq<char>, is_selected: bool, force_retry: bool) -> ReconcileAction {
    let status = opt_string(c.thumbnail_status);
    let eligible = c.file_status@ == "available"@ && !has_source_cover(c);
    if !eligible {
        if opt_is(status, "suppressed"@) && opt_string(c.thumbnail_fingerprint) == Some(fingerprint)
            && c.thumbnail_revision is None && c.thumbnail_error_code is None {
            ReconcileAction::KeepSuppressed
        } else {
            ReconcileAction::Suppress
        }
    } else if opt_string(c.thumbnail_fingerprint) != Some(fingerprint) || status is None || opt_is(status, "suppressed"@)
        || (is_selected && opt_is(status, "evicted"@)) || (force_retry && (opt_is(status, "failed"@) || opt_is(
        status,
        "unavailable"@,
    ))) {
        ReconcileAction::Queue
    } else if opt_is(status, "pending"@) || opt_is(status, "running"@) {
        ReconcileAction::AlreadyQueued
    } else {
        ReconcileAction::Skip
    }
}

fn opt_eq_lit(o: &Option<String>, lit: &str) -> (res: bool)
    ensures
        res == opt_is(opt_string(*o), lit@),
{
    match o {
        Some(v) => crate::text::seq_eq(&chars_of(v.as_str()), &chars_of(lit)),
        None => false,
    }
}

/// The fingerprint of a candidate and what reconciling it does.
pub fn reconcile_decision(c: &ReconcileCandidate, is_selected: bool, force_retry: bool) -> (res: (String, ReconcileAction))
    ensures
        res.0@ == fingerprint_of(
            c.normalized_path@,
            c.size_bytes as int,
            match c.modified_at {
                Some(m) => Some(m@),
                None => None,
            },
        ),
        res.1 == reconcile_action_of(*c, res.0@, is_selected, force_retry),
{
    let modified = match &c.modified_at {
        Some(m) => Some(m.as_str()),
        None => None,
    };
    let fingerprint = thumbnail_fingerprint(c.normalized_path.as_str(), c.size_bytes, modified);
    let has_cover = crate::text::seq_eq(&chars_of(c.cover_source.as_str()), &chars_of("file")) && match &c.cover_path {
        Some(p) => crate::text::trim_str(p.as_str()).len() > 0,
        None => false,
    };
    let eligible = crate::text::seq_eq(&chars_of(c.file_status.as_str()), &chars_of("available")) && !has_cover;
    let fp = chars_of(fingerprint.as_str());
    let same_fingerprint = match &c.thumbnail_fingerprint {
        Some(f) => crate::text::seq_eq(&chars_of(f.as_str()), &fp),
        None => false,
    };
    let status = &c.thumbnail_status;
    let action = if !eligible {
        if opt_eq_lit(status, "suppressed") && same_fingerprint && c.thumbnail_revision.is_none()
            && c.thumbnail_error_code.is_none() {
            ReconcileAction::KeepSuppressed
        } else {
            ReconcileAction::Suppress
        }
    } else if !same_fingerprint || status.is_none() || opt_eq_lit(status, "suppressed") || (is_selected && opt_eq_lit(
        status,
        "evicted",
    )) || (force_retry && (opt_eq_lit(status, "failed") || opt_eq_lit(status, "unavailable"))) {
        ReconcileAction::Queue
    } else if opt_eq_lit(status, "pending") || opt_eq_lit(status, "running") {
        ReconcileAction::AlreadyQueued
    } else {
        ReconcileAction::Skip
    };
    (fingerprint, action)
}


// ---------------------------------------------------------------------------------------------
// Claiming, completing and failing thumbnail jobs
// ---------------------------------------------------------------------------------------------

/// What `Debug` writes for a text: the text quoted, with quotes, backslashes and unprintable
/// characters escaped.
pub uninterp spec fn str_debug(s: Seq<char>) -> Seq<char>;

/// `format!("{s:?}")`: the `Debug` form of a text.
#[verifier::external_body]
fn debug_text(s: &str) -> (res: String)
    ensures
        res@ == str_debug(s@),
{
    format!("{s:?}")
}

fn error_text(message: &str) -> (res: Result<(), String>)
    ensures
        res matches Err(e) && e@ == message@,
{
    Err(crate::text::string_of(chars_of(message).as_slice()))
}

fn is_blank(s: &str) -> (res: bool)
    ensures
        res == (crate::text::trim(s@).len() == 0),
{
    crate::text::trim_exec(&chars_of(s)).len() == 0
}

/// A claim needs the time it is made at.
pub fn check_claim_timestamp(now: &str) -> (res: Result<(), String>)
    ensures
        res is Ok <==> crate::text::trim(now@).len() != 0,
        res matches Err(e) ==> e@ == "thumbnail claim timestamp must not be empty"@,
{
    if is_blank(now) {
        return error_text("thumbnail claim timestamp must not be empty");
    }
    Ok(())
}

/// A claimed job is stale when its clip's file no longer has the fingerprint it was queued
/// under; it is then queued again under the new one instead of being handed out.
pub fn claim_is_stale(
    normalized_path: &str,
    size_bytes: i64,
    modified_at: Option<&str>,
    claimed_fingerprint: &str,
) -> (res: bool)
    ensures
        res == (fingerprint_of(
            normalized_path@,
            size_bytes as int,
            match modified_at {
                Some(m) => Some(m@),
                None => None,
            },
        ) != claimed_fingerprint@),
{
    let current = thumbnail_fingerprint(normalized_path, size_bytes, modified_at);
    !crate::text::seq_eq(&chars_of(current.as_str()), &chars_of(claimed_fingerprint))
}

/// The name of the cache file for a clip's thumbnail under `fingerprint`.
pub open spec fn expected_cache_file(clip_id: i64, fingerprint: Seq<char>) -> Seq<char> {
    signed_decimal(clip_id as int) + "-"@ + fingerprint + ".jpg"@
}

/// Why a finished thumbnail cannot be recorded, checked in this order: an unsafe cache file
/// name, an empty fingerprint, an empty revision, a revision other than the fingerprint, a cache
/// file not named after the clip and fingerprint, a byte size that is not positive.
pub open spec fn completion_error(
    clip_id: i64,
    fingerprint: Seq<char>,
    cache_file: Seq<char>,
    byte_size: i64,
    revision: Seq<char>,
) -> Option<Seq<char>> {
    if !safe_basename(cache_file) {
        Some("thumbnail cache file must be a safe basename"@)
    } else if crate::text::trim(fingerprint).len() == 0 {
        Some("thumbnail fingerprint must not be empty"@)
    } else if crate::text::trim(revision).len() == 0 {
        Some("thumbnail revision must not be empty"@)
    } else if revision != fingerprint {
        Some("thumbnail revision must match the current fingerprint"@)
    } else if cache_file != expected_cache_file(clip_id, fingerprint) {
        Some("thumbnail cache file must match the clip fingerprint"@)
    } else if byte_size <= 0 {
        Some("thumbnail byte size must be positive"@)
    } else {
        None
    }
}

/// Checks a finished thumbnail before it is recorded as ready.
pub fn validate_completion(
    clip_id: i64,
    fingerprint: &str,
    cache_file: &str,
    byte_size: i64,
    revision: &str,
) -> (res: Result<(), String>)
    ensures
        res is Ok <==> completion_error(clip_id, fingerprint@, cache_file@, byte_size, revision@) is None,
        res matches Err(e) ==> Some(e@) == completion_error(
            clip_id,
            fingerprint@,
            cache_file@,
            byte_size,
            revision@,
        ),
{
    match validate_cache_basename(cache_file) {
        Err(e) => return Err(e),
        Ok(()) => {},
    }
    if is_blank(fingerprint) {
        return error_text("thumbnail fingerprint must not be empty");
    }
    if is_blank(revision) {
        return error_text("thumbnail revision must not be empty");
    }
    let fp = chars_of(fingerprint);
    if !crate::text::seq_eq(&chars_of(revision), &fp) {
        return error_text("thumbnail revision must match the current fingerprint");
    }
    let expected = crate::text::concat(
        &crate::text::concat(&crate::text::concat(&decimal_i64(clip_id), &chars_of("-")), &fp),
        &chars_of(".jpg"),
    );
    if !crate::text::seq_eq(&chars_of(cache_file), &expected) {
        return error_text("thumbnail cache file must match the clip fingerprint");
    }
    if byte_size <= 0 {
        return error_text("thumbnail byte size must be positive");
    }
    Ok(())
}

/// The states a failed job may move to.
pub open spec fn is_failure_status(s: Seq<char>) -> bool {
    s == "pending"@ || s == "failed"@ || s == "unavailable"@
}

/// Why a generator failure cannot be recorded, checked in this order: a status other than
/// pending, failed or unavailable; a retry (pending) without a time for the next attempt; an
/// empty fingerprint or error code.
pub open spec fn failure_error(
    next_status: Seq<char>,
    fingerprint: Seq<char>,
    error_code: Seq<char>,
    has_next_attempt: bool,
) -> Option<Seq<char>> {
    if !is_failure_status(next_status) {
        Some(
            "thumbnail failure status must be pending, failed, or unavailable; got "@ + str_debug(
                next_status,
            ),
        )
    } else if next_status == "pending"@ && !has_next_attempt {
        Some("retryable thumbnail failures require next_attempt_at"@)
    } else if crate::text::trim(fingerprint).len() == 0 || crate::text::trim(error_code).len() == 0 {
        Some("thumbnail fingerprint and error code must not be empty"@)
    } else {
        None
    }
}

/// Checks a generator failure before it is recorded for the claimed job.
pub fn validate_failure(
    next_status: &str,
    fingerprint: &str,
    error_code: &str,
    has_next_attempt: bool,
) -> (res: Result<(), String>)
    ensures
        res is Ok <==> failure_error(next_status@, fingerprint@, error_code@, has_next_attempt) is None,
        res matches Err(e) ==> Some(e@) == failure_error(
            next_status@,
            fingerprint@,
            error_code@,
            has_next_attempt,
        ),
{
    let status = chars_of(next_status);
    let pending = crate::text::seq_eq(&status, &chars_of("pending"));
    let allowed = pending || crate::text::seq_eq(&status, &chars_of("failed")) || crate::text::seq_eq(
        &status,
        &chars_of("unavailable"),
    );
    if !allowed {
        let text = crate::text::concat(
            &chars_of("thumbnail failure status must be pending, failed, or unavailable; got "),
            &chars_of(debug_text(next_status).as_str()),
        );
        return Err(crate::text::string_of(text.as_slice()));
    }
    if pending && !has_next_attempt {
        return error_text("retryable thumbnail failures require next_attempt_at");
    }
    if is_blank(fingerprint) || is_blank(error_code) {
        return error_text("thumbnail fingerprint and error code must not be empty");
    }
    Ok(())
}

/// Marking every pending job unavailable needs the error code that says why.
pub fn check_unavailable_error_code(error_code: &str) -> (res: Result<(), String>)
    ensures
        res is Ok <==> crate::text::trim(error_code@).len() != 0,
        res matches Err(e) ==> e@ == "thumbnail unavailable error code must not be empty"@,
{
    if is_blank(error_code) {
        return error_text("thumbnail unavailable error code must not be empty");
    }
    Ok(())
}

} // verus!
