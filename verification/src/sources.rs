//! The rules of the source-directory store that stand apart from the database: which ids a
//! finished scan marks fresh, which failure states a source may record, and the message for a
//! source id that matched nothing.
use vstd::prelude::*;

use crate::text::{chars_of, concat, decimal_i64, signed_decimal, string_of};
use crate::thumbnails::{insert_sorted, strictly_increasing};

verus! {

/// The ids that a completed scan marks as freshly scanned: the positive ones, once each, in
/// increasing order.
pub fn completed_source_ids(source_dir_ids: &[i64]) -> (res: Vec<i64>)
    ensures
        strictly_increasing(res@),
        res@.to_set() == source_dir_ids@.to_set().filter(|id: i64| id > 0),
{
    let mut ids: Vec<i64> = Vec::new();
    let mut i: usize = 0;
    assert(ids@.to_set() =~= source_dir_ids@.take(0).to_set().filter(|id: i64| id > 0));
    while i < source_dir_ids.len()
        invariant
            i <= source_dir_ids@.len(),
            strictly_increasing(ids@),
            ids@.to_set() == source_dir_ids@.take(i as int).to_set().filter(|id: i64| id > 0),
        decreases source_dir_ids.len() - i,
    {
        let x = source_dir_ids[i];
        let ghost before = ids@.to_set();
        if x > 0 {
            insert_sorted(&mut ids, x);
        }
        assert(source_dir_ids@.take(i + 1) =~= source_dir_ids@.take(i as int).push(x));
        proof {
            source_dir_ids@.take(i as int).lemma_push_to_set_commute(x);
        }
        assert(ids@.to_set() =~= source_dir_ids@.take(i + 1).to_set().filter(|id: i64| id > 0));
        i = i + 1;
    }
    assert(source_dir_ids@.take(i as int) =~= source_dir_ids@);
    ids
}

/// The message for a source id that matched no stored source.
pub fn source_not_found(source_dir_id: i64) -> (res: String)
    ensures
        res@ == "Source id "@ + signed_decimal(source_dir_id as int) + " was not found"@,
{
    let text = concat(&concat(&chars_of("Source id "), &decimal_i64(source_dir_id)), &chars_of(" was not found"));
    string_of(text.as_slice())
}

/// A source's scan can fail as partial or unavailable; any other state is refused.
pub fn check_source_scan_status(status: &str) -> (res: Result<(), String>)
    ensures
        res is Ok <==> (status@ == "partial"@ || status@ == "unavailable"@),
        res matches Err(e) ==> e@ == "Unsupported source scan status: "@ + status@,
{
    let s = chars_of(status);
    if crate::text::seq_eq(&s, &chars_of("partial")) || crate::text::seq_eq(&s, &chars_of("unavailable")) {
        return Ok(());
    }
    let text = concat(&chars_of("Unsupported source scan status: "), &s);
    Err(string_of(text.as_slice()))
}

} // verus!
