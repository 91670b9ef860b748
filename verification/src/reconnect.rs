//! Rules for reconnecting a moved or renamed clip to its earlier database row.
use vstd::prelude::*;

use crate::file_identity::StableFileIdentity;
use crate::text::{chars_of, concat, decimal, decimal_u64, string_of};

verus! {

/// Only two concrete identities that differ show that a candidate changed: a missing identity
/// is no evidence either way.
pub open spec fn identity_changed(
    staged: Option<StableFileIdentity>,
    current: Option<StableFileIdentity>,
) -> bool {
    staged is Some && current is Some && staged->0 != current->0
}

pub fn concrete_file_identity_changed(
    staged: Option<StableFileIdentity>,
    current: Option<StableFileIdentity>,
) -> (res: bool)
    ensures
        res == identity_changed(staged, current),
{
    match (staged, current) {
        (Some(a), Some(b)) => !(a.volume_serial == b.volume_serial && a.file_index_high
            == b.file_index_high && a.file_index_low == b.file_index_low),
        _ => false,
    }
}

pub const MAX_IDENTITY_DIAGNOSTIC_SAMPLES: usize = 4;

/// What to report when reading a file's identity failed.
#[derive(Debug, Clone, Copy, PartialEq, Eq, Structural)]
pub enum IdentityDiagnostic {
    /// Report this failure itself.
    Sample,
    /// Report once that further failures are left out.
    OmittedNotice,
    /// Report nothing.
    Silent,
}

/// Counts failures to read a stable identity; only the first few are reported.
pub struct IdentityReadDiagnostics {
    pub failure_count: usize,
}

pub open spec fn diagnostic_for(count: nat) -> IdentityDiagnostic {
    if count <= MAX_IDENTITY_DIAGNOSTIC_SAMPLES {
        IdentityDiagnostic::Sample
    } else if count == MAX_IDENTITY_DIAGNOSTIC_SAMPLES + 1 {
        IdentityDiagnostic::OmittedNotice
    } else {
        IdentityDiagnostic::Silent
    }
}

impl IdentityReadDiagnostics {
    pub fn new() -> (res: Self)
        ensures
            res.failure_count == 0,
    {
        IdentityReadDiagnostics { failure_count: 0 }
    }

    /// Counts one more failure (saturating) and says what to report of it.
    pub fn record(&mut self) -> (res: IdentityDiagnostic)
        ensures
            final(self).failure_count == if old(self).failure_count == usize::MAX {
                usize::MAX as int
            } else {
                old(self).failure_count + 1
            },
            res == diagnostic_for(final(self).failure_count as nat),
    {
        if self.failure_count < usize::MAX {
            self.failure_count = self.failure_count + 1;
        }
        if self.failure_count <= MAX_IDENTITY_DIAGNOSTIC_SAMPLES {
            IdentityDiagnostic::Sample
        } else if self.failure_count == MAX_IDENTITY_DIAGNOSTIC_SAMPLES + 1 {
            IdentityDiagnostic::OmittedNotice
        } else {
            IdentityDiagnostic::Silent
        }
    }

    pub fn failure_count(&self) -> (res: usize)
        ensures
            res == self.failure_count,
    {
        self.failure_count
    }
}

/// Of any run of failures, exactly the first four are reported and the fifth announces that
/// the rest are left out.
pub proof fn law_bounded_identity_diagnostics(count: nat)
    ensures
        diagnostic_for(count) == IdentityDiagnostic::Sample <==> count <= 4,
        diagnostic_for(count) == IdentityDiagnostic::OmittedNotice <==> count == 5,
{
}

/// The token that pins a file's modification time: `after:<secs>:<nanos>` measured from the
/// Unix epoch, or `before:<secs>:<nanos>` for a time before it.
pub open spec fn validation_token_text(after_epoch: bool, secs: u64, nanos: u32) -> Seq<char> {
    (if after_epoch {
        "after:"@
    } else {
        "before:"@
    }) + decimal(secs as nat) + ":"@ + decimal(nanos as nat)
}

pub fn validation_token(after_epoch: bool, secs: u64, nanos: u32) -> (res: String)
    ensures
        res@ == validation_token_text(after_epoch, secs, nanos),
{
    let head = if after_epoch {
        chars_of("after:")
    } else {
        chars_of("before:")
    };
    let with_secs = concat(&head, &decimal_u64(secs));
    let with_colon = concat(&with_secs, &chars_of(":"));
    let all = concat(&with_colon, &decimal_u64(nanos as u64));
    string_of(&all)
}

} // verus!
