//! Filesystem identity snapshots shared by indexing and destructive workflows.
//!
//! A stable Windows identity is the volume serial plus the high and low halves of the file
//! index. The functions here turn what the operating system reported into a snapshot, and
//! refuse values that the database columns (signed 64-bit integers) cannot hold.
use vstd::prelude::*;

verus! {

#[derive(Debug, Clone, Copy, PartialEq, Eq, Structural)]
pub struct StableFileIdentity {
    pub volume_serial: u32,
    pub file_index_high: u32,
    pub file_index_low: u32,
}

/// An integer that a `u32` can hold.
pub open spec fn fits_u32(v: int) -> bool {
    0 <= v <= u32::MAX
}

/// The identity stored in three database columns, when all three are present and fit.
pub open spec fn identity_from_parts(
    volume_serial: Option<i64>,
    file_index_high: Option<i64>,
    file_index_low: Option<i64>,
) -> Option<StableFileIdentity> {
    match (volume_serial, file_index_high, file_index_low) {
        (Some(v), Some(h), Some(l)) => if fits_u32(v as int) && fits_u32(h as int) && fits_u32(
            l as int,
        ) {
            Some(
                StableFileIdentity {
                    volume_serial: v as u32,
                    file_index_high: h as u32,
                    file_index_low: l as u32,
                },
            )
        } else {
            None
        },
        _ => None,
    }
}

impl StableFileIdentity {
    /// Rebuilds an identity from its three database columns: all three must be present and
    /// each must fit in a `u32`.
    pub fn from_database_parts(
        volume_serial: Option<i64>,
        file_index_high: Option<i64>,
        file_index_low: Option<i64>,
    ) -> (res: Option<Self>)
        ensures
            res == identity_from_parts(volume_serial, file_index_high, file_index_low),
    {
        match (volume_serial, file_index_high, file_index_low) {
            (Some(volume), Some(high), Some(low)) => {
                if 0 <= volume && volume <= 0xffff_ffff && 0 <= high && high <= 0xffff_ffff && 0
                    <= low && low <= 0xffff_ffff {
                    Some(
                        StableFileIdentity {
                            volume_serial: volume as u32,
                            file_index_high: high as u32,
                            file_index_low: low as u32,
                        },
                    )
                } else {
                    None
                }
            },
            _ => None,
        }
    }

    /// The three database columns of this identity.
    pub fn database_parts(self) -> (res: (i64, i64, i64))
        ensures
            res.0 == self.volume_serial,
            res.1 == self.file_index_high,
            res.2 == self.file_index_low,
    {
        (self.volume_serial as i64, self.file_index_high as i64, self.file_index_low as i64)
    }
}

/// Storing an identity and reading it back gives the same identity.
pub proof fn law_database_parts_round_trip(id: StableFileIdentity, parts: (i64, i64, i64))
    requires
        parts.0 == id.volume_serial,
        parts.1 == id.file_index_high,
        parts.2 == id.file_index_low,
    ensures
        identity_from_parts(Some(parts.0), Some(parts.1), Some(parts.2)) == Some(id),
{
}

#[derive(Debug, Clone, Copy, PartialEq, Eq, Structural)]
pub struct StableFileSnapshot {
    pub size_bytes: i64,
    pub modified_ticks: i64,
    pub identity: Option<StableFileIdentity>,
}

/// Why a snapshot could not be taken from what the operating system reported.
#[derive(Debug, Clone, Copy, PartialEq, Eq, Structural)]
pub enum SnapshotError {
    /// The handle is a reparse point, or a directory where a file was expected (or the reverse).
    UnexpectedType,
    /// The size does not fit in a signed 64-bit integer.
    SizeOutOfRange,
    /// The modification time lies before the Unix epoch.
    ModifiedBeforeEpoch,
    /// The modification time does not fit in a signed 64-bit integer.
    ModifiedOutOfRange,
}

pub open spec fn snapshot_error_text(e: SnapshotError) -> Seq<char> {
    match e {
        SnapshotError::UnexpectedType => "stable identity handle is a reparse point or has an unexpected type"@,
        SnapshotError::SizeOutOfRange => "file size exceeds the supported snapshot range"@,
        SnapshotError::ModifiedBeforeEpoch => "file modification time predates the supported epoch"@,
        SnapshotError::ModifiedOutOfRange => "file modification time exceeds the supported snapshot range"@,
    }
}

impl SnapshotError {
    /// The message that accompanies the error.
    pub fn message(self) -> (res: &'static str)
        ensures
            res@ == snapshot_error_text(self),
    {
        match self {
            SnapshotError::UnexpectedType => "stable identity handle is a reparse point or has an unexpected type",
            SnapshotError::SizeOutOfRange => "file size exceeds the supported snapshot range",
            SnapshotError::ModifiedBeforeEpoch => "file modification time predates the supported epoch",
            SnapshotError::ModifiedOutOfRange => "file modification time exceeds the supported snapshot range",
        }
    }
}

/// Joins the high and low halves of a 64-bit quantity.
pub open spec fn join_halves(high: u32, low: u32) -> int {
    high * 0x1_0000_0000 + low
}

pub const FILE_ATTRIBUTE_DIRECTORY: u32 = 0x10;
pub const FILE_ATTRIBUTE_REPARSE_POINT: u32 = 0x400;

/// What `GetFileInformationByHandle` reports of a file.
#[derive(Debug, Clone, Copy, PartialEq, Eq, Structural)]
pub struct HandleInformation {
    pub attributes: u32,
    pub volume_serial: u32,
    pub size_high: u32,
    pub size_low: u32,
    pub write_time_high: u32,
    pub write_time_low: u32,
    pub file_index_high: u32,
    pub file_index_low: u32,
}

pub open spec fn is_directory_attr(attributes: u32) -> bool {
    attributes & FILE_ATTRIBUTE_DIRECTORY != 0
}

pub open spec fn is_reparse_attr(attributes: u32) -> bool {
    attributes & FILE_ATTRIBUTE_REPARSE_POINT != 0
}

fn join_u32_halves(high: u32, low: u32) -> (res: u64)
    ensures
        res == join_halves(high, low),
{
    assert(high * 0x1_0000_0000 + low <= u64::MAX) by (nonlinear_arith)
        requires
            high <= u32::MAX,
            low <= u32::MAX,
    ;
    (high as u64) * 0x1_0000_0000 + (low as u64)
}

/// The snapshot of a handle: its type must match `expect_directory` and must not be a reparse
/// point, and its size and last write time must fit in a signed 64-bit integer.
pub open spec fn handle_snapshot(info: HandleInformation, expect_directory: bool) -> Result<
    StableFileSnapshot,
    SnapshotError,
> {
    let size = join_halves(info.size_high, info.size_low);
    let modified = join_halves(info.write_time_high, info.write_time_low);
    if is_reparse_attr(info.attributes) || is_directory_attr(info.attributes) != expect_directory {
        Err(SnapshotError::UnexpectedType)
    } else if size > i64::MAX {
        Err(SnapshotError::SizeOutOfRange)
    } else if modified > i64::MAX {
        Err(SnapshotError::ModifiedOutOfRange)
    } else {
        Ok(
            StableFileSnapshot {
                size_bytes: size as i64,
                modified_ticks: modified as i64,
                identity: Some(
                    StableFileIdentity {
                        volume_serial: info.volume_serial,
                        file_index_high: info.file_index_high,
                        file_index_low: info.file_index_low,
                    },
                ),
            },
        )
    }
}

/// A snapshot taken from a handle reports the size and the modification time as 64-bit values
/// whose high 32 bits are the reported high word and low 32 bits the low word, and the identity
/// of the handle; it is taken exactly when the handle has the expected kind and both values fit
/// in a signed 64-bit integer.
pub proof fn law_handle_snapshot_joins_words(info: HandleInformation, expect_directory: bool)
    ensures
        handle_snapshot(info, expect_directory) is Ok <==> {
            &&& !is_reparse_attr(info.attributes)
            &&& is_directory_attr(info.attributes) == expect_directory
            &&& info.size_high * 4294967296 + info.size_low <= i64::MAX
            &&& info.write_time_high * 4294967296 + info.write_time_low <= i64::MAX
        },
        handle_snapshot(info, expect_directory) matches Ok(snap) ==> {
            &&& snap.size_bytes == info.size_high * 4294967296 + info.size_low
            &&& snap.size_bytes % 4294967296 == info.size_low
            &&& snap.size_bytes / 4294967296 == info.size_high
            &&& snap.modified_ticks == info.write_time_high * 4294967296 + info.write_time_low
            &&& snap.modified_ticks % 4294967296 == info.write_time_low
            &&& snap.modified_ticks / 4294967296 == info.write_time_high
            &&& snap.identity == Some(
                StableFileIdentity {
                    volume_serial: info.volume_serial,
                    file_index_high: info.file_index_high,
                    file_index_low: info.file_index_low,
                },
            )
        },
{
    let sh = info.size_high as int;
    let sl = info.size_low as int;
    let wh = info.write_time_high as int;
    let wl = info.write_time_low as int;
    assert(0 <= sh * 4294967296 + sl) by (nonlinear_arith)
        requires
            0 <= sh,
            0 <= sl,
    ;
    assert(0 <= wh * 4294967296 + wl) by (nonlinear_arith)
        requires
            0 <= wh,
            0 <= wl,
    ;
    assert((sh * 4294967296 + sl) % 4294967296 == sl && (sh * 4294967296 + sl) / 4294967296 == sh)
        by (nonlinear_arith)
        requires
            0 <= sh,
            0 <= sl < 4294967296,
    ;
    assert((wh * 4294967296 + wl) % 4294967296 == wl && (wh * 4294967296 + wl) / 4294967296 == wh)
        by (nonlinear_arith)
        requires
            0 <= wh,
            0 <= wl < 4294967296,
    ;
}


pub fn snapshot_from_handle_information(info: HandleInformation, expect_directory: bool) -> (res:
    Result<StableFileSnapshot, SnapshotError>)
    ensures
        res == handle_snapshot(info, expect_directory),
{
    let is_directory = info.attributes & FILE_ATTRIBUTE_DIRECTORY != 0;
    if info.attributes & FILE_ATTRIBUTE_REPARSE_POINT != 0 || is_directory != expect_directory {
        return Err(SnapshotError::UnexpectedType);
    }
    let size = join_u32_halves(info.size_high, info.size_low);
    let modified = join_u32_halves(info.write_time_high, info.write_time_low);
    if size > 0x7fff_ffff_ffff_ffff {
        return Err(SnapshotError::SizeOutOfRange);
    }
    if modified > 0x7fff_ffff_ffff_ffff {
        return Err(SnapshotError::ModifiedOutOfRange);
    }
    Ok(
        StableFileSnapshot {
            size_bytes: size as i64,
            modified_ticks: modified as i64,
            identity: Some(
                StableFileIdentity {
                    volume_serial: info.volume_serial,
                    file_index_high: info.file_index_high,
                    file_index_low: info.file_index_low,
                },
            ),
        },
    )
}

/// The snapshot of a regular file from its length and its modification time in nanoseconds
/// since the Unix epoch (`None` when the time lies before the epoch); no stable identity is
/// available this way.
pub open spec fn metadata_snapshot(len: u64, modified_nanos: Option<u128>) -> Result<
    StableFileSnapshot,
    SnapshotError,
> {
    if len > i64::MAX {
        Err(SnapshotError::SizeOutOfRange)
    } else {
        match modified_nanos {
            None => Err(SnapshotError::ModifiedBeforeEpoch),
            Some(n) => if n > i64::MAX {
                Err(SnapshotError::ModifiedOutOfRange)
            } else {
                Ok(StableFileSnapshot { size_bytes: len as i64, modified_ticks: n as i64, identity: None })
            },
        }
    }
}

pub fn snapshot_from_metadata(len: u64, modified_nanos: Option<u128>) -> (res: Result<
    StableFileSnapshot,
    SnapshotError,
>)
    ensures
        res == metadata_snapshot(len, modified_nanos),
{
    if len > 0x7fff_ffff_ffff_ffff {
        return Err(SnapshotError::SizeOutOfRange);
    }
    match modified_nanos {
        None => Err(SnapshotError::ModifiedBeforeEpoch),
        Some(n) => {
            if n > 0x7fff_ffff_ffff_ffff {
                Err(SnapshotError::ModifiedOutOfRange)
            } else {
                Ok(StableFileSnapshot { size_bytes: len as i64, modified_ticks: n as i64, identity: None })
            }
        },
    }
}

} // verus!
