//! The snapshot of a run: a tar archive with one entry for each zone
//! record, compressed as one zstd frame.

use crate::config::level_in_range;
use crate::trusted::tarball::{
    append_data, appended_entry, blank_gnu_block, block_with_checksum, block_with_size,
    end_of_archive, into_inner, new_writer, written,
};
use crate::trusted::zstandard::{encode_all, zstd_frame};
use crate::zones::{record_views, ZoneRecord, ZoneRecordView};
use vstd::prelude::*;
use vstd::string::*;

verus! {

/// What follows a zone's identifier in the path of its entry.
pub const ENTRY_SUFFIX: &'static str = ".zone";

/// Why no snapshot could be built.
#[derive(Debug)]
pub enum ArchiveError {
    /// The archive refused the entry of the record at `index`.
    EntryRefused { index: usize, cause: std::io::Error },
    /// The archive could not be closed. An archive that is written into
    /// memory always closes, so a snapshot is never refused for this.
    Finish(std::io::Error),
    /// The archive could not be compressed.
    Compress(std::io::Error),
}

/// The path of a zone's entry in the archive.
pub open spec fn entry_path(identifier: Seq<char>) -> Seq<char> {
    identifier + ENTRY_SUFFIX@
}

/// The header block handed to the archive for an entry of `size` bytes:
/// a blank GNU header with the size declared and the checksum set.
pub open spec fn entry_header(size: nat) -> Seq<u8> {
    block_with_checksum(block_with_size(blank_gnu_block(), size as u64))
}

/// The bytes of a record's entry in the archive; `None` where the archive
/// refuses the entry's path.
pub open spec fn entry_of(record: ZoneRecordView) -> Option<Seq<u8>> {
    appended_entry(
        entry_header(record.config_bytes.len()),
        entry_path(record.identifier),
        record.config_bytes,
    )
}

/// Whether the archive accepts the entry of every record.
pub open spec fn all_accepted(records: Seq<ZoneRecordView>) -> bool {
    forall|i: int| 0 <= i < records.len() ==> (#[trigger] entry_of(records[i])) is Some
}

/// The entries of the records, one after the other.
pub open spec fn entries_of(records: Seq<ZoneRecordView>) -> Seq<u8>
    decreases records.len(),
{
    if records.len() == 0 {
        Seq::empty()
    } else {
        entries_of(records.drop_last()) + entry_of(records.last())->0
    }
}

/// The tar archive of the records: their entries, then the end of the
/// archive.
pub open spec fn tar_stream(records: Seq<ZoneRecordView>) -> Seq<u8> {
    entries_of(records) + end_of_archive()
}

/// The snapshot of the records at a compression level.
pub open spec fn snapshot_bytes(records: Seq<ZoneRecordView>, level: i32) -> Seq<u8> {
    zstd_frame(tar_stream(records), level)
}

/// What becomes of the closed archive: its bytes, or the failure to close.
pub fn finished(result: Result<Vec<u8>, std::io::Error>) -> (archive: Result<
    Vec<u8>,
    ArchiveError,
>)
    ensures
        match result {
            Ok(bytes) => archive matches Ok(same) && same == bytes,
            Err(cause) => archive matches Err(ArchiveError::Finish(same)) && same == cause,
        },
{
    match result {
        Ok(bytes) => Ok(bytes),
        Err(cause) => Err(ArchiveError::Finish(cause)),
    }
}

/// What becomes of the compressed archive: the frame, or the failure to
/// compress.
pub fn compressed(result: Result<Vec<u8>, std::io::Error>) -> (snapshot: Result<
    Vec<u8>,
    ArchiveError,
>)
    ensures
        match result {
            Ok(frame) => snapshot matches Ok(same) && same == frame,
            Err(cause) => snapshot matches Err(ArchiveError::Compress(same)) && same == cause,
        },
{
    match result {
        Ok(frame) => Ok(frame),
        Err(cause) => Err(ArchiveError::Compress(cause)),
    }
}

/// Builds the snapshot of `records`: for each an entry named by the zone's
/// identifier and `.zone`, whose body is the configuration and whose header
/// declares the body's length; then the whole compressed at `level`.
///
/// The first record whose entry the archive refuses ends the build. Without
/// one, the build fails only where compressing does.
pub fn snapshot_zone_configs(records: &Vec<ZoneRecord>, level: i32) -> (result: Result<
    Vec<u8>,
    ArchiveError,
>)
    requires
        level_in_range(level),
    ensures
        match result {
            Ok(bytes) => {
                &&& all_accepted(record_views(records@))
                &&& bytes@ == snapshot_bytes(record_views(records@), level)
            },
            Err(ArchiveError::EntryRefused { index, .. }) => {
                &&& index < records@.len()
                &&& entry_of(records@[index as int]@) is None
                &&& all_accepted(record_views(records@).take(index as int))
            },
            Err(ArchiveError::Finish(_)) => false,
            Err(ArchiveError::Compress(_)) => all_accepted(record_views(records@)),
        },
{
    let ghost views = record_views(records@);
    let mut writer = new_writer();
    let mut i: usize = 0;
    assert(views.take(0) =~= Seq::empty());
    while i < records.len()
        invariant
            i <= records.len(),
            views == record_views(records@),
            all_accepted(views.take(i as int)),
            written(writer) == entries_of(views.take(i as int)),
        decreases records.len() - i,
    {
        let record = &records[i];
        let mut header = tar::Header::new_gnu();
        header.set_size(record.config_bytes.len() as u64);
        header.set_cksum();
        let mut path = record.identifier.clone();
        path.append(ENTRY_SUFFIX);
        proof {
            assert(views[i as int] == record@);
            assert(views.take(i + 1).drop_last() =~= views.take(i as int));
            assert(views.take(i + 1).last() == record@);
        }
        match append_data(&mut writer, &mut header, path.as_str(), record.config_bytes.as_slice()) {
            Ok(()) => {},
            Err(cause) => {
                return Err(ArchiveError::EntryRefused { index: i, cause });
            },
        }
        proof {
            assert forall|k: int| 0 <= k < views.take(i + 1).len() implies (#[trigger] entry_of(
                views.take(i + 1)[k],
            )) is Some by {
                if k < i {
                    assert(views.take(i + 1)[k] == views.take(i as int)[k]);
                }
            }
        }
        i += 1;
    }
    assert(views.take(i as int) =~= views);
    let archive = finished(into_inner(writer))?;
    compressed(encode_all(archive.as_slice(), level))
}

} // verus!
