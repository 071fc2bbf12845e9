//! Zones and their configurations, as the two system commands report them:
//! the list of zone identifiers, and one zone's configuration text.
//!
//! The caller runs the commands; this module reads what they printed.

use crate::naming::texts;
use crate::trusted::text::string_from_utf8;
use vstd::prelude::*;
use vstd::slice::{slice_subrange, slice_to_vec};
use vstd::utf8::{decode_utf8, valid_utf8};

verus! {

/// One zone's configuration, ready for the archive.
pub struct ZoneRecord {
    pub identifier: String,
    pub config_bytes: Vec<u8>,
}

/// A zone record as contracts see it.
pub struct ZoneRecordView {
    pub identifier: Seq<char>,
    pub config_bytes: Seq<u8>,
}

impl View for ZoneRecord {
    type V = ZoneRecordView;

    open spec fn view(&self) -> ZoneRecordView {
        ZoneRecordView { identifier: self.identifier@, config_bytes: self.config_bytes@ }
    }
}

/// The records of a vector, each by its view.
pub open spec fn record_views(records: Seq<ZoneRecord>) -> Seq<ZoneRecordView> {
    records.map_values(|record: ZoneRecord| record@)
}

/// Why a zone's configuration could not be had. Neither ends the run: the
/// zone is left out of the snapshot.
#[derive(Clone, Copy, PartialEq, Eq, Structural, Debug)]
pub enum ExtractError {
    /// The command could not be run, or did not exit successfully.
    CommandFailed,
    /// The command succeeded and printed nothing.
    NoOutput,
}

/// Why the zones could not be listed. Either ends the run.
#[derive(Clone, Copy, PartialEq, Eq, Structural, Debug)]
pub enum EnumerateError {
    /// The command could not be run, or did not exit successfully.
    CommandFailed,
    /// A line of the output, counted from 0, is not valid UTF-8.
    NotText { line: usize },
}

/// What the command for one zone's configuration came to.
pub struct Extraction {
    pub zone: String,
    /// Whether the command ran and exited successfully.
    pub succeeded: bool,
    /// What it wrote to its standard output.
    pub output: Vec<u8>,
}

/// A zone whose extraction failed, and why.
pub struct MissingZone {
    pub zone: String,
    pub reason: ExtractError,
}

/// The extractions of a run, sorted into the records for the archive and
/// the zones that are left out.
pub struct Extracted {
    pub records: Vec<ZoneRecord>,
    pub missing: Vec<MissingZone>,
}

/// What an extraction yields: the configuration where the command succeeded
/// and printed something, else the reason for its absence.
pub open spec fn extraction_result(succeeded: bool, output: Seq<u8>) -> Result<
    Seq<u8>,
    ExtractError,
> {
    if !succeeded {
        Err(ExtractError::CommandFailed)
    } else if output.len() == 0 {
        Err(ExtractError::NoOutput)
    } else {
        Ok(output)
    }
}

/// Whether an extraction yields a record.
pub open spec fn extracted(extraction: Extraction) -> bool {
    extraction.succeeded && extraction.output@.len() > 0
}

/// The record that an extraction yields, where it yields one.
pub open spec fn record_of(extraction: Extraction) -> ZoneRecordView {
    ZoneRecordView { identifier: extraction.zone@, config_bytes: extraction.output@ }
}

/// The records that a sequence of extractions yields: one for each that
/// succeeded with some output, in their order.
pub open spec fn records_of(extractions: Seq<Extraction>) -> Seq<ZoneRecordView>
    decreases extractions.len(),
{
    if extractions.len() == 0 {
        Seq::empty()
    } else {
        let earlier = records_of(extractions.drop_last());
        let last = extractions.last();
        if extracted(last) {
            earlier.push(record_of(last))
        } else {
            earlier
        }
    }
}

/// Why an extraction yields no record: the command failed, or it printed
/// nothing.
pub open spec fn reason_of(extraction: Extraction) -> ExtractError {
    if !extraction.succeeded {
        ExtractError::CommandFailed
    } else {
        ExtractError::NoOutput
    }
}

/// The zones that a sequence of extractions leaves out, each with the
/// reason, in their order.
pub open spec fn missing_of(extractions: Seq<Extraction>) -> Seq<(Seq<char>, ExtractError)>
    decreases extractions.len(),
{
    if extractions.len() == 0 {
        Seq::empty()
    } else {
        let earlier = missing_of(extractions.drop_last());
        let last = extractions.last();
        if extracted(last) {
            earlier
        } else {
            earlier.push((last.zone@, reason_of(last)))
        }
    }
}

/// The zones of a vector of missing zones, each with the reason.
pub open spec fn missing_views(missing: Seq<MissingZone>) -> Seq<(Seq<char>, ExtractError)> {
    missing.map_values(|entry: MissingZone| (entry.zone@, entry.reason))
}

/// The position of the first line feed in `bytes`, or their length where
/// there is none.
pub open spec fn line_feed_at(bytes: Seq<u8>) -> nat
    decreases bytes.len(),
{
    if bytes.len() == 0 || bytes[0] == 0x0a {
        0
    } else {
        1 + line_feed_at(bytes.drop_first())
    }
}

/// The first line of `bytes`, which are not empty: what stands before the
/// first line feed, without a carriage return that ends it. A last line that
/// no line feed ends keeps its carriage return.
pub open spec fn first_line(bytes: Seq<u8>) -> Seq<u8> {
    let feed = line_feed_at(bytes) as int;
    if 0 < feed < bytes.len() && bytes[feed - 1] == 0x0d {
        bytes.subrange(0, feed - 1)
    } else {
        bytes.subrange(0, feed)
    }
}

/// What follows the first line and its line feed.
pub open spec fn after_first_line(bytes: Seq<u8>) -> Seq<u8> {
    let feed = line_feed_at(bytes) as int;
    if feed < bytes.len() {
        bytes.skip(feed + 1)
    } else {
        Seq::empty()
    }
}

/// The lines of `bytes`. Empty input has no line; a line feed at the very
/// end begins no further line.
pub open spec fn split_lines(bytes: Seq<u8>) -> Seq<Seq<u8>>
    decreases bytes.len(),
    via split_lines_decreases
{
    if bytes.len() == 0 {
        Seq::empty()
    } else {
        seq![first_line(bytes)] + split_lines(after_first_line(bytes))
    }
}

#[via_fn]
proof fn split_lines_decreases(bytes: Seq<u8>) {
    lemma_line_feed_at(bytes);
}

/// The first line feed stands within the bytes, and nothing before it is one.
pub proof fn lemma_line_feed_at(bytes: Seq<u8>)
    ensures
        line_feed_at(bytes) <= bytes.len(),
        line_feed_at(bytes) < bytes.len() ==> bytes[line_feed_at(bytes) as int] == 0x0a,
        forall|i: int| 0 <= i < line_feed_at(bytes) ==> bytes[i] != 0x0a,
    decreases bytes.len(),
{
    if bytes.len() == 0 || bytes[0] == 0x0a {
    } else {
        let rest = bytes.drop_first();
        lemma_line_feed_at(rest);
        assert forall|i: int| 0 <= i < line_feed_at(bytes) implies bytes[i] != 0x0a by {
            if i > 0 {
                assert(bytes[i] == rest[i - 1]);
            }
        }
    }
}

/// A position is that of the first line feed where a line feed or the end
/// stands there and no line feed before it.
pub proof fn lemma_line_feed_found(bytes: Seq<u8>, at: int)
    requires
        0 <= at <= bytes.len(),
        at < bytes.len() ==> bytes[at] == 0x0a,
        forall|i: int| 0 <= i < at ==> bytes[i] != 0x0a,
    ensures
        line_feed_at(bytes) == at,
{
    lemma_line_feed_at(bytes);
    let feed = line_feed_at(bytes) as int;
    if feed < at {
        assert(bytes[feed] != 0x0a);
    }
}

/// The configuration that the command for one zone yielded. A command that
/// failed, and one that printed nothing, yield none.
pub fn get_zonecfg(succeeded: bool, output: &[u8]) -> (result: Result<Vec<u8>, ExtractError>)
    ensures
        match result {
            Ok(config) => extraction_result(succeeded, output@) == Ok::<Seq<u8>, ExtractError>(
                config@,
            ),
            Err(reason) => extraction_result(succeeded, output@) == Err::<Seq<u8>, ExtractError>(
                reason,
            ),
        },
{
    if !succeeded {
        Err(ExtractError::CommandFailed)
    } else if output.len() == 0 {
        Err(ExtractError::NoOutput)
    } else {
        Ok(slice_to_vec(output))
    }
}

/// Sorts the extractions of a run into records and missing zones. A zone
/// whose extraction failed is left out and never ends the run.
pub fn zone_records(extractions: &Vec<Extraction>) -> (sorted: Extracted)
    ensures
        record_views(sorted.records@) == records_of(extractions@),
        missing_views(sorted.missing@) == missing_of(extractions@),
{
    let mut records: Vec<ZoneRecord> = Vec::new();
    let mut missing: Vec<MissingZone> = Vec::new();
    let mut i: usize = 0;
    assert(extractions@.take(0) =~= Seq::empty());
    while i < extractions.len()
        invariant
            i <= extractions.len(),
            record_views(records@) =~= records_of(extractions@.take(i as int)),
            missing_views(missing@) =~= missing_of(extractions@.take(i as int)),
        decreases extractions.len() - i,
    {
        let extraction = &extractions[i];
        assert(extractions@.take(i + 1).drop_last() =~= extractions@.take(i as int));
        assert(extractions@.take(i + 1).last() == extractions@[i as int]);
        match get_zonecfg(extraction.succeeded, extraction.output.as_slice()) {
            Ok(config_bytes) => {
                records.push(ZoneRecord { identifier: extraction.zone.clone(), config_bytes });
            },
            Err(reason) => {
                missing.push(MissingZone { zone: extraction.zone.clone(), reason });
            },
        }
        i += 1;
    }
    assert(extractions@.take(i as int) =~= extractions@);
    Extracted { records, missing }
}

/// The zone identifiers that the listing command printed, one per line.
/// A command that failed, and output that is not text, end the run.
pub fn find_zones(succeeded: bool, output: &[u8]) -> (result: Result<Vec<String>, EnumerateError>)
    ensures
        match result {
            Ok(zones) => {
                &&& succeeded
                &&& forall|i: int|
                    0 <= i < split_lines(output@).len() ==> valid_utf8(
                        #[trigger] split_lines(output@)[i],
                    )
                &&& texts(zones@) == split_lines(output@).map_values(
                    |line: Seq<u8>| decode_utf8(line),
                )
            },
            Err(EnumerateError::CommandFailed) => !succeeded,
            Err(EnumerateError::NotText { line }) => {
                &&& succeeded
                &&& line < split_lines(output@).len()
                &&& !valid_utf8(split_lines(output@)[line as int])
                &&& forall|i: int| 0 <= i < line ==> valid_utf8(#[trigger] split_lines(output@)[i])
            },
        },
{
    if !succeeded {
        return Err(EnumerateError::CommandFailed);
    }
    let mut zones: Vec<String> = Vec::new();
    let ghost mut done: Seq<Seq<u8>> = Seq::empty();
    let mut start: usize = 0;
    assert(output@.skip(0) =~= output@);
    while start < output.len()
        invariant
            succeeded,
            start <= output.len(),
            split_lines(output@) == done + split_lines(output@.skip(start as int)),
            zones.len() == done.len(),
            forall|i: int| 0 <= i < done.len() ==> valid_utf8(#[trigger] done[i]),
            forall|i: int| 0 <= i < done.len() ==> (#[trigger] zones@[i])@ == decode_utf8(done[i]),
        decreases output.len() - start,
    {
        let ghost rest = output@.skip(start as int);
        let mut end: usize = start;
        while end < output.len() && output[end] != 0x0a
            invariant
                start <= end <= output.len(),
                forall|i: int| start <= i < end ==> output@[i] != 0x0a,
            decreases output.len() - end,
        {
            end += 1;
        }
        let stop: usize = if end < output.len() && start < end && output[end - 1] == 0x0d {
            (end - 1) as usize
        } else {
            end
        };
        let next: usize = if end < output.len() {
            (end + 1) as usize
        } else {
            end
        };
        proof {
            lemma_line_feed_found(rest, end - start);
            assert(first_line(rest) =~= output@.subrange(start as int, stop as int));
            assert(after_first_line(rest) =~= output@.skip(next as int));
            assert(split_lines(rest) == seq![first_line(rest)] + split_lines(
                after_first_line(rest),
            ));
        }
        let line = slice_to_vec(slice_subrange(output, start, stop));
        assert(line@ == first_line(rest));
        assert(split_lines(output@)[done.len() as int] == first_line(rest));
        match string_from_utf8(line) {
            Some(zone) => {
                zones.push(zone);
                proof {
                    let grown = done.push(first_line(rest));
                    assert(done + split_lines(rest) =~= grown + split_lines(
                        after_first_line(rest),
                    ));
                    done = grown;
                }
            },
            None => {
                proof {
                    assert forall|i: int| 0 <= i < done.len() implies valid_utf8(
                        #[trigger] split_lines(output@)[i],
                    ) by {
                        assert(split_lines(output@)[i] == done[i]);
                    }
                }
                return Err(EnumerateError::NotText { line: zones.len() });
            },
        }
        start = next;
    }
    proof {
        assert(split_lines(output@.skip(start as int)) =~= Seq::empty());
        assert(split_lines(output@) =~= done);
        assert(texts(zones@) =~= done.map_values(|line: Seq<u8>| decode_utf8(line)));
    }
    Ok(zones)
}

/// Where every extraction succeeds with some output, each yields its
/// record and no zone is missing.
pub proof fn lemma_nothing_missing(extractions: Seq<Extraction>)
    requires
        forall|i: int| 0 <= i < extractions.len() ==> extracted(#[trigger] extractions[i]),
    ensures
        records_of(extractions) == extractions.map_values(|e: Extraction| record_of(e)),
        missing_of(extractions) == Seq::<(Seq<char>, ExtractError)>::empty(),
    decreases extractions.len(),
{
    if extractions.len() > 0 {
        let earlier = extractions.drop_last();
        assert forall|i: int| 0 <= i < earlier.len() implies extracted(#[trigger] earlier[i]) by {
            assert(earlier[i] == extractions[i]);
        }
        lemma_nothing_missing(earlier);
        assert(extracted(extractions.last()));
    }
    assert(records_of(extractions) =~= extractions.map_values(|e: Extraction| record_of(e)));
}

/// A missing zone is tolerated. Where the extraction of one zone among
/// several fails and all others succeed, the records are those of the others,
/// in their order and one fewer than the zones; the failed zone alone is
/// reported as missing.
pub proof fn lemma_one_missing_zone(extractions: Seq<Extraction>, failed: int)
    requires
        0 <= failed < extractions.len(),
        !extracted(extractions[failed]),
        forall|i: int|
            0 <= i < extractions.len() && i != failed ==> extracted(#[trigger] extractions[i]),
    ensures
        records_of(extractions) == extractions.remove(failed).map_values(
            |e: Extraction| record_of(e),
        ),
        records_of(extractions).len() == extractions.len() - 1,
        missing_of(extractions) == seq![
            (extractions[failed].zone@, reason_of(extractions[failed])),
        ],
    decreases extractions.len(),
{
    let earlier = extractions.drop_last();
    let others = extractions.remove(failed).map_values(|e: Extraction| record_of(e));
    if failed == extractions.len() - 1 {
        assert forall|i: int| 0 <= i < earlier.len() implies extracted(#[trigger] earlier[i]) by {
            assert(earlier[i] == extractions[i]);
        }
        lemma_nothing_missing(earlier);
        assert(earlier =~= extractions.remove(failed));
        assert(missing_of(extractions) =~= seq![
            (extractions[failed].zone@, reason_of(extractions[failed])),
        ]);
    } else {
        assert forall|i: int| 0 <= i < earlier.len() && i != failed implies extracted(
            #[trigger] earlier[i],
        ) by {
            assert(earlier[i] == extractions[i]);
        }
        assert(earlier[failed] == extractions[failed]);
        lemma_one_missing_zone(earlier, failed);
        assert(extracted(extractions.last()));
        assert(extractions.remove(failed) =~= earlier.remove(failed).push(extractions.last()));
        assert(records_of(extractions) =~= others);
    }
}

} // verus!
