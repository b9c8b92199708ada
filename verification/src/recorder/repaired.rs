//! What replay makes of captures that were finished and of captures that a crash cut off.
use vstd::prelude::*;

use crate::bytes::{lemma_le_bytes_of_value, lemma_pow256};
use crate::market_data::event::EventView;
use crate::recorder::capture::{repaired, CoordinatorErrorView, InterruptedView};
use crate::recorder::dto::{
    lemma_restored_event_not_refused, lemma_stored_event_restores, stored_form,
    StorageConversionError, StoredEventView,
};
use crate::recorder::format::{record_reading, SegmentHeader, HEADER_LENGTH};
use crate::recorder::manifest::{
    configuration_digest, CaptureStatus, EntryView, ManifestView, MANIFEST_SCHEMA_VERSION,
};
use crate::recorder::reader::{
    expected_after, has_extension, recordable, segment_bytes, segment_reading,
};
use crate::recorder::recovery::{
    events_of, lemma_recovered_segment_reads_back, lemma_recovery_keeps_written_events,
    lemma_valid_end_within, recoverable, valid_end, with_ends,
};
use crate::recorder::validated::{
    describes_segment, events_fail, fails_at, file_bytes, first_unlisted, is_file, is_listed,
    least_missing, lemma_contents_prefix, lemma_recorded_capture_replays,
    lemma_replay_deterministic, lemma_segment_adds, lemma_validated_sequences, preliminary_error,
    replay_fails, replayed, replayed_events, replays, replays_one, segment_contents, segment_fails,
    segment_valid, segments_valid, stores_events, validation, FileView, ReplayView,
    ValidationErrorView, ValidationOptions,
};
use crate::recorder::writer::{log_name, WallTime, Written};

verus! {

/// Whether the files of a capture are the listed ones: each listed segment is there, and no
/// finalized segment is there that is not listed.
pub open spec fn files_listed(segments: Seq<EntryView>, files: Seq<FileView>) -> bool {
    &&& forall|i: int|
        0 <= i < segments.len() ==> is_file(files, (#[trigger] segments[i]).filename)
    &&& forall|i: int|
        0 <= i < files.len() && has_extension((#[trigger] files[i]).filename, "log"@) ==> is_listed(
            segments,
            files[i].filename,
        )
}

proof fn lemma_nothing_missing(segments: Seq<EntryView>, files: Seq<FileView>)
    requires
        forall|i: int|
            0 <= i < segments.len() ==> is_file(files, (#[trigger] segments[i]).filename),
    ensures
        least_missing(segments, files) is None,
    decreases segments.len(),
{
    if segments.len() > 0 {
        let rest = segments.drop_last();
        assert forall|i: int| 0 <= i < rest.len() implies is_file(
            files,
            (#[trigger] rest[i]).filename,
        ) by {
            assert(rest[i] == segments[i]);
        }
        lemma_nothing_missing(rest, files);
        assert(is_file(files, segments[segments.len() - 1].filename));
    }
}

proof fn lemma_nothing_unlisted(segments: Seq<EntryView>, files: Seq<FileView>)
    requires
        forall|i: int|
            0 <= i < files.len() && has_extension((#[trigger] files[i]).filename, "log"@)
                ==> is_listed(segments, files[i].filename),
    ensures
        first_unlisted(segments, files) is None,
    decreases files.len(),
{
    if files.len() > 0 {
        let rest = files.drop_last();
        assert forall|i: int|
            0 <= i < rest.len() && has_extension((#[trigger] rest[i]).filename, "log"@) implies is_listed(
            segments,
            rest[i].filename,
        ) by {
            assert(rest[i] == files[i]);
        }
        lemma_nothing_unlisted(segments, rest);
        assert(files[files.len() - 1] == files.last());
    }
}

proof fn lemma_valid_segment_does_not_fail(
    manifest: ManifestView,
    position: int,
    bytes: Seq<u8>,
    start: nat,
    events: Seq<ReplayView>,
    error: ValidationErrorView,
)
    requires
        segment_valid(manifest, position, bytes, start, events),
    ensures
        !segment_fails(manifest, position, bytes, start, error),
{
    if segment_fails(manifest, position, bytes, start, error) {
        let segment = manifest.segments[position];
        let stored = segment_reading(
            segment.filename,
            bytes,
            manifest.capture_id,
            segment.index,
        )->Ok_0;
        assert(events_fail(stored, start, error));
        let (k, before) = choose|k: int, before: Seq<ReplayView>|
            0 <= k < stored.len() && #[trigger] replays(stored.take(k), start, before)
                && replay_fails(#[trigger] stored[k], (start + k) as nat, error);
        assert(replays_one(stored[k], start + k as nat, events[k]));
        if let ValidationErrorView::StorageConversion { source, .. } = error {
            lemma_restored_event_not_refused(stored[k], events[k].event, source);
        }
    }
}

proof fn lemma_valid_prefix(
    manifest: ManifestView,
    contents: Seq<Seq<u8>>,
    count: nat,
    events: Seq<ReplayView>,
    position: nat,
) -> (parts: (Seq<ReplayView>, Seq<ReplayView>))
    requires
        position < count,
        segments_valid(manifest, contents, count, events),
    ensures
        segments_valid(manifest, contents, position, parts.0),
        segment_valid(
            manifest,
            position as int,
            contents[position as int],
            parts.0.len() + 1,
            parts.1,
        ),
    decreases count,
{
    let split = events.len() - manifest.segments[count - 1].record_count;
    let before = events.take(split);
    if position == count - 1 {
        (before, events.skip(split))
    } else {
        lemma_valid_prefix(manifest, contents, (count - 1) as nat, before, position)
    }
}

/// Validation has one outcome: a capture against which nothing speaks and whose segments
/// are all valid gives their events, and is not refused.
pub proof fn lemma_valid_capture_accepted(
    manifest: ManifestView,
    files: Seq<FileView>,
    options: ValidationOptions,
    events: Seq<ReplayView>,
    result: Result<Seq<ReplayView>, ValidationErrorView>,
)
    requires
        preliminary_error(manifest, files, options) is None,
        segments_valid(
            manifest,
            segment_contents(manifest.segments, files),
            manifest.segments.len(),
            events,
        ),
        validation(manifest, files, options, result),
    ensures
        result == Ok::<Seq<ReplayView>, ValidationErrorView>(events),
{
    let contents = segment_contents(manifest.segments, files);
    match result {
        Ok(other) => {
            lemma_replay_deterministic(manifest, contents, manifest.segments.len(), other, events);
        },
        Err(error) => {
            let (position, before) = choose|position: nat, before: Seq<ReplayView>|
                fails_at(manifest, contents, position, before, error);
            let (prefix, more) = lemma_valid_prefix(
                manifest,
                contents,
                manifest.segments.len(),
                events,
                position,
            );
            lemma_replay_deterministic(manifest, contents, position, prefix, before);
            lemma_valid_segment_does_not_fail(
                manifest,
                position as int,
                contents[position as int],
                before.len() + 1,
                more,
                error,
            );
        },
    }
}

/// Whether a manifest can be read and stands by its configuration.
pub open spec fn sound_manifest(manifest: ManifestView) -> bool {
    &&& manifest.schema_version == MANIFEST_SCHEMA_VERSION
    &&& configuration_digest(manifest.configuration) == manifest.configuration_sha256
}

/// Whether stored events are the storage forms of the events from a position on.
pub open spec fn stores_from(
    stored: Seq<StoredEventView>,
    events: Seq<EventView>,
    from: int,
) -> bool {
    &&& 0 <= from
    &&& from + stored.len() <= events.len()
    &&& forall|i: int|
        0 <= i < stored.len() ==> stored_form((from + i + 1) as u64, events[from + i]) == Ok::<
            StoredEventView,
            StorageConversionError,
        >(#[trigger] stored[i])
}

/// A capture that was finished replays as it was recorded, without any allowance: for the
/// files that it lists, validation succeeds and gives every event, in order and under its
/// number.
pub proof fn lemma_finished_capture_replays(
    manifest: ManifestView,
    written: Seq<Written>,
    events: Seq<EventView>,
    files: Seq<FileView>,
    options: ValidationOptions,
    result: Result<Seq<ReplayView>, ValidationErrorView>,
)
    requires
        sound_manifest(manifest),
        manifest.capture_status == CaptureStatus::Complete || options.allow_incomplete,
        manifest.segments.len() == written.len(),
        events.len() < u64::MAX,
        forall|i: int| 0 <= i < events.len() ==> (#[trigger] events[i]).valid(),
        forall|i: int|
            0 <= i < written.len() ==> describes_segment(manifest, i, #[trigger] written[i]),
        stores_events(written, written.len(), events, events.len() as int),
        files_listed(manifest.segments, files),
        forall|i: int|
            0 <= i < written.len() ==> file_bytes(files, log_name(i as u32)) == (
            #[trigger] written[i]).bytes(),
        validation(manifest, files, options, result),
    ensures
        result == Ok::<Seq<ReplayView>, ValidationErrorView>(replayed_events(events)),
{
    let count = written.len();
    let bytes = Seq::new(count, |i: int| written[i].bytes());
    let contents = segment_contents(manifest.segments, files);
    lemma_recorded_capture_replays(manifest, written, events, count, events.len() as int);
    assert(events.take(events.len() as int) =~= events);
    assert forall|i: int| 0 <= i < count implies bytes[i] == #[trigger] contents[i] by {
        assert(describes_segment(manifest, i, written[i]));
    }
    lemma_contents_prefix(manifest, bytes, contents, count, replayed_events(events));
    lemma_nothing_missing(manifest.segments, files);
    lemma_nothing_unlisted(manifest.segments, files);
    lemma_valid_capture_accepted(manifest, files, options, replayed_events(events), result);
}

/// The stored events of what a crash left behind: the valid records of an open segment, or
/// the records of a finalized one.
pub open spec fn left_events(capture_id: Seq<u8>, index: u32, found: InterruptedView) -> Seq<
    StoredEventView,
> {
    match found {
        InterruptedView::Open { bytes } => events_of(recoverable(bytes)),
        InterruptedView::Finalized { bytes, .. } => segment_reading(
            log_name(index),
            bytes,
            capture_id,
            index,
        )->Ok_0,
        InterruptedView::Nothing => Seq::empty(),
    }
}

/// The bytes that are kept of what a crash left behind: those of an open segment up to the
/// end of its last valid record, or all of a finalized one.
pub open spec fn left_bytes(found: InterruptedView) -> Seq<u8> {
    match found {
        InterruptedView::Open { bytes } => bytes.take(valid_end(recoverable(bytes)) as int),
        InterruptedView::Finalized { bytes, .. } => bytes,
        InterruptedView::Nothing => Seq::empty(),
    }
}

/// How many bytes a crash left behind.
pub open spec fn left_size(found: InterruptedView) -> nat {
    match found {
        InterruptedView::Open { bytes } => bytes.len(),
        InterruptedView::Finalized { bytes, .. } => bytes.len(),
        InterruptedView::Nothing => 0,
    }
}

proof fn lemma_left_segment_valid(
    manifest: ManifestView,
    events: Seq<EventView>,
    total: int,
    index: u32,
    found: InterruptedView,
    recovered_at: WallTime,
    after: ManifestView,
)
    requires
        manifest.capture_status == CaptureStatus::IncompleteProcessCrash,
        manifest.segments.len() == index,
        events.len() < u64::MAX,
        forall|i: int| 0 <= i < events.len() ==> (#[trigger] events[i]).valid(),
        stores_from(left_events(manifest.capture_id, index, found), events, total),
        left_size(found) <= u64::MAX,
        repaired(manifest, index, found, recovered_at) == Ok::<
            Option<ManifestView>,
            CoordinatorErrorView,
        >(Some(after)),
    ensures
        ({
            let stored = left_events(manifest.capture_id, index, found);
            &&& stored.len() == 0 ==> after.segments == manifest.segments
            &&& stored.len() > 0 ==> {
                &&& after.segments.len() == index + 1
                &&& after.segments[index as int].filename == log_name(index)
                &&& segment_valid(
                    after,
                    index as int,
                    left_bytes(found),
                    (total + 1) as nat,
                    replayed_events(events.take(total + stored.len())).skip(total),
                )
            }
            &&& after.segments.take(index as int) == manifest.segments
            &&& after.capture_id == manifest.capture_id
            &&& after.capture_status == CaptureStatus::IncompleteProcessCrash
            &&& after.schema_version == manifest.schema_version
            &&& after.configuration == manifest.configuration
            &&& after.configuration_sha256 == manifest.configuration_sha256
        }),
{
    let stored = left_events(manifest.capture_id, index, found);
    assert(after.segments.take(index as int) =~= manifest.segments);
    if stored.len() > 0 {
        let more = replayed_events(events.take(total + stored.len())).skip(total);
        assert forall|i: int| 0 <= i < more.len() implies replays_one(
            stored[i],
            (total + 1) as nat + i as nat,
            #[trigger] more[i],
        ) by {
            let sequence = (total + i + 1) as u64;
            assert(stored_form(sequence, events[total + i]) == Ok::<
                StoredEventView,
                StorageConversionError,
            >(stored[i]));
            lemma_stored_event_restores(sequence, events[total + i], stored[i]);
            assert(more[i] == replayed(events[total + i], (total + i + 1) as nat));
        }
        let last = stored.len() - 1;
        assert(stored_form((total + last + 1) as u64, events[total + last]) == Ok::<
            StoredEventView,
            StorageConversionError,
        >(stored[last]));
        assert(stored[last].capture_sequence == total + last + 1);
        match found {
            InterruptedView::Open { bytes } => {
                let records = recoverable(bytes);
                assert(records.len() == stored.len());
                assert(records.last().0 == stored[last]);
                lemma_le_bytes_of_value(bytes.subrange(28, 32));
                lemma_pow256();
                lemma_recovered_segment_reads_back(bytes, manifest.capture_id, index);
                assert(records[0].0 == stored[0]);
                lemma_valid_end_within(bytes);
            },
            _ => {},
        }
        assert(replays(stored, (total + 1) as nat, more));
    }
}

/// A capture that was repaired after a crash replays: for the files that its manifest then
/// lists, the recovered one cut behind its last valid record, validation that allows for an
/// incomplete capture succeeds, and gives every event of the listed segments and then every
/// event of the valid records that the crash left behind, in order and under its number.
/// Without the allowance the capture is refused for being incomplete.
pub proof fn lemma_repaired_capture_replays(
    manifest: ManifestView,
    written: Seq<Written>,
    events: Seq<EventView>,
    total: int,
    index: u32,
    found: InterruptedView,
    recovered_at: WallTime,
    after: ManifestView,
    files: Seq<FileView>,
    options: ValidationOptions,
    result: Result<Seq<ReplayView>, ValidationErrorView>,
)
    requires
        sound_manifest(manifest),
        manifest.capture_status == CaptureStatus::IncompleteProcessCrash,
        manifest.segments.len() == written.len() == index,
        events.len() < u64::MAX,
        forall|i: int| 0 <= i < events.len() ==> (#[trigger] events[i]).valid(),
        forall|i: int|
            0 <= i < written.len() ==> describes_segment(manifest, i, #[trigger] written[i]),
        stores_events(written, written.len(), events, total),
        stores_from(left_events(manifest.capture_id, index, found), events, total),
        left_size(found) <= u64::MAX,
        repaired(manifest, index, found, recovered_at) == Ok::<
            Option<ManifestView>,
            CoordinatorErrorView,
        >(Some(after)),
        files_listed(after.segments, files),
        forall|i: int|
            0 <= i < written.len() ==> file_bytes(files, log_name(i as u32)) == (
            #[trigger] written[i]).bytes(),
        left_events(manifest.capture_id, index, found).len() > 0 ==> file_bytes(
            files,
            log_name(index),
        ) == left_bytes(found),
        validation(after, files, options, result),
    ensures
        options.allow_incomplete ==> result == Ok::<Seq<ReplayView>, ValidationErrorView>(
            replayed_events(
                events.take(total + left_events(manifest.capture_id, index, found).len()),
            ),
        ),
        !options.allow_incomplete ==> result == Err::<Seq<ReplayView>, ValidationErrorView>(
            ValidationErrorView::IncompleteCapture(CaptureStatus::IncompleteProcessCrash),
        ),
{
    let count = written.len();
    let stored = left_events(manifest.capture_id, index, found);
    let bytes = Seq::new(count, |i: int| written[i].bytes());
    let contents = segment_contents(after.segments, files);
    let all = replayed_events(events.take(total + stored.len()));
    let listed = replayed_events(events.take(total));
    lemma_left_segment_valid(manifest, events, total, index, found, recovered_at, after);
    assert forall|i: int| 0 <= i < count implies describes_segment(
        after,
        i,
        #[trigger] written[i],
    ) && after.segments[i] == manifest.segments[i] by {
        assert(describes_segment(manifest, i, written[i]));
        assert(after.segments.take(index as int)[i] == manifest.segments[i]);
    }
    lemma_recorded_capture_replays(after, written, events, count, total);
    assert forall|i: int| 0 <= i < count implies bytes[i] == #[trigger] contents[i] by {
        assert(describes_segment(after, i, written[i]));
    }
    lemma_contents_prefix(after, bytes, contents, count, listed);
    if options.allow_incomplete {
        lemma_nothing_missing(after.segments, files);
        lemma_nothing_unlisted(after.segments, files);
        if stored.len() > 0 {
            assert(contents[index as int] == left_bytes(found));
            assert(listed =~= all.take(total));
            lemma_segment_adds(after, contents, count, listed, all.skip(total));
            assert(listed + all.skip(total) =~= all);
        } else {
            assert(listed =~= all);
        }
        lemma_valid_capture_accepted(after, files, options, all, result);
    }
}

proof fn lemma_events_with_ends(events: Seq<StoredEventView>, offset: nat)
    ensures
        events_of(with_ends(events, offset)) == events,
    decreases events.len(),
{
    if events.len() > 0 {
        let end = offset + crate::recorder::format::record_bytes(events[0]).len();
        lemma_events_with_ends(events.skip(1), end);
        let rest = with_ends(events.skip(1), end);
        assert(events_of(seq![(events[0], end)] + rest) =~= seq![events[0]] + events_of(rest));
        assert(seq![events[0]] + events.skip(1) =~= events);
    } else {
        assert(events_of(with_ends(events, offset)) =~= events);
    }
}

/// What a crash leaves of a segment that was being written: the events that were appended
/// whole, and the bytes of the segment up to them, whatever stands behind that is not the
/// next record.
pub proof fn lemma_torn_segment_left(
    header: SegmentHeader,
    stored: Seq<StoredEventView>,
    tail: Seq<u8>,
    capture_id: Seq<u8>,
    index: u32,
)
    requires
        recordable(stored),
        ({
            let whole = segment_bytes(header, stored);
            let next = record_reading(whole + tail, whole.len());
            next matches Ok(Some((event, _))) ==> {
                ||| event.capture_sequence == 0
                ||| expected_after(stored, None) matches Some(number) && number
                    != event.capture_sequence
            }
        }),
    ensures
        ({
            let found = InterruptedView::Open { bytes: segment_bytes(header, stored) + tail };
            &&& left_events(capture_id, index, found) == stored
            &&& left_bytes(found) == segment_bytes(header, stored)
        }),
{
    let whole = segment_bytes(header, stored);
    lemma_recovery_keeps_written_events(header, stored, tail);
    lemma_events_with_ends(stored, HEADER_LENGTH as nat);
    assert((whole + tail).take(whole.len() as int) =~= whole);
}

proof fn lemma_missing_found(segments: Seq<EntryView>, files: Seq<FileView>)
    requires
        least_missing(segments, files) is None,
    ensures
        forall|i: int|
            0 <= i < segments.len() ==> is_file(files, (#[trigger] segments[i]).filename),
    decreases segments.len(),
{
    if segments.len() > 0 {
        let rest = segments.drop_last();
        lemma_missing_found(rest, files);
        assert forall|i: int| 0 <= i < segments.len() implies is_file(
            files,
            (#[trigger] segments[i]).filename,
        ) by {
            if i < rest.len() {
                assert(rest[i] == segments[i]);
            }
        }
    }
}

proof fn lemma_unlisted_found(segments: Seq<EntryView>, files: Seq<FileView>)
    requires
        first_unlisted(segments, files) is None,
    ensures
        forall|i: int|
            0 <= i < files.len() && has_extension((#[trigger] files[i]).filename, "log"@)
                ==> is_listed(segments, files[i].filename),
    decreases files.len(),
{
    if files.len() > 0 {
        let rest = files.drop_last();
        lemma_unlisted_found(segments, rest);
        assert forall|i: int|
            0 <= i < files.len() && has_extension((#[trigger] files[i]).filename, "log"@) implies is_listed(
            segments,
            files[i].filename,
        ) by {
            if i < rest.len() {
                assert(rest[i] == files[i]);
            }
        }
    }
}

/// Whether a listed segment is in order beside its file: it is numbered and named by its
/// place, its digest and its size are those of the file, and it was completed, or recovered
/// in a capture that is not said to be complete.
pub open spec fn segment_in_order(
    manifest: ManifestView,
    position: int,
    bytes: Seq<u8>,
) -> bool {
    let segment = manifest.segments[position];
    &&& segment.index == position
    &&& segment.filename == log_name(position as u32)
    &&& segment.sha256 == crate::text::hex(crate::hashing::sha256(bytes))
    &&& segment.byte_size == bytes.len()
    &&& segment.completion_status == "complete"@ || (segment.completion_status
        == "recovered_after_crash"@ && manifest.capture_status != CaptureStatus::Complete)
    &&& segment_reading(segment.filename, bytes, manifest.capture_id, position as u32) matches Ok(
        stored,
    )
    &&& segment.record_count == stored.len()
    &&& segment.first_capture_sequence == stored[0].capture_sequence
    &&& segment.last_capture_sequence == stored.last().capture_sequence
}

proof fn lemma_segments_in_order(
    manifest: ManifestView,
    contents: Seq<Seq<u8>>,
    count: nat,
    events: Seq<ReplayView>,
)
    requires
        segments_valid(manifest, contents, count, events),
    ensures
        forall|i: int|
            0 <= i < count ==> segment_in_order(manifest, i, #[trigger] contents[i]),
    decreases count,
{
    if count > 0 {
        let split = events.len() - manifest.segments[count - 1].record_count;
        lemma_segments_in_order(manifest, contents, (count - 1) as nat, events.take(split));
    }
}

/// Nothing is replayed of a capture that is not in order: where validation succeeds, the
/// manifest is of the known version and stands by its configuration, the capture is complete
/// unless an incomplete one is allowed, the files are the listed ones, every segment is in
/// order beside its file, and the events are numbered from one on without a gap.
pub proof fn lemma_replayed_capture_in_order(
    manifest: ManifestView,
    files: Seq<FileView>,
    options: ValidationOptions,
    events: Seq<ReplayView>,
)
    requires
        validation(manifest, files, options, Ok(events)),
    ensures
        manifest.schema_version == 1,
        configuration_digest(manifest.configuration) == manifest.configuration_sha256,
        manifest.capture_status == CaptureStatus::Complete || options.allow_incomplete,
        files_listed(manifest.segments, files),
        forall|i: int|
            0 <= i < manifest.segments.len() ==> segment_in_order(
                manifest,
                i,
                file_bytes(files, (#[trigger] manifest.segments[i]).filename),
            ),
        forall|i: int|
            0 <= i < events.len() ==> (#[trigger] events[i]).capture_sequence == i + 1,
{
    let contents = segment_contents(manifest.segments, files);
    lemma_missing_found(manifest.segments, files);
    lemma_unlisted_found(manifest.segments, files);
    lemma_segments_in_order(manifest, contents, manifest.segments.len(), events);
    lemma_validated_sequences(manifest, contents, manifest.segments.len(), events);
    assert forall|i: int| 0 <= i < manifest.segments.len() implies segment_in_order(
        manifest,
        i,
        file_bytes(files, (#[trigger] manifest.segments[i]).filename),
    ) by {
        assert(contents[i] == file_bytes(files, manifest.segments[i].filename));
    }
}

} // verus!
