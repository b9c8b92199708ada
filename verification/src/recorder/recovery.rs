//! Recovery of segments that a crash left open.
use vstd::prelude::*;

use crate::bytes::le_value;
use crate::hashing::{sha256, sha256_of};
use crate::recorder::dto::{StoredEventV1, StoredEventView};
use crate::recorder::format::{
    header_bytes, header_error, lemma_header_round_trip, lemma_record_prefix,
    lemma_record_round_trip, read_header, read_record, record_bytes, record_reading, uuid_text,
    CaptureId, HeaderError, RecordErrorView, SegmentHeader, HEADER_LENGTH,
};
use crate::recorder::reader::{
    events_reading, expected_after, file_has_extension, has_extension, lemma_events_step,
    lemma_record_end, lemma_recordable_rest, mismatch, mismatch_text, prefixed, recordable,
    records_bytes, segment_bytes, segment_reading, SegmentErrorView,
};
use crate::recorder::writer::{
    lemma_log_name, log_name, unix_millis, unix_millis_value, ClosedSegment, FinalizedSegment,
    FinalizedView, SegmentCompletion, WallTime,
};

verus! {

/// The records from `offset` on that are whole and in sequence, each with the offset
/// behind it; whatever stands behind the first that is not is left out.
#[verifier::opaque]
pub open spec fn valid_records(bytes: Seq<u8>, offset: nat, expected: Option<u64>) -> Seq<
    (StoredEventView, nat),
>
    decreases bytes.len() - offset,
{
    match record_reading(bytes, offset) {
        Ok(Some((event, end))) => if event.capture_sequence == 0 || (expected is Some
            && expected->Some_0 != event.capture_sequence) {
            Seq::empty()
        } else if event.capture_sequence == u64::MAX || end <= offset || end > bytes.len() {
            seq![(event, end)]
        } else {
            seq![(event, end)] + valid_records(
                bytes,
                end,
                Some((event.capture_sequence + 1) as u64),
            )
        },
        _ => Seq::empty(),
    }
}

/// The valid records of a whole segment.
pub open spec fn recoverable(bytes: Seq<u8>) -> Seq<(StoredEventView, nat)> {
    valid_records(bytes, HEADER_LENGTH as nat, None)
}

/// Where the valid part of a segment ends.
pub open spec fn valid_end(records: Seq<(StoredEventView, nat)>) -> nat {
    if records.len() == 0 {
        HEADER_LENGTH as nat
    } else {
        records.last().1
    }
}

/// What recovery made of a segment.
#[derive(Debug, Eq, PartialEq)]
pub enum RecoveryOutcome {
    Finalized { segment: FinalizedSegment, truncated_bytes: u64 },
    DiscardedEmpty { segment_index: u32, truncated_bytes: u64 },
}

/// The model of `RecoveryOutcome`.
pub enum RecoveryView {
    Finalized { segment: FinalizedView, truncated_bytes: u64 },
    DiscardedEmpty { segment_index: u32, truncated_bytes: u64 },
}

impl View for RecoveryOutcome {
    type V = RecoveryView;

    open spec fn view(&self) -> RecoveryView {
        match *self {
            RecoveryOutcome::Finalized { segment, truncated_bytes } => RecoveryView::Finalized {
                segment: segment@,
                truncated_bytes,
            },
            RecoveryOutcome::DiscardedEmpty { segment_index, truncated_bytes } =>
                RecoveryView::DiscardedEmpty { segment_index, truncated_bytes },
        }
    }
}

impl RecoveryOutcome {
    /// How many bytes of the open segment are kept; the rest is cut off.
    pub fn kept_bytes(&self) -> (bytes: u64)
        ensures
            match self@ {
                RecoveryView::Finalized { segment, .. } => bytes == segment.byte_size,
                RecoveryView::DiscardedEmpty { .. } => bytes == HEADER_LENGTH,
            },
    {
        match self {
            RecoveryOutcome::Finalized { segment, .. } => segment.byte_size,
            RecoveryOutcome::DiscardedEmpty { .. } => HEADER_LENGTH as u64,
        }
    }
}

/// Why a segment cannot be recovered.
#[allow(inconsistent_fields)]
#[derive(Debug, Eq, PartialEq)]
pub enum RecoveryError {
    NotOpenSegment,
    /// The segment ends inside its header.
    UnexpectedEnd,
    InvalidHeader(String),
    CaptureIdMismatch { expected: CaptureId, actual: CaptureId },
    SegmentIndexMismatch { expected: u32, actual: u32 },
    FinalizedTargetExists(String),
    TimeBeforeUnixEpoch,
}

/// The model of `RecoveryError`.
#[allow(inconsistent_fields)]
pub enum RecoveryErrorView {
    NotOpenSegment,
    UnexpectedEnd,
    InvalidHeader(Seq<char>),
    CaptureIdMismatch { expected: Seq<u8>, actual: Seq<u8> },
    SegmentIndexMismatch { expected: u32, actual: u32 },
    FinalizedTargetExists(Seq<char>),
    TimeBeforeUnixEpoch,
}

impl View for RecoveryError {
    type V = RecoveryErrorView;

    open spec fn view(&self) -> RecoveryErrorView {
        match *self {
            RecoveryError::NotOpenSegment => RecoveryErrorView::NotOpenSegment,
            RecoveryError::UnexpectedEnd => RecoveryErrorView::UnexpectedEnd,
            RecoveryError::InvalidHeader(detail) => RecoveryErrorView::InvalidHeader(detail@),
            RecoveryError::CaptureIdMismatch { expected, actual } =>
                RecoveryErrorView::CaptureIdMismatch {
                    expected: expected.bytes@,
                    actual: actual.bytes@,
                },
            RecoveryError::SegmentIndexMismatch { expected, actual } =>
                RecoveryErrorView::SegmentIndexMismatch { expected, actual },
            RecoveryError::FinalizedTargetExists(filename) =>
                RecoveryErrorView::FinalizedTargetExists(filename@),
            RecoveryError::TimeBeforeUnixEpoch => RecoveryErrorView::TimeBeforeUnixEpoch,
        }
    }
}

/// What recovery makes of the bytes of an open segment.
pub open spec fn recovery(
    filename: Seq<char>,
    bytes: Seq<u8>,
    capture_id: Seq<u8>,
    segment_index: u32,
    recovered_at: WallTime,
) -> Result<RecoveryView, RecoveryErrorView> {
    let actual_index = le_value(bytes.subrange(28, 32)) as u32;
    let records = recoverable(bytes);
    let end = valid_end(records);
    if !has_extension(filename, "open"@) {
        Err(RecoveryErrorView::NotOpenSegment)
    } else if header_error(bytes) is Some {
        Err(
            match header_error(bytes)->Some_0 {
                HeaderError::UnexpectedEnd => RecoveryErrorView::UnexpectedEnd,
                error => RecoveryErrorView::InvalidHeader(error.message()),
            },
        )
    } else if bytes.subrange(12, 28) != capture_id {
        Err(
            RecoveryErrorView::CaptureIdMismatch {
                expected: capture_id,
                actual: bytes.subrange(12, 28),
            },
        )
    } else if actual_index != segment_index {
        Err(
            RecoveryErrorView::SegmentIndexMismatch {
                expected: segment_index,
                actual: actual_index,
            },
        )
    } else if unix_millis_value(recovered_at) is None {
        Err(RecoveryErrorView::TimeBeforeUnixEpoch)
    } else if records.len() == 0 {
        Ok(
            RecoveryView::DiscardedEmpty {
                segment_index,
                truncated_bytes: (bytes.len() - HEADER_LENGTH) as u64,
            },
        )
    } else {
        Ok(
            RecoveryView::Finalized {
                segment: FinalizedView {
                    index: segment_index,
                    filename: log_name(segment_index),
                    first_capture_sequence: records[0].0.capture_sequence,
                    last_capture_sequence: records.last().0.capture_sequence,
                    record_count: records.len() as u64,
                    byte_size: end as u64,
                    sha256: sha256(bytes.take(end as int)),
                    started_at_unix_millis: le_value(bytes.subrange(32, 40)) as u64,
                    ended_at_unix_millis: unix_millis_value(recovered_at)->Some_0,
                    completion: SegmentCompletion::RecoveredAfterCrash,
                },
                truncated_bytes: (bytes.len() - end) as u64,
            },
        )
    }
}

/// What a scan of an open segment found.
struct Scan {
    first_sequence: Option<u64>,
    last_sequence: u64,
    record_count: u64,
    last_valid_offset: usize,
}

/// Whether a scan describes the given records.
spec fn describes(scan: Scan, records: Seq<(StoredEventView, nat)>) -> bool {
    &&& scan.record_count == records.len()
    &&& scan.last_valid_offset == valid_end(records)
    &&& match scan.first_sequence {
        None => records.len() == 0,
        Some(first) => {
            &&& records.len() > 0
            &&& first == records[0].0.capture_sequence
            &&& scan.last_sequence == records.last().0.capture_sequence
        },
    }
}

fn scan_records(bytes: &[u8]) -> (scan: Scan)
    requires
        bytes@.len() >= HEADER_LENGTH,
    ensures
        describes(scan, recoverable(bytes@)),
        scan.last_valid_offset <= bytes@.len(),
{
    let mut scan: Scan = Scan {
        first_sequence: None,
        last_sequence: 0,
        record_count: 0,
        last_valid_offset: HEADER_LENGTH,
    };
    let mut expected_sequence: Option<u64> = None;
    let ghost mut found: Seq<(StoredEventView, nat)> = Seq::empty();
    assert(found + recoverable(bytes@) =~= recoverable(bytes@));
    loop
        invariant
            scan.last_valid_offset <= bytes.len(),
            scan.record_count <= scan.last_valid_offset,
            describes(scan, found),
            found + valid_records(bytes@, scan.last_valid_offset as nat, expected_sequence)
                == recoverable(bytes@),
        decreases bytes.len() - scan.last_valid_offset,
    {
        let offset: usize = scan.last_valid_offset;
        proof {
            reveal(valid_records);
            lemma_record_end(bytes@, offset as nat);
        }
        let (event, end): (StoredEventV1, usize) = match read_record(bytes, offset) {
            Ok(Some(record)) => record,
            _ => {
                assert(found + Seq::<(StoredEventView, nat)>::empty() =~= found);
                return scan;
            },
        };
        let sequence: u64 = event.capture_sequence();
        let expected: bool = match expected_sequence {
            Some(expected) => expected == sequence,
            None => true,
        };
        if sequence == 0 || !expected {
            assert(found + Seq::<(StoredEventView, nat)>::empty() =~= found);
            return scan;
        }
        let ghost before = found;
        proof {
            found = found.push((event@, end as nat));
        }
        if scan.first_sequence.is_none() {
            scan.first_sequence = Some(sequence);
        }
        scan.last_sequence = sequence;
        scan.record_count = scan.record_count + 1;
        scan.last_valid_offset = end;
        proof {
            assert(before + seq![(event@, end as nat)] =~= found);
        }
        if sequence == u64::MAX {
            return scan;
        }
        proof {
            let more = valid_records(bytes@, end as nat, Some((sequence + 1) as u64));
            assert(before + (seq![(event@, end as nat)] + more) =~= found + more);
        }
        expected_sequence = Some(sequence + 1);
    }
}

/// Decides what recovery makes of an open segment of the given run and index: the
/// valid records in front are kept, everything behind them is cut off.
pub fn recover_open_segment(
    filename: &str,
    bytes: &[u8],
    expected_capture_id: CaptureId,
    expected_segment_index: u32,
    recovered_at: WallTime,
) -> (result: Result<RecoveryOutcome, RecoveryError>)
    ensures
        match result {
            Ok(outcome) => recovery(
                filename@,
                bytes@,
                expected_capture_id.bytes@,
                expected_segment_index,
                recovered_at,
            ) == Ok::<RecoveryView, RecoveryErrorView>(outcome@),
            Err(error) => recovery(
                filename@,
                bytes@,
                expected_capture_id.bytes@,
                expected_segment_index,
                recovered_at,
            ) == Err::<RecoveryView, RecoveryErrorView>(error@),
        },
{
    if !file_has_extension(filename, "open") {
        return Err(RecoveryError::NotOpenSegment);
    }
    let header: SegmentHeader = match read_header(bytes) {
        Ok(header) => header,
        Err(error) => return Err(
            match error {
                HeaderError::UnexpectedEnd => RecoveryError::UnexpectedEnd,
                other => RecoveryError::InvalidHeader(other.to_text()),
            },
        ),
    };
    if !header.capture_id.same(&expected_capture_id) {
        return Err(
            RecoveryError::CaptureIdMismatch {
                expected: expected_capture_id,
                actual: header.capture_id,
            },
        );
    }
    if header.segment_index != expected_segment_index {
        return Err(
            RecoveryError::SegmentIndexMismatch {
                expected: expected_segment_index,
                actual: header.segment_index,
            },
        );
    }
    let ended_at_unix_millis: u64 = match unix_millis(recovered_at) {
        Ok(millis) => millis,
        Err(_) => return Err(RecoveryError::TimeBeforeUnixEpoch),
    };
    let scan: Scan = scan_records(bytes);
    let first_capture_sequence: u64 = match scan.first_sequence {
        Some(first) => first,
        None => return Ok(
            RecoveryOutcome::DiscardedEmpty {
                segment_index: header.segment_index,
                truncated_bytes: (bytes.len() - HEADER_LENGTH) as u64,
            },
        ),
    };
    let kept: &[u8] = vstd::slice::slice_subrange(bytes, 0, scan.last_valid_offset);
    assert(kept@ =~= bytes@.take(scan.last_valid_offset as int));
    let closed: ClosedSegment = ClosedSegment {
        index: header.segment_index,
        first_capture_sequence,
        last_capture_sequence: scan.last_sequence,
        record_count: scan.record_count,
        byte_size: scan.last_valid_offset as u64,
        started_at_unix_millis: header.created_at_unix_millis,
        ended_at_unix_millis,
        completion: SegmentCompletion::RecoveredAfterCrash,
    };
    Ok(
        RecoveryOutcome::Finalized {
            segment: closed.finalize(sha256_of(kept)),
            truncated_bytes: (bytes.len() - scan.last_valid_offset) as u64,
        },
    )
}

/// Refuses to publish a recovered segment where a finalized one already stands.
pub fn publish_recovered(outcome: RecoveryOutcome, target_exists: bool) -> (result: Result<
    RecoveryOutcome,
    RecoveryError,
>)
    ensures
        match (outcome@, target_exists) {
            (RecoveryView::Finalized { segment, .. }, true) => result is Err && result->Err_0@
                == RecoveryErrorView::FinalizedTargetExists(segment.filename),
            _ => result is Ok && result->Ok_0@ == outcome@,
        },
{
    match outcome {
        RecoveryOutcome::Finalized { segment, truncated_bytes } => {
            if target_exists {
                Err(RecoveryError::FinalizedTargetExists(segment.filename))
            } else {
                Ok(RecoveryOutcome::Finalized { segment, truncated_bytes })
            }
        },
        other => Ok(other),
    }
}

/// Events with the offsets behind their records, when the first record stands at
/// `offset`.
pub open spec fn with_ends(events: Seq<StoredEventView>, offset: nat) -> Seq<
    (StoredEventView, nat),
>
    decreases events.len(),
{
    if events.len() == 0 {
        Seq::empty()
    } else {
        let end = offset + record_bytes(events[0]).len();
        seq![(events[0], end)] + with_ends(events.skip(1), end)
    }
}

proof fn lemma_with_ends(events: Seq<StoredEventView>, offset: nat)
    ensures
        with_ends(events, offset).len() == events.len(),
        events.len() > 0 ==> with_ends(events, offset)[0].0 == events[0],
        events.len() > 0 ==> with_ends(events, offset).last() == (
            events.last(),
            offset + records_bytes(events).len(),
        ),
    decreases events.len(),
{
    if events.len() > 0 {
        let end = offset + record_bytes(events[0]).len();
        lemma_with_ends(events.skip(1), end);
        if events.len() == 1 {
            assert(records_bytes(events.skip(1)) =~= Seq::<u8>::empty());
        }
    }
}

proof fn lemma_records_found(
    before: Seq<u8>,
    events: Seq<StoredEventView>,
    tail: Seq<u8>,
    expected: Option<u64>,
)
    requires
        recordable(events),
        expected is Some && events.len() > 0 ==> expected->Some_0 == events[0].capture_sequence,
    ensures
        valid_records(before + records_bytes(events) + tail, before.len(), expected) == with_ends(
            events,
            before.len(),
        ) + valid_records(
            before + records_bytes(events) + tail,
            (before + records_bytes(events)).len(),
            expected_after(events, expected),
        ),
    decreases events.len(),
{
    let bytes = before + records_bytes(events) + tail;
    if events.len() == 0 {
        assert(before + records_bytes(events) =~= before);
        let found = valid_records(bytes, before.len(), expected);
        assert(with_ends(events, before.len()) + found =~= found);
    } else {
        let record = record_bytes(events[0]);
        let rest = records_bytes(events.skip(1));
        let next = Some((events[0].capture_sequence + 1) as u64);
        assert(bytes =~= before + record + (rest + tail));
        assert(bytes =~= (before + record) + rest + tail);
        lemma_record_round_trip(before, events[0], rest + tail);
        lemma_valid_step(bytes, before.len(), expected, events[0], (before + record).len());
        lemma_recordable_rest(events);
        lemma_records_found(before + record, events.skip(1), tail, next);
        if events.len() > 1 {
            assert(events.skip(1).last() == events.last());
        }
        assert((before + record) + rest =~= before + records_bytes(events));
        let more = valid_records(
            bytes,
            (before + records_bytes(events)).len(),
            expected_after(events, expected),
        );
        let first = seq![(events[0], (before + record).len())];
        let others = with_ends(events.skip(1), (before + record).len());
        assert(first + (others + more) =~= (first + others) + more);
    }
}

proof fn lemma_valid_step(
    bytes: Seq<u8>,
    offset: nat,
    expected: Option<u64>,
    event: StoredEventView,
    end: nat,
)
    requires
        record_reading(bytes, offset) == Ok::<Option<(StoredEventView, nat)>, RecordErrorView>(
            Some((event, end)),
        ),
        offset < end <= bytes.len(),
        0 < event.capture_sequence < u64::MAX,
        expected is Some ==> expected->Some_0 == event.capture_sequence,
    ensures
        valid_records(bytes, offset, expected) == seq![(event, end)] + valid_records(
            bytes,
            end,
            Some((event.capture_sequence + 1) as u64),
        ),
{
    reveal(valid_records);
}

/// Recovery keeps every event that was written whole: of a segment with a tail that does not
/// start with the next record, be it torn, damaged or out of sequence, exactly the events in
/// front of the tail remain, and exactly the tail is cut off.
pub proof fn lemma_recovery_keeps_written_events(
    header: SegmentHeader,
    events: Seq<StoredEventView>,
    tail: Seq<u8>,
)
    requires
        recordable(events),
        ({
            let whole = segment_bytes(header, events);
            let next = record_reading(whole + tail, whole.len());
            next matches Ok(Some((event, _))) ==> {
                ||| event.capture_sequence == 0
                ||| expected_after(events, None) matches Some(number) && number
                    != event.capture_sequence
            }
        }),
    ensures
        recoverable(segment_bytes(header, events) + tail).len() == events.len(),
        valid_end(recoverable(segment_bytes(header, events) + tail)) == segment_bytes(
            header,
            events,
        ).len(),
        recoverable(segment_bytes(header, events) + tail) == with_ends(
            events,
            HEADER_LENGTH as nat,
        ),
{
    let whole = segment_bytes(header, events);
    lemma_header_round_trip(header, Seq::empty());
    lemma_records_found(header_bytes(header), events, tail, None);
    lemma_with_ends(events, HEADER_LENGTH as nat);
    assert(valid_records(whole + tail, whole.len(), expected_after(events, None))
        =~= Seq::empty()) by {
        reveal(valid_records);
    }
    let ends = with_ends(events, HEADER_LENGTH as nat);
    assert(ends + Seq::<(StoredEventView, nat)>::empty() =~= ends);
    if events.len() == 0 {
        assert(records_bytes(events) =~= Seq::<u8>::empty());
        assert(whole =~= header_bytes(header));
    }
}

proof fn lemma_valid_ends(bytes: Seq<u8>, offset: nat, expected: Option<u64>)
    requires
        offset <= bytes.len(),
    ensures
        ({
            let records = valid_records(bytes, offset, expected);
            records.len() > 0 ==> offset < records[0].1 <= records.last().1 <= bytes.len()
        }),
    decreases bytes.len() - offset,
{
    reveal(valid_records);
    lemma_record_end(bytes, offset);
    match record_reading(bytes, offset) {
        Ok(Some((event, end))) => {
            let next = Some((event.capture_sequence + 1) as u64);
            lemma_valid_ends(bytes, end, next);
        },
        _ => {},
    }
}

/// The valid part of a segment is part of it.
pub proof fn lemma_valid_end_within(bytes: Seq<u8>)
    requires
        bytes.len() >= HEADER_LENGTH,
    ensures
        HEADER_LENGTH <= valid_end(recoverable(bytes)) <= bytes.len(),
{
    lemma_valid_ends(bytes, HEADER_LENGTH as nat, None);
}

/// The events of records, without their offsets.
pub open spec fn events_of(records: Seq<(StoredEventView, nat)>) -> Seq<StoredEventView> {
    records.map_values(|record: (StoredEventView, nat)| record.0)
}

proof fn lemma_kept_records_read_back(
    bytes: Seq<u8>,
    offset: nat,
    expected: Option<u64>,
    cut: nat,
)
    requires
        offset <= cut <= bytes.len(),
        ({
            let records = valid_records(bytes, offset, expected);
            &&& records.len() == 0 ==> cut == offset
            &&& records.len() > 0 ==> cut == records.last().1
            &&& records.len() > 0 ==> records.last().0.capture_sequence < u64::MAX
        }),
    ensures
        events_reading(bytes.take(cut as int), offset, expected) == Ok::<
            Seq<StoredEventView>,
            SegmentErrorView,
        >(events_of(valid_records(bytes, offset, expected))),
    decreases bytes.len() - offset,
{
    let records = valid_records(bytes, offset, expected);
    let short = bytes.take(cut as int);
    lemma_valid_ends(bytes, offset, expected);
    if records.len() == 0 {
        reveal(events_reading);
        assert(events_of(records) =~= Seq::<StoredEventView>::empty());
    } else {
        lemma_record_end(bytes, offset);
        assert(record_reading(bytes, offset) is Ok && record_reading(bytes, offset)->Ok_0 is Some)
            by {
            reveal(valid_records);
        }
        let (event, end) = record_reading(bytes, offset)->Ok_0->Some_0;
        let next = Some((event.capture_sequence + 1) as u64);
        let more = valid_records(bytes, end, next);
        assert(records[0] == (event, end)) by {
            reveal(valid_records);
        }
        lemma_valid_ends(bytes, end, next);
        lemma_record_prefix(bytes, offset, cut);
        assert(0 < event.capture_sequence) by {
            reveal(valid_records);
        }
        assert(expected is Some ==> expected->Some_0 == event.capture_sequence) by {
            reveal(valid_records);
        }
        if event.capture_sequence == u64::MAX {
            assert(records =~= seq![(event, end)]) by {
                reveal(valid_records);
            }
        } else {
            lemma_valid_step(bytes, offset, expected, event, end);
            if more.len() == 0 {
                assert(records.last() == (event, end));
            } else {
                assert(records.last() == more.last());
            }
            lemma_kept_records_read_back(bytes, end, next, cut);
            lemma_events_step(short, offset, expected, event, end);
            assert(seq![event] + events_of(more) =~= events_of(records));
        }
    }
}

/// What recovery keeps of a segment is a finalized segment that can be read: the same
/// events, and nothing of what was cut off. The highest sequence number of all is left
/// out, as a finalized segment may not hold it.
pub proof fn lemma_recovered_segment_reads_back(
    bytes: Seq<u8>,
    capture_id: Seq<u8>,
    segment_index: u32,
)
    requires
        header_error(bytes) is None,
        bytes.subrange(12, 28) == capture_id,
        le_value(bytes.subrange(28, 32)) == segment_index,
        recoverable(bytes).len() > 0,
        recoverable(bytes).last().0.capture_sequence < u64::MAX,
    ensures
        segment_reading(
            log_name(segment_index),
            bytes.take(valid_end(recoverable(bytes)) as int),
            capture_id,
            segment_index,
        ) == Ok::<Seq<StoredEventView>, SegmentErrorView>(events_of(recoverable(bytes))),
{
    let end = valid_end(recoverable(bytes));
    let short = bytes.take(end as int);
    lemma_log_name(segment_index);
    lemma_valid_ends(bytes, HEADER_LENGTH as nat, None);
    lemma_kept_records_read_back(bytes, HEADER_LENGTH as nat, None, end);
    assert(short.take(8) =~= bytes.take(8));
    assert(short.subrange(8, 10) =~= bytes.subrange(8, 10));
    assert(short.subrange(10, 12) =~= bytes.subrange(10, 12));
    assert(short.subrange(12, 28) =~= bytes.subrange(12, 28));
    assert(short.subrange(28, 32) =~= bytes.subrange(28, 32));
}

impl RecoveryErrorView {
    /// The rendering of the error.
    pub open spec fn message(self) -> Seq<char> {
        match self {
            RecoveryErrorView::NotOpenSegment => "recovery accepts only .open segments"@,
            RecoveryErrorView::UnexpectedEnd =>
                "segment recovery I/O failed: failed to fill whole buffer"@,
            RecoveryErrorView::InvalidHeader(detail) => "invalid segment header: "@ + detail,
            RecoveryErrorView::CaptureIdMismatch { expected, actual } =>
                "segment Capture Run mismatch: expected "@ + uuid_text(expected) + ", received "@
                    + uuid_text(actual),
            RecoveryErrorView::SegmentIndexMismatch { expected, actual } => mismatch(
                "segment index mismatch: expected "@,
                expected as nat,
                actual as nat,
            ),
            RecoveryErrorView::FinalizedTargetExists(filename) =>
                "recovery target already exists: "@ + filename,
            RecoveryErrorView::TimeBeforeUnixEpoch =>
                "recovery time is outside the supported UTC range"@,
        }
    }
}

impl RecoveryError {
    pub fn to_text(&self) -> (text: String)
        ensures
            text@ == self@.message(),
    {
        match self {
            RecoveryError::NotOpenSegment => "recovery accepts only .open segments".to_owned(),
            RecoveryError::UnexpectedEnd =>
                "segment recovery I/O failed: failed to fill whole buffer".to_owned(),
            RecoveryError::InvalidHeader(detail) => prefixed(
                "invalid segment header: ",
                detail.as_str(),
            ),
            RecoveryError::CaptureIdMismatch { expected, actual } => {
                let mut text: String = "segment Capture Run mismatch: expected ".to_owned();
                text.append(expected.to_text().as_str());
                text.append(", received ");
                text.append(actual.to_text().as_str());
                text
            },
            RecoveryError::SegmentIndexMismatch { expected, actual } => mismatch_text(
                "segment index mismatch: expected ",
                *expected as u64,
                *actual as u64,
            ),
            RecoveryError::FinalizedTargetExists(filename) => prefixed(
                "recovery target already exists: ",
                filename.as_str(),
            ),
            RecoveryError::TimeBeforeUnixEpoch =>
                "recovery time is outside the supported UTC range".to_owned(),
        }
    }
}

} // verus!
