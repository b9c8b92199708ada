//! Reading finalized segments.
use vstd::prelude::*;

use crate::bytes::{le_value, lemma_concat_associates};
use crate::hashing::{sha256, sha256_of};
use crate::recorder::dto::{StoredEventV1, StoredEventView};
use crate::recorder::format::{
    header_bytes, header_error, lemma_header_round_trip, lemma_record_round_trip, read_header,
    read_record, record_bytes, record_reading, states_header, uuid_text, CaptureId, HeaderError,
    RecordErrorView, SegmentHeader, HEADER_LENGTH,
};
use crate::recorder::payload::{encodable, event_encoding};
use crate::text::{chars_of, decimal, decimal_text};

verus! {

/// Whether a file name has the given extension: the part behind its last dot, which
/// is not its first character.
pub open spec fn has_extension(filename: Seq<char>, extension: Seq<char>) -> bool {
    &&& filename.len() > extension.len() + 1
    &&& filename.skip(filename.len() - extension.len()) == extension
    &&& filename[filename.len() - extension.len() - 1] == '.'
}

/// Whether a file name has an extension without dots.
pub fn file_has_extension(filename: &str, extension: &str) -> (r: bool)
    ensures
        r == has_extension(filename@, extension@),
{
    let name: Vec<char> = chars_of(filename);
    let wanted: Vec<char> = chars_of(extension);
    if name.len() <= wanted.len() || name.len() - wanted.len() <= 1 {
        return false;
    }
    let start: usize = name.len() - wanted.len();
    if name[start - 1] != '.' {
        return false;
    }
    let mut i: usize = 0;
    while i < wanted.len()
        invariant
            i <= wanted.len(),
            start + wanted.len() == name.len(),
            name@ == filename@,
            wanted@ == extension@,
            forall|j: int| 0 <= j < i ==> name@[start + j] == wanted@[j],
        decreases wanted.len() - i,
    {
        if name[start + i] != wanted[i] {
            assert(filename@.skip(start as int)[i as int] != extension@[i as int]);
            return false;
        }
        i = i + 1;
    }
    assert(filename@.skip(start as int) =~= extension@);
    true
}

/// Whether a file name is that of a finalized segment.
pub fn ensure_log_extension(filename: &str) -> (r: bool)
    ensures
        r == has_extension(filename@, "log"@),
{
    file_has_extension(filename, "log")
}

/// A finalized segment that was read.
#[derive(Debug, Eq, PartialEq)]
pub struct ReadSegment {
    pub capture_id: CaptureId,
    pub segment_index: u32,
    pub created_at_unix_millis: u64,
    pub byte_size: u64,
    pub sha256: [u8; 32],
    pub events: Vec<StoredEventV1>,
}

/// The models of stored events.
pub open spec fn event_views(events: Seq<StoredEventV1>) -> Seq<StoredEventView> {
    events.map_values(|event: StoredEventV1| event@)
}

/// Why a segment cannot be read.
#[allow(inconsistent_fields)]
#[derive(Debug, Eq, PartialEq)]
pub enum SegmentReadError {
    NotFinalizedLog,
    /// The segment ends inside its header.
    UnexpectedEnd,
    InvalidHeader(String),
    CaptureIdMismatch { expected: CaptureId, actual: CaptureId },
    SegmentIndexMismatch { expected: u32, actual: u32 },
    CorruptRecord(String),
    ZeroCaptureSequence,
    SequenceMismatch { expected: u64, actual: u64 },
    SequenceOverflow,
    EmptySegment,
}

/// The model of `SegmentReadError`.
#[allow(inconsistent_fields)]
pub enum SegmentErrorView {
    NotFinalizedLog,
    UnexpectedEnd,
    InvalidHeader(Seq<char>),
    CaptureIdMismatch { expected: Seq<u8>, actual: Seq<u8> },
    SegmentIndexMismatch { expected: u32, actual: u32 },
    CorruptRecord(Seq<char>),
    ZeroCaptureSequence,
    SequenceMismatch { expected: u64, actual: u64 },
    SequenceOverflow,
    EmptySegment,
}

impl View for SegmentReadError {
    type V = SegmentErrorView;

    open spec fn view(&self) -> SegmentErrorView {
        match *self {
            SegmentReadError::NotFinalizedLog => SegmentErrorView::NotFinalizedLog,
            SegmentReadError::UnexpectedEnd => SegmentErrorView::UnexpectedEnd,
            SegmentReadError::InvalidHeader(detail) => SegmentErrorView::InvalidHeader(detail@),
            SegmentReadError::CaptureIdMismatch { expected, actual } =>
                SegmentErrorView::CaptureIdMismatch {
                    expected: expected.bytes@,
                    actual: actual.bytes@,
                },
            SegmentReadError::SegmentIndexMismatch { expected, actual } =>
                SegmentErrorView::SegmentIndexMismatch { expected, actual },
            SegmentReadError::CorruptRecord(detail) => SegmentErrorView::CorruptRecord(detail@),
            SegmentReadError::ZeroCaptureSequence => SegmentErrorView::ZeroCaptureSequence,
            SegmentReadError::SequenceMismatch { expected, actual } =>
                SegmentErrorView::SequenceMismatch { expected, actual },
            SegmentReadError::SequenceOverflow => SegmentErrorView::SequenceOverflow,
            SegmentReadError::EmptySegment => SegmentErrorView::EmptySegment,
        }
    }
}

/// The error of an unreadable header.
pub open spec fn header_read_error(error: HeaderError) -> SegmentErrorView {
    match error {
        HeaderError::UnexpectedEnd => SegmentErrorView::UnexpectedEnd,
        _ => SegmentErrorView::InvalidHeader(error.message()),
    }
}

/// The events from `offset` on, of which the first must have the sequence number
/// `expected` if there is one and every other the number behind its predecessor's.
#[verifier::opaque]
pub open spec fn events_reading(bytes: Seq<u8>, offset: nat, expected: Option<u64>) -> Result<
    Seq<StoredEventView>,
    SegmentErrorView,
>
    decreases bytes.len() - offset,
{
    match record_reading(bytes, offset) {
        Err(error) => Err(SegmentErrorView::CorruptRecord(error.message())),
        Ok(None) => Ok(Seq::empty()),
        Ok(Some((event, end))) => if event.capture_sequence == 0 {
            Err(SegmentErrorView::ZeroCaptureSequence)
        } else if expected is Some && expected->Some_0 != event.capture_sequence {
            Err(
                SegmentErrorView::SequenceMismatch {
                    expected: expected->Some_0,
                    actual: event.capture_sequence,
                },
            )
        } else if event.capture_sequence == u64::MAX {
            Err(SegmentErrorView::SequenceOverflow)
        } else if end <= offset || end > bytes.len() {
            Ok(Seq::empty())
        } else {
            match events_reading(bytes, end, Some((event.capture_sequence + 1) as u64)) {
                Ok(more) => Ok(seq![event] + more),
                Err(error) => Err(error),
            }
        },
    }
}

/// The events of a segment, or why it cannot be read.
pub open spec fn segment_reading(
    filename: Seq<char>,
    bytes: Seq<u8>,
    capture_id: Seq<u8>,
    segment_index: u32,
) -> Result<Seq<StoredEventView>, SegmentErrorView> {
    let actual_index = le_value(bytes.subrange(28, 32)) as u32;
    if !has_extension(filename, "log"@) {
        Err(SegmentErrorView::NotFinalizedLog)
    } else if header_error(bytes) is Some {
        Err(header_read_error(header_error(bytes)->Some_0))
    } else if bytes.subrange(12, 28) != capture_id {
        Err(
            SegmentErrorView::CaptureIdMismatch {
                expected: capture_id,
                actual: bytes.subrange(12, 28),
            },
        )
    } else if actual_index != segment_index {
        Err(
            SegmentErrorView::SegmentIndexMismatch {
                expected: segment_index,
                actual: actual_index,
            },
        )
    } else {
        match events_reading(bytes, HEADER_LENGTH as nat, None) {
            Err(error) => Err(error),
            Ok(events) => if events.len() == 0 {
                Err(SegmentErrorView::EmptySegment)
            } else {
                Ok(events)
            },
        }
    }
}

fn map_header_error(error: HeaderError) -> (mapped: SegmentReadError)
    ensures
        mapped@ == header_read_error(error),
{
    match error {
        HeaderError::UnexpectedEnd => SegmentReadError::UnexpectedEnd,
        other => SegmentReadError::InvalidHeader(other.to_text()),
    }
}

/// Where a record ends: behind its start, inside the segment.
pub proof fn lemma_record_end(bytes: Seq<u8>, offset: nat)
    requires
        offset <= bytes.len(),
    ensures
        record_reading(bytes, offset) matches Ok(Some((event, end))) ==> offset < end
            <= bytes.len(),
{
}

fn read_events(bytes: &[u8]) -> (result: Result<Vec<StoredEventV1>, SegmentReadError>)
    requires
        bytes@.len() >= HEADER_LENGTH,
    ensures
        match result {
            Ok(events) => events_reading(bytes@, HEADER_LENGTH as nat, None) == Ok::<
                Seq<StoredEventView>,
                SegmentErrorView,
            >(event_views(events@)),
            Err(error) => events_reading(bytes@, HEADER_LENGTH as nat, None) == Err::<
                Seq<StoredEventView>,
                SegmentErrorView,
            >(error@),
        },
{
    let mut events: Vec<StoredEventV1> = Vec::new();
    let mut expected_sequence: Option<u64> = None;
    let mut offset: usize = HEADER_LENGTH;
    let ghost all = events_reading(bytes@, HEADER_LENGTH as nat, None);
    proof {
        if let Ok(read) = all {
            assert(event_views(events@) + read =~= read);
        }
    }
    loop
        invariant
            offset <= bytes.len(),
            all == events_reading(bytes@, HEADER_LENGTH as nat, None),
            all == match events_reading(bytes@, offset as nat, expected_sequence) {
                Ok(more) => Ok(event_views(events@) + more),
                Err(error) => Err(error),
            },
        decreases bytes.len() - offset,
    {
        proof {
            reveal(events_reading);
            lemma_record_end(bytes@, offset as nat);
        }
        let (event, end): (StoredEventV1, usize) = match read_record(bytes, offset) {
            Err(error) => return Err(SegmentReadError::CorruptRecord(error.to_text())),
            Ok(None) => {
                assert(event_views(events@) + Seq::<StoredEventView>::empty() =~= event_views(
                    events@,
                ));
                return Ok(events);
            },
            Ok(Some(record)) => record,
        };
        let sequence: u64 = event.capture_sequence();
        if sequence == 0 {
            return Err(SegmentReadError::ZeroCaptureSequence);
        }
        if let Some(expected) = expected_sequence {
            if sequence != expected {
                return Err(SegmentReadError::SequenceMismatch { expected, actual: sequence });
            }
        }
        if sequence == u64::MAX {
            return Err(SegmentReadError::SequenceOverflow);
        }
        let ghost before = event_views(events@);
        let ghost view = event@;
        events.push(event);
        proof {
            assert(event_views(events@) =~= before.push(view));
            if let Ok(more) = events_reading(bytes@, end as nat, Some((sequence + 1) as u64)) {
                assert(before + (seq![view] + more) =~= event_views(events@) + more);
            }
        }
        expected_sequence = Some(sequence + 1);
        offset = end;
    }
}

/// Reads a finalized segment of the given capture run and index. Nothing of a segment
/// that is damaged anywhere is handed out.
pub fn read_segment(
    filename: &str,
    bytes: &[u8],
    expected_capture_id: CaptureId,
    expected_segment_index: u32,
) -> (result: Result<ReadSegment, SegmentReadError>)
    ensures
        match result {
            Ok(segment) => {
                &&& segment_reading(
                    filename@,
                    bytes@,
                    expected_capture_id.bytes@,
                    expected_segment_index,
                ) == Ok::<Seq<StoredEventView>, SegmentErrorView>(event_views(segment.events@))
                &&& segment.events@.len() > 0
                &&& states_header(
                    bytes@,
                    SegmentHeader {
                        capture_id: segment.capture_id,
                        segment_index: segment.segment_index,
                        created_at_unix_millis: segment.created_at_unix_millis,
                    },
                )
                &&& segment.byte_size == bytes@.len()
                &&& segment.sha256@ == sha256(bytes@)
            },
            Err(error) => segment_reading(
                filename@,
                bytes@,
                expected_capture_id.bytes@,
                expected_segment_index,
            ) == Err::<Seq<StoredEventView>, SegmentErrorView>(error@),
        },
{
    if !ensure_log_extension(filename) {
        return Err(SegmentReadError::NotFinalizedLog);
    }
    let header: SegmentHeader = match read_header(bytes) {
        Ok(header) => header,
        Err(error) => return Err(map_header_error(error)),
    };
    if !header.capture_id.same(&expected_capture_id) {
        return Err(
            SegmentReadError::CaptureIdMismatch {
                expected: expected_capture_id,
                actual: header.capture_id,
            },
        );
    }
    if header.segment_index != expected_segment_index {
        return Err(
            SegmentReadError::SegmentIndexMismatch {
                expected: expected_segment_index,
                actual: header.segment_index,
            },
        );
    }
    let events: Vec<StoredEventV1> = match read_events(bytes) {
        Ok(events) => events,
        Err(error) => return Err(error),
    };
    let sha256: [u8; 32] = sha256_of(bytes);
    if events.len() == 0 {
        return Err(SegmentReadError::EmptySegment);
    }
    Ok(
        ReadSegment {
            capture_id: header.capture_id,
            segment_index: header.segment_index,
            created_at_unix_millis: header.created_at_unix_millis,
            byte_size: bytes.len() as u64,
            sha256,
            events,
        },
    )
}

/// The records of events, one behind the other.
pub open spec fn records_bytes(events: Seq<StoredEventView>) -> Seq<u8>
    decreases events.len(),
{
    if events.len() == 0 {
        Seq::empty()
    } else {
        record_bytes(events[0]) + records_bytes(events.skip(1))
    }
}

/// Appending an event appends its record.
pub proof fn lemma_records_push(events: Seq<StoredEventView>, event: StoredEventView)
    ensures
        records_bytes(events.push(event)) == records_bytes(events) + record_bytes(event),
    decreases events.len(),
{
    if events.len() == 0 {
        assert(events.push(event).skip(1) =~= Seq::empty());
        assert(records_bytes(events.push(event).skip(1)) =~= Seq::empty());
        assert(records_bytes(events.push(event)) =~= records_bytes(events) + record_bytes(event));
    } else {
        lemma_records_push(events.skip(1), event);
        assert(events.push(event).skip(1) =~= events.skip(1).push(event));
        lemma_concat_associates(
            record_bytes(events[0]),
            records_bytes(events.skip(1)),
            record_bytes(event),
        );
    }
}

/// The bytes of a segment with the given header and events.
pub open spec fn segment_bytes(header: SegmentHeader, events: Seq<StoredEventView>) -> Seq<u8> {
    header_bytes(header) + records_bytes(events)
}

/// Whether events can stand in one segment: each fits in a record, and the sequence
/// numbers are contiguous, neither the lowest nor the highest number among them.
pub open spec fn recordable(events: Seq<StoredEventView>) -> bool {
    &&& forall|i: int| 0 <= i < events.len() ==> encodable(#[trigger] events[i])
    &&& forall|i: int|
        0 <= i < events.len() ==> event_encoding(#[trigger] events[i]).len() <= u32::MAX
    &&& forall|i: int| 0 <= i < events.len() ==> 0 < (#[trigger] events[i]).capture_sequence
    &&& forall|i: int|
        0 <= i < events.len() ==> (#[trigger] events[i]).capture_sequence < u64::MAX
    &&& forall|i: int|
        0 <= i < events.len() ==> (#[trigger] events[i]).capture_sequence
            == events[0].capture_sequence + i
}

pub proof fn lemma_recordable_rest(events: Seq<StoredEventView>)
    requires
        recordable(events),
        events.len() > 0,
    ensures
        recordable(events.skip(1)),
        events.len() > 1 ==> events.skip(1)[0].capture_sequence == events[0].capture_sequence + 1,
{
    if events.len() > 1 {
        assert(events.skip(1)[0] == events[1]);
    }
    assert forall|i: int| 0 <= i < events.skip(1).len() implies (
    #[trigger] events.skip(1)[i]).capture_sequence == events.skip(1)[0].capture_sequence + i by {
        assert(events.skip(1)[i] == events[i + 1]);
    }
}

/// The sequence number that must follow events, if any must: that of the last one and
/// one, or what was expected before them.
pub open spec fn expected_after(events: Seq<StoredEventView>, expected: Option<u64>) -> Option<
    u64,
> {
    if events.len() == 0 {
        expected
    } else {
        Some((events.last().capture_sequence + 1) as u64)
    }
}

/// A record in front of further ones is read before them.
pub proof fn lemma_events_step(
    bytes: Seq<u8>,
    offset: nat,
    expected: Option<u64>,
    event: StoredEventView,
    end: nat,
)
    requires
        record_reading(bytes, offset) == Ok::<Option<(StoredEventView, nat)>, RecordErrorView>(
            Some((event, end)),
        ),
        offset < end <= bytes.len(),
        0 < event.capture_sequence < u64::MAX,
        expected is Some ==> expected->Some_0 == event.capture_sequence,
    ensures
        events_reading(bytes, offset, expected) == match events_reading(
            bytes,
            end,
            Some((event.capture_sequence + 1) as u64),
        ) {
            Ok(more) => Ok(seq![event] + more),
            Err(error) => Err(error),
        },
{
    reveal(events_reading);
}

/// Records are read one after the other, then what stands behind them.
pub proof fn lemma_events_read_back(
    before: Seq<u8>,
    events: Seq<StoredEventView>,
    tail: Seq<u8>,
    expected: Option<u64>,
)
    requires
        recordable(events),
        expected is Some && events.len() > 0 ==> expected->Some_0 == events[0].capture_sequence,
    ensures
        events_reading(before + records_bytes(events) + tail, before.len(), expected)
            == match events_reading(
            before + records_bytes(events) + tail,
            (before + records_bytes(events)).len(),
            expected_after(events, expected),
        ) {
            Ok(more) => Ok(events + more),
            Err(error) => Err(error),
        },
    decreases events.len(),
{
    let bytes = before + records_bytes(events) + tail;
    if events.len() == 0 {
        assert(before + records_bytes(events) =~= before);
        if let Ok(more) = events_reading(bytes, before.len(), expected) {
            assert(events + more =~= more);
        }
    } else {
        let record = record_bytes(events[0]);
        let rest = records_bytes(events.skip(1));
        let next = Some((events[0].capture_sequence + 1) as u64);
        assert(bytes =~= before + record + (rest + tail));
        assert(bytes =~= (before + record) + rest + tail);
        lemma_record_round_trip(before, events[0], rest + tail);
        lemma_events_step(bytes, before.len(), expected, events[0], (before + record).len());
        lemma_recordable_rest(events);
        lemma_events_read_back(before + record, events.skip(1), tail, next);
        assert(expected_after(events.skip(1), next) == expected_after(events, expected)) by {
            if events.len() > 1 {
                assert(events.skip(1).last() == events.last());
            }
        }
        assert((before + record) + rest =~= before + records_bytes(events));
        if let Ok(more) = events_reading(
            bytes,
            (before + records_bytes(events)).len(),
            expected_after(events, expected),
        ) {
            assert(seq![events[0]] + (events.skip(1) + more) =~= events + more);
        }
    }
}

/// What was written to a segment is read back: the events, all of them and in their
/// order.
pub proof fn lemma_segment_reads_back(
    filename: Seq<char>,
    header: SegmentHeader,
    events: Seq<StoredEventView>,
)
    requires
        has_extension(filename, "log"@),
        recordable(events),
        events.len() > 0,
    ensures
        segment_reading(
            filename,
            segment_bytes(header, events),
            header.capture_id.bytes@,
            header.segment_index,
        ) == Ok::<Seq<StoredEventView>, SegmentErrorView>(events),
{
    let bytes = segment_bytes(header, events);
    let empty = Seq::<u8>::empty();
    assert(bytes + empty =~= bytes);
    lemma_header_round_trip(header, records_bytes(events));
    lemma_events_read_back(header_bytes(header), events, empty, None);
    reveal(events_reading);
    assert(events + Seq::<StoredEventView>::empty() =~= events);
}

impl SegmentErrorView {
    /// The rendering of the error.
    pub open spec fn message(self) -> Seq<char> {
        match self {
            SegmentErrorView::NotFinalizedLog => "replay accepts only finalized .log files"@,
            SegmentErrorView::UnexpectedEnd => "segment read failed: failed to fill whole buffer"@,
            SegmentErrorView::InvalidHeader(detail) => "invalid segment header: "@ + detail,
            SegmentErrorView::CaptureIdMismatch { expected, actual } =>
                "segment Capture Run mismatch: expected "@ + uuid_text(expected) + ", received "@
                    + uuid_text(actual),
            SegmentErrorView::SegmentIndexMismatch { expected, actual } =>
                "segment index mismatch: expected "@ + decimal(expected as nat) + ", received "@
                    + decimal(actual as nat),
            SegmentErrorView::CorruptRecord(detail) => "corrupt segment record: "@ + detail,
            SegmentErrorView::ZeroCaptureSequence => "Capture Sequence must start at one"@,
            SegmentErrorView::SequenceMismatch { expected, actual } =>
                "non-contiguous Capture Sequence: expected "@ + decimal(expected as nat)
                    + ", received "@ + decimal(actual as nat),
            SegmentErrorView::SequenceOverflow => "Capture Sequence overflow"@,
            SegmentErrorView::EmptySegment => "finalized segment contains no records"@,
        }
    }
}

/// `expected a, received b` behind a text.
pub open spec fn mismatch(text: Seq<char>, expected: nat, actual: nat) -> Seq<char> {
    text + decimal(expected) + ", received "@ + decimal(actual)
}

/// Renders a mismatch of two numbers.
pub fn mismatch_text(text: &str, expected: u64, actual: u64) -> (rendered: String)
    ensures
        rendered@ == mismatch(text@, expected as nat, actual as nat),
{
    let mut rendered: String = text.to_owned();
    rendered.append(decimal_text(expected as u128).as_str());
    rendered.append(", received ");
    rendered.append(decimal_text(actual as u128).as_str());
    rendered
}

/// A text with another one in front.
pub fn prefixed(prefix: &str, text: &str) -> (joined: String)
    ensures
        joined@ == prefix@ + text@,
{
    let mut joined: String = prefix.to_owned();
    joined.append(text);
    joined
}

impl SegmentReadError {
    pub fn to_text(&self) -> (text: String)
        ensures
            text@ == self@.message(),
    {
        match self {
            SegmentReadError::NotFinalizedLog =>
                "replay accepts only finalized .log files".to_owned(),
            SegmentReadError::UnexpectedEnd =>
                "segment read failed: failed to fill whole buffer".to_owned(),
            SegmentReadError::InvalidHeader(detail) => prefixed(
                "invalid segment header: ",
                detail.as_str(),
            ),
            SegmentReadError::CaptureIdMismatch { expected, actual } => {
                let mut text: String = "segment Capture Run mismatch: expected ".to_owned();
                text.append(expected.to_text().as_str());
                text.append(", received ");
                text.append(actual.to_text().as_str());
                text
            },
            SegmentReadError::SegmentIndexMismatch { expected, actual } => mismatch_text(
                "segment index mismatch: expected ",
                *expected as u64,
                *actual as u64,
            ),
            SegmentReadError::CorruptRecord(detail) => prefixed(
                "corrupt segment record: ",
                detail.as_str(),
            ),
            SegmentReadError::ZeroCaptureSequence =>
                "Capture Sequence must start at one".to_owned(),
            SegmentReadError::SequenceMismatch { expected, actual } => mismatch_text(
                "non-contiguous Capture Sequence: expected ",
                *expected,
                *actual,
            ),
            SegmentReadError::SequenceOverflow => "Capture Sequence overflow".to_owned(),
            SegmentReadError::EmptySegment => "finalized segment contains no records".to_owned(),
        }
    }
}

} // verus!
