//! The segment writer: which bytes go to which segment file, and when a file is
//! closed, opened and synchronized.
use vstd::prelude::*;

use crate::recorder::dto::{StoredEventV1, StoredEventView};
use crate::bytes::lemma_concat_associates;
use crate::recorder::format::{
    encode_record, header_bytes, lemma_header_round_trip, lemma_record_round_trip, record_bytes,
    write_header, CaptureId, RecordEncodeError, SegmentHeader, HEADER_LENGTH, RECORD_OVERHEAD,
};
use crate::recorder::payload::{encodable, event_encoding};
use crate::recorder::reader::{
    has_extension, lemma_records_push, lemma_segment_reads_back, mismatch, mismatch_text,
    recordable, records_bytes, segment_bytes, segment_reading, SegmentErrorView,
};
use crate::text::{decimal, decimal_text, pad_zeroes, zero_padded};

verus! {

/// The size at which segments are rotated by default.
pub const DEFAULT_MAX_BYTES: u64 = 1_073_741_824;

/// The age in nanoseconds at which segments are rotated by default: five minutes.
pub const DEFAULT_MAX_DURATION: u128 = 300_000_000_000;

/// How many nanoseconds pass between synchronizations by default: one second.
pub const DEFAULT_SYNC_INTERVAL: u128 = 1_000_000_000;

/// An instant of the system clock.
#[derive(Clone, Copy, Debug, Eq, PartialEq, Structural)]
pub struct WallTime {
    seconds: i64,
    nanoseconds: u32,
}

impl WallTime {
    #[verifier::type_invariant]
    spec fn whole(self) -> bool {
        self.nanoseconds < 1_000_000_000
    }

    /// Nanoseconds since the Unix epoch.
    pub closed spec fn nanos(self) -> int {
        self.seconds * 1_000_000_000 + self.nanoseconds
    }

    /// The instant `seconds` and `nanoseconds` after the Unix epoch.
    pub fn new(seconds: i64, nanoseconds: u32) -> (time: Self)
        requires
            nanoseconds < 1_000_000_000,
        ensures
            time.nanos() == seconds * 1_000_000_000 + nanoseconds,
    {
        WallTime { seconds, nanoseconds }
    }

    fn count(self) -> (nanos: i128)
        ensures
            nanos == self.nanos(),
            -0x1_0000_0000_0000_0000_0000_0000 < nanos < 0x1_0000_0000_0000_0000_0000_0000,
    {
        proof {
            use_type_invariant(&self);
        }
        self.seconds as i128 * 1_000_000_000 + self.nanoseconds as i128
    }
}

/// Milliseconds since the Unix epoch, where they are representable.
pub open spec fn unix_millis_value(time: WallTime) -> Option<u64> {
    if 0 <= time.nanos() && time.nanos() / 1_000_000 <= u64::MAX {
        Some((time.nanos() / 1_000_000) as u64)
    } else {
        None
    }
}

/// Milliseconds since the Unix epoch.
pub fn unix_millis(time: WallTime) -> (result: Result<u64, SegmentWriterError>)
    ensures
        match result {
            Ok(millis) => unix_millis_value(time) == Some(millis),
            Err(error) => unix_millis_value(time) is None && error
                == SegmentWriterError::TimeBeforeUnixEpoch,
        },
{
    let nanos: i128 = time.count();
    if nanos < 0 {
        return Err(SegmentWriterError::TimeBeforeUnixEpoch);
    }
    let millis: u128 = nanos as u128 / 1_000_000;
    if millis > u64::MAX as u128 {
        return Err(SegmentWriterError::TimeBeforeUnixEpoch);
    }
    Ok(millis as u64)
}

/// Whether at least `duration` nanoseconds lie between two instants.
pub open spec fn elapsed(start: WallTime, end: WallTime, duration: u128) -> bool {
    end.nanos() - start.nanos() >= duration
}

fn elapsed_at_least(start: WallTime, end: WallTime, duration: u128) -> (r: bool)
    ensures
        r == elapsed(start, end, duration),
{
    let difference: i128 = end.count() - start.count();
    difference >= 0 && difference as u128 >= duration
}

/// When a segment is rotated and how often it is synchronized. Durations are in
/// nanoseconds.
#[derive(Clone, Copy, Debug, Eq, PartialEq, Structural)]
pub struct SegmentLimits {
    pub max_duration: u128,
    pub max_bytes: u64,
    pub sync_interval: u128,
}

impl SegmentLimits {
    /// Limits; no segment can be held to zero bytes.
    pub fn new(max_duration: u128, max_bytes: u64, sync_interval: u128) -> (limits: Self)
        requires
            max_bytes > 0,
        ensures
            limits == (SegmentLimits { max_duration, max_bytes, sync_interval }),
    {
        SegmentLimits { max_duration, max_bytes, sync_interval }
    }

    pub fn max_duration(self) -> (duration: u128)
        ensures
            duration == self.max_duration,
    {
        self.max_duration
    }

    pub fn max_bytes(self) -> (bytes: u64)
        ensures
            bytes == self.max_bytes,
    {
        self.max_bytes
    }

    pub fn sync_interval(self) -> (interval: u128)
        ensures
            interval == self.sync_interval,
    {
        self.sync_interval
    }
}

impl Default for SegmentLimits {
    fn default() -> (limits: Self)
        ensures
            limits == (SegmentLimits {
                max_duration: DEFAULT_MAX_DURATION,
                max_bytes: DEFAULT_MAX_BYTES,
                sync_interval: DEFAULT_SYNC_INTERVAL,
            }),
            limits.max_duration == 300_000_000_000,
            limits.max_bytes == 1_073_741_824,
            limits.sync_interval == 1_000_000_000,
    {
        SegmentLimits::new(DEFAULT_MAX_DURATION, DEFAULT_MAX_BYTES, DEFAULT_SYNC_INTERVAL)
    }
}

/// How a segment came to be finalized.
#[derive(Clone, Copy, Debug, Eq, PartialEq, Structural)]
pub enum SegmentCompletion {
    Complete,
    RecoveredAfterCrash,
}

/// A finalized segment file.
#[derive(Debug, Eq, PartialEq)]
pub struct FinalizedSegment {
    pub index: u32,
    pub filename: String,
    pub first_capture_sequence: u64,
    pub last_capture_sequence: u64,
    pub record_count: u64,
    pub byte_size: u64,
    pub sha256: [u8; 32],
    pub started_at_unix_millis: u64,
    pub ended_at_unix_millis: u64,
    pub completion: SegmentCompletion,
}

/// The model of `FinalizedSegment`.
pub struct FinalizedView {
    pub index: u32,
    pub filename: Seq<char>,
    pub first_capture_sequence: u64,
    pub last_capture_sequence: u64,
    pub record_count: u64,
    pub byte_size: u64,
    pub sha256: Seq<u8>,
    pub started_at_unix_millis: u64,
    pub ended_at_unix_millis: u64,
    pub completion: SegmentCompletion,
}

impl View for FinalizedSegment {
    type V = FinalizedView;

    open spec fn view(&self) -> FinalizedView {
        FinalizedView {
            index: self.index,
            filename: self.filename@,
            first_capture_sequence: self.first_capture_sequence,
            last_capture_sequence: self.last_capture_sequence,
            record_count: self.record_count,
            byte_size: self.byte_size,
            sha256: self.sha256@,
            started_at_unix_millis: self.started_at_unix_millis,
            ended_at_unix_millis: self.ended_at_unix_millis,
            completion: self.completion,
        }
    }
}

impl Clone for FinalizedSegment {
    fn clone(&self) -> (copy: Self)
        ensures
            copy@ == self@,
    {
        FinalizedSegment {
            index: self.index,
            filename: self.filename.clone(),
            first_capture_sequence: self.first_capture_sequence,
            last_capture_sequence: self.last_capture_sequence,
            record_count: self.record_count,
            byte_size: self.byte_size,
            sha256: self.sha256,
            started_at_unix_millis: self.started_at_unix_millis,
            ended_at_unix_millis: self.ended_at_unix_millis,
            completion: self.completion,
        }
    }
}

/// The number part of a segment's file name.
pub open spec fn segment_stem(index: u32) -> Seq<char> {
    "segment-"@ + zero_padded(decimal(index as nat), 6)
}

/// The file name of a segment that is being written.
pub open spec fn open_name(index: u32) -> Seq<char> {
    segment_stem(index) + ".open"@
}

/// The file name of a finalized segment.
pub open spec fn log_name(index: u32) -> Seq<char> {
    segment_stem(index) + ".log"@
}

fn stem(index: u32) -> (name: String)
    ensures
        name@ == segment_stem(index),
{
    let mut name: String = "segment-".to_owned();
    name.append(pad_zeroes(decimal_text(index as u128).as_str(), 6).as_str());
    name
}

pub fn open_filename(index: u32) -> (name: String)
    ensures
        name@ == open_name(index),
{
    let mut name: String = stem(index);
    name.append(".open");
    name
}

pub fn log_filename(index: u32) -> (name: String)
    ensures
        name@ == log_name(index),
{
    let mut name: String = stem(index);
    name.append(".log");
    name
}

/// The segment that is being written.
#[derive(Clone, Copy, Debug, Eq, PartialEq, Structural)]
pub struct ActiveSegment {
    pub index: u32,
    pub started_at: WallTime,
    pub started_at_unix_millis: u64,
    pub last_sync_at: WallTime,
    pub first_capture_sequence: u64,
    pub last_capture_sequence: u64,
    pub record_count: u64,
    pub byte_size: u64,
}

/// A segment to which nothing more is written.
#[derive(Clone, Copy, Debug, Eq, PartialEq, Structural)]
pub struct ClosedSegment {
    pub index: u32,
    pub first_capture_sequence: u64,
    pub last_capture_sequence: u64,
    pub record_count: u64,
    pub byte_size: u64,
    pub started_at_unix_millis: u64,
    pub ended_at_unix_millis: u64,
    pub completion: SegmentCompletion,
}

impl ClosedSegment {
    /// The finalized segment whose file has the given digest.
    pub open spec fn finalized(self, sha256: Seq<u8>) -> FinalizedView {
        FinalizedView {
            index: self.index,
            filename: log_name(self.index),
            first_capture_sequence: self.first_capture_sequence,
            last_capture_sequence: self.last_capture_sequence,
            record_count: self.record_count,
            byte_size: self.byte_size,
            sha256,
            started_at_unix_millis: self.started_at_unix_millis,
            ended_at_unix_millis: self.ended_at_unix_millis,
            completion: self.completion,
        }
    }

    /// Attaches the digest of the segment's file.
    pub fn finalize(self, sha256: [u8; 32]) -> (segment: FinalizedSegment)
        ensures
            segment@ == self.finalized(sha256@),
    {
        FinalizedSegment {
            index: self.index,
            filename: log_filename(self.index),
            first_capture_sequence: self.first_capture_sequence,
            last_capture_sequence: self.last_capture_sequence,
            record_count: self.record_count,
            byte_size: self.byte_size,
            sha256,
            started_at_unix_millis: self.started_at_unix_millis,
            ended_at_unix_millis: self.ended_at_unix_millis,
            completion: self.completion,
        }
    }
}

/// Why nothing more can be written.
#[derive(Clone, Copy, Debug, Eq, PartialEq, Structural)]
pub enum SegmentWriterError {
    PayloadTooLarge(usize),
    SequenceMismatch { expected: u64, actual: u64 },
    SequenceOverflow,
    ByteSizeOverflow,
    RecordCountOverflow,
    SegmentIndexOverflow,
    TimeBeforeUnixEpoch,
}

/// A segment file to be created, with the bytes that it starts with.
#[derive(Debug, Eq, PartialEq)]
pub struct OpenedSegment {
    pub index: u32,
    pub filename: String,
    pub header: Vec<u8>,
}

/// What is to be done for one event, in this order: close the segment that has been
/// written so far, create the next one, write the record, synchronize.
#[derive(Debug, Eq, PartialEq)]
pub struct AppendPlan {
    pub closed: Option<ClosedSegment>,
    pub opened: Option<OpenedSegment>,
    pub record: Vec<u8>,
    pub synchronize: bool,
}

/// Why an event is not written, with the segment that is to be closed all the same.
#[derive(Clone, Copy, Debug, Eq, PartialEq, Structural)]
pub struct AppendFailure {
    pub closed: Option<ClosedSegment>,
    pub error: SegmentWriterError,
}

/// The state of a capture's segment files.
#[derive(Clone, Copy, Debug, Eq, PartialEq)]
pub struct SegmentWriter {
    pub capture_id: CaptureId,
    pub next_segment_index: u32,
    pub next_capture_sequence: u64,
    pub limits: SegmentLimits,
    pub active: Option<ActiveSegment>,
}

impl SegmentWriter {
    /// Before anything was written.
    pub open spec fn fresh(capture_id: CaptureId, limits: SegmentLimits) -> SegmentWriter {
        SegmentWriter {
            capture_id,
            next_segment_index: 0,
            next_capture_sequence: 1,
            limits,
            active: None,
        }
    }

    /// Whether the active segment is closed before a record of the given length.
    pub open spec fn rotates(self, now: WallTime, record_length: u64) -> bool {
        match self.active {
            None => false,
            Some(active) => {
                &&& active.record_count > 0
                &&& {
                    ||| elapsed(active.started_at, now, self.limits.max_duration)
                    ||| self.limits.max_bytes < u64::MAX && active.byte_size + record_length
                        > self.limits.max_bytes
                }
            },
        }
    }

    /// After the active segment was closed.
    pub open spec fn without_active(self) -> SegmentWriter {
        SegmentWriter { active: None, ..self }
    }

    /// The active segment, closed at `now`.
    pub open spec fn closing(self, now: WallTime, completion: SegmentCompletion) -> Option<
        ClosedSegment,
    > {
        match self.active {
            None => None,
            Some(active) => Some(
                ClosedSegment {
                    index: active.index,
                    first_capture_sequence: active.first_capture_sequence,
                    last_capture_sequence: active.last_capture_sequence,
                    record_count: active.record_count,
                    byte_size: active.byte_size,
                    started_at_unix_millis: active.started_at_unix_millis,
                    ended_at_unix_millis: unix_millis_value(now)->Some_0,
                    completion,
                },
            ),
        }
    }

    /// A segment that was just created.
    pub open spec fn created(index: u32, now: WallTime, first_capture_sequence: u64) -> ActiveSegment {
        ActiveSegment {
            index,
            started_at: now,
            started_at_unix_millis: unix_millis_value(now)->Some_0,
            last_sync_at: now,
            first_capture_sequence,
            last_capture_sequence: first_capture_sequence,
            record_count: 0,
            byte_size: HEADER_LENGTH as u64,
        }
    }

    /// After one more record in the active segment.
    pub open spec fn extended(
        active: ActiveSegment,
        limits: SegmentLimits,
        sequence: u64,
        record_length: u64,
        now: WallTime,
    ) -> ActiveSegment {
        ActiveSegment {
            byte_size: (active.byte_size + record_length) as u64,
            last_capture_sequence: sequence,
            record_count: (active.record_count + 1) as u64,
            last_sync_at: if elapsed(active.last_sync_at, now, limits.sync_interval) {
                now
            } else {
                active.last_sync_at
            },
            ..active
        }
    }
}

/// What becomes of one event: the state behind it, and what is to be done or why
/// nothing is written.
pub open spec fn append_outcome(
    before: SegmentWriter,
    event: StoredEventView,
    now: WallTime,
    after: SegmentWriter,
    result: Result<AppendPlan, AppendFailure>,
) -> bool {
    let sequence = event.capture_sequence;
    let length = (event_encoding(event).len() + RECORD_OVERHEAD) as u64;
    let rotates = before.rotates(now, length);
    let base = if rotates {
        before.without_active()
    } else {
        before
    };
    let closed = if rotates {
        before.closing(now, SegmentCompletion::Complete)
    } else {
        None
    };
    let creates = base.active is None;
    let index = before.next_segment_index;
    let opened = if creates {
        SegmentWriter { next_segment_index: (index + 1) as u32, ..base }
    } else {
        base
    };
    let active = if creates {
        SegmentWriter::created(index, now, sequence)
    } else {
        base.active->Some_0
    };
    if sequence != before.next_capture_sequence {
        after == before && result == Err::<AppendPlan, AppendFailure>(
            AppendFailure {
                closed: None,
                error: SegmentWriterError::SequenceMismatch {
                    expected: before.next_capture_sequence,
                    actual: sequence,
                },
            },
        )
    } else if event_encoding(event).len() > u32::MAX {
        after == before && result == Err::<AppendPlan, AppendFailure>(
            AppendFailure {
                closed: None,
                error: SegmentWriterError::PayloadTooLarge(event_encoding(event).len() as usize),
            },
        )
    } else if sequence == u64::MAX {
        after == before && result == Err::<AppendPlan, AppendFailure>(
            AppendFailure { closed: None, error: SegmentWriterError::SequenceOverflow },
        )
    } else if rotates && unix_millis_value(now) is None {
        after == before.without_active() && result == Err::<AppendPlan, AppendFailure>(
            AppendFailure { closed: None, error: SegmentWriterError::TimeBeforeUnixEpoch },
        )
    } else if creates && index == u32::MAX {
        after == base && result == Err::<AppendPlan, AppendFailure>(
            AppendFailure { closed, error: SegmentWriterError::SegmentIndexOverflow },
        )
    } else if creates && unix_millis_value(now) is None {
        after == opened && result == Err::<AppendPlan, AppendFailure>(
            AppendFailure { closed, error: SegmentWriterError::TimeBeforeUnixEpoch },
        )
    } else if active.byte_size + length > u64::MAX {
        after == opened && result == Err::<AppendPlan, AppendFailure>(
            AppendFailure { closed, error: SegmentWriterError::ByteSizeOverflow },
        )
    } else if active.record_count == u64::MAX {
        after == opened && result == Err::<AppendPlan, AppendFailure>(
            AppendFailure { closed, error: SegmentWriterError::RecordCountOverflow },
        )
    } else {
        &&& after == (SegmentWriter {
            next_capture_sequence: (sequence + 1) as u64,
            active: Some(
                SegmentWriter::extended(active, before.limits, sequence, length, now),
            ),
            ..opened
        })
        &&& result matches Ok(plan)
        &&& plan.closed == closed
        &&& plan.record@ == record_bytes(event)
        &&& plan.synchronize == elapsed(active.last_sync_at, now, before.limits.sync_interval)
        &&& match plan.opened {
            None => !creates,
            Some(segment) => {
                &&& creates
                &&& segment.index == index
                &&& segment.filename@ == open_name(index)
                &&& segment.header@ == header_bytes(
                    SegmentHeader {
                        capture_id: before.capture_id,
                        segment_index: index,
                        created_at_unix_millis: unix_millis_value(now)->Some_0,
                    },
                )
            },
        }
    }
}

impl SegmentWriter {
    /// A writer before its first segment.
    pub fn create(capture_id: CaptureId, limits: SegmentLimits) -> (writer: Self)
        ensures
            writer == SegmentWriter::fresh(capture_id, limits),
    {
        SegmentWriter {
            capture_id,
            next_segment_index: 0,
            next_capture_sequence: 1,
            limits,
            active: None,
        }
    }

    fn should_rotate(&self, now: WallTime, next_record_length: u64) -> (r: bool)
        ensures
            r == self.rotates(now, next_record_length),
    {
        match self.active {
            None => false,
            Some(active) => {
                if active.record_count == 0 {
                    return false;
                }
                elapsed_at_least(active.started_at, now, self.limits.max_duration)
                    || active.byte_size.saturating_add(next_record_length) > self.limits.max_bytes
            },
        }
    }

    fn finalize_active(&mut self, now: WallTime, completion: SegmentCompletion) -> (result: Result<
        Option<ClosedSegment>,
        SegmentWriterError,
    >)
        ensures
            *final(self) == old(self).without_active(),
            match result {
                Ok(closed) => {
                    &&& closed == old(self).closing(now, completion)
                    &&& old(self).active is Some ==> unix_millis_value(now) is Some
                },
                Err(error) => {
                    &&& old(self).active is Some
                    &&& unix_millis_value(now) is None
                    &&& error == SegmentWriterError::TimeBeforeUnixEpoch
                },
            },
    {
        let active: ActiveSegment = match self.active {
            None => return Ok(None),
            Some(active) => active,
        };
        self.active = None;
        let ended_at_unix_millis: u64 = match unix_millis(now) {
            Ok(millis) => millis,
            Err(error) => return Err(error),
        };
        Ok(
            Some(
                ClosedSegment {
                    index: active.index,
                    first_capture_sequence: active.first_capture_sequence,
                    last_capture_sequence: active.last_capture_sequence,
                    record_count: active.record_count,
                    byte_size: active.byte_size,
                    started_at_unix_millis: active.started_at_unix_millis,
                    ended_at_unix_millis,
                    completion,
                },
            ),
        )
    }

    fn open_segment(&mut self, now: WallTime, first_capture_sequence: u64) -> (result: Result<
        (ActiveSegment, OpenedSegment),
        SegmentWriterError,
    >)
        ensures
            match result {
                Ok((active, opened)) => {
                    &&& old(self).next_segment_index < u32::MAX
                    &&& unix_millis_value(now) is Some
                    &&& *final(self) == (SegmentWriter {
                        next_segment_index: (old(self).next_segment_index + 1) as u32,
                        ..*old(self)
                    })
                    &&& active == SegmentWriter::created(
                        old(self).next_segment_index,
                        now,
                        first_capture_sequence,
                    )
                    &&& opened.index == old(self).next_segment_index
                    &&& opened.filename@ == open_name(old(self).next_segment_index)
                    &&& opened.header@ == header_bytes(
                        SegmentHeader {
                            capture_id: old(self).capture_id,
                            segment_index: old(self).next_segment_index,
                            created_at_unix_millis: unix_millis_value(now)->Some_0,
                        },
                    )
                },
                Err(SegmentWriterError::SegmentIndexOverflow) => {
                    &&& old(self).next_segment_index == u32::MAX
                    &&& *final(self) == *old(self)
                },
                Err(error) => {
                    &&& old(self).next_segment_index < u32::MAX
                    &&& unix_millis_value(now) is None
                    &&& error == SegmentWriterError::TimeBeforeUnixEpoch
                    &&& *final(self) == (SegmentWriter {
                        next_segment_index: (old(self).next_segment_index + 1) as u32,
                        ..*old(self)
                    })
                },
            },
    {
        let index: u32 = self.next_segment_index;
        self.next_segment_index = match index.checked_add(1) {
            Some(next) => next,
            None => return Err(SegmentWriterError::SegmentIndexOverflow),
        };
        let started_at_unix_millis: u64 = match unix_millis(now) {
            Ok(millis) => millis,
            Err(error) => return Err(error),
        };
        let header: Vec<u8> = write_header(
            SegmentHeader {
                capture_id: self.capture_id,
                segment_index: index,
                created_at_unix_millis: started_at_unix_millis,
            },
        );
        let active: ActiveSegment = ActiveSegment {
            index,
            started_at: now,
            started_at_unix_millis,
            last_sync_at: now,
            first_capture_sequence,
            last_capture_sequence: first_capture_sequence,
            record_count: 0,
            byte_size: HEADER_LENGTH as u64,
        };
        Ok((active, OpenedSegment { index, filename: open_filename(index), header }))
    }

    /// Takes in the event that has the next sequence number.
    pub fn append(&mut self, event: &StoredEventV1, now: WallTime) -> (result: Result<
        AppendPlan,
        AppendFailure,
    >)
        ensures
            append_outcome(*old(self), event@, now, *final(self), result),
            result is Ok ==> encodable(event@),
    {
        let sequence: u64 = event.capture_sequence();
        if sequence != self.next_capture_sequence {
            return Err(
                AppendFailure {
                    closed: None,
                    error: SegmentWriterError::SequenceMismatch {
                        expected: self.next_capture_sequence,
                        actual: sequence,
                    },
                },
            );
        }
        let record: Vec<u8> = match encode_record(event) {
            Ok(record) => record,
            Err(RecordEncodeError::PayloadTooLarge(length)) => return Err(
                AppendFailure { closed: None, error: SegmentWriterError::PayloadTooLarge(length) },
            ),
        };
        let record_length: u64 = record.len() as u64;
        if sequence == u64::MAX {
            return Err(
                AppendFailure { closed: None, error: SegmentWriterError::SequenceOverflow },
            );
        }
        let closed: Option<ClosedSegment> = if self.should_rotate(now, record_length) {
            match self.finalize_active(now, SegmentCompletion::Complete) {
                Ok(closed) => closed,
                Err(error) => return Err(AppendFailure { closed: None, error }),
            }
        } else {
            None
        };
        let mut opened: Option<OpenedSegment> = None;
        let active: ActiveSegment = match self.active {
            Some(active) => active,
            None => match self.open_segment(now, sequence) {
                Ok((active, segment)) => {
                    opened = Some(segment);
                    active
                },
                Err(error) => return Err(AppendFailure { closed, error }),
            },
        };
        let byte_size: u64 = match active.byte_size.checked_add(record_length) {
            Some(byte_size) => byte_size,
            None => return Err(
                AppendFailure { closed, error: SegmentWriterError::ByteSizeOverflow },
            ),
        };
        let record_count: u64 = match active.record_count.checked_add(1) {
            Some(record_count) => record_count,
            None => return Err(
                AppendFailure { closed, error: SegmentWriterError::RecordCountOverflow },
            ),
        };
        let synchronize: bool = elapsed_at_least(
            active.last_sync_at,
            now,
            self.limits.sync_interval,
        );
        self.active = Some(
            ActiveSegment {
                index: active.index,
                started_at: active.started_at,
                started_at_unix_millis: active.started_at_unix_millis,
                last_sync_at: if synchronize {
                    now
                } else {
                    active.last_sync_at
                },
                first_capture_sequence: active.first_capture_sequence,
                last_capture_sequence: sequence,
                record_count,
                byte_size,
            },
        );
        self.next_capture_sequence = sequence + 1;
        Ok(AppendPlan { closed, opened, record, synchronize })
    }

    /// Closes the segment that is being written, if there is one.
    pub fn finish(self, now: WallTime) -> (result: Result<Option<ClosedSegment>, SegmentWriterError>)
        ensures
            match result {
                Ok(closed) => {
                    &&& closed == self.closing(now, SegmentCompletion::Complete)
                    &&& self.active is Some ==> unix_millis_value(now) is Some
                },
                Err(error) => {
                    &&& self.active is Some
                    &&& unix_millis_value(now) is None
                    &&& error == SegmentWriterError::TimeBeforeUnixEpoch
                },
            },
    {
        let mut writer: SegmentWriter = self;
        writer.finalize_active(now, SegmentCompletion::Complete)
    }

    pub fn capture_id(&self) -> (id: CaptureId)
        ensures
            id == self.capture_id,
    {
        self.capture_id
    }

    pub fn next_capture_sequence(&self) -> (sequence: u64)
        ensures
            sequence == self.next_capture_sequence,
    {
        self.next_capture_sequence
    }
}

/// What a segment file holds.
pub struct Written {
    pub header: SegmentHeader,
    pub events: Seq<StoredEventView>,
}

impl Written {
    /// The bytes of the file.
    pub open spec fn bytes(self) -> Seq<u8> {
        segment_bytes(self.header, self.events)
    }
}

/// Whether a writer's active segment is the one that holds `written`: its events are
/// those with the sequence numbers up to the next one, and beyond its first record it
/// is within the size limit.
pub open spec fn holds(writer: SegmentWriter, written: Option<Written>) -> bool {
    match (writer.active, written) {
        (None, None) => true,
        (Some(active), Some(written)) => {
            &&& written.header == (SegmentHeader {
                capture_id: writer.capture_id,
                segment_index: active.index,
                created_at_unix_millis: active.started_at_unix_millis,
            })
            &&& recordable(written.events)
            &&& written.events.len() == active.record_count
            &&& active.record_count > 0
            &&& written.events[0].capture_sequence == active.first_capture_sequence
            &&& written.events.last().capture_sequence == active.last_capture_sequence
            &&& writer.next_capture_sequence == active.last_capture_sequence + 1
            &&& written.bytes().len() == active.byte_size
            &&& active.record_count == 1 || active.byte_size <= writer.limits.max_bytes
        },
        _ => false,
    }
}

/// What the active segment holds behind one more event.
pub open spec fn written_after(
    before: SegmentWriter,
    written: Option<Written>,
    event: StoredEventView,
    now: WallTime,
    plan: AppendPlan,
) -> Written {
    if plan.opened is Some {
        Written {
            header: SegmentHeader {
                capture_id: before.capture_id,
                segment_index: before.next_segment_index,
                created_at_unix_millis: unix_millis_value(now)->Some_0,
            },
            events: seq![event],
        }
    } else {
        Written { events: written->Some_0.events.push(event), ..written->Some_0 }
    }
}

/// Writing what the plans say keeps every segment file whole: the file of the active
/// segment is its header and the records of its events, a new file starts where the
/// last one ended, and a file within the size limit stays so.
pub proof fn lemma_append_keeps_segments(
    before: SegmentWriter,
    written: Option<Written>,
    event: StoredEventView,
    now: WallTime,
    after: SegmentWriter,
    plan: AppendPlan,
)
    requires
        holds(before, written),
        encodable(event),
        event.capture_sequence > 0,
        append_outcome(before, event, now, after, Ok(plan)),
    ensures
        holds(after, Some(written_after(before, written, event, now, plan))),
        written_after(before, written, event, now, plan).bytes() == (if plan.opened is Some {
            plan.opened->Some_0.header@
        } else {
            written->Some_0.bytes()
        }) + plan.record@,
        plan.closed is Some ==> plan.opened is Some,
        plan.opened is Some && written is Some ==> plan.closed is Some,
        plan.closed matches Some(closed) ==> closed_segment(closed, written),
{
    let length = (event_encoding(event).len() + RECORD_OVERHEAD) as u64;
    lemma_record_round_trip(Seq::empty(), event, Seq::empty());
    if plan.opened is Some {
        let fresh = written_after(before, written, event, now, plan);
        lemma_records_push(Seq::empty(), event);
        assert(Seq::<StoredEventView>::empty().push(event) =~= seq![event]);
        assert(records_bytes(Seq::<StoredEventView>::empty()) =~= Seq::<u8>::empty());
        assert(records_bytes(seq![event]) =~= record_bytes(event));
        lemma_header_round_trip(fresh.header, Seq::empty());
    } else {
        let old = written->Some_0;
        lemma_records_push(old.events, event);
        lemma_concat_associates(
            header_bytes(old.header),
            records_bytes(old.events),
            record_bytes(event),
        );
        assert(old.events[old.events.len() - 1].capture_sequence == old.events[0].capture_sequence
            + (old.events.len() - 1));
        assert(recordable(old.events.push(event)));
        assert(!before.rotates(now, length));
    }
}

/// Whether a closed segment is described as it was written.
pub open spec fn closed_segment(closed: ClosedSegment, written: Option<Written>) -> bool {
    &&& written is Some
    &&& closed.index == written->Some_0.header.segment_index
    &&& closed.started_at_unix_millis == written->Some_0.header.created_at_unix_millis
    &&& closed.record_count == written->Some_0.events.len()
    &&& closed.first_capture_sequence == written->Some_0.events[0].capture_sequence
    &&& closed.last_capture_sequence == written->Some_0.events.last().capture_sequence
    &&& closed.byte_size == written->Some_0.bytes().len()
}

/// The file name of a finalized segment has the extension of one.
pub proof fn lemma_log_name(index: u32)
    ensures
        has_extension(log_name(index), "log"@),
{
    reveal_strlit("log");
    reveal_strlit(".log");
    reveal_strlit("segment-");
    let name = log_name(index);
    assert(name.skip(name.len() - 3) =~= "log"@);
}

/// A segment file that was written and closed is read back with the events that were
/// appended.
pub proof fn lemma_written_segment_reads_back(writer: SegmentWriter, written: Written)
    requires
        holds(writer, Some(written)),
    ensures
        segment_reading(
            log_name(written.header.segment_index),
            written.bytes(),
            writer.capture_id.bytes@,
            written.header.segment_index,
        ) == Ok::<Seq<StoredEventView>, SegmentErrorView>(written.events),
{
    lemma_log_name(written.header.segment_index);
    lemma_segment_reads_back(
        log_name(written.header.segment_index),
        written.header,
        written.events,
    );
}

impl SegmentWriterError {
    /// The rendering of the error.
    pub open spec fn message(self) -> Seq<char> {
        match self {
            SegmentWriterError::PayloadTooLarge(length) => "record payload of "@ + decimal(
                length as nat,
            ) + " bytes exceeds framing"@,
            SegmentWriterError::SequenceMismatch { expected, actual } => mismatch(
                "non-contiguous Capture Sequence: expected "@,
                expected as nat,
                actual as nat,
            ),
            SegmentWriterError::SequenceOverflow => "Capture Sequence overflow"@,
            SegmentWriterError::ByteSizeOverflow => "segment byte-size overflow"@,
            SegmentWriterError::RecordCountOverflow => "segment record-count overflow"@,
            SegmentWriterError::SegmentIndexOverflow => "segment index overflow"@,
            SegmentWriterError::TimeBeforeUnixEpoch =>
                "segment time is outside the supported UTC range"@,
        }
    }

    pub fn to_text(&self) -> (text: String)
        ensures
            text@ == self.message(),
    {
        match self {
            SegmentWriterError::PayloadTooLarge(length) => {
                let mut text: String = "record payload of ".to_owned();
                text.append(decimal_text(*length as u128).as_str());
                text.append(" bytes exceeds framing");
                text
            },
            SegmentWriterError::SequenceMismatch { expected, actual } => mismatch_text(
                "non-contiguous Capture Sequence: expected ",
                *expected,
                *actual,
            ),
            SegmentWriterError::SequenceOverflow => "Capture Sequence overflow".to_owned(),
            SegmentWriterError::ByteSizeOverflow => "segment byte-size overflow".to_owned(),
            SegmentWriterError::RecordCountOverflow => "segment record-count overflow".to_owned(),
            SegmentWriterError::SegmentIndexOverflow => "segment index overflow".to_owned(),
            SegmentWriterError::TimeBeforeUnixEpoch =>
                "segment time is outside the supported UTC range".to_owned(),
        }
    }
}

} // verus!
