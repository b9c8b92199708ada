//! What is known of a segment that could be read: its header and every record of it are intact.
use vstd::prelude::*;

use crate::bytes::{le_value, lemma_le_bytes_of_value, lemma_pow256};
use crate::hashing::crc32c_checksum;
use crate::recorder::dto::StoredEventView;
use crate::recorder::format::{bytes_at, record_reading, RecordErrorView};
use crate::recorder::payload::decoded;
use crate::recorder::reader::{events_reading, segment_reading, SegmentErrorView};

verus! {

/// Whether the bytes from one offset to another are the whole record of an event: its payload
/// stands between the payload's length and the payload's checksum, and is the event.
pub open spec fn intact(bytes: Seq<u8>, start: nat, end: nat, event: StoredEventView) -> bool {
    let payload = bytes.subrange(start as int + 4, end as int - 4);
    &&& start + 8 <= end <= bytes.len()
    &&& le_value(bytes.subrange(start as int, start as int + 4)) == payload.len()
    &&& le_value(bytes.subrange(end as int - 4, end as int)) == crc32c_checksum(payload)
    &&& decoded(payload) == Ok::<StoredEventView, Seq<char>>(event)
}

/// A record that was read is intact, and it is read if it is; at the end there is none. Of bytes
/// whose checksum is not the stated one nothing is read.
pub proof fn lemma_read_record_intact(bytes: Seq<u8>, offset: nat)
    requires
        offset <= bytes.len(),
    ensures
        record_reading(bytes, offset) matches Ok(Some((event, end))) ==> intact(
            bytes,
            offset,
            end,
            event,
        ),
        record_reading(bytes, offset) == Ok::<Option<(StoredEventView, nat)>, RecordErrorView>(None)
            <==> offset == bytes.len(),
        forall|end: nat, event: StoredEventView| #[trigger]
            intact(bytes, offset, end, event) ==> record_reading(bytes, offset) == Ok::<
                Option<(StoredEventView, nat)>,
                RecordErrorView,
            >(Some((event, end))),
{
    lemma_pow256();
    let length = le_value(bytes_at(bytes, offset, 4));
    if bytes.len() - offset >= 8 && bytes.len() - offset >= length + 8 {
        let stated = bytes_at(bytes, offset + 4 + length, 4);
        lemma_le_bytes_of_value(stated);
        let end = offset + length + 8;
        assert(stated =~= bytes.subrange(end as int - 4, end as int));
        assert(bytes_at(bytes, offset + 4, length) =~= bytes.subrange(
            offset as int + 4,
            end as int - 4,
        ));
    }
    assert forall|end: nat, event: StoredEventView| #[trigger]
        intact(bytes, offset, end, event) implies record_reading(bytes, offset) == Ok::<
        Option<(StoredEventView, nat)>,
        RecordErrorView,
    >(Some((event, end))) by {
        assert(bytes_at(bytes, offset, 4) =~= bytes.subrange(offset as int, offset as int + 4));
        assert(end == offset + length + 8);
        assert(bytes_at(bytes, offset + 4, length) =~= bytes.subrange(
            offset as int + 4,
            end as int - 4,
        ));
    }
}

/// Whether records stand one behind the other from an offset to the end of the bytes, each whole,
/// and numbered one by one.
pub open spec fn records_intact(
    bytes: Seq<u8>,
    offset: nat,
    ends: Seq<nat>,
    events: Seq<StoredEventView>,
) -> bool {
    &&& ends.len() == events.len()
    &&& ends.len() == 0 ==> offset == bytes.len()
    &&& ends.len() > 0 ==> ends.last() == bytes.len()
    &&& forall|i: int|
        0 <= i < events.len() ==> intact(
            bytes,
            if i == 0 {
                offset
            } else {
                ends[i - 1]
            },
            ends[i],
            #[trigger] events[i],
        )
    &&& forall|i: int|
        0 <= i < events.len() ==> (#[trigger] events[i]).capture_sequence
            == events[0].capture_sequence + i
    &&& events.len() > 0 ==> events[0].capture_sequence > 0
}

proof fn lemma_read_events_intact(
    bytes: Seq<u8>,
    offset: nat,
    expected: Option<u64>,
    events: Seq<StoredEventView>,
) -> (ends: Seq<nat>)
    requires
        offset <= bytes.len(),
        events_reading(bytes, offset, expected) == Ok::<Seq<StoredEventView>, SegmentErrorView>(
            events,
        ),
    ensures
        records_intact(bytes, offset, ends, events),
        events.len() > 0 && expected is Some ==> events[0].capture_sequence == expected->Some_0,
    decreases bytes.len() - offset,
{
    reveal(events_reading);
    lemma_read_record_intact(bytes, offset);
    if let Ok(Some((event, end))) = record_reading(bytes, offset) {
        let next = Some((event.capture_sequence + 1) as u64);
        let more = events_reading(bytes, end, next)->Ok_0;
        let rest = lemma_read_events_intact(bytes, end, next, more);
        let ends = seq![end] + rest;
        assert(events == seq![event] + more);
        assert forall|i: int| 0 <= i < events.len() implies intact(
            bytes,
            if i == 0 {
                offset
            } else {
                ends[i - 1]
            },
            ends[i],
            #[trigger] events[i],
        ) && events[i].capture_sequence == events[0].capture_sequence + i by {
            if i > 0 {
                assert(events[i] == more[i - 1]);
                assert(ends[i] == rest[i - 1]);
                assert(more[i - 1].capture_sequence == more[0].capture_sequence + (i - 1));
            }
        }
        assert(ends.last() == if rest.len() == 0 {
            end
        } else {
            rest.last()
        });
        ends
    } else {
        Seq::empty()
    }
}

/// A segment that was read is intact from its first byte to its last: it starts with the header
/// of the format, of the run and of the number that were asked for, and whole records of events
/// that are numbered one by one follow up to the end. There is at least one.
pub proof fn lemma_read_segment_intact(
    filename: Seq<char>,
    bytes: Seq<u8>,
    capture_id: Seq<u8>,
    segment_index: u32,
    events: Seq<StoredEventView>,
) -> (ends: Seq<nat>)
    requires
        segment_reading(filename, bytes, capture_id, segment_index) == Ok::<
            Seq<StoredEventView>,
            SegmentErrorView,
        >(events),
    ensures
        bytes.len() >= 40,
        bytes.take(8) == seq![67u8, 86u8, 65u8, 82u8, 76u8, 79u8, 71u8, 0u8],
        le_value(bytes.subrange(8, 10)) == 1,
        le_value(bytes.subrange(10, 12)) == 40,
        bytes.subrange(12, 28) == capture_id,
        le_value(bytes.subrange(28, 32)) == segment_index,
        events.len() > 0,
        records_intact(bytes, 40, ends, events),
{
    lemma_pow256();
    lemma_le_bytes_of_value(bytes.subrange(8, 10));
    lemma_le_bytes_of_value(bytes.subrange(10, 12));
    lemma_le_bytes_of_value(bytes.subrange(28, 32));
    lemma_read_events_intact(bytes, 40, None, events)
}

} // verus!
