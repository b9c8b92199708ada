//! When segments are rotated and synchronized, and how a closed one is listed.
use vstd::prelude::*;

use crate::bytes::{le_bytes, lemma_le_bytes_len, pow256};
use crate::hashing::{crc32c_checksum, sha256};
use crate::recorder::dto::StoredEventView;
use crate::recorder::format::{header_bytes, record_bytes, SegmentHeader, HEADER_LENGTH};
use crate::recorder::manifest::{entry_of, ManifestView};
use crate::recorder::payload::event_encoding;
use crate::recorder::validated::describes_segment;
use crate::recorder::writer::{
    append_outcome, holds, open_name, unix_millis_value, AppendPlan, SegmentCompletion,
    SegmentWriter, WallTime, Written,
};

verus! {

/// Whether a segment is closed before a record: it has lasted for the longest duration, or
/// the record would take it beyond the largest size.
pub open spec fn due(writer: SegmentWriter, now: WallTime, record_length: nat) -> bool {
    let active = writer.active->Some_0;
    ||| now.nanos() - active.started_at.nanos() >= writer.limits.max_duration
    ||| writer.limits.max_bytes < u64::MAX && active.byte_size + record_length
        > writer.limits.max_bytes
}

/// A new segment is begun for the first event and whenever the last one is due, and at no
/// other time. The last one is then closed as complete at that moment. A segment that is
/// begun has the next number and the name and header that go with it; otherwise the number
/// does not change. The bytes that are written of the event are its record.
pub proof fn lemma_segment_rotated(
    before: SegmentWriter,
    written: Option<Written>,
    event: StoredEventView,
    now: WallTime,
    after: SegmentWriter,
    plan: AppendPlan,
)
    requires
        holds(before, written),
        append_outcome(before, event, now, after, Ok(plan)),
    ensures
        plan.record@ == record_bytes(event),
        plan.opened is Some <==> before.active is None || due(
            before,
            now,
            event_encoding(event).len() + 8,
        ),
        plan.closed is Some <==> before.active is Some && plan.opened is Some,
        plan.closed matches Some(closed) ==> {
            &&& closed.completion == SegmentCompletion::Complete
            &&& closed.index == before.active->Some_0.index
            &&& unix_millis_value(now) == Some(closed.ended_at_unix_millis)
        },
        plan.opened matches Some(opened) ==> {
            &&& opened.index == before.next_segment_index
            &&& after.next_segment_index == before.next_segment_index + 1
            &&& opened.filename@ == open_name(opened.index)
            &&& opened.header@.len() == HEADER_LENGTH
            &&& after.active->Some_0.started_at == now
        },
        plan.opened is None ==> after.next_segment_index == before.next_segment_index
            && after.active->Some_0.started_at == before.active->Some_0.started_at,
        after.active is Some,
        after.next_capture_sequence == before.next_capture_sequence + 1,
        event.capture_sequence == before.next_capture_sequence,
{
    if let Some(opened) = plan.opened {
        crate::recorder::format::lemma_header_round_trip(
            SegmentHeader {
                capture_id: before.capture_id,
                segment_index: before.next_segment_index,
                created_at_unix_millis: unix_millis_value(now)->Some_0,
            },
            Seq::empty(),
        );
    }
}

/// What is written is synchronized as soon as the last synchronization lies the interval
/// back, and not before; that of a new segment counts from its beginning.
pub proof fn lemma_segment_synchronized(
    before: SegmentWriter,
    event: StoredEventView,
    now: WallTime,
    after: SegmentWriter,
    plan: AppendPlan,
)
    requires
        append_outcome(before, event, now, after, Ok(plan)),
        before.limits.sync_interval > 0,
    ensures
        plan.synchronize <==> plan.opened is None && now.nanos()
            - before.active->Some_0.last_sync_at.nanos() >= before.limits.sync_interval,
        plan.synchronize ==> after.active->Some_0.last_sync_at == now,
        plan.opened is Some ==> after.active->Some_0.last_sync_at == now,
        plan.opened is None && !plan.synchronize ==> after.active->Some_0.last_sync_at
            == before.active->Some_0.last_sync_at,
{
}

/// A segment that is closed and listed with the digest of its file is described as it was
/// written.
pub proof fn lemma_closed_segment_described(
    writer: SegmentWriter,
    written: Written,
    now: WallTime,
    manifest: ManifestView,
)
    requires
        holds(writer, Some(written)),
        manifest.capture_id == writer.capture_id.bytes@,
        manifest.segments.len() == writer.active->Some_0.index,
    ensures
        ({
            let closed = writer.closing(now, SegmentCompletion::Complete)->Some_0;
            let entry = entry_of(closed.finalized(sha256(written.bytes())));
            let listed = ManifestView { segments: manifest.segments.push(entry), ..manifest };
            describes_segment(listed, manifest.segments.len() as int, written)
        }),
{
}

proof fn lemma_byte_at(value: nat, width: nat, i: int)
    requires
        0 <= i < width,
    ensures
        le_bytes(value, width).len() == width,
        le_bytes(value, width)[i] == (value / pow256(i as nat)) % 256,
    decreases width,
{
    lemma_le_bytes_len(value, width);
    if i == 0 {
        assert(pow256(0) == 1);
        assert(value / 1 == value);
    } else {
        lemma_byte_at(value / 256, (width - 1) as nat, i - 1);
        let power = pow256((i - 1) as nat);
        crate::bytes::lemma_pow256_monotone(0, (i - 1) as nat);
        assert(pow256(i as nat) == 256 * power);
        vstd::arithmetic::div_mod::lemma_div_denominator(value as int, 256, power as int);
        assert(le_bytes(value, width)[i] == le_bytes(value / 256, (width - 1) as nat)[i - 1]);
    }
}

/// A record is the length of its payload in four bytes, the payload, and the checksum of the
/// payload in four bytes, the least significant byte first.
pub proof fn lemma_record_layout(event: StoredEventView)
    ensures
        ({
            let payload = event_encoding(event);
            let record = record_bytes(event);
            let checksum = crc32c_checksum(payload) as nat;
            &&& record.len() == payload.len() + 8
            &&& record.subrange(4, 4 + payload.len() as int) == payload
            &&& forall|i: int|
                0 <= i < 4 ==> #[trigger] record[i] == (payload.len() / pow256(i as nat)) % 256
            &&& forall|i: int|
                0 <= i < 4 ==> record[payload.len() + 4 + i] == (checksum / #[trigger] pow256(
                    i as nat,
                )) % 256
        }),
{
    reveal(record_bytes);
    let payload = event_encoding(event);
    let record = record_bytes(event);
    let checksum = crc32c_checksum(payload) as nat;
    lemma_le_bytes_len(payload.len(), 4);
    lemma_le_bytes_len(checksum, 4);
    assert(record.subrange(4, 4 + payload.len() as int) =~= payload);
    assert forall|i: int| 0 <= i < 4 implies #[trigger] record[i] == (payload.len() / pow256(
        i as nat,
    )) % 256 by {
        lemma_byte_at(payload.len(), 4, i);
        assert(record[i] == le_bytes(payload.len(), 4)[i]);
    }
    assert forall|i: int| 0 <= i < 4 implies record[payload.len() + 4 + i] == (checksum
        / #[trigger] pow256(i as nat)) % 256 by {
        lemma_byte_at(checksum, 4, i);
        assert(record[payload.len() + 4 + i] == le_bytes(checksum, 4)[i]);
    }
}

/// A header is forty bytes: the letters of the format and a zero byte, the version one, its
/// own length, the identity of the run, the number of the segment and the time of its
/// creation, each number with the least significant byte first.
pub proof fn lemma_header_layout(header: SegmentHeader)
    ensures
        ({
            let bytes = header_bytes(header);
            &&& bytes.len() == 40
            &&& bytes.take(8) == seq![67u8, 86u8, 65u8, 82u8, 76u8, 79u8, 71u8, 0u8]
            &&& bytes[8] == 1 && bytes[9] == 0
            &&& bytes[10] == 40 && bytes[11] == 0
            &&& bytes.subrange(12, 28) == header.capture_id.bytes@
            &&& forall|i: int|
                0 <= i < 4 ==> bytes[28 + i] == (header.segment_index as nat / #[trigger] pow256(
                    i as nat,
                )) % 256
            &&& forall|i: int|
                0 <= i < 8 ==> bytes[32 + i] == (header.created_at_unix_millis as nat
                    / #[trigger] pow256(i as nat)) % 256
        }),
{
    let bytes = header_bytes(header);
    crate::recorder::format::lemma_header_round_trip(header, Seq::empty());
    lemma_le_bytes_len(1, 2);
    lemma_le_bytes_len(40, 2);
    lemma_le_bytes_len(header.segment_index as nat, 4);
    lemma_le_bytes_len(header.created_at_unix_millis as nat, 8);
    reveal_with_fuel(pow256, 2);
    lemma_byte_at(1, 2, 0);
    lemma_byte_at(1, 2, 1);
    lemma_byte_at(40, 2, 0);
    lemma_byte_at(40, 2, 1);
    assert(bytes.take(8) =~= seq![67u8, 86u8, 65u8, 82u8, 76u8, 79u8, 71u8, 0u8]);
    assert(bytes[8] == le_bytes(1, 2)[0] && bytes[9] == le_bytes(1, 2)[1]);
    assert(bytes[10] == le_bytes(40, 2)[0] && bytes[11] == le_bytes(40, 2)[1]);
    assert(bytes.subrange(12, 28) =~= header.capture_id.bytes@);
    assert forall|i: int| 0 <= i < 4 implies bytes[28 + i] == (header.segment_index as nat
        / #[trigger] pow256(i as nat)) % 256 by {
        lemma_byte_at(header.segment_index as nat, 4, i);
        assert(bytes[28 + i] == le_bytes(header.segment_index as nat, 4)[i]);
    }
    assert forall|i: int| 0 <= i < 8 implies bytes[32 + i] == (
    header.created_at_unix_millis as nat / #[trigger] pow256(i as nat)) % 256 by {
        lemma_byte_at(header.created_at_unix_millis as nat, 8, i);
        assert(bytes[32 + i] == le_bytes(header.created_at_unix_millis as nat, 8)[i]);
    }
}

} // verus!
