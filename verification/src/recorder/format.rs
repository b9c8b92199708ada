//! The layout of segment files: a fixed header, then records with their checksums.
use vstd::prelude::*;

use crate::bytes::{
    le_bytes, le_value, lemma_concat_associates, lemma_le_bytes_len, lemma_le_bytes_of_value,
    lemma_le_round_trip, lemma_pow256, push_all, push_le, read_le,
};
use crate::hashing::crc32c_checksum;
use crate::recorder::dto::{StoredEventV1, StoredEventView};
use crate::recorder::payload::{
    decode_event, decoded, encodable, encode_event, event_encoding, lemma_event_round_trip,
};
use crate::text::{decimal, decimal_text, encode_hex, hex};

verus! {

/// The length of the header.
pub const HEADER_LENGTH: usize = 40;

/// The version of the layout.
pub const FORMAT_VERSION: u16 = 1;

/// What a record holds besides its payload: the payload's length and its checksum.
pub const RECORD_OVERHEAD: usize = 8;

/// The bytes that every segment starts with: `CVARLOG` and a zero byte.
pub open spec fn magic() -> Seq<u8> {
    seq![67u8, 86u8, 65u8, 82u8, 76u8, 79u8, 71u8, 0u8]
}

/// The identity of a capture run: the sixteen bytes of a UUID.
#[derive(Clone, Copy, Debug, Eq, PartialEq)]
pub struct CaptureId {
    pub bytes: [u8; 16],
}

/// The hyphenated lower-case rendering of a UUID.
pub open spec fn uuid_text(bytes: Seq<u8>) -> Seq<char> {
    hex(bytes.subrange(0, 4)) + "-"@ + hex(bytes.subrange(4, 6)) + "-"@ + hex(bytes.subrange(6, 8))
        + "-"@ + hex(bytes.subrange(8, 10)) + "-"@ + hex(bytes.subrange(10, 16))
}

/// `Display` of `uuid::Uuid`: the bytes in lower-case hexadecimal, in groups of
/// four, two, two, two and six bytes that hyphens separate.
#[verifier::external_body]
fn hyphenated(bytes: [u8; 16]) -> (text: String)
    ensures
        text@ == uuid_text(bytes@),
{
    uuid::Uuid::from_bytes(bytes).to_string()
}

impl CaptureId {
    pub fn from_bytes(bytes: [u8; 16]) -> (id: Self)
        ensures
            id.bytes == bytes,
    {
        CaptureId { bytes }
    }

    /// Whether two runs are the same run.
    pub fn same(&self, other: &CaptureId) -> (same: bool)
        ensures
            same <==> self.bytes@ == other.bytes@,
    {
        let mut i: usize = 0;
        while i < 16
            invariant
                i <= 16,
                self.bytes@.len() == 16,
                other.bytes@.len() == 16,
                forall|j: int| 0 <= j < i ==> self.bytes@[j] == other.bytes@[j],
            decreases 16 - i,
        {
            if self.bytes[i] != other.bytes[i] {
                assert(self.bytes@[i as int] != other.bytes@[i as int]);
                return false;
            }
            i = i + 1;
        }
        assert(self.bytes@ =~= other.bytes@);
        true
    }

    /// The hyphenated rendering.
    pub fn to_text(&self) -> (text: String)
        ensures
            text@ == uuid_text(self.bytes@),
    {
        hyphenated(self.bytes)
    }
}

/// What the header of a segment says.
#[derive(Clone, Copy, Debug, Eq, PartialEq)]
pub struct SegmentHeader {
    pub capture_id: CaptureId,
    pub segment_index: u32,
    pub created_at_unix_millis: u64,
}

/// The bytes of a header.
pub open spec fn header_bytes(header: SegmentHeader) -> Seq<u8> {
    magic() + le_bytes(FORMAT_VERSION as nat, 2) + le_bytes(HEADER_LENGTH as nat, 2)
        + header.capture_id.bytes@ + le_bytes(header.segment_index as nat, 4) + le_bytes(
        header.created_at_unix_millis as nat,
        8,
    )
}

/// Why bytes are not the header of a segment.
#[derive(Clone, Copy, Debug, Eq, PartialEq, Structural)]
pub enum HeaderError {
    /// The segment ends inside the header.
    UnexpectedEnd,
    InvalidMagic,
    UnsupportedVersion(u16),
    InvalidHeaderLength(u16),
}

/// Why bytes are not the header of a segment, if they are not.
pub open spec fn header_error(bytes: Seq<u8>) -> Option<HeaderError> {
    let version = le_value(bytes.subrange(8, 10)) as u16;
    let length = le_value(bytes.subrange(10, 12)) as u16;
    if bytes.len() < HEADER_LENGTH {
        Some(HeaderError::UnexpectedEnd)
    } else if bytes.take(8) != magic() {
        Some(HeaderError::InvalidMagic)
    } else if version != FORMAT_VERSION {
        Some(HeaderError::UnsupportedVersion(version))
    } else if length != HEADER_LENGTH {
        Some(HeaderError::InvalidHeaderLength(length))
    } else {
        None
    }
}

/// Whether `header` is what the first bytes of a segment say.
pub open spec fn states_header(bytes: Seq<u8>, header: SegmentHeader) -> bool {
    &&& header_error(bytes) is None
    &&& header.capture_id.bytes@ == bytes.subrange(12, 28)
    &&& header.segment_index == le_value(bytes.subrange(28, 32))
    &&& header.created_at_unix_millis == le_value(bytes.subrange(32, 40))
}

/// The bytes of a header.
pub fn write_header(header: SegmentHeader) -> (bytes: Vec<u8>)
    ensures
        bytes@ == header_bytes(header),
        bytes@.len() == HEADER_LENGTH,
{
    let mut out: Vec<u8> = vec![67u8, 86u8, 65u8, 82u8, 76u8, 79u8, 71u8, 0u8];
    assert(out@ =~= magic());
    push_le(&mut out, FORMAT_VERSION as u128, 2);
    push_le(&mut out, HEADER_LENGTH as u128, 2);
    push_all(&mut out, header.capture_id.bytes.as_slice());
    push_le(&mut out, header.segment_index as u128, 4);
    push_le(&mut out, header.created_at_unix_millis as u128, 8);
    proof {
        lemma_le_bytes_len(FORMAT_VERSION as nat, 2);
        lemma_le_bytes_len(HEADER_LENGTH as nat, 2);
        lemma_le_bytes_len(header.segment_index as nat, 4);
        lemma_le_bytes_len(header.created_at_unix_millis as nat, 8);
    }
    out
}

/// Sixteen bytes as an array.
fn sixteen_bytes(bytes: &[u8], from: usize) -> (array: [u8; 16])
    requires
        from + 16 <= bytes@.len(),
    ensures
        array@ == bytes@.subrange(from as int, from + 16),
{
    let mut array: [u8; 16] = [0u8;16];
    let mut i: usize = 0;
    while i < 16
        invariant
            i <= 16,
            from + 16 <= bytes.len(),
            array@.len() == 16,
            forall|j: int| 0 <= j < i ==> array@[j] == bytes@[from + j],
        decreases 16 - i,
    {
        array[i] = bytes[from + i];
        i = i + 1;
    }
    assert(array@ =~= bytes@.subrange(from as int, from + 16));
    array
}

/// Reads the header at the front of a segment.
pub fn read_header(bytes: &[u8]) -> (result: Result<SegmentHeader, HeaderError>)
    ensures
        match result {
            Ok(header) => states_header(bytes@, header),
            Err(error) => header_error(bytes@) == Some(error),
        },
{
    if bytes.len() < HEADER_LENGTH {
        return Err(HeaderError::UnexpectedEnd);
    }
    let expected: [u8; 8] = [67u8, 86u8, 65u8, 82u8, 76u8, 79u8, 71u8, 0u8];
    let mut i: usize = 0;
    while i < 8
        invariant
            i <= 8,
            bytes.len() >= 40,
            expected@ == magic(),
            forall|j: int| 0 <= j < i ==> bytes@[j] == magic()[j],
        decreases 8 - i,
    {
        if bytes[i] != expected[i] {
            assert(bytes@.take(8)[i as int] != magic()[i as int]);
            return Err(HeaderError::InvalidMagic);
        }
        i = i + 1;
    }
    assert(bytes@.take(8) =~= magic());
    proof {
        lemma_pow256();
        lemma_le_bytes_of_value(bytes@.subrange(8, 10));
        lemma_le_bytes_of_value(bytes@.subrange(10, 12));
        lemma_le_bytes_of_value(bytes@.subrange(28, 32));
    }
    let version: u16 = read_le(bytes, 8, 2) as u16;
    if version != FORMAT_VERSION {
        return Err(HeaderError::UnsupportedVersion(version));
    }
    let header_length: u16 = read_le(bytes, 10, 2) as u16;
    if header_length as usize != HEADER_LENGTH {
        return Err(HeaderError::InvalidHeaderLength(header_length));
    }
    Ok(
        SegmentHeader {
            capture_id: CaptureId { bytes: sixteen_bytes(bytes, 12) },
            segment_index: read_le(bytes, 28, 4) as u32,
            created_at_unix_millis: read_le(bytes, 32, 8),
        },
    )
}

/// A header that was written is read back, whatever follows it.
pub proof fn lemma_header_round_trip(header: SegmentHeader, rest: Seq<u8>)
    ensures
        states_header(header_bytes(header) + rest, header),
        header_bytes(header).len() == HEADER_LENGTH,
{
    let bytes = header_bytes(header) + rest;
    lemma_pow256();
    lemma_le_round_trip(FORMAT_VERSION as nat, 2);
    lemma_le_round_trip(HEADER_LENGTH as nat, 2);
    lemma_le_round_trip(header.segment_index as nat, 4);
    lemma_le_round_trip(header.created_at_unix_millis as nat, 8);
    assert(bytes.take(8) =~= magic());
    assert(bytes.subrange(8, 10) =~= le_bytes(FORMAT_VERSION as nat, 2));
    assert(bytes.subrange(10, 12) =~= le_bytes(HEADER_LENGTH as nat, 2));
    assert(bytes.subrange(12, 28) =~= header.capture_id.bytes@);
    assert(bytes.subrange(28, 32) =~= le_bytes(header.segment_index as nat, 4));
    assert(bytes.subrange(32, 40) =~= le_bytes(header.created_at_unix_millis as nat, 8));
}

/// Why an event cannot be framed as a record.
#[derive(Clone, Copy, Debug, Eq, PartialEq, Structural)]
pub enum RecordEncodeError {
    PayloadTooLarge(usize),
}

/// The record of a payload: its length, its bytes, its checksum.
pub open spec fn framed(payload: Seq<u8>) -> Seq<u8> {
    le_bytes(payload.len(), 4) + payload + le_bytes(crc32c_checksum(payload) as nat, 4)
}

/// The record of a stored event.
#[verifier::opaque]
pub open spec fn record_bytes(event: StoredEventView) -> Seq<u8> {
    framed(event_encoding(event))
}

/// Frames a stored event, unless it takes more bytes than a record can hold.
pub fn encode_record(event: &StoredEventV1) -> (result: Result<Vec<u8>, RecordEncodeError>)
    ensures
        encodable(event@),
        match result {
            Ok(record) => {
                &&& event_encoding(event@).len() <= u32::MAX
                &&& record@ == record_bytes(event@)
                &&& record@.len() == event_encoding(event@).len() + RECORD_OVERHEAD
            },
            Err(RecordEncodeError::PayloadTooLarge(length)) => {
                &&& event_encoding(event@).len() > u32::MAX
                &&& length == event_encoding(event@).len()
            },
        },
{
    let payload: Vec<u8> = encode_event(event);
    let length: usize = payload.len();
    if length as u64 > u32::MAX as u64 {
        return Err(RecordEncodeError::PayloadTooLarge(length));
    }
    let mut record: Vec<u8> = Vec::new();
    push_le(&mut record, length as u128, 4);
    push_all(&mut record, payload.as_slice());
    push_le(&mut record, crc32c::crc32c(payload.as_slice()) as u128, 4);
    proof {
        reveal(record_bytes);
        lemma_le_bytes_len(length as nat, 4);
        lemma_le_bytes_len(crc32c_checksum(payload@) as nat, 4);
        assert(record@ =~= record_bytes(event@));
    }
    Ok(record)
}

/// Why there is no record at a place of a segment.
#[derive(Debug, Eq, PartialEq)]
pub enum RecordReadError {
    Truncated { offset: u64 },
    ChecksumMismatch { offset: u64, expected: u32, actual: u32 },
    InvalidPayload { offset: u64, source: String },
}

/// The model of `RecordReadError`.
pub enum RecordErrorView {
    Truncated { offset: u64 },
    ChecksumMismatch { offset: u64, expected: u32, actual: u32 },
    InvalidPayload { offset: u64, source: Seq<char> },
}

impl View for RecordReadError {
    type V = RecordErrorView;

    open spec fn view(&self) -> RecordErrorView {
        match *self {
            RecordReadError::Truncated { offset } => RecordErrorView::Truncated { offset },
            RecordReadError::ChecksumMismatch { offset, expected, actual } =>
                RecordErrorView::ChecksumMismatch { offset, expected, actual },
            RecordReadError::InvalidPayload { offset, source } => RecordErrorView::InvalidPayload {
                offset,
                source: source@,
            },
        }
    }
}

/// `length` bytes from `from` on.
pub open spec fn bytes_at(bytes: Seq<u8>, from: nat, length: nat) -> Seq<u8> {
    bytes.subrange(from as int, (from + length) as int)
}

/// The record at `offset` and the offset behind it; `None` at the end.
pub open spec fn record_reading(bytes: Seq<u8>, offset: nat) -> Result<
    Option<(StoredEventView, nat)>,
    RecordErrorView,
>
    recommends
        offset <= bytes.len(),
{
    let length = le_value(bytes_at(bytes, offset, 4));
    let payload = bytes_at(bytes, offset + 4, length);
    let stored = le_value(bytes_at(bytes, offset + 4 + length, 4)) as u32;
    if offset == bytes.len() {
        Ok(None)
    } else if bytes.len() - offset < RECORD_OVERHEAD || bytes.len() - offset < length
        + RECORD_OVERHEAD {
        Err(RecordErrorView::Truncated { offset: offset as u64 })
    } else if crc32c_checksum(payload) != stored {
        Err(
            RecordErrorView::ChecksumMismatch {
                offset: offset as u64,
                expected: stored,
                actual: crc32c_checksum(payload),
            },
        )
    } else {
        match decoded(payload) {
            Ok(event) => Ok(Some((event, offset + length + RECORD_OVERHEAD as nat))),
            Err(source) => Err(RecordErrorView::InvalidPayload { offset: offset as u64, source }),
        }
    }
}

/// The model of what reading a record gave.
pub open spec fn record_result(
    result: Result<Option<(StoredEventV1, usize)>, RecordReadError>,
) -> Result<Option<(StoredEventView, nat)>, RecordErrorView> {
    match result {
        Ok(Some((event, end))) => Ok(Some((event@, end as nat))),
        Ok(None) => Ok(None),
        Err(error) => Err(error@),
    }
}

/// Reads the record at `offset`.
pub fn read_record(bytes: &[u8], offset: usize) -> (result: Result<
    Option<(StoredEventV1, usize)>,
    RecordReadError,
>)
    requires
        offset <= bytes@.len(),
    ensures
        record_result(result) == record_reading(bytes@, offset as nat),
{
    if offset == bytes.len() {
        return Ok(None);
    }
    let remaining: usize = bytes.len() - offset;
    if remaining < RECORD_OVERHEAD {
        return Err(RecordReadError::Truncated { offset: offset as u64 });
    }
    let length: u64 = read_le(bytes, offset, 4);
    proof {
        lemma_pow256();
        lemma_le_bytes_of_value(bytes@.subrange(offset as int, offset + 4));
    }
    if length > (remaining - RECORD_OVERHEAD) as u64 {
        return Err(RecordReadError::Truncated { offset: offset as u64 });
    }
    let end: usize = offset + 4 + length as usize;
    let payload: &[u8] = vstd::slice::slice_subrange(bytes, offset + 4, end);
    let expected: u32 = read_le(bytes, end, 4) as u32;
    let actual: u32 = crc32c::crc32c(payload);
    if actual != expected {
        return Err(RecordReadError::ChecksumMismatch { offset: offset as u64, expected, actual });
    }
    match decode_event(payload) {
        Ok(event) => Ok(Some((event, end + 4))),
        Err(source) => Err(RecordReadError::InvalidPayload { offset: offset as u64, source }),
    }
}

/// A record that was written is read back, wherever it stands.
pub proof fn lemma_record_round_trip(before: Seq<u8>, event: StoredEventView, after: Seq<u8>)
    requires
        encodable(event),
        event_encoding(event).len() <= u32::MAX,
    ensures
        record_reading(before + record_bytes(event) + after, before.len()) == Ok::<
            Option<(StoredEventView, nat)>,
            RecordErrorView,
        >(Some((event, before.len() + record_bytes(event).len()))),
        record_bytes(event).len() == event_encoding(event).len() + RECORD_OVERHEAD,
{
    reveal(record_bytes);
    let payload = event_encoding(event);
    let bytes = before + record_bytes(event) + after;
    let offset = before.len();
    lemma_pow256();
    lemma_le_round_trip(payload.len(), 4);
    lemma_le_round_trip(crc32c_checksum(payload) as nat, 4);
    lemma_event_round_trip(event, Seq::empty());
    assert(bytes_at(bytes, offset, 4) =~= le_bytes(payload.len(), 4));
    assert(bytes_at(bytes, offset + 4, payload.len()) =~= payload);
    assert(bytes_at(bytes, offset + 4 + payload.len(), 4) =~= le_bytes(
        crc32c_checksum(payload) as nat,
        4,
    ));
}

/// A record depends on its own bytes alone: cutting the segment behind it changes
/// nothing.
pub proof fn lemma_record_prefix(bytes: Seq<u8>, offset: nat, cut: nat)
    requires
        offset <= cut <= bytes.len(),
        record_reading(bytes, offset) matches Ok(Some((event, end))) && end <= cut,
    ensures
        record_reading(bytes.take(cut as int), offset) == record_reading(bytes, offset),
{
    let short = bytes.take(cut as int);
    let length = le_value(bytes_at(bytes, offset, 4));
    assert(bytes_at(short, offset, 4) =~= bytes_at(bytes, offset, 4));
    assert(bytes_at(short, offset + 4, length) =~= bytes_at(bytes, offset + 4, length));
    assert(bytes_at(short, offset + 4 + length, 4) =~= bytes_at(bytes, offset + 4 + length, 4));
}

impl HeaderError {
    /// The rendering of the error.
    pub open spec fn message(self) -> Seq<char> {
        match self {
            HeaderError::UnexpectedEnd => "cannot read segment header: failed to fill whole buffer"@,
            HeaderError::InvalidMagic => "invalid segment magic"@,
            HeaderError::UnsupportedVersion(version) => "unsupported segment format version "@
                + decimal(version as nat),
            HeaderError::InvalidHeaderLength(length) => "invalid segment header length "@ + decimal(
                length as nat,
            ),
        }
    }

    pub fn to_text(&self) -> (text: String)
        ensures
            text@ == self.message(),
    {
        match self {
            HeaderError::UnexpectedEnd =>
                "cannot read segment header: failed to fill whole buffer".to_owned(),
            HeaderError::InvalidMagic => "invalid segment magic".to_owned(),
            HeaderError::UnsupportedVersion(version) => {
                let mut text: String = "unsupported segment format version ".to_owned();
                text.append(decimal_text(*version as u128).as_str());
                text
            },
            HeaderError::InvalidHeaderLength(length) => {
                let mut text: String = "invalid segment header length ".to_owned();
                text.append(decimal_text(*length as u128).as_str());
                text
            },
        }
    }
}

impl RecordEncodeError {
    /// The rendering of the error.
    pub open spec fn message(self) -> Seq<char> {
        match self {
            RecordEncodeError::PayloadTooLarge(length) => "record payload of "@ + decimal(
                length as nat,
            ) + " bytes exceeds u32 framing"@,
        }
    }

    pub fn to_text(&self) -> (text: String)
        ensures
            text@ == self.message(),
    {
        match self {
            RecordEncodeError::PayloadTooLarge(length) => {
                let mut text: String = "record payload of ".to_owned();
                text.append(decimal_text(*length as u128).as_str());
                text.append(" bytes exceeds u32 framing");
                text
            },
        }
    }
}

/// A checksum as eight hexadecimal digits behind `0x`.
pub open spec fn checksum_text(checksum: u32) -> Seq<char> {
    "0x"@ + hex(le_bytes(checksum as nat, 4).reverse())
}

fn render_checksum(checksum: u32) -> (text: String)
    ensures
        text@ == checksum_text(checksum),
{
    let mut little: Vec<u8> = Vec::new();
    push_le(&mut little, checksum as u128, 4);
    proof {
        lemma_le_bytes_len(checksum as nat, 4);
        assert(little@ =~= le_bytes(checksum as nat, 4));
    }
    let big: [u8; 4] = [little[3], little[2], little[1], little[0]];
    assert(big@ =~= le_bytes(checksum as nat, 4).reverse());
    let mut text: String = "0x".to_owned();
    text.append(encode_hex(big.as_slice()).as_str());
    text
}

impl RecordErrorView {
    /// The rendering of the error.
    pub open spec fn message(self) -> Seq<char> {
        match self {
            RecordErrorView::Truncated { offset } => "truncated record at offset "@ + decimal(
                offset as nat,
            ),
            RecordErrorView::ChecksumMismatch { offset, expected, actual } =>
                "CRC32C mismatch at offset "@ + decimal(offset as nat) + ": stored "@
                    + checksum_text(expected) + ", computed "@ + checksum_text(actual),
            RecordErrorView::InvalidPayload { offset, source } =>
                "invalid Postcard payload at offset "@ + decimal(offset as nat) + ": "@ + source,
        }
    }
}

impl RecordReadError {
    pub fn to_text(&self) -> (text: String)
        ensures
            text@ == self@.message(),
    {
        match self {
            RecordReadError::Truncated { offset } => {
                let mut text: String = "truncated record at offset ".to_owned();
                text.append(decimal_text(*offset as u128).as_str());
                text
            },
            RecordReadError::ChecksumMismatch { offset, expected, actual } => {
                let mut text: String = "CRC32C mismatch at offset ".to_owned();
                text.append(decimal_text(*offset as u128).as_str());
                text.append(": stored ");
                text.append(render_checksum(*expected).as_str());
                text.append(", computed ");
                text.append(render_checksum(*actual).as_str());
                text
            },
            RecordReadError::InvalidPayload { offset, source } => {
                let mut text: String = "invalid Postcard payload at offset ".to_owned();
                text.append(decimal_text(*offset as u128).as_str());
                text.append(": ");
                text.append(source.as_str());
                text
            },
        }
    }
}

} // verus!
