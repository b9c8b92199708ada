//! Validation of whole captures before anything of them is replayed.
use vstd::prelude::*;

use crate::hashing::sha256;
use crate::market_data::event::EventView;
use crate::market_data::NormalizedMarketEvent;
use crate::recorder::dto::{
    kept, lemma_restored_event_unique, lemma_stored_event_restores, restores, stored_form,
    StorageConversionError, StoredEventV1, StoredEventView,
};
use crate::recorder::manifest::{
    configuration_digest, configuration_sha256, segment_views, CaptureManifest, CaptureStatus,
    EntryView, ManifestView, SegmentManifestEntry, MANIFEST_SCHEMA_VERSION,
};
use crate::recorder::reader::{
    event_views, file_has_extension, has_extension, lemma_segment_reads_back, mismatch,
    mismatch_text, prefixed, read_segment, recordable, segment_reading, ReadSegment,
    SegmentErrorView, SegmentReadError,
};
use crate::recorder::writer::{lemma_log_name, log_filename, log_name, Written};
use crate::text::{
    debug_rendering, debug_text, decimal, decimal_text, encode_hex, hex, same_text, sorts_before,
    text_less,
};

verus! {

/// What a caller accepts of a capture.
#[derive(Clone, Copy, Debug, Eq, PartialEq, Structural)]
pub struct ValidationOptions {
    pub allow_incomplete: bool,
}

impl Default for ValidationOptions {
    fn default() -> (options: Self)
        ensures
            !options.allow_incomplete,
    {
        ValidationOptions { allow_incomplete: false }
    }
}

/// A file of a capture directory.
#[derive(Debug, Eq, PartialEq)]
pub struct CaptureFile {
    pub filename: String,
    /// Whether it is a regular file rather than a directory or a device.
    pub regular: bool,
    pub bytes: Vec<u8>,
}

/// The model of `CaptureFile`.
pub struct FileView {
    pub filename: Seq<char>,
    pub regular: bool,
    pub bytes: Seq<u8>,
}

impl View for CaptureFile {
    type V = FileView;

    open spec fn view(&self) -> FileView {
        FileView { filename: self.filename@, regular: self.regular, bytes: self.bytes@ }
    }
}

/// The models of files.
pub open spec fn file_views(files: Seq<CaptureFile>) -> Seq<FileView> {
    files.map_values(|file: CaptureFile| file@)
}

/// An event of a validated capture.
#[derive(Debug, Eq, PartialEq)]
pub struct ValidatedReplayEvent {
    pub capture_sequence: u64,
    pub event: NormalizedMarketEvent,
}

/// The model of `ValidatedReplayEvent`.
pub struct ReplayView {
    pub capture_sequence: u64,
    pub event: EventView,
}

impl View for ValidatedReplayEvent {
    type V = ReplayView;

    open spec fn view(&self) -> ReplayView {
        ReplayView { capture_sequence: self.capture_sequence, event: self.event@ }
    }
}

impl Clone for ValidatedReplayEvent {
    fn clone(&self) -> (copy: Self)
        ensures
            copy@ == self@,
    {
        ValidatedReplayEvent {
            capture_sequence: self.capture_sequence,
            event: self.event.clone(),
        }
    }
}

/// The models of replay events.
pub open spec fn replay_views(events: Seq<ValidatedReplayEvent>) -> Seq<ReplayView> {
    events.map_values(|event: ValidatedReplayEvent| event@)
}

/// Why a capture is not replayed.
#[allow(inconsistent_fields)]
#[derive(Debug, Eq, PartialEq)]
pub enum CaptureValidationError {
    /// The configuration has no JSON form.
    Configuration(String),
    UnsupportedManifestSchema(u32),
    IncompleteCapture(CaptureStatus),
    ConfigurationHashMismatch,
    SegmentIndexMismatch { expected: u32, actual: u32 },
    SegmentFilenameMismatch { expected: String, actual: String },
    UnlistedLogFile(String),
    MissingLogFile(String),
    SegmentRead(SegmentReadError),
    SegmentHashMismatch(u32),
    SegmentByteSizeMismatch(u32),
    SegmentRecordCountMismatch(u32),
    SegmentSequenceRangeMismatch(u32),
    InvalidSegmentCompletion { index: u32, value: String },
    CaptureSequenceMismatch { expected: u64, actual: u64 },
    StorageConversion { capture_sequence: u64, source: StorageConversionError },
}

/// The model of `CaptureValidationError`.
#[allow(inconsistent_fields)]
pub enum ValidationErrorView {
    Configuration(Seq<char>),
    UnsupportedManifestSchema(u32),
    IncompleteCapture(CaptureStatus),
    ConfigurationHashMismatch,
    SegmentIndexMismatch { expected: u32, actual: u32 },
    SegmentFilenameMismatch { expected: Seq<char>, actual: Seq<char> },
    UnlistedLogFile(Seq<char>),
    MissingLogFile(Seq<char>),
    SegmentRead(SegmentErrorView),
    SegmentHashMismatch(u32),
    SegmentByteSizeMismatch(u32),
    SegmentRecordCountMismatch(u32),
    SegmentSequenceRangeMismatch(u32),
    InvalidSegmentCompletion { index: u32, value: Seq<char> },
    CaptureSequenceMismatch { expected: u64, actual: u64 },
    StorageConversion { capture_sequence: u64, source: StorageConversionError },
}

impl View for CaptureValidationError {
    type V = ValidationErrorView;

    open spec fn view(&self) -> ValidationErrorView {
        match *self {
            CaptureValidationError::Configuration(detail) => ValidationErrorView::Configuration(
                detail@,
            ),
            CaptureValidationError::UnsupportedManifestSchema(version) =>
                ValidationErrorView::UnsupportedManifestSchema(version),
            CaptureValidationError::IncompleteCapture(status) =>
                ValidationErrorView::IncompleteCapture(status),
            CaptureValidationError::ConfigurationHashMismatch =>
                ValidationErrorView::ConfigurationHashMismatch,
            CaptureValidationError::SegmentIndexMismatch { expected, actual } =>
                ValidationErrorView::SegmentIndexMismatch { expected, actual },
            CaptureValidationError::SegmentFilenameMismatch { expected, actual } =>
                ValidationErrorView::SegmentFilenameMismatch {
                    expected: expected@,
                    actual: actual@,
                },
            CaptureValidationError::UnlistedLogFile(filename) =>
                ValidationErrorView::UnlistedLogFile(filename@),
            CaptureValidationError::MissingLogFile(filename) => ValidationErrorView::MissingLogFile(
                filename@,
            ),
            CaptureValidationError::SegmentRead(error) => ValidationErrorView::SegmentRead(error@),
            CaptureValidationError::SegmentHashMismatch(index) =>
                ValidationErrorView::SegmentHashMismatch(index),
            CaptureValidationError::SegmentByteSizeMismatch(index) =>
                ValidationErrorView::SegmentByteSizeMismatch(index),
            CaptureValidationError::SegmentRecordCountMismatch(index) =>
                ValidationErrorView::SegmentRecordCountMismatch(index),
            CaptureValidationError::SegmentSequenceRangeMismatch(index) =>
                ValidationErrorView::SegmentSequenceRangeMismatch(index),
            CaptureValidationError::InvalidSegmentCompletion { index, value } =>
                ValidationErrorView::InvalidSegmentCompletion { index, value: value@ },
            CaptureValidationError::CaptureSequenceMismatch { expected, actual } =>
                ValidationErrorView::CaptureSequenceMismatch { expected, actual },
            CaptureValidationError::StorageConversion { capture_sequence, source } =>
                ValidationErrorView::StorageConversion { capture_sequence, source },
        }
    }
}

/// What speaks against a manifest as such, if anything does.
pub open spec fn manifest_error(manifest: ManifestView, options: ValidationOptions) -> Option<
    ValidationErrorView,
> {
    if manifest.schema_version != MANIFEST_SCHEMA_VERSION {
        Some(ValidationErrorView::UnsupportedManifestSchema(manifest.schema_version))
    } else if manifest.capture_status != CaptureStatus::Complete && !options.allow_incomplete {
        Some(ValidationErrorView::IncompleteCapture(manifest.capture_status))
    } else {
        None
    }
}

/// What speaks against a manifest's configuration, if anything does.
pub open spec fn configuration_error(manifest: ManifestView) -> Option<ValidationErrorView> {
    if configuration_digest(manifest.configuration) != manifest.configuration_sha256 {
        Some(ValidationErrorView::ConfigurationHashMismatch)
    } else {
        None
    }
}

/// Whether a regular file of the given name is there.
pub open spec fn is_file(files: Seq<FileView>, filename: Seq<char>) -> bool {
    exists|i: int|
        0 <= i < files.len() && (#[trigger] files[i]).filename == filename && files[i].regular
}

/// Whether the manifest lists a file.
pub open spec fn is_listed(segments: Seq<EntryView>, filename: Seq<char>) -> bool {
    exists|i: int| 0 <= i < segments.len() && (#[trigger] segments[i]).filename == filename
}

/// The first name in text order that the manifest lists without there being a file.
pub open spec fn least_missing(segments: Seq<EntryView>, files: Seq<FileView>) -> Option<Seq<char>>
    decreases segments.len(),
{
    if segments.len() == 0 {
        None
    } else {
        let filename = segments.last().filename;
        match least_missing(segments.drop_last(), files) {
            None => if is_file(files, filename) {
                None
            } else {
                Some(filename)
            },
            Some(least) => if !is_file(files, filename) && text_less(filename, least) {
                Some(filename)
            } else {
                Some(least)
            },
        }
    }
}

/// The first finalized segment that is there without being listed.
pub open spec fn first_unlisted(segments: Seq<EntryView>, files: Seq<FileView>) -> Option<Seq<char>>
    decreases files.len(),
{
    if files.len() == 0 {
        None
    } else {
        match first_unlisted(segments, files.drop_last()) {
            Some(filename) => Some(filename),
            None => if has_extension(files.last().filename, "log"@) && !is_listed(
                segments,
                files.last().filename,
            ) {
                Some(files.last().filename)
            } else {
                None
            },
        }
    }
}

/// What speaks against the files of a capture, if anything does.
pub open spec fn inventory_error(segments: Seq<EntryView>, files: Seq<FileView>) -> Option<
    ValidationErrorView,
> {
    match least_missing(segments, files) {
        Some(filename) => Some(ValidationErrorView::MissingLogFile(filename)),
        None => match first_unlisted(segments, files) {
            Some(filename) => Some(ValidationErrorView::UnlistedLogFile(filename)),
            None => None,
        },
    }
}

/// What speaks against the entry at a position of the manifest, if anything does.
pub open spec fn entry_error(manifest: ManifestView, position: int) -> Option<ValidationErrorView> {
    let segment = manifest.segments[position];
    if position > u32::MAX {
        Some(
            ValidationErrorView::SegmentIndexMismatch { expected: u32::MAX, actual: segment.index },
        )
    } else if segment.index != position {
        Some(
            ValidationErrorView::SegmentIndexMismatch {
                expected: position as u32,
                actual: segment.index,
            },
        )
    } else if segment.filename != log_name(position as u32) {
        Some(
            ValidationErrorView::SegmentFilenameMismatch {
                expected: log_name(position as u32),
                actual: segment.filename,
            },
        )
    } else if segment.completion_status != "complete"@ && (segment.completion_status
        != "recovered_after_crash"@ || manifest.capture_status == CaptureStatus::Complete) {
        Some(
            ValidationErrorView::InvalidSegmentCompletion {
                index: position as u32,
                value: segment.completion_status,
            },
        )
    } else {
        None
    }
}

/// The bytes of the first file of the given name.
pub open spec fn file_bytes(files: Seq<FileView>, filename: Seq<char>) -> Seq<u8>
    decreases files.len(),
{
    if files.len() == 0 {
        Seq::empty()
    } else if files[0].filename == filename {
        files[0].bytes
    } else {
        file_bytes(files.skip(1), filename)
    }
}

/// What speaks against the contents of a segment that was read, if anything does.
pub open spec fn contents_error(
    segment: EntryView,
    bytes: Seq<u8>,
    stored: Seq<StoredEventView>,
) -> Option<ValidationErrorView> {
    if hex(sha256(bytes)) != segment.sha256 {
        Some(ValidationErrorView::SegmentHashMismatch(segment.index))
    } else if bytes.len() != segment.byte_size {
        Some(ValidationErrorView::SegmentByteSizeMismatch(segment.index))
    } else if stored.len() != segment.record_count {
        Some(ValidationErrorView::SegmentRecordCountMismatch(segment.index))
    } else if stored[0].capture_sequence != segment.first_capture_sequence
        || stored.last().capture_sequence != segment.last_capture_sequence {
        Some(ValidationErrorView::SegmentSequenceRangeMismatch(segment.index))
    } else {
        None
    }
}

/// Whether stored events are restored to `events`, their sequence numbers running from
/// `start` on.
pub open spec fn replays(
    stored: Seq<StoredEventView>,
    start: nat,
    events: Seq<ReplayView>,
) -> bool {
    &&& events.len() == stored.len()
    &&& forall|i: int|
        0 <= i < events.len() ==> replays_one(stored[i], start + i as nat, #[trigger] events[i])
}

/// Whether a stored event is restored under the expected sequence number.
pub open spec fn replays_one(stored: StoredEventView, expected: nat, event: ReplayView) -> bool {
    &&& stored.capture_sequence == expected
    &&& event.capture_sequence == expected
    &&& expected < u64::MAX
    &&& restores(stored, Ok(event.event))
}

/// Whether `error` is what speaks against a stored event at its place.
pub open spec fn replay_fails(
    stored: StoredEventView,
    expected: nat,
    error: ValidationErrorView,
) -> bool {
    if stored.capture_sequence != expected {
        error == (ValidationErrorView::CaptureSequenceMismatch {
            expected: expected as u64,
            actual: stored.capture_sequence,
        })
    } else {
        ||| exists|source: StorageConversionError|
            restores(stored, Err(source)) && error == (ValidationErrorView::StorageConversion {
                capture_sequence: stored.capture_sequence,
                source,
            })
        ||| {
            &&& exists|event: EventView| restores(stored, Ok(event))
            &&& stored.capture_sequence == u64::MAX
            &&& error == (ValidationErrorView::CaptureSequenceMismatch {
                expected: u64::MAX,
                actual: stored.capture_sequence,
            })
        }
    }
}

/// Whether the segment at a position is valid and holds exactly `events`, the first of
/// them under the sequence number `start`.
pub open spec fn segment_valid(
    manifest: ManifestView,
    position: int,
    bytes: Seq<u8>,
    start: nat,
    events: Seq<ReplayView>,
) -> bool {
    let segment = manifest.segments[position];
    &&& entry_error(manifest, position) is None
    &&& segment_reading(segment.filename, bytes, manifest.capture_id, segment.index) matches Ok(
        stored,
    )
    &&& contents_error(segment, bytes, stored) is None
    &&& replays(stored, start, events)
}

/// Whether `error` is the first thing that speaks against the segment at a position.
pub open spec fn segment_fails(
    manifest: ManifestView,
    position: int,
    bytes: Seq<u8>,
    start: nat,
    error: ValidationErrorView,
) -> bool {
    let segment = manifest.segments[position];
    if entry_error(manifest, position) is Some {
        entry_error(manifest, position) == Some(error)
    } else {
        match segment_reading(segment.filename, bytes, manifest.capture_id, segment.index) {
            Err(reason) => error == ValidationErrorView::SegmentRead(reason),
            Ok(stored) => if contents_error(segment, bytes, stored) is Some {
                contents_error(segment, bytes, stored) == Some(error)
            } else {
                events_fail(stored, start, error)
            },
        }
    }
}

/// Whether `error` is what speaks against the first stored event that cannot be
/// replayed.
pub open spec fn events_fail(
    stored: Seq<StoredEventView>,
    start: nat,
    error: ValidationErrorView,
) -> bool {
    exists|k: int, events: Seq<ReplayView>|
        0 <= k < stored.len() && #[trigger] replays(stored.take(k), start, events) && replay_fails(
            #[trigger] stored[k],
            (start + k) as nat,
            error,
        )
}

/// Whether the first `count` segments, whose files hold `contents`, are valid and hold
/// exactly `events`.
pub open spec fn segments_valid(
    manifest: ManifestView,
    contents: Seq<Seq<u8>>,
    count: nat,
    events: Seq<ReplayView>,
) -> bool
    decreases count,
{
    if count == 0 {
        events.len() == 0
    } else {
        let before = events.len() - manifest.segments[count - 1].record_count;
        &&& before >= 0
        &&& segments_valid(manifest, contents, (count - 1) as nat, events.take(before))
        &&& segment_valid(
            manifest,
            count - 1,
            contents[count - 1],
            (before + 1) as nat,
            events.skip(before),
        )
    }
}

/// One more valid segment adds its events.
pub proof fn lemma_segment_adds(
    manifest: ManifestView,
    contents: Seq<Seq<u8>>,
    count: nat,
    before: Seq<ReplayView>,
    more: Seq<ReplayView>,
)
    requires
        segments_valid(manifest, contents, count, before),
        segment_valid(manifest, count as int, contents[count as int], before.len() + 1, more),
    ensures
        segments_valid(manifest, contents, count + 1, before + more),
{
    let events = before + more;
    assert(more.len() == manifest.segments[count as int].record_count);
    assert(events.take(before.len() as int) =~= before);
    assert(events.skip(before.len() as int) =~= more);
}

/// What speaks against a capture before any segment is read, if anything does.
pub open spec fn preliminary_error(
    manifest: ManifestView,
    files: Seq<FileView>,
    options: ValidationOptions,
) -> Option<ValidationErrorView> {
    if manifest_error(manifest, options) is Some {
        manifest_error(manifest, options)
    } else if configuration_error(manifest) is Some {
        configuration_error(manifest)
    } else {
        inventory_error(manifest.segments, files)
    }
}

/// What the files of a capture's segments hold.
pub open spec fn segment_contents(segments: Seq<EntryView>, files: Seq<FileView>) -> Seq<Seq<u8>> {
    Seq::new(segments.len(), |i: int| file_bytes(files, segments[i].filename))
}

/// Whether `result` is what validation makes of a capture: the events of all segments,
/// or the first thing that speaks against it.
pub open spec fn validation(
    manifest: ManifestView,
    files: Seq<FileView>,
    options: ValidationOptions,
    result: Result<Seq<ReplayView>, ValidationErrorView>,
) -> bool {
    let contents = segment_contents(manifest.segments, files);
    if preliminary_error(manifest, files, options) is Some {
        result == Err::<Seq<ReplayView>, ValidationErrorView>(
            preliminary_error(manifest, files, options)->Some_0,
        )
    } else {
        match result {
            Ok(events) => segments_valid(manifest, contents, manifest.segments.len(), events),
            Err(error) => exists|position: nat, before: Seq<ReplayView>|
                fails_at(manifest, contents, position, before, error),
        }
    }
}

/// Whether the segments in front of a position are valid and hold `before`, and
/// `error` speaks against the segment at the position.
pub open spec fn fails_at(
    manifest: ManifestView,
    contents: Seq<Seq<u8>>,
    position: nat,
    before: Seq<ReplayView>,
    error: ValidationErrorView,
) -> bool {
    &&& position < manifest.segments.len()
    &&& segments_valid(manifest, contents, position, before)
    &&& segment_fails(
        manifest,
        position as int,
        contents[position as int],
        before.len() + 1,
        error,
    )
}

/// Whether the events `after` are those of `before` and then those of the segment at a
/// position.
pub open spec fn extends(
    manifest: ManifestView,
    position: nat,
    bytes: Seq<u8>,
    before: Seq<ReplayView>,
    after: Seq<ReplayView>,
) -> bool {
    &&& before.len() <= after.len()
    &&& after.take(before.len() as int) == before
    &&& segment_valid(
        manifest,
        position as int,
        bytes,
        before.len() + 1,
        after.skip(before.len() as int),
    )
}

/// Checks what a manifest says of its capture as a whole.
pub fn validate_manifest(manifest: &CaptureManifest, options: ValidationOptions) -> (result: Result<
    (),
    CaptureValidationError,
>)
    ensures
        match result {
            Ok(()) => manifest_error(manifest@, options) is None,
            Err(error) => manifest_error(manifest@, options) == Some(error@),
        },
{
    if manifest.schema_version != MANIFEST_SCHEMA_VERSION {
        return Err(
            CaptureValidationError::UnsupportedManifestSchema(manifest.schema_version),
        );
    }
    if manifest.capture_status != CaptureStatus::Complete && !options.allow_incomplete {
        return Err(CaptureValidationError::IncompleteCapture(manifest.capture_status));
    }
    Ok(())
}

/// Checks a manifest's configuration against its digest.
pub fn validate_configuration_hash(manifest: &CaptureManifest) -> (result: Result<
    (),
    CaptureValidationError,
>)
    ensures
        match result {
            Ok(()) => configuration_error(manifest@) is None,
            Err(error) => configuration_error(manifest@) == Some(error@),
        },
{
    match configuration_sha256(&manifest.configuration) {
        Err(error) => Err(CaptureValidationError::Configuration(error)),
        Ok(digest) => {
            if same_text(digest.as_str(), manifest.configuration_sha256.as_str()) {
                Ok(())
            } else {
                Err(CaptureValidationError::ConfigurationHashMismatch)
            }
        },
    }
}

fn file_exists(files: &Vec<CaptureFile>, filename: &str) -> (r: bool)
    ensures
        r == is_file(file_views(files@), filename@),
{
    let mut i: usize = 0;
    while i < files.len()
        invariant
            i <= files.len(),
            forall|j: int|
                0 <= j < i ==> !((#[trigger] file_views(files@)[j]).filename == filename@
                    && file_views(files@)[j].regular),
        decreases files.len() - i,
    {
        if files[i].regular && same_text(files[i].filename.as_str(), filename) {
            assert(file_views(files@)[i as int].filename == filename@);
            return true;
        }
        i = i + 1;
    }
    false
}

fn segment_listed(segments: &Vec<SegmentManifestEntry>, filename: &str) -> (r: bool)
    ensures
        r == is_listed(segment_views(segments@), filename@),
{
    let mut i: usize = 0;
    while i < segments.len()
        invariant
            i <= segments.len(),
            forall|j: int|
                0 <= j < i ==> (#[trigger] segment_views(segments@)[j]).filename != filename@,
        decreases segments.len() - i,
    {
        if same_text(segments[i].filename.as_str(), filename) {
            assert(segment_views(segments@)[i as int].filename == filename@);
            return true;
        }
        i = i + 1;
    }
    false
}

/// Checks that exactly the listed segments are there.
pub fn validate_log_inventory(manifest: &CaptureManifest, files: &Vec<CaptureFile>) -> (result:
    Result<(), CaptureValidationError>)
    ensures
        match result {
            Ok(()) => inventory_error(manifest@.segments, file_views(files@)) is None,
            Err(error) => inventory_error(manifest@.segments, file_views(files@)) == Some(error@),
        },
{
    let segments: &Vec<SegmentManifestEntry> = &manifest.segments;
    let ghost listed = segment_views(segments@);
    let ghost present = file_views(files@);
    let mut least: Option<usize> = None;
    let mut i: usize = 0;
    while i < segments.len()
        invariant
            i <= segments.len(),
            listed == segment_views(segments@),
            present == file_views(files@),
            match least {
                None => least_missing(listed.take(i as int), present) is None,
                Some(at) => at < segments.len() && least_missing(listed.take(i as int), present)
                    == Some(listed[at as int].filename),
            },
        decreases segments.len() - i,
    {
        assert(listed.take(i + 1).drop_last() =~= listed.take(i as int));
        let filename: &String = &segments[i].filename;
        if !file_exists(files, filename.as_str()) {
            match least {
                None => {
                    least = Some(i);
                },
                Some(at) => {
                    if sorts_before(filename.as_str(), segments[at].filename.as_str()) {
                        least = Some(i);
                    }
                },
            }
        }
        i = i + 1;
    }
    assert(listed.take(listed.len() as int) =~= listed);
    if let Some(at) = least {
        return Err(CaptureValidationError::MissingLogFile(segments[at].filename.clone()));
    }
    let mut j: usize = 0;
    while j < files.len()
        invariant
            j <= files.len(),
            listed == segment_views(segments@),
            present == file_views(files@),
            least_missing(listed, present) is None,
            segments@ == manifest.segments@,
            first_unlisted(listed, present.take(j as int)) is None,
        decreases files.len() - j,
    {
        assert(present.take(j + 1).drop_last() =~= present.take(j as int));
        let filename: &String = &files[j].filename;
        if file_has_extension(filename.as_str(), "log") && !segment_listed(
            segments,
            filename.as_str(),
        ) {
            proof {
                lemma_first_unlisted_prefix(listed, present, j + 1);
            }
            return Err(CaptureValidationError::UnlistedLogFile(filename.clone()));
        }
        j = j + 1;
    }
    assert(present.take(present.len() as int) =~= present);
    Ok(())
}

proof fn lemma_first_unlisted_prefix(
    segments: Seq<EntryView>,
    files: Seq<FileView>,
    length: int,
)
    requires
        0 <= length <= files.len(),
        first_unlisted(segments, files.take(length)) is Some,
    ensures
        first_unlisted(segments, files) == first_unlisted(segments, files.take(length)),
    decreases files.len(),
{
    if length == files.len() {
        assert(files.take(length) =~= files);
    } else {
        assert(files.drop_last().take(length) =~= files.take(length));
        lemma_first_unlisted_prefix(segments, files.drop_last(), length);
    }
}

/// Checks the entry at a position of the manifest.
pub fn validate_entry(manifest: &CaptureManifest, position: usize) -> (result: Result<
    (),
    CaptureValidationError,
>)
    requires
        position < manifest.segments@.len(),
    ensures
        match result {
            Ok(()) => entry_error(manifest@, position as int) is None,
            Err(error) => entry_error(manifest@, position as int) == Some(error@),
        },
{
    let segment: &SegmentManifestEntry = &manifest.segments[position];
    assert(manifest@.segments[position as int] == segment@);
    if position as u64 > u32::MAX as u64 {
        return Err(
            CaptureValidationError::SegmentIndexMismatch {
                expected: u32::MAX,
                actual: segment.index,
            },
        );
    }
    let expected_index: u32 = position as u32;
    if segment.index != expected_index {
        return Err(
            CaptureValidationError::SegmentIndexMismatch {
                expected: expected_index,
                actual: segment.index,
            },
        );
    }
    let expected_filename: String = log_filename(expected_index);
    if !same_text(segment.filename.as_str(), expected_filename.as_str()) {
        return Err(
            CaptureValidationError::SegmentFilenameMismatch {
                expected: expected_filename,
                actual: segment.filename.clone(),
            },
        );
    }
    let complete: bool = same_text(segment.completion_status.as_str(), "complete");
    let recovered: bool = same_text(segment.completion_status.as_str(), "recovered_after_crash");
    if !complete && (!recovered || manifest.capture_status == CaptureStatus::Complete) {
        return Err(
            CaptureValidationError::InvalidSegmentCompletion {
                index: expected_index,
                value: segment.completion_status.clone(),
            },
        );
    }
    Ok(())
}

fn check_contents(segment: &SegmentManifestEntry, bytes: &Vec<u8>, read: &ReadSegment) -> (result:
    Result<(), CaptureValidationError>)
    requires
        read.sha256@ == sha256(bytes@),
        read.byte_size == bytes@.len(),
        read.events@.len() > 0,
    ensures
        match result {
            Ok(()) => contents_error(segment@, bytes@, event_views(read.events@)) is None,
            Err(error) => contents_error(segment@, bytes@, event_views(read.events@)) == Some(
                error@,
            ),
        },
{
    let ghost stored = event_views(read.events@);
    if !same_text(encode_hex(read.sha256.as_slice()).as_str(), segment.sha256.as_str()) {
        return Err(CaptureValidationError::SegmentHashMismatch(segment.index));
    }
    if read.byte_size != segment.byte_size {
        return Err(CaptureValidationError::SegmentByteSizeMismatch(segment.index));
    }
    if read.events.len() as u64 != segment.record_count {
        return Err(CaptureValidationError::SegmentRecordCountMismatch(segment.index));
    }
    let last: usize = read.events.len() - 1;
    assert(stored[0] == read.events@[0]@);
    assert(stored.last() == read.events@[last as int]@);
    if read.events[0].capture_sequence() != segment.first_capture_sequence
        || read.events[last].capture_sequence() != segment.last_capture_sequence {
        return Err(CaptureValidationError::SegmentSequenceRangeMismatch(segment.index));
    }
    Ok(())
}

fn replay_events(stored: &Vec<StoredEventV1>, start: u64) -> (result: Result<
    Vec<ValidatedReplayEvent>,
    CaptureValidationError,
>)
    ensures
        match result {
            Ok(events) => {
                &&& replays(event_views(stored@), start as nat, replay_views(events@))
                &&& start + events@.len() <= u64::MAX
            },
            Err(error) => events_fail(event_views(stored@), start as nat, error@),
        },
{
    let ghost views = event_views(stored@);
    let mut events: Vec<ValidatedReplayEvent> = Vec::new();
    let mut expected: u64 = start;
    let mut i: usize = 0;
    while i < stored.len()
        invariant
            i <= stored.len(),
            views == event_views(stored@),
            expected == start + i,
            events@.len() == i,
            replays(views.take(i as int), start as nat, replay_views(events@)),
        decreases stored.len() - i,
    {
        assert(views[i as int] == stored@[i as int]@);
        let actual: u64 = stored[i].capture_sequence();
        if actual != expected {
            let error: CaptureValidationError = CaptureValidationError::CaptureSequenceMismatch {
                expected,
                actual,
            };
            assert(replay_fails(views[i as int], (start + i) as nat, error@));
            return Err(error);
        }
        let event: NormalizedMarketEvent = match stored[i].to_normalized() {
            Ok(event) => event,
            Err(source) => {
                let error: CaptureValidationError = CaptureValidationError::StorageConversion {
                    capture_sequence: actual,
                    source,
                };
                assert(restores(views[i as int], Err(source)));
                assert(replay_fails(views[i as int], (start + i) as nat, error@));
                return Err(error);
            },
        };
        if actual == u64::MAX {
            let error: CaptureValidationError = CaptureValidationError::CaptureSequenceMismatch {
                expected: u64::MAX,
                actual,
            };
            assert(restores(views[i as int], Ok(event@)));
            assert(replay_fails(views[i as int], (start + i) as nat, error@));
            return Err(error);
        }
        let ghost before = replay_views(events@);
        let ghost replayed = ReplayView { capture_sequence: actual, event: event@ };
        events.push(ValidatedReplayEvent { capture_sequence: actual, event });
        expected = actual + 1;
        i = i + 1;
        proof {
            let after = replay_views(events@);
            assert(after =~= before.push(replayed));
            assert forall|j: int| 0 <= j < after.len() implies replays_one(
                views.take(i as int)[j],
                start as nat + j as nat,
                #[trigger] after[j],
            ) by {
                if j < i - 1 {
                    assert(before[j] == after[j]);
                    assert(views.take(i - 1)[j] == views.take(i as int)[j]);
                }
            }
        }
    }
    assert(views.take(views.len() as int) =~= views);
    Ok(events)
}

/// Checks the bytes of the segment at a position whose entry was checked, and restores
/// its events.
pub fn validate_segment(
    manifest: &CaptureManifest,
    position: usize,
    bytes: &Vec<u8>,
    expected_capture_sequence: u64,
) -> (result: Result<Vec<ValidatedReplayEvent>, CaptureValidationError>)
    requires
        position < manifest.segments@.len(),
        entry_error(manifest@, position as int) is None,
    ensures
        match result {
            Ok(events) => {
                &&& segment_valid(
                    manifest@,
                    position as int,
                    bytes@,
                    expected_capture_sequence as nat,
                    replay_views(events@),
                )
                &&& expected_capture_sequence + events@.len() <= u64::MAX
            },
            Err(error) => segment_fails(
                manifest@,
                position as int,
                bytes@,
                expected_capture_sequence as nat,
                error@,
            ),
        },
{
    let segment: &SegmentManifestEntry = &manifest.segments[position];
    assert(manifest@.segments[position as int] == segment@);
    let read: ReadSegment = match read_segment(
        segment.filename.as_str(),
        bytes.as_slice(),
        manifest.capture_id,
        position as u32,
    ) {
        Ok(read) => read,
        Err(error) => return Err(CaptureValidationError::SegmentRead(error)),
    };
    match check_contents(segment, bytes, &read) {
        Ok(()) => {},
        Err(error) => return Err(error),
    }
    replay_events(&read.events, expected_capture_sequence)
}

/// The validation of a capture, segment by segment.
pub struct CaptureValidation {
    manifest: CaptureManifest,
    position: usize,
    events: Vec<ValidatedReplayEvent>,
    contents: Ghost<Seq<Seq<u8>>>,
}

impl CaptureValidation {
    /// The manifest of the capture.
    pub closed spec fn manifest_view(&self) -> ManifestView {
        self.manifest@
    }

    /// The bytes of the segments that were accepted.
    pub closed spec fn accepted(&self) -> Seq<Seq<u8>> {
        self.contents@
    }

    /// The events of the segments that were accepted.
    pub closed spec fn event_views(&self) -> Seq<ReplayView> {
        replay_views(self.events@)
    }

    /// The accepted segments are the first ones of the manifest, valid, and hold the
    /// events.
    #[verifier::type_invariant]
    spec fn accepted_valid(self) -> bool {
        &&& self.position == self.contents@.len()
        &&& self.position <= self.manifest.segments@.len()
        &&& self.events@.len() < u64::MAX
        &&& segments_valid(
            self.manifest@,
            self.contents@,
            self.position as nat,
            replay_views(self.events@),
        )
    }

    /// Checks the manifest and the names of the files; nothing of a segment yet.
    pub fn begin(
        manifest: CaptureManifest,
        files: &Vec<CaptureFile>,
        options: ValidationOptions,
    ) -> (result: Result<Self, CaptureValidationError>)
        ensures
            match result {
                Ok(validation) => {
                    &&& preliminary_error(manifest@, file_views(files@), options) is None
                    &&& validation.manifest_view() == manifest@
                    &&& validation.accepted() == Seq::<Seq<u8>>::empty()
                    &&& validation.event_views() == Seq::<ReplayView>::empty()
                },
                Err(error) => preliminary_error(manifest@, file_views(files@), options) == Some(
                    error@,
                ),
            },
    {
        match validate_manifest(&manifest, options) {
            Ok(()) => {},
            Err(error) => return Err(error),
        }
        match validate_configuration_hash(&manifest) {
            Ok(()) => {},
            Err(error) => return Err(error),
        }
        match validate_log_inventory(&manifest, files) {
            Ok(()) => {},
            Err(error) => return Err(error),
        }
        let events: Vec<ValidatedReplayEvent> = Vec::new();
        assert(replay_views(events@) =~= Seq::empty());
        Ok(CaptureValidation { manifest, position: 0, events, contents: Ghost(Seq::empty()) })
    }

    /// The name of the file to accept next, once its entry was checked; `None` behind
    /// the last.
    pub fn next_segment(&self) -> (result: Result<Option<String>, CaptureValidationError>)
        ensures
            self.accepted().len() <= self.manifest_view().segments.len(),
            match result {
                Ok(None) => self.accepted().len() == self.manifest_view().segments.len(),
                Ok(Some(filename)) => {
                    &&& self.accepted().len() < self.manifest_view().segments.len()
                    &&& entry_error(self.manifest_view(), self.accepted().len() as int) is None
                    &&& filename@ == self.manifest_view().segments[self.accepted().len() as int].filename
                },
                Err(error) => {
                    &&& self.accepted().len() < self.manifest_view().segments.len()
                    &&& entry_error(self.manifest_view(), self.accepted().len() as int) == Some(
                        error@,
                    )
                },
            },
    {
        proof {
            use_type_invariant(self);
        }
        if self.position == self.manifest.segments.len() {
            return Ok(None);
        }
        match validate_entry(&self.manifest, self.position) {
            Ok(()) => Ok(Some(self.manifest.segments[self.position].filename.clone())),
            Err(error) => Err(error),
        }
    }

    /// Takes in the bytes of the next segment.
    pub fn accept(self, bytes: &Vec<u8>) -> (result: Result<Self, CaptureValidationError>)
        requires
            self.accepted().len() < self.manifest_view().segments.len(),
            entry_error(self.manifest_view(), self.accepted().len() as int) is None,
        ensures
            match result {
                Ok(validation) => {
                    &&& validation.manifest_view() == self.manifest_view()
                    &&& validation.accepted() == self.accepted().push(bytes@)
                    &&& extends(
                        self.manifest_view(),
                        self.accepted().len(),
                        bytes@,
                        self.event_views(),
                        validation.event_views(),
                    )
                },
                Err(error) => segment_fails(
                    self.manifest_view(),
                    self.accepted().len() as int,
                    bytes@,
                    self.event_views().len() + 1,
                    error@,
                ),
            },
    {
        proof {
            use_type_invariant(&self);
        }
        let ghost before = replay_views(self.events@);
        let _ = self.manifest.segments.len();
        let mut events: Vec<ValidatedReplayEvent> = self.events;
        let expected: u64 = events.len() as u64 + 1;
        let mut more: Vec<ValidatedReplayEvent> = match validate_segment(
            &self.manifest,
            self.position,
            bytes,
            expected,
        ) {
            Ok(more) => more,
            Err(error) => return Err(error),
        };
        let ghost added = replay_views(more@);
        let ghost contents = self.contents@.push(bytes@);
        events.append(&mut more);
        proof {
            assert(replay_views(events@) =~= before + added);
            lemma_contents_prefix(
                self.manifest@,
                self.contents@,
                contents,
                self.position as nat,
                before,
            );
            assert(contents[self.position as int] == bytes@);
            lemma_segment_adds(self.manifest@, contents, self.position as nat, before, added);
            assert((before + added).take(before.len() as int) =~= before);
            assert((before + added).skip(before.len() as int) =~= added);
        }
        Ok(
            CaptureValidation {
                manifest: self.manifest,
                position: self.position + 1,
                events,
                contents: Ghost(contents),
            },
        )
    }

    /// The validated capture, once every segment was accepted.
    pub fn finish(self, directory: String) -> (capture: ValidatedCapture)
        requires
            self.accepted().len() == self.manifest_view().segments.len(),
        ensures
            capture.directory_view() == directory@,
            capture.manifest_view() == self.manifest_view(),
            capture.event_views() == self.event_views(),
            segments_valid(
                self.manifest_view(),
                self.accepted(),
                self.manifest_view().segments.len(),
                self.event_views(),
            ),
    {
        proof {
            use_type_invariant(&self);
        }
        ValidatedCapture { directory, manifest: self.manifest, events: self.events }
    }
}

/// Which segments are valid depends on their own bytes alone.
pub proof fn lemma_contents_prefix(
    manifest: ManifestView,
    contents: Seq<Seq<u8>>,
    longer: Seq<Seq<u8>>,
    count: nat,
    events: Seq<ReplayView>,
)
    requires
        count <= contents.len() <= longer.len(),
        forall|i: int| 0 <= i < count ==> contents[i] == #[trigger] longer[i],
        segments_valid(manifest, contents, count, events),
    ensures
        segments_valid(manifest, longer, count, events),
    decreases count,
{
    if count > 0 {
        let before = events.len() - manifest.segments[count - 1].record_count;
        lemma_contents_prefix(
            manifest,
            contents,
            longer,
            (count - 1) as nat,
            events.take(before),
        );
        assert(contents[count - 1] == longer[count - 1]);
    }
}

/// A capture of which every segment was checked before anything is handed out.
#[derive(Debug)]
pub struct ValidatedCapture {
    directory: String,
    manifest: CaptureManifest,
    events: Vec<ValidatedReplayEvent>,
}

fn find_bytes<'a>(files: &'a Vec<CaptureFile>, filename: &str) -> (bytes: Option<&'a Vec<u8>>)
    ensures
        match bytes {
            Some(bytes) => bytes@ == file_bytes(file_views(files@), filename@),
            None => file_bytes(file_views(files@), filename@) == Seq::<u8>::empty(),
        },
{
    let ghost views = file_views(files@);
    let mut i: usize = 0;
    assert(views.skip(0) =~= views);
    while i < files.len()
        invariant
            i <= files.len(),
            views == file_views(files@),
            file_bytes(views, filename@) == file_bytes(views.skip(i as int), filename@),
        decreases files.len() - i,
    {
        assert(views.skip(i as int)[0] == views[i as int]);
        assert(views.skip(i as int).skip(1) =~= views.skip(i + 1));
        if same_text(files[i].filename.as_str(), filename) {
            return Some(&files[i].bytes);
        }
        i = i + 1;
    }
    None
}

impl ValidatedCapture {
    /// The directory of the capture.
    pub closed spec fn directory_view(&self) -> Seq<char> {
        self.directory@
    }

    /// The manifest of the capture.
    pub closed spec fn manifest_view(&self) -> ManifestView {
        self.manifest@
    }

    /// The events of the capture.
    pub closed spec fn event_views(&self) -> Seq<ReplayView> {
        replay_views(self.events@)
    }

    /// Validates a whole capture.
    pub fn open(
        directory: String,
        manifest: CaptureManifest,
        files: &Vec<CaptureFile>,
        options: ValidationOptions,
    ) -> (result: Result<Self, CaptureValidationError>)
        ensures
            validation(
                manifest@,
                file_views(files@),
                options,
                match result {
                    Ok(capture) => Ok(capture.event_views()),
                    Err(error) => Err(error@),
                },
            ),
            result matches Ok(capture) ==> capture.directory_view() == directory@
                && capture.manifest_view() == manifest@,
    {
        let ghost view = manifest@;
        let ghost present = file_views(files@);
        let ghost contents = segment_contents(view.segments, present);
        let mut checked: CaptureValidation = match CaptureValidation::begin(
            manifest,
            files,
            options,
        ) {
            Ok(validation) => validation,
            Err(error) => return Err(error),
        };
        loop
            invariant
                view == manifest@,
                preliminary_error(view, present, options) is None,
                present == file_views(files@),
                contents == segment_contents(view.segments, present),
                checked.manifest_view() == view,
                checked.accepted().len() <= view.segments.len(),
                forall|i: int|
                    0 <= i < checked.accepted().len() ==> #[trigger] checked.accepted()[i]
                        == contents[i],
                segments_valid(
                    view,
                    contents,
                    checked.accepted().len(),
                    checked.event_views(),
                ),
            ensures
                preliminary_error(view, present, options) is None,
                checked.manifest_view() == view,
                checked.accepted().len() == view.segments.len(),
                segments_valid(view, contents, view.segments.len(), checked.event_views()),
            decreases view.segments.len() - checked.accepted().len(),
        {
            let filename: String = match checked.next_segment() {
                Ok(Some(filename)) => filename,
                Ok(None) => {
                    break ;
                },
                Err(error) => {
                    assert(fails_at(
                        view,
                        contents,
                        checked.accepted().len(),
                        checked.event_views(),
                        error@,
                    ));
                    return Err(error);
                },
            };
            let nothing: Vec<u8> = Vec::new();
            let bytes: &Vec<u8> = match find_bytes(files, filename.as_str()) {
                Some(bytes) => bytes,
                None => &nothing,
            };
            let ghost position = checked.accepted().len();
            let ghost before = checked.event_views();
            assert(bytes@ =~= contents[position as int]);
            match checked.accept(bytes) {
                Ok(next) => {
                    proof {
                        let after = next.event_views();
                        let more = after.skip(before.len() as int);
                        lemma_segment_adds(view, contents, position, before, more);
                        assert(before + more =~= after);
                    }
                    checked = next;
                },
                Err(error) => {
                    assert(fails_at(view, contents, position, before, error@));
                    return Err(error);
                },
            }
        }
        Ok(checked.finish(directory))
    }

    pub fn directory(&self) -> (directory: &str)
        ensures
            directory@ == self.directory_view(),
    {
        self.directory.as_str()
    }

    pub fn manifest(&self) -> (manifest: &CaptureManifest)
        ensures
            manifest@ == self.manifest_view(),
    {
        &self.manifest
    }

    pub fn events(&self) -> (events: &[ValidatedReplayEvent])
        ensures
            replay_views(events@) == self.event_views(),
    {
        self.events.as_slice()
    }

    pub fn into_events(self) -> (events: Vec<ValidatedReplayEvent>)
        ensures
            replay_views(events@) == self.event_views(),
    {
        self.events
    }

    /// How many events the capture holds.
    pub fn event_count(&self) -> (count: u64)
        ensures
            count == self.event_views().len(),
    {
        self.events.len() as u64
    }
}

/// The events of valid segments are numbered from one on, without gaps.
pub proof fn lemma_validated_sequences(
    manifest: ManifestView,
    contents: Seq<Seq<u8>>,
    count: nat,
    events: Seq<ReplayView>,
)
    requires
        segments_valid(manifest, contents, count, events),
    ensures
        forall|i: int|
            0 <= i < events.len() ==> (#[trigger] events[i]).capture_sequence == i + 1,
    decreases count,
{
    if count > 0 {
        let split = events.len() - manifest.segments[count - 1].record_count;
        let before = events.take(split);
        let more = events.skip(split);
        lemma_validated_sequences(manifest, contents, (count - 1) as nat, before);
        assert forall|i: int| 0 <= i < events.len() implies (
        #[trigger] events[i]).capture_sequence == i + 1 by {
            if i < split {
                assert(events[i] == before[i]);
            } else {
                assert(events[i] == more[i - split]);
            }
        }
    }
}

/// What a capture replays is determined by its manifest and the bytes of its segments.
pub proof fn lemma_replay_deterministic(
    manifest: ManifestView,
    contents: Seq<Seq<u8>>,
    count: nat,
    left: Seq<ReplayView>,
    right: Seq<ReplayView>,
)
    requires
        segments_valid(manifest, contents, count, left),
        segments_valid(manifest, contents, count, right),
    ensures
        left == right,
    decreases count,
{
    if count > 0 {
        let segment = manifest.segments[count - 1];
        let from_left = left.len() - segment.record_count;
        let from_right = right.len() - segment.record_count;
        lemma_replay_deterministic(
            manifest,
            contents,
            (count - 1) as nat,
            left.take(from_left),
            right.take(from_right),
        );
        let stored = segment_reading(
            segment.filename,
            contents[count - 1],
            manifest.capture_id,
            segment.index,
        )->Ok_0;
        let more = left.skip(from_left);
        let other = right.skip(from_right);
        assert forall|i: int| 0 <= i < more.len() implies more[i] == other[i] by {
            assert(replays_one(stored[i], (from_left + 1) as nat + i as nat, more[i]));
            assert(replays_one(stored[i], (from_left + 1) as nat + i as nat, other[i]));
            lemma_restored_event_unique(stored[i], more[i].event, other[i].event);
        }
        assert(more =~= other);
        assert(left =~= left.take(from_left) + more);
        assert(right =~= right.take(from_right) + other);
    } else {
        assert(left =~= right);
    }
}

/// Whether a manifest's entry describes a segment file as it was written.
pub open spec fn describes_segment(
    manifest: ManifestView,
    position: int,
    written: Written,
) -> bool {
    let segment = manifest.segments[position];
    &&& position <= u32::MAX
    &&& written.header.capture_id.bytes@ == manifest.capture_id
    &&& written.header.segment_index == position
    &&& segment.index == position
    &&& segment.filename == log_name(position as u32)
    &&& segment.sha256 == hex(sha256(written.bytes()))
    &&& segment.byte_size == written.bytes().len()
    &&& segment.record_count == written.events.len()
    &&& segment.first_capture_sequence == written.events[0].capture_sequence
    &&& segment.last_capture_sequence == written.events.last().capture_sequence
    &&& segment.completion_status == "complete"@
}

/// What replaying a recorded event under its number gives.
pub open spec fn replayed(event: EventView, sequence: nat) -> ReplayView {
    ReplayView { capture_sequence: sequence as u64, event: kept(event) }
}

/// What replaying recorded events gives.
pub open spec fn replayed_events(events: Seq<EventView>) -> Seq<ReplayView> {
    Seq::new(events.len(), |i: int| replayed(events[i], (i + 1) as nat))
}

/// Whether the segments up to a count hold the storage forms of the first `total`
/// events, in order.
pub open spec fn stores_events(
    written: Seq<Written>,
    count: nat,
    events: Seq<EventView>,
    total: int,
) -> bool
    decreases count,
{
    if count == 0 {
        total == 0
    } else {
        let stored = written[count - 1].events;
        let from = total - stored.len();
        &&& 0 <= from
        &&& total <= events.len()
        &&& stored.len() > 0
        &&& recordable(stored)
        &&& forall|i: int|
            0 <= i < stored.len() ==> stored_form((from + i + 1) as u64, events[from + i]) == Ok::<
                StoredEventView,
                StorageConversionError,
            >(#[trigger] stored[i])
        &&& stores_events(written, (count - 1) as nat, events, from)
    }
}

/// A capture that was recorded in order is replayed as it was recorded: every event
/// that went in comes out, once, in its order and under its number.
pub proof fn lemma_recorded_capture_replays(
    manifest: ManifestView,
    written: Seq<Written>,
    events: Seq<EventView>,
    count: nat,
    total: int,
)
    requires
        count <= written.len(),
        0 <= total <= events.len(),
        events.len() < u64::MAX,
        forall|i: int| 0 <= i < events.len() ==> (#[trigger] events[i]).valid(),
        forall|i: int|
            0 <= i < written.len() ==> describes_segment(manifest, i, #[trigger] written[i]),
        stores_events(written, count, events, total),
    ensures
        segments_valid(
            manifest,
            Seq::new(written.len(), |i: int| written[i].bytes()),
            count,
            replayed_events(events.take(total)),
        ),
    decreases count,
{
    let contents = Seq::new(written.len(), |i: int| written[i].bytes());
    let result = replayed_events(events.take(total));
    if count > 0 {
        let position = count - 1;
        let segment = written[position];
        let stored = segment.events;
        let from = total - stored.len();
        assert(describes_segment(manifest, position, segment));
        lemma_recorded_capture_replays(manifest, written, events, (count - 1) as nat, from);
        lemma_log_name(position as u32);
        lemma_segment_reads_back(log_name(position as u32), segment.header, stored);
        assert(result.take(from) =~= replayed_events(events.take(from)));
        let more = result.skip(from);
        assert forall|i: int| 0 <= i < more.len() implies replays_one(
            stored[i],
            (from + 1) as nat + i as nat,
            #[trigger] more[i],
        ) by {
            let sequence = (from + i + 1) as u64;
            assert(stored_form(sequence, events[from + i]) == Ok::<
                StoredEventView,
                StorageConversionError,
            >(stored[i]));
            lemma_stored_event_restores(sequence, events[from + i], stored[i]);
            assert(more[i] == replayed(events[from + i], (from + i + 1) as nat));
            assert(stored[i].capture_sequence < u64::MAX);
        }
        assert(segment_valid(manifest, position, contents[position], (from + 1) as nat, more));
    }
}

impl ValidationErrorView {
    /// The rendering of the error.
    pub open spec fn message(self) -> Seq<char> {
        match self {
            ValidationErrorView::Configuration(detail) => "capture validation I/O failed: "@
                + detail,
            ValidationErrorView::UnsupportedManifestSchema(version) =>
                "unsupported manifest schema version "@ + decimal(version as nat),
            ValidationErrorView::IncompleteCapture(status) => "capture status is "@ + status.name()
                + "; pass --allow-incomplete to replay it explicitly"@,
            ValidationErrorView::ConfigurationHashMismatch =>
                "manifest configuration SHA-256 does not match"@,
            ValidationErrorView::SegmentIndexMismatch { expected, actual } => mismatch(
                "segment index is not contiguous: expected "@,
                expected as nat,
                actual as nat,
            ),
            ValidationErrorView::SegmentFilenameMismatch { expected, actual } =>
                "segment filename mismatch: expected "@ + expected + ", received "@ + actual,
            ValidationErrorView::UnlistedLogFile(filename) =>
                "capture contains unlisted log file "@ + filename,
            ValidationErrorView::MissingLogFile(filename) => "manifest segment is missing: "@
                + filename,
            ValidationErrorView::SegmentRead(error) => error.message(),
            ValidationErrorView::SegmentHashMismatch(index) => about_segment(
                index,
                " SHA-256 does not match manifest"@,
            ),
            ValidationErrorView::SegmentByteSizeMismatch(index) => about_segment(
                index,
                " byte size does not match manifest"@,
            ),
            ValidationErrorView::SegmentRecordCountMismatch(index) => about_segment(
                index,
                " record count does not match manifest"@,
            ),
            ValidationErrorView::SegmentSequenceRangeMismatch(index) => about_segment(
                index,
                " Capture Sequence range does not match manifest"@,
            ),
            ValidationErrorView::InvalidSegmentCompletion { index, value } => about_segment(
                index,
                " has invalid completion status "@,
            ) + debug_rendering(value),
            ValidationErrorView::CaptureSequenceMismatch { expected, actual } => mismatch(
                "non-contiguous Capture Sequence: expected "@,
                expected as nat,
                actual as nat,
            ),
            ValidationErrorView::StorageConversion { capture_sequence, source } =>
                "Capture Sequence "@ + decimal(capture_sequence as nat) + " cannot be restored: "@
                    + source.message(),
        }
    }
}

/// A remark about a segment.
pub open spec fn about_segment(index: u32, remark: Seq<char>) -> Seq<char> {
    "segment "@ + decimal(index as nat) + remark
}

fn segment_remark(index: u32, remark: &str) -> (text: String)
    ensures
        text@ == about_segment(index, remark@),
{
    let mut text: String = "segment ".to_owned();
    text.append(decimal_text(index as u128).as_str());
    text.append(remark);
    text
}

impl CaptureValidationError {
    pub fn to_text(&self) -> (text: String)
        ensures
            text@ == self@.message(),
    {
        match self {
            CaptureValidationError::Configuration(detail) => prefixed(
                "capture validation I/O failed: ",
                detail.as_str(),
            ),
            CaptureValidationError::UnsupportedManifestSchema(version) => prefixed(
                "unsupported manifest schema version ",
                decimal_text(*version as u128).as_str(),
            ),
            CaptureValidationError::IncompleteCapture(status) => {
                let mut text: String = prefixed(
                    "capture status is ",
                    status.name_text().as_str(),
                );
                text.append("; pass --allow-incomplete to replay it explicitly");
                text
            },
            CaptureValidationError::ConfigurationHashMismatch =>
                "manifest configuration SHA-256 does not match".to_owned(),
            CaptureValidationError::SegmentIndexMismatch { expected, actual } => mismatch_text(
                "segment index is not contiguous: expected ",
                *expected as u64,
                *actual as u64,
            ),
            CaptureValidationError::SegmentFilenameMismatch { expected, actual } => {
                let mut text: String = prefixed(
                    "segment filename mismatch: expected ",
                    expected.as_str(),
                );
                text.append(", received ");
                text.append(actual.as_str());
                text
            },
            CaptureValidationError::UnlistedLogFile(filename) => prefixed(
                "capture contains unlisted log file ",
                filename.as_str(),
            ),
            CaptureValidationError::MissingLogFile(filename) => prefixed(
                "manifest segment is missing: ",
                filename.as_str(),
            ),
            CaptureValidationError::SegmentRead(error) => error.to_text(),
            CaptureValidationError::SegmentHashMismatch(index) => segment_remark(
                *index,
                " SHA-256 does not match manifest",
            ),
            CaptureValidationError::SegmentByteSizeMismatch(index) => segment_remark(
                *index,
                " byte size does not match manifest",
            ),
            CaptureValidationError::SegmentRecordCountMismatch(index) => segment_remark(
                *index,
                " record count does not match manifest",
            ),
            CaptureValidationError::SegmentSequenceRangeMismatch(index) => segment_remark(
                *index,
                " Capture Sequence range does not match manifest",
            ),
            CaptureValidationError::InvalidSegmentCompletion { index, value } => {
                let mut text: String = segment_remark(*index, " has invalid completion status ");
                text.append(debug_text(value.as_str()).as_str());
                text
            },
            CaptureValidationError::CaptureSequenceMismatch { expected, actual } => mismatch_text(
                "non-contiguous Capture Sequence: expected ",
                *expected,
                *actual,
            ),
            CaptureValidationError::StorageConversion { capture_sequence, source } => {
                let mut text: String = prefixed(
                    "Capture Sequence ",
                    decimal_text(*capture_sequence as u128).as_str(),
                );
                text.append(" cannot be restored: ");
                text.append(source.to_text().as_str());
                text
            },
        }
    }
}

} // verus!
