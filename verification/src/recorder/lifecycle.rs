//! What becomes of a capture's manifest from its start to its end.
use vstd::prelude::*;

use crate::recorder::capture::{
    finished_manifest, finishing, interrupted_index, CaptureProgress, CoordinatorErrorView,
};
use crate::recorder::manifest::{
    configuration_digest, started_manifest, CaptureStatus, ManifestView, MetadataView,
};
use crate::recorder::repaired::sound_manifest;
use crate::recorder::writer::{unix_millis_value, SegmentLimits, WallTime};

verus! {

/// A run that has started counts as crashed, in its first segment, until it ends: whoever finds
/// its manifest will repair it. The manifest holds what is known of the run.
pub proof fn lemma_started_run_counts_as_crashed(
    capture_id: Seq<u8>,
    started_at: u64,
    queue_capacity: usize,
    limits: SegmentLimits,
    metadata: MetadataView,
)
    ensures
        ({
            let manifest = started_manifest(
                capture_id,
                started_at,
                queue_capacity,
                limits,
                metadata,
                configuration_digest(metadata.configuration),
            );
            &&& manifest.capture_status == CaptureStatus::IncompleteProcessCrash
            &&& interrupted_index(manifest) == Ok::<Option<u32>, CoordinatorErrorView>(Some(0))
            &&& manifest.segments.len() == 0
            &&& sound_manifest(manifest)
            &&& manifest.schema_version == 1
            &&& manifest.capture_id == capture_id
            &&& manifest.utc_start_unix_millis == started_at
            &&& manifest.utc_end_unix_millis is None
            &&& manifest.configuration == metadata.configuration
            &&& manifest.configured_markets == metadata.configured_markets
            &&& manifest.resolved_venue_markets == metadata.resolved_venue_markets
            &&& manifest.git_commit == metadata.git_commit
            &&& manifest.dirty_build == metadata.dirty_build
            &&& manifest.queue_capacity == queue_capacity
            &&& manifest.rotation_max_bytes == limits.max_bytes
            &&& manifest.data_quality.disconnects == 0
            &&& manifest.data_quality.order_book_unavailable == 0
            &&& manifest.data_quality.trade_stream_gaps == 0
            &&& manifest.data_quality.invalid_messages == 0
            &&& manifest.data_quality.deduplicated_trades == 0
        }),
{
}

/// A run is complete if and only if it was to end as complete and took in everything that it
/// was offered. A run that has ended is not repaired unless it is to count as crashed. Its
/// manifest says when it ended and what was counted, and lists the segments that it listed
/// before.
pub proof fn lemma_finished_run(
    manifest: ManifestView,
    progress: CaptureProgress,
    requested: CaptureStatus,
    ended_at: WallTime,
)
    ensures
        ({
            let finished = finished_manifest(manifest, finishing(progress, requested, ended_at));
            &&& finished.capture_status == CaptureStatus::Complete <==> requested
                == CaptureStatus::Complete && !progress.queue_full
            &&& !progress.queue_full ==> finished.capture_status == requested
            &&& progress.queue_full ==> finished.capture_status
                == CaptureStatus::IncompleteQueueFull
            &&& finished.capture_status != CaptureStatus::IncompleteProcessCrash
                ==> interrupted_index(finished) == Ok::<Option<u32>, CoordinatorErrorView>(None)
            &&& finished.utc_end_unix_millis == unix_millis_value(ended_at)
            &&& finished.queue_high_water_mark == progress.queue_high_water_mark
            &&& finished.approximate_owned_event_bytes == progress.approximate_owned_event_bytes
            &&& finished.data_quality == progress.data_quality
            &&& finished.segments == manifest.segments
            &&& finished.capture_id == manifest.capture_id
            &&& finished.utc_start_unix_millis == manifest.utc_start_unix_millis
            &&& sound_manifest(finished) == sound_manifest(manifest)
        }),
{
}

/// A time is told in whole milliseconds since the epoch, rounded down; a time before the epoch
/// is not told.
pub proof fn lemma_time_told(time: WallTime)
    ensures
        time.nanos() < 0 ==> unix_millis_value(time) is None,
        unix_millis_value(time) matches Some(millis) ==> millis * 1_000_000 <= time.nanos()
            < (millis + 1) * 1_000_000,
        0 <= time.nanos() < 1_000_000 * (u64::MAX + 1) ==> unix_millis_value(time) is Some,
{
}

} // verus!
