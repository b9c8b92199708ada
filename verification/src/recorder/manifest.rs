//! The manifest of a capture run.
use vstd::prelude::*;
use vstd::utf8::encode_utf8;

use crate::hashing::{sha256, sha256_of};
use crate::json::{entries_to_vec, entry_views, in_key_order, object_text};
use crate::recorder::format::CaptureId;
use crate::recorder::writer::{FinalizedSegment, FinalizedView, SegmentCompletion, SegmentLimits};
use crate::text::{
    encode_hex, hex, lemma_text_less_irreflexive, lemma_text_less_total, lemma_text_less_transitive,
    optional_text, same_text, sorts_before, text_less,
};

verus! {

/// The version of the manifest that is written.
pub const MANIFEST_SCHEMA_VERSION: u32 = 1;

/// How a capture run ended.
#[derive(Clone, Copy, Debug, Eq, PartialEq, Structural)]
pub enum CaptureStatus {
    Complete,
    IncompleteQueueFull,
    IncompleteProcessCrash,
    IncompleteIoError,
}

impl CaptureStatus {
    /// The name of the status.
    pub open spec fn name(self) -> Seq<char> {
        match self {
            CaptureStatus::Complete => "Complete"@,
            CaptureStatus::IncompleteQueueFull => "IncompleteQueueFull"@,
            CaptureStatus::IncompleteProcessCrash => "IncompleteProcessCrash"@,
            CaptureStatus::IncompleteIoError => "IncompleteIoError"@,
        }
    }

    pub fn name_text(self) -> (name: String)
        ensures
            name@ == self.name(),
    {
        match self {
            CaptureStatus::Complete => "Complete".to_owned(),
            CaptureStatus::IncompleteQueueFull => "IncompleteQueueFull".to_owned(),
            CaptureStatus::IncompleteProcessCrash => "IncompleteProcessCrash".to_owned(),
            CaptureStatus::IncompleteIoError => "IncompleteIoError".to_owned(),
        }
    }
}

/// Configuration values under distinct keys, in the order of the keys.
#[derive(Debug, Eq, PartialEq)]
pub struct Configuration {
    entries: Vec<(String, String)>,
}

impl View for Configuration {
    type V = Seq<(Seq<char>, Seq<char>)>;

    closed spec fn view(&self) -> Seq<(Seq<char>, Seq<char>)> {
        entry_views(self.entries@)
    }
}

/// Entries with one more: in its place, or instead of the one with the same key.
pub open spec fn inserted(
    entries: Seq<(Seq<char>, Seq<char>)>,
    key: Seq<char>,
    value: Seq<char>,
) -> Seq<(Seq<char>, Seq<char>)>
    decreases entries.len(),
{
    if entries.len() == 0 {
        seq![(key, value)]
    } else if text_less(entries[0].0, key) {
        seq![entries[0]] + inserted(entries.skip(1), key, value)
    } else if entries[0].0 == key {
        seq![(key, value)] + entries.skip(1)
    } else {
        seq![(key, value)] + entries
    }
}

proof fn lemma_inserted_at(
    entries: Seq<(Seq<char>, Seq<char>)>,
    key: Seq<char>,
    value: Seq<char>,
    at: int,
)
    requires
        0 <= at <= entries.len(),
        forall|i: int| 0 <= i < at ==> text_less((#[trigger] entries[i]).0, key),
    ensures
        inserted(entries, key, value) == entries.take(at) + inserted(entries.skip(at), key, value),
    decreases at,
{
    if at == 0 {
        assert(entries.skip(0) =~= entries);
        assert(entries.take(0) + inserted(entries, key, value) =~= inserted(entries, key, value));
    } else {
        assert(text_less(entries[0].0, key));
        assert forall|i: int| 0 <= i < at - 1 implies text_less(
            (#[trigger] entries.skip(1)[i]).0,
            key,
        ) by {
            assert(entries.skip(1)[i] == entries[i + 1]);
        }
        lemma_inserted_at(entries.skip(1), key, value, at - 1);
        assert(entries.skip(1).skip(at - 1) =~= entries.skip(at));
        let rest = inserted(entries.skip(at), key, value);
        assert(seq![entries[0]] + (entries.skip(1).take(at - 1) + rest) =~= entries.take(at) + rest);
    }
}

proof fn lemma_inserted_in_order(
    entries: Seq<(Seq<char>, Seq<char>)>,
    key: Seq<char>,
    value: Seq<char>,
)
    requires
        in_key_order(entries),
    ensures
        in_key_order(inserted(entries, key, value)),
        inserted(entries, key, value).len() > 0,
        forall|i: int|
            #![trigger inserted(entries, key, value)[i]]
            0 <= i < inserted(entries, key, value).len() ==> inserted(entries, key, value)[i].0
                == key || exists|j: int|
                0 <= j < entries.len() && #[trigger] entries[j] == inserted(
                    entries,
                    key,
                    value,
                )[i],
    decreases entries.len(),
{
    let result = inserted(entries, key, value);
    if entries.len() == 0 {
    } else if text_less(entries[0].0, key) {
        let rest = entries.skip(1);
        lemma_inserted_in_order(rest, key, value);
        let more = inserted(rest, key, value);
        assert forall|i: int, j: int| 0 <= i < j < result.len() implies text_less(
            (#[trigger] result[i]).0,
            (#[trigger] result[j]).0,
        ) by {
            assert(result[j] == more[j - 1]);
            if i > 0 {
                assert(result[i] == more[i - 1]);
            } else if more[j - 1].0 != key {
                let k = choose|k: int| 0 <= k < rest.len() && #[trigger] rest[k] == more[j - 1];
                assert(rest[k] == entries[k + 1]);
            }
        }
        assert forall|i: int|
            #![trigger result[i]]
            0 <= i < result.len() implies result[i].0 == key || exists|j: int|
            0 <= j < entries.len() && #[trigger] entries[j] == result[i] by {
            if i == 0 {
                assert(entries[0] == result[0]);
            } else {
                assert(result[i] == more[i - 1]);
                if more[i - 1].0 != key {
                    let k = choose|k: int| 0 <= k < rest.len() && #[trigger] rest[k] == more[i - 1];
                    assert(entries[k + 1] == result[i]);
                }
            }
        }
    } else if entries[0].0 == key {
        assert forall|i: int, j: int| 0 <= i < j < result.len() implies text_less(
            (#[trigger] result[i]).0,
            (#[trigger] result[j]).0,
        ) by {
            assert(result[j] == entries[j]);
            if i > 0 {
                assert(result[i] == entries[i]);
            }
        }
        assert forall|i: int|
            #![trigger result[i]]
            0 <= i < result.len() implies result[i].0 == key || exists|j: int|
            0 <= j < entries.len() && #[trigger] entries[j] == result[i] by {
            if i > 0 {
                assert(entries[i] == result[i]);
            }
        }
    } else {
        lemma_text_less_total(entries[0].0, key);
        assert forall|i: int, j: int| 0 <= i < j < result.len() implies text_less(
            (#[trigger] result[i]).0,
            (#[trigger] result[j]).0,
        ) by {
            assert(result[j] == entries[j - 1]);
            if i > 0 {
                assert(result[i] == entries[i - 1]);
            } else if j > 1 {
                lemma_text_less_transitive(key, entries[0].0, entries[j - 1].0);
            }
        }
        assert forall|i: int|
            #![trigger result[i]]
            0 <= i < result.len() implies result[i].0 == key || exists|j: int|
            0 <= j < entries.len() && #[trigger] entries[j] == result[i] by {
            if i > 0 {
                assert(entries[i - 1] == result[i]);
            }
        }
    }
}

impl Configuration {
    #[verifier::type_invariant]
    spec fn ordered(self) -> bool {
        in_key_order(self@)
    }

    /// No values.
    pub fn new() -> (configuration: Self)
        ensures
            configuration@ == Seq::<(Seq<char>, Seq<char>)>::empty(),
    {
        let entries: Vec<(String, String)> = Vec::new();
        assert(entry_views(entries@) =~= Seq::empty());
        Configuration { entries }
    }

    /// Sets the value under a key.
    pub fn insert(self, key: String, value: String) -> (configuration: Self)
        ensures
            configuration@ == inserted(self@, key@, value@),
            in_key_order(configuration@),
    {
        proof {
            use_type_invariant(&self);
            lemma_inserted_in_order(self@, key@, value@);
        }
        let ghost before = self@;
        let mut entries: Vec<(String, String)> = self.entries;
        let mut at: usize = 0;
        while at < entries.len() && sorts_before(entries[at].0.as_str(), key.as_str())
            invariant
                at <= entries.len(),
                before == entry_views(entries@),
                forall|i: int| 0 <= i < at ==> text_less((#[trigger] before[i]).0, key@),
            decreases entries.len() - at,
        {
            at = at + 1;
        }
        proof {
            lemma_inserted_at(before, key@, value@, at as int);
        }
        let ghost (key_view, value_view) = (key@, value@);
        if at < entries.len() && same_text(entries[at].0.as_str(), key.as_str()) {
            proof {
                lemma_text_less_irreflexive(key@);
                assert(before.skip(at as int)[0] == before[at as int]);
                assert(before.skip(at as int).skip(1) =~= before.skip(at + 1));
            }
            entries.set(at, (key, value));
            assert(entry_views(entries@) =~= before.take(at as int) + (seq![(key_view, value_view)]
                + before.skip(at + 1)));
        } else {
            proof {
                if at < entries.len() {
                    assert(before.skip(at as int)[0] == before[at as int]);
                }
            }
            entries.insert(at, (key, value));
            assert(entry_views(entries@) =~= before.take(at as int) + (seq![(key_view, value_view)]
                + before.skip(at as int)));
            assert(at == before.len() ==> seq![(key_view, value_view)] + before.skip(at as int)
                =~= seq![(key_view, value_view)]);
        }
        Configuration { entries }
    }

    pub fn entries(&self) -> (entries: &[(String, String)])
        ensures
            entry_views(entries@) == self@,
            in_key_order(self@),
    {
        proof {
            use_type_invariant(self);
        }
        self.entries.as_slice()
    }
}

impl Clone for Configuration {
    fn clone(&self) -> (copy: Self)
        ensures
            copy@ == self@,
    {
        proof {
            use_type_invariant(self);
        }
        let mut entries: Vec<(String, String)> = Vec::new();
        let mut i: usize = 0;
        while i < self.entries.len()
            invariant
                i <= self.entries.len(),
                entries@.len() == i,
                forall|j: int|
                    0 <= j < i ==> (#[trigger] entries@[j]).0@ == self.entries@[j].0@
                        && entries@[j].1@ == self.entries@[j].1@,
            decreases self.entries.len() - i,
        {
            entries.push((self.entries[i].0.clone(), self.entries[i].1.clone()));
            i = i + 1;
        }
        assert(entry_views(entries@) =~= self@);
        Configuration { entries }
    }
}

impl Default for Configuration {
    fn default() -> (configuration: Self)
        ensures
            configuration@ == Seq::<(Seq<char>, Seq<char>)>::empty(),
    {
        Configuration::new()
    }
}

/// The hexadecimal SHA-256 of a configuration's JSON form.
pub open spec fn configuration_digest(entries: Seq<(Seq<char>, Seq<char>)>) -> Seq<char> {
    hex(sha256(encode_utf8(object_text(entries))))
}

/// The hexadecimal SHA-256 of bytes.
pub fn hex_sha256(bytes: &[u8]) -> (text: String)
    ensures
        text@ == hex(sha256(bytes@)),
{
    let digest: [u8; 32] = sha256_of(bytes);
    encode_hex(digest.as_slice())
}

/// Digests a configuration.
pub fn configuration_sha256(configuration: &Configuration) -> (result: Result<String, String>)
    ensures
        result is Ok,
        result->Ok_0@ == configuration_digest(configuration@),
{
    match entries_to_vec(configuration.entries()) {
        Ok(bytes) => Ok(hex_sha256(bytes.as_slice())),
        Err(error) => Err(error),
    }
}

/// A market as a venue names it.
#[derive(Debug, Eq, PartialEq)]
pub struct ResolvedVenueMarket {
    pub venue: String,
    pub market_coin: String,
    pub venue_symbol: Option<String>,
    pub venue_market_id: Option<String>,
}

/// The model of `ResolvedVenueMarket`.
pub struct ResolvedMarketView {
    pub venue: Seq<char>,
    pub market_coin: Seq<char>,
    pub venue_symbol: Option<Seq<char>>,
    pub venue_market_id: Option<Seq<char>>,
}

impl View for ResolvedVenueMarket {
    type V = ResolvedMarketView;

    open spec fn view(&self) -> ResolvedMarketView {
        ResolvedMarketView {
            venue: self.venue@,
            market_coin: self.market_coin@,
            venue_symbol: optional_text(self.venue_symbol),
            venue_market_id: optional_text(self.venue_market_id),
        }
    }
}

/// The models of resolved markets.
pub open spec fn resolved_views(markets: Seq<ResolvedVenueMarket>) -> Seq<ResolvedMarketView> {
    markets.map_values(|market: ResolvedVenueMarket| market@)
}

/// The models of texts.
pub open spec fn text_views(texts: Seq<String>) -> Seq<Seq<char>> {
    texts.map_values(|text: String| text@)
}

/// What is known of a capture run before it starts.
#[derive(Debug, Eq, PartialEq)]
pub struct CaptureMetadata {
    pub sanitized_configuration: Configuration,
    pub git_commit: String,
    pub dirty_build: bool,
    pub package_version: String,
    pub rust_target: String,
    pub collector_label: String,
    pub configured_markets: Vec<String>,
    pub resolved_venue_markets: Vec<ResolvedVenueMarket>,
}

/// The model of `CaptureMetadata`.
pub struct MetadataView {
    pub configuration: Seq<(Seq<char>, Seq<char>)>,
    pub git_commit: Seq<char>,
    pub dirty_build: bool,
    pub package_version: Seq<char>,
    pub rust_target: Seq<char>,
    pub collector_label: Seq<char>,
    pub configured_markets: Seq<Seq<char>>,
    pub resolved_venue_markets: Seq<ResolvedMarketView>,
}

impl View for CaptureMetadata {
    type V = MetadataView;

    open spec fn view(&self) -> MetadataView {
        MetadataView {
            configuration: self.sanitized_configuration@,
            git_commit: self.git_commit@,
            dirty_build: self.dirty_build,
            package_version: self.package_version@,
            rust_target: self.rust_target@,
            collector_label: self.collector_label@,
            configured_markets: text_views(self.configured_markets@),
            resolved_venue_markets: resolved_views(self.resolved_venue_markets@),
        }
    }
}

/// What went wrong during a capture run, counted.
#[derive(Clone, Copy, Debug, Eq, PartialEq, Structural)]
pub struct DataQualityCounters {
    pub disconnects: u64,
    pub order_book_unavailable: u64,
    pub trade_stream_gaps: u64,
    pub invalid_messages: u64,
    pub deduplicated_trades: u64,
}

impl DataQualityCounters {
    /// Before anything was counted.
    pub open spec fn zero() -> DataQualityCounters {
        DataQualityCounters {
            disconnects: 0,
            order_book_unavailable: 0,
            trade_stream_gaps: 0,
            invalid_messages: 0,
            deduplicated_trades: 0,
        }
    }
}

impl Default for DataQualityCounters {
    fn default() -> (counters: Self)
        ensures
            counters == DataQualityCounters::zero(),
    {
        DataQualityCounters {
            disconnects: 0,
            order_book_unavailable: 0,
            trade_stream_gaps: 0,
            invalid_messages: 0,
            deduplicated_trades: 0,
        }
    }
}

/// What the manifest says of a segment.
#[derive(Debug, Eq, PartialEq)]
pub struct SegmentManifestEntry {
    pub index: u32,
    pub filename: String,
    pub first_capture_sequence: u64,
    pub last_capture_sequence: u64,
    pub record_count: u64,
    pub byte_size: u64,
    pub sha256: String,
    pub utc_start_unix_millis: u64,
    pub utc_end_unix_millis: u64,
    pub completion_status: String,
}

/// The model of `SegmentManifestEntry`.
pub struct EntryView {
    pub index: u32,
    pub filename: Seq<char>,
    pub first_capture_sequence: u64,
    pub last_capture_sequence: u64,
    pub record_count: u64,
    pub byte_size: u64,
    pub sha256: Seq<char>,
    pub utc_start_unix_millis: u64,
    pub utc_end_unix_millis: u64,
    pub completion_status: Seq<char>,
}

impl View for SegmentManifestEntry {
    type V = EntryView;

    open spec fn view(&self) -> EntryView {
        EntryView {
            index: self.index,
            filename: self.filename@,
            first_capture_sequence: self.first_capture_sequence,
            last_capture_sequence: self.last_capture_sequence,
            record_count: self.record_count,
            byte_size: self.byte_size,
            sha256: self.sha256@,
            utc_start_unix_millis: self.utc_start_unix_millis,
            utc_end_unix_millis: self.utc_end_unix_millis,
            completion_status: self.completion_status@,
        }
    }
}

/// The models of segment entries.
pub open spec fn segment_views(segments: Seq<SegmentManifestEntry>) -> Seq<EntryView> {
    segments.map_values(|segment: SegmentManifestEntry| segment@)
}

/// How the manifest names a completion.
pub open spec fn completion_name(completion: SegmentCompletion) -> Seq<char> {
    match completion {
        SegmentCompletion::Complete => "complete"@,
        SegmentCompletion::RecoveredAfterCrash => "recovered_after_crash"@,
    }
}

/// The entry of a finalized segment.
pub open spec fn entry_of(segment: FinalizedView) -> EntryView {
    EntryView {
        index: segment.index,
        filename: segment.filename,
        first_capture_sequence: segment.first_capture_sequence,
        last_capture_sequence: segment.last_capture_sequence,
        record_count: segment.record_count,
        byte_size: segment.byte_size,
        sha256: hex(segment.sha256),
        utc_start_unix_millis: segment.started_at_unix_millis,
        utc_end_unix_millis: segment.ended_at_unix_millis,
        completion_status: completion_name(segment.completion),
    }
}

impl SegmentManifestEntry {
    /// The entry of a finalized segment.
    pub fn from_segment(segment: FinalizedSegment) -> (entry: Self)
        ensures
            entry@ == entry_of(segment@),
    {
        SegmentManifestEntry {
            index: segment.index,
            filename: segment.filename,
            first_capture_sequence: segment.first_capture_sequence,
            last_capture_sequence: segment.last_capture_sequence,
            record_count: segment.record_count,
            byte_size: segment.byte_size,
            sha256: encode_hex(segment.sha256.as_slice()),
            utc_start_unix_millis: segment.started_at_unix_millis,
            utc_end_unix_millis: segment.ended_at_unix_millis,
            completion_status: match segment.completion {
                SegmentCompletion::Complete => "complete".to_owned(),
                SegmentCompletion::RecoveredAfterCrash => "recovered_after_crash".to_owned(),
            },
        }
    }
}

/// The manifest of a capture run.
#[derive(Debug, Eq, PartialEq)]
pub struct CaptureManifest {
    pub capture_id: CaptureId,
    pub capture_status: CaptureStatus,
    pub utc_start_unix_millis: u64,
    pub utc_end_unix_millis: Option<u64>,
    pub monotonic_origin_nanos: u64,
    pub schema_version: u32,
    pub configuration: Configuration,
    pub configuration_sha256: String,
    pub git_commit: String,
    pub dirty_build: bool,
    pub package_version: String,
    pub rust_target: String,
    pub collector_label: String,
    pub queue_capacity: usize,
    pub queue_high_water_mark: usize,
    pub approximate_owned_event_bytes: u64,
    pub rotation_max_duration_millis: u64,
    pub rotation_max_bytes: u64,
    pub configured_markets: Vec<String>,
    pub resolved_venue_markets: Vec<ResolvedVenueMarket>,
    pub data_quality: DataQualityCounters,
    pub segments: Vec<SegmentManifestEntry>,
}

/// The model of `CaptureManifest`.
pub struct ManifestView {
    pub capture_id: Seq<u8>,
    pub capture_status: CaptureStatus,
    pub utc_start_unix_millis: u64,
    pub utc_end_unix_millis: Option<u64>,
    pub monotonic_origin_nanos: u64,
    pub schema_version: u32,
    pub configuration: Seq<(Seq<char>, Seq<char>)>,
    pub configuration_sha256: Seq<char>,
    pub git_commit: Seq<char>,
    pub dirty_build: bool,
    pub package_version: Seq<char>,
    pub rust_target: Seq<char>,
    pub collector_label: Seq<char>,
    pub queue_capacity: usize,
    pub queue_high_water_mark: usize,
    pub approximate_owned_event_bytes: u64,
    pub rotation_max_duration_millis: u64,
    pub rotation_max_bytes: u64,
    pub configured_markets: Seq<Seq<char>>,
    pub resolved_venue_markets: Seq<ResolvedMarketView>,
    pub data_quality: DataQualityCounters,
    pub segments: Seq<EntryView>,
}

impl View for CaptureManifest {
    type V = ManifestView;

    open spec fn view(&self) -> ManifestView {
        ManifestView {
            capture_id: self.capture_id.bytes@,
            capture_status: self.capture_status,
            utc_start_unix_millis: self.utc_start_unix_millis,
            utc_end_unix_millis: self.utc_end_unix_millis,
            monotonic_origin_nanos: self.monotonic_origin_nanos,
            schema_version: self.schema_version,
            configuration: self.configuration@,
            configuration_sha256: self.configuration_sha256@,
            git_commit: self.git_commit@,
            dirty_build: self.dirty_build,
            package_version: self.package_version@,
            rust_target: self.rust_target@,
            collector_label: self.collector_label@,
            queue_capacity: self.queue_capacity,
            queue_high_water_mark: self.queue_high_water_mark,
            approximate_owned_event_bytes: self.approximate_owned_event_bytes,
            rotation_max_duration_millis: self.rotation_max_duration_millis,
            rotation_max_bytes: self.rotation_max_bytes,
            configured_markets: text_views(self.configured_markets@),
            resolved_venue_markets: resolved_views(self.resolved_venue_markets@),
            data_quality: self.data_quality,
            segments: segment_views(self.segments@),
        }
    }
}

/// The manifest of a run that has just started. Until it ends in order, it counts as
/// crashed.
pub open spec fn started_manifest(
    capture_id: Seq<u8>,
    started_at_unix_millis: u64,
    queue_capacity: usize,
    limits: SegmentLimits,
    metadata: MetadataView,
    configuration_sha256: Seq<char>,
) -> ManifestView {
    ManifestView {
        capture_id,
        capture_status: CaptureStatus::IncompleteProcessCrash,
        utc_start_unix_millis: started_at_unix_millis,
        utc_end_unix_millis: None,
        monotonic_origin_nanos: 0,
        schema_version: MANIFEST_SCHEMA_VERSION,
        configuration: metadata.configuration,
        configuration_sha256,
        git_commit: metadata.git_commit,
        dirty_build: metadata.dirty_build,
        package_version: metadata.package_version,
        rust_target: metadata.rust_target,
        collector_label: metadata.collector_label,
        queue_capacity,
        queue_high_water_mark: 0,
        approximate_owned_event_bytes: 0,
        rotation_max_duration_millis: (limits.max_duration / 1_000_000) as u64,
        rotation_max_bytes: limits.max_bytes,
        configured_markets: metadata.configured_markets,
        resolved_venue_markets: metadata.resolved_venue_markets,
        data_quality: DataQualityCounters::zero(),
        segments: Seq::empty(),
    }
}

impl CaptureManifest {
    /// The manifest of a run that has just started.
    pub fn new(
        capture_id: CaptureId,
        started_at_unix_millis: u64,
        queue_capacity: usize,
        limits: SegmentLimits,
        metadata: CaptureMetadata,
    ) -> (result: Result<Self, String>)
        ensures
            match result {
                Ok(manifest) => {
                    &&& limits.max_duration / 1_000_000 <= u64::MAX
                    &&& manifest@ == started_manifest(
                        capture_id.bytes@,
                        started_at_unix_millis,
                        queue_capacity,
                        limits,
                        metadata@,
                        configuration_digest(metadata@.configuration),
                    )
                },
                Err(error) => {
                    &&& limits.max_duration / 1_000_000 > u64::MAX
                    &&& error@ == "rotation duration exceeds manifest range"@
                },
            },
    {
        let configuration_sha256: String = match configuration_sha256(
            &metadata.sanitized_configuration,
        ) {
            Ok(digest) => digest,
            Err(error) => return Err(error),
        };
        let duration_millis: u128 = limits.max_duration / 1_000_000;
        if duration_millis > u64::MAX as u128 {
            return Err("rotation duration exceeds manifest range".to_owned());
        }
        let segments: Vec<SegmentManifestEntry> = Vec::new();
        assert(segment_views(segments@) =~= Seq::empty());
        Ok(
            CaptureManifest {
                capture_id,
                capture_status: CaptureStatus::IncompleteProcessCrash,
                utc_start_unix_millis: started_at_unix_millis,
                utc_end_unix_millis: None,
                monotonic_origin_nanos: 0,
                schema_version: MANIFEST_SCHEMA_VERSION,
                configuration: metadata.sanitized_configuration,
                configuration_sha256,
                git_commit: metadata.git_commit,
                dirty_build: metadata.dirty_build,
                package_version: metadata.package_version,
                rust_target: metadata.rust_target,
                collector_label: metadata.collector_label,
                queue_capacity,
                queue_high_water_mark: 0,
                approximate_owned_event_bytes: 0,
                rotation_max_duration_millis: duration_millis as u64,
                rotation_max_bytes: limits.max_bytes,
                configured_markets: metadata.configured_markets,
                resolved_venue_markets: metadata.resolved_venue_markets,
                data_quality: DataQualityCounters::default(),
                segments,
            },
        )
    }

    /// Lists one more finalized segment.
    pub fn add_segment(&mut self, segment: FinalizedSegment)
        ensures
            final(self)@ == (ManifestView {
                segments: old(self)@.segments.push(entry_of(segment@)),
                ..old(self)@
            }),
    {
        let entry: SegmentManifestEntry = SegmentManifestEntry::from_segment(segment);
        self.segments.push(entry);
        assert(segment_views(self.segments@) =~= old(self)@.segments.push(entry_of(segment@)));
    }
}

} // verus!
