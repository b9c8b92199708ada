use market_capture::domain::{MarketCoin, Venue};
use market_capture::engine::{EngineError, MarketDataEngine};
use market_capture::hashing::sha256_of;
use market_capture::market_data::{
    LocalObservationTime, MarketDataUnavailable, NormalizedMarketEvent, TradeStreamResumed,
    UnavailabilityCategory,
};
use market_capture::recorder::capture::{
    fail_manifest, finish_manifest, interrupted_segment, recover_interrupted_capture,
    start_capture, CaptureCoordinator, CaptureCoordinatorError, CaptureSettings,
    InterruptedSegment, StartedCapture, WriterCommand,
};
use market_capture::recorder::format::CaptureId;
use market_capture::recorder::manifest::{
    configuration_sha256, hex_sha256, CaptureManifest, CaptureMetadata, CaptureStatus,
    Configuration,
};
use market_capture::recorder::reader::read_segment;
use market_capture::recorder::validated::{
    CaptureFile, CaptureValidationError, ValidatedCapture, ValidationOptions,
};
use market_capture::recorder::writer::{SegmentLimits, SegmentWriter, WallTime};
use market_capture::replay::replay_events;
use market_capture::trader::pipeline::{
    completed_session_failure, handle_live_event, Notice, SessionEnd,
};
use market_capture::venue::runtime::LiveSessionEvent;

fn capture_id() -> CaptureId {
    CaptureId::from_bytes([9; 16])
}

fn metadata() -> CaptureMetadata {
    CaptureMetadata {
        sanitized_configuration: Configuration::new().insert("MARKET_COINS".into(), "BTC".into()),
        git_commit: "test".into(),
        dirty_build: false,
        package_version: "0.1.0".into(),
        rust_target: "test-target".into(),
        collector_label: "test".into(),
        configured_markets: vec!["BTC".into()],
        resolved_venue_markets: Vec::new(),
    }
}

fn settings(data_dir: &str) -> CaptureSettings {
    CaptureSettings {
        data_dir: data_dir.into(),
        queue_capacity: 4,
        segment_limits: SegmentLimits::default(),
        metadata: metadata(),
    }
}

fn event(nanos: u64) -> NormalizedMarketEvent {
    NormalizedMarketEvent::TradeStreamResumed(TradeStreamResumed::new(
        Venue::Aster,
        MarketCoin::try_new("BTC").unwrap(),
        LocalObservationTime::from_nanos_since_start(nanos),
    ))
}

fn at(seconds: i64) -> WallTime {
    WallTime::new(seconds, 0)
}

/// Runs a whole capture in memory.
fn captured(
    events: Vec<NormalizedMarketEvent>,
    status: CaptureStatus,
) -> (CaptureManifest, Vec<CaptureFile>) {
    let StartedCapture {
        mut manifest,
        mut writer,
    } = start_capture(settings("/data"), capture_id(), at(1)).unwrap();
    let (sender, receiver) = crossbeam_channel::bounded(64);
    let (_status_sender, writer_status) = crossbeam_channel::bounded(1);
    let mut coordinator =
        CaptureCoordinator::new(capture_id(), "/data/captures".into(), sender, writer_status);
    for event in events {
        coordinator.accept(event, false).unwrap();
    }
    coordinator.finish(status, at(2)).unwrap();

    let mut bytes = Vec::new();
    let mut files = Vec::new();
    loop {
        match receiver.recv().unwrap() {
            WriterCommand::Event(stored) => {
                let plan = writer.append(&stored, at(1)).unwrap();
                if let Some(opened) = plan.opened {
                    bytes = opened.header;
                }
                bytes.extend(plan.record);
            }
            WriterCommand::Finish(command) => {
                if let Some(closed) = writer.finish(command.ended_at).unwrap() {
                    let segment = closed.finalize(sha256_of(&bytes));
                    files.push(CaptureFile {
                        filename: segment.filename.clone(),
                        regular: true,
                        bytes: std::mem::take(&mut bytes),
                    });
                    manifest.add_segment(segment);
                }
                finish_manifest(&mut manifest, command).unwrap();
                return (manifest, files);
            }
        }
    }
}

#[test]
fn queue_full_rejects_event_without_advancing_sequence() {
    let (sender, _receiver) = crossbeam_channel::bounded(1);
    let (_status_sender, writer_status) = crossbeam_channel::bounded(1);
    let mut coordinator =
        CaptureCoordinator::new(capture_id(), "/data".into(), sender, writer_status);

    assert_eq!(
        coordinator
            .accept(event(1), false)
            .unwrap()
            .capture_sequence,
        1
    );
    assert!(matches!(
        coordinator.accept(event(2), false),
        Err(CaptureCoordinatorError::QueueFull)
    ));
    assert_eq!(coordinator.progress().next_capture_sequence, 2);
    assert!(coordinator.progress().queue_full);
}

#[test]
fn rejects_relative_data_directory() {
    let result = start_capture(settings("relative"), capture_id(), at(0));

    assert!(matches!(
        result,
        Err(CaptureCoordinatorError::DataDirectoryMustBeAbsolute(_))
    ));
}

#[test]
fn incomplete_capture_requires_explicit_opt_in() {
    let (manifest, files) = captured(Vec::new(), CaptureStatus::IncompleteQueueFull);
    assert!(matches!(
        ValidatedCapture::open(
            "/data".into(),
            captured(Vec::new(), CaptureStatus::IncompleteQueueFull).0,
            &files,
            ValidationOptions::default()
        ),
        Err(CaptureValidationError::IncompleteCapture(
            CaptureStatus::IncompleteQueueFull
        ))
    ));
    assert!(ValidatedCapture::open(
        "/data".into(),
        manifest,
        &files,
        ValidationOptions {
            allow_incomplete: true
        }
    )
    .is_ok());
}

#[test]
fn records_contiguous_events_and_finishes_the_manifest() {
    let (manifest, files) = captured(vec![event(1), event(2)], CaptureStatus::Complete);
    assert_eq!(manifest.capture_status, CaptureStatus::Complete);
    assert_eq!(manifest.utc_start_unix_millis, 1_000);
    assert_eq!(manifest.utc_end_unix_millis, Some(2_000));
    assert_eq!(manifest.segments.len(), 1);
    assert_eq!(manifest.segments[0].first_capture_sequence, 1);
    assert_eq!(manifest.segments[0].last_capture_sequence, 2);
    assert_eq!(manifest.segments[0].completion_status, "complete");
    assert_eq!(manifest.segments[0].sha256, hex_sha256(&files[0].bytes));
    assert!(manifest.queue_high_water_mark > 0);
    assert!(manifest.approximate_owned_event_bytes > 0);
    assert_eq!(manifest.rotation_max_duration_millis, 300_000);
    assert_eq!(manifest.rotation_max_bytes, 1_073_741_824);
    let segment = read_segment(&files[0].filename, &files[0].bytes, capture_id(), 0).unwrap();
    assert_eq!(segment.events.len(), 2);
}

#[test]
fn validates_the_whole_capture_before_handing_events_out() {
    let (manifest, files) = captured(vec![event(10)], CaptureStatus::Complete);
    let validated = ValidatedCapture::open(
        "/data/c".into(),
        manifest,
        &files,
        ValidationOptions::default(),
    )
    .unwrap();
    assert_eq!(validated.directory(), "/data/c");
    assert_eq!(validated.event_count(), 1);
    let sequences: Vec<u64> = validated
        .events()
        .iter()
        .map(|event| event.capture_sequence)
        .collect();
    assert_eq!(sequences, [1]);

    let (manifest, mut files) = captured(vec![event(10)], CaptureStatus::Complete);
    files.push(CaptureFile {
        filename: "segment-999999.log".into(),
        regular: true,
        bytes: b"unlisted".to_vec(),
    });
    assert!(matches!(
        ValidatedCapture::open("/data".into(), manifest, &files, ValidationOptions::default()),
        Err(CaptureValidationError::UnlistedLogFile(_))
    ));
}

#[test]
fn a_recorded_capture_replays_to_the_same_digest() {
    let events = vec![event(1), event(5), event(9)];
    let mut live = MarketDataEngine::new();
    for (index, event) in events.iter().enumerate() {
        live.process(index as u64 + 1, event).unwrap();
    }
    let (manifest, files) = captured(events, CaptureStatus::Complete);
    let validated =
        ValidatedCapture::open("/d".into(), manifest, &files, ValidationOptions::default())
            .unwrap();
    assert_eq!(replay_events(validated.events()), Ok(live.report()));
    let mut events = validated.into_events();
    events.remove(0);
    assert_eq!(
        replay_events(&events),
        Err(EngineError::CaptureSequenceMismatch {
            expected: 1,
            actual: 2
        })
    );
}

fn refusal(change: fn(&mut CaptureManifest, &mut Vec<CaptureFile>)) -> CaptureValidationError {
    let (mut manifest, mut files) = captured(vec![event(1), event(2)], CaptureStatus::Complete);
    change(&mut manifest, &mut files);
    ValidatedCapture::open("/d".into(), manifest, &files, ValidationOptions::default())
        .map(|_| ())
        .unwrap_err()
}

#[test]
fn every_fault_of_a_capture_is_named() {
    assert_eq!(
        refusal(|manifest, _| manifest.schema_version = 2),
        CaptureValidationError::UnsupportedManifestSchema(2)
    );
    assert_eq!(
        refusal(|manifest, _| manifest.configuration_sha256 = "00".into()),
        CaptureValidationError::ConfigurationHashMismatch
    );
    assert_eq!(
        refusal(|manifest, _| manifest.segments[0].index = 4),
        CaptureValidationError::SegmentIndexMismatch {
            expected: 0,
            actual: 4
        }
    );
    assert_eq!(
        refusal(|manifest, files| {
            manifest.segments[0].filename = "other.log".into();
            files[0].filename = "other.log".into();
        }),
        CaptureValidationError::SegmentFilenameMismatch {
            expected: "segment-000000.log".into(),
            actual: "other.log".into()
        }
    );
    assert_eq!(
        refusal(|_, files| files.clear()),
        CaptureValidationError::MissingLogFile("segment-000000.log".into())
    );
    assert_eq!(
        refusal(|manifest, _| manifest.segments[0].sha256 = "00".into()),
        CaptureValidationError::SegmentHashMismatch(0)
    );
    assert_eq!(
        refusal(|manifest, _| manifest.segments[0].byte_size = 1),
        CaptureValidationError::SegmentByteSizeMismatch(0)
    );
    assert_eq!(
        refusal(|manifest, _| manifest.segments[0].record_count = 1),
        CaptureValidationError::SegmentRecordCountMismatch(0)
    );
    assert_eq!(
        refusal(|manifest, _| manifest.segments[0].last_capture_sequence = 9),
        CaptureValidationError::SegmentSequenceRangeMismatch(0)
    );
    assert_eq!(
        refusal(|manifest, _| manifest.segments[0].completion_status = "odd".into()),
        CaptureValidationError::InvalidSegmentCompletion {
            index: 0,
            value: "odd".into()
        }
    );
    assert!(matches!(
        refusal(|_, files| {
            let last = files[0].bytes.len() - 1;
            files[0].bytes[last] ^= 1;
        }),
        CaptureValidationError::SegmentRead(_)
    ));
}

#[test]
fn a_crashed_capture_is_repaired_without_being_continued() {
    let started = start_capture(settings("/data"), capture_id(), at(1)).unwrap();
    let mut writer: SegmentWriter = started.writer;
    let stored = market_capture::recorder::dto::StoredEventV1::from_normalized(1, &event(1)).unwrap();
    let plan = writer.append(&stored, at(1)).unwrap();
    let mut bytes = plan.opened.unwrap().header;
    bytes.extend(plan.record);

    let index = interrupted_segment(&started.manifest).unwrap().unwrap();
    assert_eq!(index, 0);
    let repaired = recover_interrupted_capture(
        started.manifest,
        index,
        InterruptedSegment::Open { bytes },
        at(3),
    )
    .unwrap()
    .unwrap();
    assert_eq!(
        repaired.manifest.capture_status,
        CaptureStatus::IncompleteProcessCrash
    );
    assert_eq!(repaired.manifest.segments.len(), 1);
    assert_eq!(
        repaired.manifest.segments[0].completion_status,
        "recovered_after_crash"
    );
    assert_eq!(repaired.manifest.segments[0].first_capture_sequence, 1);
    assert!(repaired.outcome.is_some());
}

#[test]
fn a_finalized_segment_that_was_not_listed_is_listed_again() {
    let (complete, files) = captured(vec![event(1)], CaptureStatus::Complete);
    let started = start_capture(settings("/data"), capture_id(), at(1)).unwrap();
    let repaired = recover_interrupted_capture(
        started.manifest,
        0,
        InterruptedSegment::Finalized {
            bytes: files[0].bytes.clone(),
            ended_at: at(2),
        },
        at(3),
    )
    .unwrap()
    .unwrap();
    assert_eq!(
        repaired.manifest.segments[0].sha256,
        complete.segments[0].sha256
    );
    assert!(repaired.outcome.is_none());
    assert_eq!(interrupted_segment(&complete).unwrap(), None);
}

#[test]
fn a_failed_writer_marks_the_manifest() {
    let mut started = start_capture(settings("/data"), capture_id(), at(1)).unwrap();
    fail_manifest(&mut started.manifest, at(5));
    assert_eq!(
        started.manifest.capture_status,
        CaptureStatus::IncompleteIoError
    );
    assert_eq!(started.manifest.utc_end_unix_millis, Some(5_000));
}

#[test]
fn a_full_queue_makes_the_capture_incomplete() {
    let (sender, receiver) = crossbeam_channel::bounded(2);
    let (_status_sender, writer_status) = crossbeam_channel::bounded(1);
    let mut coordinator =
        CaptureCoordinator::new(capture_id(), "/data".into(), sender, writer_status);
    coordinator.accept(event(1), false).unwrap();
    coordinator.accept(event(2), false).unwrap();
    assert!(coordinator.accept(event(3), false).is_err());
    receiver.recv().unwrap();
    // Once an event was turned away, none is taken in again.
    assert!(coordinator.accept(event(4), false).is_err());
    let finished = coordinator.finish(CaptureStatus::Complete, at(2)).unwrap();
    assert_eq!(finished.command().status, CaptureStatus::IncompleteQueueFull);
}

#[test]
fn the_writer_is_heard_when_it_fails() {
    let (sender, _receiver) = crossbeam_channel::bounded(2);
    let (status_sender, writer_status) = crossbeam_channel::bounded(1);
    status_sender.send("disk full".to_owned()).unwrap();
    let mut coordinator =
        CaptureCoordinator::new(capture_id(), "/data".into(), sender, writer_status);
    let error = coordinator.accept(event(1), false).unwrap_err();
    assert_eq!(error.to_text(), "recorder writer failed: disk full");

    let (sender, receiver) = crossbeam_channel::bounded(2);
    let (status_sender, writer_status) = crossbeam_channel::bounded::<String>(1);
    drop(status_sender);
    drop(receiver);
    let mut coordinator =
        CaptureCoordinator::new(capture_id(), "/data".into(), sender, writer_status);
    let error = coordinator.accept(event(1), true).unwrap_err();
    assert_eq!(
        error.to_text(),
        "recorder writer failed: recorder thread terminated"
    );
}

#[test]
fn configurations_are_ordered_and_hashed() {
    let configuration = Configuration::new()
        .insert("B".into(), "2".into())
        .insert("A".into(), "x\"y".into())
        .insert("B".into(), "3".into());
    let entries: Vec<(&str, &str)> = configuration
        .entries()
        .iter()
        .map(|entry| (entry.0.as_str(), entry.1.as_str()))
        .collect();
    assert_eq!(entries, [("A", "x\"y"), ("B", "3")]);
    assert_eq!(
        configuration_sha256(&configuration).unwrap(),
        hex_sha256(br#"{"A":"x\"y","B":"3"}"#)
    );
    assert_eq!(
        hex_sha256(b"abc"),
        "ba7816bf8f01cfea414140de5dae2223b00361a396177a9cb410ff61f20015ad"
    );
}

#[test]
fn live_events_reach_the_engine_only_through_the_recorder() {
    let (sender, _receiver) = crossbeam_channel::bounded(1);
    let (_status_sender, writer_status) = crossbeam_channel::bounded(1);
    let mut coordinator =
        CaptureCoordinator::new(capture_id(), "/data".into(), sender, writer_status);
    let mut engine = MarketDataEngine::new();
    let first = LiveSessionEvent::MarketData { event: event(1) };
    assert_eq!(
        handle_live_event(&mut coordinator, &mut engine, first, false),
        Ok(None)
    );
    assert_eq!(engine.report().events_processed, 1);
    let second = LiveSessionEvent::MarketData { event: event(2) };
    assert_eq!(
        handle_live_event(&mut coordinator, &mut engine, second, false),
        Err("recorder queue is full".to_owned())
    );
    assert_eq!(engine.report().events_processed, 1);

    let duplicate = LiveSessionEvent::TradeDeduplicated {
        venue: Venue::Aster,
        market_coin: MarketCoin::try_new("BTC").unwrap(),
    };
    assert_eq!(
        handle_live_event(&mut coordinator, &mut engine, duplicate, false),
        Ok(None)
    );
    assert_eq!(
        coordinator.progress().data_quality.deduplicated_trades,
        1
    );
}

#[test]
fn people_are_told_of_connections() {
    let (sender, _receiver) = crossbeam_channel::bounded(1);
    let (_status_sender, writer_status) = crossbeam_channel::bounded(1);
    let mut coordinator =
        CaptureCoordinator::new(capture_id(), "/data".into(), sender, writer_status);
    let mut engine = MarketDataEngine::new();
    let cases = [
        (
            LiveSessionEvent::Connecting {
                venue: Venue::Aster,
                endpoint: "wss://x".into(),
            },
            Notice::Progress("Aster connecting to wss://x".into()),
        ),
        (
            LiveSessionEvent::Connected {
                venue: Venue::Lighter,
            },
            Notice::Progress("Lighter connected".into()),
        ),
        (
            LiveSessionEvent::MarketSubscribed {
                venue: Venue::Binance,
                market_coin: MarketCoin::try_new("BTC").unwrap(),
            },
            Notice::Progress("Binance subscribed to BTC".into()),
        ),
        (
            LiveSessionEvent::Disconnected {
                venue: Venue::Hyperliquid,
                reason: "closed".into(),
                retry_in: 4,
            },
            Notice::Trouble("Hyperliquid disconnected (closed); reconnecting in 4 seconds".into()),
        ),
    ];
    for (event, notice) in cases {
        assert_eq!(
            handle_live_event(&mut coordinator, &mut engine, event, false),
            Ok(Some(notice))
        );
    }
}

#[test]
fn data_quality_is_counted() {
    let coin = MarketCoin::try_new("BTC").unwrap();
    let lost = |category| {
        MarketDataUnavailable::new(
            Venue::Aster,
            coin.clone(),
            LocalObservationTime::from_nanos_since_start(1),
            category,
            "x".to_owned(),
        )
    };
    let (manifest, _) = captured(
        vec![
            NormalizedMarketEvent::OrderBookUnavailable(lost(UnavailabilityCategory::Disconnected)),
            NormalizedMarketEvent::OrderBookUnavailable(lost(
                UnavailabilityCategory::InvalidMarketData,
            )),
            NormalizedMarketEvent::TradeStreamUnavailable(lost(
                UnavailabilityCategory::Disconnected,
            )),
        ],
        CaptureStatus::Complete,
    );
    assert_eq!(manifest.data_quality.disconnects, 1);
    assert_eq!(manifest.data_quality.order_book_unavailable, 2);
    assert_eq!(manifest.data_quality.trade_stream_gaps, 1);
    assert_eq!(manifest.data_quality.invalid_messages, 1);
    assert_eq!(manifest.data_quality.deduplicated_trades, 0);
}

#[test]
fn ended_sessions_are_judged() {
    assert_eq!(
        completed_session_failure(&SessionEnd::Finished("Aster", Ok(())), true),
        None
    );
    assert_eq!(
        completed_session_failure(&SessionEnd::Finished("Aster", Ok(())), false),
        Some("Aster session ended unexpectedly".to_owned())
    );
    assert_eq!(
        completed_session_failure(&SessionEnd::Finished("Aster", Err("x".into())), true),
        Some("Aster session stopped: x".to_owned())
    );
    assert_eq!(
        completed_session_failure(&SessionEnd::Failed("panic".into()), true),
        Some("market-data session task failed: panic".to_owned())
    );
}

#[test]
fn configuration_digest_covers_the_escaped_json_in_key_order() {
    let configuration = Configuration::new()
        .insert("z".to_owned(), "1".to_owned())
        .insert("a\"b".to_owned(), "\u{1}\n\\\u{e9}".to_owned());
    assert_eq!(
        configuration_sha256(&configuration).unwrap(),
        hex_sha256("{\"a\\\"b\":\"\\u0001\\n\\\\\u{e9}\",\"z\":\"1\"}".as_bytes())
    );
    assert_eq!(
        configuration_sha256(&configuration).unwrap(),
        "3715cedda65f5c398dd3fab4302e173676276b4893318e91bbd370aa31c86d11"
    );
    assert_eq!(
        configuration_sha256(&Configuration::new()).unwrap(),
        hex_sha256(b"{}")
    );
}

#[test]
fn exactly_the_accepted_events_are_queued() {
    let (sender, receiver) = crossbeam_channel::bounded(2);
    let (_status_sender, writer_status) = crossbeam_channel::bounded(1);
    let mut coordinator =
        CaptureCoordinator::new(capture_id(), "/data".into(), sender, writer_status);
    for nanos in 1..=4 {
        match coordinator.accept(event(nanos), false) {
            Ok(accepted) => {
                assert_eq!(accepted.capture_sequence, nanos);
                assert_eq!(accepted.event, event(nanos));
                assert!(nanos <= 2);
            }
            Err(error) => {
                assert_eq!(error, CaptureCoordinatorError::QueueFull);
                assert!(nanos > 2);
            }
        }
    }
    let sequences: Vec<u64> = [receiver.recv().unwrap(), receiver.recv().unwrap()]
        .iter()
        .map(|command| match command {
            WriterCommand::Event(stored) => stored.capture_sequence,
            WriterCommand::Finish(_) => panic!("expected an event"),
        })
        .collect();
    assert_eq!(sequences, [1, 2]);
    assert!(receiver.try_recv().is_err());
    let finished = coordinator.finish(CaptureStatus::Complete, at(3)).unwrap();
    let command = finished.command();
    assert_eq!(command.status, CaptureStatus::IncompleteQueueFull);
    assert!(matches!(
        receiver.recv().unwrap(),
        WriterCommand::Finish(handed) if handed == command
    ));
}

#[test]
fn a_live_event_fails_with_the_words_of_the_recorder() {
    let (sender, _receiver) = crossbeam_channel::bounded(1);
    let (status_sender, writer_status) = crossbeam_channel::bounded(1);
    let mut coordinator =
        CaptureCoordinator::new(capture_id(), "/data".into(), sender, writer_status);
    let mut engine = MarketDataEngine::new();
    let live = |nanos: u64| LiveSessionEvent::MarketData {
        event: event(nanos),
    };
    assert_eq!(
        handle_live_event(&mut coordinator, &mut engine, live(1), false),
        Ok(None)
    );
    assert_eq!(
        handle_live_event(&mut coordinator, &mut engine, live(2), false),
        Err("recorder queue is full".into())
    );
    status_sender.send("disk is gone".to_owned()).unwrap();
    let duplicate = LiveSessionEvent::TradeDeduplicated {
        venue: Venue::Aster,
        market_coin: MarketCoin::try_new("BTC").unwrap(),
    };
    assert_eq!(
        handle_live_event(&mut coordinator, &mut engine, duplicate, false),
        Err("recorder writer failed: disk is gone".into())
    );
}
