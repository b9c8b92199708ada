use market_capture::domain::{MarketCoin, Price, Quantity, Symbol, Venue};
use market_capture::hashing::sha256_of;
use market_capture::market_data::{
    AggressorSide, AggressorSideClassification, BestBidOffer, BookLevel, EventTimestamps,
    ExchangeTimeKind, ExchangeTimeObservation, ExchangeTimeUnit, LocalObservationTime,
    MarketDataUnavailable, MarketTrade, MarketTradeIdentity, MarketTradeKind,
    MarketTradeReportingKind, NormalizedMarketEvent, OrderBookSnapshot, OrderCount,
    TradeStreamResumed, UnavailabilityCategory,
};
use market_capture::recorder::dto::{
    HeldCapacities, StorageConversionError, StoredDecimalV1, StoredEventV1, StoredExchangeTimeUnitV1,
    StoredPayloadV1, StoredSourceIdV1,
};
use market_capture::recorder::format::{
    encode_record, read_header, read_record, write_header, CaptureId, HeaderError, SegmentHeader,
    HEADER_LENGTH,
};
use market_capture::recorder::payload::{decode_event, encode_event};
use market_capture::recorder::reader::{read_segment, SegmentReadError};
use market_capture::recorder::recovery::{
    publish_recovered, recover_open_segment, RecoveryError, RecoveryOutcome,
};
use market_capture::recorder::writer::{
    log_filename, open_filename, FinalizedSegment, SegmentCompletion, SegmentLimits, SegmentWriter,
    SegmentWriterError, WallTime,
};

const SECOND: u128 = 1_000_000_000;

fn capture_id() -> CaptureId {
    CaptureId::from_bytes([
        0x00, 0x11, 0x22, 0x33, 0x44, 0x55, 0x66, 0x77, 0x88, 0x99, 0xaa, 0xbb, 0xcc, 0xdd, 0xee,
        0xff,
    ])
}

fn at(seconds: i64, millis: u32) -> WallTime {
    WallTime::new(seconds, millis * 1_000_000)
}

fn stored_event(sequence: u64) -> StoredEventV1 {
    StoredEventV1::from_normalized(
        sequence,
        &NormalizedMarketEvent::TradeStreamResumed(TradeStreamResumed::new(
            Venue::Aster,
            MarketCoin::try_new("BTC").unwrap(),
            LocalObservationTime::from_nanos_since_start(10),
        )),
    )
    .unwrap()
}

fn limits(max_duration: u128, max_bytes: u64) -> SegmentLimits {
    SegmentLimits::new(max_duration, max_bytes, SECOND)
}

/// Segment files in memory.
struct Segments {
    writer: SegmentWriter,
    open: Vec<u8>,
    finalized: Vec<(FinalizedSegment, Vec<u8>)>,
}

impl Segments {
    fn create(limits: SegmentLimits) -> Self {
        Segments {
            writer: SegmentWriter::create(capture_id(), limits),
            open: Vec::new(),
            finalized: Vec::new(),
        }
    }

    /// Whether a segment was finalized for this event.
    fn append(
        &mut self,
        event: &StoredEventV1,
        now: WallTime,
    ) -> Result<bool, SegmentWriterError> {
        let plan = self
            .writer
            .append(event, now)
            .map_err(|failure| failure.error)?;
        let rotated = plan.closed.is_some();
        if let Some(closed) = plan.closed {
            let bytes = std::mem::take(&mut self.open);
            self.finalized
                .push((closed.finalize(sha256_of(&bytes)), bytes));
        }
        if let Some(opened) = plan.opened {
            self.open = opened.header;
        }
        self.open.extend(plan.record);
        Ok(rotated)
    }

    fn finish(mut self, now: WallTime) -> Vec<(FinalizedSegment, Vec<u8>)> {
        if let Some(closed) = self.writer.finish(now).unwrap() {
            let bytes = std::mem::take(&mut self.open);
            self.finalized
                .push((closed.finalize(sha256_of(&bytes)), bytes));
        }
        self.finalized
    }
}

#[test]
fn stored_event_v1_has_stable_golden_postcard_bytes() {
    let bytes = encode_event(&stored_event(1));

    assert_eq!(bytes, [1, 0, 3, b'B', b'T', b'C', 10, 10, 0, 0, 4]);
}

#[test]
fn converts_snapshot_without_losing_exact_decimals_or_source_sequence() {
    let coin = MarketCoin::try_new("BTC").unwrap();
    let timestamps = EventTimestamps::new(
        vec![ExchangeTimeObservation::new(
            ExchangeTimeKind::EventTime,
            1_725_000_000_100,
            ExchangeTimeUnit::Milliseconds,
        )],
        LocalObservationTime::from_nanos_since_start(10),
        LocalObservationTime::from_nanos_since_start(11),
    );
    let snapshot = OrderBookSnapshot::try_new(
        Venue::Aster,
        Symbol::perpetual(coin),
        Some(99),
        timestamps,
        vec![BookLevel::new(
            Price::from_str("63250.125").unwrap(),
            Quantity::from_str("0.0040").unwrap(),
            Some(OrderCount::new(2).unwrap()),
        )],
        vec![BookLevel::new(
            Price::from_str("63251").unwrap(),
            Quantity::from_str("1").unwrap(),
            None,
        )],
    )
    .unwrap();
    let stored =
        StoredEventV1::from_normalized(1, &NormalizedMarketEvent::OrderBookSnapshot(snapshot))
            .unwrap();

    assert_eq!(
        stored.source_id(),
        Some(&StoredSourceIdV1::OrderBookSequence(99))
    );
    let StoredPayloadV1::OrderBookSnapshot { bids, .. } = stored.payload() else {
        panic!("expected stored Order Book")
    };
    assert_eq!(
        bids[0].price,
        StoredDecimalV1 {
            coefficient: 63_250_125,
            scale: 3,
        }
    );
    assert_eq!(
        bids[0].quantity,
        StoredDecimalV1 {
            coefficient: 4,
            scale: 3,
        }
    );
    assert_eq!(bids[0].order_count, Some(2));
}

#[test]
fn truncates_lighter_snapshots_to_top_ten_only_when_storing() {
    let coin = MarketCoin::try_new("BTC").unwrap();
    let bids = (0..12)
        .map(|index| {
            BookLevel::new(
                Price::from_str(&(100 - index).to_string()).unwrap(),
                Quantity::from_str("1").unwrap(),
                None,
            )
        })
        .collect::<Vec<_>>();
    let asks = (0..12)
        .map(|index| {
            BookLevel::new(
                Price::from_str(&(101 + index).to_string()).unwrap(),
                Quantity::from_str("1").unwrap(),
                None,
            )
        })
        .collect::<Vec<_>>();
    let snapshot = OrderBookSnapshot::try_new(
        Venue::Lighter,
        Symbol::perpetual(coin),
        Some(99),
        EventTimestamps::new(
            Vec::new(),
            LocalObservationTime::from_nanos_since_start(10),
            LocalObservationTime::from_nanos_since_start(11),
        ),
        bids,
        asks,
    )
    .unwrap();

    let stored =
        StoredEventV1::from_normalized(1, &NormalizedMarketEvent::OrderBookSnapshot(snapshot))
            .unwrap();

    let StoredPayloadV1::OrderBookSnapshot { bids, asks } = stored.payload() else {
        panic!("expected stored Order Book")
    };
    assert_eq!(bids.len(), 10);
    assert_eq!(asks.len(), 10);
    assert_eq!(bids[0].price.coefficient, 100);
    assert_eq!(asks[0].price.coefficient, 101);
}

fn hyperliquid_trade() -> NormalizedMarketEvent {
    NormalizedMarketEvent::MarketTrade(MarketTrade::new(
        Venue::Hyperliquid,
        Symbol::perpetual(MarketCoin::try_new("BTC").unwrap()),
        EventTimestamps::new(
            vec![ExchangeTimeObservation::new(
                ExchangeTimeKind::BlockTime,
                100,
                ExchangeTimeUnit::Unknown,
            )],
            LocalObservationTime::from_nanos_since_start(10),
            LocalObservationTime::from_nanos_since_start(12),
        ),
        Price::from_str("100.5").unwrap(),
        Quantity::from_str("2").unwrap(),
        MarketTradeReportingKind::Individual,
        MarketTradeKind::Liquidation,
        AggressorSide::Sell,
        AggressorSideClassification::VenueProvided,
        MarketTradeIdentity::Hyperliquid {
            block_time: 100,
            trade_id: 7,
            transaction_hash: "0xabc".into(),
        },
    ))
}

#[test]
fn converts_typed_trade_identity_and_exchange_times() {
    let normalized = hyperliquid_trade();
    let stored = StoredEventV1::from_normalized(1, &normalized).unwrap();

    assert_eq!(
        stored.source_id(),
        Some(&StoredSourceIdV1::HyperliquidTrade {
            block_time: 100,
            trade_id: 7,
            transaction_hash: "0xabc".into(),
        })
    );
    assert_eq!(
        stored.exchange_times()[0].declared_unit,
        StoredExchangeTimeUnitV1::Unknown
    );
    assert_eq!(stored.to_normalized().unwrap(), normalized);
}

#[test]
fn storage_dto_round_trips_to_the_same_normalized_event() {
    let original = NormalizedMarketEvent::TradeStreamResumed(TradeStreamResumed::new(
        Venue::Lighter,
        MarketCoin::try_new("BTC").unwrap(),
        LocalObservationTime::from_nanos_since_start(42),
    ));
    let stored = StoredEventV1::from_normalized(1, &original).unwrap();

    assert_eq!(stored.to_normalized().unwrap(), original);
}

fn one_sided_bbo() -> NormalizedMarketEvent {
    NormalizedMarketEvent::BestBidOfferUpdated(BestBidOffer::new(
        Venue::Hyperliquid,
        Symbol::perpetual(MarketCoin::try_new("BTC").unwrap()),
        EventTimestamps::new(
            vec![ExchangeTimeObservation::new(
                ExchangeTimeKind::EventTime,
                123,
                ExchangeTimeUnit::Unknown,
            )],
            LocalObservationTime::from_nanos_since_start(10),
            LocalObservationTime::from_nanos_since_start(11),
        ),
        None,
        Some(BookLevel::new(
            Price::from_str("101").unwrap(),
            Quantity::from_str("2").unwrap(),
            Some(OrderCount::new(3).unwrap()),
        )),
    ))
}

#[test]
fn bbo_storage_round_trip_preserves_nullable_sides_and_timestamps() {
    let original = one_sided_bbo();
    let stored = StoredEventV1::from_normalized(1, &original).unwrap();

    assert_eq!(stored.to_normalized().unwrap(), original);
}

#[test]
fn rotates_on_time_and_size_limits() {
    let mut time_writer = Segments::create(limits(5 * SECOND, 1024 * 1024));
    assert!(!time_writer.append(&stored_event(1), at(1, 0)).unwrap());
    assert!(time_writer.append(&stored_event(2), at(6, 0)).unwrap());
    let finalized = time_writer.finish(at(7, 0));
    assert_eq!((finalized[0].0.index, finalized[1].0.index), (0, 1));

    let record_length = encode_record(&stored_event(1)).unwrap().len();
    let mut size_writer = Segments::create(limits(
        300 * SECOND,
        (HEADER_LENGTH + record_length) as u64,
    ));
    size_writer.append(&stored_event(1), at(1, 0)).unwrap();
    assert!(size_writer.append(&stored_event(2), at(1, 0)).unwrap());
}

#[test]
fn tests_rejects_non_contiguous_capture_sequence() {
    let mut writer = Segments::create(SegmentLimits::default());
    let error = writer.append(&stored_event(2), at(1, 0)).unwrap_err();
    assert!(matches!(
        error,
        SegmentWriterError::SequenceMismatch {
            expected: 1,
            actual: 2
        }
    ));
    assert_eq!(writer.writer.next_capture_sequence(), 1);
}

#[test]
fn writes_fixed_header_and_reads_records_back() {
    let mut writer = Segments::create(limits(300 * SECOND, 1024 * 1024));
    writer.append(&stored_event(1), at(1, 0)).unwrap();
    writer.append(&stored_event(2), at(1, 1)).unwrap();
    let (finalized, bytes) = writer.finish(at(2, 0)).remove(0);

    assert_eq!(&bytes[..8], b"CVARLOG\0");
    assert_eq!(&bytes[8..10], &1_u16.to_le_bytes());
    assert_eq!(&bytes[10..12], &40_u16.to_le_bytes());
    assert_eq!(&bytes[12..28], &capture_id().bytes);
    assert_eq!(&bytes[28..32], &0_u32.to_le_bytes());
    assert_eq!(&bytes[32..40], &1000_u64.to_le_bytes());

    let read = read_segment(&finalized.filename, &bytes, capture_id(), 0).unwrap();
    assert_eq!(read.events, [stored_event(1), stored_event(2)]);
    assert_eq!(read.sha256, finalized.sha256);
    assert_eq!(finalized.first_capture_sequence, 1);
    assert_eq!(finalized.last_capture_sequence, 2);
    assert_eq!(finalized.record_count, 2);
    assert_eq!(finalized.completion, SegmentCompletion::Complete);
    assert_eq!(finalized.ended_at_unix_millis, 2000);
}

#[test]
fn rejects_damaged_records_and_unknown_versions() {
    let mut writer = Segments::create(SegmentLimits::default());
    writer.append(&stored_event(1), at(1, 0)).unwrap();
    let (finalized, mut bytes) = writer.finish(at(1, 0)).remove(0);

    bytes[HEADER_LENGTH + 4] = 0xff;
    assert!(matches!(
        read_segment(&finalized.filename, &bytes, capture_id(), 0),
        Err(SegmentReadError::CorruptRecord(_))
    ));

    bytes[8..10].copy_from_slice(&2_u16.to_le_bytes());
    assert!(matches!(
        read_segment(&finalized.filename, &bytes, capture_id(), 0),
        Err(SegmentReadError::InvalidHeader(_))
    ));
}

#[test]
fn every_fault_of_a_segment_is_named() {
    let mut writer = Segments::create(SegmentLimits::default());
    writer.append(&stored_event(1), at(1, 0)).unwrap();
    let (finalized, bytes) = writer.finish(at(1, 0)).remove(0);
    let name = finalized.filename.as_str();

    assert_eq!(
        read_segment("segment-000000.open", &bytes, capture_id(), 0),
        Err(SegmentReadError::NotFinalizedLog)
    );
    assert_eq!(
        read_segment(name, &bytes[..20], capture_id(), 0),
        Err(SegmentReadError::UnexpectedEnd)
    );
    let other = CaptureId::from_bytes([7; 16]);
    assert_eq!(
        read_segment(name, &bytes, other, 0),
        Err(SegmentReadError::CaptureIdMismatch {
            expected: other,
            actual: capture_id()
        })
    );
    assert_eq!(
        read_segment(name, &bytes, capture_id(), 3),
        Err(SegmentReadError::SegmentIndexMismatch {
            expected: 3,
            actual: 0
        })
    );
    assert_eq!(
        read_segment(name, &bytes[..HEADER_LENGTH], capture_id(), 0),
        Err(SegmentReadError::EmptySegment)
    );

    let mut gap = bytes.clone();
    gap.extend(encode_record(&stored_event(3)).unwrap());
    assert_eq!(
        read_segment(name, &gap, capture_id(), 0),
        Err(SegmentReadError::SequenceMismatch {
            expected: 2,
            actual: 3
        })
    );
    let mut payload = encode_event(&stored_event(1));
    payload[0] = 0;
    let mut zero = bytes[..HEADER_LENGTH].to_vec();
    zero.extend((payload.len() as u32).to_le_bytes());
    zero.extend(&payload);
    zero.extend(crc32c::crc32c(&payload).to_le_bytes());
    assert_eq!(
        read_segment(name, &zero, capture_id(), 0),
        Err(SegmentReadError::ZeroCaptureSequence)
    );
    let mut last = bytes[..HEADER_LENGTH].to_vec();
    last.extend(encode_record(&stored_event(u64::MAX)).unwrap());
    assert_eq!(
        read_segment(name, &last, capture_id(), 0),
        Err(SegmentReadError::SequenceOverflow)
    );
}

#[test]
fn recovery_cuts_an_invalid_tail_off() {
    let mut writer = Segments::create(SegmentLimits::default());
    writer.append(&stored_event(1), at(1, 0)).unwrap();
    let mut bytes = writer.open;
    let valid_length = bytes.len() as u64;
    bytes.extend([4, 0, 0]);

    let outcome =
        recover_open_segment("segment-000000.open", &bytes, capture_id(), 0, at(3, 0)).unwrap();
    assert_eq!(outcome.kept_bytes(), valid_length);
    let RecoveryOutcome::Finalized {
        segment,
        truncated_bytes,
    } = outcome
    else {
        panic!("expected recovered segment")
    };
    assert_eq!(truncated_bytes, 3);
    assert_eq!(segment.byte_size, valid_length);
    assert_eq!(segment.completion, SegmentCompletion::RecoveredAfterCrash);
    bytes.truncate(valid_length as usize);
    assert_eq!(segment.sha256, sha256_of(&bytes));
    let read = read_segment(&segment.filename, &bytes, capture_id(), 0).unwrap();
    assert_eq!(read.events, [stored_event(1)]);
}

#[test]
fn recovery_drops_a_damaged_record_and_everything_behind_it() {
    let first = encode_record(&stored_event(1)).unwrap().len();
    let mut writer = Segments::create(SegmentLimits::default());
    writer.append(&stored_event(1), at(1, 0)).unwrap();
    writer.append(&stored_event(2), at(1, 0)).unwrap();
    let mut bytes = writer.open;
    bytes[HEADER_LENGTH + first + 4] = 0xff;

    let outcome =
        recover_open_segment("segment-000000.open", &bytes, capture_id(), 0, at(1, 0)).unwrap();
    let kept = outcome.kept_bytes() as usize;
    let RecoveryOutcome::Finalized { segment, .. } = outcome else {
        panic!("expected recovered segment")
    };
    let read = read_segment(&segment.filename, &bytes[..kept], capture_id(), 0).unwrap();
    assert_eq!(read.events, [stored_event(1)]);
}

#[test]
fn recovery_discards_a_segment_without_records() {
    let mut writer = Segments::create(SegmentLimits::default());
    writer.append(&stored_event(1), at(1, 0)).unwrap();
    let mut bytes = writer.open;
    bytes.truncate(HEADER_LENGTH);

    let outcome =
        recover_open_segment("segment-000000.open", &bytes, capture_id(), 0, at(1, 0)).unwrap();
    assert_eq!(
        outcome,
        RecoveryOutcome::DiscardedEmpty {
            segment_index: 0,
            truncated_bytes: 0,
        }
    );
}

#[test]
fn a_recovered_segment_replaces_nothing() {
    let mut writer = Segments::create(SegmentLimits::default());
    writer.append(&stored_event(1), at(1, 0)).unwrap();
    let outcome =
        recover_open_segment("segment-000000.open", &writer.open, capture_id(), 0, at(1, 0))
            .unwrap();
    assert_eq!(
        publish_recovered(outcome, true),
        Err(RecoveryError::FinalizedTargetExists(
            "segment-000000.log".to_owned()
        ))
    );
}

#[test]
fn headers_read_back_and_name_their_faults() {
    let header = SegmentHeader {
        capture_id: capture_id(),
        segment_index: 9,
        created_at_unix_millis: 77,
    };
    let bytes = write_header(header);
    assert_eq!(bytes.len(), HEADER_LENGTH);
    assert_eq!(read_header(&bytes), Ok(header));
    assert_eq!(read_header(&bytes[..39]), Err(HeaderError::UnexpectedEnd));
    let mut magic = bytes.clone();
    magic[0] = b'X';
    assert_eq!(read_header(&magic), Err(HeaderError::InvalidMagic));
    let mut version = bytes.clone();
    version[8] = 3;
    assert_eq!(
        read_header(&version).unwrap_err().to_text(),
        "unsupported segment format version 3"
    );
}

#[test]
fn records_carry_their_length_and_checksum() {
    let event = stored_event(1);
    let payload = encode_event(&event);
    let record = encode_record(&event).unwrap();
    assert_eq!(&record[..4], &11_u32.to_le_bytes());
    assert_eq!(&record[4..15], payload.as_slice());
    assert_eq!(&record[15..], &0xee3f_d7e1_u32.to_le_bytes());
    let (read, end) = read_record(&record, 0).unwrap().unwrap();
    assert_eq!(read, event);
    assert_eq!(end, record.len());
    assert!(read_record(&record, record.len()).unwrap().is_none());
    assert!(read_record(&record[..10], 0).is_err());
}

#[test]
fn identifiers_are_rendered_with_hyphens() {
    assert_eq!(
        capture_id().to_text(),
        "00112233-4455-6677-8899-aabbccddeeff"
    );
    assert_eq!(open_filename(12), "segment-000012.open");
    assert_eq!(log_filename(1_234_567), "segment-1234567.log");
}

#[test]
fn every_kind_of_event_reads_back_from_its_bytes() {
    let coin = MarketCoin::try_new("dex:Coin").unwrap();
    let at_nanos = LocalObservationTime::from_nanos_since_start(300);
    let unavailable = MarketDataUnavailable::new(
        Venue::Binance,
        coin.clone(),
        at_nanos,
        UnavailabilityCategory::SequenceGap,
        "gap \u{e9}".to_owned(),
    );
    let aster = MarketTrade::new(
        Venue::Aster,
        Symbol::perpetual(coin.clone()),
        EventTimestamps::new(Vec::new(), at_nanos, at_nanos),
        Price::from_str("0.000000000000000001").unwrap(),
        Quantity::from_str("100000000000000000000").unwrap(),
        MarketTradeReportingKind::TakerOrderAggregate,
        MarketTradeKind::Regular,
        AggressorSide::Buy,
        AggressorSideClassification::DerivedFromMakerSide,
        MarketTradeIdentity::Aster {
            aggregate_trade_id: u64::MAX,
            first_trade_id: 0,
            last_trade_id: 128,
        },
    );
    let lighter = MarketTrade::new(
        Venue::Lighter,
        Symbol::perpetual(coin.clone()),
        EventTimestamps::new(Vec::new(), at_nanos, at_nanos),
        Price::from_str("1").unwrap(),
        Quantity::from_str("1").unwrap(),
        MarketTradeReportingKind::Individual,
        MarketTradeKind::Other,
        AggressorSide::Unknown,
        AggressorSideClassification::Unknown,
        MarketTradeIdentity::Lighter {
            market_id: 4,
            trade_id: "t-1".to_owned(),
            message_nonce: Some(5),
        },
    );
    let snapshot = OrderBookSnapshot::try_new(
        Venue::Aster,
        Symbol::perpetual(coin),
        None,
        EventTimestamps::new(Vec::new(), at_nanos, at_nanos),
        vec![BookLevel::new(
            Price::from_str("1").unwrap(),
            Quantity::from_str("2").unwrap(),
            OrderCount::new(9),
        )],
        vec![BookLevel::new(
            Price::from_str("3").unwrap(),
            Quantity::from_str("4").unwrap(),
            None,
        )],
    )
    .unwrap();
    let events = [
        NormalizedMarketEvent::OrderBookSnapshot(snapshot),
        one_sided_bbo(),
        hyperliquid_trade(),
        NormalizedMarketEvent::MarketTrade(aster),
        NormalizedMarketEvent::MarketTrade(lighter),
        NormalizedMarketEvent::OrderBookUnavailable(unavailable.clone()),
        NormalizedMarketEvent::TradeStreamUnavailable(unavailable),
        NormalizedMarketEvent::TradeStreamResumed(TradeStreamResumed::new(
            Venue::Lighter,
            MarketCoin::try_new("BTC").unwrap(),
            at_nanos,
        )),
    ];
    for (index, event) in events.iter().enumerate() {
        let stored = StoredEventV1::from_normalized(index as u64 + 1, event).unwrap();
        let bytes = encode_event(&stored);
        let read = decode_event(&bytes).unwrap();
        assert_eq!(read, stored);
        assert_eq!(&read.to_normalized().unwrap(), event);
        assert!(decode_event(&bytes[..bytes.len() - 1]).is_err());
    }
}

#[test]
fn signed_and_long_numbers_have_golden_bytes() {
    let event = NormalizedMarketEvent::BestBidOfferUpdated(BestBidOffer::new(
        Venue::Hyperliquid,
        Symbol::perpetual(MarketCoin::try_new("E").unwrap()),
        EventTimestamps::new(
            Vec::new(),
            LocalObservationTime::from_nanos_since_start(300),
            LocalObservationTime::from_nanos_since_start(1),
        ),
        Some(BookLevel::new(
            Price::from_str("100").unwrap(),
            Quantity::from_str("0.5").unwrap(),
            OrderCount::new(200),
        )),
        None,
    ));
    let stored = StoredEventV1::from_normalized(2, &event).unwrap();
    // Numbers in groups of seven bits, the signed ones folded; then the variant and the sides.
    assert_eq!(
        encode_event(&stored),
        [2, 1, 1, b'E', 0xac, 2, 1, 0, 0, 5, 1, 0xc8, 1, 0, 10, 1, 1, 0xc8, 1, 0]
    );
}

#[test]
fn stored_values_that_mean_nothing_are_refused() {
    let mut bytes = encode_event(&stored_event(1));
    bytes[3] = b' ';
    assert_eq!(
        decode_event(&bytes).unwrap().to_normalized(),
        Err(StorageConversionError::InvalidMarketCoin)
    );
    let event = decode_event(&encode_event(&stored_event(1)))
        .unwrap()
        .to_normalized()
        .unwrap();
    assert_eq!(
        StoredEventV1::from_normalized(0, &event),
        Err(StorageConversionError::ZeroCaptureSequence)
    );
    let mut variant = encode_event(&stored_event(1));
    variant[10] = 99;
    assert!(decode_event(&variant).is_err());
}

#[test]
fn time_before_the_epoch_is_refused() {
    let mut writer = Segments::create(SegmentLimits::default());
    assert_eq!(
        writer.append(&stored_event(1), WallTime::new(-1, 0)),
        Err(SegmentWriterError::TimeBeforeUnixEpoch)
    );
}

#[test]
fn recovery_cuts_off_a_record_out_of_sequence() {
    let mut writer = Segments::create(SegmentLimits::default());
    writer.append(&stored_event(1), at(1, 0)).unwrap();
    let (_, mut bytes) = writer.finish(at(2, 0)).remove(0);
    let valid_length = bytes.len() as u64;
    bytes.extend(encode_record(&stored_event(3)).unwrap());

    let outcome =
        recover_open_segment("segment-000000.open", &bytes, capture_id(), 0, at(3, 0)).unwrap();
    assert_eq!(outcome.kept_bytes(), valid_length);
}

#[test]
fn owned_bytes_are_the_sum_of_what_is_allocated() {
    let event = stored_event(1);
    let none = HeldCapacities {
        market_coin: 0,
        exchange_times: 0,
        source: 0,
        payload: 0,
    };
    let fixed = std::mem::size_of::<StoredEventV1>();
    assert_eq!(event.owned_bytes_with(none), fixed);
    assert_eq!(
        event.owned_bytes_with(HeldCapacities {
            market_coin: 5,
            ..none
        }),
        fixed + 5
    );
    assert_eq!(
        event.owned_bytes_with(HeldCapacities {
            market_coin: usize::MAX,
            ..none
        }),
        usize::MAX
    );
    let bytes = event.approximate_owned_bytes();
    assert!(bytes >= fixed + event.market_coin.len());
    assert!(bytes < fixed + 100_000);
}
