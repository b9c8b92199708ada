use market_capture::domain::{MarketCoin, Price, Quantity, Symbol, Venue};
use market_capture::export::convert::{decimal38, rows_of, CellRow, ExportError};
use market_capture::export::exporter::{
    building_name, capture_date, check_output, reconcile, row_of_capture, DatasetMetadata,
    Exporter, Output, TableRows,
};
use market_capture::export::partition::safe_partition_value;
use market_capture::export::rows::{Cell, ColumnKind, Table};
use market_capture::market_data::{
    BestBidOffer, BookLevel, EventTimestamps, ExchangeTimeKind, ExchangeTimeObservation,
    ExchangeTimeUnit, LocalObservationTime, MarketTrade, MarketTradeIdentity, MarketTradeKind,
    MarketTradeReportingKind, NormalizedMarketEvent, OrderBookSnapshot, TradeStreamResumed,
};
use market_capture::market_data::{AggressorSide, AggressorSideClassification};
use market_capture::recorder::format::CaptureId;
use market_capture::recorder::manifest::{
    CaptureManifest, CaptureMetadata, CaptureStatus, Configuration,
};
use market_capture::recorder::validated::ValidatedReplayEvent;
use market_capture::recorder::writer::SegmentLimits;

const ID: &str = "09090909-0909-0909-0909-090909090909";

fn coin(value: &str) -> MarketCoin {
    MarketCoin::try_new(value).unwrap()
}

fn at(nanos: u64) -> LocalObservationTime {
    LocalObservationTime::from_nanos_since_start(nanos)
}

fn manifest() -> CaptureManifest {
    CaptureManifest::new(
        CaptureId::from_bytes([9; 16]),
        1_000,
        4,
        SegmentLimits::default(),
        CaptureMetadata {
            sanitized_configuration: Configuration::new()
                .insert("MARKET_COINS".into(), "BTC".into()),
            git_commit: "test".into(),
            dirty_build: false,
            package_version: "test".into(),
            rust_target: "test".into(),
            collector_label: "test".into(),
            configured_markets: vec!["BTC".into()],
            resolved_venue_markets: Vec::new(),
        },
    )
    .unwrap()
}

fn snapshot() -> OrderBookSnapshot {
    OrderBookSnapshot::try_new(
        Venue::Aster,
        Symbol::perpetual(coin("BTC")),
        Some(7),
        EventTimestamps::new(
            vec![ExchangeTimeObservation::new(
                ExchangeTimeKind::EventTime,
                1,
                ExchangeTimeUnit::Milliseconds,
            )],
            at(2),
            at(3),
        ),
        vec![BookLevel::new(
            Price::from_str("100.25").unwrap(),
            Quantity::from_str("2").unwrap(),
            None,
        )],
        vec![BookLevel::new(
            Price::from_str("100.50").unwrap(),
            Quantity::from_str("3").unwrap(),
            None,
        )],
    )
    .unwrap()
}

fn replayed(sequence: u64, event: NormalizedMarketEvent) -> ValidatedReplayEvent {
    ValidatedReplayEvent {
        capture_sequence: sequence,
        event,
    }
}

fn resumed(market: &str) -> NormalizedMarketEvent {
    NormalizedMarketEvent::TradeStreamResumed(TradeStreamResumed::new(
        Venue::Lighter,
        coin(market),
        at(5),
    ))
}

fn text(value: &str) -> Cell {
    Cell::Text(Some(value.to_owned()))
}

fn exported(
    events: Vec<NormalizedMarketEvent>,
) -> Result<(TableRows, Vec<Output>), ExportError> {
    let count = events.len() as u64;
    let mut exporter = Exporter::new("1970-01-01".into(), ID.into());
    let mut outputs = Vec::new();
    for (index, event) in events.into_iter().enumerate() {
        let (next, more) = exporter.accept(&replayed(index as u64 + 1, event))?;
        exporter = next;
        outputs.extend(more);
    }
    let (rows, more) = exporter.finish(&manifest(), "cafe", count)?;
    outputs.extend(more);
    Ok((rows, outputs))
}

#[test]
fn exact_decimal_conversion_pads_without_rounding() {
    assert_eq!(decimal38(1234, 2).unwrap(), 12_340_000_000_000_000_000);
    assert!(matches!(
        decimal38(1, 19),
        Err(ExportError::DecimalScale(19))
    ));
}

#[test]
fn partition_values_cannot_escape_the_dataset() {
    assert_eq!(safe_partition_value("dex/Coin 1"), "dex%2FCoin%201");
}

#[test]
fn exports_with_exact_decimals_and_reconciled_counts() {
    let snapshot = snapshot();
    let bbo = BestBidOffer::new(
        Venue::Aster,
        snapshot.symbol().clone(),
        snapshot.timestamps().clone(),
        snapshot.bids().first().copied(),
        snapshot.asks().first().copied(),
    );
    let (rows, outputs) = exported(vec![
        NormalizedMarketEvent::OrderBookSnapshot(snapshot),
        NormalizedMarketEvent::BestBidOfferUpdated(bbo),
    ])
    .unwrap();
    assert_eq!(rows.order_book_events, 1);
    assert_eq!(rows.best_bid_offers, 1);
    assert_eq!(rows.order_book_levels, 2);
    assert_eq!(rows.exchange_times, 2);
    assert_eq!(rows.captures, 1);

    let levels = format!(
        "version=2/date=1970-01-01/event_type=order_book_levels/venue=aster/market=BTC/part-{ID}.parquet"
    );
    assert!(matches!(&outputs[0], Output::OpenLevels { path, .. } if *path == levels));
    let appended: Vec<&Vec<CellRow>> = outputs
        .iter()
        .filter_map(|output| match output {
            Output::AppendLevels { path, rows, .. } if *path == levels => Some(rows),
            _ => None,
        })
        .collect();
    assert_eq!(appended.len(), 1);
    assert_eq!(appended[0].len(), 2);
    assert_eq!(
        appended[0][0].cells,
        [
            text(ID),
            Cell::U64(Some(1)),
            text("aster"),
            text("BTC"),
            text("bid"),
            Cell::U32(Some(0)),
            Cell::Decimal(Some(100_250_000_000_000_000_000)),
            Cell::Decimal(Some(2_000_000_000_000_000_000)),
            Cell::U32(None),
        ]
    );
    let price = Table::OrderBookLevels.columns()[6];
    assert_eq!((price.name, price.kind), ("price", ColumnKind::Decimal));
    let paths: Vec<&str> = outputs
        .iter()
        .filter_map(|output| match output {
            Output::WriteTable { path, .. } => Some(path.as_str()),
            _ => None,
        })
        .collect();
    let directory = "version=2/date=1970-01-01/event_type=";
    assert_eq!(
        paths,
        [
            format!("{directory}order_book_events/venue=aster/market=BTC/part-{ID}-000000.parquet"),
            format!("{directory}best_bid_offers/venue=aster/market=BTC/part-{ID}-000000.parquet"),
            format!("{directory}exchange_times/venue=aster/market=BTC/part-{ID}-000000.parquet"),
            format!("{directory}captures/venue=all/market=all/part-{ID}.parquet"),
        ]
    );
}

#[test]
fn events_are_written_in_batches_and_none_is_lost() {
    let markets = ["B", "A"];
    let events: Vec<NormalizedMarketEvent> =
        (0..5_000).map(|index| resumed(markets[index % 2])).collect();
    let (rows, outputs) = exported(events).unwrap();
    assert_eq!(rows.availability_events, 5_000);
    let mut written: Vec<(String, u64)> = Vec::new();
    let mut files = Vec::new();
    for output in outputs {
        if let Output::WriteTable {
            table: Table::AvailabilityEvents,
            partition,
            path,
            rows,
        } = output
        {
            files.push(path.rsplit('/').next().unwrap().to_owned());
            for row in rows {
                let Cell::U64(Some(sequence)) = row.cells[1] else {
                    panic!("expected a sequence")
                };
                written.push((partition.market.clone(), sequence));
            }
        }
    }
    assert_eq!(
        files,
        [
            format!("part-{ID}-000000.parquet"),
            format!("part-{ID}-000000.parquet"),
            format!("part-{ID}-000001.parquet"),
            format!("part-{ID}-000001.parquet"),
        ]
    );
    for (offset, market) in ["B", "A"].into_iter().enumerate() {
        let sequences: Vec<u64> = written
            .iter()
            .filter(|entry| entry.0 == market)
            .map(|entry| entry.1)
            .collect();
        let expected: Vec<u64> = (0..2_500).map(|index| 2 * index + offset as u64 + 1).collect();
        assert_eq!(sequences, expected);
    }
}

#[test]
fn levels_are_added_in_batches() {
    let events: Vec<NormalizedMarketEvent> = (0..3_000)
        .map(|_| NormalizedMarketEvent::OrderBookSnapshot(snapshot()))
        .collect();
    let (rows, outputs) = exported(events).unwrap();
    assert_eq!(rows.order_book_levels, 6_000);
    let sizes: Vec<usize> = outputs
        .iter()
        .filter_map(|output| match output {
            Output::AppendLevels { rows, .. } => Some(rows.len()),
            _ => None,
        })
        .collect();
    assert_eq!(sizes, [4_096, 1_904]);
    let opened = outputs
        .iter()
        .filter(|output| matches!(output, Output::OpenLevels { .. }))
        .count();
    let closed = outputs
        .iter()
        .filter(|output| matches!(output, Output::CloseLevels { .. }))
        .count();
    assert_eq!((opened, closed), (1, 1));
}

#[test]
fn trades_fill_the_columns_of_their_venue() {
    let trade = |identity| {
        NormalizedMarketEvent::MarketTrade(MarketTrade::new(
            Venue::Lighter,
            Symbol::perpetual(coin("ETH")),
            EventTimestamps::new(Vec::new(), at(1), at(2)),
            Price::from_str("1.5").unwrap(),
            Quantity::from_str("2").unwrap(),
            MarketTradeReportingKind::Individual,
            MarketTradeKind::Deleverage,
            AggressorSide::Buy,
            AggressorSideClassification::VenueProvided,
            identity,
        ))
    };
    let rows = rows_of(
        "id",
        9,
        &trade(MarketTradeIdentity::Lighter {
            market_id: 3,
            trade_id: "t".into(),
            message_nonce: Some(4),
        }),
    )
    .unwrap();
    assert_eq!(rows.table, Table::MarketTrades);
    assert_eq!(
        rows.row.cells,
        [
            text("id"),
            Cell::U64(Some(9)),
            text("lighter"),
            text("ETH"),
            Cell::U64(Some(1)),
            Cell::U64(Some(2)),
            Cell::Decimal(Some(1_500_000_000_000_000_000)),
            Cell::Decimal(Some(2_000_000_000_000_000_000)),
            text("Individual"),
            text("Deleverage"),
            text("Buy"),
            text("VenueProvided"),
            Cell::U64(None),
            Cell::U64(None),
            Cell::U64(None),
            Cell::U64(None),
            Cell::U64(None),
            Cell::Text(None),
            Cell::U32(Some(3)),
            text("t"),
            Cell::U64(Some(4)),
        ]
    );
    assert_eq!(rows.row.cells.len(), Table::MarketTrades.columns().len());
    let rows = rows_of(
        "id",
        9,
        &trade(MarketTradeIdentity::Binance {
            aggregate_trade_id: 5,
            first_trade_id: 6,
            last_trade_id: 7,
        }),
    )
    .unwrap();
    assert_eq!(
        rows.row.cells[12..15],
        [Cell::U64(Some(5)), Cell::U64(Some(6)), Cell::U64(Some(7))]
    );
}

#[test]
fn values_that_do_not_fit_end_the_export() {
    assert_eq!(
        decimal38(100_000_000_000_000_000_000, 0),
        Err(ExportError::DecimalOverflow)
    );
    assert_eq!(
        decimal38(99_999_999_999_999_999_999, 0).unwrap(),
        99_999_999_999_999_999_999_000_000_000_000_000_000
    );
    assert_eq!(decimal38(i128::MAX, 0), Err(ExportError::DecimalOverflow));
    let book = OrderBookSnapshot::try_new(
        Venue::Aster,
        Symbol::perpetual(coin("BTC")),
        None,
        EventTimestamps::new(Vec::new(), at(1), at(1)),
        vec![BookLevel::new(
            Price::from_str("1").unwrap(),
            Quantity::from_str("100000000000000000000").unwrap(),
            None,
        )],
        vec![BookLevel::new(
            Price::from_str("2").unwrap(),
            Quantity::from_str("1").unwrap(),
            None,
        )],
    )
    .unwrap();
    assert_eq!(
        exported(vec![NormalizedMarketEvent::OrderBookSnapshot(book)]).unwrap_err(),
        ExportError::DecimalOverflow
    );
}

#[test]
fn counts_that_differ_are_refused() {
    let exporter = Exporter::new("1970-01-01".into(), ID.into());
    let (exporter, _) = exporter.accept(&replayed(1, resumed("A"))).unwrap();
    assert_eq!(exporter.processed_events(), 1);
    assert_eq!(
        exporter.finish(&manifest(), "cafe", 2).unwrap_err(),
        ExportError::ReconciliationMismatch {
            canonical_events: 2,
            exported_events: 1
        }
    );
    let mut rows = TableRows {
        captures: 1,
        order_book_events: u64::MAX,
        best_bid_offers: 1,
        order_book_levels: 0,
        market_trades: 0,
        availability_events: 0,
        exchange_times: 0,
    };
    assert_eq!(reconcile(&rows, 0), Err(ExportError::RowCountOverflow));
    rows.best_bid_offers = 0;
    assert_eq!(reconcile(&rows, u64::MAX), Ok(()));
}

#[test]
fn a_capture_has_a_row_of_its_own() {
    let row = row_of_capture("id", &manifest(), "cafe", "{}".into());
    assert_eq!(
        row.cells,
        [
            text("id"),
            text("incomplete_process_crash"),
            Cell::U64(Some(1_000)),
            Cell::U64(None),
            text("cafe"),
            text(&manifest().configuration_sha256),
            text("{}"),
            Cell::U64(Some(0)),
            Cell::U64(Some(0)),
            Cell::U64(Some(0)),
            Cell::U64(Some(0)),
            Cell::U64(Some(0)),
        ]
    );
    let (_, outputs) = exported(Vec::new()).unwrap();
    let Output::WriteTable { rows, .. } = &outputs[0] else {
        panic!("expected the row of the capture")
    };
    assert_eq!(rows[0].cells[6], text(r#"{"MARKET_COINS":"BTC"}"#));
}

#[test]
fn dates_are_those_of_the_calendar() {
    assert_eq!(capture_date(0).unwrap(), "1970-01-01");
    assert_eq!(capture_date(1_709_210_096_000).unwrap(), "2024-02-29");
    assert_eq!(
        capture_date(u64::MAX),
        Err(ExportError::InvalidCaptureStart)
    );
    assert_eq!(
        capture_date(i64::MAX as u64),
        Err(ExportError::InvalidCaptureStart)
    );
}

#[test]
fn datasets_go_to_new_absolute_paths() {
    assert_eq!(check_output("/data/set", false), Ok(()));
    assert_eq!(
        check_output("data/set", true).unwrap_err().to_text(),
        "dataset output must be absolute: data/set"
    );
    assert_eq!(
        check_output("/data/set", true).unwrap_err().to_text(),
        "immutable dataset output already exists: /data/set"
    );
    assert_eq!(building_name("set", "id"), ".set.building-id");
}

#[test]
fn datasets_describe_themselves() {
    let rows = exported(vec![resumed("A")]).unwrap().0;
    let metadata = DatasetMetadata::new(
        &manifest(),
        "cafe".into(),
        "commit".into(),
        "1.0".into(),
        77,
        rows,
    );
    assert_eq!(metadata.schema_version, 2);
    assert_eq!(metadata.source_capture_ids, [ID]);
    assert_eq!(metadata.source_capture_statuses, ["incomplete_process_crash"]);
    assert!(metadata.contains_incomplete_capture);
    let mut complete = manifest();
    complete.capture_status = CaptureStatus::Complete;
    let metadata = DatasetMetadata::new(
        &complete,
        "cafe".into(),
        "commit".into(),
        "1.0".into(),
        77,
        rows,
    );
    assert!(!metadata.contains_incomplete_capture);
    let names: Vec<&str> = metadata
        .table_rows
        .entries()
        .iter()
        .map(|entry| entry.0)
        .collect();
    let mut sorted = names.clone();
    sorted.sort_unstable();
    assert_eq!(names, sorted);
    assert_eq!(metadata.table_rows.entries()[0], ("availability_events", 1));
}

#[test]
fn export_errors_have_texts() {
    let cases = [
        (ExportError::Io("x".into()), "Parquet export I/O failed: x"),
        (
            ExportError::InvalidCaptureStart,
            "capture UTC start is outside the supported range",
        ),
        (
            ExportError::DecimalScale(19),
            "decimal scale 19 exceeds DECIMAL(38,18)",
        ),
        (
            ExportError::DecimalOverflow,
            "exact decimal does not fit DECIMAL(38,18)",
        ),
        (
            ExportError::RowCountOverflow,
            "export row count exceeds supported range",
        ),
        (
            ExportError::ReconciliationMismatch {
                canonical_events: 3,
                exported_events: 2,
            },
            "Parquet event rows do not reconcile: canonical=3, exported=2",
        ),
        (
            ExportError::Parquet("full".into()),
            "Parquet writer failed: full",
        ),
    ];
    for (error, text) in cases {
        assert_eq!(error.to_text(), text);
    }
}
