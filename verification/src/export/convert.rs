//! The rows that events become.
use vstd::prelude::*;

use crate::domain::decimal::{pow10, power_of_ten};
use crate::domain::{Price, Quantity, Venue};
use crate::export::rows::{
    cell_views, AvailabilityRow, BestBidOfferRow, Cell, CellView, ExchangeTimeRow, MarketTradeRow,
    OrderBookEventRow, OrderBookLevelRow, Table,
};
use crate::market_data::event::{
    AggressorSide, AggressorSideClassification, BboView, BestBidOffer, EventView, ExchangeTimeKind,
    ExchangeTimeObservation, ExchangeTimeUnit, IdentityView, MarketDataUnavailable, MarketTrade,
    MarketTradeIdentity, MarketTradeKind, MarketTradeReportingKind, NormalizedMarketEvent,
    ResumedView, TradeStreamResumed, TradeView, UnavailabilityCategory, UnavailableView,
};
use crate::market_data::order_book::SnapshotView;
use crate::market_data::{BookLevel, OrderBookSnapshot};
use crate::recorder::validated::{CaptureValidationError, ValidationErrorView};
use crate::text::{decimal, decimal_text};
use crate::venue::wire::{lemma_read_all_step, read_all};

verus! {

/// Why a capture was not exported.
#[allow(inconsistent_fields)]
#[derive(Debug, Eq, PartialEq)]
pub enum ExportError {
    OutputMustBeAbsolute(String),
    OutputAlreadyExists(String),
    Io(String),
    Validation(CaptureValidationError),
    InvalidCaptureStart,
    DecimalScale(u8),
    DecimalOverflow,
    RowCountOverflow,
    ReconciliationMismatch { canonical_events: u64, exported_events: u64 },
    Parquet(String),
}

/// The model of `ExportError`.
#[allow(inconsistent_fields)]
pub enum ExportErrorView {
    OutputMustBeAbsolute(Seq<char>),
    OutputAlreadyExists(Seq<char>),
    Io(Seq<char>),
    Validation(ValidationErrorView),
    InvalidCaptureStart,
    DecimalScale(u8),
    DecimalOverflow,
    RowCountOverflow,
    ReconciliationMismatch { canonical_events: u64, exported_events: u64 },
    Parquet(Seq<char>),
}

impl View for ExportError {
    type V = ExportErrorView;

    open spec fn view(&self) -> ExportErrorView {
        match *self {
            ExportError::OutputMustBeAbsolute(path) => ExportErrorView::OutputMustBeAbsolute(path@),
            ExportError::OutputAlreadyExists(path) => ExportErrorView::OutputAlreadyExists(path@),
            ExportError::Io(error) => ExportErrorView::Io(error@),
            ExportError::Validation(error) => ExportErrorView::Validation(error@),
            ExportError::InvalidCaptureStart => ExportErrorView::InvalidCaptureStart,
            ExportError::DecimalScale(scale) => ExportErrorView::DecimalScale(scale),
            ExportError::DecimalOverflow => ExportErrorView::DecimalOverflow,
            ExportError::RowCountOverflow => ExportErrorView::RowCountOverflow,
            ExportError::ReconciliationMismatch { canonical_events, exported_events } =>
                ExportErrorView::ReconciliationMismatch { canonical_events, exported_events },
            ExportError::Parquet(error) => ExportErrorView::Parquet(error@),
        }
    }
}

impl ExportErrorView {
    /// The message of the error.
    pub open spec fn message(self) -> Seq<char> {
        match self {
            ExportErrorView::OutputMustBeAbsolute(path) => "dataset output must be absolute: "@
                + path,
            ExportErrorView::OutputAlreadyExists(path) =>
                "immutable dataset output already exists: "@ + path,
            ExportErrorView::Io(error) => "Parquet export I/O failed: "@ + error,
            ExportErrorView::Validation(error) => error.message(),
            ExportErrorView::InvalidCaptureStart =>
                "capture UTC start is outside the supported range"@,
            ExportErrorView::DecimalScale(scale) => "decimal scale "@ + decimal(scale as nat)
                + " exceeds DECIMAL(38,18)"@,
            ExportErrorView::DecimalOverflow => "exact decimal does not fit DECIMAL(38,18)"@,
            ExportErrorView::RowCountOverflow => "export row count exceeds supported range"@,
            ExportErrorView::ReconciliationMismatch { canonical_events, exported_events } =>
                "Parquet event rows do not reconcile: canonical="@ + decimal(
                    canonical_events as nat,
                ) + ", exported="@ + decimal(exported_events as nat),
            ExportErrorView::Parquet(error) => "Parquet writer failed: "@ + error,
        }
    }
}

fn joined(prefix: &str, text: &str) -> (whole: String)
    ensures
        whole@ == prefix@ + text@,
{
    let mut whole: String = prefix.to_owned();
    whole.append(text);
    whole
}

impl ExportError {
    pub fn to_text(&self) -> (text: String)
        ensures
            text@ == self@.message(),
    {
        match self {
            ExportError::OutputMustBeAbsolute(path) => joined(
                "dataset output must be absolute: ",
                path.as_str(),
            ),
            ExportError::OutputAlreadyExists(path) => joined(
                "immutable dataset output already exists: ",
                path.as_str(),
            ),
            ExportError::Io(error) => joined("Parquet export I/O failed: ", error.as_str()),
            ExportError::Validation(error) => error.to_text(),
            ExportError::InvalidCaptureStart =>
                "capture UTC start is outside the supported range".to_owned(),
            ExportError::DecimalScale(scale) => {
                let mut text: String = joined(
                    "decimal scale ",
                    decimal_text(*scale as u128).as_str(),
                );
                text.append(" exceeds DECIMAL(38,18)");
                text
            },
            ExportError::DecimalOverflow => "exact decimal does not fit DECIMAL(38,18)".to_owned(),
            ExportError::RowCountOverflow => "export row count exceeds supported range".to_owned(),
            ExportError::ReconciliationMismatch { canonical_events, exported_events } => {
                let mut text: String = joined(
                    "Parquet event rows do not reconcile: canonical=",
                    decimal_text(*canonical_events as u128).as_str(),
                );
                text.append(", exported=");
                text.append(decimal_text(*exported_events as u128).as_str());
                text
            },
            ExportError::Parquet(error) => joined("Parquet writer failed: ", error.as_str()),
        }
    }
}

/// A decimal with exactly 18 digits behind the point, if it has no more and 38 in all are
/// enough.
pub open spec fn padded_decimal(coefficient: int, scale: nat) -> Result<int, ExportErrorView> {
    if scale > 18 {
        Err(ExportErrorView::DecimalScale(scale as u8))
    } else {
        let value = coefficient * pow10((18 - scale) as nat);
        if value >= 100_000_000_000_000_000_000_000_000_000_000_000_000 || value
            <= -100_000_000_000_000_000_000_000_000_000_000_000_000 {
            Err(ExportErrorView::DecimalOverflow)
        } else {
            Ok(value)
        }
    }
}

/// Pads a decimal to 18 digits behind the point, without rounding.
pub fn decimal38(coefficient: i128, scale: u8) -> (result: Result<i128, ExportError>)
    ensures
        padded_decimal(coefficient as int, scale as nat) == (match result {
            Ok(value) => Ok::<int, ExportErrorView>(value as int),
            Err(error) => Err(error@),
        }),
{
    if scale > 18 {
        return Err(ExportError::DecimalScale(scale));
    }
    match coefficient.checked_mul(power_of_ten(18 - scale)) {
        None => Err(ExportError::DecimalOverflow),
        Some(value) => {
            if value >= 100_000_000_000_000_000_000_000_000_000_000_000_000 || value
                <= -100_000_000_000_000_000_000_000_000_000_000_000_000 {
                Err(ExportError::DecimalOverflow)
            } else {
                Ok(value)
            }
        },
    }
}

/// The name of a venue in a dataset.
pub open spec fn venue_label(venue: Venue) -> Seq<char> {
    match venue {
        Venue::Aster => "aster"@,
        Venue::Binance => "binance"@,
        Venue::Hyperliquid => "hyperliquid"@,
        Venue::Lighter => "lighter"@,
    }
}

pub fn venue_name(venue: Venue) -> (name: &'static str)
    ensures
        name@ == venue_label(venue),
{
    match venue {
        Venue::Aster => "aster",
        Venue::Binance => "binance",
        Venue::Hyperliquid => "hyperliquid",
        Venue::Lighter => "lighter",
    }
}

/// The name of a kind of time.
pub open spec fn kind_label(kind: ExchangeTimeKind) -> Seq<char> {
    match kind {
        ExchangeTimeKind::EventTime => "EventTime"@,
        ExchangeTimeKind::TradeTime => "TradeTime"@,
        ExchangeTimeKind::BlockTime => "BlockTime"@,
        ExchangeTimeKind::TransactionTime => "TransactionTime"@,
        ExchangeTimeKind::Other => "Other"@,
    }
}

pub fn exchange_time_kind(kind: ExchangeTimeKind) -> (name: &'static str)
    ensures
        name@ == kind_label(kind),
{
    match kind {
        ExchangeTimeKind::EventTime => "EventTime",
        ExchangeTimeKind::TradeTime => "TradeTime",
        ExchangeTimeKind::BlockTime => "BlockTime",
        ExchangeTimeKind::TransactionTime => "TransactionTime",
        ExchangeTimeKind::Other => "Other",
    }
}

/// The name of a unit of time.
pub open spec fn unit_label(unit: ExchangeTimeUnit) -> Seq<char> {
    match unit {
        ExchangeTimeUnit::Milliseconds => "Milliseconds"@,
        ExchangeTimeUnit::Microseconds => "Microseconds"@,
        ExchangeTimeUnit::Nanoseconds => "Nanoseconds"@,
        ExchangeTimeUnit::Unknown => "Unknown"@,
    }
}

pub fn exchange_time_unit(unit: ExchangeTimeUnit) -> (name: &'static str)
    ensures
        name@ == unit_label(unit),
{
    match unit {
        ExchangeTimeUnit::Milliseconds => "Milliseconds",
        ExchangeTimeUnit::Microseconds => "Microseconds",
        ExchangeTimeUnit::Nanoseconds => "Nanoseconds",
        ExchangeTimeUnit::Unknown => "Unknown",
    }
}

/// The name of a reporting kind.
pub open spec fn reporting_label(kind: MarketTradeReportingKind) -> Seq<char> {
    match kind {
        MarketTradeReportingKind::Individual => "Individual"@,
        MarketTradeReportingKind::TakerOrderAggregate => "TakerOrderAggregate"@,
    }
}

fn reporting_name(kind: MarketTradeReportingKind) -> (name: &'static str)
    ensures
        name@ == reporting_label(kind),
{
    match kind {
        MarketTradeReportingKind::Individual => "Individual",
        MarketTradeReportingKind::TakerOrderAggregate => "TakerOrderAggregate",
    }
}

/// The name of a trade kind.
pub open spec fn trade_kind_label(kind: MarketTradeKind) -> Seq<char> {
    match kind {
        MarketTradeKind::Regular => "Regular"@,
        MarketTradeKind::Liquidation => "Liquidation"@,
        MarketTradeKind::Deleverage => "Deleverage"@,
        MarketTradeKind::MarketSettlement => "MarketSettlement"@,
        MarketTradeKind::Other => "Other"@,
    }
}

fn trade_kind_name(kind: MarketTradeKind) -> (name: &'static str)
    ensures
        name@ == trade_kind_label(kind),
{
    match kind {
        MarketTradeKind::Regular => "Regular",
        MarketTradeKind::Liquidation => "Liquidation",
        MarketTradeKind::Deleverage => "Deleverage",
        MarketTradeKind::MarketSettlement => "MarketSettlement",
        MarketTradeKind::Other => "Other",
    }
}

/// The name of an aggressor side.
pub open spec fn aggressor_label(side: AggressorSide) -> Seq<char> {
    match side {
        AggressorSide::Buy => "Buy"@,
        AggressorSide::Sell => "Sell"@,
        AggressorSide::Unknown => "Unknown"@,
    }
}

fn aggressor_name(side: AggressorSide) -> (name: &'static str)
    ensures
        name@ == aggressor_label(side),
{
    match side {
        AggressorSide::Buy => "Buy",
        AggressorSide::Sell => "Sell",
        AggressorSide::Unknown => "Unknown",
    }
}

/// The name of how an aggressor side is known.
pub open spec fn classification_label(kind: AggressorSideClassification) -> Seq<char> {
    match kind {
        AggressorSideClassification::VenueProvided => "VenueProvided"@,
        AggressorSideClassification::DerivedFromMakerSide => "DerivedFromMakerSide"@,
        AggressorSideClassification::Unknown => "Unknown"@,
    }
}

fn classification_name(kind: AggressorSideClassification) -> (name: &'static str)
    ensures
        name@ == classification_label(kind),
{
    match kind {
        AggressorSideClassification::VenueProvided => "VenueProvided",
        AggressorSideClassification::DerivedFromMakerSide => "DerivedFromMakerSide",
        AggressorSideClassification::Unknown => "Unknown",
    }
}

/// The name of why market data is unavailable.
pub open spec fn category_label(category: UnavailabilityCategory) -> Seq<char> {
    match category {
        UnavailabilityCategory::Disconnected => "Disconnected"@,
        UnavailabilityCategory::InvalidMarketData => "InvalidMarketData"@,
        UnavailabilityCategory::SequenceGap => "SequenceGap"@,
        UnavailabilityCategory::RecorderShutdown => "RecorderShutdown"@,
        UnavailabilityCategory::Other => "Other"@,
    }
}

fn category_name(category: UnavailabilityCategory) -> (name: &'static str)
    ensures
        name@ == category_label(category),
{
    match category {
        UnavailabilityCategory::Disconnected => "Disconnected",
        UnavailabilityCategory::InvalidMarketData => "InvalidMarketData",
        UnavailabilityCategory::SequenceGap => "SequenceGap",
        UnavailabilityCategory::RecorderShutdown => "RecorderShutdown",
        UnavailabilityCategory::Other => "Other",
    }
}

/// A text that is there.
pub open spec fn text_cell(text: Seq<char>) -> CellView {
    CellView::Text(Some(text))
}

/// A number that is there.
pub open spec fn u64_cell(number: u64) -> CellView {
    CellView::U64(Some(number))
}

/// The price and the quantity of a level, padded.
pub open spec fn level_amounts(level: BookLevel) -> Result<(i128, i128), ExportErrorView> {
    match padded_decimal(level.price.coefficient_value(), level.price.scale_value()) {
        Err(error) => Err(error),
        Ok(price) => match padded_decimal(
            level.quantity.coefficient_value(),
            level.quantity.scale_value(),
        ) {
            Err(error) => Err(error),
            Ok(quantity) => Ok((price as i128, quantity as i128)),
        },
    }
}

/// The number of orders of a level.
pub open spec fn level_count(level: BookLevel) -> Option<u32> {
    match level.order_count {
        Some(count) => Some(count.count()),
        None => None,
    }
}

fn amounts_of(price: Price, quantity: Quantity) -> (result: Result<(i128, i128), ExportError>)
    ensures
        match result {
            Ok(amounts) => padded_decimal(price.coefficient_value(), price.scale_value()) == Ok::<
                int,
                ExportErrorView,
            >(amounts.0 as int) && padded_decimal(
                quantity.coefficient_value(),
                quantity.scale_value(),
            ) == Ok::<int, ExportErrorView>(amounts.1 as int),
            Err(error) => padded_decimal(price.coefficient_value(), price.scale_value()) == Err::<
                int,
                ExportErrorView,
            >(error@) || padded_decimal(price.coefficient_value(), price.scale_value()) is Ok
                && padded_decimal(quantity.coefficient_value(), quantity.scale_value()) == Err::<
                int,
                ExportErrorView,
            >(error@),
        },
{
    let price: i128 = match decimal38(price.coefficient(), price.scale()) {
        Ok(value) => value,
        Err(error) => return Err(error),
    };
    let quantity: i128 = match decimal38(quantity.coefficient(), quantity.scale()) {
        Ok(value) => value,
        Err(error) => return Err(error),
    };
    Ok((price, quantity))
}

fn count_number(level: &BookLevel) -> (count: Option<u32>)
    ensures
        count == level_count(*level),
{
    match level.order_count {
        Some(count) => Some(count.get()),
        None => None,
    }
}

/// What every row says first: capture, place in the capture, venue and market.
pub struct Origin {
    pub capture_id: Seq<char>,
    pub sequence: u64,
    pub venue: Venue,
    pub coin: Seq<char>,
}

/// The row of a level.
pub open spec fn level_row(origin: Origin, side: Seq<char>, position: nat, level: BookLevel) -> Result<
    Seq<CellView>,
    ExportErrorView,
> {
    match level_amounts(level) {
        Err(error) => Err(error),
        Ok(amounts) => Ok(
            seq![
                text_cell(origin.capture_id),
                u64_cell(origin.sequence),
                text_cell(venue_label(origin.venue)),
                text_cell(origin.coin),
                text_cell(side),
                CellView::U32(Some(position as u32)),
                CellView::Decimal(Some(amounts.0)),
                CellView::Decimal(Some(amounts.1)),
                CellView::U32(level_count(level)),
            ],
        ),
    }
}

/// Makes the rows of a side.
pub open spec fn level_rows_of(origin: Origin, side: Seq<char>) -> spec_fn(int, BookLevel) -> Result<
    Seq<CellView>,
    ExportErrorView,
> {
    |position: int, level: BookLevel| level_row(origin, side, position as nat, level)
}

/// The rows of the levels of a snapshot: bids, then asks, each side best first.
pub open spec fn snapshot_levels(origin: Origin, snapshot: SnapshotView) -> Result<
    Seq<Seq<CellView>>,
    ExportErrorView,
> {
    match read_all(snapshot.bids, level_rows_of(origin, "bid"@)) {
        Err(error) => Err(error),
        Ok(bids) => match read_all(snapshot.asks, level_rows_of(origin, "ask"@)) {
            Err(error) => Err(error),
            Ok(asks) => Ok(bids + asks),
        },
    }
}

/// The row of a time that the venue stated.
pub open spec fn time_row(origin: Origin, ordinal: int, time: ExchangeTimeObservation) -> Seq<
    CellView,
> {
    seq![
        text_cell(origin.capture_id),
        u64_cell(origin.sequence),
        text_cell(venue_label(origin.venue)),
        text_cell(origin.coin),
        CellView::U32(Some(ordinal as u32)),
        text_cell(kind_label(time.kind)),
        u64_cell(time.raw_value),
        text_cell(unit_label(time.declared_unit)),
    ]
}

/// The rows of the times that the venue stated.
pub open spec fn time_rows(origin: Origin, times: Seq<ExchangeTimeObservation>) -> Result<
    Seq<Seq<CellView>>,
    ExportErrorView,
> {
    if times.len() > 0x1_0000_0000 {
        Err(ExportErrorView::RowCountOverflow)
    } else {
        Ok(Seq::new(times.len(), |i: int| time_row(origin, i, times[i])))
    }
}

/// The row of a snapshot.
pub open spec fn snapshot_row(origin: Origin, snapshot: SnapshotView) -> Result<
    Seq<CellView>,
    ExportErrorView,
> {
    if snapshot.bids.len() > u32::MAX || snapshot.asks.len() > u32::MAX {
        Err(ExportErrorView::RowCountOverflow)
    } else {
        Ok(
            seq![
                text_cell(origin.capture_id),
                u64_cell(origin.sequence),
                text_cell(venue_label(origin.venue)),
                text_cell(origin.coin),
                u64_cell(snapshot.timestamps.local_receive.0),
                u64_cell(snapshot.timestamps.processing_completed.0),
                CellView::U64(snapshot.source_sequence),
                CellView::U32(Some(snapshot.bids.len() as u32)),
                CellView::U32(Some(snapshot.asks.len() as u32)),
            ],
        )
    }
}

/// The price, the quantity and the count of an optional level.
pub open spec fn offer_cells(level: Option<BookLevel>) -> Result<Seq<CellView>, ExportErrorView> {
    match level {
        None => Ok(seq![CellView::Decimal(None), CellView::Decimal(None), CellView::U32(None)]),
        Some(level) => match level_amounts(level) {
            Err(error) => Err(error),
            Ok(amounts) => Ok(
                seq![
                    CellView::Decimal(Some(amounts.0)),
                    CellView::Decimal(Some(amounts.1)),
                    CellView::U32(level_count(level)),
                ],
            ),
        },
    }
}

/// The row of a best bid and offer. A side that is absent stays absent.
pub open spec fn bbo_row(origin: Origin, bbo: BboView) -> Result<Seq<CellView>, ExportErrorView> {
    match offer_cells(bbo.bid) {
        Err(error) => Err(error),
        Ok(bid) => match offer_cells(bbo.ask) {
            Err(error) => Err(error),
            Ok(ask) => Ok(
                seq![
                    text_cell(origin.capture_id),
                    u64_cell(origin.sequence),
                    text_cell(venue_label(origin.venue)),
                    text_cell(origin.coin),
                    u64_cell(bbo.timestamps.local_receive.0),
                    u64_cell(bbo.timestamps.processing_completed.0),
                ] + bid + ask,
            ),
        },
    }
}

/// What identifies a trade, in the columns of its venue.
pub open spec fn identity_cells(identity: IdentityView) -> Seq<CellView> {
    match identity {
        IdentityView::Aster { aggregate_trade_id, first_trade_id, last_trade_id } => seq![
            u64_cell(aggregate_trade_id),
            u64_cell(first_trade_id),
            u64_cell(last_trade_id),
            CellView::U64(None),
            CellView::U64(None),
            CellView::Text(None),
            CellView::U32(None),
            CellView::Text(None),
            CellView::U64(None),
        ],
        IdentityView::Binance { aggregate_trade_id, first_trade_id, last_trade_id } => seq![
            u64_cell(aggregate_trade_id),
            u64_cell(first_trade_id),
            u64_cell(last_trade_id),
            CellView::U64(None),
            CellView::U64(None),
            CellView::Text(None),
            CellView::U32(None),
            CellView::Text(None),
            CellView::U64(None),
        ],
        IdentityView::Hyperliquid { block_time, trade_id, transaction_hash } => seq![
            CellView::U64(None),
            CellView::U64(None),
            CellView::U64(None),
            u64_cell(block_time),
            u64_cell(trade_id),
            text_cell(transaction_hash),
            CellView::U32(None),
            CellView::Text(None),
            CellView::U64(None),
        ],
        IdentityView::Lighter { market_id, trade_id, message_nonce } => seq![
            CellView::U64(None),
            CellView::U64(None),
            CellView::U64(None),
            CellView::U64(None),
            CellView::U64(None),
            CellView::Text(None),
            CellView::U32(Some(market_id)),
            text_cell(trade_id),
            CellView::U64(message_nonce),
        ],
    }
}

/// The row of a trade.
pub open spec fn trade_row(origin: Origin, trade: TradeView) -> Result<
    Seq<CellView>,
    ExportErrorView,
> {
    match level_amounts(
        BookLevel { price: trade.price, quantity: trade.quantity, order_count: None },
    ) {
        Err(error) => Err(error),
        Ok(amounts) => Ok(
            seq![
                text_cell(origin.capture_id),
                u64_cell(origin.sequence),
                text_cell(venue_label(origin.venue)),
                text_cell(origin.coin),
                u64_cell(trade.timestamps.local_receive.0),
                u64_cell(trade.timestamps.processing_completed.0),
                CellView::Decimal(Some(amounts.0)),
                CellView::Decimal(Some(amounts.1)),
                text_cell(reporting_label(trade.reporting_kind)),
                text_cell(trade_kind_label(trade.trade_kind)),
                text_cell(aggressor_label(trade.aggressor_side)),
                text_cell(classification_label(trade.aggressor_side_classification)),
            ] + identity_cells(trade.identity),
        ),
    }
}

/// The row of a stream that became unavailable.
pub open spec fn unavailable_row(
    origin: Origin,
    stream: Seq<char>,
    event: UnavailableView,
) -> Seq<CellView> {
    seq![
        text_cell(origin.capture_id),
        u64_cell(origin.sequence),
        text_cell(venue_label(origin.venue)),
        text_cell(origin.coin),
        text_cell(stream),
        text_cell("unavailable"@),
        text_cell(category_label(event.category)),
        text_cell(event.diagnostic),
        u64_cell(event.observed_at.0),
    ]
}

/// The row of a trade stream that came back.
pub open spec fn resumed_row(origin: Origin, event: ResumedView) -> Seq<CellView> {
    seq![
        text_cell(origin.capture_id),
        u64_cell(origin.sequence),
        text_cell(venue_label(origin.venue)),
        text_cell(origin.coin),
        text_cell("trade_stream"@),
        text_cell("resumed"@),
        CellView::Text(None),
        CellView::Text(None),
        u64_cell(event.observed_at.0),
    ]
}

/// The rows that an event becomes: one in the table of its kind, and those of its levels and
/// of its times.
pub struct RowsView {
    pub table: Table,
    pub row: Seq<CellView>,
    pub levels: Seq<Seq<CellView>>,
    pub times: Seq<Seq<CellView>>,
}

/// The origin of an event's rows.
pub open spec fn origin_of(capture_id: Seq<char>, sequence: u64, event: EventView) -> Origin {
    Origin { capture_id, sequence, venue: event.venue(), coin: event.coin() }
}

/// A row that has no levels, with the times that the venue stated.
pub open spec fn with_times(
    origin: Origin,
    table: Table,
    row: Result<Seq<CellView>, ExportErrorView>,
    levels: Result<Seq<Seq<CellView>>, ExportErrorView>,
    times: Seq<ExchangeTimeObservation>,
) -> Result<RowsView, ExportErrorView> {
    match row {
        Err(error) => Err(error),
        Ok(row) => match levels {
            Err(error) => Err(error),
            Ok(levels) => match time_rows(origin, times) {
                Err(error) => Err(error),
                Ok(times) => Ok(RowsView { table, row, levels, times }),
            },
        },
    }
}

/// The rows that an event becomes.
pub open spec fn event_rows(capture_id: Seq<char>, sequence: u64, event: EventView) -> Result<
    RowsView,
    ExportErrorView,
> {
    let origin = origin_of(capture_id, sequence, event);
    match event {
        EventView::OrderBookSnapshot(snapshot) => with_times(
            origin,
            Table::OrderBookEvents,
            snapshot_row(origin, snapshot),
            snapshot_levels(origin, snapshot),
            snapshot.timestamps.exchange_times,
        ),
        EventView::BestBidOfferUpdated(bbo) => with_times(
            origin,
            Table::BestBidOffers,
            bbo_row(origin, bbo),
            Ok(Seq::empty()),
            bbo.timestamps.exchange_times,
        ),
        EventView::MarketTrade(trade) => with_times(
            origin,
            Table::MarketTrades,
            trade_row(origin, trade),
            Ok(Seq::empty()),
            trade.timestamps.exchange_times,
        ),
        EventView::OrderBookUnavailable(event) => Ok(
            RowsView {
                table: Table::AvailabilityEvents,
                row: unavailable_row(origin, "order_book"@, event),
                levels: Seq::empty(),
                times: Seq::empty(),
            },
        ),
        EventView::TradeStreamUnavailable(event) => Ok(
            RowsView {
                table: Table::AvailabilityEvents,
                row: unavailable_row(origin, "trade_stream"@, event),
                levels: Seq::empty(),
                times: Seq::empty(),
            },
        ),
        EventView::TradeStreamResumed(event) => Ok(
            RowsView {
                table: Table::AvailabilityEvents,
                row: resumed_row(origin, event),
                levels: Seq::empty(),
                times: Seq::empty(),
            },
        ),
    }
}

/// A row of any table.
#[derive(Debug, Eq, PartialEq)]
pub struct CellRow {
    pub cells: Vec<Cell>,
}

impl View for CellRow {
    type V = Seq<CellView>;

    open spec fn view(&self) -> Seq<CellView> {
        cell_views(self.cells@)
    }
}

/// The models of rows.
pub open spec fn cell_rows(rows: Seq<CellRow>) -> Seq<Seq<CellView>> {
    rows.map_values(|row: CellRow| row@)
}

/// The rows that an event becomes.
pub struct EventRows {
    pub table: Table,
    pub row: CellRow,
    pub levels: Vec<CellRow>,
    pub times: Vec<CellRow>,
}

impl View for EventRows {
    type V = RowsView;

    open spec fn view(&self) -> RowsView {
        RowsView {
            table: self.table,
            row: self.row@,
            levels: cell_rows(self.levels@),
            times: cell_rows(self.times@),
        }
    }
}

/// The model of what rows events become.
pub open spec fn rows_result(result: Result<EventRows, ExportError>) -> Result<
    RowsView,
    ExportErrorView,
> {
    match result {
        Ok(rows) => Ok(rows@),
        Err(error) => Err(error@),
    }
}

/// The model of rows that may fail.
pub open spec fn cell_rows_result(result: Result<Vec<CellRow>, ExportError>) -> Result<
    Seq<Seq<CellView>>,
    ExportErrorView,
> {
    match result {
        Ok(rows) => Ok(cell_rows(rows@)),
        Err(error) => Err(error@),
    }
}

fn push_levels(
    rows: &mut Vec<CellRow>,
    capture_id: &str,
    sequence: u64,
    venue: Venue,
    coin: &str,
    side: &str,
    levels: &[BookLevel],
) -> (result: Result<(), ExportError>)
    requires
        levels@.len() <= u32::MAX,
    ensures
        ({
            let origin = Origin { capture_id: capture_id@, sequence, venue, coin: coin@ };
            let expected = read_all(levels@, level_rows_of(origin, side@));
            match result {
                Ok(_) => expected is Ok && cell_rows(final(rows)@) == cell_rows(old(rows)@)
                    + expected->Ok_0,
                Err(error) => expected == Err::<Seq<Seq<CellView>>, ExportErrorView>(error@),
            }
        }),
{
    let ghost origin = Origin { capture_id: capture_id@, sequence, venue, coin: coin@ };
    let ghost before = cell_rows(rows@);
    let mut i: usize = 0;
    proof {
        assert(levels@.take(0) =~= Seq::<BookLevel>::empty());
        assert(before =~= before + Seq::<Seq<CellView>>::empty());
    }
    while i < levels.len()
        invariant
            i <= levels@.len() <= u32::MAX,
            origin == (Origin { capture_id: capture_id@, sequence, venue, coin: coin@ }),
            read_all(levels@.take(i as int), level_rows_of(origin, side@)) is Ok,
            cell_rows(rows@) == before + read_all(
                levels@.take(i as int),
                level_rows_of(origin, side@),
            )->Ok_0,
        decreases levels.len() - i,
    {
        proof {
            lemma_read_all_step(levels@, i as int, level_rows_of(origin, side@));
        }
        let level: &BookLevel = &levels[i];
        let amounts: (i128, i128) = match amounts_of(level.price, level.quantity) {
            Ok(amounts) => amounts,
            Err(error) => return Err(error),
        };
        let ghost done = rows@;
        let ghost listed = read_all(levels@.take(i as int), level_rows_of(origin, side@))->Ok_0;
        let row = OrderBookLevelRow {
            capture_id: capture_id.to_owned(),
            sequence,
            venue: venue_name(venue).to_owned(),
            market: coin.to_owned(),
            side: side.to_owned(),
            position: i as u32,
            price: amounts.0,
            quantity: amounts.1,
            order_count: count_number(level),
        };
        let ghost model = row@;
        rows.push(CellRow { cells: row.cells() });
        proof {
            assert(level_row(origin, side@, i as nat, *level) == Ok::<
                Seq<CellView>,
                ExportErrorView,
            >(model));
            assert(cell_rows(rows@) =~= cell_rows(done).push(model));
            assert(before + listed.push(model) =~= (before + listed).push(model));
        }
        i = i + 1;
    }
    assert(levels@.take(i as int) =~= levels@);
    Ok(())
}

fn times_of(capture_id: &str, sequence: u64, venue: Venue, coin: &str, times:
    &[ExchangeTimeObservation]) -> (result: Result<Vec<CellRow>, ExportError>)
    ensures
        cell_rows_result(result) == time_rows(
            Origin { capture_id: capture_id@, sequence, venue, coin: coin@ },
            times@,
        ),
{
    let ghost origin = Origin { capture_id: capture_id@, sequence, venue, coin: coin@ };
    let count: usize = times.len();
    if count as u64 > 0x1_0000_0000 {
        return Err(ExportError::RowCountOverflow);
    }
    let mut rows: Vec<CellRow> = Vec::new();
    let mut i: usize = 0;
    while i < times.len()
        invariant
            i <= times@.len() <= 0x1_0000_0000,
            rows@.len() == i,
            origin == (Origin { capture_id: capture_id@, sequence, venue, coin: coin@ }),
            forall|j: int| 0 <= j < i ==> (#[trigger] rows@[j])@ == time_row(origin, j, times@[j]),
        decreases times.len() - i,
    {
        let time: ExchangeTimeObservation = times[i];
        let row = ExchangeTimeRow {
            capture_id: capture_id.to_owned(),
            sequence,
            venue: venue_name(venue).to_owned(),
            market: coin.to_owned(),
            ordinal: i as u32,
            kind: exchange_time_kind(time.kind).to_owned(),
            raw_value: time.raw_value,
            declared_unit: exchange_time_unit(time.declared_unit).to_owned(),
        };
        assert(row@ =~= time_row(origin, i as int, time));
        rows.push(CellRow { cells: row.cells() });
        i = i + 1;
    }
    assert(cell_rows(rows@) =~= Seq::new(
        times@.len(),
        |i: int| time_row(origin, i, times@[i]),
    ));
    Ok(rows)
}

fn no_rows() -> (rows: Vec<CellRow>)
    ensures
        cell_rows(rows@) == Seq::<Seq<CellView>>::empty(),
{
    let rows: Vec<CellRow> = Vec::new();
    assert(cell_rows(rows@) =~= Seq::<Seq<CellView>>::empty());
    rows
}

fn rows_of_snapshot(capture_id: &str, sequence: u64, snapshot: &OrderBookSnapshot) -> (result:
    Result<EventRows, ExportError>)
    ensures
        rows_result(result) == event_rows(
            capture_id@,
            sequence,
            EventView::OrderBookSnapshot(snapshot@),
        ),
{
    let venue: Venue = snapshot.venue();
    let coin: &str = snapshot.symbol().market_coin().as_str();
    let ghost origin = origin_of(capture_id@, sequence, EventView::OrderBookSnapshot(snapshot@));
    let bids: &[BookLevel] = snapshot.bids();
    let asks: &[BookLevel] = snapshot.asks();
    let bid_count: usize = bids.len();
    let ask_count: usize = asks.len();
    if bid_count as u64 > u32::MAX as u64 || ask_count as u64 > u32::MAX as u64 {
        return Err(ExportError::RowCountOverflow);
    }
    let row = OrderBookEventRow {
        capture_id: capture_id.to_owned(),
        sequence,
        venue: venue_name(venue).to_owned(),
        market: coin.to_owned(),
        local_receive: snapshot.timestamps().local_receive().nanos_since_start(),
        processing_completion: snapshot.timestamps().processing_completed().nanos_since_start(),
        source_sequence: snapshot.source_sequence(),
        bid_count: bid_count as u32,
        ask_count: ask_count as u32,
    };
    let mut levels: Vec<CellRow> = no_rows();
    match push_levels(&mut levels, capture_id, sequence, venue, coin, "bid", bids) {
        Ok(_) => {},
        Err(error) => return Err(error),
    }
    let ghost bid_rows = cell_rows(levels@);
    match push_levels(&mut levels, capture_id, sequence, venue, coin, "ask", asks) {
        Ok(_) => {},
        Err(error) => return Err(error),
    }
    let times: Vec<CellRow> = match times_of(
        capture_id,
        sequence,
        venue,
        coin,
        snapshot.timestamps().exchange_times(),
    ) {
        Ok(times) => times,
        Err(error) => return Err(error),
    };
    proof {
        assert(row@ =~= snapshot_row(origin, snapshot@)->Ok_0);
        assert(Seq::<Seq<CellView>>::empty() + read_all(
            snapshot@.bids,
            level_rows_of(origin, "bid"@),
        )->Ok_0 =~= read_all(snapshot@.bids, level_rows_of(origin, "bid"@))->Ok_0);
    }
    Ok(
        EventRows {
            table: Table::OrderBookEvents,
            row: CellRow { cells: row.cells() },
            levels,
            times,
        },
    )
}

/// The model of an optional level of an offer.
pub open spec fn offer_amounts(offer: Option<(i128, i128, Option<u32>)>) -> Seq<CellView> {
    match offer {
        Some(offer) => seq![
            CellView::Decimal(Some(offer.0)),
            CellView::Decimal(Some(offer.1)),
            CellView::U32(offer.2),
        ],
        None => seq![CellView::Decimal(None), CellView::Decimal(None), CellView::U32(None)],
    }
}

fn offer_of(level: Option<&BookLevel>) -> (result: Result<
    Option<(i128, i128, Option<u32>)>,
    ExportError,
>)
    ensures
        offer_cells(
            match level {
                Some(level) => Some(*level),
                None => None,
            },
        ) == (match result {
            Ok(offer) => Ok::<Seq<CellView>, ExportErrorView>(offer_amounts(offer)),
            Err(error) => Err(error@),
        }),
{
    match level {
        None => Ok(None),
        Some(level) => match amounts_of(level.price, level.quantity) {
            Ok(amounts) => Ok(Some((amounts.0, amounts.1, count_number(level)))),
            Err(error) => Err(error),
        },
    }
}

fn rows_of_bbo(capture_id: &str, sequence: u64, bbo: &BestBidOffer) -> (result: Result<
    EventRows,
    ExportError,
>)
    ensures
        rows_result(result) == event_rows(
            capture_id@,
            sequence,
            EventView::BestBidOfferUpdated(bbo@),
        ),
{
    let venue: Venue = bbo.venue();
    let coin: &str = bbo.symbol().market_coin().as_str();
    let ghost origin = origin_of(capture_id@, sequence, EventView::BestBidOfferUpdated(bbo@));
    let bid: Option<(i128, i128, Option<u32>)> = match offer_of(bbo.bid()) {
        Ok(bid) => bid,
        Err(error) => return Err(error),
    };
    let ask: Option<(i128, i128, Option<u32>)> = match offer_of(bbo.ask()) {
        Ok(ask) => ask,
        Err(error) => return Err(error),
    };
    let (bid_price, bid_quantity, bid_order_count) = match bid {
        Some(bid) => (Some(bid.0), Some(bid.1), bid.2),
        None => (None, None, None),
    };
    let (ask_price, ask_quantity, ask_order_count) = match ask {
        Some(ask) => (Some(ask.0), Some(ask.1), ask.2),
        None => (None, None, None),
    };
    let row = BestBidOfferRow {
        capture_id: capture_id.to_owned(),
        sequence,
        venue: venue_name(venue).to_owned(),
        market: coin.to_owned(),
        local_receive: bbo.timestamps().local_receive().nanos_since_start(),
        processing_completion: bbo.timestamps().processing_completed().nanos_since_start(),
        bid_price,
        bid_quantity,
        bid_order_count,
        ask_price,
        ask_quantity,
        ask_order_count,
    };
    assert(row@ =~= bbo_row(origin, bbo@)->Ok_0);
    let times: Vec<CellRow> = match times_of(
        capture_id,
        sequence,
        venue,
        coin,
        bbo.timestamps().exchange_times(),
    ) {
        Ok(times) => times,
        Err(error) => return Err(error),
    };
    Ok(
        EventRows {
            table: Table::BestBidOffers,
            row: CellRow { cells: row.cells() },
            levels: no_rows(),
            times,
        },
    )
}

fn rows_of_trade(capture_id: &str, sequence: u64, trade: &MarketTrade) -> (result: Result<
    EventRows,
    ExportError,
>)
    ensures
        rows_result(result) == event_rows(capture_id@, sequence, EventView::MarketTrade(trade@)),
{
    let venue: Venue = trade.venue();
    let coin: &str = trade.symbol().market_coin().as_str();
    let ghost origin = origin_of(capture_id@, sequence, EventView::MarketTrade(trade@));
    let amounts: (i128, i128) = match amounts_of(trade.price(), trade.quantity()) {
        Ok(amounts) => amounts,
        Err(error) => return Err(error),
    };
    let mut row = MarketTradeRow {
        capture_id: capture_id.to_owned(),
        sequence,
        venue: venue_name(venue).to_owned(),
        market: coin.to_owned(),
        local_receive: trade.timestamps().local_receive().nanos_since_start(),
        processing_completion: trade.timestamps().processing_completed().nanos_since_start(),
        price: amounts.0,
        quantity: amounts.1,
        reporting_kind: reporting_name(trade.reporting_kind()).to_owned(),
        trade_kind: trade_kind_name(trade.trade_kind()).to_owned(),
        aggressor_side: aggressor_name(trade.aggressor_side()).to_owned(),
        classification: classification_name(trade.aggressor_side_classification()).to_owned(),
        aggregate_trade_id: None,
        first_trade_id: None,
        last_trade_id: None,
        block_time: None,
        trade_id_u64: None,
        transaction_hash: None,
        market_id: None,
        trade_id_string: None,
        message_nonce: None,
    };
    match trade.identity() {
        MarketTradeIdentity::Aster { aggregate_trade_id, first_trade_id, last_trade_id } => {
            row.aggregate_trade_id = Some(*aggregate_trade_id);
            row.first_trade_id = Some(*first_trade_id);
            row.last_trade_id = Some(*last_trade_id);
        },
        MarketTradeIdentity::Binance { aggregate_trade_id, first_trade_id, last_trade_id } => {
            row.aggregate_trade_id = Some(*aggregate_trade_id);
            row.first_trade_id = Some(*first_trade_id);
            row.last_trade_id = Some(*last_trade_id);
        },
        MarketTradeIdentity::Hyperliquid { block_time, trade_id, transaction_hash } => {
            row.block_time = Some(*block_time);
            row.trade_id_u64 = Some(*trade_id);
            row.transaction_hash = Some(transaction_hash.clone());
        },
        MarketTradeIdentity::Lighter { market_id, trade_id, message_nonce } => {
            row.market_id = Some(*market_id);
            row.trade_id_string = Some(trade_id.clone());
            row.message_nonce = *message_nonce;
        },
    }
    assert(row@ =~= trade_row(origin, trade@)->Ok_0);
    let times: Vec<CellRow> = match times_of(
        capture_id,
        sequence,
        venue,
        coin,
        trade.timestamps().exchange_times(),
    ) {
        Ok(times) => times,
        Err(error) => return Err(error),
    };
    Ok(
        EventRows {
            table: Table::MarketTrades,
            row: CellRow { cells: row.cells() },
            levels: no_rows(),
            times,
        },
    )
}

fn row_of_unavailable(
    capture_id: &str,
    sequence: u64,
    stream: &str,
    event: &MarketDataUnavailable,
) -> (row: CellRow)
    ensures
        row@ == unavailable_row(
            Origin {
                capture_id: capture_id@,
                sequence,
                venue: event@.venue,
                coin: event@.coin,
            },
            stream@,
            event@,
        ),
{
    let row = AvailabilityRow {
        capture_id: capture_id.to_owned(),
        sequence,
        venue: venue_name(event.venue()).to_owned(),
        market: event.market_coin().as_str().to_owned(),
        stream: stream.to_owned(),
        transition: "unavailable".to_owned(),
        category: Some(category_name(event.category()).to_owned()),
        diagnostic: Some(event.diagnostic().to_owned()),
        observed_at: event.observed_at().nanos_since_start(),
    };
    assert(row@ =~= unavailable_row(
        Origin { capture_id: capture_id@, sequence, venue: event@.venue, coin: event@.coin },
        stream@,
        event@,
    ));
    CellRow { cells: row.cells() }
}

fn row_of_resumed(capture_id: &str, sequence: u64, event: &TradeStreamResumed) -> (row: CellRow)
    ensures
        row@ == resumed_row(
            Origin {
                capture_id: capture_id@,
                sequence,
                venue: event@.venue,
                coin: event@.coin,
            },
            event@,
        ),
{
    let row = AvailabilityRow {
        capture_id: capture_id.to_owned(),
        sequence,
        venue: venue_name(event.venue()).to_owned(),
        market: event.market_coin().as_str().to_owned(),
        stream: "trade_stream".to_owned(),
        transition: "resumed".to_owned(),
        category: None,
        diagnostic: None,
        observed_at: event.observed_at().nanos_since_start(),
    };
    assert(row@ =~= resumed_row(
        Origin { capture_id: capture_id@, sequence, venue: event@.venue, coin: event@.coin },
        event@,
    ));
    CellRow { cells: row.cells() }
}

/// The rows that an event becomes.
pub fn rows_of(capture_id: &str, sequence: u64, event: &NormalizedMarketEvent) -> (result: Result<
    EventRows,
    ExportError,
>)
    ensures
        rows_result(result) == event_rows(capture_id@, sequence, event@),
{
    match event {
        NormalizedMarketEvent::OrderBookSnapshot(snapshot) => rows_of_snapshot(
            capture_id,
            sequence,
            snapshot,
        ),
        NormalizedMarketEvent::BestBidOfferUpdated(bbo) => rows_of_bbo(capture_id, sequence, bbo),
        NormalizedMarketEvent::MarketTrade(trade) => rows_of_trade(capture_id, sequence, trade),
        NormalizedMarketEvent::OrderBookUnavailable(event) => Ok(
            EventRows {
                table: Table::AvailabilityEvents,
                row: row_of_unavailable(capture_id, sequence, "order_book", event),
                levels: no_rows(),
                times: no_rows(),
            },
        ),
        NormalizedMarketEvent::TradeStreamUnavailable(event) => Ok(
            EventRows {
                table: Table::AvailabilityEvents,
                row: row_of_unavailable(capture_id, sequence, "trade_stream", event),
                levels: no_rows(),
                times: no_rows(),
            },
        ),
        NormalizedMarketEvent::TradeStreamResumed(event) => Ok(
            EventRows {
                table: Table::AvailabilityEvents,
                row: row_of_resumed(capture_id, sequence, event),
                levels: no_rows(),
                times: no_rows(),
            },
        ),
    }
}

} // verus!
