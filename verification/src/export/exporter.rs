//! The export of a capture: which rows go to which file of the dataset, and when.
use std::fmt::Write;
use vstd::prelude::*;

use crate::export::convert::{
    cell_rows, event_rows, rows_of, venue_label, venue_name, CellRow, EventRows, ExportError,
    ExportErrorView, RowsView,
};
use crate::export::partition::{
    group_rows, group_views, has_group, partition_value, row_views, safe_partition_value, with_row,
    with_rows, Groups, GroupsView, Partition, PartitionView,
};
use crate::export::rows::{CaptureRow, CellView, Table};
use crate::json::{entries_to_string, object_text};
use crate::market_data::event::EventView;
use crate::recorder::manifest::{text_views, CaptureManifest, CaptureStatus, ManifestView};
use crate::recorder::format::uuid_text;
use crate::recorder::validated::{ReplayView, ValidatedReplayEvent};
use crate::text::{decimal, decimal_text, pad_zeroes, zero_padded};

verus! {

/// The version of the tables that are written.
pub const PARQUET_SCHEMA_VERSION: u32 = 2;

/// After how many events the rows of the events are written.
pub const EVENT_BATCH_ROWS: u64 = 4_096;

/// How many levels of a market are kept before they are written.
pub const LEVEL_BATCH_ROWS: usize = 4_096;

/// How many rows each table has.
#[derive(Clone, Copy, Debug, Eq, PartialEq, Structural)]
pub struct TableRows {
    pub captures: u64,
    pub order_book_events: u64,
    pub best_bid_offers: u64,
    pub order_book_levels: u64,
    pub market_trades: u64,
    pub availability_events: u64,
    pub exchange_times: u64,
}

impl TableRows {
    /// The count of a table.
    pub open spec fn of(self, table: Table) -> u64 {
        match table {
            Table::Captures => self.captures,
            Table::OrderBookEvents => self.order_book_events,
            Table::BestBidOffers => self.best_bid_offers,
            Table::OrderBookLevels => self.order_book_levels,
            Table::MarketTrades => self.market_trades,
            Table::AvailabilityEvents => self.availability_events,
            Table::ExchangeTimes => self.exchange_times,
        }
    }

    /// The tables by name.
    pub open spec fn listing() -> Seq<Table> {
        seq![
            Table::AvailabilityEvents,
            Table::BestBidOffers,
            Table::Captures,
            Table::ExchangeTimes,
            Table::MarketTrades,
            Table::OrderBookEvents,
            Table::OrderBookLevels,
        ]
    }

    /// The counts with the names of the tables, in the order of the names.
    pub fn entries(&self) -> (entries: Vec<(&'static str, u64)>)
        ensures
            entries@.len() == TableRows::listing().len(),
            forall|i: int|
                0 <= i < entries@.len() ==> (#[trigger] entries@[i]).0@
                    == TableRows::listing()[i].label() && entries@[i].1 == self.of(
                    TableRows::listing()[i],
                ),
    {
        let mut entries: Vec<(&'static str, u64)> = Vec::new();
        entries.push((Table::AvailabilityEvents.name(), self.availability_events));
        entries.push((Table::BestBidOffers.name(), self.best_bid_offers));
        entries.push((Table::Captures.name(), self.captures));
        entries.push((Table::ExchangeTimes.name(), self.exchange_times));
        entries.push((Table::MarketTrades.name(), self.market_trades));
        entries.push((Table::OrderBookEvents.name(), self.order_book_events));
        entries.push((Table::OrderBookLevels.name(), self.order_book_levels));
        entries
    }
}

/// One step of writing a dataset. Paths are below the directory of the dataset.
#[derive(Debug, Eq, PartialEq)]
pub enum Output {
    /// Create the file of a market's levels.
    OpenLevels { partition: Partition, path: String },
    /// Add rows to the file of a market's levels.
    AppendLevels { partition: Partition, path: String, rows: Vec<CellRow> },
    /// End the file of a market's levels.
    CloseLevels { partition: Partition, path: String },
    /// Write a file with these rows.
    WriteTable { table: Table, partition: Partition, path: String, rows: Vec<CellRow> },
}

/// The model of `Output`.
pub enum OutputView {
    OpenLevels { partition: PartitionView, path: Seq<char> },
    AppendLevels { partition: PartitionView, path: Seq<char>, rows: Seq<Seq<CellView>> },
    CloseLevels { partition: PartitionView, path: Seq<char> },
    WriteTable {
        table: Table,
        partition: PartitionView,
        path: Seq<char>,
        rows: Seq<Seq<CellView>>,
    },
}

impl View for Output {
    type V = OutputView;

    open spec fn view(&self) -> OutputView {
        match *self {
            Output::OpenLevels { partition, path } => OutputView::OpenLevels {
                partition: partition@,
                path: path@,
            },
            Output::AppendLevels { partition, path, rows } => OutputView::AppendLevels {
                partition: partition@,
                path: path@,
                rows: cell_rows(rows@),
            },
            Output::CloseLevels { partition, path } => OutputView::CloseLevels {
                partition: partition@,
                path: path@,
            },
            Output::WriteTable { table, partition, path, rows } => OutputView::WriteTable {
                table,
                partition: partition@,
                path: path@,
                rows: cell_rows(rows@),
            },
        }
    }
}

/// The models of steps.
pub open spec fn output_views(outputs: Seq<Output>) -> Seq<OutputView> {
    outputs.map_values(|output: Output| output@)
}

/// The path of a file of a table.
pub open spec fn table_path(
    date: Seq<char>,
    table: Table,
    partition: PartitionView,
    file: Seq<char>,
) -> Seq<char> {
    "version=2/date="@ + date + "/event_type="@ + table.label() + "/venue="@ + partition_value(
        partition.0,
    ) + "/market="@ + partition_value(partition.1) + "/"@ + file
}

/// The file of a table that is written once.
pub open spec fn whole_file(capture_id: Seq<char>) -> Seq<char> {
    "part-"@ + capture_id + ".parquet"@
}

/// The file of one batch of a table.
pub open spec fn batch_file(capture_id: Seq<char>, batch: u64) -> Seq<char> {
    "part-"@ + capture_id + "-"@ + zero_padded(decimal(batch as nat), 6) + ".parquet"@
}

fn partition_file_path(date: &str, table: Table, partition: &Partition, file: &str) -> (path:
    String)
    ensures
        path@ == table_path(date@, table, partition@, file@),
{
    let mut path: String = "version=2/date=".to_owned();
    path.append(date);
    path.append("/event_type=");
    path.append(table.name());
    path.append("/venue=");
    path.append(safe_partition_value(partition.venue.as_str()).as_str());
    path.append("/market=");
    path.append(safe_partition_value(partition.market.as_str()).as_str());
    path.append("/");
    path.append(file);
    path
}

fn whole_file_name(capture_id: &str) -> (name: String)
    ensures
        name@ == whole_file(capture_id@),
{
    let mut name: String = "part-".to_owned();
    name.append(capture_id);
    name.append(".parquet");
    name
}

fn batch_file_name(capture_id: &str, batch: u64) -> (name: String)
    ensures
        name@ == batch_file(capture_id@, batch),
{
    let mut name: String = "part-".to_owned();
    name.append(capture_id);
    name.append("-");
    name.append(pad_zeroes(decimal_text(batch as u128).as_str(), 6).as_str());
    name.append(".parquet");
    name
}

/// Rows by market.
pub type RowGroups = GroupsView<Seq<CellView>>;

/// The rows of groups, counted.
pub open spec fn total_rows(groups: RowGroups) -> nat
    decreases groups.len(),
{
    if groups.len() == 0 {
        0
    } else {
        total_rows(groups.drop_last()) + groups.last().1.len()
    }
}

/// The steps that write groups: one file for each market that has rows.
pub open spec fn group_outputs(
    date: Seq<char>,
    capture_id: Seq<char>,
    batch: u64,
    table: Table,
    groups: RowGroups,
) -> Seq<OutputView>
    decreases groups.len(),
{
    if groups.len() == 0 {
        Seq::empty()
    } else {
        let earlier = group_outputs(date, capture_id, batch, table, groups.drop_last());
        let last = groups.last();
        if last.1.len() == 0 {
            earlier
        } else {
            earlier.push(
                OutputView::WriteTable {
                    table,
                    partition: last.0,
                    path: table_path(date, table, last.0, batch_file(capture_id, batch)),
                    rows: last.1,
                },
            )
        }
    }
}

/// The steps that end the files of levels: what is left is added first.
pub open spec fn closing_outputs(
    date: Seq<char>,
    capture_id: Seq<char>,
    groups: RowGroups,
) -> Seq<OutputView>
    decreases groups.len(),
{
    if groups.len() == 0 {
        Seq::empty()
    } else {
        let earlier = closing_outputs(date, capture_id, groups.drop_last());
        let last = groups.last();
        let path = table_path(date, Table::OrderBookLevels, last.0, whole_file(capture_id));
        let appended = if last.1.len() == 0 {
            earlier
        } else {
            earlier.push(OutputView::AppendLevels { partition: last.0, path, rows: last.1 })
        };
        appended.push(OutputView::CloseLevels { partition: last.0, path })
    }
}

/// With one more level: the file of its market is created before the first, and filled
/// whenever enough levels are there.
pub open spec fn with_level(
    date: Seq<char>,
    capture_id: Seq<char>,
    groups: RowGroups,
    partition: PartitionView,
    row: Seq<CellView>,
) -> (RowGroups, Seq<OutputView>) {
    let path = table_path(date, Table::OrderBookLevels, partition, whole_file(capture_id));
    let opened = if has_group(groups, partition) {
        Seq::empty()
    } else {
        seq![OutputView::OpenLevels { partition, path }]
    };
    let rows = group_rows(groups, partition).push(row);
    if rows.len() >= LEVEL_BATCH_ROWS {
        (
            with_rows(groups, partition, Seq::empty()),
            opened.push(OutputView::AppendLevels { partition, path, rows }),
        )
    } else {
        (with_rows(groups, partition, rows), opened)
    }
}

/// With more levels.
pub open spec fn with_levels(
    date: Seq<char>,
    capture_id: Seq<char>,
    groups: RowGroups,
    partition: PartitionView,
    rows: Seq<Seq<CellView>>,
) -> (RowGroups, Seq<OutputView>)
    decreases rows.len(),
{
    if rows.len() == 0 {
        (groups, Seq::empty())
    } else {
        let earlier = with_levels(date, capture_id, groups, partition, rows.drop_last());
        let after = with_level(date, capture_id, earlier.0, partition, rows.last());
        (after.0, earlier.1 + after.1)
    }
}

/// With more rows of a market.
pub open spec fn with_all_rows(
    groups: RowGroups,
    partition: PartitionView,
    rows: Seq<Seq<CellView>>,
) -> RowGroups
    decreases rows.len(),
{
    if rows.len() == 0 {
        groups
    } else {
        with_row(with_all_rows(groups, partition, rows.drop_last()), partition, rows.last())
    }
}

/// The model of `Exporter`.
pub struct ExporterView {
    pub date: Seq<char>,
    pub capture_id: Seq<char>,
    pub books: RowGroups,
    pub best_bid_offers: RowGroups,
    pub trades: RowGroups,
    pub availability: RowGroups,
    pub exchange_times: RowGroups,
    pub levels: RowGroups,
    pub level_rows: u64,
    pub processed_events: u64,
    pub batch_index: u64,
    pub table_rows: TableRows,
}

/// The model of what an export may give.
pub type Exported<T> = Result<(T, Seq<OutputView>), ExportErrorView>;

/// The market of an event.
pub open spec fn partition_of(event: EventView) -> PartitionView {
    (venue_label(event.venue()), event.coin())
}

impl ExporterView {
    /// Before the first event.
    pub open spec fn fresh(date: Seq<char>, capture_id: Seq<char>) -> ExporterView {
        ExporterView {
            date,
            capture_id,
            books: Seq::empty(),
            best_bid_offers: Seq::empty(),
            trades: Seq::empty(),
            availability: Seq::empty(),
            exchange_times: Seq::empty(),
            levels: Seq::empty(),
            level_rows: 0,
            processed_events: 0,
            batch_index: 0,
            table_rows: TableRows {
                captures: 1,
                order_book_events: 0,
                best_bid_offers: 0,
                order_book_levels: 0,
                market_trades: 0,
                availability_events: 0,
                exchange_times: 0,
            },
        }
    }

    /// With one more row of an event in the table of its kind.
    pub open spec fn with_event_row(
        self,
        table: Table,
        partition: PartitionView,
        row: Seq<CellView>,
    ) -> ExporterView {
        match table {
            Table::OrderBookEvents => ExporterView {
                books: with_row(self.books, partition, row),
                ..self
            },
            Table::BestBidOffers => ExporterView {
                best_bid_offers: with_row(self.best_bid_offers, partition, row),
                ..self
            },
            Table::MarketTrades => ExporterView {
                trades: with_row(self.trades, partition, row),
                ..self
            },
            _ => ExporterView {
                availability: with_row(self.availability, partition, row),
                ..self
            },
        }
    }

    /// The steps that write the rows of the events so far.
    pub open spec fn batch_outputs(self) -> Seq<OutputView> {
        group_outputs(
            self.date,
            self.capture_id,
            self.batch_index,
            Table::OrderBookEvents,
            self.books,
        ) + group_outputs(
            self.date,
            self.capture_id,
            self.batch_index,
            Table::MarketTrades,
            self.trades,
        ) + group_outputs(
            self.date,
            self.capture_id,
            self.batch_index,
            Table::BestBidOffers,
            self.best_bid_offers,
        ) + group_outputs(
            self.date,
            self.capture_id,
            self.batch_index,
            Table::AvailabilityEvents,
            self.availability,
        ) + group_outputs(
            self.date,
            self.capture_id,
            self.batch_index,
            Table::ExchangeTimes,
            self.exchange_times,
        )
    }

    /// Whether the counts can take the rows of the events so far.
    pub open spec fn countable(self) -> bool {
        &&& self.table_rows.order_book_events + total_rows(self.books) <= u64::MAX
        &&& self.table_rows.best_bid_offers + total_rows(self.best_bid_offers) <= u64::MAX
        &&& self.table_rows.market_trades + total_rows(self.trades) <= u64::MAX
        &&& self.table_rows.availability_events + total_rows(self.availability) <= u64::MAX
        &&& self.table_rows.exchange_times + total_rows(self.exchange_times) <= u64::MAX
    }

    /// After the rows of the events so far were written.
    pub open spec fn written(self) -> ExporterView {
        ExporterView {
            books: Seq::empty(),
            best_bid_offers: Seq::empty(),
            trades: Seq::empty(),
            availability: Seq::empty(),
            exchange_times: Seq::empty(),
            table_rows: TableRows {
                order_book_events: (self.table_rows.order_book_events + total_rows(
                    self.books,
                )) as u64,
                best_bid_offers: (self.table_rows.best_bid_offers + total_rows(
                    self.best_bid_offers,
                )) as u64,
                market_trades: (self.table_rows.market_trades + total_rows(self.trades)) as u64,
                availability_events: (self.table_rows.availability_events + total_rows(
                    self.availability,
                )) as u64,
                exchange_times: (self.table_rows.exchange_times + total_rows(
                    self.exchange_times,
                )) as u64,
                ..self.table_rows
            },
            ..self
        }
    }

    /// Writing the rows of the events so far.
    pub open spec fn flushed(self) -> Exported<ExporterView> {
        if self.countable() {
            Ok((self.written(), self.batch_outputs()))
        } else {
            Err(ExportErrorView::RowCountOverflow)
        }
    }

    /// With the rows of one more event, before anything of it is written.
    pub open spec fn with_event(self, partition: PartitionView, rows: RowsView) -> ExporterView {
        let grouped = self.with_event_row(rows.table, partition, rows.row);
        ExporterView {
            levels: with_levels(
                self.date,
                self.capture_id,
                self.levels,
                partition,
                rows.levels,
            ).0,
            exchange_times: with_all_rows(self.exchange_times, partition, rows.times),
            level_rows: (self.level_rows + rows.levels.len()) as u64,
            processed_events: (self.processed_events + 1) as u64,
            ..grouped
        }
    }

    /// Taking one event.
    pub open spec fn accepted(self, event: ReplayView) -> Exported<ExporterView> {
        match event_rows(self.capture_id, event.capture_sequence, event.event) {
            Err(error) => Err(error),
            Ok(rows) => if self.level_rows + rows.levels.len() > u64::MAX {
                Err(ExportErrorView::RowCountOverflow)
            } else {
                let partition = partition_of(event.event);
                let next = self.with_event(partition, rows);
                let outputs = with_levels(
                    self.date,
                    self.capture_id,
                    self.levels,
                    partition,
                    rows.levels,
                ).1;
                if next.processed_events % EVENT_BATCH_ROWS != 0 {
                    Ok((next, outputs))
                } else {
                    match next.flushed() {
                        Err(error) => Err(error),
                        Ok(after) => Ok(
                            (
                                ExporterView {
                                    batch_index: (next.batch_index + 1) as u64,
                                    ..after.0
                                },
                                outputs + after.1,
                            ),
                        ),
                    }
                }
            },
        }
    }

    /// The step that writes the row of the capture.
    pub open spec fn captures_output(
        self,
        manifest: ManifestView,
        manifest_sha256: Seq<char>,
        configuration: Seq<char>,
    ) -> OutputView {
        OutputView::WriteTable {
            table: Table::Captures,
            partition: ("all"@, "all"@),
            path: table_path(
                self.date,
                Table::Captures,
                ("all"@, "all"@),
                whole_file(self.capture_id),
            ),
            rows: seq![capture_row(self.capture_id, manifest, manifest_sha256, configuration)],
        }
    }

    /// Ending the export.
    pub open spec fn finished(
        self,
        manifest: ManifestView,
        manifest_sha256: Seq<char>,
        canonical_events: u64,
    ) -> Exported<TableRows> {
        match self.flushed() {
            Err(error) => Err(error),
            Ok(after) => {
                let table_rows = TableRows {
                    order_book_levels: self.level_rows,
                    ..after.0.table_rows
                };
                match reconciliation(table_rows, canonical_events) {
                    Some(error) => Err(error),
                    None => Ok(
                        (
                            table_rows,
                            after.1 + closing_outputs(self.date, self.capture_id, self.levels)
                                + seq![
                                self.captures_output(
                                    manifest,
                                    manifest_sha256,
                                    object_text(manifest.configuration),
                                ),
                            ],
                        ),
                    ),
                }
            },
        }
    }
}

/// The rows of the tables that have one row for each event.
pub open spec fn event_row_count(table_rows: TableRows) -> int {
    table_rows.order_book_events + table_rows.best_bid_offers + table_rows.market_trades
        + table_rows.availability_events
}

/// What is wrong if not every event has one row.
pub open spec fn reconciliation(table_rows: TableRows, canonical_events: u64) -> Option<
    ExportErrorView,
> {
    let exported = event_row_count(table_rows);
    if exported > u64::MAX {
        Some(ExportErrorView::RowCountOverflow)
    } else if exported != canonical_events {
        Some(
            ExportErrorView::ReconciliationMismatch {
                canonical_events,
                exported_events: exported as u64,
            },
        )
    } else {
        None
    }
}

/// Holds the counts of the tables against the number of events.
pub fn reconcile(table_rows: &TableRows, canonical_events: u64) -> (result: Result<
    (),
    ExportError,
>)
    ensures
        match result {
            Ok(_) => reconciliation(*table_rows, canonical_events) is None,
            Err(error) => reconciliation(*table_rows, canonical_events) == Some(error@),
        },
{
    let exported: u128 = table_rows.order_book_events as u128 + table_rows.best_bid_offers as u128
        + table_rows.market_trades as u128 + table_rows.availability_events as u128;
    if exported > u64::MAX as u128 {
        return Err(ExportError::RowCountOverflow);
    }
    if exported != canonical_events as u128 {
        return Err(
            ExportError::ReconciliationMismatch {
                canonical_events,
                exported_events: exported as u64,
            },
        );
    }
    Ok(())
}

/// How a dataset names the status of a capture.
pub open spec fn status_label(status: CaptureStatus) -> Seq<char> {
    match status {
        CaptureStatus::Complete => "complete"@,
        CaptureStatus::IncompleteQueueFull => "incomplete_queue_full"@,
        CaptureStatus::IncompleteProcessCrash => "incomplete_process_crash"@,
        CaptureStatus::IncompleteIoError => "incomplete_io_error"@,
    }
}

pub fn capture_status(status: CaptureStatus) -> (name: &'static str)
    ensures
        name@ == status_label(status),
{
    match status {
        CaptureStatus::Complete => "complete",
        CaptureStatus::IncompleteQueueFull => "incomplete_queue_full",
        CaptureStatus::IncompleteProcessCrash => "incomplete_process_crash",
        CaptureStatus::IncompleteIoError => "incomplete_io_error",
    }
}

/// The row of a capture.
pub open spec fn capture_row(
    capture_id: Seq<char>,
    manifest: ManifestView,
    manifest_sha256: Seq<char>,
    configuration: Seq<char>,
) -> Seq<CellView> {
    seq![
        CellView::Text(Some(capture_id)),
        CellView::Text(Some(status_label(manifest.capture_status))),
        CellView::U64(Some(manifest.utc_start_unix_millis)),
        CellView::U64(manifest.utc_end_unix_millis),
        CellView::Text(Some(manifest_sha256)),
        CellView::Text(Some(manifest.configuration_sha256)),
        CellView::Text(Some(configuration)),
        CellView::U64(Some(manifest.data_quality.disconnects)),
        CellView::U64(Some(manifest.data_quality.order_book_unavailable)),
        CellView::U64(Some(manifest.data_quality.trade_stream_gaps)),
        CellView::U64(Some(manifest.data_quality.invalid_messages)),
        CellView::U64(Some(manifest.data_quality.deduplicated_trades)),
    ]
}

/// The row of a capture whose configuration is this JSON object.
pub fn row_of_capture(
    capture_id: &str,
    manifest: &CaptureManifest,
    manifest_sha256: &str,
    configuration: String,
) -> (row: CellRow)
    ensures
        row@ == capture_row(capture_id@, manifest@, manifest_sha256@, configuration@),
{
    let row = CaptureRow {
        capture_id: capture_id.to_owned(),
        capture_status: capture_status(manifest.capture_status).to_owned(),
        utc_start: manifest.utc_start_unix_millis,
        utc_end: manifest.utc_end_unix_millis,
        manifest_sha256: manifest_sha256.to_owned(),
        configuration_sha256: manifest.configuration_sha256.clone(),
        configuration_json: configuration,
        disconnects: manifest.data_quality.disconnects,
        order_book_unavailable: manifest.data_quality.order_book_unavailable,
        trade_stream_gaps: manifest.data_quality.trade_stream_gaps,
        invalid_messages: manifest.data_quality.invalid_messages,
        deduplicated_trades: manifest.data_quality.deduplicated_trades,
    };
    assert(row@ =~= capture_row(capture_id@, manifest@, manifest_sha256@, configuration@));
    CellRow { cells: row.cells() }
}

/// A time in UTC, rendered by a pattern, if there is such a time and the pattern can be
/// followed.
pub uninterp spec fn utc_rendering(unix_millis: i64, pattern: Seq<char>) -> Option<Seq<char>>;

/// `chrono::DateTime::<Utc>::from_timestamp_millis`, rendered by `format`: a function of the
/// time and the pattern alone. There is none where the time is out of chrono's range or the
/// pattern cannot be followed. What a pattern stands for is left unsaid.
#[verifier::external_body]
fn utc_text(unix_millis: i64, pattern: &str) -> (rendering: Option<String>)
    ensures
        match rendering {
            Some(text) => utc_rendering(unix_millis, pattern@) == Some(text@),
            None => utc_rendering(unix_millis, pattern@) is None,
        },
{
    let time = chrono::DateTime::<chrono::Utc>::from_timestamp_millis(unix_millis)?;
    let mut text = String::new();
    write!(text, "{}", time.format(pattern)).ok()?;
    Some(text)
}

/// How the date of a capture is written: year, month and day.
pub open spec fn date_pattern() -> Seq<char> {
    "%Y-%m-%d"@
}

/// The date of a capture's start.
pub open spec fn start_date(unix_millis: u64) -> Result<Seq<char>, ExportErrorView> {
    if unix_millis > i64::MAX {
        Err(ExportErrorView::InvalidCaptureStart)
    } else {
        match utc_rendering(unix_millis as i64, date_pattern()) {
            Some(date) => Ok(date),
            None => Err(ExportErrorView::InvalidCaptureStart),
        }
    }
}

/// The date of a capture's start, by which its files are filed.
pub fn capture_date(unix_millis: u64) -> (result: Result<String, ExportError>)
    ensures
        start_date(unix_millis) == (match result {
            Ok(date) => Ok::<Seq<char>, ExportErrorView>(date@),
            Err(error) => Err(error@),
        }),
{
    if unix_millis > i64::MAX as u64 {
        return Err(ExportError::InvalidCaptureStart);
    }
    match utc_text(unix_millis as i64, "%Y-%m-%d") {
        Some(date) => Ok(date),
        None => Err(ExportError::InvalidCaptureStart),
    }
}

/// Whether a dataset may be written to this path.
pub open spec fn output_refusal(path: Seq<char>, exists: bool) -> Option<ExportErrorView> {
    if path.len() == 0 || path[0] != '/' {
        Some(ExportErrorView::OutputMustBeAbsolute(path))
    } else if exists {
        Some(ExportErrorView::OutputAlreadyExists(path))
    } else {
        None
    }
}

/// Checks the path of a dataset: it must be absolute, and nothing may be there yet.
pub fn check_output(path: &str, exists: bool) -> (result: Result<(), ExportError>)
    ensures
        match result {
            Ok(_) => output_refusal(path@, exists) is None,
            Err(error) => output_refusal(path@, exists) == Some(error@),
        },
{
    if path.unicode_len() == 0 || path.get_char(0) != '/' {
        return Err(ExportError::OutputMustBeAbsolute(path.to_owned()));
    }
    if exists {
        return Err(ExportError::OutputAlreadyExists(path.to_owned()));
    }
    Ok(())
}

/// The name of the directory in which a dataset is built before it gets its own name.
pub fn building_name(name: &str, capture_id: &str) -> (building: String)
    ensures
        building@ == "."@ + name@ + ".building-"@ + capture_id@,
{
    let mut building: String = ".".to_owned();
    building.append(name);
    building.append(".building-");
    building.append(capture_id);
    building
}

/// What a dataset says of itself.
#[derive(Debug, Eq, PartialEq)]
pub struct DatasetMetadata {
    pub schema_version: u32,
    pub source_capture_ids: Vec<String>,
    pub source_manifest_sha256: Vec<String>,
    pub source_capture_statuses: Vec<String>,
    pub contains_incomplete_capture: bool,
    pub converter_git_commit: String,
    pub converter_package_version: String,
    pub utc_conversion_time_unix_millis: u64,
    pub table_rows: TableRows,
}

/// The model of `DatasetMetadata`.
pub struct DatasetView {
    pub schema_version: u32,
    pub source_capture_ids: Seq<Seq<char>>,
    pub source_manifest_sha256: Seq<Seq<char>>,
    pub source_capture_statuses: Seq<Seq<char>>,
    pub contains_incomplete_capture: bool,
    pub converter_git_commit: Seq<char>,
    pub converter_package_version: Seq<char>,
    pub utc_conversion_time_unix_millis: u64,
    pub table_rows: TableRows,
}

impl View for DatasetMetadata {
    type V = DatasetView;

    open spec fn view(&self) -> DatasetView {
        DatasetView {
            schema_version: self.schema_version,
            source_capture_ids: text_views(self.source_capture_ids@),
            source_manifest_sha256: text_views(self.source_manifest_sha256@),
            source_capture_statuses: text_views(self.source_capture_statuses@),
            contains_incomplete_capture: self.contains_incomplete_capture,
            converter_git_commit: self.converter_git_commit@,
            converter_package_version: self.converter_package_version@,
            utc_conversion_time_unix_millis: self.utc_conversion_time_unix_millis,
            table_rows: self.table_rows,
        }
    }
}

fn single_text(text: String) -> (texts: Vec<String>)
    ensures
        text_views(texts@) == seq![text@],
{
    let mut texts: Vec<String> = Vec::new();
    texts.push(text);
    assert(text_views(texts@) =~= seq![text@]);
    texts
}

impl DatasetMetadata {
    /// What the dataset of one capture says of itself.
    pub fn new(
        manifest: &CaptureManifest,
        manifest_sha256: String,
        git_commit: String,
        package_version: String,
        converted_at_unix_millis: u64,
        table_rows: TableRows,
    ) -> (metadata: Self)
        ensures
            metadata@ == (DatasetView {
                schema_version: PARQUET_SCHEMA_VERSION,
                source_capture_ids: seq![uuid_text(manifest@.capture_id)],
                source_manifest_sha256: seq![manifest_sha256@],
                source_capture_statuses: seq![status_label(manifest@.capture_status)],
                contains_incomplete_capture: manifest@.capture_status != CaptureStatus::Complete,
                converter_git_commit: git_commit@,
                converter_package_version: package_version@,
                utc_conversion_time_unix_millis: converted_at_unix_millis,
                table_rows,
            }),
    {
        DatasetMetadata {
            schema_version: PARQUET_SCHEMA_VERSION,
            source_capture_ids: single_text(manifest.capture_id.to_text()),
            source_manifest_sha256: single_text(manifest_sha256),
            source_capture_statuses: single_text(
                capture_status(manifest.capture_status).to_owned(),
            ),
            contains_incomplete_capture: manifest.capture_status != CaptureStatus::Complete,
            converter_git_commit: git_commit,
            converter_package_version: package_version,
            utc_conversion_time_unix_millis: converted_at_unix_millis,
            table_rows,
        }
    }
}

/// An export that takes the events of a capture one by one.
pub struct Exporter {
    date: String,
    capture_id: String,
    books: Groups<CellRow>,
    best_bid_offers: Groups<CellRow>,
    trades: Groups<CellRow>,
    availability: Groups<CellRow>,
    exchange_times: Groups<CellRow>,
    levels: Groups<CellRow>,
    level_rows: u64,
    processed_events: u64,
    batch_index: u64,
    table_rows: TableRows,
}

impl View for Exporter {
    type V = ExporterView;

    closed spec fn view(&self) -> ExporterView {
        ExporterView {
            date: self.date@,
            capture_id: self.capture_id@,
            books: self.books@,
            best_bid_offers: self.best_bid_offers@,
            trades: self.trades@,
            availability: self.availability@,
            exchange_times: self.exchange_times@,
            levels: self.levels@,
            level_rows: self.level_rows,
            processed_events: self.processed_events,
            batch_index: self.batch_index,
            table_rows: self.table_rows,
        }
    }
}

/// The model of an export's result.
pub open spec fn exported_view(result: Result<(Exporter, Vec<Output>), ExportError>) -> Exported<
    ExporterView,
> {
    match result {
        Ok(after) => Ok((after.0@, output_views(after.1@))),
        Err(error) => Err(error@),
    }
}

proof fn lemma_total_rows_prefix(groups: RowGroups, i: int)
    requires
        0 <= i <= groups.len(),
    ensures
        total_rows(groups.take(i)) <= total_rows(groups),
    decreases groups.len(),
{
    if i == groups.len() {
        assert(groups.take(i) =~= groups);
    } else {
        lemma_total_rows_prefix(groups.drop_last(), i);
        assert(groups.drop_last().take(i) =~= groups.take(i));
    }
}

proof fn lemma_pushed(outputs: Seq<Output>, output: Output)
    ensures
        output_views(outputs.push(output)) == output_views(outputs).push(output@),
{
    assert(output_views(outputs.push(output)) =~= output_views(outputs).push(output@));
}

/// Adds the steps that write groups, and counts their rows.
fn flush_groups(
    date: &str,
    capture_id: &str,
    batch: u64,
    table: Table,
    groups: Groups<CellRow>,
    outputs: &mut Vec<Output>,
) -> (count: Option<u64>)
    ensures
        count == (if total_rows(groups@) <= u64::MAX {
            Some(total_rows(groups@) as u64)
        } else {
            None
        }),
        count is Some ==> output_views(final(outputs)@) == output_views(old(outputs)@)
            + group_outputs(date@, capture_id@, batch, table, groups@),
{
    let ghost all = groups@;
    let ghost before = output_views(outputs@);
    let file: String = batch_file_name(capture_id, batch);
    let mut entries: Vec<(Partition, Vec<CellRow>)> = groups.into_entries();
    let mut count: u64 = 0;
    let ghost mut done: int = 0;
    proof {
        assert(all.take(0) =~= Seq::empty());
        assert(all.skip(0) =~= all);
        assert(before + Seq::<OutputView>::empty() =~= before);
    }
    while entries.len() > 0
        invariant
            0 <= done <= all.len(),
            all == groups@,
            group_views(entries@) == all.skip(done),
            count == total_rows(all.take(done)),
            file@ == batch_file(capture_id@, batch),
            output_views(outputs@) == before + group_outputs(
                date@,
                capture_id@,
                batch,
                table,
                all.take(done),
            ),
        decreases entries.len(),
    {
        let ghost left = entries@;
        let entry: (Partition, Vec<CellRow>) = entries.remove(0);
        proof {
            assert(group_views(left).len() == all.skip(done).len());
            assert(group_views(left)[0] == all.skip(done)[0]);
            assert(group_views(left)[0] == (entry.0@, row_views(entry.1@)));
            assert(all.take(done + 1).drop_last() =~= all.take(done));
            assert(all.take(done + 1).last() == (entry.0@, row_views(entry.1@)));
            assert(group_views(entries@) =~= all.skip(done + 1)) by {
                assert forall|j: int| 0 <= j < entries@.len() implies group_views(entries@)[j]
                    == all.skip(done + 1)[j] by {
                    assert(entries@[j] == left[j + 1]);
                    assert(group_views(left)[j + 1] == all.skip(done)[j + 1]);
                }
            }
            assert(row_views(entry.1@) =~= cell_rows(entry.1@));
            assert(total_rows(all.take(done + 1)) == count + entry.1@.len());
            lemma_total_rows_prefix(all, done + 1);
        }
        let added: usize = entry.1.len();
        if added as u64 > u64::MAX - count {
            return None;
        }
        count = count + added as u64;
        if added > 0 {
            let path: String = partition_file_path(date, table, &entry.0, file.as_str());
            let ghost earlier = outputs@;
            let output = Output::WriteTable { table, partition: entry.0, path, rows: entry.1 };
            proof {
                lemma_pushed(outputs@, output);
            }
            outputs.push(output);
            assert(output_views(outputs@) =~= before + group_outputs(
                date@,
                capture_id@,
                batch,
                table,
                all.take(done + 1),
            ));
        }
        proof {
            done = done + 1;
        }
    }
    assert(all.take(done) =~= all);
    Some(count)
}

impl Exporter {
    /// Whether the counters are in step.
    pub closed spec fn well_formed(&self) -> bool {
        self.batch_index <= self.processed_events
    }

    /// How many events were taken.
    pub fn processed_events(&self) -> (count: u64)
        ensures
            count == self@.processed_events,
    {
        self.processed_events
    }

    /// Begins an export.
    pub fn new(date: String, capture_id: String) -> (exporter: Self)
        ensures
            exporter.well_formed(),
            exporter@ == ExporterView::fresh(date@, capture_id@),
    {
        Exporter {
            date,
            capture_id,
            books: Groups::new(),
            best_bid_offers: Groups::new(),
            trades: Groups::new(),
            availability: Groups::new(),
            exchange_times: Groups::new(),
            levels: Groups::new(),
            level_rows: 0,
            processed_events: 0,
            batch_index: 0,
            table_rows: TableRows {
                captures: 1,
                order_book_events: 0,
                best_bid_offers: 0,
                order_book_levels: 0,
                market_trades: 0,
                availability_events: 0,
                exchange_times: 0,
            },
        }
    }

    /// Writes the rows of the events so far.
    fn flush_event_batches(self, outputs: &mut Vec<Output>) -> (result: Result<Self, ExportError>)
        ensures
            match result {
                Ok(after) => {
                    &&& self@.flushed() == Ok::<_, ExportErrorView>(
                        (after@, self@.batch_outputs()),
                    )
                    &&& output_views(final(outputs)@) == output_views(old(outputs)@)
                        + self@.batch_outputs()
                    &&& after.well_formed() == self.well_formed()
                },
                Err(error) => self@.flushed() == Err::<(ExporterView, Seq<OutputView>), _>(error@),
            },
    {
        let ghost before = self@;
        let ghost start = output_views(outputs@);
        let date: String = self.date;
        let capture_id: String = self.capture_id;
        let batch: u64 = self.batch_index;
        let rows: TableRows = self.table_rows;
        let books: u64 = match flush_groups(
            date.as_str(),
            capture_id.as_str(),
            batch,
            Table::OrderBookEvents,
            self.books,
            outputs,
        ) {
            Some(count) => count,
            None => return Err(ExportError::RowCountOverflow),
        };
        let trades: u64 = match flush_groups(
            date.as_str(),
            capture_id.as_str(),
            batch,
            Table::MarketTrades,
            self.trades,
            outputs,
        ) {
            Some(count) => count,
            None => return Err(ExportError::RowCountOverflow),
        };
        let best_bid_offers: u64 = match flush_groups(
            date.as_str(),
            capture_id.as_str(),
            batch,
            Table::BestBidOffers,
            self.best_bid_offers,
            outputs,
        ) {
            Some(count) => count,
            None => return Err(ExportError::RowCountOverflow),
        };
        let availability: u64 = match flush_groups(
            date.as_str(),
            capture_id.as_str(),
            batch,
            Table::AvailabilityEvents,
            self.availability,
            outputs,
        ) {
            Some(count) => count,
            None => return Err(ExportError::RowCountOverflow),
        };
        let exchange_times: u64 = match flush_groups(
            date.as_str(),
            capture_id.as_str(),
            batch,
            Table::ExchangeTimes,
            self.exchange_times,
            outputs,
        ) {
            Some(count) => count,
            None => return Err(ExportError::RowCountOverflow),
        };
        if books > u64::MAX - rows.order_book_events || best_bid_offers > u64::MAX
            - rows.best_bid_offers || trades > u64::MAX - rows.market_trades || availability
            > u64::MAX - rows.availability_events || exchange_times > u64::MAX
            - rows.exchange_times {
            return Err(ExportError::RowCountOverflow);
        }
        assert(output_views(outputs@) =~= start + before.batch_outputs());
        Ok(
            Exporter {
                date,
                capture_id,
                books: Groups::new(),
                best_bid_offers: Groups::new(),
                trades: Groups::new(),
                availability: Groups::new(),
                exchange_times: Groups::new(),
                levels: self.levels,
                level_rows: self.level_rows,
                processed_events: self.processed_events,
                batch_index: batch,
                table_rows: TableRows {
                    captures: rows.captures,
                    order_book_events: rows.order_book_events + books,
                    best_bid_offers: rows.best_bid_offers + best_bid_offers,
                    order_book_levels: rows.order_book_levels,
                    market_trades: rows.market_trades + trades,
                    availability_events: rows.availability_events + availability,
                    exchange_times: rows.exchange_times + exchange_times,
                },
            },
        )
    }

    /// Adds the levels of an event.
    fn push_levels(&mut self, partition: &Partition, rows: Vec<CellRow>, outputs: &mut Vec<Output>)
        ensures
            final(self)@ == (ExporterView {
                levels: with_levels(
                    old(self)@.date,
                    old(self)@.capture_id,
                    old(self)@.levels,
                    partition@,
                    cell_rows(rows@),
                ).0,
                ..old(self)@
            }),
            output_views(final(outputs)@) == output_views(old(outputs)@) + with_levels(
                old(self)@.date,
                old(self)@.capture_id,
                old(self)@.levels,
                partition@,
                cell_rows(rows@),
            ).1,
    {
        let ghost start = self@;
        let ghost given = cell_rows(rows@);
        let ghost before = output_views(outputs@);
        let file: String = whole_file_name(self.capture_id.as_str());
        let mut rows: Vec<CellRow> = rows;
        let ghost mut done: int = 0;
        proof {
            assert(given.take(0) =~= Seq::empty());
            assert(given.skip(0) =~= given);
            assert(before + Seq::<OutputView>::empty() =~= before);
        }
        while rows.len() > 0
            invariant
                0 <= done <= given.len(),
                cell_rows(rows@) == given.skip(done),
                file@ == whole_file(start.capture_id),
                self@ == (ExporterView {
                    levels: with_levels(
                        start.date,
                        start.capture_id,
                        start.levels,
                        partition@,
                        given.take(done),
                    ).0,
                    ..start
                }),
                output_views(outputs@) == before + with_levels(
                    start.date,
                    start.capture_id,
                    start.levels,
                    partition@,
                    given.take(done),
                ).1,
            decreases rows.len(),
        {
            let ghost left = rows@;
            let ghost levels = self.levels@;
            let ghost so_far = output_views(outputs@);
            let row: CellRow = rows.remove(0);
            proof {
                assert(cell_rows(left).len() == given.skip(done).len());
                assert(cell_rows(left)[0] == given.skip(done)[0]);
                assert(given.take(done + 1).drop_last() =~= given.take(done));
                assert(given.take(done + 1).last() == row@);
                assert(cell_rows(rows@) =~= given.skip(done + 1)) by {
                    assert forall|j: int| 0 <= j < rows@.len() implies cell_rows(rows@)[j]
                        == given.skip(done + 1)[j] by {
                        assert(rows@[j] == left[j + 1]);
                        assert(cell_rows(left)[j + 1] == given.skip(done)[j + 1]);
                    }
                }
            }
            let ghost step = with_level(
                start.date,
                start.capture_id,
                levels,
                partition@,
                row@,
            );
            if !self.levels.contains(partition) {
                let path: String = partition_file_path(
                    self.date.as_str(),
                    Table::OrderBookLevels,
                    partition,
                    file.as_str(),
                );
                let output = Output::OpenLevels { partition: partition.clone(), path };
                proof {
                    lemma_pushed(outputs@, output);
                }
                outputs.push(output);
            }
            if self.levels.count(partition) >= LEVEL_BATCH_ROWS - 1 {
                let mut full: Vec<CellRow> = self.levels.take(partition);
                let ghost kept = full@;
                let path: String = partition_file_path(
                    self.date.as_str(),
                    Table::OrderBookLevels,
                    partition,
                    file.as_str(),
                );
                full.push(row);
                proof {
                    assert(cell_rows(kept) =~= row_views(kept));
                    assert(cell_rows(full@) =~= cell_rows(kept).push(row@));
                }
                let output = Output::AppendLevels {
                    partition: partition.clone(),
                    path,
                    rows: full,
                };
                proof {
                    lemma_pushed(outputs@, output);
                }
                outputs.push(output);
            } else {
                self.levels.push(partition, row);
            }
            proof {
                assert(output_views(outputs@) =~= so_far + step.1);
                assert(self.levels@ == step.0);
                done = done + 1;
                assert(output_views(outputs@) =~= before + with_levels(
                    start.date,
                    start.capture_id,
                    start.levels,
                    partition@,
                    given.take(done),
                ).1);
            }
        }
        assert(given.take(done) =~= given);
    }

    /// Adds the times of an event.
    fn push_times(&mut self, partition: &Partition, rows: Vec<CellRow>)
        ensures
            final(self)@ == (ExporterView {
                exchange_times: with_all_rows(
                    old(self)@.exchange_times,
                    partition@,
                    cell_rows(rows@),
                ),
                ..old(self)@
            }),
    {
        let ghost start = self@;
        let ghost given = cell_rows(rows@);
        let mut rows: Vec<CellRow> = rows;
        let ghost mut done: int = 0;
        proof {
            assert(given.take(0) =~= Seq::empty());
            assert(given.skip(0) =~= given);
        }
        while rows.len() > 0
            invariant
                0 <= done <= given.len(),
                cell_rows(rows@) == given.skip(done),
                self@ == (ExporterView {
                    exchange_times: with_all_rows(
                        start.exchange_times,
                        partition@,
                        given.take(done),
                    ),
                    ..start
                }),
            decreases rows.len(),
        {
            let ghost left = rows@;
            let row: CellRow = rows.remove(0);
            proof {
                assert(cell_rows(left).len() == given.skip(done).len());
                assert(cell_rows(left)[0] == given.skip(done)[0]);
                assert(given.take(done + 1).drop_last() =~= given.take(done));
                assert(given.take(done + 1).last() == row@);
                assert(cell_rows(rows@) =~= given.skip(done + 1)) by {
                    assert forall|j: int| 0 <= j < rows@.len() implies cell_rows(rows@)[j]
                        == given.skip(done + 1)[j] by {
                        assert(rows@[j] == left[j + 1]);
                        assert(cell_rows(left)[j + 1] == given.skip(done)[j + 1]);
                    }
                }
                done = done + 1;
            }
            self.exchange_times.push(partition, row);
        }
        assert(given.take(done) =~= given);
    }

    /// Takes the next event. The steps are to be performed in their order, before the next
    /// event is taken.
    pub fn accept(self, event: &ValidatedReplayEvent) -> (result: Result<
        (Self, Vec<Output>),
        ExportError,
    >)
        requires
            self.well_formed(),
            self@.processed_events < u64::MAX,
        ensures
            exported_view(result) == self@.accepted(event@),
            result is Ok ==> result->Ok_0.0.well_formed(),
    {
        let ghost start = self@;
        let mut exporter: Exporter = self;
        let rows: EventRows = match rows_of(
            exporter.capture_id.as_str(),
            event.capture_sequence,
            &event.event,
        ) {
            Ok(rows) => rows,
            Err(error) => return Err(error),
        };
        let ghost made = rows@;
        let level_count: usize = rows.levels.len();
        assert(level_count == made.levels.len());
        if level_count as u64 > u64::MAX - exporter.level_rows {
            return Err(ExportError::RowCountOverflow);
        }
        let partition = Partition {
            venue: venue_name(event.event.venue()).to_owned(),
            market: event.event.market_coin().as_str().to_owned(),
        };
        let mut outputs: Vec<Output> = Vec::new();
        let ghost none = output_views(outputs@);
        exporter.push_levels(&partition, rows.levels, &mut outputs);
        exporter.push_times(&partition, rows.times);
        match rows.table {
            Table::OrderBookEvents => exporter.books.push(&partition, rows.row),
            Table::BestBidOffers => exporter.best_bid_offers.push(&partition, rows.row),
            Table::MarketTrades => exporter.trades.push(&partition, rows.row),
            _ => exporter.availability.push(&partition, rows.row),
        }
        exporter.level_rows = exporter.level_rows + level_count as u64;
        exporter.processed_events = exporter.processed_events + 1;
        let ghost levels = with_levels(
            start.date,
            start.capture_id,
            start.levels,
            partition@,
            made.levels,
        ).1;
        proof {
            assert(none =~= Seq::empty());
            assert(none + levels =~= levels);
            assert(partition@ == partition_of(event@.event));
            assert(exporter@ == start.with_event(partition@, made));
        }
        if exporter.processed_events % EVENT_BATCH_ROWS != 0 {
            return Ok((exporter, outputs));
        }
        match exporter.flush_event_batches(&mut outputs) {
            Ok(after) => {
                let mut after: Exporter = after;
                after.batch_index = after.batch_index + 1;
                Ok((after, outputs))
            },
            Err(error) => Err(error),
        }
    }

    /// Ends the export: what is left is written, the capture gets its row, and the counts are
    /// held against the number of events.
    pub fn finish(
        self,
        manifest: &CaptureManifest,
        manifest_sha256: &str,
        canonical_events: u64,
    ) -> (result: Result<(TableRows, Vec<Output>), ExportError>)
        ensures
            self@.finished(manifest@, manifest_sha256@, canonical_events) == (match result {
                Ok(end) => Ok::<(TableRows, Seq<OutputView>), ExportErrorView>(
                    (end.0, output_views(end.1@)),
                ),
                Err(error) => Err(error@),
            }),
    {
        let ghost start = self@;
        let mut outputs: Vec<Output> = Vec::new();
        let ghost none = output_views(outputs@);
        let exporter: Exporter = match self.flush_event_batches(&mut outputs) {
            Ok(after) => after,
            Err(error) => return Err(error),
        };
        let configuration: String = match entries_to_string(manifest.configuration.entries()) {
            Ok(text) => text,
            Err(error) => {
                let mut text: String = "cannot serialize captured configuration: ".to_owned();
                text.append(error.as_str());
                return Err(ExportError::Io(text));
            },
        };
        let mut table_rows: TableRows = exporter.table_rows;
        table_rows.order_book_levels = exporter.level_rows;
        match reconcile(&table_rows, canonical_events) {
            Ok(_) => {},
            Err(error) => return Err(error),
        }
        close_levels(
            exporter.date.as_str(),
            exporter.capture_id.as_str(),
            exporter.levels,
            &mut outputs,
        );
        let row: CellRow = row_of_capture(
            exporter.capture_id.as_str(),
            manifest,
            manifest_sha256,
            configuration,
        );
        let ghost model = row@;
        let mut rows: Vec<CellRow> = Vec::new();
        rows.push(row);
        let partition = Partition { venue: "all".to_owned(), market: "all".to_owned() };
        let path: String = partition_file_path(
            exporter.date.as_str(),
            Table::Captures,
            &partition,
            whole_file_name(exporter.capture_id.as_str()).as_str(),
        );
        let output = Output::WriteTable { table: Table::Captures, partition, path, rows };
        let ghost written = output_views(outputs@);
        proof {
            lemma_pushed(outputs@, output);
            assert(none =~= Seq::empty());
            assert(cell_rows(rows@) =~= seq![model]);
        }
        outputs.push(output);
        proof {
            let end = start.finished(manifest@, manifest_sha256@, canonical_events)->Ok_0;
            assert(written =~= start.batch_outputs() + closing_outputs(
                start.date,
                start.capture_id,
                start.levels,
            ));
            assert(output_views(outputs@) =~= end.1);
        }
        Ok((table_rows, outputs))
    }
}

/// Adds the steps that end the files of levels.
fn close_levels(
    date: &str,
    capture_id: &str,
    groups: Groups<CellRow>,
    outputs: &mut Vec<Output>,
)
    ensures
        output_views(final(outputs)@) == output_views(old(outputs)@) + closing_outputs(
            date@,
            capture_id@,
            groups@,
        ),
{
    let ghost all = groups@;
    let ghost before = output_views(outputs@);
    let file: String = whole_file_name(capture_id);
    let mut entries: Vec<(Partition, Vec<CellRow>)> = groups.into_entries();
    let ghost mut done: int = 0;
    proof {
        assert(all.take(0) =~= Seq::empty());
        assert(all.skip(0) =~= all);
        assert(before + Seq::<OutputView>::empty() =~= before);
    }
    while entries.len() > 0
        invariant
            0 <= done <= all.len(),
            group_views(entries@) == all.skip(done),
            file@ == whole_file(capture_id@),
            output_views(outputs@) == before + closing_outputs(
                date@,
                capture_id@,
                all.take(done),
            ),
        decreases entries.len(),
    {
        let ghost left = entries@;
        let entry: (Partition, Vec<CellRow>) = entries.remove(0);
        proof {
            assert(group_views(left).len() == all.skip(done).len());
            assert(group_views(left)[0] == all.skip(done)[0]);
            assert(group_views(left)[0] == (entry.0@, row_views(entry.1@)));
            assert(all.take(done + 1).drop_last() =~= all.take(done));
            assert(all.take(done + 1).last() == (entry.0@, row_views(entry.1@)));
            assert(group_views(entries@) =~= all.skip(done + 1)) by {
                assert forall|j: int| 0 <= j < entries@.len() implies group_views(entries@)[j]
                    == all.skip(done + 1)[j] by {
                    assert(entries@[j] == left[j + 1]);
                    assert(group_views(left)[j + 1] == all.skip(done)[j + 1]);
                }
            }
            assert(row_views(entry.1@) =~= cell_rows(entry.1@));
        }
        let path: String = partition_file_path(
            date,
            Table::OrderBookLevels,
            &entry.0,
            file.as_str(),
        );
        if entry.1.len() > 0 {
            let output = Output::AppendLevels {
                partition: entry.0.clone(),
                path: path.clone(),
                rows: entry.1,
            };
            proof {
                lemma_pushed(outputs@, output);
            }
            outputs.push(output);
        }
        let output = Output::CloseLevels { partition: entry.0, path };
        proof {
            lemma_pushed(outputs@, output);
        }
        outputs.push(output);
        proof {
            done = done + 1;
            assert(output_views(outputs@) =~= before + closing_outputs(
                date@,
                capture_id@,
                all.take(done),
            ));
        }
    }
    assert(all.take(done) =~= all);
}

} // verus!
