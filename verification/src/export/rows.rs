//! The tables of a dataset: their columns and their rows.
use vstd::prelude::*;

use crate::text::optional_text;

verus! {

/// What a column holds. Decimals have 38 digits, 18 of them behind the point.
#[derive(Clone, Copy, Debug, Eq, PartialEq, Structural)]
pub enum ColumnKind {
    Text,
    U64,
    U32,
    Decimal,
}

/// A column of a table.
#[derive(Clone, Copy, Debug, Eq, PartialEq)]
pub struct Column {
    pub name: &'static str,
    pub kind: ColumnKind,
    pub nullable: bool,
}

/// The model of `Column`.
pub struct ColumnView {
    pub name: Seq<char>,
    pub kind: ColumnKind,
    pub nullable: bool,
}

impl View for Column {
    type V = ColumnView;

    open spec fn view(&self) -> ColumnView {
        ColumnView { name: self.name@, kind: self.kind, nullable: self.nullable }
    }
}

impl Column {
    fn new(name: &'static str, kind: ColumnKind, nullable: bool) -> (column: Self)
        ensures
            column@ == (ColumnView { name: name@, kind, nullable }),
    {
        Column { name, kind, nullable }
    }
}

/// A value in a table, which may be absent. A decimal is in units of the last of its 18
/// digits behind the point.
#[derive(Debug, Eq, PartialEq)]
pub enum Cell {
    Text(Option<String>),
    U64(Option<u64>),
    U32(Option<u32>),
    Decimal(Option<i128>),
}

/// The model of `Cell`.
pub enum CellView {
    Text(Option<Seq<char>>),
    U64(Option<u64>),
    U32(Option<u32>),
    Decimal(Option<i128>),
}

impl View for Cell {
    type V = CellView;

    open spec fn view(&self) -> CellView {
        match *self {
            Cell::Text(text) => CellView::Text(optional_text(text)),
            Cell::U64(number) => CellView::U64(number),
            Cell::U32(number) => CellView::U32(number),
            Cell::Decimal(number) => CellView::Decimal(number),
        }
    }
}

/// The models of the values of a row.
pub open spec fn cell_views(cells: Seq<Cell>) -> Seq<CellView> {
    cells.map_values(|cell: Cell| cell@)
}

impl CellView {
    /// Whether the value may stand in the column.
    pub open spec fn fits(self, column: ColumnView) -> bool {
        match self {
            CellView::Text(value) => column.kind == ColumnKind::Text && (value is Some
                || column.nullable),
            CellView::U64(value) => column.kind == ColumnKind::U64 && (value is Some
                || column.nullable),
            CellView::U32(value) => column.kind == ColumnKind::U32 && (value is Some
                || column.nullable),
            CellView::Decimal(value) => column.kind == ColumnKind::Decimal && (value is Some
                || column.nullable),
        }
    }
}

/// Whether a row has a fitting value for every column.
pub open spec fn row_fits(row: Seq<CellView>, columns: Seq<ColumnView>) -> bool {
    &&& row.len() == columns.len()
    &&& forall|i: int| 0 <= i < row.len() ==> (#[trigger] row[i]).fits(columns[i])
}

/// The tables of a dataset.
#[derive(Clone, Copy, Debug, Eq, PartialEq, Structural)]
pub enum Table {
    Captures,
    OrderBookEvents,
    BestBidOffers,
    OrderBookLevels,
    MarketTrades,
    AvailabilityEvents,
    ExchangeTimes,
}

/// A column of the given name.
pub open spec fn column(name: Seq<char>, kind: ColumnKind, nullable: bool) -> ColumnView {
    ColumnView { name, kind, nullable }
}

impl Table {
    /// The name of the table.
    pub open spec fn label(self) -> Seq<char> {
        match self {
            Table::Captures => "captures"@,
            Table::OrderBookEvents => "order_book_events"@,
            Table::BestBidOffers => "best_bid_offers"@,
            Table::OrderBookLevels => "order_book_levels"@,
            Table::MarketTrades => "market_trades"@,
            Table::AvailabilityEvents => "availability_events"@,
            Table::ExchangeTimes => "exchange_times"@,
        }
    }

    pub fn name(self) -> (name: &'static str)
        ensures
            name@ == self.label(),
    {
        match self {
            Table::Captures => "captures",
            Table::OrderBookEvents => "order_book_events",
            Table::BestBidOffers => "best_bid_offers",
            Table::OrderBookLevels => "order_book_levels",
            Table::MarketTrades => "market_trades",
            Table::AvailabilityEvents => "availability_events",
            Table::ExchangeTimes => "exchange_times",
        }
    }

    /// The columns of the table, in order.
    pub open spec fn schema(self) -> Seq<ColumnView> {
        match self {
            Table::Captures => seq![
                column("capture_id"@, ColumnKind::Text, false),
                column("capture_status"@, ColumnKind::Text, false),
                column("utc_start_unix_millis"@, ColumnKind::U64, false),
                column("utc_end_unix_millis"@, ColumnKind::U64, true),
                column("manifest_sha256"@, ColumnKind::Text, false),
                column("configuration_sha256"@, ColumnKind::Text, false),
                column("configuration_json"@, ColumnKind::Text, false),
                column("disconnects"@, ColumnKind::U64, false),
                column("order_book_unavailable"@, ColumnKind::U64, false),
                column("trade_stream_gaps"@, ColumnKind::U64, false),
                column("invalid_messages"@, ColumnKind::U64, false),
                column("deduplicated_trades"@, ColumnKind::U64, false),
            ],
            Table::OrderBookEvents => seq![
                column("capture_id"@, ColumnKind::Text, false),
                column("capture_sequence"@, ColumnKind::U64, false),
                column("venue"@, ColumnKind::Text, false),
                column("market_coin"@, ColumnKind::Text, false),
                column("local_receive_time"@, ColumnKind::U64, false),
                column("processing_completion_time"@, ColumnKind::U64, false),
                column("source_sequence"@, ColumnKind::U64, true),
                column("bid_count"@, ColumnKind::U32, false),
                column("ask_count"@, ColumnKind::U32, false),
            ],
            Table::BestBidOffers => seq![
                column("capture_id"@, ColumnKind::Text, false),
                column("capture_sequence"@, ColumnKind::U64, false),
                column("venue"@, ColumnKind::Text, false),
                column("market_coin"@, ColumnKind::Text, false),
                column("local_receive_time"@, ColumnKind::U64, false),
                column("processing_completion_time"@, ColumnKind::U64, false),
                column("best_bid_price"@, ColumnKind::Decimal, true),
                column("best_bid_quantity"@, ColumnKind::Decimal, true),
                column("best_bid_order_count"@, ColumnKind::U32, true),
                column("best_ask_price"@, ColumnKind::Decimal, true),
                column("best_ask_quantity"@, ColumnKind::Decimal, true),
                column("best_ask_order_count"@, ColumnKind::U32, true),
            ],
            Table::OrderBookLevels => seq![
                column("capture_id"@, ColumnKind::Text, false),
                column("capture_sequence"@, ColumnKind::U64, false),
                column("venue"@, ColumnKind::Text, false),
                column("market_coin"@, ColumnKind::Text, false),
                column("side"@, ColumnKind::Text, false),
                column("position"@, ColumnKind::U32, false),
                column("price"@, ColumnKind::Decimal, false),
                column("quantity"@, ColumnKind::Decimal, false),
                column("order_count"@, ColumnKind::U32, true),
            ],
            Table::MarketTrades => seq![
                column("capture_id"@, ColumnKind::Text, false),
                column("capture_sequence"@, ColumnKind::U64, false),
                column("venue"@, ColumnKind::Text, false),
                column("market_coin"@, ColumnKind::Text, false),
                column("local_receive_time"@, ColumnKind::U64, false),
                column("processing_completion_time"@, ColumnKind::U64, false),
                column("price"@, ColumnKind::Decimal, false),
                column("quantity"@, ColumnKind::Decimal, false),
                column("reporting_kind"@, ColumnKind::Text, false),
                column("trade_kind"@, ColumnKind::Text, false),
                column("aggressor_side"@, ColumnKind::Text, false),
                column("aggressor_side_classification"@, ColumnKind::Text, false),
                column("aster_aggregate_trade_id"@, ColumnKind::U64, true),
                column("aster_first_trade_id"@, ColumnKind::U64, true),
                column("aster_last_trade_id"@, ColumnKind::U64, true),
                column("hyperliquid_block_time"@, ColumnKind::U64, true),
                column("hyperliquid_trade_id"@, ColumnKind::U64, true),
                column("hyperliquid_transaction_hash"@, ColumnKind::Text, true),
                column("lighter_market_id"@, ColumnKind::U32, true),
                column("lighter_trade_id_string"@, ColumnKind::Text, true),
                column("lighter_message_nonce"@, ColumnKind::U64, true),
            ],
            Table::AvailabilityEvents => seq![
                column("capture_id"@, ColumnKind::Text, false),
                column("capture_sequence"@, ColumnKind::U64, false),
                column("venue"@, ColumnKind::Text, false),
                column("market_coin"@, ColumnKind::Text, false),
                column("stream"@, ColumnKind::Text, false),
                column("transition"@, ColumnKind::Text, false),
                column("category"@, ColumnKind::Text, true),
                column("diagnostic"@, ColumnKind::Text, true),
                column("observed_at"@, ColumnKind::U64, false),
            ],
            Table::ExchangeTimes => seq![
                column("capture_id"@, ColumnKind::Text, false),
                column("capture_sequence"@, ColumnKind::U64, false),
                column("venue"@, ColumnKind::Text, false),
                column("market_coin"@, ColumnKind::Text, false),
                column("ordinal"@, ColumnKind::U32, false),
                column("kind"@, ColumnKind::Text, false),
                column("raw_value"@, ColumnKind::U64, false),
                column("declared_unit"@, ColumnKind::Text, false),
            ],
        }
    }

    /// The columns of the table, in order.
    pub fn columns(self) -> (columns: Vec<Column>)
        ensures
            columns@.map_values(|column: Column| column@) == self.schema(),
    {
        let mut columns: Vec<Column> = Vec::new();
        match self {
            Table::Captures => {
                columns.push(Column::new("capture_id", ColumnKind::Text, false));
                columns.push(Column::new("capture_status", ColumnKind::Text, false));
                columns.push(Column::new("utc_start_unix_millis", ColumnKind::U64, false));
                columns.push(Column::new("utc_end_unix_millis", ColumnKind::U64, true));
                columns.push(Column::new("manifest_sha256", ColumnKind::Text, false));
                columns.push(Column::new("configuration_sha256", ColumnKind::Text, false));
                columns.push(Column::new("configuration_json", ColumnKind::Text, false));
                columns.push(Column::new("disconnects", ColumnKind::U64, false));
                columns.push(Column::new("order_book_unavailable", ColumnKind::U64, false));
                columns.push(Column::new("trade_stream_gaps", ColumnKind::U64, false));
                columns.push(Column::new("invalid_messages", ColumnKind::U64, false));
                columns.push(Column::new("deduplicated_trades", ColumnKind::U64, false));
            },
            Table::OrderBookEvents => {
                columns.push(Column::new("capture_id", ColumnKind::Text, false));
                columns.push(Column::new("capture_sequence", ColumnKind::U64, false));
                columns.push(Column::new("venue", ColumnKind::Text, false));
                columns.push(Column::new("market_coin", ColumnKind::Text, false));
                columns.push(Column::new("local_receive_time", ColumnKind::U64, false));
                columns.push(Column::new("processing_completion_time", ColumnKind::U64, false));
                columns.push(Column::new("source_sequence", ColumnKind::U64, true));
                columns.push(Column::new("bid_count", ColumnKind::U32, false));
                columns.push(Column::new("ask_count", ColumnKind::U32, false));
            },
            Table::BestBidOffers => {
                columns.push(Column::new("capture_id", ColumnKind::Text, false));
                columns.push(Column::new("capture_sequence", ColumnKind::U64, false));
                columns.push(Column::new("venue", ColumnKind::Text, false));
                columns.push(Column::new("market_coin", ColumnKind::Text, false));
                columns.push(Column::new("local_receive_time", ColumnKind::U64, false));
                columns.push(Column::new("processing_completion_time", ColumnKind::U64, false));
                columns.push(Column::new("best_bid_price", ColumnKind::Decimal, true));
                columns.push(Column::new("best_bid_quantity", ColumnKind::Decimal, true));
                columns.push(Column::new("best_bid_order_count", ColumnKind::U32, true));
                columns.push(Column::new("best_ask_price", ColumnKind::Decimal, true));
                columns.push(Column::new("best_ask_quantity", ColumnKind::Decimal, true));
                columns.push(Column::new("best_ask_order_count", ColumnKind::U32, true));
            },
            Table::OrderBookLevels => {
                columns.push(Column::new("capture_id", ColumnKind::Text, false));
                columns.push(Column::new("capture_sequence", ColumnKind::U64, false));
                columns.push(Column::new("venue", ColumnKind::Text, false));
                columns.push(Column::new("market_coin", ColumnKind::Text, false));
                columns.push(Column::new("side", ColumnKind::Text, false));
                columns.push(Column::new("position", ColumnKind::U32, false));
                columns.push(Column::new("price", ColumnKind::Decimal, false));
                columns.push(Column::new("quantity", ColumnKind::Decimal, false));
                columns.push(Column::new("order_count", ColumnKind::U32, true));
            },
            Table::MarketTrades => {
                columns.push(Column::new("capture_id", ColumnKind::Text, false));
                columns.push(Column::new("capture_sequence", ColumnKind::U64, false));
                columns.push(Column::new("venue", ColumnKind::Text, false));
                columns.push(Column::new("market_coin", ColumnKind::Text, false));
                columns.push(Column::new("local_receive_time", ColumnKind::U64, false));
                columns.push(Column::new("processing_completion_time", ColumnKind::U64, false));
                columns.push(Column::new("price", ColumnKind::Decimal, false));
                columns.push(Column::new("quantity", ColumnKind::Decimal, false));
                columns.push(Column::new("reporting_kind", ColumnKind::Text, false));
                columns.push(Column::new("trade_kind", ColumnKind::Text, false));
                columns.push(Column::new("aggressor_side", ColumnKind::Text, false));
                columns.push(Column::new("aggressor_side_classification", ColumnKind::Text, false));
                columns.push(Column::new("aster_aggregate_trade_id", ColumnKind::U64, true));
                columns.push(Column::new("aster_first_trade_id", ColumnKind::U64, true));
                columns.push(Column::new("aster_last_trade_id", ColumnKind::U64, true));
                columns.push(Column::new("hyperliquid_block_time", ColumnKind::U64, true));
                columns.push(Column::new("hyperliquid_trade_id", ColumnKind::U64, true));
                columns.push(Column::new("hyperliquid_transaction_hash", ColumnKind::Text, true));
                columns.push(Column::new("lighter_market_id", ColumnKind::U32, true));
                columns.push(Column::new("lighter_trade_id_string", ColumnKind::Text, true));
                columns.push(Column::new("lighter_message_nonce", ColumnKind::U64, true));
            },
            Table::AvailabilityEvents => {
                columns.push(Column::new("capture_id", ColumnKind::Text, false));
                columns.push(Column::new("capture_sequence", ColumnKind::U64, false));
                columns.push(Column::new("venue", ColumnKind::Text, false));
                columns.push(Column::new("market_coin", ColumnKind::Text, false));
                columns.push(Column::new("stream", ColumnKind::Text, false));
                columns.push(Column::new("transition", ColumnKind::Text, false));
                columns.push(Column::new("category", ColumnKind::Text, true));
                columns.push(Column::new("diagnostic", ColumnKind::Text, true));
                columns.push(Column::new("observed_at", ColumnKind::U64, false));
            },
            Table::ExchangeTimes => {
                columns.push(Column::new("capture_id", ColumnKind::Text, false));
                columns.push(Column::new("capture_sequence", ColumnKind::U64, false));
                columns.push(Column::new("venue", ColumnKind::Text, false));
                columns.push(Column::new("market_coin", ColumnKind::Text, false));
                columns.push(Column::new("ordinal", ColumnKind::U32, false));
                columns.push(Column::new("kind", ColumnKind::Text, false));
                columns.push(Column::new("raw_value", ColumnKind::U64, false));
                columns.push(Column::new("declared_unit", ColumnKind::Text, false));
            },
        }
        assert(columns@.map_values(|column: Column| column@) =~= self.schema());
        columns
    }
}

/// One capture.
#[derive(Debug, Eq, PartialEq)]
pub struct CaptureRow {
    pub capture_id: String,
    pub capture_status: String,
    pub utc_start: u64,
    pub utc_end: Option<u64>,
    pub manifest_sha256: String,
    pub configuration_sha256: String,
    pub configuration_json: String,
    pub disconnects: u64,
    pub order_book_unavailable: u64,
    pub trade_stream_gaps: u64,
    pub invalid_messages: u64,
    pub deduplicated_trades: u64,
}

impl View for CaptureRow {
    type V = Seq<CellView>;

    open spec fn view(&self) -> Seq<CellView> {
        seq![
            CellView::Text(Some(self.capture_id@)),
            CellView::Text(Some(self.capture_status@)),
            CellView::U64(Some(self.utc_start)),
            CellView::U64(self.utc_end),
            CellView::Text(Some(self.manifest_sha256@)),
            CellView::Text(Some(self.configuration_sha256@)),
            CellView::Text(Some(self.configuration_json@)),
            CellView::U64(Some(self.disconnects)),
            CellView::U64(Some(self.order_book_unavailable)),
            CellView::U64(Some(self.trade_stream_gaps)),
            CellView::U64(Some(self.invalid_messages)),
            CellView::U64(Some(self.deduplicated_trades)),
        ]
    }
}

impl CaptureRow {
    /// The values of the row, in the order of the columns.
    pub fn cells(self) -> (cells: Vec<Cell>)
        ensures
            cell_views(cells@) == self@,
            row_fits(self@, Table::Captures.schema()),
    {
        let mut cells: Vec<Cell> = Vec::new();
        cells.push(Cell::Text(Some(self.capture_id)));
        cells.push(Cell::Text(Some(self.capture_status)));
        cells.push(Cell::U64(Some(self.utc_start)));
        cells.push(Cell::U64(self.utc_end));
        cells.push(Cell::Text(Some(self.manifest_sha256)));
        cells.push(Cell::Text(Some(self.configuration_sha256)));
        cells.push(Cell::Text(Some(self.configuration_json)));
        cells.push(Cell::U64(Some(self.disconnects)));
        cells.push(Cell::U64(Some(self.order_book_unavailable)));
        cells.push(Cell::U64(Some(self.trade_stream_gaps)));
        cells.push(Cell::U64(Some(self.invalid_messages)));
        cells.push(Cell::U64(Some(self.deduplicated_trades)));
        assert(cell_views(cells@) =~= self@);
        cells
    }
}

/// One order-book snapshot.
#[derive(Debug, Eq, PartialEq)]
pub struct OrderBookEventRow {
    pub capture_id: String,
    pub sequence: u64,
    pub venue: String,
    pub market: String,
    pub local_receive: u64,
    pub processing_completion: u64,
    pub source_sequence: Option<u64>,
    pub bid_count: u32,
    pub ask_count: u32,
}

impl View for OrderBookEventRow {
    type V = Seq<CellView>;

    open spec fn view(&self) -> Seq<CellView> {
        seq![
            CellView::Text(Some(self.capture_id@)),
            CellView::U64(Some(self.sequence)),
            CellView::Text(Some(self.venue@)),
            CellView::Text(Some(self.market@)),
            CellView::U64(Some(self.local_receive)),
            CellView::U64(Some(self.processing_completion)),
            CellView::U64(self.source_sequence),
            CellView::U32(Some(self.bid_count)),
            CellView::U32(Some(self.ask_count)),
        ]
    }
}

impl OrderBookEventRow {
    /// The values of the row, in the order of the columns.
    pub fn cells(self) -> (cells: Vec<Cell>)
        ensures
            cell_views(cells@) == self@,
            row_fits(self@, Table::OrderBookEvents.schema()),
    {
        let mut cells: Vec<Cell> = Vec::new();
        cells.push(Cell::Text(Some(self.capture_id)));
        cells.push(Cell::U64(Some(self.sequence)));
        cells.push(Cell::Text(Some(self.venue)));
        cells.push(Cell::Text(Some(self.market)));
        cells.push(Cell::U64(Some(self.local_receive)));
        cells.push(Cell::U64(Some(self.processing_completion)));
        cells.push(Cell::U64(self.source_sequence));
        cells.push(Cell::U32(Some(self.bid_count)));
        cells.push(Cell::U32(Some(self.ask_count)));
        assert(cell_views(cells@) =~= self@);
        cells
    }
}

/// One best bid and offer.
#[derive(Debug, Eq, PartialEq)]
pub struct BestBidOfferRow {
    pub capture_id: String,
    pub sequence: u64,
    pub venue: String,
    pub market: String,
    pub local_receive: u64,
    pub processing_completion: u64,
    pub bid_price: Option<i128>,
    pub bid_quantity: Option<i128>,
    pub bid_order_count: Option<u32>,
    pub ask_price: Option<i128>,
    pub ask_quantity: Option<i128>,
    pub ask_order_count: Option<u32>,
}

impl View for BestBidOfferRow {
    type V = Seq<CellView>;

    open spec fn view(&self) -> Seq<CellView> {
        seq![
            CellView::Text(Some(self.capture_id@)),
            CellView::U64(Some(self.sequence)),
            CellView::Text(Some(self.venue@)),
            CellView::Text(Some(self.market@)),
            CellView::U64(Some(self.local_receive)),
            CellView::U64(Some(self.processing_completion)),
            CellView::Decimal(self.bid_price),
            CellView::Decimal(self.bid_quantity),
            CellView::U32(self.bid_order_count),
            CellView::Decimal(self.ask_price),
            CellView::Decimal(self.ask_quantity),
            CellView::U32(self.ask_order_count),
        ]
    }
}

impl BestBidOfferRow {
    /// The values of the row, in the order of the columns.
    pub fn cells(self) -> (cells: Vec<Cell>)
        ensures
            cell_views(cells@) == self@,
            row_fits(self@, Table::BestBidOffers.schema()),
    {
        let mut cells: Vec<Cell> = Vec::new();
        cells.push(Cell::Text(Some(self.capture_id)));
        cells.push(Cell::U64(Some(self.sequence)));
        cells.push(Cell::Text(Some(self.venue)));
        cells.push(Cell::Text(Some(self.market)));
        cells.push(Cell::U64(Some(self.local_receive)));
        cells.push(Cell::U64(Some(self.processing_completion)));
        cells.push(Cell::Decimal(self.bid_price));
        cells.push(Cell::Decimal(self.bid_quantity));
        cells.push(Cell::U32(self.bid_order_count));
        cells.push(Cell::Decimal(self.ask_price));
        cells.push(Cell::Decimal(self.ask_quantity));
        cells.push(Cell::U32(self.ask_order_count));
        assert(cell_views(cells@) =~= self@);
        cells
    }
}

/// One level of an order-book snapshot.
#[derive(Debug, Eq, PartialEq)]
pub struct OrderBookLevelRow {
    pub capture_id: String,
    pub sequence: u64,
    pub venue: String,
    pub market: String,
    pub side: String,
    pub position: u32,
    pub price: i128,
    pub quantity: i128,
    pub order_count: Option<u32>,
}

impl View for OrderBookLevelRow {
    type V = Seq<CellView>;

    open spec fn view(&self) -> Seq<CellView> {
        seq![
            CellView::Text(Some(self.capture_id@)),
            CellView::U64(Some(self.sequence)),
            CellView::Text(Some(self.venue@)),
            CellView::Text(Some(self.market@)),
            CellView::Text(Some(self.side@)),
            CellView::U32(Some(self.position)),
            CellView::Decimal(Some(self.price)),
            CellView::Decimal(Some(self.quantity)),
            CellView::U32(self.order_count),
        ]
    }
}

impl OrderBookLevelRow {
    /// The values of the row, in the order of the columns.
    pub fn cells(self) -> (cells: Vec<Cell>)
        ensures
            cell_views(cells@) == self@,
            row_fits(self@, Table::OrderBookLevels.schema()),
    {
        let mut cells: Vec<Cell> = Vec::new();
        cells.push(Cell::Text(Some(self.capture_id)));
        cells.push(Cell::U64(Some(self.sequence)));
        cells.push(Cell::Text(Some(self.venue)));
        cells.push(Cell::Text(Some(self.market)));
        cells.push(Cell::Text(Some(self.side)));
        cells.push(Cell::U32(Some(self.position)));
        cells.push(Cell::Decimal(Some(self.price)));
        cells.push(Cell::Decimal(Some(self.quantity)));
        cells.push(Cell::U32(self.order_count));
        assert(cell_views(cells@) =~= self@);
        cells
    }
}

/// One trade.
#[derive(Debug, Eq, PartialEq)]
pub struct MarketTradeRow {
    pub capture_id: String,
    pub sequence: u64,
    pub venue: String,
    pub market: String,
    pub local_receive: u64,
    pub processing_completion: u64,
    pub price: i128,
    pub quantity: i128,
    pub reporting_kind: String,
    pub trade_kind: String,
    pub aggressor_side: String,
    pub classification: String,
    pub aggregate_trade_id: Option<u64>,
    pub first_trade_id: Option<u64>,
    pub last_trade_id: Option<u64>,
    pub block_time: Option<u64>,
    pub trade_id_u64: Option<u64>,
    pub transaction_hash: Option<String>,
    pub market_id: Option<u32>,
    pub trade_id_string: Option<String>,
    pub message_nonce: Option<u64>,
}

impl View for MarketTradeRow {
    type V = Seq<CellView>;

    open spec fn view(&self) -> Seq<CellView> {
        seq![
            CellView::Text(Some(self.capture_id@)),
            CellView::U64(Some(self.sequence)),
            CellView::Text(Some(self.venue@)),
            CellView::Text(Some(self.market@)),
            CellView::U64(Some(self.local_receive)),
            CellView::U64(Some(self.processing_completion)),
            CellView::Decimal(Some(self.price)),
            CellView::Decimal(Some(self.quantity)),
            CellView::Text(Some(self.reporting_kind@)),
            CellView::Text(Some(self.trade_kind@)),
            CellView::Text(Some(self.aggressor_side@)),
            CellView::Text(Some(self.classification@)),
            CellView::U64(self.aggregate_trade_id),
            CellView::U64(self.first_trade_id),
            CellView::U64(self.last_trade_id),
            CellView::U64(self.block_time),
            CellView::U64(self.trade_id_u64),
            CellView::Text(optional_text(self.transaction_hash)),
            CellView::U32(self.market_id),
            CellView::Text(optional_text(self.trade_id_string)),
            CellView::U64(self.message_nonce),
        ]
    }
}

impl MarketTradeRow {
    /// The values of the row, in the order of the columns.
    pub fn cells(self) -> (cells: Vec<Cell>)
        ensures
            cell_views(cells@) == self@,
            row_fits(self@, Table::MarketTrades.schema()),
    {
        let mut cells: Vec<Cell> = Vec::new();
        cells.push(Cell::Text(Some(self.capture_id)));
        cells.push(Cell::U64(Some(self.sequence)));
        cells.push(Cell::Text(Some(self.venue)));
        cells.push(Cell::Text(Some(self.market)));
        cells.push(Cell::U64(Some(self.local_receive)));
        cells.push(Cell::U64(Some(self.processing_completion)));
        cells.push(Cell::Decimal(Some(self.price)));
        cells.push(Cell::Decimal(Some(self.quantity)));
        cells.push(Cell::Text(Some(self.reporting_kind)));
        cells.push(Cell::Text(Some(self.trade_kind)));
        cells.push(Cell::Text(Some(self.aggressor_side)));
        cells.push(Cell::Text(Some(self.classification)));
        cells.push(Cell::U64(self.aggregate_trade_id));
        cells.push(Cell::U64(self.first_trade_id));
        cells.push(Cell::U64(self.last_trade_id));
        cells.push(Cell::U64(self.block_time));
        cells.push(Cell::U64(self.trade_id_u64));
        cells.push(Cell::Text(self.transaction_hash));
        cells.push(Cell::U32(self.market_id));
        cells.push(Cell::Text(self.trade_id_string));
        cells.push(Cell::U64(self.message_nonce));
        assert(cell_views(cells@) =~= self@);
        cells
    }
}

/// One change of availability.
#[derive(Debug, Eq, PartialEq)]
pub struct AvailabilityRow {
    pub capture_id: String,
    pub sequence: u64,
    pub venue: String,
    pub market: String,
    pub stream: String,
    pub transition: String,
    pub category: Option<String>,
    pub diagnostic: Option<String>,
    pub observed_at: u64,
}

impl View for AvailabilityRow {
    type V = Seq<CellView>;

    open spec fn view(&self) -> Seq<CellView> {
        seq![
            CellView::Text(Some(self.capture_id@)),
            CellView::U64(Some(self.sequence)),
            CellView::Text(Some(self.venue@)),
            CellView::Text(Some(self.market@)),
            CellView::Text(Some(self.stream@)),
            CellView::Text(Some(self.transition@)),
            CellView::Text(optional_text(self.category)),
            CellView::Text(optional_text(self.diagnostic)),
            CellView::U64(Some(self.observed_at)),
        ]
    }
}

impl AvailabilityRow {
    /// The values of the row, in the order of the columns.
    pub fn cells(self) -> (cells: Vec<Cell>)
        ensures
            cell_views(cells@) == self@,
            row_fits(self@, Table::AvailabilityEvents.schema()),
    {
        let mut cells: Vec<Cell> = Vec::new();
        cells.push(Cell::Text(Some(self.capture_id)));
        cells.push(Cell::U64(Some(self.sequence)));
        cells.push(Cell::Text(Some(self.venue)));
        cells.push(Cell::Text(Some(self.market)));
        cells.push(Cell::Text(Some(self.stream)));
        cells.push(Cell::Text(Some(self.transition)));
        cells.push(Cell::Text(self.category));
        cells.push(Cell::Text(self.diagnostic));
        cells.push(Cell::U64(Some(self.observed_at)));
        assert(cell_views(cells@) =~= self@);
        cells
    }
}

/// One time that a venue stated.
#[derive(Debug, Eq, PartialEq)]
pub struct ExchangeTimeRow {
    pub capture_id: String,
    pub sequence: u64,
    pub venue: String,
    pub market: String,
    pub ordinal: u32,
    pub kind: String,
    pub raw_value: u64,
    pub declared_unit: String,
}

impl View for ExchangeTimeRow {
    type V = Seq<CellView>;

    open spec fn view(&self) -> Seq<CellView> {
        seq![
            CellView::Text(Some(self.capture_id@)),
            CellView::U64(Some(self.sequence)),
            CellView::Text(Some(self.venue@)),
            CellView::Text(Some(self.market@)),
            CellView::U32(Some(self.ordinal)),
            CellView::Text(Some(self.kind@)),
            CellView::U64(Some(self.raw_value)),
            CellView::Text(Some(self.declared_unit@)),
        ]
    }
}

impl ExchangeTimeRow {
    /// The values of the row, in the order of the columns.
    pub fn cells(self) -> (cells: Vec<Cell>)
        ensures
            cell_views(cells@) == self@,
            row_fits(self@, Table::ExchangeTimes.schema()),
    {
        let mut cells: Vec<Cell> = Vec::new();
        cells.push(Cell::Text(Some(self.capture_id)));
        cells.push(Cell::U64(Some(self.sequence)));
        cells.push(Cell::Text(Some(self.venue)));
        cells.push(Cell::Text(Some(self.market)));
        cells.push(Cell::U32(Some(self.ordinal)));
        cells.push(Cell::Text(Some(self.kind)));
        cells.push(Cell::U64(Some(self.raw_value)));
        cells.push(Cell::Text(Some(self.declared_unit)));
        assert(cell_views(cells@) =~= self@);
        cells
    }
}

} // verus!
