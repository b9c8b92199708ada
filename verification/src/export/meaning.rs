//! What the rows of a dataset say, by the names of their columns.
use vstd::prelude::*;

use crate::domain::price::lemma_price_value;
use crate::domain::quantity::lemma_quantity_value;
use crate::domain::Venue;
use crate::export::convert::{
    bbo_row, event_rows, identity_cells, level_amounts, level_row, level_rows_of, offer_cells,
    origin_of, snapshot_levels, snapshot_row, time_row, time_rows, trade_row, ExportErrorView,
    Origin, RowsView,
};
use crate::export::exporter::capture_row;
use crate::export::rows::{CellView, Table};
use crate::market_data::event::{
    AggressorSide, AggressorSideClassification, BboView, EventView, ExchangeTimeKind,
    ExchangeTimeObservation, ExchangeTimeUnit, IdentityView, MarketTradeKind,
    MarketTradeReportingKind, ResumedView, TradeView, UnavailabilityCategory, UnavailableView,
};
use crate::market_data::order_book::{lemma_order_count, levels_valid, SnapshotView};
use crate::market_data::BookLevel;
use crate::recorder::manifest::{CaptureStatus, ManifestView};
use crate::venue::wire::{lemma_read_all_items, read_all};

verus! {

/// Whether a row of a table holds a cell in the column of the given name.
pub open spec fn says(table: Table, row: Seq<CellView>, name: Seq<char>, cell: CellView) -> bool {
    exists|i: int|
        0 <= i < row.len() && i < table.schema().len() && (#[trigger] table.schema()[i]).name
            == name && row[i] == cell
}

/// A text that is there.
pub open spec fn text(value: Seq<char>) -> CellView {
    CellView::Text(Some(value))
}

/// A number that is there.
pub open spec fn number(value: u64) -> CellView {
    CellView::U64(Some(value))
}

/// A decimal that is there, in units of the last of its 18 digits behind the point.
pub open spec fn amount(units: int) -> CellView {
    CellView::Decimal(Some(units as i128))
}

/// How many orders make up a level, if that is known.
pub open spec fn orders(level: BookLevel) -> CellView {
    CellView::U32(
        match level.order_count {
            Some(count) => Some(count.count()),
            None => None,
        },
    )
}

proof fn lemma_book_columns()
    ensures
        Table::OrderBookEvents.schema().len() == 9,
        Table::OrderBookEvents.schema()[0].name == "capture_id"@,
        Table::OrderBookEvents.schema()[1].name == "capture_sequence"@,
        Table::OrderBookEvents.schema()[2].name == "venue"@,
        Table::OrderBookEvents.schema()[3].name == "market_coin"@,
        Table::OrderBookEvents.schema()[4].name == "local_receive_time"@,
        Table::OrderBookEvents.schema()[5].name == "processing_completion_time"@,
        Table::OrderBookEvents.schema()[6].name == "source_sequence"@,
        Table::OrderBookEvents.schema()[7].name == "bid_count"@,
        Table::OrderBookEvents.schema()[8].name == "ask_count"@,
{
}

proof fn lemma_offer_columns()
    ensures
        Table::BestBidOffers.schema().len() == 12,
        Table::BestBidOffers.schema()[0].name == "capture_id"@,
        Table::BestBidOffers.schema()[1].name == "capture_sequence"@,
        Table::BestBidOffers.schema()[2].name == "venue"@,
        Table::BestBidOffers.schema()[3].name == "market_coin"@,
        Table::BestBidOffers.schema()[4].name == "local_receive_time"@,
        Table::BestBidOffers.schema()[5].name == "processing_completion_time"@,
        Table::BestBidOffers.schema()[6].name == "best_bid_price"@,
        Table::BestBidOffers.schema()[7].name == "best_bid_quantity"@,
        Table::BestBidOffers.schema()[8].name == "best_bid_order_count"@,
        Table::BestBidOffers.schema()[9].name == "best_ask_price"@,
        Table::BestBidOffers.schema()[10].name == "best_ask_quantity"@,
        Table::BestBidOffers.schema()[11].name == "best_ask_order_count"@,
{
}

proof fn lemma_level_columns()
    ensures
        Table::OrderBookLevels.schema().len() == 9,
        Table::OrderBookLevels.schema()[0].name == "capture_id"@,
        Table::OrderBookLevels.schema()[1].name == "capture_sequence"@,
        Table::OrderBookLevels.schema()[2].name == "venue"@,
        Table::OrderBookLevels.schema()[3].name == "market_coin"@,
        Table::OrderBookLevels.schema()[4].name == "side"@,
        Table::OrderBookLevels.schema()[5].name == "position"@,
        Table::OrderBookLevels.schema()[6].name == "price"@,
        Table::OrderBookLevels.schema()[7].name == "quantity"@,
        Table::OrderBookLevels.schema()[8].name == "order_count"@,
{
}

proof fn lemma_trade_columns()
    ensures
        Table::MarketTrades.schema().len() == 21,
        Table::MarketTrades.schema()[0].name == "capture_id"@,
        Table::MarketTrades.schema()[1].name == "capture_sequence"@,
        Table::MarketTrades.schema()[2].name == "venue"@,
        Table::MarketTrades.schema()[3].name == "market_coin"@,
        Table::MarketTrades.schema()[4].name == "local_receive_time"@,
        Table::MarketTrades.schema()[5].name == "processing_completion_time"@,
        Table::MarketTrades.schema()[6].name == "price"@,
        Table::MarketTrades.schema()[7].name == "quantity"@,
        Table::MarketTrades.schema()[8].name == "reporting_kind"@,
        Table::MarketTrades.schema()[9].name == "trade_kind"@,
        Table::MarketTrades.schema()[10].name == "aggressor_side"@,
        Table::MarketTrades.schema()[11].name == "aggressor_side_classification"@,
        Table::MarketTrades.schema()[12].name == "aster_aggregate_trade_id"@,
        Table::MarketTrades.schema()[13].name == "aster_first_trade_id"@,
        Table::MarketTrades.schema()[14].name == "aster_last_trade_id"@,
        Table::MarketTrades.schema()[15].name == "hyperliquid_block_time"@,
        Table::MarketTrades.schema()[16].name == "hyperliquid_trade_id"@,
        Table::MarketTrades.schema()[17].name == "hyperliquid_transaction_hash"@,
        Table::MarketTrades.schema()[18].name == "lighter_market_id"@,
        Table::MarketTrades.schema()[19].name == "lighter_trade_id_string"@,
        Table::MarketTrades.schema()[20].name == "lighter_message_nonce"@,
{
}

proof fn lemma_availability_columns()
    ensures
        Table::AvailabilityEvents.schema().len() == 9,
        Table::AvailabilityEvents.schema()[0].name == "capture_id"@,
        Table::AvailabilityEvents.schema()[1].name == "capture_sequence"@,
        Table::AvailabilityEvents.schema()[2].name == "venue"@,
        Table::AvailabilityEvents.schema()[3].name == "market_coin"@,
        Table::AvailabilityEvents.schema()[4].name == "stream"@,
        Table::AvailabilityEvents.schema()[5].name == "transition"@,
        Table::AvailabilityEvents.schema()[6].name == "category"@,
        Table::AvailabilityEvents.schema()[7].name == "diagnostic"@,
        Table::AvailabilityEvents.schema()[8].name == "observed_at"@,
{
}

proof fn lemma_time_columns()
    ensures
        Table::ExchangeTimes.schema().len() == 8,
        Table::ExchangeTimes.schema()[0].name == "capture_id"@,
        Table::ExchangeTimes.schema()[1].name == "capture_sequence"@,
        Table::ExchangeTimes.schema()[2].name == "venue"@,
        Table::ExchangeTimes.schema()[3].name == "market_coin"@,
        Table::ExchangeTimes.schema()[4].name == "ordinal"@,
        Table::ExchangeTimes.schema()[5].name == "kind"@,
        Table::ExchangeTimes.schema()[6].name == "raw_value"@,
        Table::ExchangeTimes.schema()[7].name == "declared_unit"@,
{
}

proof fn lemma_capture_columns()
    ensures
        Table::Captures.schema().len() == 12,
        Table::Captures.schema()[0].name == "capture_id"@,
        Table::Captures.schema()[1].name == "capture_status"@,
        Table::Captures.schema()[2].name == "utc_start_unix_millis"@,
        Table::Captures.schema()[3].name == "utc_end_unix_millis"@,
        Table::Captures.schema()[4].name == "manifest_sha256"@,
        Table::Captures.schema()[5].name == "configuration_sha256"@,
        Table::Captures.schema()[6].name == "configuration_json"@,
        Table::Captures.schema()[7].name == "disconnects"@,
        Table::Captures.schema()[8].name == "order_book_unavailable"@,
        Table::Captures.schema()[9].name == "trade_stream_gaps"@,
        Table::Captures.schema()[10].name == "invalid_messages"@,
        Table::Captures.schema()[11].name == "deduplicated_trades"@,
{
}

/// Whether a row says where it comes from: the capture, the place in it, the venue by its
/// name, and the market.
pub open spec fn says_origin(
    table: Table,
    row: Seq<CellView>,
    capture_id: Seq<char>,
    sequence: u64,
    event: EventView,
) -> bool {
    &&& says(table, row, "capture_id"@, text(capture_id))
    &&& says(table, row, "capture_sequence"@, number(sequence))
    &&& event.venue() == Venue::Aster ==> says(table, row, "venue"@, text("aster"@))
    &&& event.venue() == Venue::Binance ==> says(table, row, "venue"@, text("binance"@))
    &&& event.venue() == Venue::Hyperliquid ==> says(table, row, "venue"@, text("hyperliquid"@))
    &&& event.venue() == Venue::Lighter ==> says(table, row, "venue"@, text("lighter"@))
    &&& says(table, row, "market_coin"@, text(event.coin()))
}

/// Whether a row is that of the level at a position of a side.
pub open spec fn says_level(
    row: Seq<CellView>,
    side: Seq<char>,
    position: nat,
    level: BookLevel,
) -> bool {
    &&& says(Table::OrderBookLevels, row, "side"@, text(side))
    &&& says(Table::OrderBookLevels, row, "position"@, CellView::U32(Some(position as u32)))
    &&& says(Table::OrderBookLevels, row, "price"@, amount(level.price.units()))
    &&& says(Table::OrderBookLevels, row, "quantity"@, amount(level.quantity.units()))
    &&& says(Table::OrderBookLevels, row, "order_count"@, orders(level))
}

/// Whether some of the rows is that of the level at a position of a side.
pub open spec fn kept_in(
    rows: Seq<Seq<CellView>>,
    side: Seq<char>,
    position: nat,
    level: BookLevel,
) -> bool {
    exists|k: int| 0 <= k < rows.len() && says_level(#[trigger] rows[k], side, position, level)
}

/// Whether a row is that of some level of a side.
pub open spec fn level_of(row: Seq<CellView>, side: Seq<char>, levels: Seq<BookLevel>) -> bool {
    exists|i: int|
        0 <= i < levels.len() && says_level(row, side, i as nat, #[trigger] levels[i])
}

/// The rows of the levels of a snapshot: as many as there are levels, first the bids, then
/// the asks, each side in its order. A row whose side is "bid" is the row of a bid, and every
/// bid has such a row; a row whose side is "ask" is the row of an ask, and every ask has such
/// a row. Each has its position, price, quantity and count.
pub open spec fn levels_told(rows: Seq<Seq<CellView>>, snapshot: SnapshotView) -> bool {
    &&& rows.len() == snapshot.bids.len() + snapshot.asks.len()
    &&& forall|i: int|
        0 <= i < snapshot.bids.len() ==> says_level(
            rows[i],
            "bid"@,
            i as nat,
            #[trigger] snapshot.bids[i],
        )
    &&& forall|i: int|
        0 <= i < snapshot.asks.len() ==> says_level(
            rows[snapshot.bids.len() + i],
            "ask"@,
            i as nat,
            #[trigger] snapshot.asks[i],
        )
    &&& forall|k: int|
        0 <= k < rows.len() && says(Table::OrderBookLevels, rows[k], "side"@, text("bid"@))
            ==> level_of(#[trigger] rows[k], "bid"@, snapshot.bids)
    &&& forall|k: int|
        0 <= k < rows.len() && says(Table::OrderBookLevels, rows[k], "side"@, text("ask"@))
            ==> level_of(#[trigger] rows[k], "ask"@, snapshot.asks)
    &&& forall|i: int|
        0 <= i < snapshot.bids.len() ==> kept_in(
            rows,
            "bid"@,
            i as nat,
            #[trigger] snapshot.bids[i],
        )
    &&& forall|i: int|
        0 <= i < snapshot.asks.len() ==> kept_in(
            rows,
            "ask"@,
            i as nat,
            #[trigger] snapshot.asks[i],
        )
}

proof fn lemma_level_row(origin: Origin, side: Seq<char>, position: nat, level: BookLevel)
    requires
        level_row(origin, side, position, level) is Ok,
    ensures
        ({
            let row = level_row(origin, side, position, level)->Ok_0;
            &&& row.len() == 9
            &&& row[4] == text(side)
            &&& row[5] == CellView::U32(Some(position as u32))
            &&& row[6] == amount(level.price.units())
            &&& row[7] == amount(level.quantity.units())
            &&& row[8] == orders(level)
            &&& says_level(row, side, position, level)
        }),
{
    lemma_level_columns();
    lemma_price_value(level.price, level.price);
    lemma_quantity_value(level.quantity, level.quantity);
    let row = level_row(origin, side, position, level)->Ok_0;
    assert(Table::OrderBookLevels.schema()[4].name == "side"@ && row[4] == text(side));
    assert(Table::OrderBookLevels.schema()[5].name == "position"@);
    assert(Table::OrderBookLevels.schema()[6].name == "price"@);
    assert(Table::OrderBookLevels.schema()[7].name == "quantity"@);
    assert(Table::OrderBookLevels.schema()[8].name == "order_count"@);
}

proof fn lemma_level_names()
    ensures
        forall|i: int|
            0 <= i < 9 && (#[trigger] Table::OrderBookLevels.schema()[i]).name == "side"@ ==> i == 4,
        forall|i: int|
            0 <= i < 9 && (#[trigger] Table::OrderBookLevels.schema()[i]).name == "price"@ ==> i
                == 6,
        forall|i: int|
            0 <= i < 9 && (#[trigger] Table::OrderBookLevels.schema()[i]).name == "quantity"@ ==> i
                == 7,
        forall|i: int|
            0 <= i < 9 && (#[trigger] Table::OrderBookLevels.schema()[i]).name == "order_count"@
                ==> i == 8,
        Table::OrderBookLevels.schema().len() == 9,
        "bid"@ != "ask"@,
{
    lemma_level_columns();
    reveal_strlit("capture_id");
    reveal_strlit("capture_sequence");
    reveal_strlit("venue");
    reveal_strlit("market_coin");
    reveal_strlit("side");
    reveal_strlit("position");
    reveal_strlit("price");
    reveal_strlit("quantity");
    reveal_strlit("order_count");
    reveal_strlit("bid");
    reveal_strlit("ask");
    assert("bid"@[0] == 'b');
    assert("ask"@[0] == 'a');
    assert("capture_id"@.len() == 10);
    assert("capture_sequence"@.len() == 16);
    assert("venue"@[0] == 'v');
    assert("market_coin"@[0] == 'm');
    assert("side"@[0] == 's');
    assert("position"@[1] == 'o');
    assert("price"@[1] == 'r');
    assert("quantity"@[0] == 'q');
    assert("order_count"@[0] == 'o');
}

/// The level rows of a snapshot say its bids and its asks, and nothing else.
pub proof fn lemma_level_rows_say_book(
    capture_id: Seq<char>,
    sequence: u64,
    snapshot: SnapshotView,
)
    requires
        event_rows(capture_id, sequence, EventView::OrderBookSnapshot(snapshot)) is Ok,
    ensures
        levels_told(
            event_rows(capture_id, sequence, EventView::OrderBookSnapshot(snapshot))->Ok_0.levels,
            snapshot,
        ),
{
    let event = EventView::OrderBookSnapshot(snapshot);
    let origin = origin_of(capture_id, sequence, event);
    let rows = snapshot_levels(origin, snapshot)->Ok_0;
    let bids = snapshot.bids;
    let asks = snapshot.asks;
    lemma_read_all_items(bids, level_rows_of(origin, "bid"@));
    lemma_read_all_items(asks, level_rows_of(origin, "ask"@));
    lemma_level_names();
    assert forall|i: int| 0 <= i < bids.len() implies rows[i].len() == 9 && rows[i][4] == text(
        "bid"@,
    ) && says_level(rows[i], "bid"@, i as nat, #[trigger] bids[i]) by {
        assert(level_rows_of(origin, "bid"@)(i, bids[i]) == Ok::<Seq<CellView>, ExportErrorView>(
            rows[i],
        ));
        lemma_level_row(origin, "bid"@, i as nat, bids[i]);
    }
    assert forall|i: int| 0 <= i < asks.len() implies rows[bids.len() + i].len() == 9
        && rows[bids.len() + i][4] == text("ask"@) && says_level(
        rows[bids.len() + i],
        "ask"@,
        i as nat,
        #[trigger] asks[i],
    ) by {
        assert(level_rows_of(origin, "ask"@)(i, asks[i]) == Ok::<Seq<CellView>, ExportErrorView>(
            rows[bids.len() + i],
        ));
        lemma_level_row(origin, "ask"@, i as nat, asks[i]);
    }
    assert forall|k: int|
        0 <= k < rows.len() && says(
            Table::OrderBookLevels,
            rows[k],
            "side"@,
            text("bid"@),
        ) implies level_of(#[trigger] rows[k], "bid"@, bids) by {
        if k >= bids.len() {
            let i = k - bids.len();
            assert(says_level(rows[bids.len() + i], "ask"@, i as nat, asks[i]));
            assert(rows[k][4] == text("ask"@));
        } else {
            assert(says_level(rows[k], "bid"@, k as nat, bids[k]));
        }
    }
    assert forall|k: int|
        0 <= k < rows.len() && says(
            Table::OrderBookLevels,
            rows[k],
            "side"@,
            text("ask"@),
        ) implies level_of(#[trigger] rows[k], "ask"@, asks) by {
        if k < bids.len() {
            assert(says_level(rows[k], "bid"@, k as nat, bids[k]));
            assert(rows[k][4] == text("bid"@));
        } else {
            let i = k - bids.len();
            assert(says_level(rows[bids.len() + i], "ask"@, i as nat, asks[i]));
        }
    }
    assert forall|i: int| 0 <= i < bids.len() implies kept_in(
        rows,
        "bid"@,
        i as nat,
        #[trigger] bids[i],
    ) by {
        assert(says_level(rows[i], "bid"@, i as nat, bids[i]));
    }
    assert forall|i: int| 0 <= i < asks.len() implies kept_in(
        rows,
        "ask"@,
        i as nat,
        #[trigger] asks[i],
    ) by {
        assert(says_level(rows[bids.len() + i], "ask"@, i as nat, asks[i]));
    }
}

proof fn lemma_same_level_row(
    row: Seq<CellView>,
    side: Seq<char>,
    position: nat,
    left: BookLevel,
    right: BookLevel,
)
    requires
        says_level(row, side, position, left),
        says_level(row, side, position, right),
        row.len() == 9,
        left.valid(),
        right.valid(),
    ensures
        left == right,
{
    lemma_level_names();
    lemma_price_value(left.price, right.price);
    lemma_price_value(right.price, left.price);
    lemma_quantity_value(left.quantity, right.quantity);
    lemma_quantity_value(right.quantity, left.quantity);
    lemma_units_in_range(left);
    lemma_units_in_range(right);
    assert(row[6] == amount(left.price.units()) && row[6] == amount(right.price.units()));
    assert(row[7] == amount(left.quantity.units()) && row[7] == amount(right.quantity.units()));
    assert(row[8] == orders(left) && row[8] == orders(right));
    if let (Some(count), Some(other)) = (left.order_count, right.order_count) {
        lemma_order_count(count, other);
    }
}

proof fn lemma_units_in_range(level: BookLevel)
    requires
        level.valid(),
    ensures
        0 < level.price.units() <= i128::MAX,
        0 < level.quantity.units() <= i128::MAX,
{
    lemma_price_value(level.price, level.price);
    lemma_quantity_value(level.quantity, level.quantity);
}

/// The exported levels determine the book: two snapshots with the same level rows have the
/// same bids and the same asks.
pub proof fn lemma_level_rows_determine_book(
    capture_id: Seq<char>,
    sequence: u64,
    left: SnapshotView,
    right: SnapshotView,
)
    requires
        left.valid(),
        right.valid(),
        event_rows(capture_id, sequence, EventView::OrderBookSnapshot(left)) is Ok,
        event_rows(capture_id, sequence, EventView::OrderBookSnapshot(right)) is Ok,
        event_rows(capture_id, sequence, EventView::OrderBookSnapshot(left))->Ok_0.levels
            == event_rows(capture_id, sequence, EventView::OrderBookSnapshot(right))->Ok_0.levels,
    ensures
        left.bids == right.bids,
        left.asks == right.asks,
{
    let rows = event_rows(capture_id, sequence, EventView::OrderBookSnapshot(left))->Ok_0.levels;
    lemma_level_rows_say_book(capture_id, sequence, left);
    lemma_level_rows_say_book(capture_id, sequence, right);
    lemma_level_names();
    lemma_level_rows_say_origin(capture_id, sequence, left);
    if left.bids.len() < right.bids.len() {
        let i = left.bids.len() as int;
        assert(says_level(rows[i], "bid"@, i as nat, right.bids[i]));
        assert(says_level(rows[i], "ask"@, 0, left.asks[0]));
        assert(rows[i].len() == 9);
    } else if right.bids.len() < left.bids.len() {
        let i = right.bids.len() as int;
        assert(says_level(rows[i], "bid"@, i as nat, left.bids[i]));
        assert(says_level(rows[i], "ask"@, 0, right.asks[0]));
        assert(rows[i].len() == 9);
    }
    assert forall|i: int| 0 <= i < left.bids.len() implies left.bids[i] == right.bids[i] by {
        assert(says_level(rows[i], "bid"@, i as nat, left.bids[i]));
        assert(says_level(rows[i], "bid"@, i as nat, right.bids[i]));
        lemma_same_level_row(rows[i], "bid"@, i as nat, left.bids[i], right.bids[i]);
    }
    assert forall|i: int| 0 <= i < left.asks.len() implies left.asks[i] == right.asks[i] by {
        let k = left.bids.len() + i;
        assert(says_level(rows[k], "ask"@, i as nat, left.asks[i]));
        assert(says_level(rows[k], "ask"@, i as nat, right.asks[i]));
        lemma_same_level_row(rows[k], "ask"@, i as nat, left.asks[i], right.asks[i]);
    }
    assert(left.bids =~= right.bids);
    assert(left.asks =~= right.asks);
}

proof fn lemma_level_origin(
    capture_id: Seq<char>,
    sequence: u64,
    event: EventView,
    side: Seq<char>,
    position: nat,
    level: BookLevel,
)
    requires
        level_row(origin_of(capture_id, sequence, event), side, position, level) is Ok,
    ensures
        says_origin(
            Table::OrderBookLevels,
            level_row(origin_of(capture_id, sequence, event), side, position, level)->Ok_0,
            capture_id,
            sequence,
            event,
        ),
{
    lemma_level_columns();
}

/// Every level row of a snapshot has a cell for each column and says where it comes from.
pub proof fn lemma_level_rows_say_origin(capture_id: Seq<char>, sequence: u64, snapshot: SnapshotView)
    requires
        event_rows(capture_id, sequence, EventView::OrderBookSnapshot(snapshot)) is Ok,
    ensures
        ({
            let event = EventView::OrderBookSnapshot(snapshot);
            let rows = event_rows(capture_id, sequence, event)->Ok_0.levels;
            &&& forall|k: int| 0 <= k < rows.len() ==> (#[trigger] rows[k]).len() == 9
            &&& forall|k: int|
                0 <= k < rows.len() ==> says_origin(
                    Table::OrderBookLevels,
                    #[trigger] rows[k],
                    capture_id,
                    sequence,
                    event,
                )
        }),
{
    let event = EventView::OrderBookSnapshot(snapshot);
    let origin = origin_of(capture_id, sequence, event);
    let rows = snapshot_levels(origin, snapshot)->Ok_0;
    let bids = snapshot.bids;
    let asks = snapshot.asks;
    lemma_read_all_items(bids, level_rows_of(origin, "bid"@));
    lemma_read_all_items(asks, level_rows_of(origin, "ask"@));
    assert forall|k: int| 0 <= k < rows.len() implies (#[trigger] rows[k]).len() == 9
        && says_origin(Table::OrderBookLevels, rows[k], capture_id, sequence, event) by {
        if k < bids.len() {
            assert(level_rows_of(origin, "bid"@)(k, bids[k]) == Ok::<
                Seq<CellView>,
                ExportErrorView,
            >(rows[k]));
            lemma_level_row(origin, "bid"@, k as nat, bids[k]);
            lemma_level_origin(capture_id, sequence, event, "bid"@, k as nat, bids[k]);
        } else {
            let i = k - bids.len();
            assert(level_rows_of(origin, "ask"@)(i, asks[i]) == Ok::<
                Seq<CellView>,
                ExportErrorView,
            >(rows[k]));
            lemma_level_row(origin, "ask"@, i as nat, asks[i]);
            lemma_level_origin(capture_id, sequence, event, "ask"@, i as nat, asks[i]);
        }
    }
}

/// The name of a kind of time in a dataset.
pub open spec fn time_kind(kind: ExchangeTimeKind) -> Seq<char> {
    match kind {
        ExchangeTimeKind::EventTime => "EventTime"@,
        ExchangeTimeKind::TradeTime => "TradeTime"@,
        ExchangeTimeKind::BlockTime => "BlockTime"@,
        ExchangeTimeKind::TransactionTime => "TransactionTime"@,
        ExchangeTimeKind::Other => "Other"@,
    }
}

/// The name of a unit of time in a dataset.
pub open spec fn time_unit(unit: ExchangeTimeUnit) -> Seq<char> {
    match unit {
        ExchangeTimeUnit::Milliseconds => "Milliseconds"@,
        ExchangeTimeUnit::Microseconds => "Microseconds"@,
        ExchangeTimeUnit::Nanoseconds => "Nanoseconds"@,
        ExchangeTimeUnit::Unknown => "Unknown"@,
    }
}

/// Whether a row is that of the time at a place among those that a venue stated.
pub open spec fn says_time(row: Seq<CellView>, ordinal: int, time: ExchangeTimeObservation) -> bool {
    &&& says(Table::ExchangeTimes, row, "ordinal"@, CellView::U32(Some(ordinal as u32)))
    &&& says(Table::ExchangeTimes, row, "kind"@, text(time_kind(time.kind)))
    &&& says(Table::ExchangeTimes, row, "raw_value"@, number(time.raw_value))
    &&& says(Table::ExchangeTimes, row, "declared_unit"@, text(time_unit(time.declared_unit)))
}

/// Whether rows are those of the times that a venue stated, each once and in their order.
pub open spec fn times_told(
    rows: Seq<Seq<CellView>>,
    capture_id: Seq<char>,
    sequence: u64,
    event: EventView,
    times: Seq<ExchangeTimeObservation>,
) -> bool {
    &&& rows.len() == times.len()
    &&& forall|i: int|
        0 <= i < rows.len() ==> says_time(#[trigger] rows[i], i, times[i]) && says_origin(
            Table::ExchangeTimes,
            rows[i],
            capture_id,
            sequence,
            event,
        )
}

proof fn lemma_times_told(
    capture_id: Seq<char>,
    sequence: u64,
    event: EventView,
    times: Seq<ExchangeTimeObservation>,
)
    requires
        time_rows(origin_of(capture_id, sequence, event), times) is Ok,
    ensures
        times_told(
            time_rows(origin_of(capture_id, sequence, event), times)->Ok_0,
            capture_id,
            sequence,
            event,
            times,
        ),
{
    let rows = time_rows(origin_of(capture_id, sequence, event), times)->Ok_0;
    assert forall|i: int| 0 <= i < rows.len() implies says_time(#[trigger] rows[i], i, times[i])
        && says_origin(Table::ExchangeTimes, rows[i], capture_id, sequence, event) by {
        lemma_time_columns();
        let row = rows[i];
        assert(row == time_row(origin_of(capture_id, sequence, event), i, times[i]));
    }
}

/// Whether a row is that of a snapshot: its times, its number and its depth.
pub open spec fn says_snapshot(
    row: Seq<CellView>,
    capture_id: Seq<char>,
    sequence: u64,
    snapshot: SnapshotView,
) -> bool {
    let event = EventView::OrderBookSnapshot(snapshot);
    let table = Table::OrderBookEvents;
    &&& says_origin(table, row, capture_id, sequence, event)
    &&& says(table, row, "local_receive_time"@, number(snapshot.timestamps.local_receive.0))
    &&& says(
        table,
        row,
        "processing_completion_time"@,
        number(snapshot.timestamps.processing_completed.0),
    )
    &&& says(table, row, "source_sequence"@, CellView::U64(snapshot.source_sequence))
    &&& says(table, row, "bid_count"@, CellView::U32(Some(snapshot.bids.len() as u32)))
    &&& says(table, row, "ask_count"@, CellView::U32(Some(snapshot.asks.len() as u32)))
    &&& snapshot.bids.len() <= u32::MAX
    &&& snapshot.asks.len() <= u32::MAX
}

proof fn lemma_snapshot_row(capture_id: Seq<char>, sequence: u64, snapshot: SnapshotView)
    requires
        snapshot_row(
            origin_of(capture_id, sequence, EventView::OrderBookSnapshot(snapshot)),
            snapshot,
        ) is Ok,
    ensures
        says_snapshot(
            snapshot_row(
                origin_of(capture_id, sequence, EventView::OrderBookSnapshot(snapshot)),
                snapshot,
            )->Ok_0,
            capture_id,
            sequence,
            snapshot,
        ),
{
    lemma_book_columns();
}

/// A snapshot is exported as it is: one row with its times, number and depth, one for each
/// level, and one for each time that the venue stated.
pub proof fn lemma_snapshot_rows_say(capture_id: Seq<char>, sequence: u64, snapshot: SnapshotView)
    requires
        event_rows(capture_id, sequence, EventView::OrderBookSnapshot(snapshot)) is Ok,
    ensures
        ({
            let event = EventView::OrderBookSnapshot(snapshot);
            let rows = event_rows(capture_id, sequence, event)->Ok_0;
            &&& rows.table == Table::OrderBookEvents
            &&& says_snapshot(rows.row, capture_id, sequence, snapshot)
            &&& levels_told(rows.levels, snapshot)
            &&& times_told(
                rows.times,
                capture_id,
                sequence,
                event,
                snapshot.timestamps.exchange_times,
            )
        }),
{
    let event = EventView::OrderBookSnapshot(snapshot);
    let rows = event_rows(capture_id, sequence, event)->Ok_0;
    assert(says_snapshot(rows.row, capture_id, sequence, snapshot)) by {
        lemma_snapshot_row(capture_id, sequence, snapshot);
    }
    assert(levels_told(rows.levels, snapshot)) by {
        lemma_level_rows_say_book(capture_id, sequence, snapshot);
    }
    assert(times_told(
        rows.times,
        capture_id,
        sequence,
        event,
        snapshot.timestamps.exchange_times,
    )) by {
        lemma_times_told(capture_id, sequence, event, snapshot.timestamps.exchange_times);
    }
}

/// Whether a row says a quoted side: its price, quantity and count, or nothing where it is
/// absent.
pub open spec fn says_quote(
    row: Seq<CellView>,
    price: Seq<char>,
    quantity: Seq<char>,
    count: Seq<char>,
    side: Option<BookLevel>,
) -> bool {
    match side {
        Some(level) => {
            &&& says(Table::BestBidOffers, row, price, amount(level.price.units()))
            &&& says(Table::BestBidOffers, row, quantity, amount(level.quantity.units()))
            &&& says(Table::BestBidOffers, row, count, orders(level))
        },
        None => {
            &&& says(Table::BestBidOffers, row, price, CellView::Decimal(None))
            &&& says(Table::BestBidOffers, row, quantity, CellView::Decimal(None))
            &&& says(Table::BestBidOffers, row, count, CellView::U32(None))
        },
    }
}

/// Whether rows are those of a best bid and offer: the bid in the columns of the bid and the
/// ask in those of the ask.
pub open spec fn offer_told(
    rows: RowsView,
    capture_id: Seq<char>,
    sequence: u64,
    bbo: BboView,
) -> bool {
    let event = EventView::BestBidOfferUpdated(bbo);
    let table = Table::BestBidOffers;
    &&& rows.table == table
    &&& says_origin(table, rows.row, capture_id, sequence, event)
    &&& says(table, rows.row, "local_receive_time"@, number(bbo.timestamps.local_receive.0))
    &&& says(
        table,
        rows.row,
        "processing_completion_time"@,
        number(bbo.timestamps.processing_completed.0),
    )
    &&& says_quote(
        rows.row,
        "best_bid_price"@,
        "best_bid_quantity"@,
        "best_bid_order_count"@,
        bbo.bid,
    )
    &&& says_quote(
        rows.row,
        "best_ask_price"@,
        "best_ask_quantity"@,
        "best_ask_order_count"@,
        bbo.ask,
    )
    &&& rows.levels.len() == 0
    &&& times_told(rows.times, capture_id, sequence, event, bbo.timestamps.exchange_times)
}

/// A best bid and offer is exported as it is, an absent side as absent.
pub proof fn lemma_offer_row_says(capture_id: Seq<char>, sequence: u64, bbo: BboView)
    requires
        event_rows(capture_id, sequence, EventView::BestBidOfferUpdated(bbo)) is Ok,
    ensures
        offer_told(
            event_rows(capture_id, sequence, EventView::BestBidOfferUpdated(bbo))->Ok_0,
            capture_id,
            sequence,
            bbo,
        ),
{
    let event = EventView::BestBidOfferUpdated(bbo);
    let origin = origin_of(capture_id, sequence, event);
    lemma_offer_columns();
    lemma_times_told(capture_id, sequence, event, bbo.timestamps.exchange_times);
    if let Some(level) = bbo.bid {
        lemma_price_value(level.price, level.price);
        lemma_quantity_value(level.quantity, level.quantity);
    }
    if let Some(level) = bbo.ask {
        lemma_price_value(level.price, level.price);
        lemma_quantity_value(level.quantity, level.quantity);
    }
    let row = event_rows(capture_id, sequence, event)->Ok_0.row;
    let bid = offer_cells(bbo.bid)->Ok_0;
    let ask = offer_cells(bbo.ask)->Ok_0;
    assert(row == bbo_row(origin, bbo)->Ok_0);
    assert(row[6] == bid[0] && row[7] == bid[1] && row[8] == bid[2]);
    assert(row[9] == ask[0] && row[10] == ask[1] && row[11] == ask[2]);
}

/// The name of a reporting kind in a dataset.
pub open spec fn reporting_kind(kind: MarketTradeReportingKind) -> Seq<char> {
    match kind {
        MarketTradeReportingKind::Individual => "Individual"@,
        MarketTradeReportingKind::TakerOrderAggregate => "TakerOrderAggregate"@,
    }
}

/// The name of a trade kind in a dataset.
pub open spec fn trade_kind(kind: MarketTradeKind) -> Seq<char> {
    match kind {
        MarketTradeKind::Regular => "Regular"@,
        MarketTradeKind::Liquidation => "Liquidation"@,
        MarketTradeKind::Deleverage => "Deleverage"@,
        MarketTradeKind::MarketSettlement => "MarketSettlement"@,
        MarketTradeKind::Other => "Other"@,
    }
}

/// The name of an aggressor side in a dataset.
pub open spec fn aggressor(side: AggressorSide) -> Seq<char> {
    match side {
        AggressorSide::Buy => "Buy"@,
        AggressorSide::Sell => "Sell"@,
        AggressorSide::Unknown => "Unknown"@,
    }
}

/// The name of how an aggressor side is known in a dataset.
pub open spec fn classification(kind: AggressorSideClassification) -> Seq<char> {
    match kind {
        AggressorSideClassification::VenueProvided => "VenueProvided"@,
        AggressorSideClassification::DerivedFromMakerSide => "DerivedFromMakerSide"@,
        AggressorSideClassification::Unknown => "Unknown"@,
    }
}

/// Whether a row identifies a trade in the columns of its venue, those of the others left
/// empty. Binance and Aster number their trades alike and share columns.
pub open spec fn says_identity(row: Seq<CellView>, identity: IdentityView) -> bool {
    let table = Table::MarketTrades;
    let (aggregate, first, last) = match identity {
        IdentityView::Aster { aggregate_trade_id, first_trade_id, last_trade_id } => (
            Some(aggregate_trade_id),
            Some(first_trade_id),
            Some(last_trade_id),
        ),
        IdentityView::Binance { aggregate_trade_id, first_trade_id, last_trade_id } => (
            Some(aggregate_trade_id),
            Some(first_trade_id),
            Some(last_trade_id),
        ),
        _ => (None, None, None),
    };
    let (block_time, trade_id, hash) = match identity {
        IdentityView::Hyperliquid { block_time, trade_id, transaction_hash } => (
            Some(block_time),
            Some(trade_id),
            Some(transaction_hash),
        ),
        _ => (None, None, None),
    };
    let (market_id, id_text, nonce) = match identity {
        IdentityView::Lighter { market_id, trade_id, message_nonce } => (
            Some(market_id),
            Some(trade_id),
            message_nonce,
        ),
        _ => (None, None, None),
    };
    &&& says(table, row, "aster_aggregate_trade_id"@, CellView::U64(aggregate))
    &&& says(table, row, "aster_first_trade_id"@, CellView::U64(first))
    &&& says(table, row, "aster_last_trade_id"@, CellView::U64(last))
    &&& says(table, row, "hyperliquid_block_time"@, CellView::U64(block_time))
    &&& says(table, row, "hyperliquid_trade_id"@, CellView::U64(trade_id))
    &&& says(table, row, "hyperliquid_transaction_hash"@, CellView::Text(hash))
    &&& says(table, row, "lighter_market_id"@, CellView::U32(market_id))
    &&& says(table, row, "lighter_trade_id_string"@, CellView::Text(id_text))
    &&& says(table, row, "lighter_message_nonce"@, CellView::U64(nonce))
}

/// Whether rows are those of a trade.
pub open spec fn trade_told(
    rows: RowsView,
    capture_id: Seq<char>,
    sequence: u64,
    trade: TradeView,
) -> bool {
    let event = EventView::MarketTrade(trade);
    let table = Table::MarketTrades;
    &&& rows.table == table
    &&& says_origin(table, rows.row, capture_id, sequence, event)
    &&& says(table, rows.row, "local_receive_time"@, number(trade.timestamps.local_receive.0))
    &&& says(
        table,
        rows.row,
        "processing_completion_time"@,
        number(trade.timestamps.processing_completed.0),
    )
    &&& says(table, rows.row, "price"@, amount(trade.price.units()))
    &&& says(table, rows.row, "quantity"@, amount(trade.quantity.units()))
    &&& says(table, rows.row, "reporting_kind"@, text(reporting_kind(trade.reporting_kind)))
    &&& says(table, rows.row, "trade_kind"@, text(trade_kind(trade.trade_kind)))
    &&& says(table, rows.row, "aggressor_side"@, text(aggressor(trade.aggressor_side)))
    &&& says(
        table,
        rows.row,
        "aggressor_side_classification"@,
        text(classification(trade.aggressor_side_classification)),
    )
    &&& says_identity(rows.row, trade.identity)
    &&& rows.levels.len() == 0
    &&& times_told(rows.times, capture_id, sequence, event, trade.timestamps.exchange_times)
}

/// A trade is exported as it is.
pub proof fn lemma_trade_row_says(capture_id: Seq<char>, sequence: u64, trade: TradeView)
    requires
        event_rows(capture_id, sequence, EventView::MarketTrade(trade)) is Ok,
    ensures
        trade_told(
            event_rows(capture_id, sequence, EventView::MarketTrade(trade))->Ok_0,
            capture_id,
            sequence,
            trade,
        ),
{
    let event = EventView::MarketTrade(trade);
    let origin = origin_of(capture_id, sequence, event);
    lemma_trade_columns();
    lemma_times_told(capture_id, sequence, event, trade.timestamps.exchange_times);
    lemma_price_value(trade.price, trade.price);
    lemma_quantity_value(trade.quantity, trade.quantity);
    let row = event_rows(capture_id, sequence, event)->Ok_0.row;
    let identity = identity_cells(trade.identity);
    assert(row == trade_row(origin, trade)->Ok_0);
    assert(row[12] == identity[0] && row[13] == identity[1] && row[14] == identity[2]);
    assert(row[15] == identity[3] && row[16] == identity[4] && row[17] == identity[5]);
    assert(row[18] == identity[6] && row[19] == identity[7] && row[20] == identity[8]);
}

/// The name of why market data is unavailable in a dataset.
pub open spec fn category(category: UnavailabilityCategory) -> Seq<char> {
    match category {
        UnavailabilityCategory::Disconnected => "Disconnected"@,
        UnavailabilityCategory::InvalidMarketData => "InvalidMarketData"@,
        UnavailabilityCategory::SequenceGap => "SequenceGap"@,
        UnavailabilityCategory::RecorderShutdown => "RecorderShutdown"@,
        UnavailabilityCategory::Other => "Other"@,
    }
}

/// Whether rows are those of a stream that became unavailable.
pub open spec fn interruption_told(
    rows: RowsView,
    capture_id: Seq<char>,
    sequence: u64,
    event: EventView,
    stream: Seq<char>,
    unavailable: UnavailableView,
) -> bool {
    let table = Table::AvailabilityEvents;
    &&& rows.table == table
    &&& says_origin(table, rows.row, capture_id, sequence, event)
    &&& says(table, rows.row, "stream"@, text(stream))
    &&& says(table, rows.row, "transition"@, text("unavailable"@))
    &&& says(table, rows.row, "category"@, text(category(unavailable.category)))
    &&& says(table, rows.row, "diagnostic"@, text(unavailable.diagnostic))
    &&& says(table, rows.row, "observed_at"@, number(unavailable.observed_at.0))
    &&& rows.levels.len() == 0
    &&& rows.times.len() == 0
}

/// Interruptions of books and of trade streams are exported as they are, each under the
/// stream that it is about, and so is the return of a trade stream.
pub proof fn lemma_availability_rows_say(
    capture_id: Seq<char>,
    sequence: u64,
    unavailable: UnavailableView,
    resumed: ResumedView,
)
    ensures
        ({
            let book = EventView::OrderBookUnavailable(unavailable);
            let trades = EventView::TradeStreamUnavailable(unavailable);
            let back = EventView::TradeStreamResumed(resumed);
            let table = Table::AvailabilityEvents;
            &&& event_rows(capture_id, sequence, book) matches Ok(rows) && interruption_told(
                rows,
                capture_id,
                sequence,
                book,
                "order_book"@,
                unavailable,
            )
            &&& event_rows(capture_id, sequence, trades) matches Ok(rows) && interruption_told(
                rows,
                capture_id,
                sequence,
                trades,
                "trade_stream"@,
                unavailable,
            )
            &&& event_rows(capture_id, sequence, back) matches Ok(rows) && {
                &&& rows.table == table
                &&& says_origin(table, rows.row, capture_id, sequence, back)
                &&& says(table, rows.row, "stream"@, text("trade_stream"@))
                &&& says(table, rows.row, "transition"@, text("resumed"@))
                &&& says(table, rows.row, "category"@, CellView::Text(None))
                &&& says(table, rows.row, "diagnostic"@, CellView::Text(None))
                &&& says(table, rows.row, "observed_at"@, number(resumed.observed_at.0))
                &&& rows.levels.len() == 0
                &&& rows.times.len() == 0
            }
        }),
{
    lemma_availability_columns();
}

/// The row of a capture says the manifest's times, digests, status and data-quality counters.
pub proof fn lemma_capture_row_says(
    capture_id: Seq<char>,
    manifest: ManifestView,
    manifest_sha256: Seq<char>,
    configuration: Seq<char>,
)
    ensures
        ({
            let table = Table::Captures;
            let row = capture_row(capture_id, manifest, manifest_sha256, configuration);
            let quality = manifest.data_quality;
            &&& says(table, row, "capture_id"@, text(capture_id))
            &&& says(
                table,
                row,
                "utc_start_unix_millis"@,
                number(manifest.utc_start_unix_millis),
            )
            &&& says(
                table,
                row,
                "utc_end_unix_millis"@,
                CellView::U64(manifest.utc_end_unix_millis),
            )
            &&& says(table, row, "manifest_sha256"@, text(manifest_sha256))
            &&& says(
                table,
                row,
                "configuration_sha256"@,
                text(manifest.configuration_sha256),
            )
            &&& says(table, row, "configuration_json"@, text(configuration))
            &&& says(table, row, "disconnects"@, number(quality.disconnects))
            &&& says(
                table,
                row,
                "order_book_unavailable"@,
                number(quality.order_book_unavailable),
            )
            &&& says(table, row, "trade_stream_gaps"@, number(quality.trade_stream_gaps))
            &&& says(table, row, "invalid_messages"@, number(quality.invalid_messages))
            &&& says(table, row, "deduplicated_trades"@, number(quality.deduplicated_trades))
            &&& manifest.capture_status == CaptureStatus::Complete ==> says(
                table,
                row,
                "capture_status"@,
                text("complete"@),
            )
            &&& manifest.capture_status == CaptureStatus::IncompleteQueueFull ==> says(
                table,
                row,
                "capture_status"@,
                text("incomplete_queue_full"@),
            )
            &&& manifest.capture_status == CaptureStatus::IncompleteProcessCrash ==> says(
                table,
                row,
                "capture_status"@,
                text("incomplete_process_crash"@),
            )
            &&& manifest.capture_status == CaptureStatus::IncompleteIoError ==> says(
                table,
                row,
                "capture_status"@,
                text("incomplete_io_error"@),
            )
        }),
{
    lemma_capture_columns();
}

/// Whether an amount in units of the last of 18 digits behind the point has at most 38
/// digits.
pub open spec fn fits(units: int) -> bool {
    units < 100_000_000_000_000_000_000_000_000_000_000_000_000
}

/// Whether price and quantity of a level have at most 38 digits each.
pub open spec fn level_fits(level: BookLevel) -> bool {
    fits(level.price.units()) && fits(level.quantity.units())
}

/// Whether an event has a place in a dataset: all its amounts fit, no side has more levels
/// than can be counted, and the venue stated no more times than can be counted.
pub open spec fn exportable(event: EventView) -> bool {
    match event {
        EventView::OrderBookSnapshot(snapshot) => {
            &&& snapshot.bids.len() <= u32::MAX
            &&& snapshot.asks.len() <= u32::MAX
            &&& forall|i: int|
                0 <= i < snapshot.bids.len() ==> level_fits(#[trigger] snapshot.bids[i])
            &&& forall|i: int|
                0 <= i < snapshot.asks.len() ==> level_fits(#[trigger] snapshot.asks[i])
            &&& snapshot.timestamps.exchange_times.len() <= 0x1_0000_0000
        },
        EventView::BestBidOfferUpdated(bbo) => {
            &&& bbo.bid is Some ==> level_fits(bbo.bid->Some_0)
            &&& bbo.ask is Some ==> level_fits(bbo.ask->Some_0)
            &&& bbo.timestamps.exchange_times.len() <= 0x1_0000_0000
        },
        EventView::MarketTrade(trade) => {
            &&& fits(trade.price.units())
            &&& fits(trade.quantity.units())
            &&& trade.timestamps.exchange_times.len() <= 0x1_0000_0000
        },
        _ => true,
    }
}

proof fn lemma_level_exportable(level: BookLevel)
    requires
        level.price.valid(),
        level.quantity.valid(),
    ensures
        level_amounts(level) is Ok <==> level_fits(level),
{
    lemma_price_value(level.price, level.price);
    lemma_quantity_value(level.quantity, level.quantity);
}

proof fn lemma_side_exportable(origin: Origin, side: Seq<char>, levels: Seq<BookLevel>)
    requires
        levels_valid(levels),
    ensures
        read_all(levels, level_rows_of(origin, side)) is Ok <==> forall|i: int|
            0 <= i < levels.len() ==> level_fits(#[trigger] levels[i]),
{
    lemma_read_all_items(levels, level_rows_of(origin, side));
    assert forall|i: int| 0 <= i < levels.len() implies (level_rows_of(origin, side)(
        i,
        #[trigger] levels[i],
    ) is Ok <==> level_fits(levels[i])) by {
        lemma_level_exportable(levels[i]);
    }
}

/// An event is exported exactly if it has a place in a dataset: nothing else is refused, and
/// nothing is rounded or cut to make it fit.
pub proof fn lemma_exported_if_it_fits(capture_id: Seq<char>, sequence: u64, event: EventView)
    requires
        event.valid(),
    ensures
        event_rows(capture_id, sequence, event) is Ok <==> exportable(event),
{
    let origin = origin_of(capture_id, sequence, event);
    match event {
        EventView::OrderBookSnapshot(snapshot) => {
            lemma_side_exportable(origin, "bid"@, snapshot.bids);
            lemma_side_exportable(origin, "ask"@, snapshot.asks);
        },
        EventView::BestBidOfferUpdated(bbo) => {
            if let Some(level) = bbo.bid {
                lemma_level_exportable(level);
            }
            if let Some(level) = bbo.ask {
                lemma_level_exportable(level);
            }
        },
        EventView::MarketTrade(trade) => {
            lemma_level_exportable(
                BookLevel { price: trade.price, quantity: trade.quantity, order_count: None },
            );
        },
        _ => {},
    }
}

} // verus!
