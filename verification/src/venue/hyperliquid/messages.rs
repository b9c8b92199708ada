//! What Hyperliquid's messages say: how the fields of a message become the fields of what is
//! published.
use vstd::prelude::*;

use crate::domain::decimal::DecimalParseError;
use crate::domain::symbol::market_coin_error;
use crate::domain::{Price, Quantity, Venue};
use crate::market_data::event::{
    AggressorSide, AggressorSideClassification, BboView, EventView, ExchangeTimeKind,
    ExchangeTimeUnit, IdentityView, MarketTradeKind, MarketTradeReportingKind, TradeView,
};
use crate::market_data::order_book::{
    ascending, descending, lemma_order_count_exists, lemma_snapshot_holds_levels, levels_valid,
    SnapshotView,
};
use crate::market_data::{BookLevel, LocalObservationTime};
use crate::venue::action::ActionView;
use crate::venue::hyperliquid::wire::{
    bbo_reading, bbo_value, book_fields, book_payload, count_of, level_reader, level_reading,
    level_value, level_value_reader, side_reading, side_value, trade_value, trade_value_reader,
    trades_value, WireLevelView, WireTradeView,
};
use crate::venue::hyperliquid::{envelope, identified_trade, HyperliquidView};
use crate::venue::levels::BookSide;
use crate::venue::streams::event_times;
use crate::venue::wire::{
    field, lemma_all_of_items, lemma_first_place, lemma_price_read, lemma_quantity_read,
    lemma_read_all_items, member, price_reading, quantity_reading, JsonView,
};

verus! {

/// A field, by its key or by its place, is a text.
pub open spec fn has_text(value: JsonView, key: Seq<char>, place: nat, text: Seq<char>) -> bool {
    field(value, key, place) == Some(JsonView::Text(text))
}

/// A field, by its key or by its place, is an integer that is not negative and fits in 64
/// bits.
pub open spec fn has_number(value: JsonView, key: Seq<char>, place: nat, number: u64) -> bool {
    &&& field(value, key, place) matches Some(JsonView::Number { unsigned, .. })
    &&& unsigned == Some(number)
}

/// A field, by its key or by its place, is a text that writes a price.
pub open spec fn has_price(value: JsonView, key: Seq<char>, place: nat, price: Price) -> bool {
    &&& field(value, key, place) matches Some(JsonView::Text(text))
    &&& price_reading(text) == Ok::<Price, DecimalParseError>(price)
}

/// A field, by its key or by its place, is a text that writes a quantity.
pub open spec fn has_quantity(
    value: JsonView,
    key: Seq<char>,
    place: nat,
    quantity: Quantity,
) -> bool {
    &&& field(value, key, place) matches Some(JsonView::Text(text))
    &&& quantity_reading(text) == Ok::<Quantity, DecimalParseError>(quantity)
}

/// Whether a trade is what a delivered trade says. The side "B" is a buyer that is the
/// aggressor and "A" a seller; any other side leaves the aggressor unknown.
pub open spec fn tells_trade(value: JsonView, trade: TradeView) -> bool {
    &&& trade.aggressor_side == AggressorSide::Buy <==> has_text(value, "side"@, 1, "B"@)
    &&& trade.aggressor_side == AggressorSide::Sell <==> has_text(value, "side"@, 1, "A"@)
    &&& trade.aggressor_side_classification == AggressorSideClassification::VenueProvided <==> (
    has_text(value, "side"@, 1, "B"@) || has_text(value, "side"@, 1, "A"@))
    &&& trade.aggressor_side_classification == AggressorSideClassification::VenueProvided
        || trade.aggressor_side_classification == AggressorSideClassification::Unknown
    &&& has_text(value, "coin"@, 0, trade.coin)
    &&& has_price(value, "px"@, 2, trade.price)
    &&& has_quantity(value, "sz"@, 3, trade.quantity)
    &&& trade.venue == Venue::Hyperliquid
    &&& trade.reporting_kind == MarketTradeReportingKind::Individual
    &&& trade.trade_kind == MarketTradeKind::Regular
    &&& trade.timestamps.exchange_times.len() == 1
    &&& trade.timestamps.exchange_times[0].kind == ExchangeTimeKind::BlockTime
    &&& has_number(value, "time"@, 5, trade.timestamps.exchange_times[0].raw_value)
    &&& trade.timestamps.exchange_times[0].declared_unit == ExchangeTimeUnit::Unknown
    &&& trade.identity matches IdentityView::Hyperliquid { block_time, trade_id, transaction_hash }
    &&& has_text(value, "hash"@, 4, transaction_hash)
    &&& has_number(value, "time"@, 5, block_time)
    &&& has_number(value, "tid"@, 6, trade_id)
}

/// A delivered trade that is accepted is published as it says; trades are told apart by
/// block time and number.
pub proof fn lemma_trade_says(
    coin: Seq<char>,
    value: JsonView,
    local_receive: LocalObservationTime,
    completed: LocalObservationTime,
)
    requires
        trade_value(value) is Some,
        identified_trade(coin, trade_value(value)->Some_0, local_receive, completed) is Ok,
    ensures
        ({
            let (trade, identity) = identified_trade(
                coin,
                trade_value(value)->Some_0,
                local_receive,
                completed,
            )->Ok_0;
            &&& tells_trade(value, trade)
            &&& trade.coin == coin
            &&& has_number(value, "time"@, 5, identity.0)
            &&& has_number(value, "tid"@, 6, identity.1)
            &&& trade.timestamps.local_receive == local_receive
            &&& trade.timestamps.processing_completed == completed
        }),
{
    reveal_strlit("A");
    reveal_strlit("B");
    assert("A"@[0] == 'A');
    assert("B"@[0] == 'B');
}

/// Whether a level is what a delivered level says: price, size and number of orders.
pub open spec fn tells_level(value: JsonView, level: BookLevel) -> bool {
    &&& has_price(value, "px"@, 0, level.price)
    &&& has_quantity(value, "sz"@, 1, level.quantity)
    &&& level.order_count is Some
    &&& has_number(value, "n"@, 2, level.order_count->Some_0.count() as u64)
    &&& level.order_count->Some_0.count() > 0
}

proof fn lemma_level_says(side: BookSide, place: nat, value: JsonView)
    requires
        level_value(value) is Ok,
        level_reading(side, place, level_value(value)->Ok_0) is Ok,
    ensures
        tells_level(value, level_reading(side, place, level_value(value)->Ok_0)->Ok_0),
        level_reading(side, place, level_value(value)->Ok_0)->Ok_0.valid(),
{
    let wire = level_value(value)->Ok_0;
    let count = lemma_order_count_exists(wire.n);
    assert(count.count() == wire.n);
    assert(count_of(wire.n).count() == wire.n);
    lemma_price_read(wire.px);
    lemma_quantity_read(wire.sz);
}

/// Whether some of the items says the level.
pub open spec fn told_by_some(items: Seq<JsonView>, level: BookLevel) -> bool {
    exists|i: int| 0 <= i < items.len() && tells_level(#[trigger] items[i], level)
}

/// Whether some of the levels is what the item says.
pub open spec fn kept_in(levels: Seq<BookLevel>, item: JsonView) -> bool {
    exists|i: int| 0 <= i < levels.len() && tells_level(item, #[trigger] levels[i])
}

/// Whether a side is what a list of delivered levels says: every item is a level of the side
/// and every level of the side is an item.
pub open spec fn tells_side(value: JsonView, levels: Seq<BookLevel>) -> bool {
    &&& value matches JsonView::List(items)
    &&& items.len() == levels.len()
    &&& forall|i: int| 0 <= i < items.len() ==> kept_in(levels, #[trigger] items[i])
    &&& forall|i: int| 0 <= i < levels.len() ==> told_by_some(items, #[trigger] levels[i])
}

proof fn lemma_side_says(side: BookSide, value: JsonView, levels: Seq<BookLevel>)
    requires
        side_value(value) is Ok,
        side_reading(side, side_value(value)->Ok_0) == Ok::<Seq<BookLevel>, Seq<char>>(levels),
    ensures
        levels_valid(levels),
        levels.len() <= 20,
        value matches JsonView::List(items) && items.len() == levels.len() && forall|i: int|
            0 <= i < items.len() ==> tells_level(#[trigger] items[i], levels[i]),
{
    let items = value->List_0;
    let wires = side_value(value)->Ok_0;
    lemma_read_all_items(items, level_value_reader());
    lemma_read_all_items(wires, level_reader(side));
    assert forall|i: int| 0 <= i < items.len() implies tells_level(#[trigger] items[i], levels[i])
        && levels[i].valid() by {
        assert(level_value_reader()(i, items[i]) == Ok::<WireLevelView, Seq<char>>(wires[i]));
        assert(level_reader(side)(i, wires[i]) == Ok::<BookLevel, Seq<char>>(levels[i]));
        lemma_level_says(side, i as nat, items[i]);
    }
    assert forall|i: int| 0 <= i < levels.len() implies (#[trigger] levels[i]).valid() by {
        assert(tells_level(items[i], levels[i]));
    }
}

proof fn lemma_side_kept(value: JsonView, read: Seq<BookLevel>, kept: Seq<BookLevel>)
    requires
        value matches JsonView::List(items) && items.len() == read.len() && forall|i: int|
            0 <= i < items.len() ==> tells_level(#[trigger] items[i], read[i]),
        kept.len() == read.len(),
        forall|level: BookLevel| #[trigger] kept.contains(level) <==> read.contains(level),
    ensures
        tells_side(value, kept),
{
    let items = value->List_0;
    assert forall|i: int| 0 <= i < items.len() implies kept_in(kept, #[trigger] items[i]) by {
        assert(tells_level(items[i], read[i]));
        assert(read.contains(read[i]));
        assert(kept.contains(read[i]));
        let k = choose|k: int| 0 <= k < kept.len() && kept[k] == read[i];
        assert(tells_level(items[i], kept[k]));
    }
    assert forall|i: int| 0 <= i < kept.len() implies told_by_some(items, #[trigger] kept[i]) by {
        assert(kept.contains(kept[i]));
        let k = choose|k: int| 0 <= k < read.len() && read[k] == kept[i];
        assert(tells_level(items[k], kept[i]));
    }
}

/// Whether a book is what a delivered book says: the first of its two lists are the bids and
/// the second the asks, best first.
pub open spec fn tells_book(payload: JsonView, snapshot: SnapshotView) -> bool {
    &&& member(payload, "coin"@) == Some(JsonView::Text(snapshot.coin))
    &&& member(payload, "levels"@) matches Some(JsonView::List(sides))
    &&& sides.len() == 2
    &&& tells_side(sides[0], snapshot.bids)
    &&& tells_side(sides[1], snapshot.asks)
    &&& descending(snapshot.bids)
    &&& ascending(snapshot.asks)
    &&& snapshot.bids.len() <= 20
    &&& snapshot.asks.len() <= 20
    &&& snapshot.venue == Venue::Hyperliquid
    &&& snapshot.source_sequence is None
    &&& snapshot.timestamps.exchange_times.len() == 1
    &&& snapshot.timestamps.exchange_times[0].kind == ExchangeTimeKind::EventTime
    &&& snapshot.timestamps.exchange_times[0].declared_unit == ExchangeTimeUnit::Unknown
    &&& member(payload, "time"@) matches Some(JsonView::Number { unsigned, .. })
    &&& unsigned == Some(snapshot.timestamps.exchange_times[0].raw_value)
}

/// A delivered book that is accepted is published as it says.
pub proof fn lemma_book_says(
    coin: Seq<char>,
    payload: JsonView,
    local_receive: LocalObservationTime,
)
    requires
        market_coin_error(coin) is None,
        book_payload(coin, payload, local_receive) is Ok,
    ensures
        ({
            let snapshot = book_payload(coin, payload, local_receive)->Ok_0;
            &&& tells_book(payload, snapshot)
            &&& snapshot.coin == coin
            &&& snapshot.timestamps.local_receive == local_receive
        }),
{
    let snapshot = book_payload(coin, payload, local_receive)->Ok_0;
    let wire = book_fields(payload)->Ok_0;
    let sides = member(payload, "levels"@)->Some_0->List_0;
    let bids = side_reading(BookSide::Bid, wire.bids)->Ok_0;
    let asks = side_reading(BookSide::Ask, wire.asks)->Ok_0;
    lemma_side_says(BookSide::Bid, sides[0], bids);
    lemma_side_says(BookSide::Ask, sides[1], asks);
    lemma_snapshot_holds_levels(
        Venue::Hyperliquid,
        coin,
        None,
        event_times(wire.time, ExchangeTimeUnit::Unknown, local_receive),
        bids,
        asks,
    );
    lemma_side_kept(sides[0], bids, snapshot.bids);
    lemma_side_kept(sides[1], asks, snapshot.asks);
}

/// Whether a quoted side is what a delivered one says: nothing where it is null, else the
/// level.
pub open spec fn tells_quote(value: JsonView, side: Option<BookLevel>) -> bool {
    match side {
        None => value == JsonView::Null,
        Some(level) => value != JsonView::Null && tells_level(value, level),
    }
}

/// Whether a best bid and offer is what a delivered one says: the first of the two is the
/// bid and the second the ask.
pub open spec fn tells_offer(data: JsonView, bbo: BboView) -> bool {
    &&& has_text(data, "coin"@, 0, bbo.coin)
    &&& field(data, "bbo"@, 1) matches Some(JsonView::List(offers))
    &&& offers.len() == 2
    &&& tells_quote(offers[0], bbo.bid)
    &&& tells_quote(offers[1], bbo.ask)
    &&& bbo.venue == Venue::Hyperliquid
    &&& bbo.timestamps.exchange_times.len() == 1
    &&& bbo.timestamps.exchange_times[0].kind == ExchangeTimeKind::EventTime
    &&& bbo.timestamps.exchange_times[0].declared_unit == ExchangeTimeUnit::Unknown
    &&& has_number(data, "time"@, 2, bbo.timestamps.exchange_times[0].raw_value)
}

/// A delivered best bid and offer that is accepted is published as it says.
pub proof fn lemma_offer_says(
    coin: Seq<char>,
    data: JsonView,
    local_receive: LocalObservationTime,
    completed: LocalObservationTime,
)
    requires
        bbo_value(data) is Some,
        bbo_reading(coin, bbo_value(data)->Some_0, local_receive, completed) is Ok,
    ensures
        ({
            let bbo = bbo_reading(coin, bbo_value(data)->Some_0, local_receive, completed)->Ok_0;
            &&& tells_offer(data, bbo)
            &&& bbo.coin == coin
            &&& bbo.timestamps.local_receive == local_receive
            &&& bbo.timestamps.processing_completed == completed
        }),
{
    let wire = bbo_value(data)->Some_0;
    let offers = field(data, "bbo"@, 1)->Some_0->List_0;
    if wire.bid is Some {
        lemma_level_says(BookSide::Bid, 0, offers[0]);
    }
    if wire.ask is Some {
        lemma_level_says(BookSide::Ask, 0, offers[1]);
    }
}

/// Every best bid and offer that a text makes the adapter publish is what the text says.
pub proof fn lemma_published_offer_says(
    adapter: HyperliquidView,
    text: Seq<char>,
    local_receive: LocalObservationTime,
    times: Seq<LocalObservationTime>,
    k: int,
)
    requires
        envelope(text) matches Some((channel, _)) && channel == "bbo"@,
        0 <= k < adapter.after_text(text, local_receive, times).1.len(),
    ensures
        ({
            let after = adapter.after_text(text, local_receive, times);
            let data = envelope(text)->Some_0.1;
            &&& after.0 == adapter
            &&& after.1.len() == 1
            &&& after.1[k] matches ActionView::Publish(EventView::BestBidOfferUpdated(bbo))
            &&& tells_offer(data, bbo)
            &&& bbo.timestamps.local_receive == local_receive
            &&& adapter.coins().contains(bbo.coin)
        }),
{
    lemma_channels();
    let data = envelope(text)->Some_0.1;
    let wire = bbo_value(data)->Some_0;
    lemma_first_place(adapter.coins(), wire.coin);
    let coin = adapter.coins()[crate::venue::wire::first_place(
        adapter.coins(),
        wire.coin,
    )->Some_0 as int];
    lemma_offer_says(coin, data, local_receive, times[0]);
}

/// Every book that a text makes the adapter publish is what the text says.
pub proof fn lemma_published_book_says(
    adapter: HyperliquidView,
    text: Seq<char>,
    local_receive: LocalObservationTime,
    times: Seq<LocalObservationTime>,
    k: int,
)
    requires
        forall|i: int|
            0 <= i < adapter.markets.len() ==> market_coin_error(
                (#[trigger] adapter.markets[i]).coin,
            ) is None,
        envelope(text) matches Some((channel, _)) && channel == "l2Book"@,
        0 <= k < adapter.after_text(text, local_receive, times).1.len(),
        adapter.after_text(text, local_receive, times).1[k] matches ActionView::Publish(
            EventView::OrderBookSnapshot(_),
        ),
    ensures
        ({
            let after = adapter.after_text(text, local_receive, times);
            let snapshot = after.1[k]->Publish_0->OrderBookSnapshot_0;
            &&& tells_book(envelope(text)->Some_0.1, snapshot)
            &&& snapshot.timestamps.local_receive == local_receive
            &&& exists|i: int|
                0 <= i < adapter.markets.len() && (#[trigger] adapter.markets[i]).coin
                    == snapshot.coin && after.0.markets[i].book.current() == Some(snapshot)
        }),
{
    lemma_channels();
    let data = envelope(text)->Some_0.1;
    let coin = member(data, "coin"@)->Some_0->Text_0;
    lemma_first_place(adapter.coins(), coin);
    let index = crate::venue::wire::first_place(adapter.coins(), coin)->Some_0 as int;
    assert(adapter.coins()[index] == adapter.markets[index].coin);
    lemma_book_says(adapter.markets[index].coin, data, local_receive);
    assert(adapter.markets[index].coin == coin);
}

/// Delivered trades are taken in the order in which they come: what is published of the
/// first of them is published first.
pub proof fn lemma_trades_in_order(
    adapter: HyperliquidView,
    wires: Seq<WireTradeView>,
    count: int,
    local_receive: LocalObservationTime,
    times: Seq<LocalObservationTime>,
)
    requires
        0 <= count <= wires.len(),
    ensures
        adapter.after_trades(wires.take(count), local_receive, times).actions.is_prefix_of(
            adapter.after_trades(wires, local_receive, times).actions,
        ),
    decreases wires.len(),
{
    let first = adapter.after_trades(wires.take(count), local_receive, times).actions;
    let all = adapter.after_trades(wires, local_receive, times).actions;
    if count == wires.len() {
        assert(wires.take(count) =~= wires);
        assert(first =~= first.subrange(0, first.len() as int));
    } else {
        let rest = wires.drop_last();
        assert(rest.take(count) =~= wires.take(count));
        lemma_trades_in_order(adapter, rest, count, local_receive, times);
        let before = adapter.after_trades(rest, local_receive, times).actions;
        assert(all.subrange(0, before.len() as int) =~= before);
        assert(all.subrange(0, first.len() as int) =~= before.subrange(0, first.len() as int));
    }
}

/// Whether some of the delivered trades says the trade.
pub open spec fn trade_told(items: Seq<JsonView>, trade: TradeView) -> bool {
    exists|i: int| 0 <= i < items.len() && tells_trade(#[trigger] items[i], trade)
}

proof fn lemma_trades_say(
    adapter: HyperliquidView,
    items: Seq<JsonView>,
    wires: Seq<WireTradeView>,
    local_receive: LocalObservationTime,
    times: Seq<LocalObservationTime>,
    k: int,
)
    requires
        items.len() == wires.len(),
        forall|i: int| 0 <= i < items.len() ==> trade_value(#[trigger] items[i]) == Some(wires[i]),
        0 <= k < adapter.after_trades(wires, local_receive, times).actions.len(),
        adapter.after_trades(wires, local_receive, times).actions[k] matches ActionView::Publish(
            EventView::MarketTrade(_),
        ),
    ensures
        trade_told(
            items,
            adapter.after_trades(
                wires,
                local_receive,
                times,
            ).actions[k]->Publish_0->MarketTrade_0,
        ),
    decreases wires.len(),
{
    let rest = wires.drop_last();
    let rest_items = items.drop_last();
    let before = adapter.after_trades(rest, local_receive, times);
    let all = adapter.after_trades(wires, local_receive, times);
    let trade = all.actions[k]->Publish_0->MarketTrade_0;
    if k < before.actions.len() {
        assert(all.actions[k] == before.actions[k]);
        assert forall|i: int| 0 <= i < rest_items.len() implies trade_value(
            #[trigger] rest_items[i],
        ) == Some(rest[i]) by {
            assert(rest_items[i] == items[i]);
        }
        lemma_trades_say(adapter, rest_items, rest, local_receive, times, k);
        let i = choose|i: int|
            0 <= i < rest_items.len() && tells_trade(#[trigger] rest_items[i], trade);
        assert(tells_trade(items[i], trade));
    } else {
        let last = items.len() - 1;
        let index = crate::venue::wire::first_place(adapter.coins(), wires.last().coin)->Some_0;
        let feed = before.after.markets[index as int];
        assert(trade_value(items[last]) == Some(wires[last]));
        lemma_trade_says(feed.coin, items[last], local_receive, times[last]);
        assert(tells_trade(items[last], trade));
    }
}

/// Every trade that a text makes the adapter publish is what one of the delivered trades
/// says: in particular the side "B" makes the buyer the aggressor and "A" the seller.
pub proof fn lemma_published_trade_says(
    adapter: HyperliquidView,
    text: Seq<char>,
    local_receive: LocalObservationTime,
    times: Seq<LocalObservationTime>,
    k: int,
)
    requires
        envelope(text) matches Some((channel, _)) && channel == "trades"@,
        0 <= k < adapter.after_text(text, local_receive, times).1.len(),
        adapter.after_text(text, local_receive, times).1[k] matches ActionView::Publish(
            EventView::MarketTrade(_),
        ),
    ensures
        ({
            let trade =
                adapter.after_text(text, local_receive, times).1[k]->Publish_0->MarketTrade_0;
            &&& envelope(text)->Some_0.1 matches JsonView::List(items)
            &&& trade_told(items, trade)
        }),
{
    let data = envelope(text)->Some_0.1;
    let items = data->List_0;
    let wires = trades_value(data)->Some_0;
    lemma_all_of_items(items, trade_value_reader());
    assert forall|i: int| 0 <= i < items.len() implies trade_value(#[trigger] items[i]) == Some(
        wires[i],
    ) by {
        assert(trade_value_reader()(items[i]) == Some(wires[i]));
    }
    lemma_trades_say(adapter, items, wires, local_receive, times, k);
}

proof fn lemma_channels()
    ensures
        "trades"@ != "bbo"@,
        "trades"@ != "l2Book"@,
        "bbo"@ != "l2Book"@,
{
    reveal_strlit("trades");
    reveal_strlit("bbo");
    reveal_strlit("l2Book");
    assert("trades"@[0] == 't');
    assert("bbo"@[0] == 'b');
    assert("l2Book"@[0] == 'l');
}

} // verus!
