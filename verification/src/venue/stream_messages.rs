//! What the combined streams of Aster and Binance say: how the members of a message become
//! the fields of what is published.
use vstd::prelude::*;

use crate::domain::decimal::DecimalParseError;
use crate::domain::symbol::market_coin_error;
use crate::domain::{Price, Quantity, Venue};
use crate::market_data::event::{
    AggressorSide, AggressorSideClassification, EventView, ExchangeTimeKind, ExchangeTimeUnit,
    IdentityView, MarketTradeKind, MarketTradeReportingKind, TradeView,
};
use crate::market_data::order_book::{
    ascending, descending, lemma_snapshot_holds_levels, levels_valid, SnapshotView,
};
use crate::market_data::{BookLevel, LocalObservationTime};
use crate::venue::action::ActionView;
use crate::venue::levels::BookSide;
use crate::venue::stream_markets::{message_data, StreamsView};
use crate::venue::streams::{
    book_fields, book_payload, event_times, level_reader, pair_reader, pairs_field, side_reading,
    trade_payload,
};
use crate::venue::wire::{
    lemma_first_place, lemma_price_read, lemma_quantity_read, lemma_read_all_items, member,
    price_reading, quantity_reading, JsonView,
};

verus! {

/// A member is a text.
pub open spec fn says_text(payload: JsonView, key: Seq<char>, text: Seq<char>) -> bool {
    member(payload, key) == Some(JsonView::Text(text))
}

/// A member is an integer that is not negative and fits in 64 bits.
pub open spec fn says_number(payload: JsonView, key: Seq<char>, number: u64) -> bool {
    &&& member(payload, key) matches Some(JsonView::Number { unsigned, .. })
    &&& unsigned == Some(number)
}

/// A member is some integer that is not negative and fits in 64 bits.
pub open spec fn has_number(payload: JsonView, key: Seq<char>) -> bool {
    &&& member(payload, key) matches Some(JsonView::Number { unsigned, .. })
    &&& unsigned is Some
}

/// A member is a text that writes a price.
pub open spec fn says_price(payload: JsonView, key: Seq<char>, price: Price) -> bool {
    &&& member(payload, key) matches Some(JsonView::Text(text))
    &&& price_reading(text) == Ok::<Price, DecimalParseError>(price)
}

/// A member is a text that writes a quantity.
pub open spec fn says_quantity(payload: JsonView, key: Seq<char>, quantity: Quantity) -> bool {
    &&& member(payload, key) matches Some(JsonView::Text(text))
    &&& quantity_reading(text) == Ok::<Quantity, DecimalParseError>(quantity)
}

/// Whether a message has what an aggregate trade of a symbol has.
pub open spec fn is_aggregate_trade(payload: JsonView, symbol: Seq<char>) -> bool {
    &&& says_text(payload, "e"@, "aggTrade"@)
    &&& says_text(payload, "s"@, symbol)
    &&& has_number(payload, "E"@)
    &&& has_number(payload, "T"@)
    &&& has_number(payload, "a"@)
    &&& has_number(payload, "f"@)
    &&& has_number(payload, "l"@)
    &&& member(payload, "m"@) == Some(JsonView::Bool(true)) || member(payload, "m"@) == Some(
        JsonView::Bool(false),
    )
    &&& exists|price: Price| says_price(payload, "p"@, price)
    &&& exists|quantity: Quantity| says_quantity(payload, "q"@, quantity)
}

/// Whether a trade is what an aggregate trade says. The buyer is the maker (`m` is true)
/// exactly if the seller is the aggressor; `p` is the price, `q` the quantity, `a`, `f`
/// and `l` are the numbers of the aggregate and of its first and last trade, `E` is the
/// time of the event and `T` that of the trade.
pub open spec fn tells_trade(venue: Venue, payload: JsonView, trade: TradeView) -> bool {
    &&& trade.aggressor_side == AggressorSide::Sell <==> member(payload, "m"@) == Some(
        JsonView::Bool(true),
    )
    &&& trade.aggressor_side == AggressorSide::Buy <==> member(payload, "m"@) == Some(
        JsonView::Bool(false),
    )
    &&& says_price(payload, "p"@, trade.price)
    &&& says_quantity(payload, "q"@, trade.quantity)
    &&& trade.venue == venue
    &&& trade.timestamps.exchange_times.len() == 2
    &&& trade.timestamps.exchange_times[0].kind == ExchangeTimeKind::EventTime
    &&& says_number(payload, "E"@, trade.timestamps.exchange_times[0].raw_value)
    &&& trade.timestamps.exchange_times[0].declared_unit == ExchangeTimeUnit::Milliseconds
    &&& trade.timestamps.exchange_times[1].kind == ExchangeTimeKind::TradeTime
    &&& says_number(payload, "T"@, trade.timestamps.exchange_times[1].raw_value)
    &&& trade.timestamps.exchange_times[1].declared_unit == ExchangeTimeUnit::Milliseconds
    &&& trade.reporting_kind == MarketTradeReportingKind::TakerOrderAggregate
    &&& trade.trade_kind == MarketTradeKind::Regular
    &&& trade.aggressor_side_classification == AggressorSideClassification::DerivedFromMakerSide
    &&& match trade.identity {
        IdentityView::Binance { aggregate_trade_id, first_trade_id, last_trade_id } => {
            &&& venue == Venue::Binance
            &&& says_number(payload, "a"@, aggregate_trade_id)
            &&& says_number(payload, "f"@, first_trade_id)
            &&& says_number(payload, "l"@, last_trade_id)
        },
        IdentityView::Aster { aggregate_trade_id, first_trade_id, last_trade_id } => {
            &&& venue != Venue::Binance
            &&& says_number(payload, "a"@, aggregate_trade_id)
            &&& says_number(payload, "f"@, first_trade_id)
            &&& says_number(payload, "l"@, last_trade_id)
        },
        _ => false,
    }
}

/// A message is accepted as a trade of a symbol exactly if it has what an aggregate trade
/// of the symbol has, at every venue of the streams alike. The trade is then what the
/// members say: the seller is the aggressor exactly if `m` is true and the buyer exactly if
/// it is false. Trades are told apart by `a`.
pub proof fn lemma_aggregate_trade_says(
    venue: Venue,
    symbol: Seq<char>,
    coin: Seq<char>,
    payload: JsonView,
    local_receive: LocalObservationTime,
    completed: LocalObservationTime,
)
    ensures
        ({
            let read = trade_payload(venue, symbol, coin, payload, local_receive, completed);
            &&& read is Ok <==> is_aggregate_trade(payload, symbol)
            &&& read matches Ok((trade, identity)) ==> {
                &&& tells_trade(venue, payload, trade)
                &&& says_number(payload, "a"@, identity)
                &&& trade.coin == coin
                &&& trade.timestamps.local_receive == local_receive
                &&& trade.timestamps.processing_completed == completed
            }
        }),
{
    let read = trade_payload(venue, symbol, coin, payload, local_receive, completed);
    if read is Ok {
        let trade = read->Ok_0.0;
        assert(says_price(payload, "p"@, trade.price));
        assert(says_quantity(payload, "q"@, trade.quantity));
    }
    if is_aggregate_trade(payload, symbol) {
        let price = choose|price: Price| says_price(payload, "p"@, price);
        let quantity = choose|quantity: Quantity| says_quantity(payload, "q"@, quantity);
        assert(says_price(payload, "p"@, price));
        assert(says_quantity(payload, "q"@, quantity));
    }
}

/// Two aggregate trades that differ in `m` alone differ in the aggressor, whatever the
/// venue.
pub proof fn lemma_maker_side_decides_aggressor(
    venue: Venue,
    symbol: Seq<char>,
    coin: Seq<char>,
    left: JsonView,
    right: JsonView,
    local_receive: LocalObservationTime,
    completed: LocalObservationTime,
)
    requires
        trade_payload(venue, symbol, coin, left, local_receive, completed) is Ok,
        trade_payload(venue, symbol, coin, right, local_receive, completed) is Ok,
    ensures
        ({
            let one = trade_payload(venue, symbol, coin, left, local_receive, completed)->Ok_0.0;
            let other = trade_payload(venue, symbol, coin, right, local_receive, completed)->Ok_0.0;
            one.aggressor_side == other.aggressor_side <==> member(left, "m"@) == member(
                right,
                "m"@,
            )
        }),
{
    lemma_aggregate_trade_says(venue, symbol, coin, left, local_receive, completed);
    lemma_aggregate_trade_says(venue, symbol, coin, right, local_receive, completed);
}

/// Whether a level is what an item of a side says: a list of a price and a quantity.
pub open spec fn says_level(item: JsonView, level: BookLevel) -> bool {
    &&& item matches JsonView::List(parts)
    &&& parts.len() == 2
    &&& parts[0] matches JsonView::Text(price)
    &&& parts[1] matches JsonView::Text(quantity)
    &&& price_reading(price) == Ok::<Price, DecimalParseError>(level.price)
    &&& quantity_reading(quantity) == Ok::<Quantity, DecimalParseError>(level.quantity)
    &&& level.order_count is None
}

/// Some of the items says the level.
pub open spec fn said_by_some(items: Seq<JsonView>, level: BookLevel) -> bool {
    exists|i: int| 0 <= i < items.len() && says_level(#[trigger] items[i], level)
}

/// Some of the levels is what the item says.
pub open spec fn kept_in(levels: Seq<BookLevel>, item: JsonView) -> bool {
    exists|i: int| 0 <= i < levels.len() && says_level(item, #[trigger] levels[i])
}

/// Whether a side of a book is what a member says: every item of the list is a level of the
/// side, and every level of the side is an item of the list.
pub open spec fn says_side(payload: JsonView, key: Seq<char>, levels: Seq<BookLevel>) -> bool {
    &&& member(payload, key) matches Some(JsonView::List(items))
    &&& items.len() == levels.len()
    &&& forall|i: int| 0 <= i < items.len() ==> kept_in(levels, #[trigger] items[i])
    &&& forall|i: int| 0 <= i < levels.len() ==> said_by_some(items, #[trigger] levels[i])
}

proof fn lemma_side_read(
    venue: Venue,
    side: BookSide,
    payload: JsonView,
    key: Seq<char>,
    levels: Seq<BookLevel>,
)
    requires
        pairs_field(payload, key) matches Ok(Some(pairs)) && side_reading(venue, side, pairs)
            == Ok::<Seq<BookLevel>, Seq<char>>(levels),
    ensures
        levels_valid(levels),
        member(payload, key) matches Some(JsonView::List(items)) && items.len() == levels.len()
            && forall|i: int|
            0 <= i < items.len() ==> says_level(#[trigger] items[i], levels[i]),
        venue == Venue::Aster ==> levels.len() <= 10,
{
    let items = member(payload, key)->Some_0->List_0;
    let pairs = pairs_field(payload, key)->Ok_0->Some_0;
    lemma_read_all_items(items, pair_reader());
    lemma_read_all_items(pairs, level_reader(venue, side));
    assert forall|i: int| 0 <= i < items.len() implies says_level(#[trigger] items[i], levels[i])
        && levels[i].valid() by {
        assert(pair_reader()(i, items[i]) == Ok::<(Seq<char>, Seq<char>), Seq<char>>(pairs[i]));
        assert(level_reader(venue, side)(i, pairs[i]) == Ok::<BookLevel, Seq<char>>(levels[i]));
        lemma_price_read(pairs[i].0);
        lemma_quantity_read(pairs[i].1);
    }
    assert forall|i: int| 0 <= i < levels.len() implies (#[trigger] levels[i]).valid() by {
        assert(says_level(items[i], levels[i]));
    }
}

proof fn lemma_side_kept(
    payload: JsonView,
    key: Seq<char>,
    read: Seq<BookLevel>,
    kept: Seq<BookLevel>,
)
    requires
        member(payload, key) matches Some(JsonView::List(items)) && items.len() == read.len()
            && forall|i: int| 0 <= i < items.len() ==> says_level(#[trigger] items[i], read[i]),
        kept.len() == read.len(),
        forall|level: BookLevel| #[trigger] kept.contains(level) <==> read.contains(level),
    ensures
        says_side(payload, key, kept),
{
    let items = member(payload, key)->Some_0->List_0;
    assert forall|i: int| 0 <= i < items.len() implies kept_in(kept, #[trigger] items[i]) by {
        assert(says_level(items[i], read[i]));
        assert(read.contains(read[i]));
        assert(kept.contains(read[i]));
        let k = choose|k: int| 0 <= k < kept.len() && kept[k] == read[i];
        assert(says_level(items[i], kept[k]));
    }
    assert forall|i: int| 0 <= i < kept.len() implies said_by_some(items, #[trigger] kept[i]) by {
        assert(kept.contains(kept[i]));
        let k = choose|k: int| 0 <= k < read.len() && read[k] == kept[i];
        assert(says_level(items[k], kept[i]));
    }
}

/// Whether a book is what a depth update says: `b` are its bids and `a` its asks, the best
/// first, `u` is its number and `E` the time of the event.
pub open spec fn tells_book(venue: Venue, payload: JsonView, snapshot: SnapshotView) -> bool {
    &&& says_side(payload, "b"@, snapshot.bids)
    &&& says_side(payload, "a"@, snapshot.asks)
    &&& descending(snapshot.bids)
    &&& ascending(snapshot.asks)
    &&& snapshot.bids.len() > 0
    &&& snapshot.asks.len() > 0
    &&& snapshot.bids[0].price.units() < snapshot.asks[0].price.units()
    &&& snapshot.source_sequence is Some
    &&& says_number(payload, "u"@, snapshot.source_sequence->Some_0)
    &&& snapshot.timestamps.exchange_times.len() == 1
    &&& snapshot.timestamps.exchange_times[0].kind == ExchangeTimeKind::EventTime
    &&& says_number(payload, "E"@, snapshot.timestamps.exchange_times[0].raw_value)
    &&& snapshot.timestamps.exchange_times[0].declared_unit == ExchangeTimeUnit::Milliseconds
    &&& snapshot.venue == venue
}

/// A message that is accepted as the book of a symbol is a depth update of the symbol, and
/// the book is what its members say. Aster delivers at most ten levels on a side.
pub proof fn lemma_depth_update_says(
    venue: Venue,
    symbol: Seq<char>,
    coin: Seq<char>,
    payload: JsonView,
    local_receive: LocalObservationTime,
)
    requires
        market_coin_error(coin) is None,
        book_payload(venue, symbol, coin, payload, local_receive) matches Some(Ok(_)),
    ensures
        ({
            let snapshot = book_payload(
                venue,
                symbol,
                coin,
                payload,
                local_receive,
            )->Some_0->Ok_0;
            &&& says_text(payload, "e"@, "depthUpdate"@)
            &&& says_text(payload, "s"@, symbol)
            &&& tells_book(venue, payload, snapshot)
            &&& venue == Venue::Aster ==> snapshot.bids.len() <= 10 && snapshot.asks.len() <= 10
            &&& snapshot.coin == coin
            &&& snapshot.timestamps.local_receive == local_receive
        }),
{
    let wire = book_fields(payload)->Ok_0;
    let snapshot = book_payload(venue, symbol, coin, payload, local_receive)->Some_0->Ok_0;
    let bids = side_reading(venue, BookSide::Bid, wire.bids)->Ok_0;
    let asks = side_reading(venue, BookSide::Ask, wire.asks)->Ok_0;
    lemma_side_read(venue, BookSide::Bid, payload, "b"@, bids);
    lemma_side_read(venue, BookSide::Ask, payload, "a"@, asks);
    lemma_snapshot_holds_levels(
        venue,
        coin,
        Some(wire.final_update_id),
        event_times(wire.event_time, ExchangeTimeUnit::Milliseconds, local_receive),
        bids,
        asks,
    );
    lemma_side_kept(payload, "b"@, bids, snapshot.bids);
    lemma_side_kept(payload, "a"@, asks, snapshot.asks);
    assert(snapshot.bids.contains(snapshot.bids[0]));
    assert(snapshot.asks.contains(snapshot.asks[0]));
    let i = choose|i: int| 0 <= i < bids.len() && bids[i] == snapshot.bids[0];
    let j = choose|j: int| 0 <= j < asks.len() && asks[j] == snapshot.asks[0];
    assert(bids[i].price.units() < asks[j].price.units());
}

/// Every trade that a text makes an adapter publish is what the text's object says, about
/// the market whose symbol is in `s`: in particular the seller is the aggressor exactly if
/// `m` is true, and the buyer exactly if it is false.
pub proof fn lemma_published_trade_says(
    streams: StreamsView,
    text: Seq<char>,
    local_receive: LocalObservationTime,
    completed: LocalObservationTime,
    k: int,
)
    requires
        0 <= k < streams.after_text(text, local_receive, completed).1.len(),
        streams.after_text(text, local_receive, completed).1[k] matches ActionView::Publish(
            EventView::MarketTrade(_),
        ),
    ensures
        ({
            let trade =
                streams.after_text(text, local_receive, completed).1[k]->Publish_0->MarketTrade_0;
            &&& message_data(text) matches Some(data)
            &&& tells_trade(streams.venue, data, trade)
            &&& trade.timestamps.local_receive == local_receive
            &&& trade.timestamps.processing_completed == completed
            &&& exists|i: int|
                0 <= i < streams.markets.len() && says_text(
                    data,
                    "s"@,
                    (#[trigger] streams.markets[i]).symbol,
                ) && trade.coin == streams.markets[i].feed.coin
        }),
{
    let (index, data) = streams.routed(text)->Some_0;
    let market = streams.markets[index as int];
    lemma_first_place(streams.symbols(), market.symbol);
    lemma_routed(streams, text);
    lemma_aggregate_trade_says(
        streams.venue,
        market.symbol,
        market.feed.coin,
        data,
        local_receive,
        completed,
    );
    assert(says_text(data, "s"@, streams.markets[index as int].symbol));
}

/// Every book that a text makes an adapter publish is what the text's object says, about
/// the market whose symbol is in `s`: `b` are the bids and `a` the asks.
pub proof fn lemma_published_book_says(
    streams: StreamsView,
    text: Seq<char>,
    local_receive: LocalObservationTime,
    completed: LocalObservationTime,
    k: int,
)
    requires
        forall|i: int|
            0 <= i < streams.markets.len() ==> market_coin_error(
                (#[trigger] streams.markets[i]).feed.coin,
            ) is None,
        0 <= k < streams.after_text(text, local_receive, completed).1.len(),
        streams.after_text(text, local_receive, completed).1[k] matches ActionView::Publish(
            EventView::OrderBookSnapshot(_),
        ),
    ensures
        ({
            let after = streams.after_text(text, local_receive, completed);
            let snapshot = after.1[k]->Publish_0->OrderBookSnapshot_0;
            &&& message_data(text) matches Some(data)
            &&& says_text(data, "e"@, "depthUpdate"@)
            &&& tells_book(streams.venue, data, snapshot)
            &&& snapshot.timestamps.local_receive == local_receive
            &&& snapshot.timestamps.processing_completed == completed
            &&& exists|i: int|
                0 <= i < streams.markets.len() && says_text(
                    data,
                    "s"@,
                    (#[trigger] streams.markets[i]).symbol,
                ) && snapshot.coin == streams.markets[i].feed.coin
                    && after.0.markets[i].feed.book.current() == Some(snapshot)
        }),
{
    let (index, data) = streams.routed(text)->Some_0;
    let market = streams.markets[index as int];
    lemma_routed(streams, text);
    lemma_depth_update_says(
        streams.venue,
        market.symbol,
        market.feed.coin,
        data,
        local_receive,
    );
    assert(says_text(data, "s"@, streams.markets[index as int].symbol));
}

/// A text is routed to the first market whose symbol is in `s`.
proof fn lemma_routed(streams: StreamsView, text: Seq<char>)
    requires
        streams.routed(text) is Some,
    ensures
        ({
            let (index, data) = streams.routed(text)->Some_0;
            &&& message_data(text) == Some(data)
            &&& index < streams.markets.len()
            &&& says_text(data, "s"@, streams.markets[index as int].symbol)
        }),
{
    let (index, data) = streams.routed(text)->Some_0;
    let symbol = member(data, "s"@)->Some_0->Text_0;
    lemma_first_place(streams.symbols(), symbol);
    assert(streams.symbols()[index as int] == streams.markets[index as int].symbol);
}

} // verus!
