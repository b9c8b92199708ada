//! What the combined streams' messages lead to: which messages are published and which are
//! announced as interruptions.
use vstd::prelude::*;

use crate::domain::symbol::market_coin_error;
use crate::domain::Venue;
use crate::market_data::event::{EventView, ExchangeTimeUnit, UnavailabilityCategory};
use crate::market_data::order_book::{lemma_snapshot_holds_levels, levels_valid};
use crate::market_data::{BookLevel, LocalObservationTime};
use crate::venue::action::ActionView;
use crate::venue::feed::announces;
use crate::venue::levels::BookSide;
use crate::venue::stream_markets::{message_data, StreamsView};
use crate::venue::stream_messages::{
    has_number, is_aggregate_trade, lemma_aggregate_trade_says, lemma_depth_update_says, says_level,
    says_number, says_text, tells_book, tells_trade,
};
use crate::venue::streams::{
    book_fields, book_payload, event_times, level_reader, pair_reader, pairs_field, side_reading,
};
use crate::venue::wire::{
    lemma_first_place, lemma_price_read, lemma_quantity_read, lemma_read_all_items, member,
    JsonView,
};

verus! {

/// Whether a member lists levels, one by one.
pub open spec fn lists_levels(payload: JsonView, key: Seq<char>, levels: Seq<BookLevel>) -> bool {
    &&& member(payload, key) matches Some(JsonView::List(items))
    &&& items.len() == levels.len()
    &&& forall|i: int| 0 <= i < items.len() ==> says_level(#[trigger] items[i], levels[i])
}

/// Whether levels make a book: there are bids and asks, no side names a price twice, and every
/// bid is below every ask.
pub open spec fn makes_book(bids: Seq<BookLevel>, asks: Seq<BookLevel>) -> bool {
    &&& bids.len() > 0
    &&& asks.len() > 0
    &&& forall|i: int, j: int|
        0 <= i < j < bids.len() ==> (#[trigger] bids[i]).price != (#[trigger] bids[j]).price
    &&& forall|i: int, j: int|
        0 <= i < j < asks.len() ==> (#[trigger] asks[i]).price != (#[trigger] asks[j]).price
    &&& forall|i: int, j: int|
        0 <= i < bids.len() && 0 <= j < asks.len() ==> (#[trigger] bids[i]).price.units() < (
        #[trigger] asks[j]).price.units()
}

proof fn lemma_listed_side(
    venue: Venue,
    side: BookSide,
    payload: JsonView,
    key: Seq<char>,
    levels: Seq<BookLevel>,
)
    requires
        lists_levels(payload, key, levels),
        venue == Venue::Aster ==> levels.len() <= 10,
    ensures
        levels_valid(levels),
        pairs_field(payload, key) matches Ok(Some(pairs)) && side_reading(venue, side, pairs)
            == Ok::<Seq<BookLevel>, Seq<char>>(levels),
{
    let items = member(payload, key)->Some_0->List_0;
    lemma_read_all_items(items, pair_reader());
    assert forall|i: int| 0 <= i < items.len() implies pair_reader()(
        i,
        #[trigger] items[i],
    ) is Ok by {
        assert(says_level(items[i], levels[i]));
    }
    let pairs = pairs_field(payload, key)->Ok_0->Some_0;
    lemma_read_all_items(pairs, level_reader(venue, side));
    assert forall|i: int| 0 <= i < pairs.len() implies level_reader(venue, side)(
        i,
        #[trigger] pairs[i],
    ) == Ok::<BookLevel, Seq<char>>(levels[i]) && levels[i].valid() by {
        assert(says_level(items[i], levels[i]));
        assert(pair_reader()(i, items[i]) == Ok::<(Seq<char>, Seq<char>), Seq<char>>(pairs[i]));
        lemma_price_read(pairs[i].0);
        lemma_quantity_read(pairs[i].1);
    }
    let read = side_reading(venue, side, pairs)->Ok_0;
    assert forall|i: int| 0 <= i < levels.len() implies #[trigger] read[i] == levels[i] by {
        assert(level_reader(venue, side)(i, pairs[i]) == Ok::<BookLevel, Seq<char>>(read[i]));
    }
    assert(read =~= levels);
    assert forall|i: int| 0 <= i < levels.len() implies (#[trigger] levels[i]).valid() by {
        assert(level_reader(venue, side)(i, pairs[i]) == Ok::<BookLevel, Seq<char>>(levels[i]));
    }
}

/// A depth update of a symbol that lists levels is accepted exactly if the levels make a book.
pub proof fn lemma_depth_update_accepted(
    venue: Venue,
    symbol: Seq<char>,
    coin: Seq<char>,
    payload: JsonView,
    local_receive: LocalObservationTime,
    bids: Seq<BookLevel>,
    asks: Seq<BookLevel>,
)
    requires
        market_coin_error(coin) is None,
        says_text(payload, "e"@, "depthUpdate"@),
        says_text(payload, "s"@, symbol),
        has_number(payload, "E"@),
        has_number(payload, "u"@),
        lists_levels(payload, "b"@, bids),
        lists_levels(payload, "a"@, asks),
        venue == Venue::Aster ==> bids.len() <= 10 && asks.len() <= 10,
    ensures
        book_payload(venue, symbol, coin, payload, local_receive) is Some,
        book_payload(venue, symbol, coin, payload, local_receive)->Some_0 is Ok <==> makes_book(
            bids,
            asks,
        ),
{
    lemma_listed_side(venue, BookSide::Bid, payload, "b"@, bids);
    lemma_listed_side(venue, BookSide::Ask, payload, "a"@, asks);
    let wire = book_fields(payload)->Ok_0;
    lemma_snapshot_holds_levels(
        venue,
        coin,
        Some(wire.final_update_id),
        event_times(wire.event_time, ExchangeTimeUnit::Milliseconds, local_receive),
        bids,
        asks,
    );
}

/// Whether a message carries the object and the object names the symbol of the market, which no
/// market before it has.
pub open spec fn about(streams: StreamsView, text: Seq<char>, data: JsonView, i: int) -> bool {
    &&& message_data(text) == Some(data)
    &&& 0 <= i < streams.markets.len()
    &&& says_text(data, "s"@, streams.markets[i].symbol)
    &&& forall|j: int|
        0 <= j < i ==> (#[trigger] streams.markets[j]).symbol != streams.markets[i].symbol
}

proof fn lemma_reaches_market(streams: StreamsView, text: Seq<char>, data: JsonView, i: int)
    requires
        about(streams, text, data, i),
    ensures
        streams.routed(text) == Some((i as nat, data)),
{
    let symbol = streams.markets[i].symbol;
    let symbols = streams.symbols();
    lemma_first_place(symbols, symbol);
    assert(symbols[i] == symbol);
    let place = crate::venue::wire::first_place(symbols, symbol)->Some_0;
    assert(symbols[place as int] == streams.markets[place as int].symbol);
}

/// Every aggregate trade about a market that is followed reaches the market: one that was not
/// seen before is published as it says and remembered, as long as there is room, and one that is
/// no aggregate trade after all is announced as an interruption of the market's trades.
pub proof fn lemma_trade_message_answered(
    streams: StreamsView,
    text: Seq<char>,
    data: JsonView,
    i: int,
    local_receive: LocalObservationTime,
    completed: LocalObservationTime,
    number: u64,
)
    requires
        about(streams, text, data, i),
        says_text(data, "e"@, "aggTrade"@),
    ensures
        ({
            let feed = streams.markets[i].feed;
            let after = streams.after_text(text, local_receive, completed);
            let sound = is_aggregate_trade(data, streams.markets[i].symbol);
            &&& sound && says_number(data, "a"@, number) && !feed.trades.seen.contains(number)
                && feed.trades.seen.len() != feed.trades.capacity ==> {
                &&& after.1.len() > 0
                &&& after.1.last() matches ActionView::Publish(EventView::MarketTrade(trade))
                &&& tells_trade(streams.venue, data, trade)
                &&& trade.coin == feed.coin
                &&& after.0.markets[i].feed.trades.seen == feed.trades.seen.push(number)
                &&& after.0.markets[i].feed.trade_available
            }
            &&& sound && says_number(data, "a"@, number) && feed.trades.seen.contains(number)
                ==> after.1 == seq![ActionView::TradeDeduplicated(i as nat)]
            &&& !sound ==> {
                &&& after.1.len() == 1
                &&& after.1[0] matches ActionView::Publish(EventView::TradeStreamUnavailable(said))
                &&& announces(
                    said,
                    feed.book.venue,
                    feed.coin,
                    local_receive,
                    UnavailabilityCategory::InvalidMarketData,
                    said.diagnostic,
                )
                &&& !after.0.markets[i].feed.trade_available
            }
        }),
{
    lemma_reaches_market(streams, text, data, i);
    let market = streams.markets[i];
    lemma_aggregate_trade_says(
        streams.venue,
        market.symbol,
        market.feed.coin,
        data,
        local_receive,
        completed,
    );
}

/// Every depth update about a market that is followed reaches the market: where its levels make a
/// book, the book is published as the update says and is the market's book from then on, and
/// where they do not, the book is announced as unavailable.
pub proof fn lemma_book_message_answered(
    streams: StreamsView,
    text: Seq<char>,
    data: JsonView,
    i: int,
    local_receive: LocalObservationTime,
    completed: LocalObservationTime,
    bids: Seq<BookLevel>,
    asks: Seq<BookLevel>,
)
    requires
        about(streams, text, data, i),
        market_coin_error(streams.markets[i].feed.coin) is None,
        says_text(data, "e"@, "depthUpdate"@),
        has_number(data, "E"@),
        has_number(data, "u"@),
        lists_levels(data, "b"@, bids),
        lists_levels(data, "a"@, asks),
        streams.venue == Venue::Aster ==> bids.len() <= 10 && asks.len() <= 10,
    ensures
        ({
            let feed = streams.markets[i].feed;
            let after = streams.after_text(text, local_receive, completed);
            &&& after.1.len() == 1
            &&& makes_book(bids, asks) ==> {
                &&& after.1[0] matches ActionView::Publish(EventView::OrderBookSnapshot(snapshot))
                &&& tells_book(streams.venue, data, snapshot)
                &&& snapshot.coin == feed.coin
                &&& after.0.markets[i].feed.book.current() == Some(snapshot)
            }
            &&& !makes_book(bids, asks) ==> {
                &&& after.1[0] matches ActionView::Publish(EventView::OrderBookUnavailable(said))
                &&& announces(
                    said,
                    feed.book.venue,
                    feed.coin,
                    local_receive,
                    UnavailabilityCategory::InvalidMarketData,
                    said.diagnostic,
                )
                &&& after.0.markets[i].feed.book.current() is None
            }
        }),
{
    reveal_strlit("aggTrade");
    reveal_strlit("depthUpdate");
    assert("aggTrade"@[0] == 'a');
    assert("depthUpdate"@[0] == 'd');
    lemma_reaches_market(streams, text, data, i);
    let market = streams.markets[i];
    lemma_depth_update_accepted(
        streams.venue,
        market.symbol,
        market.feed.coin,
        data,
        local_receive,
        bids,
        asks,
    );
    if makes_book(bids, asks) {
        lemma_depth_update_says(
            streams.venue,
            market.symbol,
            market.feed.coin,
            data,
            local_receive,
        );
    }
}

} // verus!
