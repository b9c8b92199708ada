//! What Hyperliquid's messages lead to: which messages are published and which are announced as
//! interruptions.
use vstd::prelude::*;

use crate::domain::symbol::market_coin_error;
use crate::domain::Venue;
use crate::market_data::event::{EventView, ExchangeTimeUnit, UnavailabilityCategory};
use crate::market_data::order_book::{
    lemma_order_count, lemma_order_count_exists, lemma_snapshot_holds_levels, levels_valid,
};
use crate::market_data::{BookLevel, LocalObservationTime};
use crate::venue::action::{ActionView, MarketDataAdapter};
use crate::venue::feed::announces;
use crate::venue::hyperliquid::messages::{
    has_number, has_text, lemma_book_says, lemma_offer_says, lemma_trade_says, tells_book,
    tells_level, tells_offer, tells_quote, tells_trade,
};
use crate::venue::hyperliquid::wire::{
    bbo_value, book_fields, count_of, level_reader, level_reading, level_value, level_value_reader,
    side_reading, side_value, trade_value, trade_value_reader, trades_value, WireLevelView,
    WireTradeView,
};
use crate::venue::hyperliquid::{envelope, identified_trade, HyperliquidAdapter, HyperliquidView};
use crate::venue::levels::BookSide;
use crate::venue::stream_answers::makes_book;
use crate::venue::streams::event_times;
use crate::venue::wire::{
    field, first_place, lemma_all_of_items, lemma_first_place, lemma_price_read,
    lemma_quantity_read, lemma_read_all_items, member, price_reading, quantity_reading, JsonView,
};

verus! {

/// Whether a market is the first of its coin.
pub open spec fn first_of_coin(adapter: HyperliquidView, coin: Seq<char>, i: int) -> bool {
    &&& 0 <= i < adapter.markets.len()
    &&& adapter.markets[i].coin == coin
    &&& forall|j: int| 0 <= j < i ==> (#[trigger] adapter.markets[j]).coin != coin
}

proof fn lemma_reaches_market(adapter: HyperliquidView, coin: Seq<char>, i: int)
    requires
        first_of_coin(adapter, coin, i),
    ensures
        first_place(adapter.coins(), coin) == Some(i as nat),
        adapter.coins()[i] == coin,
{
    let coins = adapter.coins();
    lemma_first_place(coins, coin);
    assert(coins[i] == coin);
    let place = first_place(coins, coin)->Some_0;
    assert(coins[place as int] == adapter.markets[place as int].coin);
}

proof fn lemma_level_accepted(side: BookSide, place: nat, value: JsonView, level: BookLevel)
    requires
        value is Object,
        tells_level(value, level),
    ensures
        level_value(value) is Ok,
        level_reading(side, place, level_value(value)->Ok_0) == Ok::<BookLevel, Seq<char>>(level),
        level.valid(),
{
    let wire = level_value(value)->Ok_0;
    let count = lemma_order_count_exists(wire.n);
    assert(count.count() == wire.n);
    lemma_order_count(level.order_count->Some_0, count_of(wire.n));
    lemma_price_read(wire.px);
    lemma_quantity_read(wire.sz);
}

/// Every best bid and offer about a coin that is followed, written as objects, is published as it
/// says.
pub proof fn lemma_offer_message_published(
    adapter: HyperliquidView,
    text: Seq<char>,
    data: JsonView,
    i: int,
    bid: Option<BookLevel>,
    ask: Option<BookLevel>,
    time: u64,
    local_receive: LocalObservationTime,
    times: Seq<LocalObservationTime>,
)
    requires
        envelope(text) == Some(("bbo"@, data)),
        data is Object,
        has_text(data, "coin"@, 0, adapter.markets[i].coin),
        first_of_coin(adapter, adapter.markets[i].coin, i),
        has_number(data, "time"@, 2, time),
        field(data, "bbo"@, 1) matches Some(JsonView::List(offers)) && offers.len() == 2 && (
        offers[0] is Object || offers[0] is Null) && (offers[1] is Object || offers[1] is Null)
            && tells_quote(offers[0], bid) && tells_quote(offers[1], ask),
    ensures
        ({
            let after = adapter.after_text(text, local_receive, times);
            &&& after.0 == adapter
            &&& after.1.len() == 1
            &&& after.1[0] matches ActionView::Publish(EventView::BestBidOfferUpdated(bbo))
            &&& bbo.bid == bid
            &&& bbo.ask == ask
            &&& tells_offer(data, bbo)
            &&& bbo.coin == adapter.markets[i].coin
        }),
{
    lemma_channel_names();
    let coin = adapter.markets[i].coin;
    lemma_reaches_market(adapter, coin, i);
    let offers = field(data, "bbo"@, 1)->Some_0->List_0;
    if let Some(level) = bid {
        lemma_level_accepted(BookSide::Bid, 0, offers[0], level);
    }
    if let Some(level) = ask {
        lemma_level_accepted(BookSide::Ask, 0, offers[1], level);
    }
    assert(bbo_value(data) is Some);
    lemma_offer_says(coin, data, local_receive, times[0]);
    let after = adapter.after_text(text, local_receive, times);
    assert(after.1.len() == 1);
}

/// Whether a list holds levels, each written as an object, one by one.
pub open spec fn lists_levels(value: JsonView, levels: Seq<BookLevel>) -> bool {
    &&& value matches JsonView::List(items)
    &&& items.len() == levels.len()
    &&& forall|i: int|
        0 <= i < items.len() ==> (#[trigger] items[i]) is Object && tells_level(items[i], levels[i])
}

proof fn lemma_listed_side(side: BookSide, value: JsonView, levels: Seq<BookLevel>)
    requires
        lists_levels(value, levels),
        levels.len() <= 20,
    ensures
        levels_valid(levels),
        side_value(value) is Ok,
        side_reading(side, side_value(value)->Ok_0) == Ok::<Seq<BookLevel>, Seq<char>>(levels),
{
    let items = value->List_0;
    lemma_read_all_items(items, level_value_reader());
    assert forall|i: int| 0 <= i < items.len() implies level_value_reader()(
        i,
        #[trigger] items[i],
    ) is Ok by {
        lemma_level_accepted(side, i as nat, items[i], levels[i]);
    }
    let wires = side_value(value)->Ok_0;
    lemma_read_all_items(wires, level_reader(side));
    assert forall|i: int| 0 <= i < wires.len() implies level_reader(side)(i, #[trigger] wires[i])
        == Ok::<BookLevel, Seq<char>>(levels[i]) && levels[i].valid() by {
        assert(level_value_reader()(i, items[i]) == Ok::<WireLevelView, Seq<char>>(wires[i]));
        lemma_level_accepted(side, i as nat, items[i], levels[i]);
    }
    let read = side_reading(side, wires)->Ok_0;
    assert forall|i: int| 0 <= i < levels.len() implies #[trigger] read[i] == levels[i] by {
        assert(level_reader(side)(i, wires[i]) == Ok::<BookLevel, Seq<char>>(read[i]));
    }
    assert(read =~= levels);
    assert forall|i: int| 0 <= i < levels.len() implies (#[trigger] levels[i]).valid() by {
        assert(level_reader(side)(i, wires[i]) == Ok::<BookLevel, Seq<char>>(levels[i]));
    }
}

/// Every book about a coin that is followed reaches the market: where its levels make a book, the
/// book is published as the message says and is the market's book from then on, and where they
/// do not, the book is announced as unavailable.
pub proof fn lemma_book_message_answered(
    adapter: HyperliquidView,
    text: Seq<char>,
    data: JsonView,
    i: int,
    bids: Seq<BookLevel>,
    asks: Seq<BookLevel>,
    time: u64,
    local_receive: LocalObservationTime,
    times: Seq<LocalObservationTime>,
)
    requires
        envelope(text) == Some(("l2Book"@, data)),
        data is Object,
        has_text(data, "coin"@, 0, adapter.markets[i].coin),
        first_of_coin(adapter, adapter.markets[i].coin, i),
        market_coin_error(adapter.markets[i].coin) is None,
        has_number(data, "time"@, 1, time),
        member(data, "levels"@) matches Some(JsonView::List(sides)) && sides.len() == 2
            && lists_levels(sides[0], bids) && lists_levels(sides[1], asks),
        bids.len() <= 20,
        asks.len() <= 20,
    ensures
        ({
            let feed = adapter.markets[i];
            let after = adapter.after_text(text, local_receive, times);
            &&& after.1.len() == 1
            &&& makes_book(bids, asks) ==> {
                &&& after.1[0] matches ActionView::Publish(EventView::OrderBookSnapshot(snapshot))
                &&& tells_book(data, snapshot)
                &&& snapshot.coin == feed.coin
                &&& after.0.markets[i].book.current() == Some(snapshot)
            }
            &&& !makes_book(bids, asks) ==> {
                &&& after.1[0] matches ActionView::Publish(EventView::OrderBookUnavailable(said))
                &&& announces(
                    said,
                    feed.book.venue,
                    feed.coin,
                    local_receive,
                    UnavailabilityCategory::InvalidMarketData,
                    said.diagnostic,
                )
                &&& after.0.markets[i].book.current() is None
            }
        }),
{
    lemma_channel_names();
    let coin = adapter.markets[i].coin;
    lemma_reaches_market(adapter, coin, i);
    let sides = member(data, "levels"@)->Some_0->List_0;
    lemma_listed_side(BookSide::Bid, sides[0], bids);
    lemma_listed_side(BookSide::Ask, sides[1], asks);
    let wire = book_fields(data)->Ok_0;
    lemma_snapshot_holds_levels(
        Venue::Hyperliquid,
        coin,
        None,
        event_times(wire.time, ExchangeTimeUnit::Unknown, local_receive),
        bids,
        asks,
    );
    if makes_book(bids, asks) {
        lemma_book_says(coin, data, local_receive);
    }
}

/// A delivered trade is accepted exactly if it is about the coin and writes a price and a
/// quantity.
pub proof fn lemma_trade_accepted(
    coin: Seq<char>,
    wire: WireTradeView,
    local_receive: LocalObservationTime,
    completed: LocalObservationTime,
)
    ensures
        identified_trade(coin, wire, local_receive, completed) is Ok <==> wire.coin == coin
            && price_reading(wire.px) is Ok && quantity_reading(wire.sz) is Ok,
{
}

/// Delivered trades change neither which markets there are nor their order.
pub proof fn lemma_markets_stay(
    adapter: HyperliquidView,
    wires: Seq<WireTradeView>,
    local_receive: LocalObservationTime,
    times: Seq<LocalObservationTime>,
)
    ensures
        ({
            let after = adapter.after_trades(wires, local_receive, times).after;
            &&& after.markets.len() == adapter.markets.len()
            &&& forall|i: int|
                0 <= i < adapter.markets.len() ==> (#[trigger] after.markets[i]).coin
                    == adapter.markets[i].coin
        }),
    decreases wires.len(),
{
    if wires.len() > 0 {
        lemma_markets_stay(adapter, wires.drop_last(), local_receive, times);
        lemma_first_place(adapter.coins(), wires.last().coin);
    }
}

/// The trades of a message are all taken, in the order in which the message lists them.
pub proof fn lemma_trades_message_taken(
    adapter: HyperliquidView,
    text: Seq<char>,
    items: Seq<JsonView>,
    wires: Seq<WireTradeView>,
    local_receive: LocalObservationTime,
    times: Seq<LocalObservationTime>,
)
    requires
        envelope(text) == Some(("trades"@, JsonView::List(items))),
        items.len() == wires.len(),
        forall|i: int| 0 <= i < items.len() ==> trade_value(#[trigger] items[i]) == Some(wires[i]),
    ensures
        ({
            let outcome = adapter.after_trades(wires, local_receive, times);
            adapter.after_text(text, local_receive, times) == (outcome.after, outcome.actions)
        }),
{
    lemma_all_of_items(items, trade_value_reader());
    assert forall|i: int| 0 <= i < items.len() implies trade_value_reader()(
        #[trigger] items[i],
    ) == Some(wires[i]) by {
        assert(trade_value(items[i]) == Some(wires[i]));
    }
    let taken = trades_value(JsonView::List(items))->Some_0;
    assert forall|i: int| 0 <= i < wires.len() implies #[trigger] taken[i] == wires[i] by {
        assert(trade_value_reader()(items[i]) == Some(taken[i]));
    }
    assert(taken =~= wires);
}

/// The last of several delivered trades, unless one before it stopped the session, reaches the
/// market of its coin: one that was not seen before is published as it says and remembered, as
/// long as there is room, one that was seen is counted, and one that cannot be read is announced
/// as an interruption of the market's trades. What was asked for before stays in front.
pub proof fn lemma_delivered_trade_answered(
    adapter: HyperliquidView,
    wires: Seq<WireTradeView>,
    value: JsonView,
    i: int,
    local_receive: LocalObservationTime,
    times: Seq<LocalObservationTime>,
)
    requires
        wires.len() > 0,
        trade_value(value) == Some(wires.last()),
        first_of_coin(adapter, wires.last().coin, i),
        !adapter.after_trades(wires.drop_last(), local_receive, times).stopped,
    ensures
        ({
            let wire = wires.last();
            let before = adapter.after_trades(wires.drop_last(), local_receive, times);
            let after = adapter.after_trades(wires, local_receive, times);
            let feed = before.after.markets[i];
            let identity = (wire.time, wire.tid);
            let sound = price_reading(wire.px) is Ok && quantity_reading(wire.sz) is Ok;
            let own = after.actions.skip(before.actions.len() as int);
            &&& after.actions.take(before.actions.len() as int) == before.actions
            &&& sound && !feed.trades.seen.contains(identity) && feed.trades.seen.len()
                != feed.trades.capacity ==> {
                &&& own.len() > 0
                &&& own.last() matches ActionView::Publish(EventView::MarketTrade(trade))
                &&& tells_trade(value, trade)
                &&& after.after.markets[i].trades.seen == feed.trades.seen.push(identity)
                &&& after.after.markets[i].trade_available
            }
            &&& sound && feed.trades.seen.contains(identity) ==> own == seq![
                ActionView::TradeDeduplicated(i as nat),
            ]
            &&& !sound ==> {
                &&& own.len() == 1
                &&& own[0] matches ActionView::Publish(EventView::TradeStreamUnavailable(said))
                &&& announces(
                    said,
                    feed.book.venue,
                    feed.coin,
                    local_receive,
                    UnavailabilityCategory::InvalidMarketData,
                    said.diagnostic,
                )
                &&& !after.after.markets[i].trade_available
            }
        }),
{
    let wire = wires.last();
    let last = wires.len() - 1;
    let before = adapter.after_trades(wires.drop_last(), local_receive, times);
    let after = adapter.after_trades(wires, local_receive, times);
    let feed = before.after.markets[i];
    lemma_reaches_market(adapter, wire.coin, i);
    lemma_markets_stay(adapter, wires.drop_last(), local_receive, times);
    let decoded = identified_trade(feed.coin, wire, local_receive, times[last]);
    let step = feed.after_trade(i as nat, local_receive, decoded);
    lemma_trade_accepted(feed.coin, wire, local_receive, times[last]);
    if decoded is Ok {
        lemma_trade_says(feed.coin, value, local_receive, times[last]);
    }
    assert(after.actions == before.actions + step.1);
    assert(after.actions.take(before.actions.len() as int) =~= before.actions);
    assert(after.actions.skip(before.actions.len() as int) =~= step.1);
}

/// At every heartbeat, fifty seconds apart, a ping is sent and nothing changes.
pub proof fn lemma_heartbeat_pings(
    before: HyperliquidAdapter,
    after: HyperliquidAdapter,
    actions: Seq<ActionView>,
)
    requires
        HyperliquidAdapter::answers_heartbeat(before, after, actions),
    ensures
        actions.len() == 1,
        actions[0] == ActionView::SendText("{\"method\":\"ping\"}"@),
        after@ == before@,
        before.identity_of().heartbeat == Some(50u64),
{
}

proof fn lemma_channel_names()
    ensures
        "trades"@ != "bbo"@,
        "trades"@ != "l2Book"@,
        "bbo"@ != "l2Book"@,
{
    reveal_strlit("trades");
    reveal_strlit("bbo");
    reveal_strlit("l2Book");
    assert("trades"@[0] == 't');
    assert("bbo"@[0] == 'b');
    assert("l2Book"@[0] == 'l');
}

} // verus!
