//! What Lighter's messages say: how the fields of a message become the fields of what is
//! published.
use vstd::prelude::*;
use vstd::utf8::encode_utf8;

use crate::domain::decimal::DecimalParseError;
use crate::domain::symbol::market_coin_error;
use crate::domain::{Price, Quantity, Venue};
use crate::market_data::event::{
    AggressorSide, AggressorSideClassification, EventView, ExchangeTimeKind, ExchangeTimeUnit,
    IdentityView, MarketTradeKind, MarketTradeReportingKind, TradeView,
};
use crate::market_data::LocalObservationTime;
use crate::venue::action::ActionView;
use crate::venue::lighter::book::{identified_trade, LighterMarketView};
use crate::venue::lighter::ladder::listable;
use crate::venue::lighter::updates::{
    book_shows, lemma_snapshot_replaces_book, lemma_update_changes_book, takes_to,
};
use crate::venue::lighter::wire::{
    ascii_lower_case, book_value, channel_market, envelope_text, level_value_reader, levels_at,
    levels_value, trade_value, trade_value_reader, trades_at, WireBookView, WireLevelView,
    WireTradeView,
};
use crate::venue::lighter::{after_trades, book_actions, LighterView};
use crate::venue::raw::{list_items, parts_of, FieldView, PartsView};
use crate::venue::wire::{
    lemma_all_of_items, lemma_first_place, price_reading, quantity_reading, JsonView,
};

verus! {

/// A field writes a price.
pub open spec fn has_price(parts: PartsView, key: Seq<char>, place: nat, price: Price) -> bool {
    &&& parts.value(key, place) matches Some(JsonView::Text(text))
    &&& price_reading(text) == Ok::<Price, DecimalParseError>(price)
}

/// A field writes a quantity.
pub open spec fn has_quantity(
    parts: PartsView,
    key: Seq<char>,
    place: nat,
    quantity: Quantity,
) -> bool {
    &&& parts.value(key, place) matches Some(JsonView::Text(text))
    &&& quantity_reading(text) == Ok::<Quantity, DecimalParseError>(quantity)
}

/// Whether a kind of trade is what a word says, in whatever case it is written.
pub open spec fn tells_kind(word: Seq<char>, kind: MarketTradeKind) -> bool {
    let lower = ascii_lower_case(word);
    &&& kind == MarketTradeKind::Regular <==> lower == "trade"@ || lower == "regular"@
    &&& kind == MarketTradeKind::Liquidation <==> lower == "liquidation"@
    &&& kind == MarketTradeKind::Deleverage <==> lower == "deleverage"@
    &&& kind == MarketTradeKind::MarketSettlement <==> lower == "market_settlement"@ || lower
        == "market-settlement"@
}

/// Whether a trade is what a delivered trade says. A maker that sold (`is_maker_ask` is true)
/// makes the buyer the aggressor, one that bought the seller.
pub open spec fn tells_trade(parts: PartsView, trade: TradeView) -> bool {
    &&& trade.aggressor_side == AggressorSide::Buy <==> parts.value("is_maker_ask"@, 5) == Some(
        JsonView::Bool(true),
    )
    &&& trade.aggressor_side == AggressorSide::Sell <==> parts.value("is_maker_ask"@, 5) == Some(
        JsonView::Bool(false),
    )
    &&& trade.aggressor_side_classification == AggressorSideClassification::DerivedFromMakerSide
    &&& has_price(parts, "price"@, 4, trade.price)
    &&& has_quantity(parts, "size"@, 3, trade.quantity)
    &&& trade.venue == Venue::Lighter
    &&& trade.reporting_kind == MarketTradeReportingKind::Individual
    &&& parts.value("type"@, 1) matches Some(JsonView::Text(word))
    &&& tells_kind(word, trade.trade_kind)
    &&& trade.timestamps.exchange_times.len() == 2
    &&& trade.timestamps.exchange_times[0].kind == ExchangeTimeKind::EventTime
    &&& parts.number("timestamp"@, 6) == Some(trade.timestamps.exchange_times[0].raw_value)
    &&& trade.timestamps.exchange_times[0].declared_unit == ExchangeTimeUnit::Unknown
    &&& trade.timestamps.exchange_times[1].kind == ExchangeTimeKind::TransactionTime
    &&& parts.number("transaction_time"@, 7) == Some(
        trade.timestamps.exchange_times[1].raw_value,
    )
    &&& trade.timestamps.exchange_times[1].declared_unit == ExchangeTimeUnit::Unknown
    &&& trade.identity matches IdentityView::Lighter { market_id, trade_id, .. }
    &&& parts.number("market_id"@, 2) == Some(market_id as u64)
    &&& parts.value("trade_id_str"@, 0) == Some(JsonView::Text(trade_id))
}

proof fn lemma_kinds_distinct()
    ensures
        "trade"@ != "liquidation"@,
        "trade"@ != "deleverage"@,
        "trade"@ != "market_settlement"@,
        "trade"@ != "market-settlement"@,
        "regular"@ != "liquidation"@,
        "regular"@ != "deleverage"@,
        "regular"@ != "market_settlement"@,
        "regular"@ != "market-settlement"@,
        "liquidation"@ != "deleverage"@,
        "liquidation"@ != "market_settlement"@,
        "liquidation"@ != "market-settlement"@,
        "deleverage"@ != "market_settlement"@,
        "deleverage"@ != "market-settlement"@,
{
    reveal_strlit("trade");
    reveal_strlit("regular");
    reveal_strlit("liquidation");
    reveal_strlit("deleverage");
    reveal_strlit("market_settlement");
    reveal_strlit("market-settlement");
    assert("trade"@[0] == 't');
    assert("regular"@[0] == 'r');
    assert("liquidation"@[0] == 'l');
    assert("deleverage"@[0] == 'd');
    assert("market_settlement"@[0] == 'm');
    assert("market-settlement"@[0] == 'm');
}

/// A delivered trade that is accepted is published as it says, with the number of its
/// message; trades are told apart by market and by their text number.
pub proof fn lemma_trade_says(
    market: LighterMarketView,
    message_nonce: Option<u64>,
    bytes: Seq<u8>,
    local_receive: LocalObservationTime,
    completed: LocalObservationTime,
)
    requires
        trade_value(bytes) is Some,
        identified_trade(
            market,
            message_nonce,
            trade_value(bytes)->Some_0,
            local_receive,
            completed,
        ) is Ok,
    ensures
        ({
            let (trade, identity) = identified_trade(
                market,
                message_nonce,
                trade_value(bytes)->Some_0,
                local_receive,
                completed,
            )->Ok_0;
            let parts = parts_of(bytes)->Some_0;
            &&& parts_of(bytes) is Some
            &&& tells_trade(parts, trade)
            &&& trade.coin == market.feed.coin
            &&& trade.identity matches IdentityView::Lighter { market_id, message_nonce: nonce, .. }
            &&& market_id == market.market_id
            &&& nonce == message_nonce
            &&& identity.0 == market.market_id
            &&& parts.value("trade_id_str"@, 0) == Some(JsonView::Text(identity.1))
            &&& trade.timestamps.local_receive == local_receive
            &&& trade.timestamps.processing_completed == completed
        }),
{
    lemma_kinds_distinct();
}

/// Whether a level is what a delivered level says.
pub open spec fn tells_level(bytes: Seq<u8>, level: WireLevelView) -> bool {
    &&& parts_of(bytes) matches Some(parts)
    &&& parts.value("price"@, 0) == Some(JsonView::Text(level.price))
    &&& parts.value("size"@, 1) == Some(JsonView::Text(level.size))
}

/// Whether levels are what a list says, in its order.
pub open spec fn tells_levels(bytes: Seq<u8>, levels: Seq<WireLevelView>) -> bool {
    &&& list_items(bytes) matches Some(items)
    &&& items.len() == levels.len()
    &&& forall|i: int| 0 <= i < items.len() ==> tells_level(#[trigger] items[i], levels[i])
}

/// Whether a book is what its fields say: `bids` are the bids and `asks` the asks.
pub open spec fn tells_book(bytes: Seq<u8>, book: WireBookView) -> bool {
    &&& parts_of(bytes) matches Some(parts)
    &&& parts.part("bids"@, 1) matches FieldView::Given(bids)
    &&& tells_levels(bids, book.bids)
    &&& parts.part("asks"@, 0) matches FieldView::Given(asks)
    &&& tells_levels(asks, book.asks)
    &&& parts.number("nonce"@, 2) == Some(book.nonce)
    &&& parts.number("begin_nonce"@, 3) == Some(book.begin_nonce)
    &&& parts.number("last_updated_at"@, 4) == Some(book.last_updated_at)
}

proof fn lemma_levels_say(bytes: Seq<u8>)
    requires
        levels_value(bytes) is Some,
    ensures
        tells_levels(bytes, levels_value(bytes)->Some_0),
{
    let items = list_items(bytes)->Some_0;
    let levels = levels_value(bytes)->Some_0;
    lemma_all_of_items(items, level_value_reader());
    assert forall|i: int| 0 <= i < items.len() implies tells_level(
        #[trigger] items[i],
        levels[i],
    ) by {
        assert(level_value_reader()(items[i]) == Some(levels[i]));
    }
}

/// A delivered book is read as its fields say.
pub proof fn lemma_book_says(bytes: Seq<u8>)
    requires
        book_value(bytes) is Some,
    ensures
        tells_book(bytes, book_value(bytes)->Some_0),
{
    let parts = parts_of(bytes)->Some_0;
    assert(levels_at(parts, "bids"@, 1) is Some);
    assert(levels_at(parts, "asks"@, 0) is Some);
    lemma_levels_say(parts.part("bids"@, 1)->Given_0);
    lemma_levels_say(parts.part("asks"@, 0)->Given_0);
}

/// A message is read as its fields say: its kind, its channel and its number, and the book
/// under `order_book`.
pub proof fn lemma_message_says(text: Seq<char>)
    requires
        envelope_text(text) is Some,
    ensures
        ({
            let envelope = envelope_text(text)->Some_0;
            &&& parts_of(encode_utf8(text)) matches Some(parts)
            &&& parts.value("type"@, 0) == Some(JsonView::Text(envelope.kind))
            &&& parts.part("channel"@, 1) is Absent ==> envelope.channel.len() == 0
            &&& !(parts.part("channel"@, 1) is Absent) ==> parts.value("channel"@, 1) == Some(
                JsonView::Text(envelope.channel),
            )
            &&& envelope.order_book matches Some(book) ==> {
                &&& parts.part("order_book"@, 2) matches FieldView::Given(bytes)
                &&& tells_book(bytes, book)
            }
            &&& envelope.nonce matches Some(nonce) ==> parts.number("nonce"@, 5) == Some(nonce)
        }),
{
    let envelope = envelope_text(text)->Some_0;
    let parts = parts_of(encode_utf8(text))->Some_0;
    if let Some(book) = envelope.order_book {
        lemma_book_says(parts.part("order_book"@, 2)->Given_0);
    }
}

/// Every book that a text makes the adapter publish is the book of the market that the
/// channel names, as the message's levels make it: after changes each side is what it was
/// but at the prices that the message names, where it is what the message says; after a full
/// book each side is what the message says. It is published with all of both sides.
pub proof fn lemma_published_book_follows_message(
    adapter: LighterView,
    text: Seq<char>,
    local_receive: LocalObservationTime,
    times: Seq<LocalObservationTime>,
    k: int,
)
    requires
        0 <= k < adapter.after_text(text, local_receive, times).1.len(),
        adapter.after_text(text, local_receive, times).1[k] matches ActionView::Publish(
            EventView::OrderBookSnapshot(_),
        ),
        forall|i: int|
            0 <= i < adapter.markets.len() ==> market_coin_error(
                (#[trigger] adapter.markets[i]).feed.coin,
            ) is None,
        forall|i: int|
            0 <= i < adapter.markets.len() ==> listable((#[trigger] adapter.markets[i]).bids)
                && listable(adapter.markets[i].asks),
    ensures
        ({
            let after = adapter.after_text(text, local_receive, times);
            let snapshot = after.1[k]->Publish_0->OrderBookSnapshot_0;
            &&& after.1.len() == 1
            &&& envelope_text(text) matches Some(envelope)
            &&& adapter.routed(envelope.channel, "order_book:"@) matches Some(index)
            &&& index < adapter.markets.len()
            &&& channel_market(envelope.channel, "order_book:"@) == Some(
                adapter.markets[index as int].market_id,
            )
            &&& envelope.order_book matches Some(wire)
            &&& after.0.markets[index as int].feed.book.current() == Some(snapshot)
            &&& book_shows(after.0.markets[index as int], wire, local_receive)
            &&& envelope.kind == "update/order_book"@ || envelope.kind == "subscribed/order_book"@
            &&& envelope.kind == "update/order_book"@ ==> {
                let market = adapter.markets[index as int];
                &&& market.nonce == Some(wire.begin_nonce)
                &&& takes_to(wire.bids, market.bids, after.0.markets[index as int].bids)
                &&& takes_to(wire.asks, market.asks, after.0.markets[index as int].asks)
            }
            &&& envelope.kind == "subscribed/order_book"@ ==> {
                &&& takes_to(wire.bids, Map::empty(), after.0.markets[index as int].bids)
                &&& takes_to(wire.asks, Map::empty(), after.0.markets[index as int].asks)
            }
        }),
{
    lemma_message_kinds();
    let after = adapter.after_text(text, local_receive, times);
    let envelope = envelope_text(text)->Some_0;
    if envelope.kind == "subscribed/trade"@ || envelope.kind == "update/trade"@ {
        let index = adapter.routed(envelope.channel, "trade:"@)->Some_0;
        lemma_trades_publish_trades(
            adapter.markets[index as int],
            index,
            envelope.nonce,
            envelope.trades + envelope.liquidation_trades,
            local_receive,
            times,
            k,
        );
    } else if envelope.kind == "connected"@ {
        crate::venue::lighter::lemma_subscriptions_publish_nothing(adapter.market_ids());
    } else {
        let index = adapter.routed(envelope.channel, "order_book:"@)->Some_0;
        let market_id = channel_market(envelope.channel, "order_book:"@)->Some_0;
        lemma_first_place(adapter.market_ids(), market_id);
        let market = adapter.markets[index as int];
        assert(adapter.market_ids()[index as int] == market.market_id);
        let step = market.after_envelope(envelope, local_receive, times[0]);
        assert(after.1 == book_actions(index, step.0, step.1, local_receive));
        assert(step.1 is Ok);
        assert(after.0.markets[index as int] == step.0);
        let wire = envelope.order_book->Some_0;
        if envelope.kind == "subscribed/order_book"@ {
            lemma_snapshot_replaces_book(market, wire, local_receive, times[0]);
        } else {
            lemma_update_changes_book(market, wire, local_receive, times[0]);
        }
    }
}

pub(crate) proof fn lemma_message_kinds()
    ensures
        "subscribed/order_book"@ != "update/order_book"@,
        "subscribed/order_book"@ != "connected"@,
        "subscribed/order_book"@ != "ping"@,
        "update/order_book"@ != "connected"@,
        "update/order_book"@ != "ping"@,
        "subscribed/order_book"@ != "subscribed/trade"@,
        "subscribed/order_book"@ != "update/trade"@,
        "update/order_book"@ != "subscribed/trade"@,
        "update/order_book"@ != "update/trade"@,
        "subscribed/trade"@ != "connected"@,
        "subscribed/trade"@ != "ping"@,
        "update/trade"@ != "connected"@,
        "update/trade"@ != "ping"@,
{
    reveal_strlit("subscribed/order_book");
    reveal_strlit("update/order_book");
    reveal_strlit("connected");
    reveal_strlit("ping");
    reveal_strlit("subscribed/trade");
    reveal_strlit("update/trade");
    assert("subscribed/order_book"@.len() == 21);
    assert("update/order_book"@.len() == 17);
    assert("connected"@.len() == 9);
    assert("ping"@.len() == 4);
    assert("subscribed/trade"@.len() == 16);
    assert("update/trade"@.len() == 12);
}

proof fn lemma_trades_publish_trades(
    market: LighterMarketView,
    index: nat,
    message_nonce: Option<u64>,
    wires: Seq<WireTradeView>,
    local_receive: LocalObservationTime,
    times: Seq<LocalObservationTime>,
    k: int,
)
    requires
        0 <= k < after_trades(
            market,
            index,
            message_nonce,
            wires,
            local_receive,
            times,
        ).actions.len(),
    ensures
        !(after_trades(
            market,
            index,
            message_nonce,
            wires,
            local_receive,
            times,
        ).actions[k] matches ActionView::Publish(EventView::OrderBookSnapshot(_))),
    decreases wires.len(),
{
    if wires.len() > 0 {
        let before = after_trades(
            market,
            index,
            message_nonce,
            wires.drop_last(),
            local_receive,
            times,
        );
        if k < before.actions.len() {
            lemma_trades_publish_trades(
                market,
                index,
                message_nonce,
                wires.drop_last(),
                local_receive,
                times,
                k,
            );
        }
    }
}

/// Delivered trades are taken in the order in which they come: what is published of the
/// first of them is published first.
pub proof fn lemma_trades_in_order(
    market: LighterMarketView,
    index: nat,
    message_nonce: Option<u64>,
    wires: Seq<WireTradeView>,
    count: int,
    local_receive: LocalObservationTime,
    times: Seq<LocalObservationTime>,
)
    requires
        0 <= count <= wires.len(),
    ensures
        after_trades(
            market,
            index,
            message_nonce,
            wires.take(count),
            local_receive,
            times,
        ).actions.is_prefix_of(
            after_trades(market, index, message_nonce, wires, local_receive, times).actions,
        ),
    decreases wires.len(),
{
    let first = after_trades(
        market,
        index,
        message_nonce,
        wires.take(count),
        local_receive,
        times,
    ).actions;
    let all = after_trades(market, index, message_nonce, wires, local_receive, times).actions;
    if count == wires.len() {
        assert(wires.take(count) =~= wires);
        assert(first =~= first.subrange(0, first.len() as int));
    } else {
        let rest = wires.drop_last();
        assert(rest.take(count) =~= wires.take(count));
        lemma_trades_in_order(market, index, message_nonce, rest, count, local_receive, times);
        let before = after_trades(
            market,
            index,
            message_nonce,
            rest,
            local_receive,
            times,
        ).actions;
        assert(all.subrange(0, before.len() as int) =~= before);
        assert(all.subrange(0, first.len() as int) =~= before.subrange(0, first.len() as int));
    }
}

/// Whether a field lists a trade that says the published one.
pub open spec fn listed_trade(parts: PartsView, key: Seq<char>, place: nat, trade: TradeView) -> bool {
    &&& parts.part(key, place) matches FieldView::Given(bytes)
    &&& list_items(bytes) matches Some(items)
    &&& exists|i: int|
        0 <= i < items.len() && parts_of(#[trigger] items[i]) is Some && tells_trade(
            parts_of(items[i])->Some_0,
            trade,
        )
}

/// Whether a delivered trade makes a published one.
pub open spec fn makes_trade(
    market: LighterMarketView,
    message_nonce: Option<u64>,
    wire: WireTradeView,
    local_receive: LocalObservationTime,
    trade: TradeView,
) -> bool {
    exists|completed: LocalObservationTime|
        #[trigger] identified_trade(market, message_nonce, wire, local_receive, completed) matches Ok(
            (made, _),
        ) && made == trade
}

proof fn lemma_trade_made(
    market: LighterMarketView,
    index: nat,
    message_nonce: Option<u64>,
    wires: Seq<WireTradeView>,
    local_receive: LocalObservationTime,
    times: Seq<LocalObservationTime>,
    k: int,
) -> (place: int)
    requires
        0 <= k < after_trades(
            market,
            index,
            message_nonce,
            wires,
            local_receive,
            times,
        ).actions.len(),
        after_trades(
            market,
            index,
            message_nonce,
            wires,
            local_receive,
            times,
        ).actions[k] matches ActionView::Publish(EventView::MarketTrade(_)),
    ensures
        0 <= place < wires.len(),
        makes_trade(
            market,
            message_nonce,
            wires[place],
            local_receive,
            after_trades(
                market,
                index,
                message_nonce,
                wires,
                local_receive,
                times,
            ).actions[k]->Publish_0->MarketTrade_0,
        ),
    decreases wires.len(),
{
    let rest = wires.drop_last();
    let before = after_trades(market, index, message_nonce, rest, local_receive, times);
    lemma_trades_keep_market(market, index, message_nonce, rest, local_receive, times);
    if k < before.actions.len() {
        lemma_trade_made(market, index, message_nonce, rest, local_receive, times, k)
    } else {
        let last = wires.len() - 1;
        let decoded = identified_trade(
            before.after,
            message_nonce,
            wires[last],
            local_receive,
            times[last],
        );
        assert(decoded == identified_trade(
            market,
            message_nonce,
            wires[last],
            local_receive,
            times[last],
        ));
        last
    }
}

proof fn lemma_trades_keep_market(
    market: LighterMarketView,
    index: nat,
    message_nonce: Option<u64>,
    wires: Seq<WireTradeView>,
    local_receive: LocalObservationTime,
    times: Seq<LocalObservationTime>,
)
    ensures
        ({
            let after = after_trades(
                market,
                index,
                message_nonce,
                wires,
                local_receive,
                times,
            ).after;
            &&& after.market_id == market.market_id
            &&& after.feed.coin == market.feed.coin
        }),
    decreases wires.len(),
{
    if wires.len() > 0 {
        lemma_trades_keep_market(
            market,
            index,
            message_nonce,
            wires.drop_last(),
            local_receive,
            times,
        );
    }
}

proof fn lemma_listed_trade(
    parts: PartsView,
    key: Seq<char>,
    place: nat,
    wires: Seq<WireTradeView>,
    i: int,
    market: LighterMarketView,
    message_nonce: Option<u64>,
    local_receive: LocalObservationTime,
    trade: TradeView,
)
    requires
        trades_at(parts, key, place) == Some(wires),
        0 <= i < wires.len(),
        makes_trade(market, message_nonce, wires[i], local_receive, trade),
    ensures
        listed_trade(parts, key, place, trade),
        trade.coin == market.feed.coin,
{
    let bytes = parts.part(key, place)->Given_0;
    let items = list_items(bytes)->Some_0;
    lemma_all_of_items(items, trade_value_reader());
    assert(trade_value_reader()(items[i]) == Some(wires[i]));
    let completed = choose|completed: LocalObservationTime|
        #[trigger] identified_trade(market, message_nonce, wires[i], local_receive, completed) matches Ok(
            (made, _),
        ) && made == trade;
    lemma_trade_says(market, message_nonce, items[i], local_receive, completed);
    assert(parts_of(items[i]) is Some);
}

/// Every trade that a text makes the adapter publish is what a trade says that the message
/// lists under `trades` or `liquidation_trades`, and is of the market that the channel names:
/// in particular the buyer is the aggressor exactly if the maker sold.
pub proof fn lemma_published_trade_says(
    adapter: LighterView,
    text: Seq<char>,
    local_receive: LocalObservationTime,
    times: Seq<LocalObservationTime>,
    k: int,
)
    requires
        0 <= k < adapter.after_text(text, local_receive, times).1.len(),
        adapter.after_text(text, local_receive, times).1[k] matches ActionView::Publish(
            EventView::MarketTrade(_),
        ),
    ensures
        ({
            let trade =
                adapter.after_text(text, local_receive, times).1[k]->Publish_0->MarketTrade_0;
            &&& parts_of(encode_utf8(text)) matches Some(parts)
            &&& listed_trade(parts, "trades"@, 3, trade) || listed_trade(
                parts,
                "liquidation_trades"@,
                4,
                trade,
            )
            &&& envelope_text(text) matches Some(envelope)
            &&& adapter.routed(envelope.channel, "trade:"@) matches Some(index)
            &&& trade.coin == adapter.markets[index as int].feed.coin
        }),
{
    lemma_message_kinds();
    let parts = parts_of(encode_utf8(text))->Some_0;
    let envelope = envelope_text(text)->Some_0;
    let trade = adapter.after_text(text, local_receive, times).1[k]->Publish_0->MarketTrade_0;
    if envelope.kind == "connected"@ {
        crate::venue::lighter::lemma_subscriptions_publish_nothing(adapter.market_ids());
    } else if envelope.kind == "subscribed/trade"@ || envelope.kind == "update/trade"@ {
        let index = adapter.routed(envelope.channel, "trade:"@)->Some_0;
        let market = adapter.markets[index as int];
        let wires = envelope.trades + envelope.liquidation_trades;
        let place = lemma_trade_made(
            market,
            index,
            envelope.nonce,
            wires,
            local_receive,
            times,
            k,
        );
        if place < envelope.trades.len() {
            lemma_listed_trade(
                parts,
                "trades"@,
                3,
                envelope.trades,
                place,
                market,
                envelope.nonce,
                local_receive,
                trade,
            );
        } else {
            lemma_listed_trade(
                parts,
                "liquidation_trades"@,
                4,
                envelope.liquidation_trades,
                place - envelope.trades.len(),
                market,
                envelope.nonce,
                local_receive,
                trade,
            );
        }
    }
}

} // verus!
