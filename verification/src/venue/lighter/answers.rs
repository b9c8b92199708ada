//! What Lighter's messages lead to: which messages are published, which are announced as
//! interruptions, and what is asked for in return.
use vstd::prelude::*;

use crate::domain::symbol::market_coin_error;
use crate::domain::Venue;
use crate::market_data::event::{EventView, UnavailabilityCategory};
use crate::market_data::LocalObservationTime;
use crate::venue::action::{ActionView, MarketDataAdapter};
use crate::venue::feed::announces;
use crate::venue::levels::BookSide;
use crate::venue::lighter::book::{
    identified_trade, side_changes, snapshot_side, ErrorView, HandleOutcome, LighterMarketView,
};
use crate::venue::lighter::ladder::listable;
use crate::venue::lighter::messages::{lemma_message_kinds, lemma_trade_says, tells_trade};
use crate::venue::lighter::updates::{
    apart, book_shows, distinct_prices, lemma_snapshot_accepted, lemma_snapshot_replaces_book,
    lemma_update_accepted, lemma_update_changes_book, occupied, positive, readable,
};
use crate::venue::lighter::wire::{
    channel_market, envelope_text, trade_value, WireBookView, WireLevelView, WireTradeView,
};
use crate::venue::lighter::{
    after_trades, book_actions, recovery, subscriptions, LighterAdapter, LighterView,
};
use crate::venue::raw::parts_of;
use crate::venue::wire::{first_place, lemma_first_place, price_reading, quantity_reading};

verus! {

/// A new connection is answered by following every market, a ping by a pong, and a message of
/// any other kind than these and those about books and trades by nothing. None of them changes
/// anything about a market.
pub proof fn lemma_kinds_answered(
    adapter: LighterView,
    text: Seq<char>,
    local_receive: LocalObservationTime,
    times: Seq<LocalObservationTime>,
)
    requires
        envelope_text(text) is Some,
    ensures
        ({
            let kind = envelope_text(text)->Some_0.kind;
            let after = adapter.after_text(text, local_receive, times);
            &&& kind == "connected"@ ==> after == (adapter, subscriptions(adapter.market_ids()))
            &&& kind == "ping"@ ==> after == (
                adapter,
                seq![ActionView::SendText("{\"type\":\"pong\"}"@)],
            )
            &&& kind != "connected"@ && kind != "ping"@ && kind != "subscribed/trade"@ && kind
                != "update/trade"@ && kind != "subscribed/order_book"@ && kind
                != "update/order_book"@ ==> after == (adapter, Seq::<ActionView>::empty())
        }),
{
    lemma_message_kinds();
    reveal_strlit("connected");
    reveal_strlit("ping");
    assert("connected"@.len() == 9 && "ping"@.len() == 4);
}

/// Whether a channel names the number of the market, which no market before it has.
pub open spec fn names_market(
    adapter: LighterView,
    channel: Seq<char>,
    prefix: Seq<char>,
    i: int,
) -> bool {
    &&& 0 <= i < adapter.markets.len()
    &&& channel_market(channel, prefix) == Some(adapter.markets[i].market_id)
    &&& forall|j: int|
        0 <= j < i ==> (#[trigger] adapter.markets[j]).market_id != adapter.markets[i].market_id
}

proof fn lemma_reaches_market(
    adapter: LighterView,
    channel: Seq<char>,
    prefix: Seq<char>,
    i: int,
)
    requires
        names_market(adapter, channel, prefix, i),
    ensures
        adapter.routed(channel, prefix) == Some(i as nat),
{
    let ids = adapter.market_ids();
    let id = adapter.markets[i].market_id;
    lemma_first_place(ids, id);
    assert(ids[i] == id);
    let place = first_place(ids, id)->Some_0;
    assert(ids[place as int] == adapter.markets[place as int].market_id);
}

/// Whether actions announce that the book of a market is not available for a reason, and ask for
/// a full book again.
pub open spec fn asks_again(
    actions: Seq<ActionView>,
    index: nat,
    coin: Seq<char>,
    market_id: u32,
    local_receive: LocalObservationTime,
    category: UnavailabilityCategory,
) -> bool {
    &&& actions.len() == 4
    &&& actions[0] matches ActionView::Publish(EventView::OrderBookUnavailable(said))
    &&& announces(said, Venue::Lighter, coin, local_receive, category, said.diagnostic)
    &&& actions.skip(1) == recovery(index, market_id)
}

proof fn lemma_book_answer(
    index: nat,
    after: LighterMarketView,
    outcome: Result<HandleOutcome, ErrorView>,
    local_receive: LocalObservationTime,
)
    ensures
        ({
            let actions = book_actions(index, after, outcome, local_receive);
            &&& outcome == Ok::<HandleOutcome, ErrorView>(HandleOutcome::Applied)
                && after.feed.book.current() is Some ==> actions.len() == 1 && actions[0]
                == ActionView::Publish(
                EventView::OrderBookSnapshot(after.feed.book.current()->Some_0),
            )
            &&& outcome matches Err(error) ==> {
                &&& error != ErrorView::UpdateBeforeSnapshot && !(error is NonceGap) ==> asks_again(
                    actions,
                    index,
                    after.feed.coin,
                    after.market_id,
                    local_receive,
                    UnavailabilityCategory::InvalidMarketData,
                )
                &&& error is NonceGap ==> asks_again(
                    actions,
                    index,
                    after.feed.coin,
                    after.market_id,
                    local_receive,
                    UnavailabilityCategory::SequenceGap,
                )
                &&& error == ErrorView::UpdateBeforeSnapshot ==> {
                    &&& actions.len() == 1
                    &&& actions[0] matches ActionView::Publish(
                        EventView::OrderBookUnavailable(said),
                    )
                    &&& said.category == UnavailabilityCategory::InvalidMarketData
                }
            }
        }),
{
    let actions = book_actions(index, after, outcome, local_receive);
    if actions.len() == 4 {
        assert(actions.skip(1) =~= recovery(index, after.market_id));
    }
}

proof fn lemma_update_refused(
    market: LighterMarketView,
    wire: WireBookView,
    local_receive: LocalObservationTime,
    completed: LocalObservationTime,
)
    ensures
        ({
            let step = market.after_update(wire, local_receive, completed);
            &&& step.0.feed.coin == market.feed.coin
            &&& step.0.market_id == market.market_id
            &&& step.1 matches Ok(outcome) ==> outcome == HandleOutcome::Applied
            &&& step.1 matches Err(error) ==> {
                &&& step.0.feed.book.current() is None
                &&& step.0.nonce is None
                &&& error == ErrorView::UpdateBeforeSnapshot <==> market.nonce is None
                &&& error is NonceGap <==> market.nonce is Some && market.nonce != Some(
                    wire.begin_nonce,
                )
            }
            &&& market.nonce != Some(wire.begin_nonce) ==> step.1 is Err
        }),
{
    if let Err(error) = side_changes(wire.bids, BookSide::Bid) {
        lemma_side_errors(wire.bids, BookSide::Bid);
    }
    if let Err(error) = side_changes(wire.asks, BookSide::Ask) {
        lemma_side_errors(wire.asks, BookSide::Ask);
    }
}

proof fn lemma_side_errors(levels: Seq<WireLevelView>, side: BookSide)
    ensures
        side_changes(levels, side) matches Err(error) ==> error
            != ErrorView::UpdateBeforeSnapshot && !(error is NonceGap),
        snapshot_side(levels, side) matches Err(error) ==> error
            != ErrorView::UpdateBeforeSnapshot && !(error is NonceGap),
    decreases levels.len(),
{
    if levels.len() > 0 {
        lemma_side_errors(levels.drop_last(), side);
    }
}

proof fn lemma_snapshot_refused(
    market: LighterMarketView,
    wire: WireBookView,
    local_receive: LocalObservationTime,
    completed: LocalObservationTime,
)
    ensures
        ({
            let step = market.after_snapshot(wire, local_receive, completed);
            &&& step.0.feed.coin == market.feed.coin
            &&& step.0.market_id == market.market_id
            &&& step.1 matches Err(error) ==> {
                &&& step.0.feed.book.current() is None
                &&& step.0.nonce is None
                &&& error != ErrorView::UpdateBeforeSnapshot
                &&& !(error is NonceGap)
            }
        }),
{
    lemma_side_errors(wire.bids, BookSide::Bid);
    lemma_side_errors(wire.asks, BookSide::Ask);
}

/// Every numbered change about a market that is followed reaches the market. One that follows
/// without a gap, that can be read and that leaves a book makes the market publish that book; one
/// that leaves none, and one behind a gap, is announced, and a full book is asked for again; one
/// that comes before any full book is announced and nothing is asked for.
pub proof fn lemma_update_message_answered(
    adapter: LighterView,
    text: Seq<char>,
    i: int,
    local_receive: LocalObservationTime,
    times: Seq<LocalObservationTime>,
)
    requires
        envelope_text(text) matches Some(envelope) && envelope.kind == "update/order_book"@
            && envelope.order_book is Some && names_market(
            adapter,
            envelope.channel,
            "order_book:"@,
            i,
        ),
        market_coin_error(adapter.markets[i].feed.coin) is None,
        listable(adapter.markets[i].bids),
        listable(adapter.markets[i].asks),
    ensures
        ({
            let market = adapter.markets[i];
            let wire = envelope_text(text)->Some_0.order_book->Some_0;
            let after = adapter.after_text(text, local_receive, times);
            let now = after.0.markets[i];
            let sound = readable(wire.bids) && readable(wire.asks) && distinct_prices(wire.bids)
                && distinct_prices(wire.asks);
            &&& market.nonce == Some(wire.begin_nonce) && sound && occupied(now.bids) && occupied(
                now.asks,
            ) && apart(now.bids, now.asks) ==> {
                &&& after.1.len() == 1
                &&& after.1[0] matches ActionView::Publish(EventView::OrderBookSnapshot(snapshot))
                &&& now.feed.book.current() == Some(snapshot)
                &&& book_shows(now, wire, local_receive)
                &&& now.nonce == Some(wire.nonce)
            }
            &&& market.nonce == Some(wire.begin_nonce) && sound && !(occupied(now.bids)
                && occupied(now.asks) && apart(now.bids, now.asks)) ==> {
                &&& asks_again(
                    after.1,
                    i as nat,
                    market.feed.coin,
                    market.market_id,
                    local_receive,
                    UnavailabilityCategory::InvalidMarketData,
                )
                &&& now.feed.book.current() is None
                &&& now.nonce is None
            }
            &&& market.nonce is Some && market.nonce != Some(wire.begin_nonce) ==> {
                &&& asks_again(
                    after.1,
                    i as nat,
                    market.feed.coin,
                    market.market_id,
                    local_receive,
                    UnavailabilityCategory::SequenceGap,
                )
                &&& now.feed.book.current() is None
                &&& now.nonce is None
            }
            &&& market.nonce is None ==> {
                &&& after.1.len() == 1
                &&& after.1[0] matches ActionView::Publish(EventView::OrderBookUnavailable(said))
                &&& said.category == UnavailabilityCategory::InvalidMarketData
                &&& now.feed.book.current() is None
                &&& now.nonce is None
            }
        }),
{
    lemma_message_kinds();
    let envelope = envelope_text(text)->Some_0;
    let wire = envelope.order_book->Some_0;
    let market = adapter.markets[i];
    lemma_reaches_market(adapter, envelope.channel, "order_book:"@, i);
    let after = adapter.after_text(text, local_receive, times);
    let step = market.after_update(wire, local_receive, times[0]);
    assert(market.after_envelope(envelope, local_receive, times[0]) == step);
    assert(after.0.markets[i] == step.0);
    assert(after.1 == book_actions(i as nat, step.0, step.1, local_receive));
    lemma_book_answer(i as nat, step.0, step.1, local_receive);
    lemma_update_refused(market, wire, local_receive, times[0]);
    if market.nonce == Some(wire.begin_nonce) && readable(wire.bids) && readable(wire.asks)
        && distinct_prices(wire.bids) && distinct_prices(wire.asks) {
        lemma_update_accepted(market, wire, local_receive, times[0]);
        if step.1 is Ok {
            lemma_update_changes_book(market, wire, local_receive, times[0]);
        }
    }
}

/// Every full book about a market that is followed reaches the market, whatever came before it.
/// One whose levels make a book makes the market publish that book; one that makes none is
/// announced, and a full book is asked for again.
pub proof fn lemma_snapshot_message_answered(
    adapter: LighterView,
    text: Seq<char>,
    i: int,
    local_receive: LocalObservationTime,
    times: Seq<LocalObservationTime>,
)
    requires
        envelope_text(text) matches Some(envelope) && envelope.kind == "subscribed/order_book"@
            && envelope.order_book is Some && names_market(
            adapter,
            envelope.channel,
            "order_book:"@,
            i,
        ),
        market_coin_error(adapter.markets[i].feed.coin) is None,
        positive(envelope_text(text)->Some_0.order_book->Some_0.bids),
        positive(envelope_text(text)->Some_0.order_book->Some_0.asks),
        distinct_prices(envelope_text(text)->Some_0.order_book->Some_0.bids),
        distinct_prices(envelope_text(text)->Some_0.order_book->Some_0.asks),
    ensures
        ({
            let wire = envelope_text(text)->Some_0.order_book->Some_0;
            let bids = snapshot_side(wire.bids, BookSide::Bid)->Ok_0;
            let asks = snapshot_side(wire.asks, BookSide::Ask)->Ok_0;
            let after = adapter.after_text(text, local_receive, times);
            let now = after.0.markets[i];
            let sound = occupied(bids) && occupied(asks) && apart(bids, asks);
            &&& sound ==> {
                &&& after.1.len() == 1
                &&& after.1[0] matches ActionView::Publish(EventView::OrderBookSnapshot(snapshot))
                &&& now.feed.book.current() == Some(snapshot)
                &&& book_shows(now, wire, local_receive)
                &&& now.nonce == Some(wire.nonce)
            }
            &&& !sound ==> {
                &&& asks_again(
                    after.1,
                    i as nat,
                    adapter.markets[i].feed.coin,
                    adapter.markets[i].market_id,
                    local_receive,
                    UnavailabilityCategory::InvalidMarketData,
                )
                &&& now.feed.book.current() is None
                &&& now.nonce is None
            }
        }),
{
    lemma_message_kinds();
    let envelope = envelope_text(text)->Some_0;
    let wire = envelope.order_book->Some_0;
    let market = adapter.markets[i];
    lemma_reaches_market(adapter, envelope.channel, "order_book:"@, i);
    let after = adapter.after_text(text, local_receive, times);
    let step = market.after_snapshot(wire, local_receive, times[0]);
    assert(market.after_envelope(envelope, local_receive, times[0]) == step);
    assert(after.0.markets[i] == step.0);
    assert(after.1 == book_actions(i as nat, step.0, step.1, local_receive));
    lemma_book_answer(i as nat, step.0, step.1, local_receive);
    lemma_snapshot_refused(market, wire, local_receive, times[0]);
    lemma_snapshot_accepted(market, wire, local_receive, times[0]);
    if step.1 is Ok {
        lemma_snapshot_replaces_book(market, wire, local_receive, times[0]);
    }
}

/// The trades of a message about a market that is followed are all taken, those of the market
/// before its liquidations, in the order in which the message lists them.
pub proof fn lemma_trades_message_taken(
    adapter: LighterView,
    text: Seq<char>,
    i: int,
    local_receive: LocalObservationTime,
    times: Seq<LocalObservationTime>,
)
    requires
        envelope_text(text) matches Some(envelope) && (envelope.kind == "update/trade"@
            || envelope.kind == "subscribed/trade"@) && names_market(
            adapter,
            envelope.channel,
            "trade:"@,
            i,
        ),
    ensures
        ({
            let envelope = envelope_text(text)->Some_0;
            let outcome = after_trades(
                adapter.markets[i],
                i as nat,
                envelope.nonce,
                envelope.trades + envelope.liquidation_trades,
                local_receive,
                times,
            );
            let after = adapter.after_text(text, local_receive, times);
            &&& after.1 == outcome.actions
            &&& after.0.markets[i] == outcome.after
            &&& forall|j: int|
                0 <= j < adapter.markets.len() && j != i ==> #[trigger] after.0.markets[j]
                    == adapter.markets[j]
        }),
{
    lemma_message_kinds();
    lemma_reaches_market(adapter, envelope_text(text)->Some_0.channel, "trade:"@, i);
}

/// Delivered trades change nothing about a market but its trades.
pub proof fn lemma_trades_keep_market(
    market: LighterMarketView,
    index: nat,
    message_nonce: Option<u64>,
    wires: Seq<WireTradeView>,
    local_receive: LocalObservationTime,
    times: Seq<LocalObservationTime>,
)
    ensures
        ({
            let after = after_trades(
                market,
                index,
                message_nonce,
                wires,
                local_receive,
                times,
            ).after;
            &&& after.market_id == market.market_id
            &&& after.nonce == market.nonce
            &&& after.bids == market.bids
            &&& after.asks == market.asks
            &&& after.feed.coin == market.feed.coin
            &&& after.feed.book == market.feed.book
        }),
    decreases wires.len(),
{
    if wires.len() > 0 {
        lemma_trades_keep_market(
            market,
            index,
            message_nonce,
            wires.drop_last(),
            local_receive,
            times,
        );
    }
}

/// The last of several delivered trades, unless one before it stopped the session, is published
/// as it says and remembered if it is about the market and can be read, was not seen before and there is room; it is
/// counted if it was seen; and it is announced as an interruption of the market's trades
/// otherwise. What was asked for before stays in front.
pub proof fn lemma_delivered_trade_answered(
    market: LighterMarketView,
    index: nat,
    message_nonce: Option<u64>,
    wires: Seq<WireTradeView>,
    bytes: Seq<u8>,
    local_receive: LocalObservationTime,
    times: Seq<LocalObservationTime>,
)
    requires
        wires.len() > 0,
        trade_value(bytes) == Some(wires.last()),
        !after_trades(
            market,
            index,
            message_nonce,
            wires.drop_last(),
            local_receive,
            times,
        ).stopped,
    ensures
        ({
            let wire = wires.last();
            let before = after_trades(
                market,
                index,
                message_nonce,
                wires.drop_last(),
                local_receive,
                times,
            );
            let after = after_trades(market, index, message_nonce, wires, local_receive, times);
            let feed = before.after.feed;
            let identity = (wire.market_id, wire.trade_id_str);
            let sound = wire.market_id == market.market_id && price_reading(wire.price) is Ok
                && quantity_reading(wire.size) is Ok;
            let own = after.actions.skip(before.actions.len() as int);
            &&& after.actions.take(before.actions.len() as int) == before.actions
            &&& sound && !feed.trades.seen.contains(identity) && feed.trades.seen.len()
                != feed.trades.capacity ==> {
                &&& own.len() > 0
                &&& own.last() matches ActionView::Publish(EventView::MarketTrade(trade))
                &&& parts_of(bytes) is Some
                &&& tells_trade(parts_of(bytes)->Some_0, trade)
                &&& after.after.feed.trades.seen == feed.trades.seen.push(identity)
                &&& after.after.feed.trade_available
            }
            &&& sound && feed.trades.seen.contains(identity) ==> own == seq![
                ActionView::TradeDeduplicated(index),
            ]
            &&& !sound ==> {
                &&& own.len() == 1
                &&& own[0] matches ActionView::Publish(EventView::TradeStreamUnavailable(said))
                &&& announces(
                    said,
                    feed.book.venue,
                    feed.coin,
                    local_receive,
                    UnavailabilityCategory::InvalidMarketData,
                    said.diagnostic,
                )
                &&& !after.after.feed.trade_available
            }
        }),
{
    let wire = wires.last();
    let last = wires.len() - 1;
    let before = after_trades(
        market,
        index,
        message_nonce,
        wires.drop_last(),
        local_receive,
        times,
    );
    let after = after_trades(market, index, message_nonce, wires, local_receive, times);
    lemma_trades_keep_market(
        market,
        index,
        message_nonce,
        wires.drop_last(),
        local_receive,
        times,
    );
    let decoded = identified_trade(before.after, message_nonce, wire, local_receive, times[last]);
    let step = before.after.feed.after_trade(index, local_receive, decoded);
    if decoded is Ok {
        lemma_trade_says(before.after, message_nonce, bytes, local_receive, times[last]);
    }
    assert(after.actions == before.actions + step.1);
    assert(after.actions.take(before.actions.len() as int) =~= before.actions);
    assert(after.actions.skip(before.actions.len() as int) =~= step.1);
}

/// At every heartbeat, fifteen seconds apart, a ping is sent and nothing changes.
pub proof fn lemma_heartbeat_pings(
    before: LighterAdapter,
    after: LighterAdapter,
    actions: Seq<ActionView>,
)
    requires
        LighterAdapter::answers_heartbeat(before, after, actions),
    ensures
        actions.len() == 1,
        actions[0] matches ActionView::SendPing(payload) && payload.len() == 0,
        after@ == before@,
        before.identity_of().heartbeat == Some(15u64),
{
}

} // verus!
