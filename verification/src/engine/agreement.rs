//! When a best bid and offer is available, in terms of what was recorded.
use vstd::prelude::*;

use crate::engine::{
    last_recorded_snapshot, lemma_final_books_match_last_snapshots, reports, run,
    BestBidOfferStatus, EngineReportView, EngineView,
};
use crate::keyed::MarketId;
use crate::market_data::event::{BboView, EventView, UnavailableView};
use crate::market_data::order_book::{price_text, SnapshotView};
use crate::market_data::{BookLevel, OrderBookStatus};

verus! {

/// A quoted side is exactly a level of a book.
pub open spec fn quotes(side: Option<BookLevel>, level: BookLevel) -> bool {
    &&& side is Some
    &&& side->Some_0.price == level.price
    &&& side->Some_0.quantity == level.quantity
    &&& side->Some_0.order_count == level.order_count
}

/// Both quoted sides are the tops of a snapshot that was received at most half a
/// second before or after them.
pub open spec fn agrees(bbo: BboView, snapshot: SnapshotView) -> bool {
    &&& quotes(bbo.bid, snapshot.bids[0])
    &&& quotes(bbo.ask, snapshot.asks[0])
    &&& snapshot.timestamps.local_receive.0 - bbo.timestamps.local_receive.0 <= 500_000_000
    &&& bbo.timestamps.local_receive.0 - snapshot.timestamps.local_receive.0 <= 500_000_000
}

/// The last best bid and offer of a market among events.
pub open spec fn last_recorded_offer(events: Seq<EventView>, market: MarketId) -> Option<BboView>
    decreases events.len(),
{
    if events.len() == 0 {
        None
    } else {
        match events.last() {
            EventView::BestBidOfferUpdated(bbo) => if (bbo.venue, bbo.coin) == market {
                Some(bbo)
            } else {
                last_recorded_offer(events.drop_last(), market)
            },
            _ => last_recorded_offer(events.drop_last(), market),
        }
    }
}

/// The status that a market's book has after events: what the last snapshot or
/// the last interruption of it says.
pub open spec fn recorded_status(events: Seq<EventView>, market: MarketId) -> OrderBookStatus
    decreases events.len(),
{
    if events.len() == 0 {
        OrderBookStatus::AwaitingSnapshot
    } else {
        match events.last() {
            EventView::OrderBookSnapshot(snapshot) => if (snapshot.venue, snapshot.coin)
                == market {
                OrderBookStatus::Healthy
            } else {
                recorded_status(events.drop_last(), market)
            },
            EventView::OrderBookUnavailable(unavailable) => if (
                unavailable.venue,
                unavailable.coin,
            ) == market {
                OrderBookStatus::Unhealthy
            } else {
                recorded_status(events.drop_last(), market)
            },
            _ => recorded_status(events.drop_last(), market),
        }
    }
}

/// A best bid and offer that comes in is kept as it came. It is available if the
/// book of its market is healthy and each of its sides equals, in price, quantity
/// and count, the first level of that side of the book's snapshot, the two received
/// at most half a second apart; else it is unknown.
pub proof fn lemma_offer_decided_on_arrival(engine: EngineView, bbo: BboView)
    ensures
        ({
            let market = (bbo.venue, bbo.coin);
            let after = engine.step(EventView::BestBidOfferUpdated(bbo));
            let status = after.best_bid_offers[market].status;
            let healthy = engine.order_books.contains_key(market)
                && engine.order_books[market].status == OrderBookStatus::Healthy
                && engine.order_books[market].last_snapshot is Some;
            &&& after.best_bid_offers.contains_key(market)
            &&& after.best_bid_offers[market].value == bbo
            &&& status == BestBidOfferStatus::Available <==> healthy && agrees(
                bbo,
                engine.order_books[market].last_snapshot->Some_0,
            )
            &&& status == BestBidOfferStatus::Available || status == BestBidOfferStatus::Unknown
            &&& after.order_books == engine.order_books
        }),
{
    assert forall|level: BookLevel, side: Option<BookLevel>|
        #[trigger] quotes(side, level) <==> side == Some(level) by {}
}

/// A snapshot decides anew about the best bid and offer of its market, by the same
/// comparison, and about no other.
pub proof fn lemma_offer_decided_on_snapshot(
    engine: EngineView,
    snapshot: SnapshotView,
    market: MarketId,
)
    ensures
        ({
            let after = engine.step(EventView::OrderBookSnapshot(snapshot));
            let own = (snapshot.venue, snapshot.coin) == market;
            &&& after.best_bid_offers.contains_key(market)
                == engine.best_bid_offers.contains_key(market)
            &&& engine.best_bid_offers.contains_key(market) && own && (
            engine.best_bid_offers[market].value.venue,
            engine.best_bid_offers[market].value.coin,
            ) == market ==> {
                let state = after.best_bid_offers[market];
                &&& state.value == engine.best_bid_offers[market].value
                &&& state.status == BestBidOfferStatus::Available <==> agrees(state.value, snapshot)
                &&& state.status == BestBidOfferStatus::Available || state.status
                    == BestBidOfferStatus::Unknown
            }
            &&& !own ==> after.best_bid_offers[market] == engine.best_bid_offers[market]
            &&& own ==> after.order_books.contains_key(market)
                && after.order_books[market].status == OrderBookStatus::Healthy
                && after.order_books[market].last_snapshot == Some(snapshot)
        }),
{
    assert forall|level: BookLevel, side: Option<BookLevel>|
        #[trigger] quotes(side, level) <==> side == Some(level) by {}
}

/// An interruption of a book makes the book unhealthy, keeps its last snapshot, and
/// decides about no best bid and offer.
pub proof fn lemma_interruption_keeps_offers(engine: EngineView, unavailable: UnavailableView)
    ensures
        ({
            let market = (unavailable.venue, unavailable.coin);
            let after = engine.step(EventView::OrderBookUnavailable(unavailable));
            &&& after.best_bid_offers == engine.best_bid_offers
            &&& after.order_books.contains_key(market)
            &&& after.order_books[market].status == OrderBookStatus::Unhealthy
            &&& engine.order_books.contains_key(market) ==> after.order_books[market].last_snapshot
                == engine.order_books[market].last_snapshot
        }),
{
}

/// Trades and the state of a trade stream touch no book and no best bid and offer.
pub proof fn lemma_trades_leave_books(engine: EngineView, event: EventView)
    requires
        event is MarketTrade || event is TradeStreamUnavailable || event is TradeStreamResumed,
    ensures
        engine.step(event).order_books == engine.order_books,
        engine.step(event).best_bid_offers == engine.best_bid_offers,
{
}

/// After a run a market has a best bid and offer if one was recorded, and it is the
/// last one. An available one is confirmed by the market's last snapshot: both sides
/// equal its first levels in price, quantity and count, and they were received at
/// most half a second apart. As long as the book is healthy, one that the last
/// snapshot confirms is also available.
pub proof fn lemma_available_offer_agrees_with_book(events: Seq<EventView>, market: MarketId)
    ensures
        ({
            let engine = run(events);
            let state = engine.best_bid_offers[market];
            let snapshot = last_recorded_snapshot(events, market);
            &&& engine.best_bid_offers.contains_key(market) <==> last_recorded_offer(
                events,
                market,
            ) is Some
            &&& engine.best_bid_offers.contains_key(market) ==> {
                &&& Some(state.value) == last_recorded_offer(events, market)
                &&& (state.value.venue, state.value.coin) == market
                &&& state.status == BestBidOfferStatus::Available ==> snapshot is Some && agrees(
                    state.value,
                    snapshot->Some_0,
                )
                &&& engine.book(market).status == OrderBookStatus::Healthy && snapshot is Some
                    && agrees(state.value, snapshot->Some_0) ==> state.status
                    == BestBidOfferStatus::Available
                &&& state.status == BestBidOfferStatus::Available || state.status
                    == BestBidOfferStatus::Unknown
            }
        }),
    decreases events.len(),
{
    if events.len() > 0 {
        let before = events.drop_last();
        let engine = run(before);
        lemma_available_offer_agrees_with_book(before, market);
        lemma_final_books_match_last_snapshots(before, market);
        match events.last() {
            EventView::OrderBookSnapshot(snapshot) => {
                lemma_offer_decided_on_snapshot(engine, snapshot, market);
            },
            EventView::BestBidOfferUpdated(bbo) => {
                lemma_offer_decided_on_arrival(engine, bbo);
            },
            EventView::OrderBookUnavailable(unavailable) => {
                lemma_interruption_keeps_offers(engine, unavailable);
            },
            _ => {
                lemma_trades_leave_books(engine, events.last());
            },
        }
    }
}

/// After a run a book is healthy exactly if the last thing recorded about it is a
/// snapshot, and unhealthy if it is an interruption.
pub proof fn lemma_final_status_is_recorded(events: Seq<EventView>, market: MarketId)
    ensures
        run(events).book(market).status == recorded_status(events, market),
        run(events).order_books.contains_key(market) <==> recorded_status(events, market)
            != OrderBookStatus::AwaitingSnapshot,
    decreases events.len(),
{
    if events.len() > 0 {
        lemma_final_status_is_recorded(events.drop_last(), market);
    }
}

/// What a report says of a book: its recorded status, and the first prices of the last
/// recorded snapshot.
pub proof fn lemma_reported_book(events: Seq<EventView>, report: EngineReportView, i: int)
    requires
        reports(run(events), report),
        0 <= i < report.order_books.len(),
    ensures
        ({
            let book = report.order_books[i];
            let market = (book.venue, book.coin);
            &&& book.status == recorded_status(events, market)
            &&& last_recorded_snapshot(events, market) matches Some(snapshot) ==> {
                &&& book.source_sequence == snapshot.source_sequence
                &&& book.best_bid == Some(price_text(snapshot.bids[0].price))
                &&& book.best_ask == Some(price_text(snapshot.asks[0].price))
            }
            &&& last_recorded_snapshot(events, market) is None ==> book.source_sequence is None
                && book.best_bid is None && book.best_ask is None
        }),
{
    let book = report.order_books[i];
    let market = (book.venue, book.coin);
    let markets = report.order_books.map_values(
        |reported: crate::engine::BookReportView| (reported.venue, reported.coin),
    );
    assert(markets[i] == market);
    assert(markets.contains(market));
    assert(run(events).order_books.dom().contains(market));
    lemma_final_status_is_recorded(events, market);
    lemma_final_books_match_last_snapshots(events, market);
}

/// What a report says of a best bid and offer: the prices of the last one recorded, and
/// that it is available only if the market's last snapshot confirms it, and always if
/// the book is healthy besides.
pub proof fn lemma_reported_offer(events: Seq<EventView>, report: EngineReportView, i: int)
    requires
        reports(run(events), report),
        0 <= i < report.best_bid_offers.len(),
    ensures
        ({
            let offer = report.best_bid_offers[i];
            let market = (offer.venue, offer.coin);
            let snapshot = last_recorded_snapshot(events, market);
            &&& last_recorded_offer(events, market) matches Some(bbo)
            &&& offer.best_bid == (match bbo.bid {
                Some(level) => Some(price_text(level.price)),
                None => None,
            })
            &&& offer.best_ask == (match bbo.ask {
                Some(level) => Some(price_text(level.price)),
                None => None,
            })
            &&& offer.status == BestBidOfferStatus::Available ==> snapshot is Some && agrees(
                bbo,
                snapshot->Some_0,
            )
            &&& recorded_status(events, market) == OrderBookStatus::Healthy && snapshot is Some
                && agrees(bbo, snapshot->Some_0) ==> offer.status == BestBidOfferStatus::Available
        }),
{
    let offer = report.best_bid_offers[i];
    let market = (offer.venue, offer.coin);
    let markets = report.best_bid_offers.map_values(
        |reported: crate::engine::OfferReportView| (reported.venue, reported.coin),
    );
    assert(markets[i] == market);
    assert(markets.contains(market));
    assert(run(events).best_bid_offers.dom().contains(market));
    lemma_available_offer_agrees_with_book(events, market);
    lemma_final_status_is_recorded(events, market);
}

} // verus!
