//! What full books and numbered changes do to a Lighter book.
use vstd::prelude::*;

use crate::domain::decimal::DecimalParseError;
use crate::domain::symbol::market_coin_error;
use crate::domain::{Price, Quantity, Venue};
use crate::market_data::event::ExchangeTimeUnit;
use crate::market_data::order_book::{
    ascending, descending, lemma_snapshot_holds_levels, SnapshotView,
};
use crate::market_data::{BookLevel, LocalObservationTime};
use crate::venue::levels::BookSide;
use crate::venue::lighter::book::{
    changed, side_changes, snapshot_side, zero_decimal, ErrorView, HandleOutcome, LighterMarketView,
};
use crate::venue::lighter::ladder::{
    ladder_levels, lemma_empty_listable, lemma_listable_inserted, lemma_listable_removed, listable,
    lists, stands_at,
};
use crate::venue::lighter::wire::{WireBookView, WireLevelView};
use crate::venue::streams::event_times;
use crate::venue::wire::{lemma_price_read, lemma_quantity_read, price_reading, quantity_reading};

verus! {

/// Whether some of the delivered levels is about the price.
pub open spec fn names(levels: Seq<WireLevelView>, price: Price) -> bool {
    exists|i: int|
        0 <= i < levels.len() && price_reading((#[trigger] levels[i]).price) == Ok::<
            Price,
            DecimalParseError,
        >(price)
}

/// Delivered levels take a side from `before` to `after`: at the price of a level with a
/// quantity is that quantity, at the price of a level that writes zero is nothing, and at
/// every price that no level names is what was there.
pub open spec fn takes_to(
    levels: Seq<WireLevelView>,
    before: Map<Price, Quantity>,
    after: Map<Price, Quantity>,
) -> bool {
    &&& forall|i: int|
        0 <= i < levels.len() ==> {
            let price = price_reading((#[trigger] levels[i]).price);
            let quantity = quantity_reading(levels[i].size);
            &&& price is Ok
            &&& quantity is Ok ==> after.contains_key(price->Ok_0) && after[price->Ok_0]
                == quantity->Ok_0
            &&& quantity is Err ==> zero_decimal(levels[i].size) && !after.contains_key(price->Ok_0)
        }
    &&& forall|price: Price|
        !names(levels, price) ==> (#[trigger] after.contains_key(price)
            == before.contains_key(price)) && (before.contains_key(price) ==> after[price]
            == before[price])
}

/// No two delivered levels are about one price.
pub open spec fn distinct_prices(levels: Seq<WireLevelView>) -> bool {
    forall|i: int, j: int|
        0 <= i < j < levels.len() ==> price_reading((#[trigger] levels[i]).price) != price_reading(
            (#[trigger] levels[j]).price,
        )
}

/// Whether a published side shows a side of the book: each level at its price and with its
/// quantity, no count, and no price left out.
pub open spec fn shows(levels: Seq<BookLevel>, side: Map<Price, Quantity>) -> bool {
    &&& forall|i: int|
        0 <= i < levels.len() ==> {
            &&& side.contains_key((#[trigger] levels[i]).price)
            &&& side[levels[i].price] == levels[i].quantity
            &&& levels[i].order_count is None
        }
    &&& forall|price: Price| #[trigger] side.contains_key(price) ==> stands_at(levels, price)
}

proof fn lemma_changes_read(
    levels: Seq<WireLevelView>,
    side: BookSide,
    changes: Seq<(Price, Option<Quantity>)>,
)
    requires
        side_changes(levels, side) == Ok::<Seq<(Price, Option<Quantity>)>, ErrorView>(changes),
    ensures
        changes.len() == levels.len(),
        forall|i: int|
            0 <= i < levels.len() ==> price_reading((#[trigger] levels[i]).price) == Ok::<
                Price,
                DecimalParseError,
            >(changes[i].0),
        forall|i: int|
            0 <= i < levels.len() ==> (quantity_reading((#[trigger] levels[i]).size) matches Ok(
                quantity,
            ) ==> changes[i].1 == Some(quantity)),
        forall|i: int|
            0 <= i < levels.len() ==> (quantity_reading((#[trigger] levels[i]).size) is Err
                ==> changes[i].1 is None && zero_decimal(levels[i].size)),
        forall|i: int, j: int|
            0 <= i < j < changes.len() ==> (#[trigger] changes[i]).0 != (#[trigger] changes[j]).0,
    decreases levels.len(),
{
    if levels.len() > 0 {
        let rest = levels.drop_last();
        let before = side_changes(rest, side)->Ok_0;
        lemma_changes_read(rest, side, before);
        assert forall|i: int| 0 <= i < rest.len() implies #[trigger] levels[i] == rest[i]
            && changes[i] == before[i] by {}
        assert forall|i: int, j: int| 0 <= i < j < changes.len() implies (
        #[trigger] changes[i]).0 != (#[trigger] changes[j]).0 by {
            assert(changes[i] == before[i]);
            if j < before.len() {
                assert(changes[j] == before[j]);
            }
        }
    }
}

proof fn lemma_changes_applied(
    side: Map<Price, Quantity>,
    changes: Seq<(Price, Option<Quantity>)>,
)
    requires
        forall|i: int, j: int|
            0 <= i < j < changes.len() ==> (#[trigger] changes[i]).0 != (#[trigger] changes[j]).0,
    ensures
        forall|i: int|
            0 <= i < changes.len() ==> match (#[trigger] changes[i]).1 {
                Some(quantity) => changed(side, changes).contains_key(changes[i].0) && changed(
                    side,
                    changes,
                )[changes[i].0] == quantity,
                None => !changed(side, changes).contains_key(changes[i].0),
            },
        forall|price: Price|
            (forall|i: int| 0 <= i < changes.len() ==> (#[trigger] changes[i]).0 != price) ==> (
            #[trigger] changed(side, changes).contains_key(price) == side.contains_key(price)) && (
            side.contains_key(price) ==> changed(side, changes)[price] == side[price]),
    decreases changes.len(),
{
    if changes.len() > 0 {
        let rest = changes.drop_last();
        assert forall|i: int, j: int| 0 <= i < j < rest.len() implies (#[trigger] rest[i]).0 != (
        #[trigger] rest[j]).0 by {
            assert(rest[i] == changes[i] && rest[j] == changes[j]);
        }
        lemma_changes_applied(side, rest);
        let last = changes.last();
        let after = changed(side, changes);
        let before = changed(side, rest);
        assert forall|i: int| 0 <= i < changes.len() implies match (#[trigger] changes[i]).1 {
            Some(quantity) => after.contains_key(changes[i].0) && after[changes[i].0] == quantity,
            None => !after.contains_key(changes[i].0),
        } by {
            if i < rest.len() {
                assert(rest[i] == changes[i]);
                assert(changes[i].0 != changes[changes.len() - 1].0);
            }
        }
        assert forall|price: Price|
            (forall|i: int| 0 <= i < changes.len() ==> (#[trigger] changes[i]).0 != price) implies (
        #[trigger] after.contains_key(price) == side.contains_key(price)) && (side.contains_key(
            price,
        ) ==> after[price] == side[price]) by {
            assert(changes[changes.len() - 1].0 != price);
            assert forall|i: int| 0 <= i < rest.len() implies (#[trigger] rest[i]).0 != price by {
                assert(rest[i] == changes[i]);
            }
            assert(before.contains_key(price) == side.contains_key(price));
        }
    }
}

proof fn lemma_side_taken(
    levels: Seq<WireLevelView>,
    side: BookSide,
    before: Map<Price, Quantity>,
    changes: Seq<(Price, Option<Quantity>)>,
)
    requires
        side_changes(levels, side) == Ok::<Seq<(Price, Option<Quantity>)>, ErrorView>(changes),
    ensures
        takes_to(levels, before, changed(before, changes)),
        distinct_prices(levels),
{
    lemma_changes_read(levels, side, changes);
    lemma_changes_applied(before, changes);
    let after = changed(before, changes);
    assert forall|i: int| 0 <= i < levels.len() implies {
        let price = price_reading((#[trigger] levels[i]).price);
        let quantity = quantity_reading(levels[i].size);
        &&& price is Ok
        &&& quantity is Ok ==> after.contains_key(price->Ok_0) && after[price->Ok_0]
            == quantity->Ok_0
        &&& quantity is Err ==> zero_decimal(levels[i].size) && !after.contains_key(price->Ok_0)
    } by {
        assert(changes[i].0 == price_reading(levels[i].price)->Ok_0);
    }
    assert forall|price: Price| !names(levels, price) implies (#[trigger] after.contains_key(price)
        == before.contains_key(price)) && (before.contains_key(price) ==> after[price]
        == before[price]) by {
        assert forall|i: int| 0 <= i < changes.len() implies (#[trigger] changes[i]).0 != price by {
            assert(price_reading(levels[i].price)->Ok_0 == changes[i].0);
        }
    }
    assert forall|i: int, j: int| 0 <= i < j < levels.len() implies price_reading(
        (#[trigger] levels[i]).price,
    ) != price_reading((#[trigger] levels[j]).price) by {
        assert(changes[i].0 != changes[j].0);
    }
}

proof fn lemma_side_delivered(
    levels: Seq<WireLevelView>,
    side: BookSide,
    delivered: Map<Price, Quantity>,
)
    requires
        snapshot_side(levels, side) == Ok::<Map<Price, Quantity>, ErrorView>(delivered),
    ensures
        takes_to(levels, Map::empty(), delivered),
        distinct_prices(levels),
        forall|i: int| 0 <= i < levels.len() ==> quantity_reading((#[trigger] levels[i]).size) is Ok,
    decreases levels.len(),
{
    if levels.len() > 0 {
        let rest = levels.drop_last();
        let before = snapshot_side(rest, side)->Ok_0;
        lemma_side_delivered(rest, side, before);
        let last = price_reading(levels.last().price)->Ok_0;
        assert forall|i: int| 0 <= i < rest.len() implies #[trigger] levels[i] == rest[i]
            && price_reading(levels[i].price)->Ok_0 != last by {
            assert(levels[i] == rest[i]);
            assert(quantity_reading(rest[i].size) is Ok);
            assert(before.contains_key(price_reading(rest[i].price)->Ok_0));
        }
        assert forall|price: Price| !names(levels, price) implies !(
        #[trigger] delivered.contains_key(price)) by {
            assert(price != last) by {
                if price == last {
                    assert(price_reading(levels[levels.len() - 1].price) is Ok);
                }
            }
            assert(!names(rest, price)) by {
                if names(rest, price) {
                    let i = choose|i: int|
                        0 <= i < rest.len() && price_reading((#[trigger] rest[i]).price) == Ok::<
                            Price,
                            DecimalParseError,
                        >(price);
                    assert(levels[i] == rest[i]);
                }
            }
            assert(!before.contains_key(price));
        }
    }
}

proof fn lemma_sides_shown(
    market: LighterMarketView,
    wire: WireBookView,
    local_receive: LocalObservationTime,
    snapshot: SnapshotView,
)
    requires
        market_coin_error(market.feed.coin) is None,
        listable(market.bids),
        listable(market.asks),
        crate::venue::lighter::book::sides_snapshot(
            market.feed.coin,
            market.bids,
            market.asks,
            wire,
            local_receive,
        ) == Ok::<SnapshotView, crate::market_data::order_book::SnapshotValidationError>(snapshot),
    ensures
        shows(snapshot.bids, market.bids),
        shows(snapshot.asks, market.asks),
        descending(snapshot.bids),
        ascending(snapshot.asks),
        snapshot.venue == Venue::Lighter,
        snapshot.coin == market.feed.coin,
        snapshot.source_sequence == Some(wire.nonce),
        snapshot.timestamps.local_receive == local_receive,
{
    let bids = ladder_levels(market.bids);
    let asks = ladder_levels(market.asks);
    assert(lists(bids, market.bids));
    assert(lists(asks, market.asks));
    lemma_snapshot_holds_levels(
        Venue::Lighter,
        market.feed.coin,
        Some(wire.nonce),
        event_times(wire.last_updated_at, ExchangeTimeUnit::Unknown, local_receive),
        bids,
        asks,
    );
    lemma_shown(snapshot.bids, bids, market.bids);
    lemma_shown(snapshot.asks, asks, market.asks);
}

proof fn lemma_shown(shown: Seq<BookLevel>, levels: Seq<BookLevel>, side: Map<Price, Quantity>)
    requires
        lists(levels, side),
        forall|level: BookLevel| #[trigger] shown.contains(level) <==> levels.contains(level),
    ensures
        shows(shown, side),
{
    assert forall|i: int| 0 <= i < shown.len() implies {
        &&& side.contains_key((#[trigger] shown[i]).price)
        &&& side[shown[i].price] == shown[i].quantity
        &&& shown[i].order_count is None
    } by {
        assert(shown.contains(shown[i]));
        let k = choose|k: int| 0 <= k < levels.len() && levels[k] == shown[i];
        assert(levels[k].price == shown[i].price);
    }
    assert forall|price: Price| #[trigger] side.contains_key(price) implies stands_at(
        shown,
        price,
    ) by {
        assert(stands_at(levels, price));
        let k = choose|k: int| 0 <= k < levels.len() && (#[trigger] levels[k]).price == price;
        assert(levels.contains(levels[k]));
        assert(shown.contains(levels[k]));
        let i = choose|i: int| 0 <= i < shown.len() && shown[i] == levels[k];
        assert(shown[i].price == price);
    }
}

/// A book that shows what a market holds: healthy, with the market's bids as its bids and
/// the market's asks as its asks, the best first, under the number and the receive time of
/// the message.
pub open spec fn book_shows(
    market: LighterMarketView,
    wire: WireBookView,
    local_receive: LocalObservationTime,
) -> bool {
    &&& market.feed.book.current() matches Some(snapshot)
    &&& shows(snapshot.bids, market.bids)
    &&& shows(snapshot.asks, market.asks)
    &&& descending(snapshot.bids)
    &&& ascending(snapshot.asks)
    &&& snapshot.venue == Venue::Lighter
    &&& snapshot.coin == market.feed.coin
    &&& snapshot.source_sequence == Some(wire.nonce)
    &&& snapshot.timestamps.local_receive == local_receive
}

/// An update that is accepted follows on the last change without a gap and does to each
/// side what its levels say: a size becomes the quantity at its price, whether there was
/// one before or not, a zero size removes the price, and every price that is not named
/// keeps what it had. The book then shows these sides.
pub proof fn lemma_update_changes_book(
    market: LighterMarketView,
    wire: WireBookView,
    local_receive: LocalObservationTime,
    completed: LocalObservationTime,
)
    requires
        market.after_update(wire, local_receive, completed).1 == Ok::<HandleOutcome, ErrorView>(
            HandleOutcome::Applied,
        ),
    ensures
        ({
            let after = market.after_update(wire, local_receive, completed).0;
            &&& market.nonce == Some(wire.begin_nonce)
            &&& after.nonce == Some(wire.nonce)
            &&& takes_to(wire.bids, market.bids, after.bids)
            &&& takes_to(wire.asks, market.asks, after.asks)
            &&& distinct_prices(wire.bids)
            &&& distinct_prices(wire.asks)
            &&& market_coin_error(market.feed.coin) is None && listable(market.bids) && listable(
                market.asks,
            ) ==> book_shows(after, wire, local_receive) && listable(after.bids) && listable(
                after.asks,
            )
            &&& after.market_id == market.market_id
            &&& after.feed.coin == market.feed.coin
            &&& after.feed.trades == market.feed.trades
            &&& after.feed.trade_available == market.feed.trade_available
        }),
{
    let after = market.after_update(wire, local_receive, completed).0;
    let bid_changes = side_changes(wire.bids, BookSide::Bid)->Ok_0;
    let ask_changes = side_changes(wire.asks, BookSide::Ask)->Ok_0;
    lemma_side_taken(wire.bids, BookSide::Bid, market.bids, bid_changes);
    lemma_side_taken(wire.asks, BookSide::Ask, market.asks, ask_changes);
    let snapshot = crate::venue::lighter::book::sides_snapshot(
        market.feed.coin,
        after.bids,
        after.asks,
        wire,
        local_receive,
    )->Ok_0;
    if market_coin_error(market.feed.coin) is None && listable(market.bids) && listable(
        market.asks,
    ) {
        lemma_changed_listable(wire.bids, BookSide::Bid, market.bids);
        lemma_changed_listable(wire.asks, BookSide::Ask, market.asks);
        lemma_sides_shown(after, wire, local_receive, snapshot);
    }
}

/// A full book that is accepted replaces both sides: each holds exactly the delivered
/// levels, and nothing of what was there before. The book then shows these sides.
pub proof fn lemma_snapshot_replaces_book(
    market: LighterMarketView,
    wire: WireBookView,
    local_receive: LocalObservationTime,
    completed: LocalObservationTime,
)
    requires
        market.after_snapshot(wire, local_receive, completed).1 is Ok,
    ensures
        ({
            let after = market.after_snapshot(wire, local_receive, completed).0;
            &&& after.nonce == Some(wire.nonce)
            &&& takes_to(wire.bids, Map::empty(), after.bids)
            &&& takes_to(wire.asks, Map::empty(), after.asks)
            &&& forall|i: int|
                0 <= i < wire.bids.len() ==> quantity_reading((#[trigger] wire.bids[i]).size) is Ok
            &&& forall|i: int|
                0 <= i < wire.asks.len() ==> quantity_reading((#[trigger] wire.asks[i]).size) is Ok
            &&& distinct_prices(wire.bids)
            &&& distinct_prices(wire.asks)
            &&& market_coin_error(market.feed.coin) is None ==> book_shows(
                after,
                wire,
                local_receive,
            ) && listable(after.bids) && listable(after.asks)
            &&& after.market_id == market.market_id
            &&& after.feed.coin == market.feed.coin
            &&& after.feed.trades == market.feed.trades
            &&& after.feed.trade_available == market.feed.trade_available
        }),
{
    let after = market.after_snapshot(wire, local_receive, completed).0;
    lemma_side_delivered(wire.bids, BookSide::Bid, after.bids);
    lemma_side_delivered(wire.asks, BookSide::Ask, after.asks);
    let snapshot = crate::venue::lighter::book::sides_snapshot(
        market.feed.coin,
        after.bids,
        after.asks,
        wire,
        local_receive,
    )->Ok_0;
    if market_coin_error(market.feed.coin) is None {
        lemma_delivered_listable(wire.bids, BookSide::Bid);
        lemma_delivered_listable(wire.asks, BookSide::Ask);
        lemma_sides_shown(after, wire, local_receive, snapshot);
    }
}

proof fn lemma_changed_listable(
    levels: Seq<WireLevelView>,
    side: BookSide,
    before: Map<Price, Quantity>,
)
    requires
        side_changes(levels, side) is Ok,
        listable(before),
    ensures
        listable(changed(before, side_changes(levels, side)->Ok_0)),
    decreases levels.len(),
{
    if levels.len() > 0 {
        let changes = side_changes(levels, side)->Ok_0;
        let rest = levels.drop_last();
        lemma_changed_listable(rest, side, before);
        assert(changes.drop_last() =~= side_changes(rest, side)->Ok_0);
        let taken = changed(before, changes.drop_last());
        let price = changes.last().0;
        lemma_price_read(levels.last().price);
        lemma_quantity_read(levels.last().size);
        if let Some(quantity) = changes.last().1 {
            lemma_listable_inserted(taken, price, quantity);
        } else {
            lemma_listable_removed(taken, price);
        }
    }
}

proof fn lemma_delivered_listable(levels: Seq<WireLevelView>, side: BookSide)
    requires
        snapshot_side(levels, side) is Ok,
    ensures
        listable(snapshot_side(levels, side)->Ok_0),
    decreases levels.len(),
{
    if levels.len() == 0 {
        lemma_empty_listable();
    } else {
        lemma_delivered_listable(levels.drop_last(), side);
        lemma_price_read(levels.last().price);
        lemma_quantity_read(levels.last().size);
        lemma_listable_inserted(
            snapshot_side(levels.drop_last(), side)->Ok_0,
            price_reading(levels.last().price)->Ok_0,
            quantity_reading(levels.last().size)->Ok_0,
        );
    }
}

/// Whether every delivered level has a price, and a quantity or a size that writes zero.
pub open spec fn readable(levels: Seq<WireLevelView>) -> bool {
    forall|i: int|
        0 <= i < levels.len() ==> price_reading((#[trigger] levels[i]).price) is Ok && (
        quantity_reading(levels[i].size) is Ok || (zero_decimal(levels[i].size)
            && quantity_reading(levels[i].size) == Err::<
            Quantity,
            DecimalParseError,
        >(DecimalParseError::NonPositive)))
}

/// Whether a side has a level.
pub open spec fn occupied(side: Map<Price, Quantity>) -> bool {
    exists|price: Price| #[trigger] side.contains_key(price)
}

/// Whether every bid is below every ask.
pub open spec fn apart(bids: Map<Price, Quantity>, asks: Map<Price, Quantity>) -> bool {
    forall|bid: Price, ask: Price| #[trigger]
        bids.contains_key(bid) && #[trigger] asks.contains_key(ask) ==> bid.units() < ask.units()
}

proof fn lemma_changes_readable(levels: Seq<WireLevelView>, side: BookSide)
    requires
        readable(levels),
        distinct_prices(levels),
    ensures
        side_changes(levels, side) is Ok,
    decreases levels.len(),
{
    if levels.len() > 0 {
        let rest = levels.drop_last();
        assert forall|i: int| 0 <= i < rest.len() implies #[trigger] rest[i] == levels[i] by {}
        lemma_changes_readable(rest, side);
        let before = side_changes(rest, side)->Ok_0;
        lemma_changes_read(rest, side, before);
        let last = levels[levels.len() - 1];
        assert(price_reading(last.price) is Ok);
        let price = price_reading(last.price)->Ok_0;
        assert forall|i: int| 0 <= i < before.len() implies (#[trigger] before[i]).0 != price by {
            assert(price_reading(rest[i].price)->Ok_0 == before[i].0);
            assert(price_reading(levels[i].price) != price_reading(
                levels[levels.len() - 1].price,
            ));
        }
    }
}

proof fn lemma_sides_accepted(
    market: LighterMarketView,
    wire: WireBookView,
    local_receive: LocalObservationTime,
)
    requires
        market_coin_error(market.feed.coin) is None,
        listable(market.bids),
        listable(market.asks),
    ensures
        crate::venue::lighter::book::sides_snapshot(
            market.feed.coin,
            market.bids,
            market.asks,
            wire,
            local_receive,
        ) is Ok <==> occupied(market.bids) && occupied(market.asks) && apart(
            market.bids,
            market.asks,
        ),
{
    let bids = ladder_levels(market.bids);
    let asks = ladder_levels(market.asks);
    assert(lists(bids, market.bids));
    assert(lists(asks, market.asks));
    lemma_snapshot_holds_levels(
        Venue::Lighter,
        market.feed.coin,
        Some(wire.nonce),
        event_times(wire.last_updated_at, ExchangeTimeUnit::Unknown, local_receive),
        bids,
        asks,
    );
    lemma_listing_occupied(bids, market.bids);
    lemma_listing_occupied(asks, market.asks);
    let low = forall|i: int, j: int|
        0 <= i < bids.len() && 0 <= j < asks.len() ==> (#[trigger] bids[i]).price.units() < (
        #[trigger] asks[j]).price.units();
    if low {
        assert forall|bid: Price, ask: Price| #[trigger]
            market.bids.contains_key(bid) && #[trigger] market.asks.contains_key(
                ask,
            ) implies bid.units() < ask.units() by {
            assert(stands_at(bids, bid) && stands_at(asks, ask));
            let i = choose|i: int| 0 <= i < bids.len() && (#[trigger] bids[i]).price == bid;
            let j = choose|j: int| 0 <= j < asks.len() && (#[trigger] asks[j]).price == ask;
            assert(bids[i].price.units() < asks[j].price.units());
        }
    }
    if apart(market.bids, market.asks) {
        assert forall|i: int, j: int| 0 <= i < bids.len() && 0 <= j < asks.len() implies (
        #[trigger] bids[i]).price.units() < (#[trigger] asks[j]).price.units() by {
            assert(market.bids.contains_key(bids[i].price));
            assert(market.asks.contains_key(asks[j].price));
        }
    }
    assert forall|i: int, j: int| 0 <= i < j < bids.len() implies (#[trigger] bids[i]).price != (
    #[trigger] bids[j]).price by {
        assert(bids[i].price.units() < bids[j].price.units());
    }
    assert forall|i: int, j: int| 0 <= i < j < asks.len() implies (#[trigger] asks[i]).price != (
    #[trigger] asks[j]).price by {
        assert(asks[i].price.units() < asks[j].price.units());
    }
}

proof fn lemma_listing_occupied(levels: Seq<BookLevel>, side: Map<Price, Quantity>)
    requires
        lists(levels, side),
    ensures
        levels.len() > 0 <==> occupied(side),
{
    if levels.len() > 0 {
        assert(side.contains_key(levels[0].price));
    }
    if occupied(side) {
        let price = choose|price: Price| #[trigger] side.contains_key(price);
        assert(stands_at(levels, price));
    }
}

/// An update whose levels can be read, that names no price twice on a side and that
/// follows without a gap does to the sides what its levels say, and it is accepted
/// exactly if bids and asks are left and every bid is below every ask. Otherwise no
/// book is offered.
pub proof fn lemma_update_accepted(
    market: LighterMarketView,
    wire: WireBookView,
    local_receive: LocalObservationTime,
    completed: LocalObservationTime,
)
    requires
        market.nonce == Some(wire.begin_nonce),
        readable(wire.bids),
        readable(wire.asks),
        distinct_prices(wire.bids),
        distinct_prices(wire.asks),
        market_coin_error(market.feed.coin) is None,
        listable(market.bids),
        listable(market.asks),
    ensures
        ({
            let after = market.after_update(wire, local_receive, completed);
            &&& takes_to(wire.bids, market.bids, after.0.bids)
            &&& takes_to(wire.asks, market.asks, after.0.asks)
            &&& after.1 is Ok <==> occupied(after.0.bids) && occupied(after.0.asks) && apart(
                after.0.bids,
                after.0.asks,
            )
            &&& after.1 is Ok <==> after.0.feed.book.current() is Some
            &&& after.1 is Ok <==> after.0.nonce is Some
        }),
{
    let after = market.after_update(wire, local_receive, completed).0;
    lemma_changes_readable(wire.bids, BookSide::Bid);
    lemma_changes_readable(wire.asks, BookSide::Ask);
    lemma_side_taken(
        wire.bids,
        BookSide::Bid,
        market.bids,
        side_changes(wire.bids, BookSide::Bid)->Ok_0,
    );
    lemma_side_taken(
        wire.asks,
        BookSide::Ask,
        market.asks,
        side_changes(wire.asks, BookSide::Ask)->Ok_0,
    );
    lemma_changed_listable(wire.bids, BookSide::Bid, market.bids);
    lemma_changed_listable(wire.asks, BookSide::Ask, market.asks);
    lemma_sides_accepted(after, wire, local_receive);
}

/// Whether every delivered level has a price and a quantity.
pub open spec fn positive(levels: Seq<WireLevelView>) -> bool {
    forall|i: int|
        0 <= i < levels.len() ==> price_reading((#[trigger] levels[i]).price) is Ok
            && quantity_reading(levels[i].size) is Ok
}

proof fn lemma_positive_side_delivered(levels: Seq<WireLevelView>, side: BookSide)
    requires
        positive(levels),
        distinct_prices(levels),
    ensures
        snapshot_side(levels, side) is Ok,
    decreases levels.len(),
{
    if levels.len() > 0 {
        let rest = levels.drop_last();
        assert forall|i: int| 0 <= i < rest.len() implies #[trigger] rest[i] == levels[i] by {}
        lemma_positive_side_delivered(rest, side);
        let before = snapshot_side(rest, side)->Ok_0;
        lemma_side_delivered(rest, side, before);
        let last = levels[levels.len() - 1];
        assert(price_reading(last.price) is Ok && quantity_reading(last.size) is Ok);
        let price = price_reading(last.price)->Ok_0;
        assert(!names(rest, price)) by {
            if names(rest, price) {
                let i = choose|i: int|
                    0 <= i < rest.len() && price_reading((#[trigger] rest[i]).price) == Ok::<
                        Price,
                        DecimalParseError,
                    >(price);
                assert(levels[i] == rest[i]);
                assert(price_reading(levels[i].price) != price_reading(
                    levels[levels.len() - 1].price,
                ));
            }
        }
        assert(before.contains_key(price) == Map::<Price, Quantity>::empty().contains_key(price));
    }
}

/// A full book whose levels all have a price and a quantity and that names no price twice on a
/// side is accepted, whatever came before it, exactly if there are bids and asks and every bid is
/// below every ask. Otherwise no book is offered.
pub proof fn lemma_snapshot_accepted(
    market: LighterMarketView,
    wire: WireBookView,
    local_receive: LocalObservationTime,
    completed: LocalObservationTime,
)
    requires
        positive(wire.bids),
        positive(wire.asks),
        distinct_prices(wire.bids),
        distinct_prices(wire.asks),
        market_coin_error(market.feed.coin) is None,
    ensures
        ({
            let bids = snapshot_side(wire.bids, BookSide::Bid)->Ok_0;
            let asks = snapshot_side(wire.asks, BookSide::Ask)->Ok_0;
            let after = market.after_snapshot(wire, local_receive, completed);
            &&& takes_to(wire.bids, Map::empty(), bids)
            &&& takes_to(wire.asks, Map::empty(), asks)
            &&& after.1 is Ok <==> occupied(bids) && occupied(asks) && apart(bids, asks)
            &&& after.1 is Ok <==> after.0.feed.book.current() is Some
            &&& after.1 is Ok <==> after.0.nonce == Some(wire.nonce)
            &&& after.1 is Ok ==> after.1->Ok_0 == HandleOutcome::Applied
        }),
{
    lemma_positive_side_delivered(wire.bids, BookSide::Bid);
    lemma_positive_side_delivered(wire.asks, BookSide::Ask);
    let bids = snapshot_side(wire.bids, BookSide::Bid)->Ok_0;
    let asks = snapshot_side(wire.asks, BookSide::Ask)->Ok_0;
    lemma_side_delivered(wire.bids, BookSide::Bid, bids);
    lemma_side_delivered(wire.asks, BookSide::Ask, asks);
    lemma_delivered_listable(wire.bids, BookSide::Bid);
    lemma_delivered_listable(wire.asks, BookSide::Ask);
    lemma_sides_accepted(LighterMarketView { bids, asks, ..market }, wire, local_receive);
}

} // verus!
