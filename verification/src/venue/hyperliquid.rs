//! The Hyperliquid adapter.
pub mod answers;
pub mod messages;
pub mod wire;

use serde_json::Value;
use vstd::prelude::*;
use vstd::utf8::encode_utf8;

use crate::domain::{MarketCoin, Venue};
use crate::json::{json_quoted, quote_json};
use crate::market_data::event::{EventView, MarketTrade, NormalizedMarketEvent, TradeView};
use crate::market_data::{LocalObservationTime, OrderBook, OrderBookSnapshot};
use crate::text::same_text;
use crate::venue::action::{
    action_views, actions_within, completions_read, ActionView, AdapterAction, AdapterIdentity,
    MarketDataAdapter, MarketKey,
};
use crate::venue::clock::ObservationClock;
use crate::venue::feed::{completed_trade, decoded_book, decoded_trade, FeedView, MarketFeed};
use crate::venue::hyperliquid::wire::{
    bbo_reading, bbo_value, book_payload, decode_bbo, decode_trade, read_bbo, read_book_payload,
    read_trades, trade_reading, trade_views, trades_value, WireTrade, WireTradeView,
};
use crate::venue::stream_markets::{all_disconnected, lemma_all_disconnected_within};
use crate::venue::raw::{inner_value, parts_of, read_inner_value, Field, FieldView, Parts};
use crate::venue::wire::{
    first_place, json_contents, lemma_first_place, lemma_first_place_step, member_text, text_under,
    JsonView,
};

verus! {

/// Reads the books, the best offers and the trades of Hyperliquid.
pub struct HyperliquidAdapter {
    markets: Vec<MarketFeed<(u64, u64)>>,
}

/// The model of `HyperliquidAdapter`: its markets by their keys.
pub struct HyperliquidView {
    pub markets: Seq<FeedView<(u64, u64)>>,
}

impl View for HyperliquidAdapter {
    type V = HyperliquidView;

    closed spec fn view(&self) -> HyperliquidView {
        HyperliquidView {
            markets: self.markets@.map_values(|market: MarketFeed<(u64, u64)>| market@),
        }
    }
}

/// The message that subscribes to one kind of data of a coin.
pub open spec fn subscription(kind: Seq<char>, coin: Seq<char>) -> Seq<char> {
    "{\"method\":\"subscribe\",\"subscription\":{\"coin\":"@ + json_quoted(coin) + ",\"type\":"@
        + json_quoted(kind) + "}}"@
}

fn subscription_message(kind: &str, coin: &MarketCoin) -> (text: String)
    ensures
        text@ == subscription(kind@, coin@),
{
    let mut text: String = "{\"method\":\"subscribe\",\"subscription\":{\"coin\":".to_owned();
    text.append(quote_json(coin.as_str()).as_str());
    text.append(",\"type\":");
    text.append(quote_json(kind).as_str());
    text.append("}}");
    text
}

/// What is asked for to follow a market: its book, its best offers, its trades.
pub open spec fn market_subscriptions(index: nat, coin: Seq<char>) -> Seq<ActionView> {
    seq![
        ActionView::SendText(subscription("l2Book"@, coin)),
        ActionView::SendText(subscription("bbo"@, coin)),
        ActionView::SendText(subscription("trades"@, coin)),
        ActionView::MarketSubscribed(index),
    ]
}

/// What is asked for to follow markets.
pub open spec fn subscriptions(coins: Seq<Seq<char>>) -> Seq<ActionView>
    decreases coins.len(),
{
    if coins.len() == 0 {
        Seq::empty()
    } else {
        subscriptions(coins.drop_last()) + market_subscriptions(
            (coins.len() - 1) as nat,
            coins.last(),
        )
    }
}

/// What became of trades: the markets then, what is asked for, and whether the trades of
/// a market cannot be told apart any more.
pub struct TradesOutcome {
    pub after: HyperliquidView,
    pub actions: Seq<ActionView>,
    pub stopped: bool,
}

/// The channel of a message and the data that it carries.
pub open spec fn envelope(text: Seq<char>) -> Option<(Seq<char>, JsonView)> {
    match parts_of(encode_utf8(text)) {
        None => None,
        Some(parts) => if !parts.fits(1, 2) {
            None
        } else {
            match parts.text("channel"@, 0) {
                None => None,
                Some(channel) => match parts.part("data"@, 1) {
                    FieldView::Absent => Some((channel, JsonView::Null)),
                    FieldView::Given(bytes) => match inner_value(bytes) {
                        Some(data) => Some((channel, data)),
                        None => None,
                    },
                    FieldView::Repeated => None,
                },
            }
        },
    }
}

/// The trade and its identity that a delivered trade stands for, or why it stands for
/// none.
pub open spec fn identified_trade(
    coin: Seq<char>,
    wire: WireTradeView,
    local_receive: LocalObservationTime,
    completed: LocalObservationTime,
) -> Result<(TradeView, (u64, u64)), Seq<char>> {
    match trade_reading(coin, wire, local_receive, completed) {
        Err(error) => Err(error),
        Ok(trade) => Ok((trade, (wire.time, wire.tid))),
    }
}

impl HyperliquidView {
    /// The coins of the markets.
    pub open spec fn coins(self) -> Seq<Seq<char>> {
        self.markets.map_values(|market: FeedView<(u64, u64)>| market.coin)
    }

    /// Every book is one of the venue and of its market.
    pub open spec fn of_venue(self) -> bool {
        forall|i: int|
            0 <= i < self.markets.len() ==> (#[trigger] self.markets[i]).book.venue
                == Venue::Hyperliquid && self.markets[i].of_market()
    }

    /// With what became of one market.
    pub open spec fn with_feed(self, index: nat, feed: FeedView<(u64, u64)>) -> HyperliquidView {
        HyperliquidView { markets: self.markets.update(index as int, feed) }
    }

    /// After trades that were complete at the given times. The trade of a coin that is not
    /// followed is passed over, and what comes after a trade that stops the session is not
    /// looked at.
    pub open spec fn after_trades(
        self,
        wires: Seq<WireTradeView>,
        local_receive: LocalObservationTime,
        times: Seq<LocalObservationTime>,
    ) -> TradesOutcome
        decreases wires.len(),
    {
        if wires.len() == 0 {
            TradesOutcome { after: self, actions: Seq::empty(), stopped: false }
        } else {
            let before = self.after_trades(wires.drop_last(), local_receive, times);
            if before.stopped {
                before
            } else {
                let wire = wires.last();
                match first_place(self.coins(), wire.coin) {
                    None => before,
                    Some(index) => {
                        let feed = before.after.markets[index as int];
                        let decoded = identified_trade(
                            feed.coin,
                            wire,
                            local_receive,
                            times[wires.len() - 1],
                        );
                        let step = feed.after_trade(index, local_receive, decoded);
                        TradesOutcome {
                            after: before.after.with_feed(index, step.0),
                            actions: before.actions + step.1,
                            stopped: feed.stops(decoded),
                        }
                    },
                }
            }
        }
    }

    /// After a best bid and offer that was complete at the given time. One that cannot be
    /// read is passed over.
    pub open spec fn bbo_actions(
        self,
        data: JsonView,
        local_receive: LocalObservationTime,
        completed: LocalObservationTime,
    ) -> Seq<ActionView> {
        match bbo_value(data) {
            None => Seq::empty(),
            Some(wire) => match first_place(self.coins(), wire.coin) {
                None => Seq::empty(),
                Some(index) => match bbo_reading(
                    self.coins()[index as int],
                    wire,
                    local_receive,
                    completed,
                ) {
                    Err(_) => Seq::empty(),
                    Ok(bbo) => seq![ActionView::Publish(EventView::BestBidOfferUpdated(bbo))],
                },
            },
        }
    }

    /// After a book that was complete at the given time.
    pub open spec fn after_book(
        self,
        data: JsonView,
        local_receive: LocalObservationTime,
        completed: LocalObservationTime,
    ) -> (HyperliquidView, Seq<ActionView>) {
        match member_text(data, "coin"@) {
            None => (self, Seq::empty()),
            Some(coin) => match first_place(self.coins(), coin) {
                None => (self, Seq::empty()),
                Some(index) => {
                    let feed = self.markets[index as int];
                    let step = feed.after_book(
                        local_receive,
                        book_payload(feed.coin, data, local_receive),
                        completed,
                    );
                    (self.with_feed(index, step.0), step.1)
                },
            },
        }
    }

    /// After a message: what the markets are then, and what is asked for, where processing
    /// is complete at the given times.
    pub open spec fn after_text(
        self,
        text: Seq<char>,
        local_receive: LocalObservationTime,
        times: Seq<LocalObservationTime>,
    ) -> (HyperliquidView, Seq<ActionView>) {
        match envelope(text) {
            None => (self, Seq::empty()),
            Some((channel, data)) => if channel == "trades"@ {
                match trades_value(data) {
                    None => (self, Seq::empty()),
                    Some(wires) => {
                        let outcome = self.after_trades(wires, local_receive, times);
                        (outcome.after, outcome.actions)
                    },
                }
            } else if channel == "bbo"@ {
                (self, self.bbo_actions(data, local_receive, times[0]))
            } else if channel == "l2Book"@ {
                self.after_book(data, local_receive, times[0])
            } else {
                (self, Seq::empty())
            },
        }
    }

    /// After the connection was lost.
    pub open spec fn disconnected(self) -> HyperliquidView {
        HyperliquidView {
            markets: self.markets.map_values(
                |market: FeedView<(u64, u64)>| market.disconnected(),
            ),
        }
    }
}

/// The models of coins.
pub open spec fn coin_texts(coins: Seq<MarketCoin>) -> Seq<Seq<char>> {
    coins.map_values(|coin: MarketCoin| coin@)
}

/// Nothing is asked for.
fn no_actions() -> (actions: Vec<AdapterAction>)
    ensures
        action_views(actions@) == Seq::<ActionView>::empty(),
{
    let actions: Vec<AdapterAction> = Vec::new();
    assert(action_views(actions@) =~= Seq::<ActionView>::empty());
    actions
}

impl HyperliquidAdapter {
    /// Follows the markets of coins.
    pub fn new(market_coins: Vec<MarketCoin>, trade_dedup_capacity: usize) -> (adapter: Self)
        requires
            trade_dedup_capacity > 0,
        ensures
            adapter.well_formed(),
            adapter@.markets == coin_texts(market_coins@).map_values(
                |coin: Seq<char>|
                    FeedView::<(u64, u64)>::fresh(
                        Venue::Hyperliquid,
                        coin,
                        trade_dedup_capacity as nat,
                    ),
            ),
    {
        let mut markets: Vec<MarketFeed<(u64, u64)>> = Vec::new();
        let mut i: usize = 0;
        while i < market_coins.len()
            invariant
                i <= market_coins.len(),
                trade_dedup_capacity > 0,
                markets@.len() == i,
                forall|j: int|
                    0 <= j < i ==> (#[trigger] markets@[j]).well_formed() && markets@[j]@
                        == FeedView::<(u64, u64)>::fresh(
                        Venue::Hyperliquid,
                        market_coins@[j]@,
                        trade_dedup_capacity as nat,
                    ),
            decreases market_coins.len() - i,
        {
            markets.push(
                MarketFeed::new(Venue::Hyperliquid, market_coins[i].clone(), trade_dedup_capacity),
            );
            i = i + 1;
        }
        let adapter = HyperliquidAdapter { markets };
        assert(adapter@.markets =~= coin_texts(market_coins@).map_values(
            |coin: Seq<char>|
                FeedView::<(u64, u64)>::fresh(
                    Venue::Hyperliquid,
                    coin,
                    trade_dedup_capacity as nat,
                ),
        ));
        adapter
    }

    /// The coins of the markets.
    pub fn resolved_markets(&self) -> (coins: Vec<MarketCoin>)
        ensures
            coin_texts(coins@) == self@.coins(),
    {
        let mut coins: Vec<MarketCoin> = Vec::new();
        let mut i: usize = 0;
        while i < self.markets.len()
            invariant
                i <= self.markets.len(),
                coins@.len() == i,
                forall|j: int| 0 <= j < i ==> (#[trigger] coins@[j])@ == self.markets@[j]@.coin,
            decreases self.markets.len() - i,
        {
            coins.push(self.markets[i].market_coin().clone());
            i = i + 1;
        }
        assert(coin_texts(coins@) =~= self@.coins());
        coins
    }

    /// The book of a market.
    pub fn book(&self, market: MarketKey) -> (book: Option<&OrderBook>)
        ensures
            match book {
                Some(book) => market.0 < self@.markets.len() && book@
                    == self@.markets[market.0 as int].book,
                None => market.0 >= self@.markets.len(),
            },
    {
        if market.index() < self.markets.len() {
            Some(self.markets[market.index()].book())
        } else {
            None
        }
    }

    fn place_of(&self, coin: &str) -> (place: Option<usize>)
        ensures
            match place {
                Some(place) => first_place(self@.coins(), coin@) == Some(place as nat) && place
                    < self.markets@.len(),
                None => first_place(self@.coins(), coin@) is None,
            },
    {
        let ghost coins = self@.coins();
        let mut i: usize = 0;
        assert(coins.take(0) =~= Seq::<Seq<char>>::empty());
        while i < self.markets.len()
            invariant
                i <= self.markets.len(),
                coins == self@.coins(),
                coins.len() == self.markets@.len(),
                first_place(coins.take(i as int), coin@) is None,
            decreases self.markets.len() - i,
        {
            proof {
                lemma_first_place_step(coins, i as int, coin@);
                assert(coins[i as int] == self.markets@[i as int]@.coin);
            }
            if same_text(self.markets[i].market_coin().as_str(), coin) {
                return Some(i);
            }
            i = i + 1;
        }
        assert(coins.take(i as int) =~= coins);
        None
    }

    fn apply_trades<C: ObservationClock>(
        &mut self,
        wires: &Vec<WireTrade>,
        local_receive: LocalObservationTime,
        clock: &C,
    ) -> (actions: Vec<AdapterAction>)
        requires
            old(self).well_formed(),
        ensures
            final(self).well_formed(),
            exists|times: Seq<LocalObservationTime>|
                ({
                    let outcome = #[trigger] old(self)@.after_trades(
                        trade_views(wires@),
                        local_receive,
                        times,
                    );
                    &&& final(self)@ == outcome.after
                    &&& action_views(actions@) == outcome.actions
                }),
            final(self)@.coins() == old(self)@.coins(),
            actions_within(action_views(actions@), old(self)@.markets.len()),
            completions_read(action_views(actions@), *clock),
    {
        let ghost start = self@;
        let ghost all = trade_views(wires@);
        let ghost mut times: Seq<LocalObservationTime> = Seq::empty();
        let mut actions: Vec<AdapterAction> = no_actions();
        let mut stopped: bool = false;
        let mut i: usize = 0;
        assert(all.take(0) =~= Seq::<WireTradeView>::empty());
        while i < wires.len() && !stopped
            invariant
                i <= wires.len(),
                times.len() == i,
                all == trade_views(wires@),
                self.well_formed(),
                self@.coins() == start.coins(),
                self@.markets.len() == start.markets.len(),
                self@ == start.after_trades(all.take(i as int), local_receive, times).after,
                action_views(actions@) == start.after_trades(
                    all.take(i as int),
                    local_receive,
                    times,
                ).actions,
                stopped == start.after_trades(all.take(i as int), local_receive, times).stopped,
                actions_within(action_views(actions@), start.markets.len()),
                completions_read(action_views(actions@), *clock),
            decreases wires.len() - i,
        {
            let wire: &WireTrade = &wires[i];
            let ghost before = self@;
            let ghost done = actions@;
            let ghost earlier = all.take(i as int);
            let ghost now = all.take(i + 1);
            proof {
                assert(now.drop_last() =~= earlier);
                assert(now.last() == wire@);
            }
            match self.place_of(wire.coin()) {
                None => {
                    proof {
                        let next = times.push(local_receive);
                        lemma_times(start, earlier, local_receive, times, next);
                        times = next;
                    }
                },
                Some(index) => {
                    let decoded: Result<(MarketTrade, (u64, u64)), String> = match decode_trade(
                        wire,
                        self.markets[index].market_coin(),
                        local_receive,
                        local_receive,
                    ) {
                        Ok(trade) => Ok((trade, (wire.time, wire.tid))),
                        Err(error) => Err(error),
                    };
                    let ghost feed = before.markets[index as int];
                    let ghost model = decoded_trade(decoded);
                    let (mut more, ends) = self.markets[index].apply_trade(
                        index,
                        local_receive,
                        decoded,
                        clock,
                    );
                    let ghost added = more@;
                    actions.append(&mut more);
                    stopped = ends;
                    proof {
                        let completed = choose|completed: LocalObservationTime|
                            (self@.markets[index as int], action_views(added))
                                == feed.after_trade(
                                index as nat,
                                local_receive,
                                #[trigger] completed_trade(model, completed),
                            );
                        let next = times.push(completed);
                        lemma_times(start, earlier, local_receive, times, next);
                        times = next;
                        let read = identified_trade(feed.coin, wire@, local_receive, completed);
                        assert(read == completed_trade(model, completed));
                        let step = feed.after_trade(index as nat, local_receive, read);
                        assert(self@.markets =~= before.with_feed(index as nat, step.0).markets);
                        assert(action_views(actions@) =~= action_views(done) + action_views(added));
                        assert(self@.coins() =~= before.coins());
                    }
                },
            }
            i = i + 1;
        }
        proof {
            if stopped {
                lemma_stopped(start, all, i as int, local_receive, times);
            } else {
                assert(all.take(i as int) =~= all);
            }
        }
        actions
    }

    fn apply_bbo<C: ObservationClock>(
        &self,
        data: &Value,
        local_receive: LocalObservationTime,
        clock: &C,
    ) -> (actions: Vec<AdapterAction>)
        ensures
            exists|completed: LocalObservationTime|
                action_views(actions@) == #[trigger] self@.bbo_actions(
                    json_contents(*data),
                    local_receive,
                    completed,
                ),
            actions_within(action_views(actions@), self@.markets.len()),
            completions_read(action_views(actions@), *clock),
    {
        let ghost contents = json_contents(*data);
        let bbo = match read_bbo(data) {
            Some(bbo) => bbo,
            None => {
                let actions = no_actions();
                assert(action_views(actions@) == self@.bbo_actions(
                    contents,
                    local_receive,
                    local_receive,
                ));
                return actions;
            },
        };
        let index: usize = match self.place_of(bbo.coin.as_str()) {
            Some(index) => index,
            None => {
                let actions = no_actions();
                assert(action_views(actions@) == self@.bbo_actions(
                    contents,
                    local_receive,
                    local_receive,
                ));
                return actions;
            },
        };
        assert(self@.coins()[index as int] == self.markets@[index as int]@.coin);
        match decode_bbo(&bbo, self.markets[index].market_coin(), local_receive) {
            Err(_) => {
                let actions = no_actions();
                assert(action_views(actions@) == self@.bbo_actions(
                    contents,
                    local_receive,
                    local_receive,
                ));
                actions
            },
            Ok(event) => {
                let completed: LocalObservationTime = clock.now();
                let event = event.completed_at(completed);
                let mut actions: Vec<AdapterAction> = Vec::new();
                actions.push(
                    AdapterAction::Publish(NormalizedMarketEvent::BestBidOfferUpdated(event)),
                );
                assert(action_views(actions@) =~= seq![
                    ActionView::Publish(EventView::BestBidOfferUpdated(event@)),
                ]);
                assert(action_views(actions@) == self@.bbo_actions(
                    contents,
                    local_receive,
                    completed,
                ));
                actions
            },
        }
    }

    fn apply_book<C: ObservationClock>(
        &mut self,
        data: &Value,
        local_receive: LocalObservationTime,
        clock: &C,
    ) -> (actions: Vec<AdapterAction>)
        requires
            old(self).well_formed(),
        ensures
            final(self).well_formed(),
            exists|completed: LocalObservationTime|
                (final(self)@, action_views(actions@)) == #[trigger] old(self)@.after_book(
                    json_contents(*data),
                    local_receive,
                    completed,
                ),
            final(self)@.coins() == old(self)@.coins(),
            actions_within(action_views(actions@), old(self)@.markets.len()),
            completions_read(action_views(actions@), *clock),
    {
        let ghost before = self@;
        let ghost contents = json_contents(*data);
        let coin: String = match text_under(data, "coin") {
            Some(coin) => coin,
            None => {
                let actions = no_actions();
                assert((self@, action_views(actions@)) == before.after_book(
                    contents,
                    local_receive,
                    local_receive,
                ));
                return actions;
            },
        };
        let index: usize = match self.place_of(coin.as_str()) {
            Some(index) => index,
            None => {
                let actions = no_actions();
                assert((self@, action_views(actions@)) == before.after_book(
                    contents,
                    local_receive,
                    local_receive,
                ));
                return actions;
            },
        };
        let decoded: Result<OrderBookSnapshot, String> = read_book_payload(
            self.markets[index].market_coin(),
            data,
            local_receive,
        );
        let ghost feed = before.markets[index as int];
        let ghost model = decoded_book(decoded);
        let actions = self.markets[index].apply_book(local_receive, decoded, clock);
        proof {
            let completed = choose|completed: LocalObservationTime|
                (self@.markets[index as int], action_views(actions@)) == #[trigger] feed.after_book(
                    local_receive,
                    model,
                    completed,
                );
            let step = feed.after_book(local_receive, model, completed);
            assert(self@.markets =~= before.with_feed(index as nat, step.0).markets);
            assert((self@, action_views(actions@)) == before.after_book(
                contents,
                local_receive,
                completed,
            ));
            assert(self@.coins() =~= before.coins());
        }
        actions
    }

    fn ignored(&self, text: Ghost<Seq<char>>, local_receive: Ghost<LocalObservationTime>) -> (actions:
        Vec<AdapterAction>)
        requires
            self@.after_text(text@, local_receive@, Seq::empty()) == (
                self@,
                Seq::<ActionView>::empty(),
            ),
        ensures
            action_views(actions@) == Seq::<ActionView>::empty(),
            (self@, action_views(actions@)) == self@.after_text(
                text@,
                local_receive@,
                Seq::empty(),
            ),
    {
        no_actions()
    }
}

/// What became of trades depends on no other times than theirs.
proof fn lemma_times(
    start: HyperliquidView,
    wires: Seq<WireTradeView>,
    local_receive: LocalObservationTime,
    left: Seq<LocalObservationTime>,
    right: Seq<LocalObservationTime>,
)
    requires
        forall|j: int| 0 <= j < wires.len() ==> #[trigger] left[j] == right[j],
    ensures
        start.after_trades(wires, local_receive, left) == start.after_trades(
            wires,
            local_receive,
            right,
        ),
    decreases wires.len(),
{
    if wires.len() > 0 {
        lemma_times(start, wires.drop_last(), local_receive, left, right);
        assert(left[wires.len() - 1] == right[wires.len() - 1]);
    }
}

/// What comes after a trade that stops the session changes nothing.
proof fn lemma_stopped(
    start: HyperliquidView,
    wires: Seq<WireTradeView>,
    i: int,
    local_receive: LocalObservationTime,
    times: Seq<LocalObservationTime>,
)
    requires
        0 <= i <= wires.len(),
        start.after_trades(wires.take(i), local_receive, times).stopped,
    ensures
        start.after_trades(wires, local_receive, times) == start.after_trades(
            wires.take(i),
            local_receive,
            times,
        ),
    decreases wires.len() - i,
{
    if i == wires.len() {
        assert(wires.take(i) =~= wires);
    } else {
        assert(wires.take(i + 1).drop_last() =~= wires.take(i));
        lemma_stopped(start, wires, i + 1, local_receive, times);
    }
}

impl MarketDataAdapter for HyperliquidAdapter {
    open spec fn identity_of(&self) -> AdapterIdentity {
        AdapterIdentity {
            venue: Venue::Hyperliquid,
            endpoint: "wss://api.hyperliquid.xyz/ws"@,
            coins: self@.coins(),
            heartbeat: Some(50),
        }
    }

    closed spec fn well_formed(&self) -> bool {
        &&& self@.of_venue()
        &&& forall|i: int| 0 <= i < self.markets@.len() ==> (#[trigger] self.markets@[i]).well_formed()
    }

    open spec fn answers_connected(before: Self, after: Self, actions: Seq<ActionView>) -> bool {
        &&& after@ == before@
        &&& actions == subscriptions(before@.coins())
    }

    open spec fn answers_heartbeat(before: Self, after: Self, actions: Seq<ActionView>) -> bool {
        &&& after@ == before@
        &&& actions == seq![ActionView::SendText("{\"method\":\"ping\"}"@)]
    }

    open spec fn answers_text(
        before: Self,
        text: Seq<char>,
        local_receive: LocalObservationTime,
        after: Self,
        actions: Seq<ActionView>,
    ) -> bool {
        exists|times: Seq<LocalObservationTime>|
            (after@, actions) == #[trigger] before@.after_text(text, local_receive, times)
    }

    open spec fn answers_disconnected(
        before: Self,
        reason: Seq<char>,
        observed_at: LocalObservationTime,
        after: Self,
        actions: Seq<ActionView>,
    ) -> bool {
        &&& after@ == before@.disconnected()
        &&& actions == all_disconnected(
            before@.markets,
            reason,
            observed_at,
        )
    }

    fn venue(&self) -> (venue: Venue) {
        Venue::Hyperliquid
    }

    fn endpoint(&self) -> (endpoint: &str) {
        "wss://api.hyperliquid.xyz/ws"
    }

    fn heartbeat_interval(&self) -> (seconds: Option<u64>) {
        Some(50)
    }

    /// Subscribes to the book, the best offers and the trades of every market.
    fn on_connected(&mut self) -> (actions: Vec<AdapterAction>) {
        let ghost coins = self@.coins();
        let mut actions: Vec<AdapterAction> = no_actions();
        let mut i: usize = 0;
        assert(coins.take(0) =~= Seq::<Seq<char>>::empty());
        while i < self.markets.len()
            invariant
                i <= self.markets.len(),
                coins == self@.coins(),
                coins.len() == self.markets@.len(),
                action_views(actions@) == subscriptions(coins.take(i as int)),
                actions_within(action_views(actions@), coins.len()),
            decreases self.markets.len() - i,
        {
            let ghost before = actions@;
            let coin: &MarketCoin = self.markets[i].market_coin();
            actions.push(AdapterAction::SendText(subscription_message("l2Book", coin)));
            actions.push(AdapterAction::SendText(subscription_message("bbo", coin)));
            actions.push(AdapterAction::SendText(subscription_message("trades", coin)));
            actions.push(AdapterAction::MarketSubscribed(MarketKey::new(i)));
            proof {
                assert(coins.take(i + 1).drop_last() =~= coins.take(i as int));
                assert(coins[i as int] == coin@);
                assert(action_views(actions@) =~= action_views(before) + market_subscriptions(
                    i as nat,
                    coin@,
                ));
            }
            i = i + 1;
        }
        assert(coins.take(i as int) =~= coins);
        actions
    }

    /// Sends the ping of the application.
    fn on_heartbeat(&mut self) -> (actions: Vec<AdapterAction>) {
        let mut actions: Vec<AdapterAction> = Vec::new();
        actions.push(AdapterAction::SendText("{\"method\":\"ping\"}".to_owned()));
        assert(action_views(actions@) =~= seq![ActionView::SendText("{\"method\":\"ping\"}"@)]);
        actions
    }

    fn on_text<C: ObservationClock>(
        &mut self,
        text: &str,
        local_receive: LocalObservationTime,
        clock: &C,
    ) -> (actions: Vec<AdapterAction>) {
        let ghost before = self@;
        let parts: Parts = match Parts::read(text.as_bytes()) {
            Some(parts) => parts,
            None => return self.ignored(Ghost(text@), Ghost(local_receive)),
        };
        if !parts.fits(1, 2) {
            return self.ignored(Ghost(text@), Ghost(local_receive));
        }
        let channel: String = match parts.text("channel", 0) {
            Some(channel) => channel,
            None => return self.ignored(Ghost(text@), Ghost(local_receive)),
        };
        let data: Value = match parts.part("data", 1) {
            Field::Given(bytes) => match read_inner_value(bytes) {
                Some(data) => data,
                None => return self.ignored(Ghost(text@), Ghost(local_receive)),
            },
            Field::Absent => {
                assert(envelope(text@) == Some((channel@, JsonView::Null)));
                return self.ignored(Ghost(text@), Ghost(local_receive));
            },
            Field::Repeated => return self.ignored(Ghost(text@), Ghost(local_receive)),
        };
        let data: &Value = &data;
        let ghost contents = json_contents(*data);
        assert(envelope(text@) == Some((channel@, contents)));
        if same_text(channel.as_str(), "trades") {
            let wires: Vec<WireTrade> = match read_trades(data) {
                Some(wires) => wires,
                None => return self.ignored(Ghost(text@), Ghost(local_receive)),
            };
            let actions = self.apply_trades(&wires, local_receive, clock);
            proof {
                let times = choose|times: Seq<LocalObservationTime>|
                    ({
                        let outcome = #[trigger] before.after_trades(
                            trade_views(wires@),
                            local_receive,
                            times,
                        );
                        &&& self@ == outcome.after
                        &&& action_views(actions@) == outcome.actions
                    });
                assert((self@, action_views(actions@)) == before.after_text(
                    text@,
                    local_receive,
                    times,
                ));
            }
            return actions;
        }
        if same_text(channel.as_str(), "bbo") {
            let actions = self.apply_bbo(data, local_receive, clock);
            proof {
                let completed = choose|completed: LocalObservationTime|
                    action_views(actions@) == #[trigger] before.bbo_actions(
                        contents,
                        local_receive,
                        completed,
                    );
                assert(seq![completed][0] == completed);
                assert((self@, action_views(actions@)) == before.after_text(
                    text@,
                    local_receive,
                    seq![completed],
                ));
            }
            return actions;
        }
        if same_text(channel.as_str(), "l2Book") {
            let actions = self.apply_book(data, local_receive, clock);
            proof {
                let completed = choose|completed: LocalObservationTime|
                    (self@, action_views(actions@)) == #[trigger] before.after_book(
                        contents,
                        local_receive,
                        completed,
                    );
                assert(seq![completed][0] == completed);
                assert((self@, action_views(actions@)) == before.after_text(
                    text@,
                    local_receive,
                    seq![completed],
                ));
            }
            return actions;
        }
        self.ignored(Ghost(text@), Ghost(local_receive))
    }

    fn on_disconnected(&mut self, reason: &str, observed_at: LocalObservationTime) -> (actions: Vec<
        AdapterAction,
    >) {
        let ghost before = self@;
        let ghost feeds = before.markets;
        let mut actions: Vec<AdapterAction> = no_actions();
        let mut i: usize = 0;
        assert(feeds.take(0) =~= Seq::<FeedView<(u64, u64)>>::empty());
        while i < self.markets.len()
            invariant
                i <= self.markets@.len(),
                self.markets@.len() == feeds.len(),
                forall|j: int|
                    0 <= j < self.markets@.len() ==> (#[trigger] self.markets@[j]).well_formed(),
                forall|j: int|
                    0 <= j < self.markets@.len() ==> (#[trigger] self.markets@[j])@ == if j < i {
                        feeds[j].disconnected()
                    } else {
                        feeds[j]
                    },
                action_views(actions@) == all_disconnected(
                    feeds.take(i as int),
                    reason@,
                    observed_at,
                ),
            decreases self.markets.len() - i,
        {
            let ghost done = actions@;
            let mut more = self.markets[i].disconnect(reason, observed_at);
            let ghost added = more@;
            actions.append(&mut more);
            proof {
                assert(feeds.take(i + 1).drop_last() =~= feeds.take(i as int));
                assert(action_views(actions@) =~= action_views(done) + action_views(added));
            }
            i = i + 1;
        }
        proof {
            assert(feeds.take(i as int) =~= feeds);
            assert(before.of_venue());
            assert(self@.markets =~= before.disconnected().markets);
            assert(self@.coins() =~= before.coins());
            lemma_all_disconnected_within(feeds, reason@, observed_at, feeds.len());
        }
        actions
    }

    fn market_coin(&self, market: MarketKey) -> (coin: Option<&MarketCoin>) {
        if market.index() < self.markets.len() {
            Some(self.markets[market.index()].market_coin())
        } else {
            None
        }
    }
}

/// A book is about one market at most: every other market is left as it is.
pub proof fn lemma_books_isolated(
    adapter: HyperliquidView,
    data: JsonView,
    local_receive: LocalObservationTime,
    completed: LocalObservationTime,
    other: int,
)
    requires
        0 <= other < adapter.markets.len(),
        member_text(data, "coin"@) != Some(adapter.coins()[other]),
    ensures
        adapter.after_book(data, local_receive, completed).0.markets[other]
            == adapter.markets[other],
{
    if let Some(coin) = member_text(data, "coin"@) {
        lemma_first_place(adapter.coins(), coin);
    }
}

/// A best bid and offer never changes a book or a trade stream.
pub proof fn lemma_bbo_independent(
    adapter: HyperliquidView,
    text: Seq<char>,
    local_receive: LocalObservationTime,
    times: Seq<LocalObservationTime>,
)
    requires
        envelope(text) is Some,
        envelope(text)->Some_0.0 == "bbo"@,
    ensures
        adapter.after_text(text, local_receive, times).0 == adapter,
{
    reveal_strlit("bbo");
    reveal_strlit("trades");
    assert("bbo"@.len() != "trades"@.len());
}

/// A request for one kind of data about a coin.
pub open spec fn asks_for(action: ActionView, kind: Seq<char>, coin: Seq<char>) -> bool {
    action == ActionView::SendText(
        "{\"method\":\"subscribe\",\"subscription\":{\"coin\":"@ + json_quoted(coin)
            + ",\"type\":"@ + json_quoted(kind) + "}}"@,
    )
}

/// Whether the actions from a place on ask for the book, the best offers and the trades of a
/// coin, and tell that the market of the index is followed.
pub open spec fn follows(actions: Seq<ActionView>, place: int, index: nat, coin: Seq<char>) -> bool {
    &&& asks_for(actions[place], "l2Book"@, coin)
    &&& asks_for(actions[place + 1], "bbo"@, coin)
    &&& asks_for(actions[place + 2], "trades"@, coin)
    &&& actions[place + 3] == ActionView::MarketSubscribed(index)
}

/// Every market is followed, in order, and nothing else is asked for.
pub proof fn lemma_markets_followed(coins: Seq<Seq<char>>)
    ensures
        subscriptions(coins).len() == 4 * coins.len(),
        forall|i: int|
            0 <= i < coins.len() ==> follows(
                subscriptions(coins),
                4 * i,
                i as nat,
                #[trigger] coins[i],
            ),
    decreases coins.len(),
{
    if coins.len() > 0 {
        let earlier = coins.drop_last();
        lemma_markets_followed(earlier);
        let before = subscriptions(earlier);
        let all = subscriptions(coins);
        let own = market_subscriptions(earlier.len(), coins.last());
        assert(all == before + own);
        assert forall|i: int| 0 <= i < coins.len() implies follows(
            all,
            4 * i,
            i as nat,
            #[trigger] coins[i],
        ) by {
            if i < earlier.len() {
                assert(follows(before, 4 * i, i as nat, earlier[i]));
                assert(all[4 * i] == before[4 * i]);
                assert(all[4 * i + 1] == before[4 * i + 1]);
                assert(all[4 * i + 2] == before[4 * i + 2]);
                assert(all[4 * i + 3] == before[4 * i + 3]);
            } else {
                assert(all[4 * i] == own[0]);
                assert(all[4 * i + 1] == own[1]);
                assert(all[4 * i + 2] == own[2]);
                assert(all[4 * i + 3] == own[3]);
            }
        }
    }
}

} // verus!
