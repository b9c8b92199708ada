//! The Lighter adapter.
pub mod answers;
pub mod book;
pub mod ladder;
pub mod messages;
pub mod metadata;
pub mod updates;
pub mod wire;

use vstd::prelude::*;

use crate::domain::{MarketCoin, Venue};
use crate::json::{json_quoted, quote_json};
use crate::market_data::event::{EventView, MarketDataUnavailable, NormalizedMarketEvent};
use crate::market_data::{LocalObservationTime, OrderBook, UnavailabilityCategory};
use crate::text::{decimal, decimal_text, same_text};
use crate::venue::action::{
    action_views, actions_within, completions_read, ActionView, AdapterAction, AdapterIdentity,
    MarketDataAdapter, MarketKey,
};
use crate::venue::clock::ObservationClock;
use crate::venue::feed::{book_unavailable, FeedView};
use crate::venue::lighter::book::{
    identified_trade, outcome_view, AdapterError, ErrorView, HandleOutcome, LighterMarketView,
    LighterOrderBookAdapter,
};
use crate::venue::lighter::metadata::{
    all_resolved, coin_texts, resolve_markets, response_view, LighterMarket, MetadataError,
    MetadataErrorView, WireMarket,
};
use crate::venue::lighter::wire::{
    channel_market, envelope_text, market_id_behind, EnvelopeView, WireEnvelope, WireTrade,
    WireTradeView,
};
use crate::venue::stream_markets::{all_disconnected, lemma_all_disconnected_within};
use crate::venue::wire::{first_place, lemma_first_place, lemma_first_place_step};

verus! {

/// Reads the books and the trades of Lighter.
pub struct LighterAdapter {
    markets: Vec<LighterOrderBookAdapter>,
}

/// The model of `LighterAdapter`: its markets by their keys.
pub struct LighterView {
    pub markets: Seq<LighterMarketView>,
}

impl View for LighterAdapter {
    type V = LighterView;

    closed spec fn view(&self) -> LighterView {
        LighterView {
            markets: self.markets@.map_values(|market: LighterOrderBookAdapter| market@),
        }
    }
}

/// A command about one stream of a market.
pub open spec fn command(word: Seq<char>, stream: Seq<char>, market_id: u32) -> Seq<char> {
    "{\"channel\":"@ + json_quoted(stream + decimal(market_id as nat)) + ",\"type\":"@
        + json_quoted(word) + "}"@
}

fn command_message(word: &str, stream: &str, market_id: u32) -> (text: String)
    ensures
        text@ == command(word@, stream@, market_id),
{
    let mut channel: String = stream.to_owned();
    channel.append(decimal_text(market_id as u128).as_str());
    let mut text: String = "{\"channel\":".to_owned();
    text.append(quote_json(channel.as_str()).as_str());
    text.append(",\"type\":");
    text.append(quote_json(word).as_str());
    text.append("}");
    text
}

/// What is asked for to follow a market: its book and its trades.
pub open spec fn market_subscriptions(index: nat, market_id: u32) -> Seq<ActionView> {
    seq![
        ActionView::SendText(command("subscribe"@, "order_book/"@, market_id)),
        ActionView::SendText(command("subscribe"@, "trade/"@, market_id)),
        ActionView::MarketSubscribed(index),
    ]
}

/// What is asked for to follow markets.
pub open spec fn subscriptions(market_ids: Seq<u32>) -> Seq<ActionView>
    decreases market_ids.len(),
{
    if market_ids.len() == 0 {
        Seq::empty()
    } else {
        subscriptions(market_ids.drop_last()) + market_subscriptions(
            (market_ids.len() - 1) as nat,
            market_ids.last(),
        )
    }
}

/// Nothing is published by following markets.
pub proof fn lemma_subscriptions_publish_nothing(market_ids: Seq<u32>)
    ensures
        forall|i: int|
            0 <= i < subscriptions(market_ids).len() ==> !((#[trigger] subscriptions(
                market_ids,
            )[i]) is Publish),
    decreases market_ids.len(),
{
    if market_ids.len() > 0 {
        lemma_subscriptions_publish_nothing(market_ids.drop_last());
    }
}

/// What is asked for to get a full book again: the end of the subscription, then a new one.
pub open spec fn recovery(index: nat, market_id: u32) -> Seq<ActionView> {
    seq![
        ActionView::SendText(command("unsubscribe"@, "order_book/"@, market_id)),
        ActionView::SendText(command("subscribe"@, "order_book/"@, market_id)),
        ActionView::MarketSubscribed(index),
    ]
}

/// Why the book is unavailable after an error.
pub open spec fn error_category(error: ErrorView) -> UnavailabilityCategory {
    match error {
        ErrorView::NonceGap { .. } => UnavailabilityCategory::SequenceGap,
        _ => UnavailabilityCategory::InvalidMarketData,
    }
}

/// What is asked for after a message about the book of a market. A full book is asked for
/// again after every error but an update that came before a snapshot.
pub open spec fn book_actions(
    index: nat,
    after: LighterMarketView,
    outcome: Result<HandleOutcome, ErrorView>,
    local_receive: LocalObservationTime,
) -> Seq<ActionView> {
    match outcome {
        Ok(HandleOutcome::Applied) => seq![
            ActionView::Publish(
                EventView::OrderBookSnapshot(after.feed.book.current()->Some_0),
            ),
        ],
        Ok(HandleOutcome::Ignored) => Seq::empty(),
        Err(error) => {
            let unavailable = seq![
                book_unavailable(
                    Venue::Lighter,
                    after.feed.coin,
                    local_receive,
                    error_category(error),
                    error.message(),
                ),
            ];
            if error == ErrorView::UpdateBeforeSnapshot {
                unavailable
            } else {
                unavailable + recovery(index, after.market_id)
            }
        },
    }
}

/// What became of trades: the market then, what is asked for, and whether its trades cannot
/// be told apart any more.
pub struct TradesOutcome {
    pub after: LighterMarketView,
    pub actions: Seq<ActionView>,
    pub stopped: bool,
}

/// After trades that were complete at the given times. What comes after a trade that stops
/// the session is not looked at.
pub open spec fn after_trades(
    market: LighterMarketView,
    index: nat,
    message_nonce: Option<u64>,
    wires: Seq<WireTradeView>,
    local_receive: LocalObservationTime,
    times: Seq<LocalObservationTime>,
) -> TradesOutcome
    decreases wires.len(),
{
    if wires.len() == 0 {
        TradesOutcome { after: market, actions: Seq::empty(), stopped: false }
    } else {
        let before = after_trades(
            market,
            index,
            message_nonce,
            wires.drop_last(),
            local_receive,
            times,
        );
        if before.stopped {
            before
        } else {
            let decoded = identified_trade(
                before.after,
                message_nonce,
                wires.last(),
                local_receive,
                times[wires.len() - 1],
            );
            let step = before.after.feed.after_trade(index, local_receive, decoded);
            TradesOutcome {
                after: LighterMarketView { feed: step.0, ..before.after },
                actions: before.actions + step.1,
                stopped: before.after.feed.stops(decoded),
            }
        }
    }
}

impl LighterView {
    /// The coins of the markets.
    pub open spec fn coins(self) -> Seq<Seq<char>> {
        self.markets.map_values(|market: LighterMarketView| market.feed.coin)
    }

    /// The numbers of the markets.
    pub open spec fn market_ids(self) -> Seq<u32> {
        self.markets.map_values(|market: LighterMarketView| market.market_id)
    }

    /// The books and trades of the markets.
    pub open spec fn feeds(self) -> Seq<FeedView<(u32, Seq<char>)>> {
        self.markets.map_values(|market: LighterMarketView| market.feed)
    }

    /// With what became of one market.
    pub open spec fn with_market(self, index: nat, market: LighterMarketView) -> LighterView {
        LighterView { markets: self.markets.update(index as int, market) }
    }

    /// The market that a channel is about.
    pub open spec fn routed(self, channel: Seq<char>, prefix: Seq<char>) -> Option<nat> {
        match channel_market(channel, prefix) {
            None => None,
            Some(market_id) => first_place(self.market_ids(), market_id),
        }
    }

    /// After a message about trades: those of the market, then its liquidations.
    pub open spec fn after_trade_message(
        self,
        envelope: EnvelopeView,
        local_receive: LocalObservationTime,
        times: Seq<LocalObservationTime>,
    ) -> (LighterView, Seq<ActionView>) {
        match self.routed(envelope.channel, "trade:"@) {
            None => (self, Seq::empty()),
            Some(index) => {
                let outcome = after_trades(
                    self.markets[index as int],
                    index,
                    envelope.nonce,
                    envelope.trades + envelope.liquidation_trades,
                    local_receive,
                    times,
                );
                (self.with_market(index, outcome.after), outcome.actions)
            },
        }
    }

    /// After a message about a book.
    pub open spec fn after_book_message(
        self,
        envelope: EnvelopeView,
        local_receive: LocalObservationTime,
        completed: LocalObservationTime,
    ) -> (LighterView, Seq<ActionView>) {
        match self.routed(envelope.channel, "order_book:"@) {
            None => (self, Seq::empty()),
            Some(index) => {
                let step = self.markets[index as int].after_envelope(
                    envelope,
                    local_receive,
                    completed,
                );
                (
                    self.with_market(index, step.0),
                    book_actions(index, step.0, step.1, local_receive),
                )
            },
        }
    }

    /// After a message: what the markets are then, and what is asked for, where processing
    /// is complete at the given times.
    pub open spec fn after_text(
        self,
        text: Seq<char>,
        local_receive: LocalObservationTime,
        times: Seq<LocalObservationTime>,
    ) -> (LighterView, Seq<ActionView>) {
        match envelope_text(text) {
            None => (self, Seq::empty()),
            Some(envelope) => if envelope.kind == "connected"@ {
                (self, subscriptions(self.market_ids()))
            } else if envelope.kind == "ping"@ {
                (self, seq![ActionView::SendText("{\"type\":\"pong\"}"@)])
            } else if envelope.kind == "subscribed/trade"@ || envelope.kind == "update/trade"@ {
                self.after_trade_message(envelope, local_receive, times)
            } else if envelope.kind == "subscribed/order_book"@ || envelope.kind
                == "update/order_book"@ {
                self.after_book_message(envelope, local_receive, times[0])
            } else {
                (self, Seq::empty())
            },
        }
    }

    /// After the connection was lost.
    pub open spec fn disconnected(self) -> LighterView {
        LighterView {
            markets: self.markets.map_values(
                |market: LighterMarketView| market.disconnected(),
            ),
        }
    }

    /// Markets that have not seen anything.
    pub open spec fn fresh(coins: Seq<Seq<char>>, market_ids: Seq<u32>, capacity: nat) -> LighterView {
        LighterView {
            markets: Seq::new(
                market_ids.len(),
                |i: int| LighterMarketView {
                    market_id: market_ids[i],
                    feed: FeedView::fresh(Venue::Lighter, coins[i], capacity),
                    bids: Map::empty(),
                    asks: Map::empty(),
                    nonce: None,
                },
            ),
        }
    }
}

/// Nothing is asked for.
fn no_actions() -> (actions: Vec<AdapterAction>)
    ensures
        action_views(actions@) == Seq::<ActionView>::empty(),
{
    let actions: Vec<AdapterAction> = Vec::new();
    assert(action_views(actions@) =~= Seq::<ActionView>::empty());
    actions
}

/// What became of trades depends on no other times than theirs.
proof fn lemma_times(
    market: LighterMarketView,
    index: nat,
    message_nonce: Option<u64>,
    wires: Seq<WireTradeView>,
    local_receive: LocalObservationTime,
    left: Seq<LocalObservationTime>,
    right: Seq<LocalObservationTime>,
)
    requires
        forall|j: int| 0 <= j < wires.len() ==> #[trigger] left[j] == right[j],
    ensures
        after_trades(market, index, message_nonce, wires, local_receive, left) == after_trades(
            market,
            index,
            message_nonce,
            wires,
            local_receive,
            right,
        ),
    decreases wires.len(),
{
    if wires.len() > 0 {
        lemma_times(market, index, message_nonce, wires.drop_last(), local_receive, left, right);
        assert(left[wires.len() - 1] == right[wires.len() - 1]);
    }
}

/// What comes after a trade that stops the session changes nothing.
proof fn lemma_stopped(
    market: LighterMarketView,
    index: nat,
    message_nonce: Option<u64>,
    wires: Seq<WireTradeView>,
    i: int,
    local_receive: LocalObservationTime,
    times: Seq<LocalObservationTime>,
)
    requires
        0 <= i <= wires.len(),
        after_trades(market, index, message_nonce, wires.take(i), local_receive, times).stopped,
    ensures
        after_trades(market, index, message_nonce, wires, local_receive, times) == after_trades(
            market,
            index,
            message_nonce,
            wires.take(i),
            local_receive,
            times,
        ),
    decreases wires.len() - i,
{
    if i == wires.len() {
        assert(wires.take(i) =~= wires);
    } else {
        assert(wires.take(i + 1).drop_last() =~= wires.take(i));
        lemma_stopped(market, index, message_nonce, wires, i + 1, local_receive, times);
    }
}

fn apply_trades<C: ObservationClock>(
    market: &mut LighterOrderBookAdapter,
    index: usize,
    envelope: &WireEnvelope,
    local_receive: LocalObservationTime,
    clock: &C,
) -> (actions: Vec<AdapterAction>)
    requires
        old(market).well_formed(),
    ensures
        final(market).well_formed(),
        exists|times: Seq<LocalObservationTime>|
            ({
                let outcome = #[trigger] after_trades(
                    old(market)@,
                    index as nat,
                    envelope@.nonce,
                    envelope@.trades + envelope@.liquidation_trades,
                    local_receive,
                    times,
                );
                &&& final(market)@ == outcome.after
                &&& action_views(actions@) == outcome.actions
            }),
        final(market)@.feed.coin == old(market)@.feed.coin,
        final(market)@.market_id == old(market)@.market_id,
        actions_within(action_views(actions@), (index + 1) as nat),
        completions_read(action_views(actions@), *clock),
{
    let ghost start = market@;
    let ghost all = envelope@.trades + envelope@.liquidation_trades;
    let ghost nonce = envelope@.nonce;
    let ghost mut times: Seq<LocalObservationTime> = Seq::empty();
    let mut actions: Vec<AdapterAction> = no_actions();
    let mut stopped: bool = false;
    let regular: usize = envelope.trades.len();
    let liquidations: usize = envelope.liquidation_trades.len();
    let mut i: usize = 0;
    let mut k: usize = 0;
    assert(all.take(0) =~= Seq::<WireTradeView>::empty());
    while (i < regular || k < liquidations) && !stopped
        invariant
            i <= regular == envelope.trades@.len(),
            k <= liquidations == envelope.liquidation_trades@.len(),
            k > 0 ==> i == regular,
            times.len() == i + k,
            all == envelope@.trades + envelope@.liquidation_trades,
            nonce == envelope@.nonce,
            market.well_formed(),
            market@.feed.coin == start.feed.coin,
            market@.market_id == start.market_id,
            market@ == after_trades(
                start,
                index as nat,
                nonce,
                all.take(i + k),
                local_receive,
                times,
            ).after,
            action_views(actions@) == after_trades(
                start,
                index as nat,
                nonce,
                all.take(i + k),
                local_receive,
                times,
            ).actions,
            stopped == after_trades(
                start,
                index as nat,
                nonce,
                all.take(i + k),
                local_receive,
                times,
            ).stopped,
            actions_within(action_views(actions@), (index + 1) as nat),
            completions_read(action_views(actions@), *clock),
        decreases (regular - i) + (liquidations - k),
    {
        let ghost place = i + k;
        let wire: &WireTrade = if i < regular {
            &envelope.trades[i]
        } else {
            &envelope.liquidation_trades[k]
        };
        let ghost done = actions@;
        let ghost earlier = all.take(place);
        let ghost now = all.take(place + 1);
        proof {
            assert(now.drop_last() =~= earlier);
            assert(now.last() == wire@);
        }
        let ghost before = market@;
        let (mut more, ends) = market.apply_trade(
            index,
            wire,
            envelope.nonce,
            local_receive,
            clock,
        );
        let ghost added = more@;
        actions.append(&mut more);
        stopped = ends;
        proof {
            let completed = choose|completed: LocalObservationTime|
                ({
                    let decoded = #[trigger] identified_trade(
                        before,
                        nonce,
                        wire@,
                        local_receive,
                        completed,
                    );
                    let step = before.feed.after_trade(index as nat, local_receive, decoded);
                    &&& market@ == (LighterMarketView { feed: step.0, ..before })
                    &&& action_views(added) == step.1
                    &&& ends == before.feed.stops(decoded)
                });
            let next = times.push(completed);
            lemma_times(start, index as nat, nonce, earlier, local_receive, times, next);
            times = next;
            assert(action_views(actions@) =~= action_views(done) + action_views(added));
        }
        if i < regular {
            i = i + 1;
        } else {
            k = k + 1;
        }
    }
    proof {
        if stopped {
            lemma_stopped(start, index as nat, nonce, all, i + k, local_receive, times);
        } else {
            assert(all.take(i + k) =~= all);
        }
    }
    actions
}

fn book_actions_of(
    index: usize,
    market: &LighterOrderBookAdapter,
    result: Result<HandleOutcome, AdapterError>,
    local_receive: LocalObservationTime,
) -> (actions: Vec<AdapterAction>)
    requires
        outcome_view(result) == Ok::<HandleOutcome, ErrorView>(HandleOutcome::Applied)
            ==> market@.feed.book.current() is Some,
    ensures
        action_views(actions@) == book_actions(
            index as nat,
            market@,
            outcome_view(result),
            local_receive,
        ),
        actions_within(action_views(actions@), (index + 1) as nat),
{
    let ghost model = outcome_view(result);
    let mut actions: Vec<AdapterAction> = Vec::new();
    match result {
        Ok(HandleOutcome::Applied) => {
            if let Some(snapshot) = market.book().current() {
                actions.push(
                    AdapterAction::Publish(
                        NormalizedMarketEvent::OrderBookSnapshot(snapshot.clone()),
                    ),
                );
            }
        },
        Ok(HandleOutcome::Ignored) => {},
        Err(error) => {
            let category: UnavailabilityCategory = match &error {
                AdapterError::NonceGap { .. } => UnavailabilityCategory::SequenceGap,
                _ => UnavailabilityCategory::InvalidMarketData,
            };
            actions.push(
                AdapterAction::Publish(
                    NormalizedMarketEvent::OrderBookUnavailable(
                        MarketDataUnavailable::new(
                            Venue::Lighter,
                            market.market_coin().clone(),
                            local_receive,
                            category,
                            error.to_text(),
                        ),
                    ),
                ),
            );
            let recovers: bool = match &error {
                AdapterError::UpdateBeforeSnapshot => false,
                _ => true,
            };
            if recovers {
                let id: u32 = market.market_id();
                actions.push(
                    AdapterAction::SendText(command_message("unsubscribe", "order_book/", id)),
                );
                actions.push(
                    AdapterAction::SendText(command_message("subscribe", "order_book/", id)),
                );
                actions.push(AdapterAction::MarketSubscribed(MarketKey::new(index)));
            }
        },
    }
    assert(action_views(actions@) =~= book_actions(index as nat, market@, model, local_receive));
    actions
}

impl LighterAdapter {
    /// Follows markets.
    pub fn from_markets(markets: Vec<LighterMarket>, trade_dedup_capacity: usize) -> (adapter: Self)
        requires
            trade_dedup_capacity > 0,
        ensures
            adapter.well_formed(),
            adapter@ == LighterView::fresh(
                markets@.map_values(|market: LighterMarket| market.market_coin@),
                markets@.map_values(|market: LighterMarket| market.market_id),
                trade_dedup_capacity as nat,
            ),
    {
        let mut followed: Vec<LighterOrderBookAdapter> = Vec::new();
        let ghost fresh = LighterView::fresh(
            markets@.map_values(|market: LighterMarket| market.market_coin@),
            markets@.map_values(|market: LighterMarket| market.market_id),
            trade_dedup_capacity as nat,
        );
        let mut i: usize = 0;
        while i < markets.len()
            invariant
                i <= markets.len(),
                trade_dedup_capacity > 0,
                followed@.len() == i,
                fresh == LighterView::fresh(
                    markets@.map_values(|market: LighterMarket| market.market_coin@),
                    markets@.map_values(|market: LighterMarket| market.market_id),
                    trade_dedup_capacity as nat,
                ),
                forall|j: int|
                    0 <= j < i ==> (#[trigger] followed@[j]).well_formed() && followed@[j]@
                        == fresh.markets[j],
            decreases markets.len() - i,
        {
            followed.push(
                LighterOrderBookAdapter::new(
                    LighterMarket::new(markets[i].market_coin.clone(), markets[i].market_id),
                    trade_dedup_capacity,
                ),
            );
            i = i + 1;
        }
        let adapter = LighterAdapter { markets: followed };
        assert(adapter@.markets =~= fresh.markets);
        adapter
    }

    /// Finds the markets of coins in what the venue listed, and follows them.
    pub fn bootstrap(
        market_coins: &Vec<MarketCoin>,
        response: Result<Vec<WireMarket>, String>,
        trade_dedup_capacity: usize,
    ) -> (result: Result<Self, MetadataError>)
        requires
            trade_dedup_capacity > 0,
        ensures
            match result {
                Ok(adapter) => {
                    &&& adapter.well_formed()
                    &&& all_resolved(coin_texts(market_coins@), response_view(response)) == Ok::<
                        Seq<u32>,
                        MetadataErrorView,
                    >(adapter@.market_ids())
                    &&& adapter@ == LighterView::fresh(
                        coin_texts(market_coins@),
                        adapter@.market_ids(),
                        trade_dedup_capacity as nat,
                    )
                },
                Err(error) => all_resolved(coin_texts(market_coins@), response_view(response))
                    == Err::<Seq<u32>, MetadataErrorView>(error@),
            },
    {
        match resolve_markets(market_coins, response) {
            Ok(markets) => {
                let adapter = LighterAdapter::from_markets(markets, trade_dedup_capacity);
                assert(adapter@.market_ids() =~= markets@.map_values(
                    |market: LighterMarket| market.market_id,
                ));
                Ok(adapter)
            },
            Err(error) => Err(error),
        }
    }

    /// The coins and the numbers of the markets.
    pub fn resolved_markets(&self) -> (markets: Vec<(MarketCoin, u32)>)
        ensures
            markets@.len() == self@.markets.len(),
            forall|i: int|
                0 <= i < markets@.len() ==> (#[trigger] markets@[i]).0@ == self@.markets[i].feed.coin
                    && markets@[i].1 == self@.markets[i].market_id,
    {
        let mut resolved: Vec<(MarketCoin, u32)> = Vec::new();
        let mut i: usize = 0;
        while i < self.markets.len()
            invariant
                i <= self.markets.len(),
                resolved@.len() == i,
                forall|j: int|
                    0 <= j < i ==> (#[trigger] resolved@[j]).0@ == self@.markets[j].feed.coin
                        && resolved@[j].1 == self@.markets[j].market_id,
            decreases self.markets.len() - i,
        {
            resolved.push((self.markets[i].market_coin().clone(), self.markets[i].market_id()));
            i = i + 1;
        }
        resolved
    }

    /// The book of a market.
    pub fn book(&self, market: MarketKey) -> (book: Option<&OrderBook>)
        ensures
            match book {
                Some(book) => market.0 < self@.markets.len() && book@
                    == self@.markets[market.0 as int].feed.book,
                None => market.0 >= self@.markets.len(),
            },
    {
        if market.index() < self.markets.len() {
            Some(self.markets[market.index()].book())
        } else {
            None
        }
    }

    fn place_of(&self, channel: &str, prefix: &str) -> (place: Option<usize>)
        ensures
            match place {
                Some(place) => self@.routed(channel@, prefix@) == Some(place as nat) && place
                    < self.markets@.len(),
                None => self@.routed(channel@, prefix@) is None,
            },
    {
        let market_id: u32 = match market_id_behind(channel, prefix) {
            Some(id) => id,
            None => return None,
        };
        let ghost ids = self@.market_ids();
        let mut i: usize = 0;
        assert(ids.take(0) =~= Seq::<u32>::empty());
        while i < self.markets.len()
            invariant
                i <= self.markets.len(),
                ids == self@.market_ids(),
                ids.len() == self.markets@.len(),
                channel_market(channel@, prefix@) == Some(market_id),
                first_place(ids.take(i as int), market_id) is None,
            decreases self.markets.len() - i,
        {
            proof {
                lemma_first_place_step(ids, i as int, market_id);
                assert(ids[i as int] == self.markets@[i as int]@.market_id);
            }
            if self.markets[i].market_id() == market_id {
                return Some(i);
            }
            i = i + 1;
        }
        assert(ids.take(i as int) =~= ids);
        None
    }

    fn subscribe_all(&self) -> (actions: Vec<AdapterAction>)
        ensures
            action_views(actions@) == subscriptions(self@.market_ids()),
            actions_within(action_views(actions@), self@.markets.len()),
    {
        let ghost ids = self@.market_ids();
        let mut actions: Vec<AdapterAction> = no_actions();
        let mut i: usize = 0;
        assert(ids.take(0) =~= Seq::<u32>::empty());
        while i < self.markets.len()
            invariant
                i <= self.markets.len(),
                ids == self@.market_ids(),
                ids.len() == self.markets@.len(),
                action_views(actions@) == subscriptions(ids.take(i as int)),
                actions_within(action_views(actions@), ids.len()),
            decreases self.markets.len() - i,
        {
            let ghost before = actions@;
            let id: u32 = self.markets[i].market_id();
            actions.push(AdapterAction::SendText(command_message("subscribe", "order_book/", id)));
            actions.push(AdapterAction::SendText(command_message("subscribe", "trade/", id)));
            actions.push(AdapterAction::MarketSubscribed(MarketKey::new(i)));
            proof {
                assert(ids.take(i + 1).drop_last() =~= ids.take(i as int));
                assert(ids[i as int] == id);
                assert(action_views(actions@) =~= action_views(before) + market_subscriptions(
                    i as nat,
                    id,
                ));
            }
            i = i + 1;
        }
        assert(ids.take(i as int) =~= ids);
        actions
    }

    fn handle_trades<C: ObservationClock>(
        &mut self,
        envelope: &WireEnvelope,
        local_receive: LocalObservationTime,
        clock: &C,
    ) -> (actions: Vec<AdapterAction>)
        requires
            old(self).well_formed(),
        ensures
            final(self).well_formed(),
            exists|times: Seq<LocalObservationTime>|
                (final(self)@, action_views(actions@)) == #[trigger] old(self)@.after_trade_message(
                    envelope@,
                    local_receive,
                    times,
                ),
            final(self)@.coins() == old(self)@.coins(),
            actions_within(action_views(actions@), old(self)@.markets.len()),
            completions_read(action_views(actions@), *clock),
    {
        let ghost before = self@;
        let index: usize = match self.place_of(envelope.channel.as_str(), "trade:") {
            Some(index) => index,
            None => {
                let actions = no_actions();
                assert((self@, action_views(actions@)) == before.after_trade_message(
                    envelope@,
                    local_receive,
                    Seq::empty(),
                ));
                return actions;
            },
        };
        let ghost market = before.markets[index as int];
        let actions = apply_trades(
            &mut self.markets[index],
            index,
            envelope,
            local_receive,
            clock,
        );
        proof {
            let times = choose|times: Seq<LocalObservationTime>|
                ({
                    let outcome = #[trigger] after_trades(
                        market,
                        index as nat,
                        envelope@.nonce,
                        envelope@.trades + envelope@.liquidation_trades,
                        local_receive,
                        times,
                    );
                    &&& self@.markets[index as int] == outcome.after
                    &&& action_views(actions@) == outcome.actions
                });
            assert(self@.markets =~= before.with_market(
                index as nat,
                self@.markets[index as int],
            ).markets);
            assert((self@, action_views(actions@)) == before.after_trade_message(
                envelope@,
                local_receive,
                times,
            ));
            assert(self@.coins() =~= before.coins());
        }
        actions
    }

    fn handle_book<C: ObservationClock>(
        &mut self,
        envelope: &WireEnvelope,
        local_receive: LocalObservationTime,
        clock: &C,
    ) -> (actions: Vec<AdapterAction>)
        requires
            old(self).well_formed(),
        ensures
            final(self).well_formed(),
            exists|completed: LocalObservationTime|
                (final(self)@, action_views(actions@)) == #[trigger] old(self)@.after_book_message(
                    envelope@,
                    local_receive,
                    completed,
                ),
            final(self)@.coins() == old(self)@.coins(),
            actions_within(action_views(actions@), old(self)@.markets.len()),
            completions_read(action_views(actions@), *clock),
    {
        let ghost before = self@;
        let index: usize = match self.place_of(envelope.channel.as_str(), "order_book:") {
            Some(index) => index,
            None => {
                let actions = no_actions();
                assert((self@, action_views(actions@)) == before.after_book_message(
                    envelope@,
                    local_receive,
                    local_receive,
                ));
                return actions;
            },
        };
        let ghost market = before.markets[index as int];
        let result = self.markets[index].apply_envelope(envelope, local_receive, clock);
        let ghost model = outcome_view(result);
        let ghost completed = choose|completed: LocalObservationTime|
            (self@.markets[index as int], model) == #[trigger] market.after_envelope(
                envelope@,
                local_receive,
                completed,
            );
        proof {
            assert(self.markets@[index as int]@ == self@.markets[index as int]);
        }
        let actions = book_actions_of(index, &self.markets[index], result, local_receive);
        proof {
            assert(self@.markets =~= before.with_market(
                index as nat,
                self@.markets[index as int],
            ).markets);
            assert((self@, action_views(actions@)) == before.after_book_message(
                envelope@,
                local_receive,
                completed,
            ));
            assert(self@.coins() =~= before.coins());
        }
        actions
    }

    fn ignored(&self, text: Ghost<Seq<char>>, local_receive: Ghost<LocalObservationTime>) -> (actions:
        Vec<AdapterAction>)
        requires
            self@.after_text(text@, local_receive@, Seq::empty()) == (
                self@,
                Seq::<ActionView>::empty(),
            ),
        ensures
            action_views(actions@) == Seq::<ActionView>::empty(),
            (self@, action_views(actions@)) == self@.after_text(
                text@,
                local_receive@,
                Seq::empty(),
            ),
    {
        no_actions()
    }
}

impl MarketDataAdapter for LighterAdapter {
    open spec fn identity_of(&self) -> AdapterIdentity {
        AdapterIdentity {
            venue: Venue::Lighter,
            endpoint: "wss://mainnet.zklighter.elliot.ai/stream"@,
            coins: self@.coins(),
            heartbeat: Some(15),
        }
    }

    closed spec fn well_formed(&self) -> bool {
        forall|i: int| 0 <= i < self.markets@.len() ==> (#[trigger] self.markets@[i]).well_formed()
    }

    open spec fn answers_connected(before: Self, after: Self, actions: Seq<ActionView>) -> bool {
        &&& after@ == before@
        &&& actions == Seq::<ActionView>::empty()
    }

    open spec fn answers_heartbeat(before: Self, after: Self, actions: Seq<ActionView>) -> bool {
        &&& after@ == before@
        &&& actions == seq![ActionView::SendPing(Seq::empty())]
    }

    open spec fn answers_text(
        before: Self,
        text: Seq<char>,
        local_receive: LocalObservationTime,
        after: Self,
        actions: Seq<ActionView>,
    ) -> bool {
        exists|times: Seq<LocalObservationTime>|
            (after@, actions) == #[trigger] before@.after_text(text, local_receive, times)
    }

    open spec fn answers_disconnected(
        before: Self,
        reason: Seq<char>,
        observed_at: LocalObservationTime,
        after: Self,
        actions: Seq<ActionView>,
    ) -> bool {
        &&& after@ == before@.disconnected()
        &&& actions == all_disconnected(
            before@.feeds(),
            reason,
            observed_at,
        )
    }

    fn venue(&self) -> (venue: Venue) {
        Venue::Lighter
    }

    fn endpoint(&self) -> (endpoint: &str) {
        "wss://mainnet.zklighter.elliot.ai/stream"
    }

    fn heartbeat_interval(&self) -> (seconds: Option<u64>) {
        Some(15)
    }

    /// The venue speaks first: nothing is asked for before its greeting.
    fn on_connected(&mut self) -> (actions: Vec<AdapterAction>) {
        let actions: Vec<AdapterAction> = Vec::new();
        assert(action_views(actions@) =~= Seq::<ActionView>::empty());
        actions
    }

    /// Sends an empty ping.
    fn on_heartbeat(&mut self) -> (actions: Vec<AdapterAction>) {
        let payload: Vec<u8> = Vec::new();
        let mut actions: Vec<AdapterAction> = Vec::new();
        actions.push(AdapterAction::SendPing(payload));
        assert(action_views(actions@) =~= seq![ActionView::SendPing(Seq::empty())]);
        actions
    }

    fn on_text<C: ObservationClock>(
        &mut self,
        text: &str,
        local_receive: LocalObservationTime,
        clock: &C,
    ) -> (actions: Vec<AdapterAction>) {
        let ghost before = self@;
        let envelope: WireEnvelope = match WireEnvelope::parse(text) {
            Some(envelope) => envelope,
            None => return self.ignored(Ghost(text@), Ghost(local_receive)),
        };
        if same_text(envelope.kind.as_str(), "connected") {
            let actions = self.subscribe_all();
            proof {
                lemma_subscriptions_publish_nothing(before.market_ids());
            }
            assert((self@, action_views(actions@)) == before.after_text(
                text@,
                local_receive,
                Seq::empty(),
            ));
            return actions;
        }
        if same_text(envelope.kind.as_str(), "ping") {
            let mut actions: Vec<AdapterAction> = Vec::new();
            actions.push(AdapterAction::SendText("{\"type\":\"pong\"}".to_owned()));
            assert(action_views(actions@) =~= seq![
                ActionView::SendText("{\"type\":\"pong\"}"@),
            ]);
            assert((self@, action_views(actions@)) == before.after_text(
                text@,
                local_receive,
                Seq::empty(),
            ));
            return actions;
        }
        if same_text(envelope.kind.as_str(), "subscribed/trade") || same_text(
            envelope.kind.as_str(),
            "update/trade",
        ) {
            let actions = self.handle_trades(&envelope, local_receive, clock);
            proof {
                let times = choose|times: Seq<LocalObservationTime>|
                    (self@, action_views(actions@)) == #[trigger] before.after_trade_message(
                        envelope@,
                        local_receive,
                        times,
                    );
                assert((self@, action_views(actions@)) == before.after_text(
                    text@,
                    local_receive,
                    times,
                ));
            }
            return actions;
        }
        if same_text(envelope.kind.as_str(), "subscribed/order_book") || same_text(
            envelope.kind.as_str(),
            "update/order_book",
        ) {
            let actions = self.handle_book(&envelope, local_receive, clock);
            proof {
                let completed = choose|completed: LocalObservationTime|
                    (self@, action_views(actions@)) == #[trigger] before.after_book_message(
                        envelope@,
                        local_receive,
                        completed,
                    );
                assert(seq![completed][0] == completed);
                assert((self@, action_views(actions@)) == before.after_text(
                    text@,
                    local_receive,
                    seq![completed],
                ));
            }
            return actions;
        }
        self.ignored(Ghost(text@), Ghost(local_receive))
    }

    fn on_disconnected(&mut self, reason: &str, observed_at: LocalObservationTime) -> (actions: Vec<
        AdapterAction,
    >) {
        let ghost before = self@;
        let ghost feeds = before.feeds();
        let mut actions: Vec<AdapterAction> = no_actions();
        let mut i: usize = 0;
        assert(feeds.take(0) =~= Seq::<FeedView<(u32, Seq<char>)>>::empty());
        while i < self.markets.len()
            invariant
                i <= self.markets@.len(),
                self.markets@.len() == before.markets.len(),
                feeds == before.feeds(),
                self.well_formed(),
                forall|j: int|
                    0 <= j < self.markets@.len() ==> (#[trigger] self.markets@[j])@ == if j < i {
                        before.markets[j].disconnected()
                    } else {
                        before.markets[j]
                    },
                action_views(actions@) == all_disconnected(
                    feeds.take(i as int),
                    reason@,
                    observed_at,
                ),
            decreases self.markets.len() - i,
        {
            let ghost done = actions@;
            let mut more = self.markets[i].disconnect(reason, observed_at);
            let ghost added = more@;
            actions.append(&mut more);
            proof {
                assert(feeds.take(i + 1).drop_last() =~= feeds.take(i as int));
                assert(feeds[i as int] == before.markets[i as int].feed);
                assert(action_views(actions@) =~= action_views(done) + action_views(added));
            }
            i = i + 1;
        }
        proof {
            assert(feeds.take(i as int) =~= feeds);
            assert(self@.markets =~= before.disconnected().markets);
            assert(self@.coins() =~= before.coins());
            lemma_all_disconnected_within(feeds, reason@, observed_at, feeds.len());
        }
        actions
    }

    fn market_coin(&self, market: MarketKey) -> (coin: Option<&MarketCoin>) {
        if market.index() < self.markets.len() {
            Some(self.markets[market.index()].market_coin())
        } else {
            None
        }
    }
}

/// A message about a book or about trades is about one market at most: every other market
/// is left as it is.
pub proof fn lemma_markets_isolated(
    adapter: LighterView,
    envelope: EnvelopeView,
    local_receive: LocalObservationTime,
    times: Seq<LocalObservationTime>,
    completed: LocalObservationTime,
    other: int,
)
    requires
        0 <= other < adapter.markets.len(),
    ensures
        adapter.routed(envelope.channel, "order_book:"@) != Some(other as nat)
            ==> adapter.after_book_message(envelope, local_receive, completed).0.markets[other]
            == adapter.markets[other],
        adapter.routed(envelope.channel, "trade:"@) != Some(other as nat)
            ==> adapter.after_trade_message(envelope, local_receive, times).0.markets[other]
            == adapter.markets[other],
{
    if let Some(id) = channel_market(envelope.channel, "order_book:"@) {
        lemma_first_place(adapter.market_ids(), id);
    }
    if let Some(id) = channel_market(envelope.channel, "trade:"@) {
        lemma_first_place(adapter.market_ids(), id);
    }
}

/// After a gap in the numbers of a market's book, the book is announced as unavailable for
/// a sequence gap, and a full book is asked for again: the end of the subscription, a new
/// one, and its announcement, in this order.
pub proof fn lemma_gap_recovers(
    index: nat,
    market: LighterMarketView,
    wire: crate::venue::lighter::wire::WireBookView,
    local_receive: LocalObservationTime,
    completed: LocalObservationTime,
)
    requires
        market.nonce is Some,
        wire.begin_nonce != market.nonce->Some_0,
    ensures
        ({
            let step = market.after_update(wire, local_receive, completed);
            let actions = book_actions(index, step.0, step.1, local_receive);
            &&& actions.len() == 4
            &&& actions[0] == book_unavailable(
                Venue::Lighter,
                market.feed.coin,
                local_receive,
                UnavailabilityCategory::SequenceGap,
                step.1->Err_0.message(),
            )
            &&& actions.skip(1) == recovery(index, market.market_id)
        }),
{
    let step = market.after_update(wire, local_receive, completed);
    let actions = book_actions(index, step.0, step.1, local_receive);
    assert(actions.skip(1) =~= recovery(index, market.market_id));
}

/// Whether the actions from a place on ask for the book and then for the trades of a market
/// under its number, and tell that the market of the index is followed.
pub open spec fn follows(actions: Seq<ActionView>, place: int, index: nat, market_id: u32) -> bool {
    let name = decimal(market_id as nat);
    &&& actions[place] == ActionView::SendText(
        "{\"channel\":"@ + json_quoted("order_book/"@ + name) + ",\"type\":"@ + json_quoted(
            "subscribe"@,
        ) + "}"@,
    )
    &&& actions[place + 1] == ActionView::SendText(
        "{\"channel\":"@ + json_quoted("trade/"@ + name) + ",\"type\":"@ + json_quoted(
            "subscribe"@,
        ) + "}"@,
    )
    &&& actions[place + 2] == ActionView::MarketSubscribed(index)
}

/// Every market is followed, in order, and nothing else is asked for.
pub proof fn lemma_markets_followed(market_ids: Seq<u32>)
    ensures
        subscriptions(market_ids).len() == 3 * market_ids.len(),
        forall|i: int|
            0 <= i < market_ids.len() ==> follows(
                subscriptions(market_ids),
                3 * i,
                i as nat,
                #[trigger] market_ids[i],
            ),
    decreases market_ids.len(),
{
    if market_ids.len() > 0 {
        let earlier = market_ids.drop_last();
        lemma_markets_followed(earlier);
        let before = subscriptions(earlier);
        let all = subscriptions(market_ids);
        let own = market_subscriptions(earlier.len(), market_ids.last());
        assert(all == before + own);
        assert forall|i: int| 0 <= i < market_ids.len() implies follows(
            all,
            3 * i,
            i as nat,
            #[trigger] market_ids[i],
        ) by {
            if i < earlier.len() {
                assert(follows(before, 3 * i, i as nat, earlier[i]));
                assert(all[3 * i] == before[3 * i]);
                assert(all[3 * i + 1] == before[3 * i + 1]);
                assert(all[3 * i + 2] == before[3 * i + 2]);
            } else {
                assert(all[3 * i] == own[0]);
                assert(all[3 * i + 1] == own[1]);
                assert(all[3 * i + 2] == own[2]);
            }
        }
    }
}

} // verus!
