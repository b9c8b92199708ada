//! The markets of an adapter that reads combined streams.
use serde_json::Value;
use vstd::prelude::*;
use vstd::utf8::encode_utf8;

use crate::domain::{MarketCoin, Venue};
use crate::market_data::event::MarketTrade;
use crate::market_data::{LocalObservationTime, OrderBook, OrderBookSnapshot};
use crate::text::same_text;
use crate::venue::action::{
    action_views, actions_within, completions_read, ActionView, AdapterAction, MarketKey,
};
use crate::venue::clock::ObservationClock;
use crate::venue::feed::{completed_trade, decoded_book, decoded_trade, FeedView, MarketFeed};
use crate::venue::streams::{book_payload, read_book_payload, read_trade_payload, trade_payload};
use crate::venue::raw::{inner_value, parts_of, read_inner_value, Field, FieldView, Parts};
use crate::venue::wire::{
    first_place, json_contents, lemma_first_place, lemma_first_place_step, member_text, text_under,
    JsonView,
};

verus! {

/// The text in lower case.
pub uninterp spec fn lower_case(text: Seq<char>) -> Seq<char>;

/// `str::to_lowercase`: the text in lower case, a function of the text alone. Which
/// characters change is left unsaid.
#[verifier::external_body]
fn lower_case_of(text: &str) -> (lower: String)
    ensures
        lower@ == lower_case(text@),
{
    text.to_lowercase()
}

/// A market by its coin and by the symbol under which its streams go.
#[derive(Debug, Eq, PartialEq)]
pub struct StreamSymbol {
    pub market_coin: MarketCoin,
    pub symbol: String,
}

/// One market of the streams.
pub struct StreamMarket {
    pub symbol: String,
    pub feed: MarketFeed<u64>,
}

/// The model of `StreamMarket`.
pub struct StreamMarketView {
    pub symbol: Seq<char>,
    pub feed: FeedView<u64>,
}

impl View for StreamMarket {
    type V = StreamMarketView;

    open spec fn view(&self) -> StreamMarketView {
        StreamMarketView { symbol: self.symbol@, feed: self.feed@ }
    }
}

/// The markets of an adapter that reads combined streams.
pub struct StreamMarkets {
    venue: Venue,
    endpoint: String,
    markets: Vec<StreamMarket>,
}

/// The model of `StreamMarkets`.
pub struct StreamsView {
    pub venue: Venue,
    pub endpoint: Seq<char>,
    pub markets: Seq<StreamMarketView>,
}

impl View for StreamMarkets {
    type V = StreamsView;

    closed spec fn view(&self) -> StreamsView {
        StreamsView {
            venue: self.venue,
            endpoint: self.endpoint@,
            markets: self.markets@.map_values(|market: StreamMarket| market@),
        }
    }
}

/// The streams of a market, one for its book and one for its trades.
pub open spec fn stream_names(symbol: Seq<char>, depth: Seq<char>) -> Seq<char> {
    lower_case(symbol) + depth + "/"@ + lower_case(symbol) + "@aggTrade"@
}

/// The streams of all markets.
pub open spec fn streams_text(symbols: Seq<Seq<char>>, depth: Seq<char>) -> Seq<char>
    decreases symbols.len(),
{
    if symbols.len() == 0 {
        Seq::empty()
    } else if symbols.len() == 1 {
        stream_names(symbols[0], depth)
    } else {
        streams_text(symbols.drop_last(), depth) + "/"@ + stream_names(symbols.last(), depth)
    }
}

/// The object that a message carries.
pub open spec fn message_data(text: Seq<char>) -> Option<JsonView> {
    match parts_of(encode_utf8(text)) {
        Some(envelope) => if envelope.fits(0, 1) {
            match envelope.part("data"@, 0) {
                FieldView::Given(data) => inner_value(data),
                _ => None,
            }
        } else {
            None
        },
        None => None,
    }
}

impl StreamsView {
    /// The symbols of the markets.
    pub open spec fn symbols(self) -> Seq<Seq<char>> {
        self.markets.map_values(|market: StreamMarketView| market.symbol)
    }

    /// The coins of the markets.
    pub open spec fn coins(self) -> Seq<Seq<char>> {
        self.markets.map_values(|market: StreamMarketView| market.feed.coin)
    }

    /// Every book is one of the venue and of its market.
    pub open spec fn of_venue(self) -> bool {
        forall|i: int|
            0 <= i < self.markets.len() ==> (#[trigger] self.markets[i]).feed.book.venue
                == self.venue && self.markets[i].feed.of_market()
    }

    /// With what became of one market.
    pub open spec fn with_feed(self, index: nat, feed: FeedView<u64>) -> StreamsView {
        StreamsView {
            markets: self.markets.update(
                index as int,
                StreamMarketView { feed, ..self.markets[index as int] },
            ),
            ..self
        }
    }

    /// The market that a message is about, and the object that it carries.
    pub open spec fn routed(self, text: Seq<char>) -> Option<(nat, JsonView)> {
        match message_data(text) {
            None => None,
            Some(data) => match member_text(data, "s"@) {
                None => None,
                Some(symbol) => match first_place(self.symbols(), symbol) {
                    None => None,
                    Some(index) => Some((index, data)),
                },
            },
        }
    }

    /// What becomes of one market, and what is asked for, where processing is complete at
    /// `completed`.
    pub open spec fn after_data(
        self,
        index: nat,
        data: JsonView,
        local_receive: LocalObservationTime,
        completed: LocalObservationTime,
    ) -> (FeedView<u64>, Seq<ActionView>) {
        let market = self.markets[index as int];
        if member_text(data, "e"@) == Some("aggTrade"@) {
            market.feed.after_trade(
                index,
                local_receive,
                trade_payload(
                    self.venue,
                    market.symbol,
                    market.feed.coin,
                    data,
                    local_receive,
                    completed,
                ),
            )
        } else {
            match book_payload(self.venue, market.symbol, market.feed.coin, data, local_receive) {
                None => (market.feed, Seq::empty()),
                Some(decoded) => market.feed.after_book(local_receive, decoded, completed),
            }
        }
    }

    /// After a message: what the markets are then, and what is asked for, where processing
    /// is complete at `completed`. A message that is about no market changes nothing.
    pub open spec fn after_text(
        self,
        text: Seq<char>,
        local_receive: LocalObservationTime,
        completed: LocalObservationTime,
    ) -> (StreamsView, Seq<ActionView>) {
        match self.routed(text) {
            None => (self, Seq::empty()),
            Some((index, data)) => {
                let after = self.after_data(index, data, local_receive, completed);
                (self.with_feed(index, after.0), after.1)
            },
        }
    }

    /// After the connection was lost.
    pub open spec fn disconnected(self) -> StreamsView {
        StreamsView {
            markets: self.markets.map_values(
                |market: StreamMarketView| StreamMarketView {
                    feed: market.feed.disconnected(),
                    ..market
                },
            ),
            ..self
        }
    }
}

/// What is published of markets once the connection is lost: each market's book, then its
/// trades.
pub open spec fn all_disconnected<I>(
    feeds: Seq<FeedView<I>>,
    reason: Seq<char>,
    observed_at: LocalObservationTime,
) -> Seq<ActionView>
    decreases feeds.len(),
{
    if feeds.len() == 0 {
        Seq::empty()
    } else {
        all_disconnected(feeds.drop_last(), reason, observed_at) + feeds.last().disconnect_actions(
            reason,
            observed_at,
        )
    }
}

/// Every market is announced.
pub open spec fn all_subscribed(markets: nat) -> Seq<ActionView> {
    Seq::new(markets, |i: int| ActionView::MarketSubscribed(i as nat))
}

pub proof fn lemma_all_disconnected_within<I>(
    feeds: Seq<FeedView<I>>,
    reason: Seq<char>,
    observed_at: LocalObservationTime,
    markets: nat,
)
    ensures
        actions_within(all_disconnected(feeds, reason, observed_at), markets),
        all_disconnected(feeds, reason, observed_at).len() == 2 * feeds.len(),
    decreases feeds.len(),
{
    if feeds.len() > 0 {
        lemma_all_disconnected_within(feeds.drop_last(), reason, observed_at, markets);
    }
}

impl StreamMarkets {
    /// Every market is sound and of the venue.
    pub closed spec fn well_formed(self) -> bool {
        &&& self@.of_venue()
        &&& forall|i: int| 0 <= i < self.markets@.len() ==> (#[trigger] self.markets@[i]).feed.well_formed()
    }

    /// The models of the symbols that markets are made of.
    pub open spec fn symbol_texts(symbols: Seq<StreamSymbol>) -> Seq<Seq<char>> {
        symbols.map_values(|symbol: StreamSymbol| symbol.symbol@)
    }

    /// Markets that have not seen anything.
    pub open spec fn fresh_markets(venue: Venue, symbols: Seq<StreamSymbol>, capacity: nat) -> Seq<
        StreamMarketView,
    > {
        symbols.map_values(
            |symbol: StreamSymbol| StreamMarketView {
                symbol: symbol.symbol@,
                feed: FeedView::fresh(venue, symbol.market_coin@, capacity),
            },
        )
    }

    pub fn new(
        venue: Venue,
        base_url: &str,
        depth: &str,
        symbols: Vec<StreamSymbol>,
        trade_dedup_capacity: usize,
    ) -> (streams: Self)
        requires
            trade_dedup_capacity > 0,
        ensures
            streams.well_formed(),
            streams@ == (StreamsView {
                venue,
                endpoint: base_url@ + streams_text(Self::symbol_texts(symbols@), depth@),
                markets: Self::fresh_markets(venue, symbols@, trade_dedup_capacity as nat),
            }),
    {
        let mut streams: String = String::new();
        let mut markets: Vec<StreamMarket> = Vec::new();
        let ghost texts = Self::symbol_texts(symbols@);
        let mut i: usize = 0;
        while i < symbols.len()
            invariant
                i <= symbols.len(),
                trade_dedup_capacity > 0,
                texts == Self::symbol_texts(symbols@),
                streams@ == streams_text(texts.take(i as int), depth@),
                markets@.len() == i,
                forall|j: int|
                    0 <= j < i ==> (#[trigger] markets@[j]).feed.well_formed() && markets@[j]@ == (
                    StreamMarketView {
                        symbol: symbols@[j].symbol@,
                        feed: FeedView::fresh(
                            venue,
                            symbols@[j].market_coin@,
                            trade_dedup_capacity as nat,
                        ),
                    }),
            decreases symbols.len() - i,
        {
            let symbol: String = lower_case_of(symbols[i].symbol.as_str());
            let ghost before = streams@;
            if i > 0 {
                streams.append("/");
            }
            streams.append(symbol.as_str());
            streams.append(depth);
            streams.append("/");
            streams.append(symbol.as_str());
            streams.append("@aggTrade");
            proof {
                assert(texts.take(i + 1).drop_last() =~= texts.take(i as int));
                assert(texts[i as int] == symbols@[i as int].symbol@);
                if i > 0 {
                    assert(streams@ =~= before + "/"@ + stream_names(texts[i as int], depth@));
                } else {
                    assert(texts.take(1)[0] == texts[0]);
                    assert(before =~= Seq::<char>::empty());
                    assert(streams@ =~= stream_names(texts[i as int], depth@));
                }
            }
            markets.push(
                StreamMarket {
                    symbol: symbols[i].symbol.clone(),
                    feed: MarketFeed::new(
                        venue,
                        symbols[i].market_coin.clone(),
                        trade_dedup_capacity,
                    ),
                },
            );
            i = i + 1;
        }
        let mut endpoint: String = base_url.to_owned();
        endpoint.append(streams.as_str());
        let result = StreamMarkets { venue, endpoint, markets };
        proof {
            assert(texts.take(i as int) =~= texts);
            assert(result@.markets =~= Self::fresh_markets(
                venue,
                symbols@,
                trade_dedup_capacity as nat,
            ));
        }
        result
    }

    pub fn venue(&self) -> (venue: Venue)
        ensures
            venue == self@.venue,
    {
        self.venue
    }

    pub fn endpoint(&self) -> (endpoint: &str)
        ensures
            endpoint@ == self@.endpoint,
    {
        self.endpoint.as_str()
    }

    /// The coins and the symbols of the markets.
    pub fn resolved_markets(&self) -> (markets: Vec<(MarketCoin, String)>)
        ensures
            markets@.len() == self@.markets.len(),
            forall|i: int|
                0 <= i < markets@.len() ==> (#[trigger] markets@[i]).0@ == self@.markets[i].feed.coin
                    && markets@[i].1@ == self@.markets[i].symbol,
    {
        let mut resolved: Vec<(MarketCoin, String)> = Vec::new();
        let mut i: usize = 0;
        while i < self.markets.len()
            invariant
                i <= self.markets.len(),
                resolved@.len() == i,
                forall|j: int|
                    0 <= j < i ==> (#[trigger] resolved@[j]).0@ == self@.markets[j].feed.coin
                        && resolved@[j].1@ == self@.markets[j].symbol,
            decreases self.markets.len() - i,
        {
            resolved.push(
                (self.markets[i].feed.market_coin().clone(), self.markets[i].symbol.clone()),
            );
            i = i + 1;
        }
        resolved
    }

    /// The book of a market.
    pub fn book(&self, market: MarketKey) -> (book: Option<&OrderBook>)
        ensures
            match book {
                Some(book) => market.0 < self@.markets.len() && book@
                    == self@.markets[market.0 as int].feed.book,
                None => market.0 >= self@.markets.len(),
            },
    {
        if market.index() < self.markets.len() {
            Some(self.markets[market.index()].feed.book())
        } else {
            None
        }
    }

    pub fn market_coin(&self, market: MarketKey) -> (coin: Option<&MarketCoin>)
        ensures
            match coin {
                Some(coin) => market.0 < self@.coins().len() && coin@ == self@.coins()[market.0 as int],
                None => market.0 >= self@.coins().len(),
            },
    {
        if market.index() < self.markets.len() {
            Some(self.markets[market.index()].feed.market_coin())
        } else {
            None
        }
    }

    /// Announces every market.
    pub fn subscribed(&self) -> (actions: Vec<AdapterAction>)
        ensures
            action_views(actions@) == all_subscribed(self@.markets.len()),
            actions_within(action_views(actions@), self@.markets.len()),
    {
        let mut actions: Vec<AdapterAction> = Vec::new();
        let mut i: usize = 0;
        while i < self.markets.len()
            invariant
                i <= self.markets.len(),
                actions@.len() == i,
                forall|j: int|
                    0 <= j < i ==> (#[trigger] actions@[j])@ == ActionView::MarketSubscribed(
                        j as nat,
                    ),
            decreases self.markets.len() - i,
        {
            actions.push(AdapterAction::MarketSubscribed(MarketKey::new(i)));
            i = i + 1;
        }
        assert(action_views(actions@) =~= all_subscribed(self@.markets.len()));
        actions
    }

    fn place_of(&self, symbol: &str) -> (place: Option<usize>)
        ensures
            match place {
                Some(place) => first_place(self@.symbols(), symbol@) == Some(place as nat) && place
                    < self.markets@.len(),
                None => first_place(self@.symbols(), symbol@) is None,
            },
    {
        let ghost symbols = self@.symbols();
        let mut i: usize = 0;
        assert(symbols.take(0) =~= Seq::<Seq<char>>::empty());
        while i < self.markets.len()
            invariant
                i <= self.markets.len(),
                symbols == self@.symbols(),
                symbols.len() == self.markets@.len(),
                first_place(symbols.take(i as int), symbol@) is None,
            decreases self.markets.len() - i,
        {
            proof {
                lemma_first_place_step(symbols, i as int, symbol@);
                assert(symbols[i as int] == self.markets@[i as int].symbol@);
            }
            if same_text(self.markets[i].symbol.as_str(), symbol) {
                return Some(i);
            }
            i = i + 1;
        }
        assert(symbols.take(i as int) =~= symbols);
        None
    }

    /// Takes in a message. When processing is complete is the clock's to say.
    pub fn on_text<C: ObservationClock>(
        &mut self,
        text: &str,
        local_receive: LocalObservationTime,
        clock: &C,
    ) -> (actions: Vec<AdapterAction>)
        requires
            old(self).well_formed(),
        ensures
            final(self).well_formed(),
            exists|completed: LocalObservationTime|
                (final(self)@, action_views(actions@)) == #[trigger] old(self)@.after_text(
                    text@,
                    local_receive,
                    completed,
                ),
            final(self)@.coins() == old(self)@.coins(),
            final(self)@.venue == old(self)@.venue,
            final(self)@.endpoint == old(self)@.endpoint,
            actions_within(action_views(actions@), old(self)@.markets.len()),
            completions_read(action_views(actions@), *clock),
    {
        let ghost before = self@;
        let envelope: Parts = match Parts::read(text.as_bytes()) {
            Some(envelope) => envelope,
            None => {
                return self.ignored(Ghost(text@), Ghost(local_receive));
            },
        };
        if !envelope.fits(0, 1) {
            return self.ignored(Ghost(text@), Ghost(local_receive));
        }
        let data: Value = match envelope.part("data", 0) {
            Field::Given(bytes) => match read_inner_value(bytes) {
                Some(data) => data,
                None => {
                    return self.ignored(Ghost(text@), Ghost(local_receive));
                },
            },
            _ => {
                return self.ignored(Ghost(text@), Ghost(local_receive));
            },
        };
        let data: &Value = &data;
        let symbol: String = match text_under(data, "s") {
            Some(symbol) => symbol,
            None => {
                return self.ignored(Ghost(text@), Ghost(local_receive));
            },
        };
        let index: usize = match self.place_of(symbol.as_str()) {
            Some(index) => index,
            None => {
                return self.ignored(Ghost(text@), Ghost(local_receive));
            },
        };
        assert(before.routed(text@) == Some((index as nat, json_contents(*data))));
        let actions = self.apply(index, data, local_receive, clock);
        proof {
            let completed = choose|completed: LocalObservationTime|
                ({
                    let after = #[trigger] before.after_data(
                        index as nat,
                        json_contents(*data),
                        local_receive,
                        completed,
                    );
                    &&& self@ == before.with_feed(index as nat, after.0)
                    &&& action_views(actions@) == after.1
                });
            assert((self@, action_views(actions@)) == before.after_text(
                text@,
                local_receive,
                completed,
            ));
        }
        actions
    }

    fn ignored(&self, text: Ghost<Seq<char>>, local_receive: Ghost<LocalObservationTime>) -> (actions:
        Vec<AdapterAction>)
        requires
            self@.routed(text@) is None,
        ensures
            action_views(actions@) == Seq::<ActionView>::empty(),
            (self@, action_views(actions@)) == self@.after_text(
                text@,
                local_receive@,
                local_receive@,
            ),
    {
        let actions: Vec<AdapterAction> = Vec::new();
        assert(action_views(actions@) =~= Seq::<ActionView>::empty());
        actions
    }

    fn apply<C: ObservationClock>(
        &mut self,
        index: usize,
        data: &Value,
        local_receive: LocalObservationTime,
        clock: &C,
    ) -> (actions: Vec<AdapterAction>)
        requires
            old(self).well_formed(),
            index < old(self)@.markets.len(),
        ensures
            final(self).well_formed(),
            exists|completed: LocalObservationTime|
                ({
                    let after = #[trigger] old(self)@.after_data(
                        index as nat,
                        json_contents(*data),
                        local_receive,
                        completed,
                    );
                    &&& final(self)@ == old(self)@.with_feed(index as nat, after.0)
                    &&& action_views(actions@) == after.1
                }),
            final(self)@.coins() == old(self)@.coins(),
            actions_within(action_views(actions@), old(self)@.markets.len()),
            completions_read(action_views(actions@), *clock),
    {
        let ghost before = self@;
        let ghost contents = json_contents(*data);
        let venue: Venue = self.venue;
        let is_trade: bool = match text_under(data, "e") {
            Some(kind) => same_text(kind.as_str(), "aggTrade"),
            None => false,
        };
        if is_trade {
            let decoded: Result<(MarketTrade, u64), String> = read_trade_payload(
                venue,
                self.markets[index].symbol.as_str(),
                self.markets[index].feed.market_coin(),
                data,
                local_receive,
                local_receive,
            );
            let ghost feed = before.markets[index as int].feed;
            let ghost model = decoded_trade(decoded);
            let result = self.markets[index].feed.apply_trade(
                index,
                local_receive,
                decoded,
                clock,
            );
            proof {
                let completed = choose|completed: LocalObservationTime|
                    (self@.markets[index as int].feed, action_views(result.0@))
                        == feed.after_trade(
                        index as nat,
                        local_receive,
                        #[trigger] completed_trade(model, completed),
                    );
                let after = before.after_data(index as nat, contents, local_receive, completed);
                assert(self@.markets =~= before.with_feed(index as nat, after.0).markets);
                assert(action_views(result.0@) == after.1);
                assert(self@.coins() =~= before.coins());
            }
            return result.0;
        }
        let decoded: Option<Result<OrderBookSnapshot, String>> = read_book_payload(
            venue,
            self.markets[index].symbol.as_str(),
            self.markets[index].feed.market_coin(),
            data,
            local_receive,
        );
        match decoded {
            None => {
                let actions: Vec<AdapterAction> = Vec::new();
                proof {
                    let after = before.after_data(
                        index as nat,
                        contents,
                        local_receive,
                        local_receive,
                    );
                    assert(self@.markets =~= before.with_feed(index as nat, after.0).markets);
                    assert(action_views(actions@) =~= after.1);
                }
                actions
            },
            Some(decoded) => {
                let ghost feed = before.markets[index as int].feed;
                let ghost model = decoded_book(decoded);
                let actions = self.markets[index].feed.apply_book(local_receive, decoded, clock);
                proof {
                    let completed = choose|completed: LocalObservationTime|
                        (self@.markets[index as int].feed, action_views(actions@))
                            == #[trigger] feed.after_book(local_receive, model, completed);
                    let after = before.after_data(index as nat, contents, local_receive, completed);
                    assert(self@.markets =~= before.with_feed(index as nat, after.0).markets);
                    assert(action_views(actions@) == after.1);
                    assert(self@.coins() =~= before.coins());
                }
                actions
            },
        }
    }

    /// Makes every market unavailable.
    pub fn disconnect(&mut self, reason: &str, observed_at: LocalObservationTime) -> (actions: Vec<
        AdapterAction,
    >)
        requires
            old(self).well_formed(),
        ensures
            final(self).well_formed(),
            final(self)@ == old(self)@.disconnected(),
            final(self)@.coins() == old(self)@.coins(),
            action_views(actions@) == all_disconnected(
                old(self)@.markets.map_values(|market: StreamMarketView| market.feed),
                reason@,
                observed_at,
            ),
            actions_within(action_views(actions@), old(self)@.markets.len()),
    {
        let ghost before = self@;
        let ghost feeds = before.markets.map_values(|market: StreamMarketView| market.feed);
        let mut actions: Vec<AdapterAction> = Vec::new();
        let mut i: usize = 0;
        proof {
            assert(feeds.take(0) =~= Seq::<FeedView<u64>>::empty());
            assert(action_views(actions@) =~= Seq::<ActionView>::empty());
        }
        while i < self.markets.len()
            invariant
                i <= self.markets@.len(),
                self.markets@.len() == before.markets.len(),
                forall|j: int|
                    0 <= j < self.markets@.len() ==> (#[trigger] self.markets@[j]).feed.well_formed(),
                self@.venue == before.venue,
                self@.endpoint == before.endpoint,
                feeds == before.markets.map_values(|market: StreamMarketView| market.feed),
                forall|j: int|
                    0 <= j < self.markets@.len() ==> (#[trigger] self.markets@[j])@ == if j < i {
                        StreamMarketView {
                            feed: before.markets[j].feed.disconnected(),
                            ..before.markets[j]
                        }
                    } else {
                        before.markets[j]
                    },
                action_views(actions@) == all_disconnected(
                    feeds.take(i as int),
                    reason@,
                    observed_at,
                ),
            decreases self.markets.len() - i,
        {
            let ghost done = actions@;
            let mut more = self.markets[i].feed.disconnect(reason, observed_at);
            let ghost added = more@;
            actions.append(&mut more);
            proof {
                assert(feeds.take(i + 1).drop_last() =~= feeds.take(i as int));
                assert(action_views(actions@) =~= action_views(done) + action_views(added));
                assert(feeds[i as int] == before.markets[i as int].feed);
            }
            i = i + 1;
        }
        proof {
            assert(feeds.take(i as int) =~= feeds);
            assert(before.of_venue());
            assert(self@.markets =~= before.disconnected().markets);
            assert(self@.coins() =~= before.coins());
            lemma_all_disconnected_within(feeds, reason@, observed_at, before.markets.len());
        }
        actions
    }
}

/// A message is about one market at most: every other market is left as it is.
pub proof fn lemma_markets_isolated(
    streams: StreamsView,
    text: Seq<char>,
    local_receive: LocalObservationTime,
    completed: LocalObservationTime,
    other: int,
)
    requires
        0 <= other < streams.markets.len(),
        streams.routed(text) is None || streams.routed(text)->Some_0.0 != other,
    ensures
        streams.after_text(text, local_receive, completed).0.markets[other]
            == streams.markets[other],
        streams.routed(text) is None ==> streams.after_text(text, local_receive, completed) == (
            streams,
            Seq::<ActionView>::empty(),
        ),
{
    if let Some((index, data)) = streams.routed(text) {
        let symbol = member_text(data, "s"@)->Some_0;
        lemma_first_place(streams.symbols(), symbol);
    }
}

/// A lost connection leaves no market with a book for decisions or an available trade
/// stream, and says so of each: first its book, then its trades.
pub proof fn lemma_all_markets_invalidated(
    streams: StreamsView,
    reason: Seq<char>,
    observed_at: LocalObservationTime,
    i: int,
)
    requires
        0 <= i < streams.markets.len(),
    ensures
        streams.disconnected().markets[i].feed.book.current() is None,
        !streams.disconnected().markets[i].feed.trade_available,
        ({
            let feeds = streams.markets.map_values(|market: StreamMarketView| market.feed);
            let actions = all_disconnected(feeds, reason, observed_at);
            &&& actions.len() == 2 * streams.markets.len()
            &&& actions[2 * i] == feeds[i].disconnect_actions(reason, observed_at)[0]
            &&& actions[2 * i + 1] == feeds[i].disconnect_actions(reason, observed_at)[1]
        }),
{
    let feeds = streams.markets.map_values(|market: StreamMarketView| market.feed);
    lemma_disconnect_action_at(feeds, reason, observed_at, i);
    lemma_all_disconnected_within(feeds, reason, observed_at, 0);
}

/// What is published of one market once the connection is lost.
pub proof fn lemma_disconnect_action_at<I>(
    feeds: Seq<FeedView<I>>,
    reason: Seq<char>,
    observed_at: LocalObservationTime,
    i: int,
)
    requires
        0 <= i < feeds.len(),
    ensures
        all_disconnected(feeds, reason, observed_at)[2 * i] == feeds[i].disconnect_actions(
            reason,
            observed_at,
        )[0],
        all_disconnected(feeds, reason, observed_at)[2 * i + 1] == feeds[i].disconnect_actions(
            reason,
            observed_at,
        )[1],
    decreases feeds.len(),
{
    let earlier = feeds.drop_last();
    lemma_all_disconnected_within(earlier, reason, observed_at, 0);
    if i < feeds.len() - 1 {
        lemma_disconnect_action_at(earlier, reason, observed_at, i);
    }
}

/// Texts with a slash between them.
pub open spec fn slashed(texts: Seq<Seq<char>>) -> Seq<char>
    decreases texts.len(),
{
    if texts.len() == 0 {
        Seq::empty()
    } else if texts.len() == 1 {
        texts[0]
    } else {
        slashed(texts.drop_last()) + "/"@ + texts.last()
    }
}

/// The streams that are asked for are, market by market, the one of its book and the one of its
/// trades, with a slash between any two.
pub proof fn lemma_all_streams_asked_for(symbols: Seq<Seq<char>>, depth: Seq<char>) -> (streams: Seq<
    Seq<char>,
>)
    ensures
        streams.len() == 2 * symbols.len(),
        streams_text(symbols, depth) == slashed(streams),
        forall|i: int|
            0 <= i < symbols.len() ==> streams[2 * i] == lower_case(#[trigger] symbols[i]) + depth
                && streams[2 * i + 1] == lower_case(symbols[i]) + "@aggTrade"@,
    decreases symbols.len(),
{
    if symbols.len() == 0 {
        Seq::empty()
    } else {
        let before = lemma_all_streams_asked_for(symbols.drop_last(), depth);
        let book = lower_case(symbols.last()) + depth;
        let trades = lower_case(symbols.last()) + "@aggTrade"@;
        let streams = before.push(book).push(trades);
        assert(streams.drop_last() =~= before.push(book));
        assert(before.push(book).drop_last() =~= before);
        if symbols.len() == 1 {
            assert(before.push(book)[0] == book);
            assert(slashed(before.push(book)) =~= book);
            assert(streams_text(symbols, depth) =~= slashed(streams));
        } else {
            assert(slashed(before.push(book)) == slashed(before) + "/"@ + book);
            assert(streams_text(symbols, depth) =~= slashed(streams));
        }
        assert forall|i: int| 0 <= i < symbols.len() implies streams[2 * i] == lower_case(
            #[trigger] symbols[i],
        ) + depth && streams[2 * i + 1] == lower_case(symbols[i]) + "@aggTrade"@ by {
            if i < symbols.len() - 1 {
                assert(symbols.drop_last()[i] == symbols[i]);
            }
        }
        streams
    }
}

} // verus!
