//! The Binance adapter.
use vstd::prelude::*;

use crate::domain::{MarketCoin, Venue};
use crate::market_data::{LocalObservationTime, OrderBook};
use crate::venue::action::{
    action_views, ActionView, AdapterAction, AdapterIdentity, MarketDataAdapter, MarketKey,
};
use crate::venue::aster::{
    coin_texts, resolution, resolve_market, response_view, AsterMarket, WireMarket,
};
use crate::venue::aster;
use crate::venue::clock::ObservationClock;
use crate::venue::feed::FeedView;
use crate::venue::stream_markets::{
    all_disconnected, all_subscribed, streams_text, StreamMarketView, StreamMarkets, StreamSymbol,
    StreamsView,
};
use crate::venue::wire::{lemma_read_all_items, lemma_read_all_step, read_all};

verus! {

/// A market by its coin and by the symbol under which Binance trades it.
#[derive(Debug, Eq, PartialEq)]
pub struct BinanceMarket {
    pub market_coin: MarketCoin,
    pub symbol: String,
}

impl BinanceMarket {
    pub fn new(market_coin: MarketCoin, symbol: String) -> (market: Self)
        ensures
            market.market_coin == market_coin,
            market.symbol == symbol,
    {
        BinanceMarket { market_coin, symbol }
    }

    pub fn market_coin(&self) -> (coin: &MarketCoin)
        ensures
            coin@ == self.market_coin@,
    {
        &self.market_coin
    }

    pub fn symbol(&self) -> (symbol: &str)
        ensures
            symbol@ == self.symbol@,
    {
        self.symbol.as_str()
    }
}

/// Why markets could not be resolved.
#[derive(Debug, Eq, PartialEq)]
pub enum MetadataError {
    Request(String),
    UnknownMarket(MarketCoin),
    NotPerpetual(MarketCoin),
    Inactive(MarketCoin),
}

/// The model of `MetadataError`.
#[allow(inconsistent_fields)]
pub enum MetadataErrorView {
    Request(Seq<char>),
    UnknownMarket(Seq<char>),
    NotPerpetual(Seq<char>),
    Inactive(Seq<char>),
}

impl View for MetadataError {
    type V = MetadataErrorView;

    open spec fn view(&self) -> MetadataErrorView {
        match *self {
            MetadataError::Request(error) => MetadataErrorView::Request(error@),
            MetadataError::UnknownMarket(coin) => MetadataErrorView::UnknownMarket(coin@),
            MetadataError::NotPerpetual(coin) => MetadataErrorView::NotPerpetual(coin@),
            MetadataError::Inactive(coin) => MetadataErrorView::Inactive(coin@),
        }
    }
}

impl MetadataErrorView {
    /// The message of the error.
    pub open spec fn message(self) -> Seq<char> {
        match self {
            MetadataErrorView::Request(error) => "failed to load Binance markets: "@ + error,
            MetadataErrorView::UnknownMarket(coin) => "unknown Binance USDT market coin "@ + coin,
            MetadataErrorView::NotPerpetual(coin) => "Binance market "@ + coin
                + " is not perpetual"@,
            MetadataErrorView::Inactive(coin) => "Binance market "@ + coin + " is not trading"@,
        }
    }
}

impl MetadataError {
    pub fn to_text(&self) -> (text: String)
        ensures
            text@ == self@.message(),
    {
        match self {
            MetadataError::Request(error) => {
                let mut text: String = "failed to load Binance markets: ".to_owned();
                text.append(error.as_str());
                text
            },
            MetadataError::UnknownMarket(coin) => {
                let mut text: String = "unknown Binance USDT market coin ".to_owned();
                text.append(coin.as_str());
                text
            },
            MetadataError::NotPerpetual(coin) => {
                let mut text: String = "Binance market ".to_owned();
                text.append(coin.as_str());
                text.append(" is not perpetual");
                text
            },
            MetadataError::Inactive(coin) => {
                let mut text: String = "Binance market ".to_owned();
                text.append(coin.as_str());
                text.append(" is not trading");
                text
            },
        }
    }
}

/// The symbol of the market that trades a coin against USDT, if it is a perpetual in trading.
/// Binance and Aster list their markets alike.
pub open spec fn binance_resolution(coin: Seq<char>, markets: Seq<WireMarket>) -> Result<
    Seq<char>,
    MetadataErrorView,
> {
    match resolution(coin, markets) {
        Ok(symbol) => Ok(symbol),
        Err(aster::MetadataErrorView::NotPerpetual(coin)) => Err(
            MetadataErrorView::NotPerpetual(coin),
        ),
        Err(aster::MetadataErrorView::Inactive(coin)) => Err(MetadataErrorView::Inactive(coin)),
        Err(_) => Err(MetadataErrorView::UnknownMarket(coin)),
    }
}

/// Resolves coins among markets.
pub open spec fn binance_resolver(markets: Seq<WireMarket>) -> spec_fn(int, Seq<char>) -> Result<
    Seq<char>,
    MetadataErrorView,
> {
    |place: int, coin: Seq<char>| binance_resolution(coin, markets)
}

/// The symbols of the markets of coins, or what is said of the first coin that has none. A
/// list that did not arrive is reported.
pub open spec fn binance_resolved(
    coins: Seq<Seq<char>>,
    response: Result<Seq<WireMarket>, Seq<char>>,
) -> Result<Seq<Seq<char>>, MetadataErrorView> {
    match response {
        Err(error) => Err(MetadataErrorView::Request(error)),
        Ok(markets) => read_all(coins, binance_resolver(markets)),
    }
}

fn resolve_one(market_coin: &MarketCoin, markets: &Vec<WireMarket>) -> (result: Result<
    BinanceMarket,
    MetadataError,
>)
    ensures
        match result {
            Ok(market) => binance_resolution(market_coin@, markets@) == Ok::<
                Seq<char>,
                MetadataErrorView,
            >(market.symbol@) && market.market_coin@ == market_coin@,
            Err(error) => binance_resolution(market_coin@, markets@) == Err::<
                Seq<char>,
                MetadataErrorView,
            >(error@),
        },
{
    match resolve_market(market_coin, markets) {
        Ok(market) => {
            let market: AsterMarket = market;
            Ok(BinanceMarket::new(market.market_coin, market.symbol))
        },
        Err(aster::MetadataError::NotPerpetual(coin)) => Err(MetadataError::NotPerpetual(coin)),
        Err(aster::MetadataError::Inactive(coin)) => Err(MetadataError::Inactive(coin)),
        Err(_) => Err(MetadataError::UnknownMarket(market_coin.clone())),
    }
}

/// Finds the markets of coins in what the venue listed.
pub fn resolve_markets(
    market_coins: &Vec<MarketCoin>,
    response: Result<Vec<WireMarket>, String>,
) -> (result: Result<Vec<BinanceMarket>, MetadataError>)
    ensures
        match result {
            Ok(markets) => {
                &&& binance_resolved(coin_texts(market_coins@), response_view(response)) == Ok::<
                    Seq<Seq<char>>,
                    MetadataErrorView,
                >(markets@.map_values(|market: BinanceMarket| market.symbol@))
                &&& markets@.map_values(|market: BinanceMarket| market.market_coin@) == coin_texts(
                    market_coins@,
                )
            },
            Err(error) => binance_resolved(coin_texts(market_coins@), response_view(response))
                == Err::<Seq<Seq<char>>, MetadataErrorView>(error@),
        },
{
    let ghost coins = coin_texts(market_coins@);
    let listed: Vec<WireMarket> = match response {
        Ok(listed) => listed,
        Err(error) => {
            return Err(MetadataError::Request(error));
        },
    };
    let mut markets: Vec<BinanceMarket> = Vec::new();
    let mut i: usize = 0;
    proof {
        assert(coins.take(0) =~= Seq::<Seq<char>>::empty());
        assert(markets@.map_values(|market: BinanceMarket| market.symbol@) =~= Seq::<
            Seq<char>,
        >::empty());
        assert(markets@.map_values(|market: BinanceMarket| market.market_coin@) =~= coins.take(0));
    }
    while i < market_coins.len()
        invariant
            i <= market_coins.len(),
            coins == coin_texts(market_coins@),
            response_view(response) == Ok::<Seq<WireMarket>, Seq<char>>(listed@),
            read_all(coins.take(i as int), binance_resolver(listed@)) == Ok::<
                Seq<Seq<char>>,
                MetadataErrorView,
            >(markets@.map_values(|market: BinanceMarket| market.symbol@)),
            markets@.map_values(|market: BinanceMarket| market.market_coin@) == coins.take(
                i as int,
            ),
        decreases market_coins.len() - i,
    {
        proof {
            assert(coins[i as int] == market_coins@[i as int]@);
            lemma_read_all_step(coins, i as int, binance_resolver(listed@));
            assert(coins.take(i + 1) =~= coins.take(i as int).push(coins[i as int]));
        }
        let ghost before = markets@;
        match resolve_one(&market_coins[i], &listed) {
            Ok(market) => {
                markets.push(market);
                proof {
                    assert(markets@.map_values(|market: BinanceMarket| market.symbol@)
                        =~= before.map_values(|market: BinanceMarket| market.symbol@).push(
                        market.symbol@,
                    ));
                    assert(markets@.map_values(|market: BinanceMarket| market.market_coin@)
                        =~= before.map_values(|market: BinanceMarket| market.market_coin@).push(
                        market.market_coin@,
                    ));
                }
            },
            Err(error) => {
                return Err(error);
            },
        }
        i = i + 1;
    }
    assert(coins.take(i as int) =~= coins);
    Ok(markets)
}

/// Reads the depth and trade streams of Binance.
pub struct BinanceAdapter {
    streams: StreamMarkets,
}

impl View for BinanceAdapter {
    type V = StreamsView;

    closed spec fn view(&self) -> StreamsView {
        self.streams@
    }
}

/// The streams of markets that have not seen anything.
pub open spec fn binance_streams(
    coins: Seq<Seq<char>>,
    symbols: Seq<Seq<char>>,
    capacity: nat,
) -> StreamsView {
    StreamsView {
        venue: Venue::Binance,
        endpoint: "wss://fstream.binance.com/stream?streams="@ + streams_text(
            symbols,
            "@depth20@100ms"@,
        ),
        markets: Seq::new(
            symbols.len(),
            |i: int| StreamMarketView {
                symbol: symbols[i],
                feed: FeedView::fresh(Venue::Binance, coins[i], capacity),
            },
        ),
    }
}

impl BinanceAdapter {
    /// Reads the streams of markets.
    pub fn from_markets(markets: Vec<BinanceMarket>, trade_dedup_capacity: usize) -> (adapter: Self)
        requires
            trade_dedup_capacity > 0,
        ensures
            adapter.well_formed(),
            adapter@ == binance_streams(
                markets@.map_values(|market: BinanceMarket| market.market_coin@),
                markets@.map_values(|market: BinanceMarket| market.symbol@),
                trade_dedup_capacity as nat,
            ),
    {
        let mut symbols: Vec<StreamSymbol> = Vec::new();
        let mut i: usize = 0;
        while i < markets.len()
            invariant
                i <= markets.len(),
                symbols@.len() == i,
                forall|j: int|
                    0 <= j < i ==> (#[trigger] symbols@[j]).market_coin@ == markets@[j].market_coin@
                        && symbols@[j].symbol@ == markets@[j].symbol@,
            decreases markets.len() - i,
        {
            symbols.push(
                StreamSymbol {
                    market_coin: markets[i].market_coin.clone(),
                    symbol: markets[i].symbol.clone(),
                },
            );
            i = i + 1;
        }
        let ghost models = symbols@;
        let adapter = BinanceAdapter {
            streams: StreamMarkets::new(
                Venue::Binance,
                "wss://fstream.binance.com/stream?streams=",
                "@depth20@100ms",
                symbols,
                trade_dedup_capacity,
            ),
        };
        proof {
            let texts = markets@.map_values(|market: BinanceMarket| market.symbol@);
            let coins = markets@.map_values(|market: BinanceMarket| market.market_coin@);
            assert(StreamMarkets::symbol_texts(models) =~= texts);
            assert(adapter@.markets =~= binance_streams(
                coins,
                texts,
                trade_dedup_capacity as nat,
            ).markets);
        }
        adapter
    }

    /// Finds the markets of coins in what the venue listed, and reads their streams.
    pub fn bootstrap(
        market_coins: &Vec<MarketCoin>,
        response: Result<Vec<WireMarket>, String>,
        trade_dedup_capacity: usize,
    ) -> (result: Result<Self, MetadataError>)
        requires
            trade_dedup_capacity > 0,
        ensures
            match result {
                Ok(adapter) => {
                    &&& adapter.well_formed()
                    &&& binance_resolved(coin_texts(market_coins@), response_view(response))
                        == Ok::<Seq<Seq<char>>, MetadataErrorView>(adapter@.symbols())
                    &&& adapter@ == binance_streams(
                        coin_texts(market_coins@),
                        adapter@.symbols(),
                        trade_dedup_capacity as nat,
                    )
                },
                Err(error) => binance_resolved(coin_texts(market_coins@), response_view(response))
                    == Err::<Seq<Seq<char>>, MetadataErrorView>(error@),
            },
    {
        match resolve_markets(market_coins, response) {
            Ok(markets) => {
                let adapter = BinanceAdapter::from_markets(markets, trade_dedup_capacity);
                assert(adapter@.symbols() =~= markets@.map_values(
                    |market: BinanceMarket| market.symbol@,
                ));
                Ok(adapter)
            },
            Err(error) => Err(error),
        }
    }

    /// The coins and the symbols of the markets.
    pub fn resolved_markets(&self) -> (markets: Vec<(MarketCoin, String)>)
        ensures
            markets@.len() == self@.markets.len(),
            forall|i: int|
                0 <= i < markets@.len() ==> (#[trigger] markets@[i]).0@ == self@.markets[i].feed.coin
                    && markets@[i].1@ == self@.markets[i].symbol,
    {
        self.streams.resolved_markets()
    }

    /// The book of a market.
    pub fn book(&self, market: MarketKey) -> (book: Option<&OrderBook>)
        ensures
            match book {
                Some(book) => market.0 < self@.markets.len() && book@
                    == self@.markets[market.0 as int].feed.book,
                None => market.0 >= self@.markets.len(),
            },
    {
        self.streams.book(market)
    }
}

impl MarketDataAdapter for BinanceAdapter {
    open spec fn identity_of(&self) -> AdapterIdentity {
        AdapterIdentity {
            venue: self@.venue,
            endpoint: self@.endpoint,
            coins: self@.coins(),
            heartbeat: None,
        }
    }

    closed spec fn well_formed(&self) -> bool {
        self.streams.well_formed()
    }

    open spec fn answers_connected(before: Self, after: Self, actions: Seq<ActionView>) -> bool {
        &&& after@ == before@
        &&& actions == all_subscribed(before@.markets.len())
    }

    open spec fn answers_heartbeat(before: Self, after: Self, actions: Seq<ActionView>) -> bool {
        &&& after@ == before@
        &&& actions == Seq::<ActionView>::empty()
    }

    open spec fn answers_text(
        before: Self,
        text: Seq<char>,
        local_receive: LocalObservationTime,
        after: Self,
        actions: Seq<ActionView>,
    ) -> bool {
        exists|completed: LocalObservationTime|
            (after@, actions) == #[trigger] before@.after_text(text, local_receive, completed)
    }

    open spec fn answers_disconnected(
        before: Self,
        reason: Seq<char>,
        observed_at: LocalObservationTime,
        after: Self,
        actions: Seq<ActionView>,
    ) -> bool {
        &&& after@ == before@.disconnected()
        &&& actions == all_disconnected(
            before@.markets.map_values(|market: StreamMarketView| market.feed),
            reason,
            observed_at,
        )
    }

    fn venue(&self) -> (venue: Venue) {
        self.streams.venue()
    }

    fn endpoint(&self) -> (endpoint: &str) {
        self.streams.endpoint()
    }

    fn heartbeat_interval(&self) -> (seconds: Option<u64>) {
        None
    }

    /// The endpoint already names the streams: every market is announced.
    fn on_connected(&mut self) -> (actions: Vec<AdapterAction>) {
        self.streams.subscribed()
    }

    fn on_heartbeat(&mut self) -> (actions: Vec<AdapterAction>) {
        let actions: Vec<AdapterAction> = Vec::new();
        assert(action_views(actions@) =~= Seq::<ActionView>::empty());
        actions
    }

    fn on_text<C: ObservationClock>(
        &mut self,
        text: &str,
        local_receive: LocalObservationTime,
        clock: &C,
    ) -> (actions: Vec<AdapterAction>) {
        self.streams.on_text(text, local_receive, clock)
    }

    fn on_disconnected(&mut self, reason: &str, observed_at: LocalObservationTime) -> (actions: Vec<
        AdapterAction,
    >) {
        self.streams.disconnect(reason, observed_at)
    }

    fn market_coin(&self, market: MarketKey) -> (coin: Option<&MarketCoin>) {
        self.streams.market_coin(market)
    }
}

/// Markets are resolved coin by coin, in the order of the coins, and each as Aster resolves
/// it: to the symbol of the first listed market that trades the coin against USDT, if that is
/// a perpetual in trading.
pub proof fn lemma_binance_resolved_in_order(
    coins: Seq<Seq<char>>,
    response: Result<Seq<WireMarket>, Seq<char>>,
)
    ensures
        binance_resolved(coins, response) matches Ok(symbols) ==> {
            &&& response is Ok
            &&& symbols.len() == coins.len()
            &&& forall|i: int|
                0 <= i < coins.len() ==> resolution(#[trigger] coins[i], response->Ok_0) == Ok::<
                    Seq<char>,
                    aster::MetadataErrorView,
                >(symbols[i])
        },
        response is Ok && (forall|i: int|
            0 <= i < coins.len() ==> resolution(#[trigger] coins[i], response->Ok_0) is Ok)
            ==> binance_resolved(coins, response) is Ok,
{
    if let Ok(markets) = response {
        lemma_read_all_items(coins, binance_resolver(markets));
        assert forall|i: int| 0 <= i < coins.len() implies binance_resolver(markets)(
            i,
            #[trigger] coins[i],
        ) == binance_resolution(coins[i], markets) by {}
    }
}

} // verus!
