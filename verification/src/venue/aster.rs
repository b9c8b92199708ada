//! The Aster adapter.
use vstd::prelude::*;

use crate::domain::{MarketCoin, Venue};
use crate::market_data::{LocalObservationTime, OrderBook};
use crate::text::{decimal, decimal_text, same_text};
use crate::venue::action::{
    action_views, ActionView, AdapterAction, AdapterIdentity, MarketDataAdapter, MarketKey,
};
use crate::venue::clock::ObservationClock;
use crate::venue::feed::FeedView;
use crate::venue::stream_markets::{
    all_disconnected, all_subscribed, streams_text, StreamMarketView, StreamMarkets, StreamSymbol,
    StreamsView,
};
use crate::venue::wire::{
    first_place, lemma_first_place, lemma_first_place_step, lemma_read_all_items,
    lemma_read_all_step, read_all,
};

verus! {

/// A market by its coin and by the symbol under which Aster trades it.
#[derive(Debug, Eq, PartialEq)]
pub struct AsterMarket {
    pub market_coin: MarketCoin,
    pub symbol: String,
}

impl AsterMarket {
    pub fn new(market_coin: MarketCoin, symbol: String) -> (market: Self)
        ensures
            market.market_coin == market_coin,
            market.symbol == symbol,
    {
        AsterMarket { market_coin, symbol }
    }

    pub fn market_coin(&self) -> (coin: &MarketCoin)
        ensures
            coin@ == self.market_coin@,
    {
        &self.market_coin
    }

    pub fn symbol(&self) -> (symbol: &str)
        ensures
            symbol@ == self.symbol@,
    {
        self.symbol.as_str()
    }
}

/// How many markets one connection carries at most.
pub const MAX_STREAMS_PER_CONNECTION: usize = 200;

/// A market as the venue lists it.
#[derive(Debug, Eq, PartialEq)]
pub struct WireMarket {
    pub symbol: String,
    pub contract_type: String,
    pub status: String,
    pub base_asset: String,
    pub quote_asset: String,
}

/// Why markets could not be resolved.
#[allow(inconsistent_fields)]
#[derive(Debug, Eq, PartialEq)]
pub enum MetadataError {
    Request(String),
    UnknownMarket(MarketCoin),
    NotPerpetual(MarketCoin),
    Inactive(MarketCoin),
    TooManyMarkets { actual: usize, maximum: usize },
}

/// The model of `MetadataError`.
#[allow(inconsistent_fields)]
pub enum MetadataErrorView {
    Request(Seq<char>),
    UnknownMarket(Seq<char>),
    NotPerpetual(Seq<char>),
    Inactive(Seq<char>),
    TooManyMarkets { actual: nat, maximum: nat },
}

impl View for MetadataError {
    type V = MetadataErrorView;

    open spec fn view(&self) -> MetadataErrorView {
        match *self {
            MetadataError::Request(error) => MetadataErrorView::Request(error@),
            MetadataError::UnknownMarket(coin) => MetadataErrorView::UnknownMarket(coin@),
            MetadataError::NotPerpetual(coin) => MetadataErrorView::NotPerpetual(coin@),
            MetadataError::Inactive(coin) => MetadataErrorView::Inactive(coin@),
            MetadataError::TooManyMarkets { actual, maximum } => MetadataErrorView::TooManyMarkets {
                actual: actual as nat,
                maximum: maximum as nat,
            },
        }
    }
}

impl MetadataErrorView {
    /// The message of the error.
    pub open spec fn message(self) -> Seq<char> {
        match self {
            MetadataErrorView::Request(error) => "failed to load Aster markets: "@ + error,
            MetadataErrorView::UnknownMarket(coin) => "unknown Aster USDT market coin "@ + coin,
            MetadataErrorView::NotPerpetual(coin) => "Aster market "@ + coin
                + " is not perpetual"@,
            MetadataErrorView::Inactive(coin) => "Aster market "@ + coin + " is not trading"@,
            MetadataErrorView::TooManyMarkets { actual, maximum } => "configured "@ + decimal(
                actual,
            ) + " Aster markets, maximum per connection is "@ + decimal(maximum),
        }
    }
}

impl MetadataError {
    pub fn to_text(&self) -> (text: String)
        ensures
            text@ == self@.message(),
    {
        match self {
            MetadataError::Request(error) => {
                let mut text: String = "failed to load Aster markets: ".to_owned();
                text.append(error.as_str());
                text
            },
            MetadataError::UnknownMarket(coin) => {
                let mut text: String = "unknown Aster USDT market coin ".to_owned();
                text.append(coin.as_str());
                text
            },
            MetadataError::NotPerpetual(coin) => {
                let mut text: String = "Aster market ".to_owned();
                text.append(coin.as_str());
                text.append(" is not perpetual");
                text
            },
            MetadataError::Inactive(coin) => {
                let mut text: String = "Aster market ".to_owned();
                text.append(coin.as_str());
                text.append(" is not trading");
                text
            },
            MetadataError::TooManyMarkets { actual, maximum } => {
                let mut text: String = "configured ".to_owned();
                text.append(decimal_text(*actual as u128).as_str());
                text.append(" Aster markets, maximum per connection is ");
                text.append(decimal_text(*maximum as u128).as_str());
                text
            },
        }
    }
}

/// The assets that markets trade: base, then quote.
pub open spec fn traded_assets(markets: Seq<WireMarket>) -> Seq<(Seq<char>, Seq<char>)> {
    markets.map_values(|market: WireMarket| (market.base_asset@, market.quote_asset@))
}

/// The symbol of the market that trades a coin against USDT, if it is a perpetual in
/// trading.
pub open spec fn resolution(coin: Seq<char>, markets: Seq<WireMarket>) -> Result<
    Seq<char>,
    MetadataErrorView,
> {
    match first_place(traded_assets(markets), (coin, "USDT"@)) {
        None => Err(MetadataErrorView::UnknownMarket(coin)),
        Some(place) => {
            let market = markets[place as int];
            if market.contract_type@ != "PERPETUAL"@ {
                Err(MetadataErrorView::NotPerpetual(coin))
            } else if market.status@ != "TRADING"@ {
                Err(MetadataErrorView::Inactive(coin))
            } else {
                Ok(market.symbol@)
            }
        },
    }
}

/// Finds the market of a coin.
pub fn resolve_market(market_coin: &MarketCoin, markets: &Vec<WireMarket>) -> (result: Result<
    AsterMarket,
    MetadataError,
>)
    ensures
        match result {
            Ok(market) => resolution(market_coin@, markets@) == Ok::<Seq<char>, MetadataErrorView>(
                market.symbol@,
            ) && market.market_coin@ == market_coin@,
            Err(error) => resolution(market_coin@, markets@) == Err::<
                Seq<char>,
                MetadataErrorView,
            >(error@),
        },
{
    let ghost assets = traded_assets(markets@);
    let ghost key = (market_coin@, "USDT"@);
    let mut i: usize = 0;
    assert(assets.take(0) =~= Seq::<(Seq<char>, Seq<char>)>::empty());
    while i < markets.len()
        invariant
            i <= markets.len(),
            assets == traded_assets(markets@),
            key == (market_coin@, "USDT"@),
            first_place(assets.take(i as int), key) is None,
        decreases markets.len() - i,
    {
        let market: &WireMarket = &markets[i];
        proof {
            lemma_first_place_step(assets, i as int, key);
            assert(assets[i as int] == (market.base_asset@, market.quote_asset@));
        }
        if same_text(market.base_asset.as_str(), market_coin.as_str()) && same_text(
            market.quote_asset.as_str(),
            "USDT",
        ) {
            if !same_text(market.contract_type.as_str(), "PERPETUAL") {
                return Err(MetadataError::NotPerpetual(market_coin.clone()));
            }
            if !same_text(market.status.as_str(), "TRADING") {
                return Err(MetadataError::Inactive(market_coin.clone()));
            }
            return Ok(AsterMarket::new(market_coin.clone(), market.symbol.clone()));
        }
        i = i + 1;
    }
    assert(assets.take(i as int) =~= assets);
    Err(MetadataError::UnknownMarket(market_coin.clone()))
}

/// The models of coins.
pub open spec fn coin_texts(coins: Seq<MarketCoin>) -> Seq<Seq<char>> {
    coins.map_values(|coin: MarketCoin| coin@)
}

/// Resolves coins among markets.
pub open spec fn resolver(markets: Seq<WireMarket>) -> spec_fn(int, Seq<char>) -> Result<
    Seq<char>,
    MetadataErrorView,
> {
    |place: int, coin: Seq<char>| resolution(coin, markets)
}

/// The symbols of the markets of coins, or what is said of the first coin that has none.
/// More coins than a connection carries are refused whatever the venue lists, and a list
/// that did not arrive is reported.
pub open spec fn all_resolved(
    coins: Seq<Seq<char>>,
    response: Result<Seq<WireMarket>, Seq<char>>,
) -> Result<Seq<Seq<char>>, MetadataErrorView> {
    if coins.len() > MAX_STREAMS_PER_CONNECTION {
        Err(
            MetadataErrorView::TooManyMarkets {
                actual: coins.len(),
                maximum: MAX_STREAMS_PER_CONNECTION as nat,
            },
        )
    } else {
        match response {
            Err(error) => Err(MetadataErrorView::Request(error)),
            Ok(markets) => read_all(coins, resolver(markets)),
        }
    }
}

/// The model of what the venue listed.
pub open spec fn response_view(response: Result<Vec<WireMarket>, String>) -> Result<
    Seq<WireMarket>,
    Seq<char>,
> {
    match response {
        Ok(markets) => Ok(markets@),
        Err(error) => Err(error@),
    }
}

/// Refuses more coins than a connection carries.
pub fn check_market_count(market_coins: &Vec<MarketCoin>) -> (result: Result<(), MetadataError>)
    ensures
        match result {
            Ok(_) => market_coins@.len() <= MAX_STREAMS_PER_CONNECTION,
            Err(error) => market_coins@.len() > MAX_STREAMS_PER_CONNECTION && error@ == (
            MetadataErrorView::TooManyMarkets {
                actual: market_coins@.len(),
                maximum: MAX_STREAMS_PER_CONNECTION as nat,
            }),
        },
{
    if market_coins.len() > MAX_STREAMS_PER_CONNECTION {
        return Err(
            MetadataError::TooManyMarkets {
                actual: market_coins.len(),
                maximum: MAX_STREAMS_PER_CONNECTION,
            },
        );
    }
    Ok(())
}

/// Finds the markets of coins in what the venue listed.
pub fn resolve_markets(
    market_coins: &Vec<MarketCoin>,
    response: Result<Vec<WireMarket>, String>,
) -> (result: Result<Vec<AsterMarket>, MetadataError>)
    ensures
        match result {
            Ok(markets) => {
                &&& all_resolved(coin_texts(market_coins@), response_view(response)) == Ok::<
                    Seq<Seq<char>>,
                    MetadataErrorView,
                >(markets@.map_values(|market: AsterMarket| market.symbol@))
                &&& markets@.map_values(|market: AsterMarket| market.market_coin@) == coin_texts(
                    market_coins@,
                )
            },
            Err(error) => all_resolved(coin_texts(market_coins@), response_view(response)) == Err::<
                Seq<Seq<char>>,
                MetadataErrorView,
            >(error@),
        },
{
    let ghost coins = coin_texts(market_coins@);
    match check_market_count(market_coins) {
        Err(error) => {
            return Err(error);
        },
        Ok(_) => {},
    }
    let listed: Vec<WireMarket> = match response {
        Ok(listed) => listed,
        Err(error) => {
            return Err(MetadataError::Request(error));
        },
    };
    let mut markets: Vec<AsterMarket> = Vec::new();
    let mut i: usize = 0;
    proof {
        assert(coins.take(0) =~= Seq::<Seq<char>>::empty());
        assert(markets@.map_values(|market: AsterMarket| market.symbol@) =~= Seq::<
            Seq<char>,
        >::empty());
        assert(markets@.map_values(|market: AsterMarket| market.market_coin@) =~= coins.take(0));
    }
    while i < market_coins.len()
        invariant
            i <= market_coins.len(),
            market_coins@.len() <= MAX_STREAMS_PER_CONNECTION,
            coins == coin_texts(market_coins@),
            response_view(response) == Ok::<Seq<WireMarket>, Seq<char>>(listed@),
            read_all(coins.take(i as int), resolver(listed@)) == Ok::<
                Seq<Seq<char>>,
                MetadataErrorView,
            >(markets@.map_values(|market: AsterMarket| market.symbol@)),
            markets@.map_values(|market: AsterMarket| market.market_coin@) == coins.take(i as int),
        decreases market_coins.len() - i,
    {
        proof {
            assert(coins[i as int] == market_coins@[i as int]@);
            lemma_read_all_step(coins, i as int, resolver(listed@));
            assert(coins.take(i + 1) =~= coins.take(i as int).push(coins[i as int]));
        }
        let ghost before = markets@;
        match resolve_market(&market_coins[i], &listed) {
            Ok(market) => {
                markets.push(market);
                proof {
                    assert(markets@.map_values(|market: AsterMarket| market.symbol@)
                        =~= before.map_values(|market: AsterMarket| market.symbol@).push(
                        market.symbol@,
                    ));
                    assert(markets@.map_values(|market: AsterMarket| market.market_coin@)
                        =~= before.map_values(|market: AsterMarket| market.market_coin@).push(
                        market.market_coin@,
                    ));
                }
            },
            Err(error) => {
                return Err(error);
            },
        }
        i = i + 1;
    }
    assert(coins.take(i as int) =~= coins);
    Ok(markets)
}

/// Reads the depth and trade streams of Aster.
pub struct AsterAdapter {
    streams: StreamMarkets,
}

impl View for AsterAdapter {
    type V = StreamsView;

    closed spec fn view(&self) -> StreamsView {
        self.streams@
    }
}

/// The streams of markets that have not seen anything.
pub open spec fn aster_streams(
    coins: Seq<Seq<char>>,
    symbols: Seq<Seq<char>>,
    capacity: nat,
) -> StreamsView {
    StreamsView {
        venue: Venue::Aster,
        endpoint: "wss://fstream.asterdex.com/stream?streams="@ + streams_text(
            symbols,
            "@depth10@100ms"@,
        ),
        markets: Seq::new(
            symbols.len(),
            |i: int| StreamMarketView {
                symbol: symbols[i],
                feed: FeedView::fresh(Venue::Aster, coins[i], capacity),
            },
        ),
    }
}

impl AsterAdapter {
    /// Reads the streams of markets.
    pub fn from_markets(markets: Vec<AsterMarket>, trade_dedup_capacity: usize) -> (adapter: Self)
        requires
            trade_dedup_capacity > 0,
        ensures
            adapter.well_formed(),
            adapter@ == aster_streams(
                markets@.map_values(|market: AsterMarket| market.market_coin@),
                markets@.map_values(|market: AsterMarket| market.symbol@),
                trade_dedup_capacity as nat,
            ),
    {
        let mut symbols: Vec<StreamSymbol> = Vec::new();
        let mut i: usize = 0;
        while i < markets.len()
            invariant
                i <= markets.len(),
                symbols@.len() == i,
                forall|j: int|
                    0 <= j < i ==> (#[trigger] symbols@[j]).market_coin@ == markets@[j].market_coin@
                        && symbols@[j].symbol@ == markets@[j].symbol@,
            decreases markets.len() - i,
        {
            symbols.push(
                StreamSymbol {
                    market_coin: markets[i].market_coin.clone(),
                    symbol: markets[i].symbol.clone(),
                },
            );
            i = i + 1;
        }
        let ghost models = symbols@;
        let adapter = AsterAdapter {
            streams: StreamMarkets::new(
                Venue::Aster,
                "wss://fstream.asterdex.com/stream?streams=",
                "@depth10@100ms",
                symbols,
                trade_dedup_capacity,
            ),
        };
        proof {
            let texts = markets@.map_values(|market: AsterMarket| market.symbol@);
            let coins = markets@.map_values(|market: AsterMarket| market.market_coin@);
            assert(StreamMarkets::symbol_texts(models) =~= texts);
            assert(adapter@.markets =~= aster_streams(
                coins,
                texts,
                trade_dedup_capacity as nat,
            ).markets);
        }
        adapter
    }

    /// Finds the markets of coins in what the venue listed, and reads their streams.
    pub fn bootstrap(
        market_coins: &Vec<MarketCoin>,
        response: Result<Vec<WireMarket>, String>,
        trade_dedup_capacity: usize,
    ) -> (result: Result<Self, MetadataError>)
        requires
            trade_dedup_capacity > 0,
        ensures
            match result {
                Ok(adapter) => {
                    &&& adapter.well_formed()
                    &&& all_resolved(coin_texts(market_coins@), response_view(response)) == Ok::<
                        Seq<Seq<char>>,
                        MetadataErrorView,
                    >(adapter@.symbols())
                    &&& adapter@ == aster_streams(
                        coin_texts(market_coins@),
                        adapter@.symbols(),
                        trade_dedup_capacity as nat,
                    )
                },
                Err(error) => all_resolved(coin_texts(market_coins@), response_view(response))
                    == Err::<Seq<Seq<char>>, MetadataErrorView>(error@),
            },
    {
        match resolve_markets(market_coins, response) {
            Ok(markets) => {
                let adapter = AsterAdapter::from_markets(markets, trade_dedup_capacity);
                assert(adapter@.symbols() =~= markets@.map_values(
                    |market: AsterMarket| market.symbol@,
                ));
                Ok(adapter)
            },
            Err(error) => Err(error),
        }
    }

    /// The coins and the symbols of the markets.
    pub fn resolved_markets(&self) -> (markets: Vec<(MarketCoin, String)>)
        ensures
            markets@.len() == self@.markets.len(),
            forall|i: int|
                0 <= i < markets@.len() ==> (#[trigger] markets@[i]).0@ == self@.markets[i].feed.coin
                    && markets@[i].1@ == self@.markets[i].symbol,
    {
        self.streams.resolved_markets()
    }

    /// The book of a market.
    pub fn book(&self, market: MarketKey) -> (book: Option<&OrderBook>)
        ensures
            match book {
                Some(book) => market.0 < self@.markets.len() && book@
                    == self@.markets[market.0 as int].feed.book,
                None => market.0 >= self@.markets.len(),
            },
    {
        self.streams.book(market)
    }
}

impl MarketDataAdapter for AsterAdapter {
    open spec fn identity_of(&self) -> AdapterIdentity {
        AdapterIdentity {
            venue: self@.venue,
            endpoint: self@.endpoint,
            coins: self@.coins(),
            heartbeat: None,
        }
    }

    closed spec fn well_formed(&self) -> bool {
        self.streams.well_formed()
    }

    open spec fn answers_connected(before: Self, after: Self, actions: Seq<ActionView>) -> bool {
        &&& after@ == before@
        &&& actions == all_subscribed(before@.markets.len())
    }

    open spec fn answers_heartbeat(before: Self, after: Self, actions: Seq<ActionView>) -> bool {
        &&& after@ == before@
        &&& actions == Seq::<ActionView>::empty()
    }

    open spec fn answers_text(
        before: Self,
        text: Seq<char>,
        local_receive: LocalObservationTime,
        after: Self,
        actions: Seq<ActionView>,
    ) -> bool {
        exists|completed: LocalObservationTime|
            (after@, actions) == #[trigger] before@.after_text(text, local_receive, completed)
    }

    open spec fn answers_disconnected(
        before: Self,
        reason: Seq<char>,
        observed_at: LocalObservationTime,
        after: Self,
        actions: Seq<ActionView>,
    ) -> bool {
        &&& after@ == before@.disconnected()
        &&& actions == all_disconnected(
            before@.markets.map_values(|market: StreamMarketView| market.feed),
            reason,
            observed_at,
        )
    }

    fn venue(&self) -> (venue: Venue) {
        self.streams.venue()
    }

    fn endpoint(&self) -> (endpoint: &str) {
        self.streams.endpoint()
    }

    fn heartbeat_interval(&self) -> (seconds: Option<u64>) {
        None
    }

    /// The endpoint already names the streams: every market is announced.
    fn on_connected(&mut self) -> (actions: Vec<AdapterAction>) {
        self.streams.subscribed()
    }

    fn on_heartbeat(&mut self) -> (actions: Vec<AdapterAction>) {
        let actions: Vec<AdapterAction> = Vec::new();
        assert(action_views(actions@) =~= Seq::<ActionView>::empty());
        actions
    }

    fn on_text<C: ObservationClock>(
        &mut self,
        text: &str,
        local_receive: LocalObservationTime,
        clock: &C,
    ) -> (actions: Vec<AdapterAction>) {
        self.streams.on_text(text, local_receive, clock)
    }

    fn on_disconnected(&mut self, reason: &str, observed_at: LocalObservationTime) -> (actions: Vec<
        AdapterAction,
    >) {
        self.streams.disconnect(reason, observed_at)
    }

    fn market_coin(&self, market: MarketKey) -> (coin: Option<&MarketCoin>) {
        self.streams.market_coin(market)
    }
}

/// Whether the market at a place of a list trades a coin against USDT.
pub open spec fn trades_coin(markets: Seq<WireMarket>, place: int, coin: Seq<char>) -> bool {
    &&& 0 <= place < markets.len()
    &&& markets[place].base_asset@ == coin
    &&& markets[place].quote_asset@ == "USDT"@
}

/// A coin is resolved by the first listed market that trades it against USDT, and by no
/// other: to that market's symbol if it is a perpetual in trading, and not otherwise. A coin
/// that no listed market trades against USDT is unknown.
pub proof fn lemma_market_resolved(coin: Seq<char>, markets: Seq<WireMarket>, place: int)
    ensures
        trades_coin(markets, place, coin) && (forall|i: int|
            0 <= i < place ==> !(#[trigger] trades_coin(markets, i, coin))) ==> {
            let market = markets[place];
            &&& market.contract_type@ == "PERPETUAL"@ && market.status@ == "TRADING"@
                ==> resolution(coin, markets) == Ok::<Seq<char>, MetadataErrorView>(market.symbol@)
            &&& market.contract_type@ != "PERPETUAL"@ ==> resolution(coin, markets) == Err::<
                Seq<char>,
                MetadataErrorView,
            >(MetadataErrorView::NotPerpetual(coin))
            &&& market.contract_type@ == "PERPETUAL"@ && market.status@ != "TRADING"@
                ==> resolution(coin, markets) == Err::<Seq<char>, MetadataErrorView>(
                MetadataErrorView::Inactive(coin),
            )
        },
        (forall|i: int| !(#[trigger] trades_coin(markets, i, coin))) ==> resolution(coin, markets)
            == Err::<Seq<char>, MetadataErrorView>(MetadataErrorView::UnknownMarket(coin)),
{
    let assets = traded_assets(markets);
    let key = (coin, "USDT"@);
    lemma_first_place(assets, key);
    assert forall|i: int| 0 <= i < markets.len() implies (#[trigger] assets[i] == key
        <==> trades_coin(markets, i, coin)) by {}
    if let Some(found) = first_place(assets, key) {
        assert(trades_coin(markets, found as int, coin));
    }
    if trades_coin(markets, place, coin) {
        assert(assets[place] == key);
    }
}

/// Markets are resolved coin by coin, in the order of the coins.
pub proof fn lemma_markets_resolved_in_order(
    coins: Seq<Seq<char>>,
    response: Result<Seq<WireMarket>, Seq<char>>,
)
    ensures
        all_resolved(coins, response) matches Ok(symbols) ==> {
            &&& coins.len() <= 200
            &&& response is Ok
            &&& symbols.len() == coins.len()
            &&& forall|i: int|
                0 <= i < coins.len() ==> resolution(#[trigger] coins[i], response->Ok_0) == Ok::<
                    Seq<char>,
                    MetadataErrorView,
                >(symbols[i])
        },
        coins.len() <= 200 && response is Ok && (forall|i: int|
            0 <= i < coins.len() ==> resolution(#[trigger] coins[i], response->Ok_0) is Ok)
            ==> all_resolved(coins, response) is Ok,
{
    if let Ok(markets) = response {
        lemma_read_all_items(coins, resolver(markets));
        assert forall|i: int| 0 <= i < coins.len() implies resolver(markets)(
            i,
            #[trigger] coins[i],
        ) == resolution(coins[i], markets) by {}
    }
}

} // verus!
