//! The markets that Lighter lists.
use vstd::prelude::*;

use crate::domain::MarketCoin;
use crate::text::same_text;
use crate::venue::wire::{
    first_place, lemma_first_place, lemma_first_place_step, lemma_read_all_items,
    lemma_read_all_step, read_all,
};

verus! {

/// A market by its coin and by the number under which Lighter trades it.
#[derive(Debug, Eq, PartialEq)]
pub struct LighterMarket {
    pub market_coin: MarketCoin,
    pub market_id: u32,
}

impl LighterMarket {
    pub fn new(market_coin: MarketCoin, market_id: u32) -> (market: Self)
        ensures
            market.market_coin == market_coin,
            market.market_id == market_id,
    {
        LighterMarket { market_coin, market_id }
    }

    pub fn market_coin(&self) -> (coin: &MarketCoin)
        ensures
            coin@ == self.market_coin@,
    {
        &self.market_coin
    }

    pub fn market_id(&self) -> (id: u32)
        ensures
            id == self.market_id,
    {
        self.market_id
    }
}

/// A market as the venue lists it.
#[derive(Debug, Eq, PartialEq)]
pub struct WireMarket {
    pub symbol: String,
    pub market_id: u32,
    pub market_type: String,
    pub status: String,
}

/// Why markets could not be resolved.
#[derive(Debug, Eq, PartialEq)]
pub enum MetadataError {
    Request(String),
    UnknownMarket(MarketCoin),
    NotPerpetual(MarketCoin),
    Inactive(MarketCoin),
}

/// The model of `MetadataError`.
pub enum MetadataErrorView {
    Request(Seq<char>),
    UnknownMarket(Seq<char>),
    NotPerpetual(Seq<char>),
    Inactive(Seq<char>),
}

impl View for MetadataError {
    type V = MetadataErrorView;

    open spec fn view(&self) -> MetadataErrorView {
        match *self {
            MetadataError::Request(error) => MetadataErrorView::Request(error@),
            MetadataError::UnknownMarket(coin) => MetadataErrorView::UnknownMarket(coin@),
            MetadataError::NotPerpetual(coin) => MetadataErrorView::NotPerpetual(coin@),
            MetadataError::Inactive(coin) => MetadataErrorView::Inactive(coin@),
        }
    }
}

impl MetadataErrorView {
    /// The message of the error.
    pub open spec fn message(self) -> Seq<char> {
        match self {
            MetadataErrorView::Request(error) => "failed to load Lighter markets: "@ + error,
            MetadataErrorView::UnknownMarket(coin) => "unknown Lighter market coin "@ + coin,
            MetadataErrorView::NotPerpetual(coin) => "Lighter market "@ + coin
                + " is not a perpetual"@,
            MetadataErrorView::Inactive(coin) => "Lighter market "@ + coin + " is inactive"@,
        }
    }
}

impl MetadataError {
    pub fn to_text(&self) -> (text: String)
        ensures
            text@ == self@.message(),
    {
        match self {
            MetadataError::Request(error) => {
                let mut text: String = "failed to load Lighter markets: ".to_owned();
                text.append(error.as_str());
                text
            },
            MetadataError::UnknownMarket(coin) => {
                let mut text: String = "unknown Lighter market coin ".to_owned();
                text.append(coin.as_str());
                text
            },
            MetadataError::NotPerpetual(coin) => {
                let mut text: String = "Lighter market ".to_owned();
                text.append(coin.as_str());
                text.append(" is not a perpetual");
                text
            },
            MetadataError::Inactive(coin) => {
                let mut text: String = "Lighter market ".to_owned();
                text.append(coin.as_str());
                text.append(" is inactive");
                text
            },
        }
    }
}

/// The symbols of listed markets.
pub open spec fn listed_symbols(markets: Seq<WireMarket>) -> Seq<Seq<char>> {
    markets.map_values(|market: WireMarket| market.symbol@)
}

/// The number of the market with the coin as its symbol, if it is an active perpetual.
pub open spec fn resolution(coin: Seq<char>, markets: Seq<WireMarket>) -> Result<
    u32,
    MetadataErrorView,
> {
    match first_place(listed_symbols(markets), coin) {
        None => Err(MetadataErrorView::UnknownMarket(coin)),
        Some(place) => {
            let market = markets[place as int];
            if market.market_type@ != "perp"@ {
                Err(MetadataErrorView::NotPerpetual(coin))
            } else if market.status@ != "active"@ {
                Err(MetadataErrorView::Inactive(coin))
            } else {
                Ok(market.market_id)
            }
        },
    }
}

/// Finds the market of a coin.
pub fn resolve_market(market_coin: &MarketCoin, markets: &Vec<WireMarket>) -> (result: Result<
    LighterMarket,
    MetadataError,
>)
    ensures
        match result {
            Ok(market) => resolution(market_coin@, markets@) == Ok::<u32, MetadataErrorView>(
                market.market_id,
            ) && market.market_coin@ == market_coin@,
            Err(error) => resolution(market_coin@, markets@) == Err::<u32, MetadataErrorView>(
                error@,
            ),
        },
{
    let ghost symbols = listed_symbols(markets@);
    let mut i: usize = 0;
    assert(symbols.take(0) =~= Seq::<Seq<char>>::empty());
    while i < markets.len()
        invariant
            i <= markets.len(),
            symbols == listed_symbols(markets@),
            first_place(symbols.take(i as int), market_coin@) is None,
        decreases markets.len() - i,
    {
        let market: &WireMarket = &markets[i];
        proof {
            lemma_first_place_step(symbols, i as int, market_coin@);
            assert(symbols[i as int] == market.symbol@);
        }
        if same_text(market.symbol.as_str(), market_coin.as_str()) {
            if !same_text(market.market_type.as_str(), "perp") {
                return Err(MetadataError::NotPerpetual(market_coin.clone()));
            }
            if !same_text(market.status.as_str(), "active") {
                return Err(MetadataError::Inactive(market_coin.clone()));
            }
            return Ok(LighterMarket::new(market_coin.clone(), market.market_id));
        }
        i = i + 1;
    }
    assert(symbols.take(i as int) =~= symbols);
    Err(MetadataError::UnknownMarket(market_coin.clone()))
}

/// The models of coins.
pub open spec fn coin_texts(coins: Seq<MarketCoin>) -> Seq<Seq<char>> {
    coins.map_values(|coin: MarketCoin| coin@)
}

/// Resolves coins among markets.
pub open spec fn resolver(markets: Seq<WireMarket>) -> spec_fn(int, Seq<char>) -> Result<
    u32,
    MetadataErrorView,
> {
    |place: int, coin: Seq<char>| resolution(coin, markets)
}

/// The model of what the venue listed.
pub open spec fn response_view(response: Result<Vec<WireMarket>, String>) -> Result<
    Seq<WireMarket>,
    Seq<char>,
> {
    match response {
        Ok(markets) => Ok(markets@),
        Err(error) => Err(error@),
    }
}

/// The numbers of the markets of coins, or what is said of the first coin that has none. A
/// list that did not arrive is reported.
pub open spec fn all_resolved(
    coins: Seq<Seq<char>>,
    response: Result<Seq<WireMarket>, Seq<char>>,
) -> Result<Seq<u32>, MetadataErrorView> {
    match response {
        Err(error) => Err(MetadataErrorView::Request(error)),
        Ok(markets) => read_all(coins, resolver(markets)),
    }
}

/// Finds the markets of coins in what the venue listed.
pub fn resolve_markets(
    market_coins: &Vec<MarketCoin>,
    response: Result<Vec<WireMarket>, String>,
) -> (result: Result<Vec<LighterMarket>, MetadataError>)
    ensures
        match result {
            Ok(markets) => {
                &&& all_resolved(coin_texts(market_coins@), response_view(response)) == Ok::<
                    Seq<u32>,
                    MetadataErrorView,
                >(markets@.map_values(|market: LighterMarket| market.market_id))
                &&& markets@.map_values(|market: LighterMarket| market.market_coin@) == coin_texts(
                    market_coins@,
                )
            },
            Err(error) => all_resolved(coin_texts(market_coins@), response_view(response)) == Err::<
                Seq<u32>,
                MetadataErrorView,
            >(error@),
        },
{
    let ghost coins = coin_texts(market_coins@);
    let listed: Vec<WireMarket> = match response {
        Ok(listed) => listed,
        Err(error) => {
            return Err(MetadataError::Request(error));
        },
    };
    let mut markets: Vec<LighterMarket> = Vec::new();
    let mut i: usize = 0;
    proof {
        assert(coins.take(0) =~= Seq::<Seq<char>>::empty());
        assert(markets@.map_values(|market: LighterMarket| market.market_id) =~= Seq::<
            u32,
        >::empty());
        assert(markets@.map_values(|market: LighterMarket| market.market_coin@) =~= coins.take(0));
    }
    while i < market_coins.len()
        invariant
            i <= market_coins.len(),
            coins == coin_texts(market_coins@),
            response_view(response) == Ok::<Seq<WireMarket>, Seq<char>>(listed@),
            read_all(coins.take(i as int), resolver(listed@)) == Ok::<Seq<u32>, MetadataErrorView>(
                markets@.map_values(|market: LighterMarket| market.market_id),
            ),
            markets@.map_values(|market: LighterMarket| market.market_coin@) == coins.take(
                i as int,
            ),
        decreases market_coins.len() - i,
    {
        proof {
            assert(coins[i as int] == market_coins@[i as int]@);
            lemma_read_all_step(coins, i as int, resolver(listed@));
            assert(coins.take(i + 1) =~= coins.take(i as int).push(coins[i as int]));
        }
        let ghost before = markets@;
        match resolve_market(&market_coins[i], &listed) {
            Ok(market) => {
                markets.push(market);
                proof {
                    assert(markets@.map_values(|market: LighterMarket| market.market_id)
                        =~= before.map_values(|market: LighterMarket| market.market_id).push(
                        market.market_id,
                    ));
                    assert(markets@.map_values(|market: LighterMarket| market.market_coin@)
                        =~= before.map_values(|market: LighterMarket| market.market_coin@).push(
                        market.market_coin@,
                    ));
                }
            },
            Err(error) => {
                return Err(error);
            },
        }
        i = i + 1;
    }
    assert(coins.take(i as int) =~= coins);
    Ok(markets)
}

/// A coin is resolved by the first listed market with the coin as its symbol, and by no
/// other: to that market's number if it is an active perpetual, and not otherwise. A coin
/// that is no symbol is unknown.
pub proof fn lemma_market_resolved(coin: Seq<char>, markets: Seq<WireMarket>, place: int)
    ensures
        0 <= place < markets.len() && markets[place].symbol@ == coin && (forall|i: int|
            0 <= i < place ==> (#[trigger] markets[i]).symbol@ != coin) ==> {
            let market = markets[place];
            &&& market.market_type@ == "perp"@ && market.status@ == "active"@ ==> resolution(
                coin,
                markets,
            ) == Ok::<u32, MetadataErrorView>(market.market_id)
            &&& market.market_type@ != "perp"@ ==> resolution(coin, markets) == Err::<
                u32,
                MetadataErrorView,
            >(MetadataErrorView::NotPerpetual(coin))
            &&& market.market_type@ == "perp"@ && market.status@ != "active"@ ==> resolution(
                coin,
                markets,
            ) == Err::<u32, MetadataErrorView>(MetadataErrorView::Inactive(coin))
        },
        (forall|i: int| 0 <= i < markets.len() ==> (#[trigger] markets[i]).symbol@ != coin)
            ==> resolution(coin, markets) == Err::<u32, MetadataErrorView>(
            MetadataErrorView::UnknownMarket(coin),
        ),
{
    let symbols = listed_symbols(markets);
    lemma_first_place(symbols, coin);
    assert forall|i: int| 0 <= i < markets.len() implies #[trigger] symbols[i]
        == markets[i].symbol@ by {}
    if let Some(found) = first_place(symbols, coin) {
        assert(symbols[found as int] == markets[found as int].symbol@);
    }
    if 0 <= place < markets.len() {
        assert(symbols[place] == markets[place].symbol@);
    }
}

/// Markets are resolved coin by coin, in the order of the coins.
pub proof fn lemma_markets_resolved_in_order(
    coins: Seq<Seq<char>>,
    response: Result<Seq<WireMarket>, Seq<char>>,
)
    ensures
        all_resolved(coins, response) matches Ok(numbers) ==> {
            &&& response is Ok
            &&& numbers.len() == coins.len()
            &&& forall|i: int|
                0 <= i < coins.len() ==> resolution(#[trigger] coins[i], response->Ok_0) == Ok::<
                    u32,
                    MetadataErrorView,
                >(numbers[i])
        },
        response is Ok && (forall|i: int|
            0 <= i < coins.len() ==> resolution(#[trigger] coins[i], response->Ok_0) is Ok)
            ==> all_resolved(coins, response) is Ok,
{
    if let Ok(markets) = response {
        lemma_read_all_items(coins, resolver(markets));
        assert forall|i: int| 0 <= i < coins.len() implies resolver(markets)(
            i,
            #[trigger] coins[i],
        ) == resolution(coins[i], markets) by {}
    }
}

} // verus!
