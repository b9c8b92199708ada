//! What a capture says of the run that made it.
use vstd::prelude::*;

use crate::domain::MarketCoin;
use crate::recorder::manifest::{
    inserted, resolved_views, text_views, CaptureMetadata, Configuration, MetadataView,
    ResolvedMarketView, ResolvedVenueMarket,
};
use crate::replay::{lemma_inserted_value, value_under};
use crate::text::{decimal, decimal_text};
use crate::trader::config::{coin_views, ConfigView, TraderConfig, Variable, VariableView};
use crate::venue::aster::AsterAdapter;
use crate::venue::binance::BinanceAdapter;
use crate::venue::hyperliquid::{HyperliquidAdapter, HyperliquidView};
use crate::venue::lighter::{LighterAdapter, LighterView};
use crate::venue::stream_markets::StreamsView;

verus! {

/// Texts one after the other, with a separator between them.
pub open spec fn joined(texts: Seq<Seq<char>>, separator: Seq<char>) -> Seq<char>
    decreases texts.len(),
{
    if texts.len() == 0 {
        Seq::empty()
    } else if texts.len() == 1 {
        texts[0]
    } else {
        joined(texts.drop_last(), separator) + separator + texts.last()
    }
}

fn join_coins(coins: &Vec<MarketCoin>, separator: &str) -> (text: String)
    ensures
        text@ == joined(coin_views(coins@), separator@),
{
    let ghost texts = coin_views(coins@);
    let mut text: String = String::new();
    let mut i: usize = 0;
    assert(texts.take(0) =~= Seq::<Seq<char>>::empty());
    assert(text@ =~= Seq::<char>::empty());
    while i < coins.len()
        invariant
            i <= coins.len(),
            texts == coin_views(coins@),
            text@ == joined(texts.take(i as int), separator@),
        decreases coins.len() - i,
    {
        proof {
            assert(texts.take(i + 1).drop_last() =~= texts.take(i as int));
            assert(texts[i as int] == coins@[i as int]@);
        }
        let ghost before = text@;
        if i > 0 {
            text.append(separator);
        }
        text.append(coins[i].as_str());
        proof {
            if i == 0 {
                assert(before =~= Seq::<char>::empty());
                assert(text@ =~= texts[0]);
            }
        }
        i = i + 1;
    }
    assert(texts.take(i as int) =~= texts);
    text
}

/// The markets, for people to read.
pub fn configured_markets(coins: &Vec<MarketCoin>) -> (text: String)
    ensures
        text@ == joined(coin_views(coins@), ", "@),
{
    join_coins(coins, ", ")
}

/// What is known of the program that runs.
#[derive(Debug, Eq, PartialEq)]
pub struct BuildDescription {
    pub git_commit: String,
    pub dirty_build: bool,
    pub package_version: String,
    pub rust_target: String,
}

/// The label of the collector: its own, else the name of the host, else unknown.
pub open spec fn label_of(label: VariableView, hostname: VariableView) -> Seq<char> {
    match label {
        VariableView::Present(text) => text,
        _ => match hostname {
            VariableView::Present(text) => text,
            _ => "unknown"@,
        },
    }
}

pub fn collector_label(label: Variable, hostname: Variable) -> (text: String)
    ensures
        text@ == label_of(label@, hostname@),
{
    match label {
        Variable::Present(text) => text,
        _ => match hostname {
            Variable::Present(text) => text,
            _ => "unknown".to_owned(),
        },
    }
}

/// The rendering of a truth value.
pub open spec fn bool_text(value: bool) -> Seq<char> {
    if value {
        "true"@
    } else {
        "false"@
    }
}

/// The settings of a run, by the names of their variables.
pub open spec fn recorded_settings(config: ConfigView) -> Seq<(Seq<char>, Seq<char>)> {
    let none = Seq::<(Seq<char>, Seq<char>)>::empty();
    let coins = inserted(none, "MARKET_COINS"@, joined(config.market_coins, ","@));
    let enabled = inserted(
        coins,
        "ENABLE_HYPERLIQUID"@,
        bool_text(config.enable_hyperliquid),
    );
    let capacity = inserted(
        enabled,
        "TRADE_DEDUP_CAPACITY"@,
        decimal(config.trade_dedup_capacity as nat),
    );
    let directory = inserted(capacity, "DATA_DIR"@, config.data_dir);
    let queue = inserted(
        directory,
        "RECORDER_QUEUE_CAPACITY"@,
        decimal(config.recorder_queue_capacity as nat),
    );
    inserted(
        queue,
        "CAPTURE_DURATION_SECONDS"@,
        decimal(config.capture_duration_seconds as nat),
    )
}

fn settings_of(config: &TraderConfig) -> (configuration: Configuration)
    ensures
        configuration@ == recorded_settings(config@),
{
    let enabled: String = if config.enable_hyperliquid {
        "true".to_owned()
    } else {
        "false".to_owned()
    };
    Configuration::new().insert(
        "MARKET_COINS".to_owned(),
        join_coins(&config.market_coins, ","),
    ).insert("ENABLE_HYPERLIQUID".to_owned(), enabled).insert(
        "TRADE_DEDUP_CAPACITY".to_owned(),
        decimal_text(config.trade_dedup_capacity as u128),
    ).insert("DATA_DIR".to_owned(), config.data_dir.clone()).insert(
        "RECORDER_QUEUE_CAPACITY".to_owned(),
        decimal_text(config.recorder_queue_capacity as u128),
    ).insert(
        "CAPTURE_DURATION_SECONDS".to_owned(),
        decimal_text(config.capture_duration_seconds as u128),
    )
}

/// What is recorded of the markets of a venue that names them by symbols.
pub open spec fn symbol_markets(venue: Seq<char>, streams: StreamsView) -> Seq<
    ResolvedMarketView,
> {
    Seq::new(
        streams.markets.len(),
        |i: int|
            ResolvedMarketView {
                venue,
                market_coin: streams.markets[i].feed.coin,
                venue_symbol: Some(streams.markets[i].symbol),
                venue_market_id: None,
            },
    )
}

/// What is recorded of the markets of Hyperliquid, which go by their coins.
pub open spec fn coin_markets(hyperliquid: Option<HyperliquidView>) -> Seq<ResolvedMarketView> {
    match hyperliquid {
        None => Seq::empty(),
        Some(adapter) => Seq::new(
            adapter.coins().len(),
            |i: int|
                ResolvedMarketView {
                    venue: "hyperliquid"@,
                    market_coin: adapter.coins()[i],
                    venue_symbol: Some(adapter.coins()[i]),
                    venue_market_id: None,
                },
        ),
    }
}

/// What is recorded of the markets of Lighter, which have numbers.
pub open spec fn numbered_markets(lighter: LighterView) -> Seq<ResolvedMarketView> {
    Seq::new(
        lighter.markets.len(),
        |i: int|
            ResolvedMarketView {
                venue: "lighter"@,
                market_coin: lighter.markets[i].feed.coin,
                venue_symbol: None,
                venue_market_id: Some(decimal(lighter.markets[i].market_id as nat)),
            },
    )
}

fn push_symbols(
    resolved: &mut Vec<ResolvedVenueMarket>,
    venue: &str,
    markets: Vec<(MarketCoin, String)>,
    Ghost(streams): Ghost<StreamsView>,
)
    requires
        markets@.len() == streams.markets.len(),
        forall|i: int|
            0 <= i < markets@.len() ==> (#[trigger] markets@[i]).0@ == streams.markets[i].feed.coin
                && markets@[i].1@ == streams.markets[i].symbol,
    ensures
        resolved_views(final(resolved)@) == resolved_views(old(resolved)@) + symbol_markets(
            venue@,
            streams,
        ),
{
    let ghost before = resolved_views(resolved@);
    let ghost all = symbol_markets(venue@, streams);
    let mut i: usize = 0;
    assert(before + all.take(0) =~= before);
    while i < markets.len()
        invariant
            i <= markets.len(),
            all == symbol_markets(venue@, streams),
            markets@.len() == streams.markets.len(),
            forall|i: int|
                0 <= i < markets@.len() ==> (#[trigger] markets@[i]).0@
                    == streams.markets[i].feed.coin && markets@[i].1@ == streams.markets[i].symbol,
            resolved_views(resolved@) == before + all.take(i as int),
        decreases markets.len() - i,
    {
        let ghost earlier = resolved@;
        let market = ResolvedVenueMarket {
            venue: venue.to_owned(),
            market_coin: markets[i].0.as_str().to_owned(),
            venue_symbol: Some(markets[i].1.clone()),
            venue_market_id: None,
        };
        let ghost model = market@;
        resolved.push(market);
        proof {
            assert(model == all[i as int]);
            assert(resolved_views(resolved@) =~= resolved_views(earlier).push(model));
            assert(before + all.take(i + 1) =~= (before + all.take(i as int)).push(model));
        }
        i = i + 1;
    }
    assert(all.take(i as int) =~= all);
}

fn push_coins(resolved: &mut Vec<ResolvedVenueMarket>, hyperliquid: Option<&HyperliquidAdapter>)
    ensures
        resolved_views(final(resolved)@) == resolved_views(old(resolved)@) + coin_markets(
            match hyperliquid {
                Some(adapter) => Some(adapter@),
                None => None,
            },
        ),
{
    let ghost before = resolved_views(resolved@);
    let adapter: &HyperliquidAdapter = match hyperliquid {
        Some(adapter) => adapter,
        None => {
            assert(before + Seq::<ResolvedMarketView>::empty() =~= before);
            return;
        },
    };
    let coins: Vec<MarketCoin> = adapter.resolved_markets();
    let ghost texts = adapter@.coins();
    let ghost all = coin_markets(Some(adapter@));
    let mut i: usize = 0;
    assert(before + all.take(0) =~= before);
    while i < coins.len()
        invariant
            i <= coins.len(),
            texts == adapter@.coins(),
            coin_views(coins@) == texts,
            all == coin_markets(Some(adapter@)),
            resolved_views(resolved@) == before + all.take(i as int),
        decreases coins.len() - i,
    {
        let ghost earlier = resolved@;
        assert(coin_views(coins@)[i as int] == coins@[i as int]@);
        assert(coin_views(coins@).len() == texts.len());
        let market = ResolvedVenueMarket {
            venue: "hyperliquid".to_owned(),
            market_coin: coins[i].as_str().to_owned(),
            venue_symbol: Some(coins[i].as_str().to_owned()),
            venue_market_id: None,
        };
        let ghost model = market@;
        resolved.push(market);
        proof {
            assert(model == all[i as int]);
            assert(resolved_views(resolved@) =~= resolved_views(earlier).push(model));
            assert(before + all.take(i + 1) =~= (before + all.take(i as int)).push(model));
        }
        i = i + 1;
    }
    assert(coin_views(coins@).len() == texts.len());
    assert(all.take(i as int) =~= all);
}

fn push_numbers(resolved: &mut Vec<ResolvedVenueMarket>, lighter: &LighterAdapter)
    ensures
        resolved_views(final(resolved)@) == resolved_views(old(resolved)@) + numbered_markets(
            lighter@,
        ),
{
    let ghost before = resolved_views(resolved@);
    let markets: Vec<(MarketCoin, u32)> = lighter.resolved_markets();
    let ghost all = numbered_markets(lighter@);
    let mut i: usize = 0;
    assert(before + all.take(0) =~= before);
    while i < markets.len()
        invariant
            i <= markets.len(),
            all == numbered_markets(lighter@),
            markets@.len() == lighter@.markets.len(),
            forall|i: int|
                0 <= i < markets@.len() ==> (#[trigger] markets@[i]).0@
                    == lighter@.markets[i].feed.coin && markets@[i].1
                    == lighter@.markets[i].market_id,
            resolved_views(resolved@) == before + all.take(i as int),
        decreases markets.len() - i,
    {
        let ghost earlier = resolved@;
        let market = ResolvedVenueMarket {
            venue: "lighter".to_owned(),
            market_coin: markets[i].0.as_str().to_owned(),
            venue_symbol: None,
            venue_market_id: Some(decimal_text(markets[i].1 as u128)),
        };
        let ghost model = market@;
        resolved.push(market);
        proof {
            assert(model == all[i as int]);
            assert(resolved_views(resolved@) =~= resolved_views(earlier).push(model));
            assert(before + all.take(i + 1) =~= (before + all.take(i as int)).push(model));
        }
        i = i + 1;
    }
    assert(all.take(i as int) =~= all);
}

fn coin_names(coins: &Vec<MarketCoin>) -> (names: Vec<String>)
    ensures
        text_views(names@) == coin_views(coins@),
{
    let mut names: Vec<String> = Vec::new();
    let mut i: usize = 0;
    while i < coins.len()
        invariant
            i <= coins.len(),
            names@.len() == i,
            forall|j: int| 0 <= j < i ==> (#[trigger] names@[j])@ == coins@[j]@,
        decreases coins.len() - i,
    {
        names.push(coins[i].as_str().to_owned());
        i = i + 1;
    }
    assert(text_views(names@) =~= coin_views(coins@));
    names
}

/// What a run with these settings and these adapters records of itself.
pub fn capture_metadata(
    config: &TraderConfig,
    binance: &BinanceAdapter,
    aster: &AsterAdapter,
    hyperliquid: Option<&HyperliquidAdapter>,
    lighter: &LighterAdapter,
    build: BuildDescription,
    collector_label: String,
) -> (metadata: CaptureMetadata)
    ensures
        metadata@ == (MetadataView {
            configuration: recorded_settings(config@),
            git_commit: build.git_commit@,
            dirty_build: build.dirty_build,
            package_version: build.package_version@,
            rust_target: build.rust_target@,
            collector_label: collector_label@,
            configured_markets: config@.market_coins,
            resolved_venue_markets: symbol_markets("binance"@, binance@) + symbol_markets(
                "aster"@,
                aster@,
            ) + coin_markets(
                match hyperliquid {
                    Some(adapter) => Some(adapter@),
                    None => None,
                },
            ) + numbered_markets(lighter@),
        }),
{
    let mut resolved: Vec<ResolvedVenueMarket> = Vec::new();
    let ghost none = resolved_views(resolved@);
    push_symbols(&mut resolved, "binance", binance.resolved_markets(), Ghost(binance@));
    push_symbols(&mut resolved, "aster", aster.resolved_markets(), Ghost(aster@));
    push_coins(&mut resolved, hyperliquid);
    push_numbers(&mut resolved, lighter);
    proof {
        assert(none =~= Seq::<ResolvedMarketView>::empty());
        assert(none + symbol_markets("binance"@, binance@) =~= symbol_markets(
            "binance"@,
            binance@,
        ));
    }
    CaptureMetadata {
        sanitized_configuration: settings_of(config),
        git_commit: build.git_commit,
        dirty_build: build.dirty_build,
        package_version: build.package_version,
        rust_target: build.rust_target,
        collector_label,
        configured_markets: coin_names(&config.market_coins),
        resolved_venue_markets: resolved,
    }
}

/// What is recorded of the settings of a run is found under the names of their variables.
pub proof fn lemma_settings_recorded(config: ConfigView)
    ensures
        ({
            let recorded = recorded_settings(config);
            &&& value_under(recorded, "MARKET_COINS"@) == Some(joined(config.market_coins, ","@))
            &&& value_under(recorded, "ENABLE_HYPERLIQUID"@) == Some(
                if config.enable_hyperliquid {
                    "true"@
                } else {
                    "false"@
                },
            )
            &&& value_under(recorded, "TRADE_DEDUP_CAPACITY"@) == Some(
                decimal(config.trade_dedup_capacity as nat),
            )
            &&& value_under(recorded, "DATA_DIR"@) == Some(config.data_dir)
            &&& value_under(recorded, "RECORDER_QUEUE_CAPACITY"@) == Some(
                decimal(config.recorder_queue_capacity as nat),
            )
            &&& value_under(recorded, "CAPTURE_DURATION_SECONDS"@) == Some(
                decimal(config.capture_duration_seconds as nat),
            )
        }),
{
    reveal_strlit("MARKET_COINS");
    reveal_strlit("ENABLE_HYPERLIQUID");
    reveal_strlit("TRADE_DEDUP_CAPACITY");
    reveal_strlit("DATA_DIR");
    reveal_strlit("RECORDER_QUEUE_CAPACITY");
    reveal_strlit("CAPTURE_DURATION_SECONDS");
    assert("MARKET_COINS"@.len() == 12 && "ENABLE_HYPERLIQUID"@.len() == 18
        && "TRADE_DEDUP_CAPACITY"@.len() == 20 && "DATA_DIR"@.len() == 8
        && "RECORDER_QUEUE_CAPACITY"@.len() == 23 && "CAPTURE_DURATION_SECONDS"@.len() == 24);
    assert forall|entries: Seq<(Seq<char>, Seq<char>)>, key: Seq<char>, value: Seq<char>,
        other: Seq<char>|
        #[trigger] value_under(inserted(entries, key, value), other) == (if other == key {
            Some(value)
        } else {
            value_under(entries, other)
        }) by {
        lemma_inserted_value(entries, key, value, other);
    }
}

/// What is recorded of the markets that a run follows names their venue and how the venue calls
/// them: Hyperliquid's go by their coins, Lighter's by their numbers and the others by symbols.
pub proof fn lemma_markets_recorded(
    venue: Seq<char>,
    streams: StreamsView,
    hyperliquid: HyperliquidView,
    lighter: LighterView,
    i: int,
)
    ensures
        symbol_markets(venue, streams).len() == streams.markets.len(),
        coin_markets(Some(hyperliquid)).len() == hyperliquid.markets.len(),
        coin_markets(None).len() == 0,
        numbered_markets(lighter).len() == lighter.markets.len(),
        0 <= i < streams.markets.len() ==> {
            let market = symbol_markets(venue, streams)[i];
            &&& market.venue == venue
            &&& market.market_coin == streams.markets[i].feed.coin
            &&& market.venue_symbol == Some(streams.markets[i].symbol)
            &&& market.venue_market_id is None
        },
        0 <= i < hyperliquid.markets.len() ==> {
            let market = coin_markets(Some(hyperliquid))[i];
            &&& market.venue == "hyperliquid"@
            &&& market.market_coin == hyperliquid.markets[i].coin
            &&& market.venue_symbol == Some(hyperliquid.markets[i].coin)
            &&& market.venue_market_id is None
        },
        0 <= i < lighter.markets.len() ==> {
            let market = numbered_markets(lighter)[i];
            &&& market.venue == "lighter"@
            &&& market.market_coin == lighter.markets[i].feed.coin
            &&& market.venue_symbol is None
            &&& market.venue_market_id == Some(decimal(lighter.markets[i].market_id as nat))
        },
{
}

} // verus!
