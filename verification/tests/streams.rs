use std::cell::Cell;

use market_capture::domain::{MarketCoin, Venue};
use market_capture::market_data::{
    AggressorSide, AggressorSideClassification, LocalObservationTime, MarketTradeIdentity,
    MarketTradeReportingKind, NormalizedMarketEvent, OrderBookStatus, UnavailabilityCategory,
};
use market_capture::venue::action::{AdapterAction, MarketDataAdapter, MarketKey};
use market_capture::venue::aster::{
    resolve_market, resolve_markets, AsterAdapter, AsterMarket, MetadataError, WireMarket,
};
use market_capture::venue::binance::{BinanceAdapter, BinanceMarket};
use market_capture::venue::clock::{observation_time, ObservationClock};
use market_capture::venue::streams::{decode_trade, WireAggregateTrade};

const SNAPSHOT: &str = r#"{"stream":"btcusdt@depth10@100ms","data":{"e":"depthUpdate","E":10,"T":9,"s":"BTCUSDT","U":1,"u":2,"pu":0,"b":[["100","1"]],"a":[["101","1"]]}}"#;
const TRADE: &str = r#"{"stream":"btcusdt@aggTrade","data":{"e":"aggTrade","E":10,"s":"BTCUSDT","a":91,"p":"100","q":"1","f":700,"l":703,"T":9,"m":false}}"#;

struct Clock(Cell<u64>);

impl ObservationClock for Clock {
    fn now(&self) -> LocalObservationTime {
        let next = self.0.get() + 1;
        self.0.set(next);
        LocalObservationTime::from_nanos_since_start(next)
    }
}

fn received(nanos: u64) -> LocalObservationTime {
    LocalObservationTime::from_nanos_since_start(nanos)
}

fn coin(value: &str) -> MarketCoin {
    MarketCoin::try_new(value).unwrap()
}

fn adapter() -> AsterAdapter {
    AsterAdapter::from_markets(
        vec![
            AsterMarket::new(coin("BTC"), "BTCUSDT".into()),
            AsterMarket::new(coin("ETH"), "ETHUSDT".into()),
        ],
        10,
    )
}

#[test]
fn combined_endpoint_and_routing_are_one_adapter_responsibility() {
    let mut adapter = adapter();
    assert_eq!(
        adapter.endpoint(),
        "wss://fstream.asterdex.com/stream?streams=btcusdt@depth10@100ms/btcusdt@aggTrade/ethusdt@depth10@100ms/ethusdt@aggTrade"
    );
    assert_eq!(adapter.on_connected().len(), 2);
    let actions = adapter.on_text(SNAPSHOT, received(1), &Clock(Cell::new(1)));
    assert!(matches!(
        actions.as_slice(),
        [AdapterAction::Publish(
            NormalizedMarketEvent::OrderBookSnapshot(_)
        )]
    ));
    assert!(adapter
        .book(MarketKey::new(0))
        .unwrap()
        .current()
        .is_some());
    assert!(adapter
        .book(MarketKey::new(1))
        .unwrap()
        .current()
        .is_none());
}

#[test]
fn invalid_market_is_isolated_and_disconnect_invalidates_all() {
    let mut adapter = adapter();
    let clock = Clock(Cell::new(1));
    adapter.on_text(SNAPSHOT, received(1), &clock);
    let invalid = SNAPSHOT.replace("\"1\"]],\"a\"", "\"0\"]],\"a\"");
    assert!(matches!(
        adapter.on_text(&invalid, received(3), &clock)[0],
        AdapterAction::Publish(NormalizedMarketEvent::OrderBookUnavailable(_))
    ));
    assert_eq!(adapter.on_disconnected("lost", received(4)).len(), 4);
}

#[test]
fn routes_aggregate_trade_as_owned_normalized_event() {
    let mut adapter = adapter();
    let actions = adapter.on_text(TRADE, received(1), &Clock(Cell::new(1)));
    assert!(matches!(
        actions.as_slice(),
        [
            AdapterAction::Publish(NormalizedMarketEvent::TradeStreamResumed(_)),
            AdapterAction::Publish(NormalizedMarketEvent::MarketTrade(trade))
        ] if trade.symbol().market_coin().as_str() == "BTC"
    ));
}

#[test]
fn drops_duplicate_and_stops_when_dedup_capacity_is_exhausted() {
    let markets = vec![AsterMarket::new(coin("BTC"), "BTCUSDT".into())];
    let mut adapter = AsterAdapter::from_markets(markets, 1);
    let clock = Clock(Cell::new(1));
    assert_eq!(adapter.on_text(TRADE, received(1), &clock).len(), 2);
    assert!(matches!(
        adapter.on_text(TRADE, received(2), &clock).as_slice(),
        [AdapterAction::TradeDeduplicated(_)]
    ));
    let next = TRADE.replace("\"a\":91", "\"a\":92");
    assert!(matches!(
        adapter.on_text(&next, received(3), &clock).as_slice(),
        [AdapterAction::Stop { .. }]
    ));
}

fn market(contract_type: &str, status: &str) -> WireMarket {
    WireMarket {
        symbol: "BTCUSDT".into(),
        contract_type: contract_type.into(),
        status: status.into(),
        base_asset: "BTC".into(),
        quote_asset: "USDT".into(),
    }
}

#[test]
fn resolves_exact_active_usdt_perpetual() {
    let markets = vec![market("PERPETUAL", "TRADING")];
    let resolved = resolve_market(&coin("BTC"), &markets).unwrap();
    assert_eq!(resolved.symbol(), "BTCUSDT");
    assert!(matches!(
        resolve_market(&coin("btc"), &markets),
        Err(MetadataError::UnknownMarket(_))
    ));
}

#[test]
fn rejects_inactive_and_non_perpetual_markets() {
    assert!(matches!(
        resolve_market(&coin("BTC"), &vec![market("CURRENT_QUARTER", "TRADING")]),
        Err(MetadataError::NotPerpetual(_))
    ));
    assert!(matches!(
        resolve_market(&coin("BTC"), &vec![market("PERPETUAL", "BREAK")]),
        Err(MetadataError::Inactive(_))
    ));
}

#[test]
fn decodes_aggregate_identity_times_and_maker_side() {
    let payload = WireAggregateTrade {
        event_type: "aggTrade".into(),
        event_time: 1_725_000_000_100,
        symbol: "BTCUSDT".into(),
        aggregate_trade_id: 91,
        price: "63250.125".into(),
        quantity: "0.004".into(),
        first_trade_id: 700,
        last_trade_id: 703,
        trade_time: 1_725_000_000_099,
        buyer_is_maker: true,
    };
    let trade = decode_trade(
        Venue::Aster,
        payload,
        "BTCUSDT",
        &coin("BTC"),
        received(10),
        received(11),
    )
    .unwrap();

    assert_eq!(
        trade.reporting_kind(),
        MarketTradeReportingKind::TakerOrderAggregate
    );
    assert_eq!(trade.aggressor_side(), AggressorSide::Sell);
    assert_eq!(
        trade.aggressor_side_classification(),
        AggressorSideClassification::DerivedFromMakerSide
    );
    assert_eq!(trade.timestamps().exchange_times().len(), 2);
    assert_eq!(
        trade.identity(),
        &MarketTradeIdentity::Aster {
            aggregate_trade_id: 91,
            first_trade_id: 700,
            last_trade_id: 703,
        }
    );
}

#[test]
fn routes_partial_depth_and_aggregate_trade() {
    let mut adapter =
        BinanceAdapter::from_markets(vec![BinanceMarket::new(coin("BTC"), "BTCUSDT".into())], 10);
    assert_eq!(
        adapter.endpoint(),
        "wss://fstream.binance.com/stream?streams=btcusdt@depth20@100ms/btcusdt@aggTrade"
    );
    let clock = Clock(Cell::new(1));
    let depth = r#"{"stream":"btcusdt@depth20@100ms","data":{"e":"depthUpdate","E":10,"s":"BTCUSDT","u":2,"b":[["100","1"]],"a":[["101","1"]]}}"#;
    assert!(matches!(
        adapter.on_text(depth, received(1), &clock).as_slice(),
        [AdapterAction::Publish(
            NormalizedMarketEvent::OrderBookSnapshot(_)
        )]
    ));
    let trade = r#"{"stream":"btcusdt@aggTrade","data":{"e":"aggTrade","E":10,"s":"BTCUSDT","a":91,"p":"100","q":"1","f":700,"l":703,"T":9,"m":false}}"#;
    assert!(matches!(
        adapter.on_text(trade, received(2), &clock).as_slice(),
        [
            AdapterAction::Publish(NormalizedMarketEvent::TradeStreamResumed(_)),
            AdapterAction::Publish(NormalizedMarketEvent::MarketTrade(_))
        ]
    ));
}

#[test]
fn snapshots_keep_their_sequence_and_times() {
    let mut adapter = adapter();
    adapter.on_text(SNAPSHOT, received(7), &Clock(Cell::new(41)));
    let snapshot = adapter.book(MarketKey::new(0)).unwrap().current().unwrap();
    assert_eq!(snapshot.source_sequence(), Some(2));
    assert_eq!(snapshot.bids()[0].price().to_text(), "100");
    assert_eq!(snapshot.asks()[0].price().to_text(), "101");
    assert_eq!(snapshot.timestamps().local_receive().nanos_since_start(), 7);
    assert_eq!(
        snapshot
            .timestamps()
            .processing_completed()
            .nanos_since_start(),
        42
    );
}

#[test]
fn a_bad_book_makes_the_book_unavailable_until_the_next_snapshot() {
    let mut adapter = adapter();
    let clock = Clock(Cell::new(1));
    adapter.on_text(SNAPSHOT, received(1), &clock);
    let crossed = SNAPSHOT.replace("\"101\"", "\"99\"");
    let actions = adapter.on_text(&crossed, received(2), &clock);
    let AdapterAction::Publish(NormalizedMarketEvent::OrderBookUnavailable(event)) = &actions[0]
    else {
        panic!("expected an unavailable book")
    };
    assert_eq!(event.category(), UnavailabilityCategory::InvalidMarketData);
    assert_eq!(
        event.diagnostic(),
        "snapshot is locked or crossed: best bid 100, best ask 99"
    );
    let book = adapter.book(MarketKey::new(0)).unwrap();
    assert_eq!(book.status(), OrderBookStatus::Unhealthy);
    assert!(book.current().is_none());
    adapter.on_text(SNAPSHOT, received(3), &clock);
    let book = adapter.book(MarketKey::new(0)).unwrap();
    assert!(book.current().is_some());
}

#[test]
fn texts_that_belong_to_no_market_are_ignored() {
    let mut adapter = adapter();
    let clock = Clock(Cell::new(1));
    for text in [
        "",
        "{",
        "[]",
        "{}",
        r#"{"result":null,"id":1}"#,
        &SNAPSHOT.replace("BTCUSDT", "XRPUSDT"),
    ] {
        assert_eq!(
            adapter.on_text(text, received(1), &clock),
            Vec::<AdapterAction>::new(),
            "{text}"
        );
    }
}

#[test]
fn a_disconnect_reports_every_market_and_stream() {
    let mut adapter = adapter();
    let clock = Clock(Cell::new(1));
    adapter.on_text(SNAPSHOT, received(1), &clock);
    let actions = adapter.on_disconnected("lost", received(4));
    let reported: Vec<(&str, bool)> = actions
        .iter()
        .map(|action| match action {
            AdapterAction::Publish(NormalizedMarketEvent::OrderBookUnavailable(event)) => {
                (event.market_coin().as_str(), true)
            }
            AdapterAction::Publish(NormalizedMarketEvent::TradeStreamUnavailable(event)) => {
                (event.market_coin().as_str(), false)
            }
            other => panic!("unexpected action {other:?}"),
        })
        .collect();
    assert_eq!(
        reported,
        [("BTC", true), ("BTC", false), ("ETH", true), ("ETH", false)]
    );
    assert!(adapter
        .book(MarketKey::new(0))
        .unwrap()
        .current()
        .is_none());
}

#[test]
fn resolution_names_its_faults() {
    let too_many: Vec<MarketCoin> = (0..201).map(|index| coin(&format!("C{index}"))).collect();
    assert_eq!(
        resolve_markets(&too_many, Ok(Vec::new()))
            .unwrap_err()
            .to_text(),
        "configured 201 Aster markets, maximum per connection is 200"
    );
    let coins = vec![coin("BTC")];
    assert_eq!(
        resolve_markets(&coins, Err("timeout".into()))
            .unwrap_err()
            .to_text(),
        "failed to load Aster markets: timeout"
    );
    assert_eq!(
        resolve_markets(&coins, Ok(Vec::new()))
            .unwrap_err()
            .to_text(),
        "unknown Aster USDT market coin BTC"
    );
    assert_eq!(
        resolve_markets(&coins, Ok(vec![market("OTHER", "TRADING")]))
            .unwrap_err()
            .to_text(),
        "Aster market BTC is not perpetual"
    );
    let adapter = AsterAdapter::bootstrap(&coins, Ok(vec![market("PERPETUAL", "TRADING")]), 5);
    let resolved = adapter.unwrap().resolved_markets();
    assert_eq!(resolved, [(coin("BTC"), "BTCUSDT".to_owned())]);
    assert_eq!(
        BinanceAdapter::bootstrap(&coins, Ok(vec![market("PERPETUAL", "BREAK")]), 5)
            .map(|_| ())
            .unwrap_err()
            .to_text(),
        "Binance market BTC is not trading"
    );
    let adapter = BinanceAdapter::bootstrap(&coins, Ok(vec![market("PERPETUAL", "TRADING")]), 5);
    assert_eq!(
        adapter.unwrap().resolved_markets(),
        [(coin("BTC"), "BTCUSDT".to_owned())]
    );
}

#[test]
fn symbols_are_written_in_lower_case_in_streams() {
    let adapter =
        AsterAdapter::from_markets(vec![AsterMarket::new(coin("Q"), "\u{c4}Q1USDT".into())], 1);
    assert_eq!(
        adapter.endpoint(),
        "wss://fstream.asterdex.com/stream?streams=\u{e4}q1usdt@depth10@100ms/\u{e4}q1usdt@aggTrade"
    );
}

#[test]
fn observation_times_saturate() {
    assert_eq!(observation_time(17), received(17));
    assert_eq!(observation_time(u128::MAX), received(u64::MAX));
}

#[test]
fn trades_are_complete_once_they_are_taken_in() {
    let mut adapter = adapter();
    let clock = Clock(Cell::new(7));
    let actions = adapter.on_text(TRADE, received(1), &clock);
    let Some(AdapterAction::Publish(NormalizedMarketEvent::MarketTrade(trade))) = actions.last()
    else {
        panic!("expected a trade")
    };
    assert_eq!(trade.timestamps().local_receive(), received(1));
    assert_eq!(trade.timestamps().processing_completed(), received(8));
    adapter.on_text(&TRADE.replace("\"q\":\"1\"", "\"q\":\"x\""), received(2), &clock);
    assert_eq!(clock.now(), received(9));
}

#[test]
fn repeated_data_is_refused_and_ignored_fields_are_skipped() {
    let mut adapter = adapter();
    let clock = Clock(Cell::new(1));
    let twice = SNAPSHOT.replacen("{\"stream\"", "{\"data\":{},\"stream\"", 1);
    assert!(adapter.on_text(&twice, received(1), &clock).is_empty());
    let ignored = SNAPSHOT.replacen("{\"stream\"", "{\"stream\":1e999,\"stream\"", 1);
    assert_eq!(adapter.on_text(&ignored, received(1), &clock).len(), 1);
}
