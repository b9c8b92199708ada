use std::cell::Cell;

use market_capture::domain::MarketCoin;
use market_capture::market_data::{
    AggressorSide, AggressorSideClassification, ExchangeTimeUnit, LocalObservationTime,
    MarketTradeIdentity, NormalizedMarketEvent, OrderBookStatus,
};
use market_capture::venue::action::{AdapterAction, MarketDataAdapter, MarketKey};
use market_capture::venue::clock::ObservationClock;
use market_capture::venue::hyperliquid::wire::{decode_trade, WireTrade};
use market_capture::venue::hyperliquid::HyperliquidAdapter;
use serde_json::Value;

const SNAPSHOT: &str = r#"{"channel":"l2Book","data":{"coin":"BTC","time":10,"levels":[[{"px":"100","sz":"1","n":2}],[{"px":"101","sz":"2","n":1}]]}}"#;
const BBO: &str = r#"{"channel":"bbo","data":{"coin":"BTC","time":11,"bbo":[{"px":"100","sz":"1","n":2},{"px":"101","sz":"2","n":1}]}}"#;
const TRADES: &str = r#"{"channel":"trades","data":[{"coin":"BTC","side":"B","px":"100","sz":"1","hash":"0x1","time":10,"tid":1},{"coin":"BTC","side":"A","px":"101","sz":"2","hash":"0x2","time":11,"tid":2}]}"#;

struct Clock(Cell<u64>);

impl ObservationClock for Clock {
    fn now(&self) -> LocalObservationTime {
        let next = self.0.get() + 1;
        self.0.set(next);
        LocalObservationTime::from_nanos_since_start(next)
    }
}

fn received(nanos: u64) -> LocalObservationTime {
    LocalObservationTime::from_nanos_since_start(nanos)
}

fn coin(value: &str) -> MarketCoin {
    MarketCoin::try_new(value).unwrap()
}

fn two_markets() -> HyperliquidAdapter {
    HyperliquidAdapter::new(vec![coin("BTC"), coin("ETH")], 10)
}

fn one_market() -> HyperliquidAdapter {
    HyperliquidAdapter::new(vec![coin("BTC")], 10)
}

#[test]
fn routes_through_whole_market_adapter_and_builds_subscriptions() {
    let mut adapter = two_markets();
    let connected = adapter.on_connected();
    let AdapterAction::SendText(message) = &connected[0] else {
        panic!("first action sends subscription");
    };
    let value: Value = serde_json::from_str(message).unwrap();
    assert_eq!(value["subscription"]["coin"], "BTC");
    assert!(value["subscription"].get("fast").is_none());
    let actions = adapter.on_text(SNAPSHOT, received(1), &Clock(Cell::new(1)));
    assert!(matches!(
        actions.as_slice(),
        [AdapterAction::Publish(
            NormalizedMarketEvent::OrderBookSnapshot(_)
        )]
    ));
    let snapshot = adapter.book(MarketKey::new(0)).unwrap().current().unwrap();
    assert_eq!(snapshot.timestamps().local_receive().nanos_since_start(), 1);
    assert_eq!(
        snapshot
            .timestamps()
            .processing_completed()
            .nanos_since_start(),
        2
    );
    assert!(adapter
        .book(MarketKey::new(1))
        .unwrap()
        .current()
        .is_none());
}

#[test]
fn decodes_bbo_as_an_independent_normalized_event() {
    let mut adapter = one_market();
    let actions = adapter.on_text(BBO, received(42), &Clock(Cell::new(42)));
    let AdapterAction::Publish(NormalizedMarketEvent::BestBidOfferUpdated(bbo)) = &actions[0]
    else {
        panic!("expected normalized BBO event")
    };
    assert_eq!(bbo.bid().unwrap().price().to_text(), "100");
    assert_eq!(bbo.ask().unwrap().quantity().to_text(), "2");
    assert_eq!(bbo.timestamps().local_receive().nanos_since_start(), 42);
}

#[test]
fn decodes_one_sided_bbo_without_fabricating_the_missing_side() {
    let mut adapter = one_market();
    let actions = adapter.on_text(
        &BBO.replace(r#"{"px":"100","sz":"1","n":2}"#, "null"),
        received(42),
        &Clock(Cell::new(42)),
    );
    let AdapterAction::Publish(NormalizedMarketEvent::BestBidOfferUpdated(bbo)) = &actions[0]
    else {
        panic!("expected normalized BBO event")
    };
    assert!(bbo.bid().is_none());
    assert!(bbo.ask().is_some());
}

#[test]
fn invalid_identified_book_isolated_and_disconnect_invalidates_all() {
    let mut adapter = two_markets();
    let clock = Clock(Cell::new(1));
    adapter.on_text(SNAPSHOT, received(1), &clock);
    let invalid = SNAPSHOT.replace(r#""sz":"1""#, r#""sz":"0""#);
    assert!(matches!(
        adapter.on_text(&invalid, received(3), &clock)[0],
        AdapterAction::Publish(NormalizedMarketEvent::OrderBookUnavailable(_))
    ));
    assert_eq!(adapter.on_disconnected("lost", received(4)).len(), 4);
}

#[test]
fn preserves_trade_batch_order_as_owned_events() {
    let mut adapter = one_market();
    let actions = adapter.on_text(TRADES, received(1), &Clock(Cell::new(1)));
    let trade_ids = actions
        .iter()
        .filter_map(|action| match action {
            AdapterAction::Publish(NormalizedMarketEvent::MarketTrade(trade)) => {
                let MarketTradeIdentity::Hyperliquid { trade_id, .. } = trade.identity() else {
                    panic!("wrong venue identity")
                };
                Some(*trade_id)
            }
            AdapterAction::Publish(NormalizedMarketEvent::TradeStreamResumed(_)) => None,
            _ => panic!("unexpected action"),
        })
        .collect::<Vec<_>>();
    assert_eq!(trade_ids, [1, 2]);
}

#[test]
fn deduplicates_trade_batch_and_stops_at_capacity() {
    let clock = Clock(Cell::new(1));
    let mut adapter = one_market();
    adapter.on_text(TRADES, received(1), &clock);
    assert!(adapter
        .on_text(TRADES, received(2), &clock)
        .iter()
        .all(|action| matches!(action, AdapterAction::TradeDeduplicated(_))));

    let mut full = HyperliquidAdapter::new(vec![coin("BTC")], 1);
    let actions = full.on_text(TRADES, received(1), &clock);
    assert!(matches!(actions.last(), Some(AdapterAction::Stop { .. })));
}

#[test]
fn decodes_fixture_without_inventing_a_time_unit() {
    let wire = WireTrade::parse(
        r#"{"coin":"BTC","side":"B","px":"63250.125","sz":"0.004","hash":"0xabc","time":1725000000100,"tid":981894269326506}"#,
    )
    .unwrap();
    let trade = decode_trade(&wire, &coin("BTC"), received(10), received(11)).unwrap();

    assert_eq!(trade.aggressor_side(), AggressorSide::Buy);
    assert_eq!(
        trade.timestamps().exchange_times()[0].declared_unit(),
        ExchangeTimeUnit::Unknown
    );
    assert_eq!(
        trade.identity(),
        &MarketTradeIdentity::Hyperliquid {
            block_time: 1_725_000_000_100,
            trade_id: 981_894_269_326_506,
            transaction_hash: "0xabc".into(),
        }
    );
}

#[test]
fn preserves_unknown_side_instead_of_guessing() {
    let wire = WireTrade::parse(
        r#"{"coin":"BTC","side":"?","px":"1","sz":"1","hash":"0x1","time":1,"tid":2}"#,
    )
    .unwrap();
    let trade = decode_trade(&wire, &coin("BTC"), received(1), received(2)).unwrap();
    assert_eq!(trade.aggressor_side(), AggressorSide::Unknown);
    assert_eq!(
        trade.aggressor_side_classification(),
        AggressorSideClassification::Unknown
    );
}

#[test]
fn subscriptions_quote_the_coin() {
    let mut adapter = HyperliquidAdapter::new(vec![coin("a\"b")], 1);
    let actions = adapter.on_connected();
    assert_eq!(actions.len(), 4);
    assert_eq!(
        actions[0],
        AdapterAction::SendText(
            r#"{"method":"subscribe","subscription":{"coin":"a\"b","type":"l2Book"}}"#.to_owned()
        )
    );
    assert_eq!(
        actions[3],
        AdapterAction::MarketSubscribed(MarketKey::new(0))
    );
}

#[test]
fn a_malformed_book_of_a_known_coin_makes_its_book_unhealthy() {
    let mut adapter = two_markets();
    let clock = Clock(Cell::new(1));
    adapter.on_text(SNAPSHOT, received(1), &clock);
    let malformed = r#"{"channel":"l2Book","data":{"coin":"BTC","time":"x"}}"#;
    assert!(matches!(
        adapter.on_text(malformed, received(2), &clock)[0],
        AdapterAction::Publish(NormalizedMarketEvent::OrderBookUnavailable(_))
    ));
    assert_eq!(
        adapter.book(MarketKey::new(0)).unwrap().status(),
        OrderBookStatus::Unhealthy
    );
}

#[test]
fn other_channels_and_coins_are_ignored() {
    let mut adapter = one_market();
    let clock = Clock(Cell::new(1));
    for text in [
        "nonsense",
        r#"{"channel":"pong"}"#,
        r#"{"channel":"subscriptionResponse","data":{}}"#,
        &SNAPSHOT.replace("BTC", "SOL"),
    ] {
        assert_eq!(
            adapter.on_text(text, received(1), &clock),
            Vec::<AdapterAction>::new(),
            "{text}"
        );
    }
}

#[test]
fn processing_completes_after_decoding() {
    let mut adapter = one_market();
    let clock = Clock(Cell::new(42));
    let actions = adapter.on_text(BBO, received(42), &clock);
    let [AdapterAction::Publish(NormalizedMarketEvent::BestBidOfferUpdated(bbo))] = &actions[..]
    else {
        panic!("expected one best bid and offer")
    };
    assert_eq!(bbo.bid().unwrap().order_count().unwrap().get(), 2);
    assert_eq!(bbo.timestamps().local_receive(), received(42));
    assert_eq!(bbo.timestamps().processing_completed(), received(43));

    let actions = adapter.on_text(TRADES, received(50), &clock);
    let completed: Vec<u64> = actions
        .iter()
        .filter_map(|action| match action {
            AdapterAction::Publish(NormalizedMarketEvent::MarketTrade(trade)) => Some(
                trade
                    .timestamps()
                    .processing_completed()
                    .nanos_since_start(),
            ),
            _ => None,
        })
        .collect();
    assert_eq!(completed, [44, 45]);
    adapter.on_text(TRADES, received(60), &clock);
    adapter.on_text(&BBO.replace("101", "x"), received(60), &clock);
    assert_eq!(clock.now(), received(46));
}

#[test]
fn repeated_envelope_fields_are_refused_and_ignored_ones_skipped() {
    let clock = Clock(Cell::new(1));
    let mut adapter = one_market();
    let twice = BBO.replacen("{\"channel\":\"bbo\",", "{\"channel\":\"bbo\",\"channel\":\"bbo\",", 1);
    assert_ne!(twice, BBO);
    assert!(adapter.on_text(&twice, received(1), &clock).is_empty());
    let ignored = BBO.replacen("{\"channel\"", "{\"x\":1e999,\"y\":\"\\ud800\",\"channel\"", 1);
    assert_eq!(adapter.on_text(&ignored, received(1), &clock).len(), 1);
    let inside = BBO.replacen("\"time\":11", "\"x\":1e999,\"time\":11", 1);
    assert_ne!(inside, BBO);
    assert!(adapter.on_text(&inside, received(1), &clock).is_empty());
    let doubled = BBO.replacen("\"time\":11", "\"time\":9,\"time\":11", 1);
    assert_eq!(adapter.on_text(&doubled, received(1), &clock).len(), 1);

    let nested = |depth: usize| {
        BBO.replacen(
            "\"time\":11",
            &format!(
                "\"x\":{}{},\"time\":11",
                "[".repeat(depth),
                "]".repeat(depth)
            ),
            1,
        )
    };
    assert_eq!(adapter.on_text(&nested(125), received(1), &clock).len(), 1);
    assert!(adapter.on_text(&nested(126), received(1), &clock).is_empty());
}
