use std::cell::Cell;

use market_capture::domain::MarketCoin;
use market_capture::market_data::{
    AggressorSide, LocalObservationTime, MarketTradeIdentity, MarketTradeKind,
    NormalizedMarketEvent, OrderBookStatus,
};
use market_capture::venue::action::{AdapterAction, MarketDataAdapter, MarketKey};
use market_capture::venue::clock::ObservationClock;
use market_capture::venue::lighter::book::{
    is_zero_decimal, AdapterError, HandleOutcome, LighterOrderBookAdapter,
};
use market_capture::venue::lighter::metadata::{
    resolve_market, resolve_markets, LighterMarket, MetadataError, WireMarket,
};
use market_capture::venue::lighter::wire::{
    decode_trade, market_id_behind, WireEnvelope, WireTrade,
};
use market_capture::venue::lighter::LighterAdapter;

struct Clock(Cell<u64>);

impl ObservationClock for Clock {
    fn now(&self) -> LocalObservationTime {
        let next = self.0.get() + 1;
        self.0.set(next);
        LocalObservationTime::from_nanos_since_start(next)
    }
}

fn received(value: u64) -> LocalObservationTime {
    LocalObservationTime::from_nanos_since_start(value)
}

const SNAPSHOT: &str = r#"{
    "type":"subscribed/order_book","channel":"order_book:1",
    "order_book":{"asks":[{"price":"102","size":"2"}],
    "bids":[{"price":"100","size":"1"},{"price":"99","size":"4"}],"nonce":10,
    "begin_nonce":0,"last_updated_at":1000}}"#;
const TRADES: &str = r#"{
    "type":"update/trade","channel":"trade:1","nonce":88,
    "trades":[{"trade_id_str":"1","type":"trade","market_id":1,"size":"1","price":"100","is_maker_ask":true,"timestamp":10,"transaction_time":9}],
    "liquidation_trades":[{"trade_id_str":"2","type":"liquidation","market_id":1,"size":"2","price":"99","is_maker_ask":false,"timestamp":11,"transaction_time":10}]}
"#;

fn coin(value: &str) -> MarketCoin {
    MarketCoin::try_new(value).unwrap()
}

fn adapter() -> LighterOrderBookAdapter {
    LighterOrderBookAdapter::new(LighterMarket::new(coin("BTC"), 1), 10)
}

fn whole_adapter() -> LighterAdapter {
    LighterAdapter::from_markets(
        vec![
            LighterMarket::new(coin("BTC"), 1),
            LighterMarket::new(coin("ETH"), 0),
        ],
        10,
    )
}

fn update(begin_nonce: u64, nonce: u64, bid_size: &str) -> String {
    format!(
        r#"{{"type":"update/order_book","channel":"order_book:1","order_book":{{"asks":[{{"price":"101","size":"3"}}],"bids":[{{"price":"100","size":"{bid_size}"}}],"nonce":{nonce},"begin_nonce":{begin_nonce},"last_updated_at":2000}}}}"#
    )
}

#[test]
fn builds_snapshot_and_preserves_nonce_without_order_counts() {
    let mut adapter = adapter();
    let clock = Clock(Cell::new(20));
    assert_eq!(
        adapter
            .handle_message(SNAPSHOT, received(20), &clock)
            .unwrap(),
        HandleOutcome::Applied
    );
    let snapshot = adapter.book().current().unwrap();
    assert_eq!(snapshot.source_sequence(), Some(10));
    assert_eq!(snapshot.bids()[0].order_count(), None);
    assert_eq!(snapshot.timestamps().exchange_times()[0].raw_value(), 1000);
}

#[test]
fn applies_delta_and_zero_size_deletion() {
    let mut adapter = adapter();
    let clock = Clock(Cell::new(20));
    adapter
        .handle_message(SNAPSHOT, received(20), &clock)
        .unwrap();
    adapter
        .handle_message(&update(10, 11, "0.000"), received(40), &clock)
        .unwrap();
    let snapshot = adapter.book().current().unwrap();
    assert_eq!(snapshot.source_sequence(), Some(11));
    assert_eq!(snapshot.bids()[0].price().to_text(), "99");
}

#[test]
fn nonce_gap_invalidates_book_until_fresh_snapshot() {
    let mut adapter = adapter();
    let clock = Clock(Cell::new(20));
    adapter
        .handle_message(SNAPSHOT, received(20), &clock)
        .unwrap();
    assert!(matches!(
        adapter.handle_message(&update(9, 11, "2"), received(40), &clock),
        Err(AdapterError::NonceGap { .. })
    ));
    assert_eq!(adapter.book().status(), OrderBookStatus::Unhealthy);
    assert_eq!(adapter.nonce(), None);
    adapter
        .handle_message(SNAPSHOT, received(60), &clock)
        .unwrap();
    assert!(adapter.book().current().is_some());
}

#[test]
fn whole_market_adapter_routes_and_orders_recovery_actions() {
    let mut adapter = whole_adapter();
    let clock = Clock(Cell::new(20));
    assert!(adapter.on_connected().is_empty());
    assert_eq!(
        adapter
            .on_text(r#"{"type":"connected"}"#, received(1), &clock)
            .len(),
        6
    );
    assert!(matches!(
        adapter.on_text(SNAPSHOT, received(20), &clock).as_slice(),
        [AdapterAction::Publish(
            NormalizedMarketEvent::OrderBookSnapshot(_)
        )]
    ));
    let actions = adapter.on_text(&update(9, 11, "2"), received(40), &clock);
    assert!(matches!(
        actions.as_slice(),
        [
            AdapterAction::Publish(NormalizedMarketEvent::OrderBookUnavailable(_)),
            AdapterAction::SendText(_),
            AdapterAction::SendText(_),
            AdapterAction::MarketSubscribed(subscribed)
        ] if *subscribed == MarketKey::new(0)
    ));
    assert!(adapter
        .book(MarketKey::new(1))
        .unwrap()
        .current()
        .is_none());
}

#[test]
fn sends_standard_websocket_heartbeat() {
    let mut adapter = whole_adapter();

    assert_eq!(adapter.heartbeat_interval(), Some(15));
    assert_eq!(
        adapter.on_heartbeat(),
        vec![AdapterAction::SendPing(Vec::new())]
    );
}

#[test]
fn preserves_regular_then_liquidation_array_order() {
    let mut adapter = whole_adapter();
    let actions = adapter.on_text(TRADES, received(1), &Clock(Cell::new(1)));
    let kinds = actions
        .iter()
        .filter_map(|action| match action {
            AdapterAction::Publish(NormalizedMarketEvent::MarketTrade(trade)) => {
                Some(trade.trade_kind())
            }
            AdapterAction::Publish(NormalizedMarketEvent::TradeStreamResumed(_)) => None,
            _ => panic!("unexpected action"),
        })
        .collect::<Vec<_>>();
    assert_eq!(
        kinds,
        [MarketTradeKind::Regular, MarketTradeKind::Liquidation]
    );
}

#[test]
fn deduplicates_trade_arrays_and_stops_at_capacity() {
    let clock = Clock(Cell::new(1));
    let mut adapter = whole_adapter();
    adapter.on_text(TRADES, received(1), &clock);
    assert!(adapter
        .on_text(TRADES, received(2), &clock)
        .iter()
        .all(|action| matches!(action, AdapterAction::TradeDeduplicated(_))));

    let mut full = LighterAdapter::from_markets(vec![LighterMarket::new(coin("BTC"), 1)], 1);
    let actions = full.on_text(TRADES, received(1), &clock);
    assert!(matches!(actions.last(), Some(AdapterAction::Stop { .. })));
}

fn market(market_type: &str, status: &str) -> WireMarket {
    WireMarket {
        symbol: "BTC".into(),
        market_id: 1,
        market_type: market_type.into(),
        status: status.into(),
    }
}

#[test]
fn resolves_only_active_perpetual_with_exact_symbol() {
    let markets = vec![market("perp", "active")];
    let found = resolve_market(&coin("BTC"), &markets).unwrap();
    assert_eq!(found.market_id(), 1);
    assert!(matches!(
        resolve_market(&coin("btc"), &markets),
        Err(MetadataError::UnknownMarket(_))
    ));
}

#[test]
fn metadata_rejects_inactive_and_non_perpetual_markets() {
    let inactive = vec![market("perp", "inactive")];
    assert!(matches!(
        resolve_market(&coin("BTC"), &inactive),
        Err(MetadataError::Inactive(_))
    ));

    let spot = vec![market("spot", "active")];
    assert!(matches!(
        resolve_market(&coin("BTC"), &spot),
        Err(MetadataError::NotPerpetual(_))
    ));
}

fn fixture(kind: &str, is_maker_ask: bool) -> WireTrade {
    WireTrade {
        trade_id_str: "9007199254740993".into(),
        kind: kind.into(),
        market_id: 1,
        size: "0.004".into(),
        price: "63250.125".into(),
        is_maker_ask,
        timestamp: 1_725_000_000_100,
        transaction_time: 1_725_000_000_099,
    }
}

#[test]
fn decodes_string_identity_both_times_and_maker_side() {
    let trade = decode_trade(
        &fixture("trade", true),
        1,
        &coin("BTC"),
        Some(88),
        received(10),
        received(11),
    )
    .unwrap();

    assert_eq!(trade.aggressor_side(), AggressorSide::Buy);
    assert_eq!(trade.trade_kind(), MarketTradeKind::Regular);
    assert_eq!(trade.timestamps().exchange_times().len(), 2);
    assert_eq!(
        trade.identity(),
        &MarketTradeIdentity::Lighter {
            market_id: 1,
            trade_id: "9007199254740993".into(),
            message_nonce: Some(88),
        }
    );
}

#[test]
fn preserves_liquidation_and_unknown_trade_kinds() {
    let coin = coin("BTC");
    let decode = |wire: WireTrade| {
        decode_trade(&wire, 1, &coin, None, received(10), received(11)).unwrap()
    };
    assert_eq!(
        decode(fixture("liquidation", false)).trade_kind(),
        MarketTradeKind::Liquidation
    );
    assert_eq!(
        decode(fixture("future_kind", false)).trade_kind(),
        MarketTradeKind::Other
    );
}

#[test]
fn every_fault_of_a_book_message_is_named() {
    let clock = Clock(Cell::new(20));
    let mut fresh = adapter();
    assert_eq!(
        fresh.handle_message("{", received(1), &clock),
        Err(AdapterError::InvalidJson(
            "EOF while parsing an object at line 1 column 1".into()
        ))
    );
    assert_eq!(
        fresh
            .handle_message("x", received(1), &clock)
            .unwrap_err()
            .to_text(),
        "invalid WebSocket JSON: expected value at line 1 column 1"
    );
    assert_eq!(
        fresh.handle_message(&update(10, 11, "1"), received(1), &clock),
        Err(AdapterError::UpdateBeforeSnapshot)
    );
    assert_eq!(
        fresh.handle_message(
            &SNAPSHOT.replace("order_book:1", "order_book:7"),
            received(1),
            &clock
        ),
        Err(AdapterError::UnexpectedMarketId {
            expected: 1,
            actual: 7
        })
    );
    assert!(matches!(
        fresh.handle_message(
            &SNAPSHOT.replace("\"order_book:1\"", "\"order_book:x\""),
            received(1),
            &clock
        ),
        Err(AdapterError::InvalidChannel(_))
    ));
    assert!(matches!(
        fresh.handle_message(
            &SNAPSHOT.replace("\"price\":\"102\"", "\"price\":\"x\""),
            received(1),
            &clock
        ),
        Err(AdapterError::InvalidPrice { .. })
    ));
    assert!(matches!(
        fresh.handle_message(
            &SNAPSHOT.replace("\"size\":\"2\"", "\"size\":\"x\""),
            received(1),
            &clock
        ),
        Err(AdapterError::InvalidQuantity { .. })
    ));
    assert!(matches!(
        fresh.handle_message(
            &SNAPSHOT.replace("\"99\"", "\"100.0\""),
            received(1),
            &clock
        ),
        Err(AdapterError::DuplicatePrice { .. })
    ));
    assert!(matches!(
        fresh.handle_message(&SNAPSHOT.replace("\"102\"", "\"98\""), received(1), &clock),
        Err(AdapterError::InvalidSnapshot(_))
    ));
}

#[test]
fn only_zeroes_delete_a_level() {
    for zero in ["0", "0.0", "000", "0.000"] {
        assert!(is_zero_decimal(zero), "{zero}");
    }
    for other in ["", ".", "0.", "0.01", "1", "-0", "0x"] {
        assert!(!is_zero_decimal(other), "{other}");
    }
}

#[test]
fn envelopes_are_read_with_defaults() {
    let envelope = WireEnvelope::parse(r#"{"type":"connected"}"#).unwrap();
    assert_eq!(envelope.kind, "connected");
    assert!(envelope.order_book.is_none());
    assert!(envelope.trades.is_empty());
    assert_eq!(envelope.nonce, None);
    assert!(WireEnvelope::parse("[1]").is_none());
    assert_eq!(market_id_behind("order_book:12", "order_book:"), Some(12));
    assert_eq!(market_id_behind("order_book:", "order_book:"), None);
    assert_eq!(market_id_behind("trade:4294967296", "trade:"), None);
}

#[test]
fn books_recover_through_a_new_subscription() {
    let mut adapter = whole_adapter();
    let clock = Clock(Cell::new(20));
    adapter.on_text(SNAPSHOT, received(1), &clock);
    let actions = adapter.on_text(&update(9, 11, "2"), received(2), &clock);
    assert_eq!(
        actions[1],
        AdapterAction::SendText(
            r#"{"channel":"order_book/1","type":"unsubscribe"}"#.to_owned()
        )
    );
    assert_eq!(
        actions[2],
        AdapterAction::SendText(r#"{"channel":"order_book/1","type":"subscribe"}"#.to_owned())
    );
    adapter.on_text(SNAPSHOT, received(3), &clock);
    assert!(adapter
        .book(MarketKey::new(0))
        .unwrap()
        .current()
        .is_some());
}

#[test]
fn lighter_resolution_names_its_faults() {
    let coins = vec![coin("BTC")];
    assert_eq!(
        resolve_markets(&coins, Err("refused".into()))
            .unwrap_err()
            .to_text(),
        "failed to load Lighter markets: refused"
    );
    let adapter = LighterAdapter::bootstrap(&coins, Ok(vec![market("perp", "active")]), 3);
    assert_eq!(adapter.unwrap().resolved_markets(), [(coin("BTC"), 1)]);
}

#[test]
fn trades_of_a_message_are_completed_one_after_the_other() {
    let mut adapter = whole_adapter();
    let clock = Clock(Cell::new(30));
    let actions = adapter.on_text(TRADES, received(20), &clock);
    let mut expected = 30;
    for action in &actions {
        if let AdapterAction::Publish(NormalizedMarketEvent::MarketTrade(trade)) = action {
            expected += 1;
            assert_eq!(trade.timestamps().local_receive(), received(20));
            assert_eq!(
                trade.timestamps().processing_completed(),
                received(expected)
            );
        }
    }
    assert!(expected > 30);
}

#[test]
fn repeated_fields_refuse_a_message_and_ignored_ones_never_do() {
    assert!(WireEnvelope::parse(r#"{"type":"a","type":"a"}"#).is_none());
    assert!(WireEnvelope::parse(r#"{"type":"a","nonce":1,"nonce":2}"#).is_none());
    assert!(WireEnvelope::parse(r#"{"type":"a","x":1,"x":2}"#).is_some());
    assert!(WireEnvelope::parse(r#" { "type" : "a" , "x" : 1e999 , "y" : "\ud800" } "#).is_some());
    assert!(WireEnvelope::parse(r#"{"type":"a","nonce":1e999}"#).is_none());
    assert!(WireEnvelope::parse(r#"{"type":"a","\ud800":1}"#).is_none());
    assert!(WireEnvelope::parse(r#"{"type":"a",}"#).is_none());
    assert!(WireEnvelope::parse(r#"{"type":"a"} 1"#).is_none());
    assert!(WireEnvelope::parse(r#"{"type":"a" "x":1}"#).is_none());
    assert!(WireEnvelope::parse(r#"{"type":"a","x":[1,]}"#).is_none());
    assert!(WireEnvelope::parse(r#"{"type":"a","order_book":null,"nonce":null}"#).is_some());
    assert!(WireEnvelope::parse(r#"["a","b",null,[],[],7]"#).is_some());
    assert!(WireEnvelope::parse(r#"["a","b",null,[],[]]"#).is_none());

    let deep = format!(
        "{{\"type\":\"a\",\"x\":{}{}}}",
        "[".repeat(500),
        "]".repeat(500)
    );
    assert!(WireEnvelope::parse(&deep).is_some());

    let repeated = SNAPSHOT.replace("\"begin_nonce\"", "\"nonce\":10,\"begin_nonce\"");
    assert_ne!(repeated, SNAPSHOT);
    assert!(WireEnvelope::parse(SNAPSHOT).is_some());
    assert!(WireEnvelope::parse(&repeated).is_none());
    let unknown = SNAPSHOT.replace("\"begin_nonce\"", "\"other\":1e999,\"begin_nonce\"");
    assert!(WireEnvelope::parse(&unknown).is_some());
}
