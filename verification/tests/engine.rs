use market_capture::domain::{MarketCoin, Price, Quantity, Symbol, Venue};
use market_capture::engine::transcript::hash_event;
use market_capture::engine::{BestBidOfferStatus, EngineError, MarketDataEngine};
use market_capture::market_data::{
    BestBidOffer, BookLevel, EventTimestamps, LocalObservationTime, MarketDataUnavailable,
    NormalizedMarketEvent, OrderBookSnapshot, OrderBookStatus, TradeStreamResumed,
    UnavailabilityCategory,
};

fn resumed(nanos: u64) -> NormalizedMarketEvent {
    NormalizedMarketEvent::TradeStreamResumed(TradeStreamResumed::new(
        Venue::Aster,
        MarketCoin::try_new("BTC").unwrap(),
        LocalObservationTime::from_nanos_since_start(nanos),
    ))
}

#[test]
fn identical_inputs_produce_identical_digest() {
    let mut first = MarketDataEngine::new();
    let mut second = MarketDataEngine::new();
    for sequence in 1..=2 {
        let event = resumed(sequence);
        first.process(sequence, &event).unwrap();
        second.process(sequence, &event).unwrap();
    }

    assert_eq!(first.report(), second.report());
    assert_eq!(first.report().events_processed, 2);
}

#[test]
fn lib_rejects_non_contiguous_capture_sequence() {
    let mut engine = MarketDataEngine::new();
    let error = engine.process(2, &resumed(1)).unwrap_err();

    assert_eq!(
        error,
        EngineError::CaptureSequenceMismatch {
            expected: 1,
            actual: 2
        }
    );
    assert_eq!(engine.report().events_processed, 0);
}

fn bbo_fixture(receive_time: u64, bid_price: &str) -> BestBidOffer {
    let coin = MarketCoin::try_new("BTC").unwrap();
    BestBidOffer::new(
        Venue::Hyperliquid,
        Symbol::perpetual(coin),
        EventTimestamps::new(
            Vec::new(),
            LocalObservationTime::from_nanos_since_start(receive_time),
            LocalObservationTime::from_nanos_since_start(receive_time),
        ),
        Some(BookLevel::new(
            Price::from_str(bid_price).unwrap(),
            Quantity::from_str("1").unwrap(),
            None,
        )),
        Some(BookLevel::new(
            Price::from_str("101").unwrap(),
            Quantity::from_str("2").unwrap(),
            None,
        )),
    )
}

fn snapshot_fixture(receive_time: u64) -> OrderBookSnapshot {
    let coin = MarketCoin::try_new("BTC").unwrap();
    OrderBookSnapshot::try_new(
        Venue::Hyperliquid,
        Symbol::perpetual(coin),
        None,
        EventTimestamps::new(
            Vec::new(),
            LocalObservationTime::from_nanos_since_start(receive_time),
            LocalObservationTime::from_nanos_since_start(receive_time),
        ),
        vec![BookLevel::new(
            Price::from_str("100").unwrap(),
            Quantity::from_str("1").unwrap(),
            None,
        )],
        vec![BookLevel::new(
            Price::from_str("101").unwrap(),
            Quantity::from_str("2").unwrap(),
            None,
        )],
    )
    .unwrap()
}

#[test]
fn bbo_is_available_only_when_fresh_and_exactly_matches_l2_top() {
    let mut engine = MarketDataEngine::new();
    engine
        .process(
            1,
            &NormalizedMarketEvent::OrderBookSnapshot(snapshot_fixture(100)),
        )
        .unwrap();
    engine
        .process(
            2,
            &NormalizedMarketEvent::BestBidOfferUpdated(bbo_fixture(200, "100")),
        )
        .unwrap();
    assert_eq!(
        engine.report().best_bid_offers[0].status,
        BestBidOfferStatus::Available
    );

    engine
        .process(
            3,
            &NormalizedMarketEvent::BestBidOfferUpdated(bbo_fixture(300, "102")),
        )
        .unwrap();
    assert_eq!(
        engine.report().best_bid_offers[0].status,
        BestBidOfferStatus::Unknown
    );

    engine
        .process(
            4,
            &NormalizedMarketEvent::BestBidOfferUpdated(bbo_fixture(500_000_101, "100")),
        )
        .unwrap();
    assert_eq!(
        engine.report().best_bid_offers[0].status,
        BestBidOfferStatus::Unknown
    );
}

#[test]
fn digests_cover_every_field_of_the_events() {
    let mut engine = MarketDataEngine::new();
    assert_eq!(
        engine.report().event_digest_sha256,
        "e3b0c44298fc1c149afbf4c8996fb92427ae41e4649b934ca495991b7852b855"
    );
    engine.process(1, &resumed(1)).unwrap();
    assert_eq!(
        engine.report().event_digest_sha256,
        "baa7928f9e6e45f6c6654606e708932050946f80aca024ac98fe790b9ead6298"
    );
    engine.process(2, &resumed(2)).unwrap();
    assert_eq!(
        engine.report().event_digest_sha256,
        "66cb930488150844c2201732e15eb345222e4b1f4bf4d387db7dd4bb6a8468fd"
    );
    assert_eq!(engine.report().last_capture_sequence, Some(2));

    let mut books = MarketDataEngine::new();
    books
        .process(
            1,
            &NormalizedMarketEvent::OrderBookSnapshot(snapshot_fixture(100)),
        )
        .unwrap();
    assert_eq!(
        books.report().event_digest_sha256,
        "d7d8bc29640ffe716ed07ca7f0a424e695a4c16c2bc1bb3cfbafbd571cf69c73"
    );
}

#[test]
fn an_unavailable_book_is_reported_unhealthy() {
    let mut engine = MarketDataEngine::new();
    engine
        .process(
            1,
            &NormalizedMarketEvent::OrderBookSnapshot(snapshot_fixture(100)),
        )
        .unwrap();
    let report = engine.report();
    assert_eq!(report.order_books[0].status, OrderBookStatus::Healthy);
    assert_eq!(report.order_books[0].best_bid.as_deref(), Some("100"));
    assert_eq!(report.order_books[0].best_ask.as_deref(), Some("101"));
    engine
        .process(
            2,
            &NormalizedMarketEvent::OrderBookUnavailable(MarketDataUnavailable::new(
                Venue::Hyperliquid,
                MarketCoin::try_new("BTC").unwrap(),
                LocalObservationTime::from_nanos_since_start(200),
                UnavailabilityCategory::Disconnected,
                "lost".to_owned(),
            )),
        )
        .unwrap();
    let report = engine.report();
    assert_eq!(report.order_books[0].status, OrderBookStatus::Unhealthy);
    assert_eq!(report.order_books[0].best_bid.as_deref(), Some("100"));
}

#[test]
fn engine_errors_have_texts() {
    assert_eq!(
        EngineError::CaptureSequenceMismatch {
            expected: 1,
            actual: 2
        }
        .to_text(),
        "non-contiguous Capture Sequence: expected 1, received 2"
    );
    assert_eq!(
        EngineError::CaptureSequenceOverflow.to_text(),
        "Capture Sequence overflow"
    );
}

#[test]
fn every_part_of_an_event_enters_its_bytes() {
    let unavailable = |diagnostic: &str| {
        NormalizedMarketEvent::TradeStreamUnavailable(MarketDataUnavailable::new(
            Venue::Aster,
            MarketCoin::try_new("BTC").unwrap(),
            LocalObservationTime::from_nanos_since_start(1),
            UnavailabilityCategory::Other,
            diagnostic.into(),
        ))
    };
    let all = [
        hash_event(1, &resumed(1)),
        hash_event(2, &resumed(1)),
        hash_event(1, &resumed(2)),
        hash_event(1, &unavailable("")),
        hash_event(1, &unavailable("a")),
    ];
    for (i, left) in all.iter().enumerate() {
        for right in &all[i + 1..] {
            assert_ne!(left, right);
        }
    }
    assert_eq!(hash_event(1, &resumed(1)), all[0]);
}
