use market_capture::domain::{MarketCoin, Price, Quantity, Symbol, Venue};
use market_capture::market_data::{
    BookLevel, EventTimestamps, ExchangeTimeKind, ExchangeTimeObservation, ExchangeTimeUnit,
    LocalObservationTime, OrderBook, OrderBookSnapshot, OrderBookStatus, OrderCount,
    SnapshotValidationError,
};

fn level(price: &str) -> BookLevel {
    BookLevel::new(
        Price::from_str(price).unwrap(),
        Quantity::from_str("1").unwrap(),
        None,
    )
}

fn btc_perpetual() -> Symbol {
    Symbol::perpetual(MarketCoin::try_new("BTC").unwrap())
}

fn timestamps() -> EventTimestamps {
    EventTimestamps::new(
        vec![ExchangeTimeObservation::new(
            ExchangeTimeKind::EventTime,
            1,
            ExchangeTimeUnit::Unknown,
        )],
        LocalObservationTime::from_nanos_since_start(2),
        LocalObservationTime::from_nanos_since_start(3),
    )
}

fn attempt(
    bids: Vec<BookLevel>,
    asks: Vec<BookLevel>,
) -> Result<OrderBookSnapshot, SnapshotValidationError> {
    OrderBookSnapshot::try_new(
        Venue::Hyperliquid,
        btc_perpetual(),
        None,
        timestamps(),
        bids,
        asks,
    )
}

fn snapshot(bids: Vec<BookLevel>, asks: Vec<BookLevel>) -> OrderBookSnapshot {
    attempt(bids, asks).unwrap()
}

#[test]
fn preserves_unknown_exchange_time_without_conversion() {
    let observation = ExchangeTimeObservation::new(
        ExchangeTimeKind::TransactionTime,
        1_234_567,
        ExchangeTimeUnit::Unknown,
    );
    let timestamps = EventTimestamps::new(
        vec![observation],
        LocalObservationTime::from_nanos_since_start(10),
        LocalObservationTime::from_nanos_since_start(20),
    );

    assert_eq!(timestamps.exchange_times(), [observation]);
    assert_eq!(
        timestamps.exchange_times()[0].declared_unit(),
        ExchangeTimeUnit::Unknown
    );
}

#[test]
fn sorts_bids_and_asks_best_first() {
    let snapshot = snapshot(
        vec![level("99"), level("100")],
        vec![level("102"), level("101")],
    );

    assert_eq!(snapshot.bids()[0].price().to_text(), "100");
    assert_eq!(snapshot.asks()[0].price().to_text(), "101");
}

#[test]
fn rejects_duplicate_and_crossed_prices() {
    let duplicate = OrderBookSnapshot::try_new(
        Venue::Hyperliquid,
        btc_perpetual(),
        None,
        timestamps(),
        vec![level("100"), level("100.0")],
        vec![level("101")],
    );
    assert!(matches!(
        duplicate,
        Err(SnapshotValidationError::DuplicateBid(_))
    ));

    let crossed = OrderBookSnapshot::try_new(
        Venue::Hyperliquid,
        btc_perpetual(),
        None,
        timestamps(),
        vec![level("101")],
        vec![level("100")],
    );
    assert!(matches!(
        crossed,
        Err(SnapshotValidationError::LockedOrCrossed { .. })
    ));
}

#[test]
fn unhealthy_book_does_not_expose_stale_snapshot_as_current() {
    let mut book = OrderBook::new(Venue::Hyperliquid, btc_perpetual());
    book.replace(snapshot(vec![level("100")], vec![level("101")]))
        .unwrap();
    assert!(book.current().is_some());

    book.mark_unhealthy();

    assert_eq!(book.status(), OrderBookStatus::Unhealthy);
    assert!(book.current().is_none());
    assert!(book.last_snapshot().is_some());
}

#[test]
fn a_fresh_snapshot_makes_an_unhealthy_book_healthy() {
    let mut book = OrderBook::new(Venue::Hyperliquid, btc_perpetual());
    assert_eq!(book.status(), OrderBookStatus::AwaitingSnapshot);
    book.mark_unhealthy();
    assert!(book.current().is_none());
    book.replace(snapshot(vec![level("100")], vec![level("101")]))
        .unwrap();
    assert_eq!(book.status(), OrderBookStatus::Healthy);
    assert!(book.current().is_some());
}

#[test]
fn every_reason_against_a_snapshot_is_named() {
    let empty_bids = attempt(vec![], vec![level("101")]).unwrap_err();
    assert_eq!(empty_bids, SnapshotValidationError::EmptyBids);
    assert_eq!(empty_bids.to_text(), "snapshot has no bids");
    let empty_asks = attempt(vec![level("100")], vec![]).unwrap_err();
    assert_eq!(empty_asks, SnapshotValidationError::EmptyAsks);
    assert_eq!(empty_asks.to_text(), "snapshot has no asks");
    let duplicate = attempt(vec![level("100")], vec![level("101"), level("101.00")]).unwrap_err();
    assert!(matches!(duplicate, SnapshotValidationError::DuplicateAsk(_)));
    assert_eq!(duplicate.to_text(), "duplicate ask price 101");
    let locked = attempt(vec![level("100.5")], vec![level("100.50")]).unwrap_err();
    assert_eq!(
        locked.to_text(),
        "snapshot is locked or crossed: best bid 100.5, best ask 100.5"
    );
}

#[test]
fn a_snapshot_does_not_depend_on_the_order_of_its_levels() {
    let rising = snapshot(
        vec![level("98"), level("99"), level("100")],
        vec![level("101"), level("102"), level("103")],
    );
    let mixed = snapshot(
        vec![level("100"), level("98"), level("99")],
        vec![level("103"), level("101"), level("102")],
    );
    assert_eq!(rising, mixed);
}

#[test]
fn a_book_takes_only_snapshots_of_its_market() {
    let mut book = OrderBook::new(Venue::Lighter, btc_perpetual());
    let error = book
        .replace(snapshot(vec![level("100")], vec![level("101")]))
        .unwrap_err();
    assert_eq!(
        error.to_text(),
        "snapshot identity mismatch: expected Lighter/Perpetual(MarketCoin(\"BTC\")), got Hyperliquid/Perpetual(MarketCoin(\"BTC\"))"
    );
    assert!(book.last_snapshot().is_none());
}

#[test]
fn order_counts_are_positive() {
    assert!(OrderCount::new(0).is_none());
    assert_eq!(OrderCount::new(7).unwrap().get(), 7);
}

#[test]
fn local_times_are_ordered_by_their_nanoseconds() {
    let early = LocalObservationTime::from_nanos_since_start(3);
    let late = LocalObservationTime::from_nanos_since_start(4);
    assert!(early < late);
    assert!(late > early);
    assert!(early <= early);
    assert_eq!(early.cmp(&late), early.partial_cmp(&late).unwrap());
    assert_eq!(early, LocalObservationTime::from_nanos_since_start(3));
    assert_eq!(late.nanos_since_start(), 4);
}
