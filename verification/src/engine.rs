//! The processing path that live capture and replay share.
use vstd::prelude::*;

pub mod agreement;
pub mod distinct;
pub mod transcript;

use crate::domain::{MarketCoin, Symbol, Venue};
use crate::engine::transcript::{event_bytes, hash_event, venue_rank};
use crate::hashing::{hashed_bytes, sha256, RunningDigest};
use crate::keyed::{
    in_market_order, keyed, lemma_keyed_absent, lemma_keyed_at, lemma_keyed_insert,
    lemma_keyed_update, lemma_market_order, lists_market, market_before, MarketId,
};
use crate::market_data::event::{BboView, EventView};
use crate::market_data::order_book::{price_text, BookView, SnapshotView};
use crate::market_data::{
    BestBidOffer, MarketDataUnavailable, NormalizedMarketEvent, OrderBook, OrderBookSnapshot,
    OrderBookStatus,
};
use crate::text::{decimal, decimal_text, encode_hex, hex, optional_text, same_text, sorts_before};

verus! {

/// How far apart a best bid and offer and a book may have been received to be
/// compared, in nanoseconds.
pub const FRESHNESS_NANOS: u64 = 500_000_000;

/// Whether a best bid and offer agrees with the order book.
#[derive(Clone, Copy, Debug, Eq, PartialEq, Structural)]
pub enum BestBidOfferStatus {
    AwaitingFirstUpdate,
    Available,
    Unknown,
}

#[derive(Debug, Eq, PartialEq)]
pub struct BestBidOfferReport {
    pub venue: Venue,
    pub market_coin: MarketCoin,
    pub status: BestBidOfferStatus,
    pub best_bid: Option<String>,
    pub best_ask: Option<String>,
}

#[derive(Debug, Eq, PartialEq)]
pub struct OrderBookReport {
    pub venue: Venue,
    pub market_coin: MarketCoin,
    pub status: OrderBookStatus,
    pub source_sequence: Option<u64>,
    pub best_bid: Option<String>,
    pub best_ask: Option<String>,
}

#[derive(Debug, Eq, PartialEq)]
pub struct EngineReport {
    pub events_processed: u64,
    pub last_capture_sequence: Option<u64>,
    pub event_digest_sha256: String,
    pub order_books: Vec<OrderBookReport>,
    pub best_bid_offers: Vec<BestBidOfferReport>,
}

#[derive(Clone, Copy, Debug, Eq, PartialEq, Structural)]
pub enum EngineError {
    CaptureSequenceMismatch { expected: u64, actual: u64 },
    CaptureSequenceOverflow,
}

#[derive(Debug)]
struct BestBidOfferState {
    value: BestBidOffer,
    status: BestBidOfferStatus,
}

/// The market-data state that a run of events builds up.
#[derive(Debug)]
pub struct MarketDataEngine {
    next_capture_sequence: u64,
    events_processed: u64,
    digest: RunningDigest,
    order_books: Vec<OrderBook>,
    best_bid_offers: Vec<BestBidOfferState>,
}

/// The best bid and offer of a market and whether the book confirms it.
pub struct BboStateView {
    pub value: BboView,
    pub status: BestBidOfferStatus,
}

/// The model of `MarketDataEngine`.
pub struct EngineView {
    pub next_capture_sequence: u64,
    pub events_processed: u64,
    pub transcript: Seq<u8>,
    pub order_books: Map<MarketId, BookView>,
    pub best_bid_offers: Map<MarketId, BboStateView>,
}

/// The distance of two instants.
pub open spec fn distance(left: u64, right: u64) -> int {
    if left < right {
        right - left
    } else {
        left - right
    }
}

/// Whether the book of the market confirms a best bid and offer: both sides are
/// the tops of the current book, received at most `FRESHNESS_NANOS` apart.
pub open spec fn confirmed(books: Map<MarketId, BookView>, bbo: BboView) -> bool {
    let market = (bbo.venue, bbo.coin);
    &&& books.dom().contains(market)
    &&& books[market].current() matches Some(snapshot)
    &&& distance(snapshot.timestamps.local_receive.0, bbo.timestamps.local_receive.0)
        <= FRESHNESS_NANOS
    &&& bbo.bid == Some(snapshot.bids[0])
    &&& bbo.ask == Some(snapshot.asks[0])
}

/// The status of a best bid and offer beside the books.
pub open spec fn bbo_status_of(
    books: Map<MarketId, BookView>,
    bbo: BboView,
) -> BestBidOfferStatus {
    if confirmed(books, bbo) {
        BestBidOfferStatus::Available
    } else {
        BestBidOfferStatus::Unknown
    }
}

impl EngineView {
    /// An engine that has processed nothing.
    pub open spec fn initial() -> EngineView {
        EngineView {
            next_capture_sequence: 1,
            events_processed: 0,
            transcript: Seq::empty(),
            order_books: Map::empty(),
            best_bid_offers: Map::empty(),
        }
    }

    /// The book of a market, or the one it starts with.
    pub open spec fn book(self, market: MarketId) -> BookView {
        if self.order_books.dom().contains(market) {
            self.order_books[market]
        } else {
            BookView::awaiting(market.0, market.1)
        }
    }

    /// The best bids and offers after a book of a market changed.
    pub open spec fn reconciled(
        books: Map<MarketId, BookView>,
        offers: Map<MarketId, BboStateView>,
        market: MarketId,
    ) -> Map<MarketId, BboStateView> {
        if offers.dom().contains(market) {
            offers.insert(
                market,
                BboStateView {
                    value: offers[market].value,
                    status: bbo_status_of(books, offers[market].value),
                },
            )
        } else {
            offers
        }
    }

    /// The order books after an event.
    pub open spec fn books_after(self, event: EventView) -> Map<MarketId, BookView> {
        let market = (event.venue(), event.coin());
        match event {
            EventView::OrderBookSnapshot(snapshot) => self.order_books.insert(
                market,
                self.book(market).replaced(snapshot),
            ),
            EventView::OrderBookUnavailable(_) => self.order_books.insert(
                market,
                self.book(market).unhealthy(),
            ),
            _ => self.order_books,
        }
    }

    /// The best bids and offers after an event.
    pub open spec fn offers_after(self, event: EventView) -> Map<MarketId, BboStateView> {
        let market = (event.venue(), event.coin());
        match event {
            EventView::OrderBookSnapshot(_) => EngineView::reconciled(
                self.books_after(event),
                self.best_bid_offers,
                market,
            ),
            EventView::BestBidOfferUpdated(bbo) => self.best_bid_offers.insert(
                market,
                BboStateView { value: bbo, status: bbo_status_of(self.order_books, bbo) },
            ),
            _ => self.best_bid_offers,
        }
    }

    /// The engine after it processed an event with the sequence it expected.
    pub open spec fn step(self, event: EventView) -> EngineView {
        EngineView {
            next_capture_sequence: if self.next_capture_sequence < u64::MAX {
                (self.next_capture_sequence + 1) as u64
            } else {
                self.next_capture_sequence
            },
            events_processed: if self.events_processed < u64::MAX {
                (self.events_processed + 1) as u64
            } else {
                self.events_processed
            },
            transcript: self.transcript + event_bytes(self.next_capture_sequence, event),
            order_books: self.books_after(event),
            best_bid_offers: self.offers_after(event),
        }
    }
}

/// The model of `OrderBookReport`.
pub struct BookReportView {
    pub venue: Venue,
    pub coin: Seq<char>,
    pub status: OrderBookStatus,
    pub source_sequence: Option<u64>,
    pub best_bid: Option<Seq<char>>,
    pub best_ask: Option<Seq<char>>,
}

/// The model of `BestBidOfferReport`.
pub struct OfferReportView {
    pub venue: Venue,
    pub coin: Seq<char>,
    pub status: BestBidOfferStatus,
    pub best_bid: Option<Seq<char>>,
    pub best_ask: Option<Seq<char>>,
}

/// The model of `EngineReport`.
pub struct EngineReportView {
    pub events_processed: u64,
    pub last_capture_sequence: Option<u64>,
    pub event_digest_sha256: Seq<char>,
    pub order_books: Seq<BookReportView>,
    pub best_bid_offers: Seq<OfferReportView>,
}

impl View for OrderBookReport {
    type V = BookReportView;

    open spec fn view(&self) -> BookReportView {
        BookReportView {
            venue: self.venue,
            coin: self.market_coin@,
            status: self.status,
            source_sequence: self.source_sequence,
            best_bid: optional_text(self.best_bid),
            best_ask: optional_text(self.best_ask),
        }
    }
}

impl View for BestBidOfferReport {
    type V = OfferReportView;

    open spec fn view(&self) -> OfferReportView {
        OfferReportView {
            venue: self.venue,
            coin: self.market_coin@,
            status: self.status,
            best_bid: optional_text(self.best_bid),
            best_ask: optional_text(self.best_ask),
        }
    }
}

impl View for EngineReport {
    type V = EngineReportView;

    open spec fn view(&self) -> EngineReportView {
        EngineReportView {
            events_processed: self.events_processed,
            last_capture_sequence: self.last_capture_sequence,
            event_digest_sha256: self.event_digest_sha256@,
            order_books: self.order_books@.map_values(|report: OrderBookReport| report@),
            best_bid_offers: self.best_bid_offers@.map_values(
                |report: BestBidOfferReport| report@,
            ),
        }
    }
}

/// What a report says of a book.
pub open spec fn book_report(book: BookView) -> BookReportView {
    BookReportView {
        venue: book.venue,
        coin: book.coin,
        status: book.status,
        source_sequence: match book.last_snapshot {
            Some(snapshot) => snapshot.source_sequence,
            None => None,
        },
        best_bid: match book.last_snapshot {
            Some(snapshot) => Some(price_text(snapshot.bids[0].price)),
            None => None,
        },
        best_ask: match book.last_snapshot {
            Some(snapshot) => Some(price_text(snapshot.asks[0].price)),
            None => None,
        },
    }
}

/// What a report says of a best bid and offer.
pub open spec fn offer_report(state: BboStateView) -> OfferReportView {
    OfferReportView {
        venue: state.value.venue,
        coin: state.value.coin,
        status: state.status,
        best_bid: match state.value.bid {
            Some(level) => Some(price_text(level.price)),
            None => None,
        },
        best_ask: match state.value.ask {
            Some(level) => Some(price_text(level.price)),
            None => None,
        },
    }
}

/// The list names the markets of the map, each once and in market order.
pub open spec fn lists_markets<T>(map: Map<MarketId, T>, markets: Seq<MarketId>) -> bool {
    &&& forall|i: int, j: int|
        0 <= i < j < markets.len() ==> market_before(#[trigger] markets[i], #[trigger] markets[j])
    &&& forall|market: MarketId| #[trigger] map.dom().contains(market) <==> markets.contains(market)
}

/// Whether a report is the one to be given in a state.
pub open spec fn reports(engine: EngineView, report: EngineReportView) -> bool {
    &&& report.events_processed == engine.events_processed
    &&& report.last_capture_sequence == if engine.events_processed > 0 {
        Some((engine.next_capture_sequence - 1) as u64)
    } else {
        None
    }
    &&& report.event_digest_sha256 == hex(sha256(engine.transcript))
    &&& lists_markets(
        engine.order_books,
        report.order_books.map_values(|book: BookReportView| (book.venue, book.coin)),
    )
    &&& forall|i: int|
        0 <= i < report.order_books.len() ==> {
            let book = #[trigger] report.order_books[i];
            book == book_report(engine.order_books[(book.venue, book.coin)])
        }
    &&& lists_markets(
        engine.best_bid_offers,
        report.best_bid_offers.map_values(|offer: OfferReportView| (offer.venue, offer.coin)),
    )
    &&& forall|i: int|
        0 <= i < report.best_bid_offers.len() ==> {
            let offer = #[trigger] report.best_bid_offers[i];
            offer == offer_report(engine.best_bid_offers[(offer.venue, offer.coin)])
        }
}

spec fn book_items(books: Seq<OrderBook>) -> Seq<(MarketId, BookView)> {
    Seq::new(books.len(), |i: int| ((books[i]@.venue, books[i]@.coin), books[i]@))
}

spec fn offer_items(offers: Seq<BestBidOfferState>) -> Seq<(MarketId, BboStateView)> {
    Seq::new(
        offers.len(),
        |i: int|
            (
                (offers[i].value@.venue, offers[i].value@.coin),
                BboStateView { value: offers[i].value@, status: offers[i].status },
            ),
    )
}

impl View for MarketDataEngine {
    type V = EngineView;

    closed spec fn view(&self) -> EngineView {
        EngineView {
            next_capture_sequence: self.next_capture_sequence,
            events_processed: self.events_processed,
            transcript: hashed_bytes(self.digest),
            order_books: keyed(book_items(self.order_books@)),
            best_bid_offers: keyed(offer_items(self.best_bid_offers@)),
        }
    }
}

/// Whether the market stands before the one given by venue and coin.
fn stands_before(left_venue: Venue, left: &str, right_venue: Venue, right: &str) -> (before: bool)
    ensures
        before == market_before((left_venue, left@), (right_venue, right@)),
{
    let left_rank: u8 = venue_rank(left_venue);
    let right_rank: u8 = venue_rank(right_venue);
    left_rank < right_rank || (left_rank == right_rank && sorts_before(left, right))
}

/// Where the book of a market stands, or would stand, and whether it is there.
fn locate_book(books: &Vec<OrderBook>, venue: Venue, coin: &str) -> (place: (usize, bool))
    requires
        in_market_order(book_items(books@)),
    ensures
        place.0 <= books.len(),
        forall|j: int|
            0 <= j < place.0 ==> market_before((#[trigger] book_items(books@)[j]).0, (venue, coin@)),
        place.1 ==> place.0 < books.len() && book_items(books@)[place.0 as int].0 == (venue, coin@),
        !place.1 ==> forall|j: int|
            place.0 <= j < books.len() ==> market_before(
                (venue, coin@),
                (#[trigger] book_items(books@)[j]).0,
            ),
{
    let mut i: usize = 0;
    while i < books.len()
        invariant
            i <= books.len(),
            in_market_order(book_items(books@)),
            forall|j: int|
                0 <= j < i ==> market_before((#[trigger] book_items(books@)[j]).0, (venue, coin@)),
        decreases books.len() - i,
    {
        let book: &OrderBook = &books[i];
        let other: &str = book.symbol().market_coin().as_str();
        proof {
            lemma_market_order(
                book_items(books@)[i as int].0,
                (venue, coin@),
                book_items(books@)[i as int].0,
            );
        }
        if !stands_before(book.venue(), other, venue, coin) {
            let found: bool = book.venue() == venue && same_text(other, coin);
            proof {
                if !found {
                    assert forall|j: int| i <= j < books.len() implies market_before(
                        (venue, coin@),
                        (#[trigger] book_items(books@)[j]).0,
                    ) by {
                        if j > i {
                            lemma_market_order(
                                (venue, coin@),
                                book_items(books@)[i as int].0,
                                book_items(books@)[j].0,
                            );
                        }
                    }
                }
            }
            return (i, found);
        }
        i = i + 1;
    }
    (i, false)
}

/// Where the best bid and offer of a market stands, or would stand, and whether
/// it is there.
fn locate_offer(offers: &Vec<BestBidOfferState>, venue: Venue, coin: &str) -> (place: (usize, bool))
    requires
        in_market_order(offer_items(offers@)),
    ensures
        place.0 <= offers.len(),
        forall|j: int|
            0 <= j < place.0 ==> market_before(
                (#[trigger] offer_items(offers@)[j]).0,
                (venue, coin@),
            ),
        place.1 ==> place.0 < offers.len() && offer_items(offers@)[place.0 as int].0 == (
            venue,
            coin@,
        ),
        !place.1 ==> forall|j: int|
            place.0 <= j < offers.len() ==> market_before(
                (venue, coin@),
                (#[trigger] offer_items(offers@)[j]).0,
            ),
{
    let mut i: usize = 0;
    while i < offers.len()
        invariant
            i <= offers.len(),
            in_market_order(offer_items(offers@)),
            forall|j: int|
                0 <= j < i ==> market_before((#[trigger] offer_items(offers@)[j]).0, (venue, coin@)),
        decreases offers.len() - i,
    {
        let bbo: &BestBidOffer = &offers[i].value;
        let other: &str = bbo.symbol().market_coin().as_str();
        proof {
            lemma_market_order(
                offer_items(offers@)[i as int].0,
                (venue, coin@),
                offer_items(offers@)[i as int].0,
            );
        }
        if !stands_before(bbo.venue(), other, venue, coin) {
            let found: bool = bbo.venue() == venue && same_text(other, coin);
            proof {
                if !found {
                    assert forall|j: int| i <= j < offers.len() implies market_before(
                        (venue, coin@),
                        (#[trigger] offer_items(offers@)[j]).0,
                    ) by {
                        if j > i {
                            lemma_market_order(
                                (venue, coin@),
                                offer_items(offers@)[i as int].0,
                                offer_items(offers@)[j].0,
                            );
                        }
                    }
                }
            }
            return (i, found);
        }
        i = i + 1;
    }
    (i, false)
}

impl MarketDataEngine {
    /// Both lists name each market once, in market order.
    pub closed spec fn well_formed(&self) -> bool {
        &&& in_market_order(book_items(self.order_books@))
        &&& in_market_order(offer_items(self.best_bid_offers@))
        &&& self.next_capture_sequence > 0
    }

    pub fn new() -> (engine: Self)
        ensures
            engine.well_formed(),
            engine@ == EngineView::initial(),
    {
        let engine = MarketDataEngine {
            next_capture_sequence: 1,
            events_processed: 0,
            digest: RunningDigest::new(),
            order_books: Vec::new(),
            best_bid_offers: Vec::new(),
        };
        assert(engine@.order_books =~= Map::empty());
        assert(engine@.best_bid_offers =~= Map::empty());
        engine
    }

    /// Applies an event that carries the next capture sequence.
    pub fn process(&mut self, capture_sequence: u64, event: &NormalizedMarketEvent) -> (result:
        Result<(), EngineError>)
        requires
            old(self).well_formed(),
        ensures
            final(self).well_formed(),
            capture_sequence != old(self)@.next_capture_sequence ==> final(self)@ == old(self)@
                && result == Err::<(), EngineError>(
                EngineError::CaptureSequenceMismatch {
                    expected: old(self)@.next_capture_sequence,
                    actual: capture_sequence,
                },
            ),
            capture_sequence == old(self)@.next_capture_sequence ==> final(self)@ == old(
                self,
            )@.step(event@) && result == if capture_sequence == u64::MAX {
                Err::<(), EngineError>(EngineError::CaptureSequenceOverflow)
            } else {
                Ok::<(), EngineError>(())
            },
    {
        if capture_sequence != self.next_capture_sequence {
            return Err(
                EngineError::CaptureSequenceMismatch {
                    expected: self.next_capture_sequence,
                    actual: capture_sequence,
                },
            );
        }
        let bytes: Vec<u8> = hash_event(capture_sequence, event);
        self.digest.update(bytes.as_slice());
        match event {
            NormalizedMarketEvent::OrderBookSnapshot(snapshot) => {
                self.install_snapshot(snapshot);
                self.reconcile_bbo(snapshot.venue(), snapshot.symbol().market_coin());
            },
            NormalizedMarketEvent::BestBidOfferUpdated(bbo) => {
                self.install_best_bid_offer(bbo);
            },
            NormalizedMarketEvent::OrderBookUnavailable(unavailable) => {
                self.invalidate_book(unavailable);
            },
            NormalizedMarketEvent::MarketTrade(_) => {},
            NormalizedMarketEvent::TradeStreamUnavailable(_) => {},
            NormalizedMarketEvent::TradeStreamResumed(_) => {},
        }
        self.events_processed = self.events_processed.saturating_add(1);
        match capture_sequence.checked_add(1) {
            Some(next) => {
                self.next_capture_sequence = next;
                Ok(())
            },
            None => Err(EngineError::CaptureSequenceOverflow),
        }
    }

    fn install_snapshot(&mut self, snapshot: &OrderBookSnapshot)
        requires
            old(self).well_formed(),
        ensures
            final(self).well_formed(),
            final(self)@ == (EngineView {
                order_books: old(self)@.books_after(EventView::OrderBookSnapshot(snapshot@)),
                ..old(self)@
            }),
    {
        let venue: Venue = snapshot.venue();
        let (index, found): (usize, bool) = locate_book(
            &self.order_books,
            venue,
            snapshot.symbol().market_coin().as_str(),
        );
        let ghost market = (venue, snapshot@.coin);
        let ghost before = book_items(self.order_books@);
        proof {
            if found {
                lemma_keyed_at(before, index as int);
            } else {
                lemma_keyed_absent(before, index as int, market);
            }
        }
        let mut book: OrderBook = if found {
            self.order_books.remove(index)
        } else {
            OrderBook::new(venue, snapshot.symbol().clone())
        };
        let ghost book_before = book@;
        let _ = book.replace(snapshot.clone());
        let ghost book_after = book@;
        self.order_books.insert(index, book);
        proof {
            if found {
                lemma_keyed_update(before, index as int, book_after);
                assert(book_items(self.order_books@) =~= before.update(
                    index as int,
                    (market, book_after),
                ));
            } else {
                lemma_keyed_insert(before, index as int, market, book_after);
                assert(book_items(self.order_books@) =~= before.insert(
                    index as int,
                    (market, book_after),
                ));
            }
        }
    }

    fn invalidate_book(&mut self, unavailable: &MarketDataUnavailable)
        requires
            old(self).well_formed(),
        ensures
            final(self).well_formed(),
            final(self)@ == (EngineView {
                order_books: old(self)@.books_after(EventView::OrderBookUnavailable(unavailable@)),
                ..old(self)@
            }),
    {
        let venue: Venue = unavailable.venue();
        let (index, found): (usize, bool) = locate_book(
            &self.order_books,
            venue,
            unavailable.market_coin().as_str(),
        );
        let ghost market = (venue, unavailable@.coin);
        let ghost before = book_items(self.order_books@);
        proof {
            if found {
                lemma_keyed_at(before, index as int);
            } else {
                lemma_keyed_absent(before, index as int, market);
            }
        }
        let mut book: OrderBook = if found {
            self.order_books.remove(index)
        } else {
            OrderBook::new(venue, Symbol::perpetual(unavailable.market_coin().clone()))
        };
        book.mark_unhealthy();
        let ghost book_after = book@;
        self.order_books.insert(index, book);
        proof {
            if found {
                lemma_keyed_update(before, index as int, book_after);
                assert(book_items(self.order_books@) =~= before.update(
                    index as int,
                    (market, book_after),
                ));
            } else {
                lemma_keyed_insert(before, index as int, market, book_after);
                assert(book_items(self.order_books@) =~= before.insert(
                    index as int,
                    (market, book_after),
                ));
            }
        }
    }

    fn install_best_bid_offer(&mut self, bbo: &BestBidOffer)
        requires
            old(self).well_formed(),
        ensures
            final(self).well_formed(),
            final(self)@ == (EngineView {
                best_bid_offers: old(self)@.offers_after(EventView::BestBidOfferUpdated(bbo@)),
                ..old(self)@
            }),
    {
        let status: BestBidOfferStatus = self.bbo_status(bbo);
        let (index, found): (usize, bool) = locate_offer(
            &self.best_bid_offers,
            bbo.venue(),
            bbo.symbol().market_coin().as_str(),
        );
        let ghost market = (bbo@.venue, bbo@.coin);
        let ghost before = offer_items(self.best_bid_offers@);
        let ghost state_after = BboStateView { value: bbo@, status };
        if found {
            let _ = self.best_bid_offers.remove(index);
        }
        self.best_bid_offers.insert(index, BestBidOfferState { value: bbo.clone(), status });
        proof {
            if found {
                lemma_keyed_update(before, index as int, state_after);
                assert(offer_items(self.best_bid_offers@) =~= before.update(
                    index as int,
                    (market, state_after),
                ));
            } else {
                lemma_keyed_insert(before, index as int, market, state_after);
                assert(offer_items(self.best_bid_offers@) =~= before.insert(
                    index as int,
                    (market, state_after),
                ));
            }
        }
    }

    /// The state of the engine, markets in order.
    pub fn report(&self) -> (report: EngineReport)
        requires
            self.well_formed(),
        ensures
            reports(self@, report@),
    {
        let order_books: Vec<OrderBookReport> = self.report_books();
        let best_bid_offers: Vec<BestBidOfferReport> = self.report_offers();
        let last_capture_sequence: Option<u64> = if self.events_processed > 0 {
            Some(self.next_capture_sequence - 1)
        } else {
            None
        };
        let digest: [u8; 32] = self.digest.finish();
        let report = EngineReport {
            events_processed: self.events_processed,
            last_capture_sequence,
            event_digest_sha256: encode_hex(digest.as_slice()),
            order_books,
            best_bid_offers,
        };
        report
    }

    fn report_books(&self) -> (reported: Vec<OrderBookReport>)
        requires
            self.well_formed(),
        ensures
            lists_markets(
                self@.order_books,
                reported@.map_values(|report: OrderBookReport| report@).map_values(
                    |book: BookReportView| (book.venue, book.coin),
                ),
            ),
            forall|i: int|
                0 <= i < reported@.len() ==> (#[trigger] reported@[i])@ == book_report(
                    self@.order_books[(reported@[i]@.venue, reported@[i]@.coin)],
                ),
    {
        let ghost items = book_items(self.order_books@);
        let mut reported: Vec<OrderBookReport> = Vec::new();
        let mut i: usize = 0;
        while i < self.order_books.len()
            invariant
                i <= self.order_books.len(),
                items == book_items(self.order_books@),
                reported@.len() == i,
                forall|j: int| 0 <= j < i ==> (#[trigger] reported@[j])@ == book_report(items[j].1),
            decreases self.order_books.len() - i,
        {
            let book: &OrderBook = &self.order_books[i];
            let report = match book.last_snapshot() {
                Some(snapshot) => OrderBookReport {
                    venue: book.venue(),
                    market_coin: book.symbol().market_coin().clone(),
                    status: book.status(),
                    source_sequence: snapshot.source_sequence(),
                    best_bid: Some(snapshot.bids()[0].price.to_text()),
                    best_ask: Some(snapshot.asks()[0].price.to_text()),
                },
                None => OrderBookReport {
                    venue: book.venue(),
                    market_coin: book.symbol().market_coin().clone(),
                    status: book.status(),
                    source_sequence: None,
                    best_bid: None,
                    best_ask: None,
                },
            };
            reported.push(report);
            i = i + 1;
        }
        proof {
            let markets = reported@.map_values(|report: OrderBookReport| report@).map_values(
                |book: BookReportView| (book.venue, book.coin),
            );
            assert forall|j: int| 0 <= j < items.len() implies #[trigger] markets[j] == items[j].0
                && keyed(items)[items[j].0] == items[j].1 && keyed(items).dom().contains(
                items[j].0,
            ) by {
                assert(reported@[j]@ == book_report(items[j].1));
                lemma_keyed_at(items, j);
            }
            assert forall|market: MarketId| #[trigger]
                keyed(items).dom().contains(market) <==> markets.contains(market) by {
                if lists_market(items, market) {
                    let j = choose|j: int|
                        0 <= j < items.len() && (#[trigger] items[j]).0 == market;
                    assert(markets[j] == market);
                }
                if markets.contains(market) {
                    let j = choose|j: int| 0 <= j < markets.len() && markets[j] == market;
                    assert(items[j].0 == market);
                }
            }
            assert forall|j: int| 0 <= j < reported@.len() implies (#[trigger] reported@[j])@
                == book_report(self@.order_books[(reported@[j]@.venue, reported@[j]@.coin)]) by {
                assert(markets[j] == items[j].0);
            }
        }
        reported
    }

    fn report_offers(&self) -> (reported: Vec<BestBidOfferReport>)
        requires
            self.well_formed(),
        ensures
            lists_markets(
                self@.best_bid_offers,
                reported@.map_values(|report: BestBidOfferReport| report@).map_values(
                    |offer: OfferReportView| (offer.venue, offer.coin),
                ),
            ),
            forall|i: int|
                0 <= i < reported@.len() ==> (#[trigger] reported@[i])@ == offer_report(
                    self@.best_bid_offers[(reported@[i]@.venue, reported@[i]@.coin)],
                ),
    {
        let ghost items = offer_items(self.best_bid_offers@);
        let mut reported: Vec<BestBidOfferReport> = Vec::new();
        let mut i: usize = 0;
        while i < self.best_bid_offers.len()
            invariant
                i <= self.best_bid_offers.len(),
                items == offer_items(self.best_bid_offers@),
                reported@.len() == i,
                forall|j: int| 0 <= j < i ==> (#[trigger] reported@[j])@ == offer_report(items[j].1),
            decreases self.best_bid_offers.len() - i,
        {
            let state: &BestBidOfferState = &self.best_bid_offers[i];
            let best_bid: Option<String> = match state.value.bid() {
                Some(level) => Some(level.price.to_text()),
                None => None,
            };
            let best_ask: Option<String> = match state.value.ask() {
                Some(level) => Some(level.price.to_text()),
                None => None,
            };
            reported.push(
                BestBidOfferReport {
                    venue: state.value.venue(),
                    market_coin: state.value.symbol().market_coin().clone(),
                    status: state.status,
                    best_bid,
                    best_ask,
                },
            );
            i = i + 1;
        }
        proof {
            let markets = reported@.map_values(|report: BestBidOfferReport| report@).map_values(
                |offer: OfferReportView| (offer.venue, offer.coin),
            );
            assert forall|j: int| 0 <= j < items.len() implies #[trigger] markets[j] == items[j].0
                && keyed(items)[items[j].0] == items[j].1 && keyed(items).dom().contains(
                items[j].0,
            ) by {
                assert(reported@[j]@ == offer_report(items[j].1));
                lemma_keyed_at(items, j);
            }
            assert forall|market: MarketId| #[trigger]
                keyed(items).dom().contains(market) <==> markets.contains(market) by {
                if lists_market(items, market) {
                    let j = choose|j: int|
                        0 <= j < items.len() && (#[trigger] items[j]).0 == market;
                    assert(markets[j] == market);
                }
                if markets.contains(market) {
                    let j = choose|j: int| 0 <= j < markets.len() && markets[j] == market;
                    assert(items[j].0 == market);
                }
            }
            assert forall|j: int| 0 <= j < reported@.len() implies (#[trigger] reported@[j])@
                == offer_report(self@.best_bid_offers[(reported@[j]@.venue, reported@[j]@.coin)]) by {
                assert(markets[j] == items[j].0);
            }
        }
        reported
    }

    fn bbo_status(&self, bbo: &BestBidOffer) -> (status: BestBidOfferStatus)
        requires
            self.well_formed(),
        ensures
            status == bbo_status_of(self@.order_books, bbo@),
    {
        let (index, found): (usize, bool) = locate_book(
            &self.order_books,
            bbo.venue(),
            bbo.symbol().market_coin().as_str(),
        );
        let ghost items = book_items(self.order_books@);
        if !found {
            proof {
                lemma_keyed_absent(items, index as int, (bbo@.venue, bbo@.coin));
            }
            return BestBidOfferStatus::Unknown;
        }
        proof {
            lemma_keyed_at(items, index as int);
        }
        let book: &OrderBook = &self.order_books[index];
        match book.current() {
            None => BestBidOfferStatus::Unknown,
            Some(snapshot) => {
                let left: u64 = snapshot.timestamps().local_receive().nanos_since_start();
                let right: u64 = bbo.timestamps().local_receive().nanos_since_start();
                let apart: u64 = if left < right {
                    right - left
                } else {
                    left - right
                };
                if apart > FRESHNESS_NANOS {
                    return BestBidOfferStatus::Unknown;
                }
                let bid_matches: bool = match bbo.bid() {
                    Some(level) => *level == snapshot.bids()[0],
                    None => false,
                };
                let ask_matches: bool = match bbo.ask() {
                    Some(level) => *level == snapshot.asks()[0],
                    None => false,
                };
                if bid_matches && ask_matches {
                    BestBidOfferStatus::Available
                } else {
                    BestBidOfferStatus::Unknown
                }
            },
        }
    }

    fn reconcile_bbo(&mut self, venue: Venue, market_coin: &MarketCoin)
        requires
            old(self).well_formed(),
        ensures
            final(self).well_formed(),
            final(self)@ == (EngineView {
                best_bid_offers: EngineView::reconciled(
                    old(self)@.order_books,
                    old(self)@.best_bid_offers,
                    (venue, market_coin@),
                ),
                ..old(self)@
            }),
    {
        let (index, found): (usize, bool) = locate_offer(
            &self.best_bid_offers,
            venue,
            market_coin.as_str(),
        );
        let ghost before = offer_items(self.best_bid_offers@);
        if !found {
            proof {
                lemma_keyed_absent(before, index as int, (venue, market_coin@));
            }
            return;
        }
        proof {
            lemma_keyed_at(before, index as int);
        }
        let status: BestBidOfferStatus = self.bbo_status(&self.best_bid_offers[index].value);
        let state: BestBidOfferState = self.best_bid_offers.remove(index);
        let ghost state_after = BboStateView { value: state.value@, status };
        self.best_bid_offers.insert(index, BestBidOfferState { value: state.value, status });
        proof {
            lemma_keyed_update(before, index as int, state_after);
            assert(offer_items(self.best_bid_offers@) =~= before.update(
                index as int,
                ((venue, market_coin@), state_after),
            ));
        }
    }
}

impl Default for MarketDataEngine {
    fn default() -> (engine: Self)
        ensures
            engine.well_formed(),
            engine@ == EngineView::initial(),
    {
        MarketDataEngine::new()
    }
}

impl EngineError {
    /// The message of the error.
    pub open spec fn message(self) -> Seq<char> {
        match self {
            EngineError::CaptureSequenceMismatch { expected, actual } =>
                "non-contiguous Capture Sequence: expected "@ + decimal(expected as nat)
                    + ", received "@ + decimal(actual as nat),
            EngineError::CaptureSequenceOverflow => "Capture Sequence overflow"@,
        }
    }

    pub fn to_text(&self) -> (text: String)
        ensures
            text@ == self.message(),
    {
        match self {
            EngineError::CaptureSequenceMismatch { expected, actual } => {
                let mut text: String = "non-contiguous Capture Sequence: expected ".to_owned();
                text.append(decimal_text(*expected as u128).as_str());
                text.append(", received ");
                text.append(decimal_text(*actual as u128).as_str());
                text
            },
            EngineError::CaptureSequenceOverflow => "Capture Sequence overflow".to_owned(),
        }
    }
}

/// The state that a run of events leads to, from the beginning.
pub open spec fn run(events: Seq<EventView>) -> EngineView
    decreases events.len(),
{
    if events.len() == 0 {
        EngineView::initial()
    } else {
        run(events.drop_last()).step(events.last())
    }
}

proof fn lemma_same_markets(left: Seq<MarketId>, right: Seq<MarketId>)
    requires
        forall|i: int, j: int|
            0 <= i < j < left.len() ==> market_before(#[trigger] left[i], #[trigger] left[j]),
        forall|i: int, j: int|
            0 <= i < j < right.len() ==> market_before(#[trigger] right[i], #[trigger] right[j]),
        forall|market: MarketId| #[trigger] left.contains(market) <==> right.contains(market),
    ensures
        left == right,
    decreases left.len(),
{
    if left.len() == 0 {
        if right.len() > 0 {
            assert(right.contains(right[0]));
            assert(left.contains(right[0]));
        }
        assert(left =~= right);
    } else {
        assert(left.contains(left[0]));
        assert(right.contains(left[0]));
        assert(right.contains(right[0]));
        assert(left.contains(right[0]));
        let i = choose|i: int| 0 <= i < right.len() && right[i] == left[0];
        let j = choose|j: int| 0 <= j < left.len() && left[j] == right[0];
        lemma_market_order(left[0], right[0], left[0]);
        assert(left[0] == right[0]);
        let rest_left = left.drop_first();
        let rest_right = right.drop_first();
        assert forall|market: MarketId| #[trigger]
            rest_left.contains(market) <==> rest_right.contains(market) by {
            lemma_market_order(left[0], left[0], left[0]);
            if rest_left.contains(market) {
                let k = choose|k: int| 0 <= k < rest_left.len() && rest_left[k] == market;
                assert(left[k + 1] == market);
                assert(left.contains(market));
                let l = choose|l: int| 0 <= l < right.len() && right[l] == market;
                assert(l > 0);
                assert(rest_right[l - 1] == market);
            }
            if rest_right.contains(market) {
                let k = choose|k: int| 0 <= k < rest_right.len() && rest_right[k] == market;
                assert(right[k + 1] == market);
                assert(right.contains(market));
                assert(left.contains(market));
                let l = choose|l: int| 0 <= l < left.len() && left[l] == market;
                assert(l > 0);
                assert(rest_left[l - 1] == market);
            }
        }
        lemma_same_markets(rest_left, rest_right);
        assert(left =~= seq![left[0]] + rest_left);
        assert(right =~= seq![right[0]] + rest_right);
    }
}

/// Replay is deterministic: two runs over the same events give the same report,
/// event digest and final books included.
pub proof fn lemma_same_events_same_report(
    events: Seq<EventView>,
    left: EngineReportView,
    right: EngineReportView,
)
    requires
        reports(run(events), left),
        reports(run(events), right),
    ensures
        left == right,
{
    let engine = run(events);
    let left_books = left.order_books.map_values(|book: BookReportView| (book.venue, book.coin));
    let right_books = right.order_books.map_values(|book: BookReportView| (book.venue, book.coin));
    assert forall|market: MarketId| #[trigger]
        left_books.contains(market) <==> right_books.contains(market) by {
        assert(engine.order_books.dom().contains(market) <==> left_books.contains(market));
    }
    lemma_same_markets(left_books, right_books);
    assert forall|i: int| 0 <= i < left.order_books.len() implies left.order_books[i]
        == right.order_books[i] by {
        assert(left_books[i] == right_books[i]);
    }
    assert(left_books.len() == left.order_books.len());
    assert(left.order_books =~= right.order_books);
    let left_offers = left.best_bid_offers.map_values(
        |offer: OfferReportView| (offer.venue, offer.coin),
    );
    let right_offers = right.best_bid_offers.map_values(
        |offer: OfferReportView| (offer.venue, offer.coin),
    );
    assert forall|market: MarketId| #[trigger]
        left_offers.contains(market) <==> right_offers.contains(market) by {
        assert(engine.best_bid_offers.dom().contains(market) <==> left_offers.contains(market));
    }
    lemma_same_markets(left_offers, right_offers);
    assert forall|i: int| 0 <= i < left.best_bid_offers.len() implies left.best_bid_offers[i]
        == right.best_bid_offers[i] by {
        assert(left_offers[i] == right_offers[i]);
    }
    assert(left_offers.len() == left.best_bid_offers.len());
    assert(left.best_bid_offers =~= right.best_bid_offers);
}

/// The last snapshot of a market among events.
pub open spec fn last_recorded_snapshot(events: Seq<EventView>, market: MarketId) -> Option<
    SnapshotView,
>
    decreases events.len(),
{
    if events.len() == 0 {
        None
    } else {
        match events.last() {
            EventView::OrderBookSnapshot(snapshot) => if (snapshot.venue, snapshot.coin) == market {
                Some(snapshot)
            } else {
                last_recorded_snapshot(events.drop_last(), market)
            },
            _ => last_recorded_snapshot(events.drop_last(), market),
        }
    }
}

/// After a run every book holds the last snapshot that the events recorded for
/// its market.
pub proof fn lemma_final_books_match_last_snapshots(events: Seq<EventView>, market: MarketId)
    ensures
        run(events).book(market).last_snapshot == last_recorded_snapshot(events, market),
    decreases events.len(),
{
    if events.len() > 0 {
        lemma_final_books_match_last_snapshots(events.drop_last(), market);
    }
}

/// Events of one market never touch the book of another.
pub proof fn lemma_other_books_unchanged(engine: EngineView, event: EventView, market: MarketId)
    requires
        (event.venue(), event.coin()) != market,
    ensures
        engine.step(event).book(market) == engine.book(market),
        engine.step(event).order_books.dom().contains(market)
            == engine.order_books.dom().contains(market),
{
}

/// A best bid and offer neither replaces nor invalidates any book, and it is
/// available exactly when the book confirms it.
pub proof fn lemma_best_bid_offer_leaves_books(engine: EngineView, bbo: BboView)
    ensures
        engine.step(EventView::BestBidOfferUpdated(bbo)).order_books == engine.order_books,
        engine.step(EventView::BestBidOfferUpdated(bbo)).best_bid_offers[(
            bbo.venue,
            bbo.coin,
        )].value == bbo,
        engine.step(EventView::BestBidOfferUpdated(bbo)).best_bid_offers[(
            bbo.venue,
            bbo.coin,
        )].status == BestBidOfferStatus::Available <==> confirmed(engine.order_books, bbo),
{
}

/// A run numbers its events from one without gaps: after `n` events the next
/// capture sequence is `n + 1`.
pub proof fn lemma_run_counts_events(events: Seq<EventView>)
    requires
        events.len() < u64::MAX,
    ensures
        run(events).next_capture_sequence == events.len() + 1,
        run(events).events_processed == events.len(),
    decreases events.len(),
{
    if events.len() > 0 {
        lemma_run_counts_events(events.drop_last());
    }
}

} // verus!
