//! The order book and the trade stream of one market at one venue.
use vstd::prelude::*;

use crate::domain::{MarketCoin, Symbol, Venue};
use crate::market_data::event::{
    EventView, MarketTrade, ResumedView, TradeStreamResumed, TradeView, UnavailableView,
};
use crate::market_data::order_book::{stamped, BookView, SnapshotView};
use crate::market_data::{
    LocalObservationTime, MarketDataUnavailable, NormalizedMarketEvent, OrderBook,
    OrderBookSnapshot, UnavailabilityCategory,
};
use crate::text::{decimal, decimal_text};
use crate::venue::action::{action_views, completions_read, ActionView, AdapterAction, MarketKey};
use crate::venue::clock::ObservationClock;
use crate::venue::deduplication::{BoundedDeduplicator, DedupKey, DedupView, DeduplicationResult};

verus! {

/// The order book and the trade stream of one market.
pub struct MarketFeed<K: DedupKey> {
    coin: MarketCoin,
    book: OrderBook,
    trades: BoundedDeduplicator<K>,
    trade_available: bool,
}

/// The model of `MarketFeed`.
pub struct FeedView<I> {
    pub coin: Seq<char>,
    pub book: BookView,
    pub trades: DedupView<I>,
    pub trade_available: bool,
}

/// The event of a book that is not available.
pub open spec fn book_unavailable(
    venue: Venue,
    coin: Seq<char>,
    observed_at: LocalObservationTime,
    category: UnavailabilityCategory,
    diagnostic: Seq<char>,
) -> ActionView {
    ActionView::Publish(
        EventView::OrderBookUnavailable(
            UnavailableView { venue, coin, observed_at, category, diagnostic },
        ),
    )
}

/// The event of a trade stream that is not available.
pub open spec fn trades_unavailable(
    venue: Venue,
    coin: Seq<char>,
    observed_at: LocalObservationTime,
    category: UnavailabilityCategory,
    diagnostic: Seq<char>,
) -> ActionView {
    ActionView::Publish(
        EventView::TradeStreamUnavailable(
            UnavailableView { venue, coin, observed_at, category, diagnostic },
        ),
    )
}

/// Why a session stops once a market has too many trades to tell apart.
pub open spec fn capacity_reason(venue: Venue, coin: Seq<char>, capacity: nat) -> Seq<char> {
    venue.display_name() + " "@ + coin + " trade dedup capacity "@ + decimal(capacity)
        + " exceeded"@
}

impl<I> FeedView<I> {
    /// A market that has not seen anything.
    pub open spec fn fresh(venue: Venue, coin: Seq<char>, capacity: nat) -> FeedView<I> {
        FeedView {
            coin,
            book: BookView::awaiting(venue, coin),
            trades: DedupView::fresh(capacity),
            trade_available: false,
        }
    }

    /// The book is the one of the market.
    pub open spec fn of_market(self) -> bool {
        self.book.coin == self.coin
    }

    /// After a report of a trade: what the market is then, and what is asked for.
    pub open spec fn after_trade(
        self,
        index: nat,
        local_receive: LocalObservationTime,
        decoded: Result<(TradeView, I), Seq<char>>,
    ) -> (FeedView<I>, Seq<ActionView>) {
        let venue = self.book.venue;
        match decoded {
            Err(diagnostic) => (
                FeedView { trade_available: false, ..self },
                seq![
                    trades_unavailable(
                        venue,
                        self.coin,
                        local_receive,
                        UnavailabilityCategory::InvalidMarketData,
                        diagnostic,
                    ),
                ],
            ),
            Ok((trade, identity)) => {
                let trades = self.trades.observed(identity);
                match self.trades.result(identity) {
                    DeduplicationResult::New => (
                        FeedView { trades, trade_available: true, ..self },
                        (if self.trade_available {
                            Seq::empty()
                        } else {
                            seq![
                                ActionView::Publish(
                                    EventView::TradeStreamResumed(
                                        ResumedView {
                                            venue,
                                            coin: self.coin,
                                            observed_at: local_receive,
                                        },
                                    ),
                                ),
                            ]
                        }).push(ActionView::Publish(EventView::MarketTrade(trade))),
                    ),
                    DeduplicationResult::Duplicate => (
                        FeedView { trades, ..self },
                        seq![ActionView::TradeDeduplicated(index)],
                    ),
                    DeduplicationResult::CapacityExceeded => (
                        FeedView { trades, ..self },
                        seq![
                            ActionView::Stop {
                                reason: capacity_reason(venue, self.coin, self.trades.capacity),
                            },
                        ],
                    ),
                }
            },
        }
    }

    /// Whether the trade cannot be told apart from later ones any more.
    pub open spec fn stops(self, decoded: Result<(TradeView, I), Seq<char>>) -> bool {
        match decoded {
            Ok((_, identity)) => self.trades.result(identity)
                == DeduplicationResult::CapacityExceeded,
            Err(_) => false,
        }
    }

    /// With a book that is complete at `completed`.
    pub open spec fn installed(
        self,
        snapshot: SnapshotView,
        completed: LocalObservationTime,
    ) -> FeedView<I> {
        FeedView { book: self.book.replaced(stamped(snapshot, completed)), ..self }
    }

    /// With a book that is not to be trusted.
    pub open spec fn invalidated(self) -> FeedView<I> {
        FeedView { book: self.book.unhealthy(), ..self }
    }

    /// After a book that was accepted at `completed`.
    pub open spec fn after_snapshot(
        self,
        snapshot: SnapshotView,
        completed: LocalObservationTime,
    ) -> (FeedView<I>, Seq<ActionView>) {
        (
            self.installed(snapshot, completed),
            seq![
                ActionView::Publish(EventView::OrderBookSnapshot(stamped(snapshot, completed))),
            ],
        )
    }

    /// After a book that was rejected.
    pub open spec fn after_rejected_book(
        self,
        local_receive: LocalObservationTime,
        category: UnavailabilityCategory,
        diagnostic: Seq<char>,
    ) -> (FeedView<I>, Seq<ActionView>) {
        (
            self.invalidated(),
            seq![
                book_unavailable(
                    self.book.venue,
                    self.coin,
                    local_receive,
                    category,
                    diagnostic,
                ),
            ],
        )
    }

    /// After a book that was accepted at `completed`, or rejected.
    pub open spec fn after_book(
        self,
        local_receive: LocalObservationTime,
        decoded: Result<SnapshotView, Seq<char>>,
        completed: LocalObservationTime,
    ) -> (FeedView<I>, Seq<ActionView>) {
        match decoded {
            Ok(snapshot) => self.after_snapshot(snapshot, completed),
            Err(diagnostic) => self.after_rejected_book(
                local_receive,
                UnavailabilityCategory::InvalidMarketData,
                diagnostic,
            ),
        }
    }

    /// After the connection was lost.
    pub open spec fn disconnected(self) -> FeedView<I> {
        FeedView { book: self.book.unhealthy(), trade_available: false, ..self }
    }

    /// What is published once the connection is lost.
    pub open spec fn disconnect_actions(
        self,
        reason: Seq<char>,
        observed_at: LocalObservationTime,
    ) -> Seq<ActionView> {
        seq![
            book_unavailable(
                self.book.venue,
                self.coin,
                observed_at,
                UnavailabilityCategory::Disconnected,
                reason,
            ),
            trades_unavailable(
                self.book.venue,
                self.coin,
                observed_at,
                UnavailabilityCategory::Disconnected,
                reason,
            ),
        ]
    }
}

impl<K: DedupKey> View for MarketFeed<K> {
    type V = FeedView<K::Identity>;

    closed spec fn view(&self) -> FeedView<K::Identity> {
        FeedView {
            coin: self.coin@,
            book: self.book@,
            trades: self.trades@,
            trade_available: self.trade_available,
        }
    }
}

/// The model of a decoded trade.
pub open spec fn decoded_trade<K: DedupKey>(
    decoded: Result<(MarketTrade, K), String>,
) -> Result<(TradeView, K::Identity), Seq<char>> {
    match decoded {
        Ok((trade, key)) => Ok((trade@, key.identity())),
        Err(diagnostic) => Err(diagnostic@),
    }
}

/// A decoded trade that is complete at the given time.
pub open spec fn completed_trade<I>(
    decoded: Result<(TradeView, I), Seq<char>>,
    time: LocalObservationTime,
) -> Result<(TradeView, I), Seq<char>> {
    match decoded {
        Ok((trade, identity)) => Ok((trade.completed(time), identity)),
        Err(diagnostic) => Err(diagnostic),
    }
}

/// The model of a decoded book.
pub open spec fn decoded_book(decoded: Result<OrderBookSnapshot, String>) -> Result<
    SnapshotView,
    Seq<char>,
> {
    match decoded {
        Ok(snapshot) => Ok(snapshot@),
        Err(diagnostic) => Err(diagnostic@),
    }
}

impl<K: DedupKey> MarketFeed<K> {
    /// The book is the one of the market, and its trades can be told apart.
    pub closed spec fn well_formed(self) -> bool {
        &&& self@.of_market()
        &&& self.trades.well_formed()
    }

    pub fn new(venue: Venue, coin: MarketCoin, capacity: usize) -> (feed: Self)
        requires
            capacity > 0,
        ensures
            feed.well_formed(),
            feed@ == FeedView::<K::Identity>::fresh(venue, coin@, capacity as nat),
    {
        let book: OrderBook = OrderBook::new(venue, Symbol::perpetual(coin.clone()));
        MarketFeed {
            coin,
            book,
            trades: BoundedDeduplicator::new(capacity),
            trade_available: false,
        }
    }

    pub fn market_coin(&self) -> (coin: &MarketCoin)
        ensures
            coin@ == self@.coin,
    {
        &self.coin
    }

    pub fn book(&self) -> (book: &OrderBook)
        ensures
            book@ == self@.book,
    {
        &self.book
    }

    /// Takes in a report of a trade. One that is published is complete once it is taken in.
    /// Says what is asked for, and whether the trades of the market cannot be told apart any
    /// more.
    pub fn apply_trade<C: ObservationClock>(
        &mut self,
        index: usize,
        local_receive: LocalObservationTime,
        decoded: Result<(MarketTrade, K), String>,
        clock: &C,
    ) -> (result: (Vec<AdapterAction>, bool))
        requires
            old(self).well_formed(),
        ensures
            final(self).well_formed(),
            exists|completed: LocalObservationTime|
                (final(self)@, action_views(result.0@)) == old(self)@.after_trade(
                    index as nat,
                    local_receive,
                    #[trigger] completed_trade(decoded_trade(decoded), completed),
                ),
            result.1 == old(self)@.stops(decoded_trade(decoded)),
            completions_read(action_views(result.0@), *clock),
    {
        let ghost before = self@;
        let ghost model = decoded_trade(decoded);
        let venue: Venue = self.book.venue();
        let mut actions: Vec<AdapterAction> = Vec::new();
        let mut stopped: bool = false;
        let ghost mut time: LocalObservationTime = local_receive;
        match decoded {
            Err(diagnostic) => {
                self.trade_available = false;
                actions.push(
                    AdapterAction::Publish(
                        NormalizedMarketEvent::TradeStreamUnavailable(
                            MarketDataUnavailable::new(
                                venue,
                                self.coin.clone(),
                                local_receive,
                                UnavailabilityCategory::InvalidMarketData,
                                diagnostic,
                            ),
                        ),
                    ),
                );
            },
            Ok((trade, key)) => {
                match self.trades.observe(key) {
                    DeduplicationResult::New => {
                        if !self.trade_available {
                            actions.push(
                                AdapterAction::Publish(
                                    NormalizedMarketEvent::TradeStreamResumed(
                                        TradeStreamResumed::new(
                                            venue,
                                            self.coin.clone(),
                                            local_receive,
                                        ),
                                    ),
                                ),
                            );
                        }
                        self.trade_available = true;
                        let completed: LocalObservationTime = clock.now();
                        proof {
                            time = completed;
                        }
                        actions.push(
                            AdapterAction::Publish(
                                NormalizedMarketEvent::MarketTrade(trade.completed_at(completed)),
                            ),
                        );
                    },
                    DeduplicationResult::Duplicate => {
                        actions.push(AdapterAction::TradeDeduplicated(MarketKey::new(index)));
                    },
                    DeduplicationResult::CapacityExceeded => {
                        let mut reason: String = venue.to_text();
                        reason.append(" ");
                        reason.append(self.coin.as_str());
                        reason.append(" trade dedup capacity ");
                        reason.append(decimal_text(self.trades.capacity() as u128).as_str());
                        reason.append(" exceeded");
                        actions.push(AdapterAction::Stop { reason });
                        stopped = true;
                    },
                }
            },
        }
        proof {
            let after = before.after_trade(
                index as nat,
                local_receive,
                completed_trade(model, time),
            );
            assert(action_views(actions@) =~= after.1);
        }
        (actions, stopped)
    }

    /// Installs a book of this market that is complete at the given time.
    pub fn install(&mut self, snapshot: OrderBookSnapshot, completed: LocalObservationTime)
        requires
            old(self).well_formed(),
            old(self)@.book.accepts(snapshot@),
        ensures
            final(self).well_formed(),
            final(self)@ == old(self)@.installed(snapshot@, completed),
    {
        let _ = self.book.replace(snapshot.completed_at(completed));
    }

    /// Marks the book as one that is not to be trusted.
    pub fn invalidate(&mut self)
        requires
            old(self).well_formed(),
        ensures
            final(self).well_formed(),
            final(self)@ == old(self)@.invalidated(),
    {
        self.book.mark_unhealthy();
    }

    /// Installs a book of this market that is complete at the given time, and publishes it.
    pub fn apply_snapshot(&mut self, snapshot: OrderBookSnapshot, completed: LocalObservationTime)
        -> (actions: Vec<AdapterAction>)
        requires
            old(self).well_formed(),
            old(self)@.book.accepts(snapshot@),
        ensures
            final(self).well_formed(),
            (final(self)@, action_views(actions@)) == old(self)@.after_snapshot(
                snapshot@,
                completed,
            ),
    {
        let snapshot: OrderBookSnapshot = snapshot.completed_at(completed);
        let copy: OrderBookSnapshot = snapshot.clone();
        let _ = self.book.replace(snapshot);
        let mut actions: Vec<AdapterAction> = Vec::new();
        actions.push(AdapterAction::Publish(NormalizedMarketEvent::OrderBookSnapshot(copy)));
        assert(action_views(actions@) =~= seq![
            ActionView::Publish(EventView::OrderBookSnapshot(copy@)),
        ]);
        actions
    }

    /// Makes the book unavailable because of what the venue delivered.
    pub fn reject_book(
        &mut self,
        local_receive: LocalObservationTime,
        category: UnavailabilityCategory,
        diagnostic: String,
    ) -> (actions: Vec<AdapterAction>)
        requires
            old(self).well_formed(),
        ensures
            final(self).well_formed(),
            (final(self)@, action_views(actions@)) == old(self)@.after_rejected_book(
                local_receive,
                category,
                diagnostic@,
            ),
    {
        let ghost before = self@;
        let ghost text = diagnostic@;
        self.book.mark_unhealthy();
        let mut actions: Vec<AdapterAction> = Vec::new();
        actions.push(
            AdapterAction::Publish(
                NormalizedMarketEvent::OrderBookUnavailable(
                    MarketDataUnavailable::new(
                        self.book.venue(),
                        self.coin.clone(),
                        local_receive,
                        category,
                        diagnostic,
                    ),
                ),
            ),
        );
        assert(action_views(actions@) =~= before.after_rejected_book(
            local_receive,
            category,
            text,
        ).1);
        actions
    }

    /// Takes in a book. One of this market is complete once it is in place.
    pub fn apply_book<C: ObservationClock>(
        &mut self,
        local_receive: LocalObservationTime,
        decoded: Result<OrderBookSnapshot, String>,
        clock: &C,
    ) -> (actions: Vec<AdapterAction>)
        requires
            old(self).well_formed(),
            decoded matches Ok(snapshot) ==> old(self)@.book.accepts(snapshot@),
        ensures
            final(self).well_formed(),
            exists|completed: LocalObservationTime|
                (final(self)@, action_views(actions@)) == #[trigger] old(self)@.after_book(
                    local_receive,
                    decoded_book(decoded),
                    completed,
                ),
            completions_read(action_views(actions@), *clock),
    {
        let ghost before = self@;
        let ghost model = decoded_book(decoded);
        match decoded {
            Ok(snapshot) => {
                let completed: LocalObservationTime = clock.now();
                let actions = self.apply_snapshot(snapshot, completed);
                assert((self@, action_views(actions@)) == before.after_book(
                    local_receive,
                    model,
                    completed,
                ));
                actions
            },
            Err(diagnostic) => {
                let actions = self.reject_book(
                    local_receive,
                    UnavailabilityCategory::InvalidMarketData,
                    diagnostic,
                );
                assert((self@, action_views(actions@)) == before.after_book(
                    local_receive,
                    model,
                    local_receive,
                ));
                actions
            },
        }
    }

    /// Makes book and trades unavailable.
    pub fn disconnect(&mut self, reason: &str, observed_at: LocalObservationTime) -> (actions: Vec<
        AdapterAction,
    >)
        requires
            old(self).well_formed(),
        ensures
            final(self).well_formed(),
            final(self)@ == old(self)@.disconnected(),
            action_views(actions@) == old(self)@.disconnect_actions(reason@, observed_at),
    {
        let ghost before = self@;
        self.book.mark_unhealthy();
        self.trade_available = false;
        let venue: Venue = self.book.venue();
        let mut actions: Vec<AdapterAction> = Vec::new();
        actions.push(
            AdapterAction::Publish(
                NormalizedMarketEvent::OrderBookUnavailable(
                    MarketDataUnavailable::new(
                        venue,
                        self.coin.clone(),
                        observed_at,
                        UnavailabilityCategory::Disconnected,
                        reason.to_owned(),
                    ),
                ),
            ),
        );
        actions.push(
            AdapterAction::Publish(
                NormalizedMarketEvent::TradeStreamUnavailable(
                    MarketDataUnavailable::new(
                        venue,
                        self.coin.clone(),
                        observed_at,
                        UnavailabilityCategory::Disconnected,
                        reason.to_owned(),
                    ),
                ),
            ),
        );
        assert(action_views(actions@) =~= before.disconnect_actions(reason@, observed_at));
        actions
    }
}

/// A trade is published once: a report with an identity that was taken in before publishes
/// nothing, whatever came in between.
pub proof fn lemma_trade_published_once<I>(
    feed: FeedView<I>,
    index: nat,
    local_receive: LocalObservationTime,
    trade: TradeView,
    identity: I,
    between: Result<(TradeView, I), Seq<char>>,
    again: TradeView,
)
    requires
        feed.trades.result(identity) == DeduplicationResult::New,
    ensures
        ({
            let first = feed.after_trade(index, local_receive, Ok((trade, identity)));
            let second = first.0.after_trade(index, local_receive, between);
            let third = second.0.after_trade(index, local_receive, Ok((again, identity)));
            &&& first.1.last() == ActionView::Publish(EventView::MarketTrade(trade))
            &&& third.1 == seq![ActionView::TradeDeduplicated(index)]
            &&& third.0.trades.seen == second.0.trades.seen
        }),
{
    let first = feed.after_trade(index, local_receive, Ok((trade, identity)));
    assert(first.0.trades.seen[feed.trades.seen.len() as int] == identity);
    assert(first.0.trades.seen.contains(identity));
    if let Ok((_, other)) = between {
        crate::venue::deduplication::lemma_never_forgets(first.0.trades, identity, other);
    }
}

/// A market whose memory of trades is full takes in no new trade: the session is stopped
/// and nothing is published.
pub proof fn lemma_full_memory_stops<I>(
    feed: FeedView<I>,
    index: nat,
    local_receive: LocalObservationTime,
    trade: TradeView,
    identity: I,
)
    requires
        feed.trades.seen.len() == feed.trades.capacity,
        !feed.trades.seen.contains(identity),
    ensures
        ({
            let after = feed.after_trade(index, local_receive, Ok((trade, identity)));
            &&& after.0 == feed
            &&& after.1 == seq![
                ActionView::Stop {
                    reason: capacity_reason(feed.book.venue, feed.coin, feed.trades.capacity),
                },
            ]
        }),
{
}

/// The trade stream of a market is announced again exactly before the first trade that is
/// taken in after it was unavailable.
pub proof fn lemma_resumed_before_first_trade<I>(
    feed: FeedView<I>,
    index: nat,
    local_receive: LocalObservationTime,
    trade: TradeView,
    identity: I,
)
    requires
        feed.trades.result(identity) == DeduplicationResult::New,
    ensures
        ({
            let after = feed.after_trade(index, local_receive, Ok((trade, identity)));
            let published = ActionView::Publish(EventView::MarketTrade(trade));
            &&& after.0.trade_available
            &&& after.1 == if feed.trade_available {
                seq![published]
            } else {
                seq![
                    ActionView::Publish(
                        EventView::TradeStreamResumed(
                            ResumedView {
                                venue: feed.book.venue,
                                coin: feed.coin,
                                observed_at: local_receive,
                            },
                        ),
                    ),
                    published,
                ]
            }
        }),
{
    let after = feed.after_trade(index, local_receive, Ok((trade, identity)));
    let published = ActionView::Publish(EventView::MarketTrade(trade));
    if feed.trade_available {
        assert(after.1 =~= seq![published]);
    } else {
        assert(after.1 =~= seq![
            ActionView::Publish(
                EventView::TradeStreamResumed(
                    ResumedView {
                        venue: feed.book.venue,
                        coin: feed.coin,
                        observed_at: local_receive,
                    },
                ),
            ),
            published,
        ]);
    }
}

/// Book and trades of a market are independent: reports of trades leave the book as it is,
/// and books leave the trades as they are.
pub proof fn lemma_book_and_trades_independent<I>(
    feed: FeedView<I>,
    index: nat,
    local_receive: LocalObservationTime,
    trade: Result<(TradeView, I), Seq<char>>,
    book: Result<SnapshotView, Seq<char>>,
    completed: LocalObservationTime,
)
    ensures
        feed.after_trade(index, local_receive, trade).0.book == feed.book,
        feed.after_book(local_receive, book, completed).0.trades == feed.trades,
        feed.after_book(local_receive, book, completed).0.trade_available == feed.trade_available,
{
}

/// A book that was rejected, and a lost connection, leave no book for decisions until the
/// next one is accepted, and the accepted one is published as it stands then.
pub proof fn lemma_no_stale_book<I>(
    feed: FeedView<I>,
    local_receive: LocalObservationTime,
    diagnostic: Seq<char>,
    snapshot: SnapshotView,
    completed: LocalObservationTime,
)
    ensures
        feed.after_book(local_receive, Err(diagnostic), completed).0.book.current() is None,
        feed.disconnected().book.current() is None,
        !feed.disconnected().trade_available,
        ({
            let after = feed.after_book(local_receive, Ok(snapshot), completed);
            after.1 == seq![
                ActionView::Publish(
                    EventView::OrderBookSnapshot(after.0.book.current()->Some_0),
                ),
            ]
        }),
{
}

/// Whether an action announces that something of a market is not available.
pub open spec fn announces(
    unavailable: UnavailableView,
    venue: Venue,
    coin: Seq<char>,
    observed_at: LocalObservationTime,
    category: UnavailabilityCategory,
    diagnostic: Seq<char>,
) -> bool {
    &&& unavailable.venue == venue
    &&& unavailable.coin == coin
    &&& unavailable.observed_at == observed_at
    &&& unavailable.category == category
    &&& unavailable.diagnostic == diagnostic
}

/// A report that was rejected is announced as an interruption of what it was about, by data that
/// is not valid, at the time it came in and with what was said of it; nothing else is asked for.
pub proof fn lemma_rejections_announced<I>(
    feed: FeedView<I>,
    index: nat,
    local_receive: LocalObservationTime,
    diagnostic: Seq<char>,
    completed: LocalObservationTime,
)
    ensures
        ({
            let trade = feed.after_trade(index, local_receive, Err(diagnostic));
            let book = feed.after_book(local_receive, Err(diagnostic), completed);
            &&& trade.1.len() == 1
            &&& trade.1[0] matches ActionView::Publish(EventView::TradeStreamUnavailable(said))
            &&& announces(
                said,
                feed.book.venue,
                feed.coin,
                local_receive,
                UnavailabilityCategory::InvalidMarketData,
                diagnostic,
            )
            &&& !trade.0.trade_available
            &&& trade.0.trades == feed.trades
            &&& book.1.len() == 1
            &&& book.1[0] matches ActionView::Publish(EventView::OrderBookUnavailable(told))
            &&& announces(
                told,
                feed.book.venue,
                feed.coin,
                local_receive,
                UnavailabilityCategory::InvalidMarketData,
                diagnostic,
            )
        }),
{
}

/// A lost connection is announced as an interruption of the book and then of the trades, with
/// the reason and the time of the loss; what was seen of trades is not forgotten.
pub proof fn lemma_loss_announced<I>(
    feed: FeedView<I>,
    reason: Seq<char>,
    observed_at: LocalObservationTime,
)
    ensures
        ({
            let actions = feed.disconnect_actions(reason, observed_at);
            &&& actions.len() == 2
            &&& actions[0] matches ActionView::Publish(EventView::OrderBookUnavailable(book))
            &&& actions[1] matches ActionView::Publish(EventView::TradeStreamUnavailable(trades))
            &&& announces(
                book,
                feed.book.venue,
                feed.coin,
                observed_at,
                UnavailabilityCategory::Disconnected,
                reason,
            )
            &&& announces(
                trades,
                feed.book.venue,
                feed.coin,
                observed_at,
                UnavailabilityCategory::Disconnected,
                reason,
            )
        }),
        feed.disconnected().trades == feed.trades,
        feed.disconnected().coin == feed.coin,
        !feed.disconnected().trade_available,
        feed.disconnected().book.current() is None,
{
}

/// A trade that came before asks for nothing but its count, and leaves everything about the
/// market as it is but that count.
pub proof fn lemma_repeated_trade_only_counted<I>(
    feed: FeedView<I>,
    index: nat,
    local_receive: LocalObservationTime,
    trade: TradeView,
    identity: I,
)
    requires
        feed.trades.seen.contains(identity),
    ensures
        ({
            let after = feed.after_trade(index, local_receive, Ok((trade, identity)));
            &&& after.1 == seq![ActionView::TradeDeduplicated(index)]
            &&& after.0.trade_available == feed.trade_available
            &&& after.0.book == feed.book
            &&& after.0.coin == feed.coin
            &&& after.0.trades.seen == feed.trades.seen
            &&& feed.trades.duplicate_count < u64::MAX ==> after.0.trades.duplicate_count
                == feed.trades.duplicate_count + 1
        }),
{
}

} // verus!
