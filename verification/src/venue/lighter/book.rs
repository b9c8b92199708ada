//! The book of one Lighter market, kept up by numbered changes.
use vstd::prelude::*;

use crate::domain::decimal::{fractional_part, point_position, whole_part, DecimalParseError};
use crate::domain::{MarketCoin, Price, Quantity, Symbol, Venue};
use crate::market_data::event::{ExchangeTimeUnit, MarketTrade, TradeView};
use crate::market_data::order_book::{
    price_text, snapshot_of, SnapshotValidationError, SnapshotView,
};
use crate::market_data::{LocalObservationTime, OrderBook, OrderBookSnapshot};
use crate::text::{chars_of, decimal, decimal_text, same_text};
use crate::venue::action::{action_views, completions_read, AdapterAction};
use crate::venue::clock::ObservationClock;
use crate::venue::feed::{completed_trade, decoded_trade, FeedView, MarketFeed};
use crate::venue::levels::{level_error, level_error_text, BookSide};
use crate::venue::lighter::ladder::{ladder_levels, lemma_ladder_listable, listable, PriceLadder};
use crate::venue::lighter::metadata::LighterMarket;
use crate::venue::lighter::wire::{
    channel_market, decode_trade, envelope_text, fault_of, message_fault, level_views,
    market_id_behind, trade_reading, EnvelopeView, WireBook, WireBookView, WireEnvelope, WireLevel,
    WireLevelView, WireTrade, WireTradeView,
};
use crate::venue::streams::{event_times, event_timestamps};
use crate::venue::wire::{price_reading, quantity_reading, read_price, read_quantity};

verus! {

/// Whether a message was applied to the book.
#[derive(Clone, Copy, Debug, Eq, PartialEq, Structural)]
pub enum HandleOutcome {
    Applied,
    Ignored,
}

/// Why a message was rejected.
#[allow(inconsistent_fields)]
#[derive(Debug, Eq, PartialEq)]
pub enum AdapterError {
    InvalidJson(String),
    MissingBook,
    InvalidChannel(String),
    UnexpectedMarketId { expected: u32, actual: u32 },
    UpdateBeforeSnapshot,
    NonceGap { expected: u64, actual: u64 },
    InvalidPrice { side: BookSide, level: usize, source: DecimalParseError },
    InvalidQuantity { side: BookSide, level: usize, source: DecimalParseError },
    DuplicatePrice { side: BookSide, price: Price },
    InvalidSnapshot(SnapshotValidationError),
}

/// The model of `AdapterError`.
#[allow(inconsistent_fields)]
pub enum ErrorView {
    InvalidJson(Seq<char>),
    MissingBook,
    InvalidChannel(Seq<char>),
    UnexpectedMarketId { expected: u32, actual: u32 },
    UpdateBeforeSnapshot,
    NonceGap { expected: u64, actual: u64 },
    InvalidPrice { side: BookSide, level: nat, source: DecimalParseError },
    InvalidQuantity { side: BookSide, level: nat, source: DecimalParseError },
    DuplicatePrice { side: BookSide, price: Price },
    InvalidSnapshot(SnapshotValidationError),
}

impl View for AdapterError {
    type V = ErrorView;

    open spec fn view(&self) -> ErrorView {
        match *self {
            AdapterError::InvalidJson(detail) => ErrorView::InvalidJson(detail@),
            AdapterError::MissingBook => ErrorView::MissingBook,
            AdapterError::InvalidChannel(channel) => ErrorView::InvalidChannel(channel@),
            AdapterError::UnexpectedMarketId { expected, actual } => ErrorView::UnexpectedMarketId {
                expected,
                actual,
            },
            AdapterError::UpdateBeforeSnapshot => ErrorView::UpdateBeforeSnapshot,
            AdapterError::NonceGap { expected, actual } => ErrorView::NonceGap { expected, actual },
            AdapterError::InvalidPrice { side, level, source } => ErrorView::InvalidPrice {
                side,
                level: level as nat,
                source,
            },
            AdapterError::InvalidQuantity { side, level, source } => ErrorView::InvalidQuantity {
                side,
                level: level as nat,
                source,
            },
            AdapterError::DuplicatePrice { side, price } => ErrorView::DuplicatePrice {
                side,
                price,
            },
            AdapterError::InvalidSnapshot(error) => ErrorView::InvalidSnapshot(error),
        }
    }
}

impl ErrorView {
    /// The message of the error.
    pub open spec fn message(self) -> Seq<char> {
        match self {
            ErrorView::InvalidJson(detail) => "invalid WebSocket JSON: "@ + detail,
            ErrorView::MissingBook => "order-book message has no book payload"@,
            ErrorView::InvalidChannel(channel) => "invalid order-book channel "@ + channel,
            ErrorView::UnexpectedMarketId { expected, actual } => "expected market ID "@ + decimal(
                expected as nat,
            ) + ", received "@ + decimal(actual as nat),
            ErrorView::UpdateBeforeSnapshot => "update arrived before a snapshot"@,
            ErrorView::NonceGap { expected, actual } => "nonce gap: expected begin_nonce "@
                + decimal(expected as nat) + ", received "@ + decimal(actual as nat),
            ErrorView::InvalidPrice { side, level, source } => level_error(
                "price"@,
                side,
                level,
                source,
            ),
            ErrorView::InvalidQuantity { side, level, source } => level_error(
                "quantity"@,
                side,
                level,
                source,
            ),
            ErrorView::DuplicatePrice { side, price } => "duplicate "@ + side.label() + " price "@
                + price_text(price),
            ErrorView::InvalidSnapshot(error) => error.message(),
        }
    }
}

impl AdapterError {
    pub fn to_text(&self) -> (text: String)
        ensures
            text@ == self@.message(),
    {
        match self {
            AdapterError::InvalidJson(detail) => {
                let mut text: String = "invalid WebSocket JSON: ".to_owned();
                text.append(detail.as_str());
                text
            },
            AdapterError::MissingBook => "order-book message has no book payload".to_owned(),
            AdapterError::InvalidChannel(channel) => {
                let mut text: String = "invalid order-book channel ".to_owned();
                text.append(channel.as_str());
                text
            },
            AdapterError::UnexpectedMarketId { expected, actual } => {
                let mut text: String = "expected market ID ".to_owned();
                text.append(decimal_text(*expected as u128).as_str());
                text.append(", received ");
                text.append(decimal_text(*actual as u128).as_str());
                text
            },
            AdapterError::UpdateBeforeSnapshot => "update arrived before a snapshot".to_owned(),
            AdapterError::NonceGap { expected, actual } => {
                let mut text: String = "nonce gap: expected begin_nonce ".to_owned();
                text.append(decimal_text(*expected as u128).as_str());
                text.append(", received ");
                text.append(decimal_text(*actual as u128).as_str());
                text
            },
            AdapterError::InvalidPrice { side, level, source } => level_error_text(
                "price",
                *side,
                *level,
                *source,
            ),
            AdapterError::InvalidQuantity { side, level, source } => level_error_text(
                "quantity",
                *side,
                *level,
                *source,
            ),
            AdapterError::DuplicatePrice { side, price } => {
                let mut text: String = "duplicate ".to_owned();
                text.append(side.to_text());
                text.append(" price ");
                text.append(price.to_text().as_str());
                text
            },
            AdapterError::InvalidSnapshot(error) => error.to_text(),
        }
    }
}

/// A side as a snapshot delivers it, or what is wrong with its first wrong level.
pub open spec fn snapshot_side(levels: Seq<WireLevelView>, side: BookSide) -> Result<
    Map<Price, Quantity>,
    ErrorView,
>
    decreases levels.len(),
{
    if levels.len() == 0 {
        Ok(Map::empty())
    } else {
        let level = (levels.len() - 1) as nat;
        match snapshot_side(levels.drop_last(), side) {
            Err(error) => Err(error),
            Ok(decoded) => match price_reading(levels.last().price) {
                Err(source) => Err(ErrorView::InvalidPrice { side, level, source }),
                Ok(price) => match quantity_reading(levels.last().size) {
                    Err(source) => Err(ErrorView::InvalidQuantity { side, level, source }),
                    Ok(quantity) => if decoded.contains_key(price) {
                        Err(ErrorView::DuplicatePrice { side, price })
                    } else {
                        Ok(decoded.insert(price, quantity))
                    },
                },
            },
        }
    }
}

proof fn lemma_snapshot_side_fails(levels: Seq<WireLevelView>, i: int, side: BookSide)
    requires
        0 <= i <= levels.len(),
        snapshot_side(levels.take(i), side) is Err,
    ensures
        snapshot_side(levels, side) == snapshot_side(levels.take(i), side),
    decreases levels.len() - i,
{
    if i == levels.len() {
        assert(levels.take(i) =~= levels);
    } else {
        assert(levels.take(i + 1).drop_last() =~= levels.take(i));
        lemma_snapshot_side_fails(levels, i + 1, side);
    }
}

fn decode_snapshot_side(levels: &Vec<WireLevel>, side: BookSide) -> (result: Result<
    PriceLadder,
    AdapterError,
>)
    ensures
        match result {
            Ok(ladder) => ladder.well_formed() && snapshot_side(level_views(levels@), side) == Ok::<
                Map<Price, Quantity>,
                ErrorView,
            >(ladder@),
            Err(error) => snapshot_side(level_views(levels@), side) == Err::<
                Map<Price, Quantity>,
                ErrorView,
            >(error@),
        },
{
    let ghost views = level_views(levels@);
    let mut ladder: PriceLadder = PriceLadder::new();
    let mut i: usize = 0;
    assert(views.take(0) =~= Seq::<WireLevelView>::empty());
    while i < levels.len()
        invariant
            i <= levels.len(),
            views == level_views(levels@),
            ladder.well_formed(),
            snapshot_side(views.take(i as int), side) == Ok::<Map<Price, Quantity>, ErrorView>(
                ladder@,
            ),
        decreases levels.len() - i,
    {
        let ghost now = views.take(i + 1);
        proof {
            assert(now.drop_last() =~= views.take(i as int));
            assert(now.last() == levels@[i as int]@);
            if snapshot_side(now, side) is Err {
                lemma_snapshot_side_fails(views, i + 1, side);
            }
        }
        let price: Price = match read_price(levels[i].price.as_str()) {
            Ok(price) => price,
            Err(source) => return Err(AdapterError::InvalidPrice { side, level: i, source }),
        };
        let quantity: Quantity = match read_quantity(levels[i].size.as_str()) {
            Ok(quantity) => quantity,
            Err(source) => return Err(AdapterError::InvalidQuantity { side, level: i, source }),
        };
        if ladder.contains(price) {
            return Err(AdapterError::DuplicatePrice { side, price });
        }
        ladder.insert(price, quantity);
        i = i + 1;
    }
    assert(views.take(i as int) =~= views);
    Ok(ladder)
}

/// Whether every character is a zero.
pub open spec fn all_zeroes(text: Seq<char>) -> bool {
    forall|i: int| 0 <= i < text.len() ==> #[trigger] text[i] == '0'
}

/// A decimal that writes zero.
pub open spec fn zero_decimal(text: Seq<char>) -> bool {
    &&& whole_part(text).len() > 0
    &&& all_zeroes(whole_part(text))
    &&& point_position(text) < text.len() ==> fractional_part(text).len() > 0 && all_zeroes(
        fractional_part(text),
    )
}

proof fn lemma_point_at(text: Seq<char>, i: int)
    requires
        0 <= i <= text.len(),
        forall|j: int| 0 <= j < i ==> #[trigger] text[j] != '.',
        i < text.len() ==> text[i] == '.',
    ensures
        point_position(text) == i,
    decreases i,
{
    if i > 0 {
        let rest = text.drop_first();
        assert forall|j: int| 0 <= j < i - 1 implies #[trigger] rest[j] != '.' by {
            assert(rest[j] == text[j + 1]);
        }
        lemma_point_at(rest, i - 1);
    }
}

proof fn lemma_first_point(text: Seq<char>)
    ensures
        point_position(text) <= text.len(),
        forall|j: int| 0 <= j < point_position(text) ==> #[trigger] text[j] != '.',
        point_position(text) < text.len() ==> text[point_position(text) as int] == '.',
    decreases text.len(),
{
    if text.len() > 0 && text[0] != '.' {
        lemma_first_point(text.drop_first());
        assert forall|j: int| 0 <= j < point_position(text) implies #[trigger] text[j] != '.' by {
            if j > 0 {
                assert(text.drop_first()[j - 1] == text[j]);
            }
        }
    }
}

/// Whether a text is a decimal that writes zero.
pub fn is_zero_decimal(value: &str) -> (zero: bool)
    ensures
        zero == zero_decimal(value@),
{
    let chars: Vec<char> = chars_of(value);
    let mut i: usize = 0;
    proof {
        lemma_first_point(value@);
    }
    while i < chars.len() && chars[i] == '0'
        invariant
            i <= chars.len(),
            chars@ == value@,
            forall|j: int| 0 <= j < i ==> #[trigger] value@[j] == '0',
        decreases chars.len() - i,
    {
        i = i + 1;
    }
    let ghost point = point_position(value@);
    if i < chars.len() && chars[i] != '.' {
        proof {
            assert(point > i) by {
                if point <= i && point < value@.len() {
                    assert(value@[point as int] == '.');
                }
            }
            assert(whole_part(value@)[i as int] == value@[i as int]);
        }
        return false;
    }
    proof {
        lemma_point_at(value@, i as int);
        assert(all_zeroes(whole_part(value@)));
    }
    if i == 0 {
        return false;
    }
    if i == chars.len() {
        return true;
    }
    let start: usize = i + 1;
    let ghost fraction = fractional_part(value@);
    assert(fraction =~= value@.skip(start as int));
    if start == chars.len() {
        return false;
    }
    let mut k: usize = start;
    while k < chars.len()
        invariant
            start <= k <= chars.len(),
            chars@ == value@,
            fraction == value@.skip(start as int),
            fraction == fractional_part(value@),
            point_position(value@) < value@.len(),
            forall|j: int| 0 <= j < k - start ==> #[trigger] fraction[j] == '0',
        decreases chars.len() - k,
    {
        assert(fraction[k - start] == value@[k as int]);
        if chars[k] != '0' {
            return false;
        }
        k = k + 1;
    }
    assert(all_zeroes(fraction));
    true
}

/// A change: the new quantity at a price, or its removal.
pub open spec fn change_size(size: Seq<char>) -> Result<Option<Quantity>, DecimalParseError> {
    match quantity_reading(size) {
        Ok(quantity) => Ok(Some(quantity)),
        Err(error) => if error == DecimalParseError::NonPositive && zero_decimal(size) {
            Ok(None)
        } else {
            Err(error)
        },
    }
}

/// Whether a change is about the price.
pub open spec fn changes_price(changes: Seq<(Price, Option<Quantity>)>, price: Price) -> bool {
    exists|i: int| 0 <= i < changes.len() && (#[trigger] changes[i]).0 == price
}

/// The changes of a side, or what is wrong with the first wrong one.
pub open spec fn side_changes(levels: Seq<WireLevelView>, side: BookSide) -> Result<
    Seq<(Price, Option<Quantity>)>,
    ErrorView,
>
    decreases levels.len(),
{
    if levels.len() == 0 {
        Ok(Seq::empty())
    } else {
        let level = (levels.len() - 1) as nat;
        match side_changes(levels.drop_last(), side) {
            Err(error) => Err(error),
            Ok(changes) => match price_reading(levels.last().price) {
                Err(source) => Err(ErrorView::InvalidPrice { side, level, source }),
                Ok(price) => if changes_price(changes, price) {
                    Err(ErrorView::DuplicatePrice { side, price })
                } else {
                    match change_size(levels.last().size) {
                        Err(source) => Err(ErrorView::InvalidQuantity { side, level, source }),
                        Ok(quantity) => Ok(changes.push((price, quantity))),
                    }
                },
            },
        }
    }
}

proof fn lemma_side_changes_fail(levels: Seq<WireLevelView>, i: int, side: BookSide)
    requires
        0 <= i <= levels.len(),
        side_changes(levels.take(i), side) is Err,
    ensures
        side_changes(levels, side) == side_changes(levels.take(i), side),
    decreases levels.len() - i,
{
    if i == levels.len() {
        assert(levels.take(i) =~= levels);
    } else {
        assert(levels.take(i + 1).drop_last() =~= levels.take(i));
        lemma_side_changes_fail(levels, i + 1, side);
    }
}

fn about_price(changes: &Vec<(Price, Option<Quantity>)>, price: Price) -> (r: bool)
    ensures
        r == changes_price(changes@, price),
{
    let mut i: usize = 0;
    while i < changes.len()
        invariant
            i <= changes.len(),
            forall|j: int| 0 <= j < i ==> (#[trigger] changes@[j]).0 != price,
        decreases changes.len() - i,
    {
        if changes[i].0 == price {
            return true;
        }
        i = i + 1;
    }
    false
}

/// Whether the prices and quantities of changes are valid.
spec fn changes_valid(changes: Seq<(Price, Option<Quantity>)>) -> bool {
    forall|i: int|
        0 <= i < changes.len() ==> (#[trigger] changes[i]).0.valid() && (
        changes[i].1 matches Some(quantity) ==> quantity.valid())
}

fn decode_changes(levels: &Vec<WireLevel>, side: BookSide) -> (result: Result<
    Vec<(Price, Option<Quantity>)>,
    AdapterError,
>)
    ensures
        match result {
            Ok(changes) => changes_valid(changes@) && side_changes(level_views(levels@), side)
                == Ok::<Seq<(Price, Option<Quantity>)>, ErrorView>(changes@),
            Err(error) => side_changes(level_views(levels@), side) == Err::<
                Seq<(Price, Option<Quantity>)>,
                ErrorView,
            >(error@),
        },
{
    let ghost views = level_views(levels@);
    let mut changes: Vec<(Price, Option<Quantity>)> = Vec::new();
    let mut i: usize = 0;
    assert(views.take(0) =~= Seq::<WireLevelView>::empty());
    while i < levels.len()
        invariant
            i <= levels.len(),
            views == level_views(levels@),
            changes_valid(changes@),
            side_changes(views.take(i as int), side) == Ok::<
                Seq<(Price, Option<Quantity>)>,
                ErrorView,
            >(changes@),
        decreases levels.len() - i,
    {
        let ghost now = views.take(i + 1);
        proof {
            assert(now.drop_last() =~= views.take(i as int));
            assert(now.last() == levels@[i as int]@);
            if side_changes(now, side) is Err {
                lemma_side_changes_fail(views, i + 1, side);
            }
        }
        let price: Price = match read_price(levels[i].price.as_str()) {
            Ok(price) => price,
            Err(source) => return Err(AdapterError::InvalidPrice { side, level: i, source }),
        };
        if about_price(&changes, price) {
            return Err(AdapterError::DuplicatePrice { side, price });
        }
        let quantity: Option<Quantity> = match read_quantity(levels[i].size.as_str()) {
            Ok(quantity) => Some(quantity),
            Err(source) => {
                if source == DecimalParseError::NonPositive && is_zero_decimal(
                    levels[i].size.as_str(),
                ) {
                    None
                } else {
                    return Err(AdapterError::InvalidQuantity { side, level: i, source });
                }
            },
        };
        changes.push((price, quantity));
        i = i + 1;
    }
    assert(views.take(i as int) =~= views);
    Ok(changes)
}

/// A side after changes.
pub open spec fn changed(
    side: Map<Price, Quantity>,
    changes: Seq<(Price, Option<Quantity>)>,
) -> Map<Price, Quantity>
    decreases changes.len(),
{
    if changes.len() == 0 {
        side
    } else {
        let before = changed(side, changes.drop_last());
        match changes.last().1 {
            Some(quantity) => before.insert(changes.last().0, quantity),
            None => before.remove(changes.last().0),
        }
    }
}

fn apply_changes(ladder: &mut PriceLadder, changes: &Vec<(Price, Option<Quantity>)>)
    requires
        old(ladder).well_formed(),
        changes_valid(changes@),
    ensures
        final(ladder).well_formed(),
        final(ladder)@ == changed(old(ladder)@, changes@),
{
    let ghost before = ladder@;
    let mut i: usize = 0;
    assert(changes@.take(0) =~= Seq::<(Price, Option<Quantity>)>::empty());
    while i < changes.len()
        invariant
            i <= changes.len(),
            changes_valid(changes@),
            ladder.well_formed(),
            ladder@ == changed(before, changes@.take(i as int)),
        decreases changes.len() - i,
    {
        proof {
            assert(changes@.take(i + 1).drop_last() =~= changes@.take(i as int));
            assert(changes@.take(i + 1).last() == changes@[i as int]);
        }
        let (price, quantity) = changes[i];
        match quantity {
            Some(quantity) => ladder.insert(price, quantity),
            None => ladder.remove(price),
        }
        i = i + 1;
    }
    assert(changes@.take(i as int) =~= changes@);
}

/// The book and the trades of one market.
pub struct LighterOrderBookAdapter {
    market_id: u32,
    feed: MarketFeed<(u32, String)>,
    bids: PriceLadder,
    asks: PriceLadder,
    nonce: Option<u64>,
}

/// The model of `LighterOrderBookAdapter`.
pub struct LighterMarketView {
    pub market_id: u32,
    pub feed: FeedView<(u32, Seq<char>)>,
    pub bids: Map<Price, Quantity>,
    pub asks: Map<Price, Quantity>,
    /// The number of the last change, as long as nothing was missed since a snapshot.
    pub nonce: Option<u64>,
}

impl View for LighterOrderBookAdapter {
    type V = LighterMarketView;

    closed spec fn view(&self) -> LighterMarketView {
        LighterMarketView {
            market_id: self.market_id,
            feed: self.feed@,
            bids: self.bids@,
            asks: self.asks@,
            nonce: self.nonce,
        }
    }
}

/// The snapshot of two sides.
pub open spec fn sides_snapshot(
    coin: Seq<char>,
    bids: Map<Price, Quantity>,
    asks: Map<Price, Quantity>,
    wire: WireBookView,
    local_receive: LocalObservationTime,
) -> Result<SnapshotView, SnapshotValidationError> {
    snapshot_of(
        Venue::Lighter,
        coin,
        Some(wire.nonce),
        event_times(wire.last_updated_at, ExchangeTimeUnit::Unknown, local_receive),
        ladder_levels(bids),
        ladder_levels(asks),
    )
}

impl LighterMarketView {
    /// The book is the one of the market and of the venue.
    pub open spec fn of_market(self) -> bool {
        self.feed.of_market() && self.feed.book.venue == Venue::Lighter
    }

    /// After a message that cannot be applied: nothing is trusted until a snapshot.
    pub open spec fn rejected(self) -> LighterMarketView {
        LighterMarketView { nonce: None, feed: self.feed.invalidated(), ..self }
    }

    /// With a snapshot in place.
    pub open spec fn installed(
        self,
        nonce: u64,
        snapshot: SnapshotView,
        completed: LocalObservationTime,
    ) -> LighterMarketView {
        LighterMarketView {
            nonce: Some(nonce),
            feed: self.feed.installed(snapshot, completed),
            ..self
        }
    }

    /// After a full book.
    pub open spec fn after_snapshot(
        self,
        wire: WireBookView,
        local_receive: LocalObservationTime,
        completed: LocalObservationTime,
    ) -> (LighterMarketView, Result<HandleOutcome, ErrorView>) {
        match snapshot_side(wire.bids, BookSide::Bid) {
            Err(error) => (self.rejected(), Err(error)),
            Ok(bids) => match snapshot_side(wire.asks, BookSide::Ask) {
                Err(error) => (self.rejected(), Err(error)),
                Ok(asks) => match sides_snapshot(self.feed.coin, bids, asks, wire, local_receive) {
                    Err(error) => (self.rejected(), Err(ErrorView::InvalidSnapshot(error))),
                    Ok(snapshot) => (
                        (LighterMarketView { bids, asks, ..self }).installed(
                            wire.nonce,
                            snapshot,
                            completed,
                        ),
                        Ok(HandleOutcome::Applied),
                    ),
                },
            },
        }
    }

    /// After changes of the book.
    pub open spec fn after_update(
        self,
        wire: WireBookView,
        local_receive: LocalObservationTime,
        completed: LocalObservationTime,
    ) -> (LighterMarketView, Result<HandleOutcome, ErrorView>) {
        if self.nonce is None {
            (self.rejected(), Err(ErrorView::UpdateBeforeSnapshot))
        } else if wire.begin_nonce != self.nonce->Some_0 {
            (
                self.rejected(),
                Err(
                    ErrorView::NonceGap {
                        expected: self.nonce->Some_0,
                        actual: wire.begin_nonce,
                    },
                ),
            )
        } else {
            match side_changes(wire.bids, BookSide::Bid) {
                Err(error) => (self.rejected(), Err(error)),
                Ok(bid_changes) => match side_changes(wire.asks, BookSide::Ask) {
                    Err(error) => (self.rejected(), Err(error)),
                    Ok(ask_changes) => {
                        let bids = changed(self.bids, bid_changes);
                        let asks = changed(self.asks, ask_changes);
                        let after = LighterMarketView { bids, asks, ..self };
                        match sides_snapshot(self.feed.coin, bids, asks, wire, local_receive) {
                            Err(error) => (after.rejected(), Err(ErrorView::InvalidSnapshot(error))),
                            Ok(snapshot) => (
                                after.installed(wire.nonce, snapshot, completed),
                                Ok(HandleOutcome::Applied),
                            ),
                        }
                    },
                },
            }
        }
    }

    /// After a message about the book of a market.
    pub open spec fn after_envelope(
        self,
        envelope: EnvelopeView,
        local_receive: LocalObservationTime,
        completed: LocalObservationTime,
    ) -> (LighterMarketView, Result<HandleOutcome, ErrorView>) {
        let is_snapshot = envelope.kind == "subscribed/order_book"@;
        if !is_snapshot && envelope.kind != "update/order_book"@ {
            (self, Ok(HandleOutcome::Ignored))
        } else {
            match channel_market(envelope.channel, "order_book:"@) {
                None => (self.rejected(), Err(ErrorView::InvalidChannel(envelope.channel))),
                Some(actual) => if actual != self.market_id {
                    (
                        self.rejected(),
                        Err(ErrorView::UnexpectedMarketId { expected: self.market_id, actual }),
                    )
                } else {
                    match envelope.order_book {
                        None => (self.rejected(), Err(ErrorView::MissingBook)),
                        Some(wire) => if is_snapshot {
                            self.after_snapshot(wire, local_receive, completed)
                        } else {
                            self.after_update(wire, local_receive, completed)
                        },
                    }
                },
            }
        }
    }

    /// After a text.
    pub open spec fn after_message(
        self,
        message: Seq<char>,
        local_receive: LocalObservationTime,
        completed: LocalObservationTime,
    ) -> (LighterMarketView, Result<HandleOutcome, ErrorView>) {
        match envelope_text(message) {
            None => (self.rejected(), Err(ErrorView::InvalidJson(message_fault(message)))),
            Some(envelope) => self.after_envelope(envelope, local_receive, completed),
        }
    }

    /// After the connection was lost.
    pub open spec fn disconnected(self) -> LighterMarketView {
        LighterMarketView { nonce: None, feed: self.feed.disconnected(), ..self }
    }
}

/// The model of what became of a message.
pub open spec fn outcome_view(result: Result<HandleOutcome, AdapterError>) -> Result<
    HandleOutcome,
    ErrorView,
> {
    match result {
        Ok(outcome) => Ok(outcome),
        Err(error) => Err(error@),
    }
}

impl LighterOrderBookAdapter {
    /// The book is the one of the market, and its sides are in order.
    pub closed spec fn well_formed(self) -> bool {
        &&& self@.of_market()
        &&& self.feed.well_formed()
        &&& self.bids.well_formed()
        &&& self.asks.well_formed()
    }

    pub fn new(market: LighterMarket, trade_dedup_capacity: usize) -> (adapter: Self)
        requires
            trade_dedup_capacity > 0,
        ensures
            adapter.well_formed(),
            adapter@ == (LighterMarketView {
                market_id: market.market_id,
                feed: FeedView::fresh(
                    Venue::Lighter,
                    market.market_coin@,
                    trade_dedup_capacity as nat,
                ),
                bids: Map::empty(),
                asks: Map::empty(),
                nonce: None,
            }),
    {
        LighterOrderBookAdapter {
            market_id: market.market_id,
            feed: MarketFeed::new(Venue::Lighter, market.market_coin, trade_dedup_capacity),
            bids: PriceLadder::new(),
            asks: PriceLadder::new(),
            nonce: None,
        }
    }

    pub fn market_id(&self) -> (id: u32)
        ensures
            id == self@.market_id,
    {
        self.market_id
    }

    pub fn market_coin(&self) -> (coin: &MarketCoin)
        ensures
            coin@ == self@.feed.coin,
    {
        self.feed.market_coin()
    }

    pub fn book(&self) -> (book: &OrderBook)
        ensures
            book@ == self@.feed.book,
    {
        self.feed.book()
    }

    /// The number of the last change, as long as nothing was missed since a snapshot.
    pub fn nonce(&self) -> (nonce: Option<u64>)
        ensures
            nonce == self@.nonce,
    {
        self.nonce
    }

    fn reject(&mut self, error: AdapterError) -> (result: Result<HandleOutcome, AdapterError>)
        requires
            old(self).well_formed(),
        ensures
            final(self).well_formed(),
            final(self)@ == old(self)@.rejected(),
            outcome_view(result) == Err::<HandleOutcome, ErrorView>(error@),
    {
        self.nonce = None;
        self.feed.invalidate();
        Err(error)
    }

    fn snapshot(&self, bids: &PriceLadder, asks: &PriceLadder, wire: &WireBook, local_receive:
        LocalObservationTime) -> (result: Result<OrderBookSnapshot, SnapshotValidationError>)
        requires
            bids.well_formed(),
            asks.well_formed(),
            self@.of_market(),
        ensures
            sides_snapshot(self@.feed.coin, bids@, asks@, wire@, local_receive) == (match result {
                Ok(snapshot) => Ok::<SnapshotView, SnapshotValidationError>(snapshot@),
                Err(error) => Err(error),
            }),
            result matches Ok(snapshot) ==> self@.feed.book.accepts(snapshot@),
    {
        OrderBookSnapshot::try_new(
            Venue::Lighter,
            Symbol::perpetual(self.feed.market_coin().clone()),
            Some(wire.nonce),
            event_timestamps(wire.last_updated_at, ExchangeTimeUnit::Unknown, local_receive),
            bids.levels(),
            asks.levels(),
        )
    }

    fn apply_snapshot<C: ObservationClock>(
        &mut self,
        wire: &WireBook,
        local_receive: LocalObservationTime,
        clock: &C,
    ) -> (result: Result<HandleOutcome, AdapterError>)
        requires
            old(self).well_formed(),
        ensures
            final(self).well_formed(),
            exists|completed: LocalObservationTime|
                (final(self)@, outcome_view(result)) == #[trigger] old(self)@.after_snapshot(
                    wire@,
                    local_receive,
                    completed,
                ),
            result == Ok::<HandleOutcome, AdapterError>(HandleOutcome::Applied) ==> book_read(
                final(self)@,
                *clock,
            ),
            final(self)@.feed.coin == old(self)@.feed.coin,
            final(self)@.market_id == old(self)@.market_id,
    {
        let ghost before = self@;
        let bids: PriceLadder = match decode_snapshot_side(&wire.bids, BookSide::Bid) {
            Ok(side) => side,
            Err(error) => {
                let result = self.reject(error);
                assert((self@, outcome_view(result)) == before.after_snapshot(
                    wire@,
                    local_receive,
                    local_receive,
                ));
                return result;
            },
        };
        let asks: PriceLadder = match decode_snapshot_side(&wire.asks, BookSide::Ask) {
            Ok(side) => side,
            Err(error) => {
                let result = self.reject(error);
                assert((self@, outcome_view(result)) == before.after_snapshot(
                    wire@,
                    local_receive,
                    local_receive,
                ));
                return result;
            },
        };
        match self.snapshot(&bids, &asks, wire, local_receive) {
            Err(error) => {
                let result = self.reject(AdapterError::InvalidSnapshot(error));
                assert((self@, outcome_view(result)) == before.after_snapshot(
                    wire@,
                    local_receive,
                    local_receive,
                ));
                result
            },
            Ok(snapshot) => {
                self.bids = bids;
                self.asks = asks;
                self.nonce = Some(wire.nonce);
                let completed: LocalObservationTime = clock.now();
                self.feed.install(snapshot, completed);
                let result = Ok(HandleOutcome::Applied);
                assert((self@, outcome_view(result)) == before.after_snapshot(
                    wire@,
                    local_receive,
                    completed,
                ));
                result
            },
        }
    }

    fn apply_update<C: ObservationClock>(
        &mut self,
        wire: &WireBook,
        local_receive: LocalObservationTime,
        clock: &C,
    ) -> (result: Result<HandleOutcome, AdapterError>)
        requires
            old(self).well_formed(),
        ensures
            final(self).well_formed(),
            exists|completed: LocalObservationTime|
                (final(self)@, outcome_view(result)) == #[trigger] old(self)@.after_update(
                    wire@,
                    local_receive,
                    completed,
                ),
            result == Ok::<HandleOutcome, AdapterError>(HandleOutcome::Applied) ==> book_read(
                final(self)@,
                *clock,
            ),
            final(self)@.feed.coin == old(self)@.feed.coin,
            final(self)@.market_id == old(self)@.market_id,
    {
        let ghost before = self@;
        let current: u64 = match self.nonce {
            Some(nonce) => nonce,
            None => {
                let result = self.reject(AdapterError::UpdateBeforeSnapshot);
                assert((self@, outcome_view(result)) == before.after_update(
                    wire@,
                    local_receive,
                    local_receive,
                ));
                return result;
            },
        };
        if wire.begin_nonce != current {
            let result = self.reject(
                AdapterError::NonceGap { expected: current, actual: wire.begin_nonce },
            );
            assert((self@, outcome_view(result)) == before.after_update(
                wire@,
                local_receive,
                local_receive,
            ));
            return result;
        }
        let bid_changes: Vec<(Price, Option<Quantity>)> = match decode_changes(
            &wire.bids,
            BookSide::Bid,
        ) {
            Ok(changes) => changes,
            Err(error) => {
                let result = self.reject(error);
                assert((self@, outcome_view(result)) == before.after_update(
                    wire@,
                    local_receive,
                    local_receive,
                ));
                return result;
            },
        };
        let ask_changes: Vec<(Price, Option<Quantity>)> = match decode_changes(
            &wire.asks,
            BookSide::Ask,
        ) {
            Ok(changes) => changes,
            Err(error) => {
                let result = self.reject(error);
                assert((self@, outcome_view(result)) == before.after_update(
                    wire@,
                    local_receive,
                    local_receive,
                ));
                return result;
            },
        };
        apply_changes(&mut self.bids, &bid_changes);
        apply_changes(&mut self.asks, &ask_changes);
        match self.snapshot(&self.bids, &self.asks, wire, local_receive) {
            Err(error) => {
                let result = self.reject(AdapterError::InvalidSnapshot(error));
                assert((self@, outcome_view(result)) == before.after_update(
                    wire@,
                    local_receive,
                    local_receive,
                ));
                result
            },
            Ok(snapshot) => {
                self.nonce = Some(wire.nonce);
                let completed: LocalObservationTime = clock.now();
                self.feed.install(snapshot, completed);
                let result = Ok(HandleOutcome::Applied);
                assert((self@, outcome_view(result)) == before.after_update(
                    wire@,
                    local_receive,
                    completed,
                ));
                result
            },
        }
    }

    /// Applies a message about the book of a market. One that cannot be applied makes the
    /// book unavailable until the next snapshot.
    pub fn apply_envelope<C: ObservationClock>(
        &mut self,
        envelope: &WireEnvelope,
        local_receive: LocalObservationTime,
        clock: &C,
    ) -> (result: Result<HandleOutcome, AdapterError>)
        requires
            old(self).well_formed(),
        ensures
            final(self).well_formed(),
            exists|completed: LocalObservationTime|
                (final(self)@, outcome_view(result)) == #[trigger] old(self)@.after_envelope(
                    envelope@,
                    local_receive,
                    completed,
                ),
            result == Ok::<HandleOutcome, AdapterError>(HandleOutcome::Applied) ==> book_read(
                final(self)@,
                *clock,
            ),
            final(self)@.feed.coin == old(self)@.feed.coin,
            final(self)@.market_id == old(self)@.market_id,
    {
        let ghost before = self@;
        let is_snapshot: bool = same_text(envelope.kind.as_str(), "subscribed/order_book");
        if !is_snapshot && !same_text(envelope.kind.as_str(), "update/order_book") {
            let result = Ok(HandleOutcome::Ignored);
            assert((self@, outcome_view(result)) == before.after_envelope(
                envelope@,
                local_receive,
                local_receive,
            ));
            return result;
        }
        let actual: u32 = match market_id_behind(envelope.channel.as_str(), "order_book:") {
            Some(id) => id,
            None => {
                let result = self.reject(AdapterError::InvalidChannel(envelope.channel.clone()));
                assert((self@, outcome_view(result)) == before.after_envelope(
                    envelope@,
                    local_receive,
                    local_receive,
                ));
                return result;
            },
        };
        if actual != self.market_id {
            let result = self.reject(
                AdapterError::UnexpectedMarketId { expected: self.market_id, actual },
            );
            assert((self@, outcome_view(result)) == before.after_envelope(
                envelope@,
                local_receive,
                local_receive,
            ));
            return result;
        }
        let wire: &WireBook = match &envelope.order_book {
            Some(wire) => wire,
            None => {
                let result = self.reject(AdapterError::MissingBook);
                assert((self@, outcome_view(result)) == before.after_envelope(
                    envelope@,
                    local_receive,
                    local_receive,
                ));
                return result;
            },
        };
        assert(envelope@.order_book == Some(wire@));
        if is_snapshot {
            let result = self.apply_snapshot(wire, local_receive, clock);
            proof {
                let completed = choose|completed: LocalObservationTime|
                    (self@, outcome_view(result)) == #[trigger] before.after_snapshot(
                        wire@,
                        local_receive,
                        completed,
                    );
                assert((self@, outcome_view(result)) == before.after_envelope(
                    envelope@,
                    local_receive,
                    completed,
                ));
            }
            result
        } else {
            let result = self.apply_update(wire, local_receive, clock);
            proof {
                let completed = choose|completed: LocalObservationTime|
                    (self@, outcome_view(result)) == #[trigger] before.after_update(
                        wire@,
                        local_receive,
                        completed,
                    );
                assert((self@, outcome_view(result)) == before.after_envelope(
                    envelope@,
                    local_receive,
                    completed,
                ));
            }
            result
        }
    }

    /// Applies a text. One that is no message is rejected too.
    pub fn handle_message<C: ObservationClock>(
        &mut self,
        message: &str,
        local_receive: LocalObservationTime,
        clock: &C,
    ) -> (result: Result<HandleOutcome, AdapterError>)
        requires
            old(self).well_formed(),
        ensures
            final(self).well_formed(),
            exists|completed: LocalObservationTime|
                (final(self)@, outcome_view(result)) == #[trigger] old(self)@.after_message(
                    message@,
                    local_receive,
                    completed,
                ),
            result == Ok::<HandleOutcome, AdapterError>(HandleOutcome::Applied) ==> book_read(
                final(self)@,
                *clock,
            ),
    {
        let ghost before = self@;
        match WireEnvelope::parse(message) {
            None => {
                let result = self.reject(AdapterError::InvalidJson(fault_of(message)));
                assert((self@, outcome_view(result)) == before.after_message(
                    message@,
                    local_receive,
                    local_receive,
                ));
                result
            },
            Some(envelope) => {
                let result = self.apply_envelope(&envelope, local_receive, clock);
                proof {
                    let completed = choose|completed: LocalObservationTime|
                        (self@, outcome_view(result)) == #[trigger] before.after_envelope(
                            envelope@,
                            local_receive,
                            completed,
                        );
                    assert((self@, outcome_view(result)) == before.after_message(
                        message@,
                        local_receive,
                        completed,
                    ));
                }
                result
            },
        }
    }

    /// Makes book and trades unavailable.
    pub fn disconnect(&mut self, reason: &str, observed_at: LocalObservationTime) -> (actions: Vec<
        AdapterAction,
    >)
        requires
            old(self).well_formed(),
        ensures
            final(self).well_formed(),
            final(self)@ == old(self)@.disconnected(),
            action_views(actions@) == old(self)@.feed.disconnect_actions(reason@, observed_at),
    {
        self.nonce = None;
        self.feed.disconnect(reason, observed_at)
    }

    /// Takes in a report of a trade. Says what is asked for, and whether the trades of the
    /// market cannot be told apart any more.
    pub fn apply_trade<C: ObservationClock>(
        &mut self,
        index: usize,
        wire: &WireTrade,
        message_nonce: Option<u64>,
        local_receive: LocalObservationTime,
        clock: &C,
    ) -> (result: (Vec<AdapterAction>, bool))
        requires
            old(self).well_formed(),
        ensures
            final(self).well_formed(),
            exists|completed: LocalObservationTime|
                ({
                    let decoded = #[trigger] identified_trade(
                        old(self)@,
                        message_nonce,
                        wire@,
                        local_receive,
                        completed,
                    );
                    let step = old(self)@.feed.after_trade(index as nat, local_receive, decoded);
                    &&& final(self)@ == (LighterMarketView { feed: step.0, ..old(self)@ })
                    &&& action_views(result.0@) == step.1
                    &&& result.1 == old(self)@.feed.stops(decoded)
                }),
            completions_read(action_views(result.0@), *clock),
    {
        let decoded: Result<(MarketTrade, (u32, String)), String> = match decode_trade(
            wire,
            self.market_id,
            self.feed.market_coin(),
            message_nonce,
            local_receive,
            local_receive,
        ) {
            Ok(trade) => Ok((trade, (wire.market_id, wire.trade_id_str.clone()))),
            Err(error) => Err(error),
        };
        let ghost before = self@;
        let ghost model = decoded_trade(decoded);
        let result = self.feed.apply_trade(index, local_receive, decoded, clock);
        proof {
            let completed = choose|completed: LocalObservationTime|
                (self@.feed, action_views(result.0@)) == before.feed.after_trade(
                    index as nat,
                    local_receive,
                    #[trigger] completed_trade(model, completed),
                );
            assert(completed_trade(model, completed) == identified_trade(
                before,
                message_nonce,
                wire@,
                local_receive,
                completed,
            ));
        }
        result
    }
}

/// Whether a market has a book whose processing was complete at a reading of the clock.
pub open spec fn book_read<C: ObservationClock>(market: LighterMarketView, clock: C) -> bool {
    match market.feed.book.current() {
        Some(snapshot) => clock.reads(snapshot.timestamps.processing_completed),
        None => false,
    }
}

/// The trade and its identity that a delivered trade stands for, or why it stands for
/// none.
pub open spec fn identified_trade(
    market: LighterMarketView,
    message_nonce: Option<u64>,
    wire: WireTradeView,
    local_receive: LocalObservationTime,
    completed: LocalObservationTime,
) -> Result<(TradeView, (u32, Seq<char>)), Seq<char>> {
    match trade_reading(
        market.market_id,
        market.feed.coin,
        message_nonce,
        wire,
        local_receive,
        completed,
    ) {
        Err(error) => Err(error),
        Ok(trade) => Ok((trade, (wire.market_id, wire.trade_id_str))),
    }
}

/// The sides of a market that is in order can be listed.
pub proof fn lemma_sides_listable(adapter: LighterOrderBookAdapter)
    requires
        adapter.well_formed(),
    ensures
        listable(adapter@.bids),
        listable(adapter@.asks),
        adapter@.of_market(),
{
    lemma_ladder_listable(adapter.bids);
    lemma_ladder_listable(adapter.asks);
}

/// An update that does not follow without a gap makes the book unavailable: later updates
/// are rejected and no snapshot is offered, until a full book is accepted.
pub proof fn lemma_gap_until_snapshot(
    market: LighterMarketView,
    wire: WireBookView,
    next: WireBookView,
    local_receive: LocalObservationTime,
    completed: LocalObservationTime,
)
    requires
        market.nonce is Some,
        wire.begin_nonce != market.nonce->Some_0,
    ensures
        ({
            let after = market.after_update(wire, local_receive, completed);
            &&& after.1 == Err::<HandleOutcome, ErrorView>(
                ErrorView::NonceGap { expected: market.nonce->Some_0, actual: wire.begin_nonce },
            )
            &&& after.0.feed.book.current() is None
            &&& after.0.after_update(next, local_receive, completed) == (
                after.0.rejected(),
                Err::<HandleOutcome, ErrorView>(ErrorView::UpdateBeforeSnapshot),
            )
            &&& after.0.after_snapshot(next, local_receive, completed).1 is Ok
                ==> after.0.after_snapshot(
                next,
                local_receive,
                completed,
            ).0.feed.book.current() is Some
        }),
{
}

} // verus!
