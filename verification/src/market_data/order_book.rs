//! Order-book snapshots and the book state of one market.
use vstd::prelude::*;

use crate::domain::decimal::scaled_text;
use crate::domain::price::lemma_price_value;
use crate::domain::symbol::market_coin_error;
use crate::domain::{Price, Quantity, Symbol, Venue};
use crate::market_data::event::{EventTimestamps, LocalObservationTime, TimestampsView};
use crate::text::{debug_rendering, debug_text, same_text};

verus! {

/// How many resting orders make up a level; never zero.
#[derive(Clone, Copy, Debug, Eq, PartialEq, Structural)]
pub struct OrderCount(u32);

impl OrderCount {
    /// The number of orders.
    pub closed spec fn count(self) -> u32 {
        self.0
    }

    #[verifier::type_invariant]
    spec fn positive(self) -> bool {
        self.0 > 0
    }

    /// A count, unless it is zero.
    pub fn new(value: u32) -> (count: Option<Self>)
        ensures
            match count {
                Some(count) => value > 0 && count.count() == value,
                None => value == 0,
            },
    {
        if value == 0 {
            None
        } else {
            Some(OrderCount(value))
        }
    }

    pub fn get(self) -> (value: u32)
        ensures
            value == self.count(),
            value > 0,
    {
        proof {
            use_type_invariant(&self);
        }
        self.0
    }
}

/// A count is determined by its number.
pub proof fn lemma_order_count(left: OrderCount, right: OrderCount)
    ensures
        left.count() == right.count() ==> left == right,
{
}

/// There is a count with every number.
pub proof fn lemma_order_count_exists(number: u32) -> (count: OrderCount)
    ensures
        count.count() == number,
{
    OrderCount(number)
}

/// One aggregated price level.
#[derive(Clone, Copy, Debug, Eq, PartialEq, Structural)]
pub struct BookLevel {
    pub price: Price,
    pub quantity: Quantity,
    pub order_count: Option<OrderCount>,
}

impl BookLevel {
    /// Whether price, quantity and count are values that can exist.
    pub open spec fn valid(self) -> bool {
        &&& self.price.valid()
        &&& self.quantity.valid()
        &&& self.order_count matches Some(count) ==> count.count() > 0
    }

    pub fn new(price: Price, quantity: Quantity, order_count: Option<OrderCount>) -> (level: Self)
        ensures
            level == (BookLevel { price, quantity, order_count }),
    {
        BookLevel { price, quantity, order_count }
    }

    pub fn price(self) -> (price: Price)
        ensures
            price == self.price,
    {
        self.price
    }

    pub fn quantity(self) -> (quantity: Quantity)
        ensures
            quantity == self.quantity,
    {
        self.quantity
    }

    pub fn order_count(self) -> (count: Option<OrderCount>)
        ensures
            count == self.order_count,
    {
        self.order_count
    }

    /// Makes known that the values of a level are valid.
    pub fn observe_valid(&self) -> (valid: bool)
        ensures
            valid,
            self.valid(),
    {
        let _ = self.price.coefficient();
        let _ = self.quantity.coefficient();
        if let Some(count) = self.order_count {
            let _ = count.get();
        }
        true
    }
}

/// Whether every level holds valid values.
pub open spec fn levels_valid(levels: Seq<BookLevel>) -> bool {
    forall|i: int| 0 <= i < levels.len() ==> (#[trigger] levels[i]).valid()
}

/// Prices strictly falling.
pub open spec fn descending(levels: Seq<BookLevel>) -> bool {
    forall|i: int, j: int|
        0 <= i < j < levels.len() ==> (#[trigger] levels[i]).price.units() > (
        #[trigger] levels[j]).price.units()
}

/// Prices strictly rising.
pub open spec fn ascending(levels: Seq<BookLevel>) -> bool {
    forall|i: int, j: int|
        0 <= i < j < levels.len() ==> (#[trigger] levels[i]).price.units() < (
        #[trigger] levels[j]).price.units()
}

/// Two levels carry the price.
pub open spec fn duplicated(levels: Seq<BookLevel>, price: Price) -> bool {
    exists|i: int, j: int|
        0 <= i < j < levels.len() && (#[trigger] levels[i]).price == price && (
        #[trigger] levels[j]).price == price
}

/// Some price occurs twice.
pub open spec fn has_duplicate(levels: Seq<BookLevel>) -> bool {
    exists|price: Price| duplicated(levels, price)
}

/// The highest price that occurs twice.
pub open spec fn highest_duplicate(levels: Seq<BookLevel>, price: Price) -> bool {
    &&& duplicated(levels, price)
    &&& forall|other: Price| duplicated(levels, other) ==> other.units() <= price.units()
}

/// The lowest price that occurs twice.
pub open spec fn lowest_duplicate(levels: Seq<BookLevel>, price: Price) -> bool {
    &&& duplicated(levels, price)
    &&& forall|other: Price| duplicated(levels, other) ==> other.units() >= price.units()
}

/// The highest price of the levels.
pub open spec fn highest_price(levels: Seq<BookLevel>, price: Price) -> bool {
    &&& exists|i: int| 0 <= i < levels.len() && (#[trigger] levels[i]).price == price
    &&& forall|i: int|
        0 <= i < levels.len() ==> (#[trigger] levels[i]).price.units() <= price.units()
}

/// The lowest price of the levels.
pub open spec fn lowest_price(levels: Seq<BookLevel>, price: Price) -> bool {
    &&& exists|i: int| 0 <= i < levels.len() && (#[trigger] levels[i]).price == price
    &&& forall|i: int|
        0 <= i < levels.len() ==> (#[trigger] levels[i]).price.units() >= price.units()
}

/// The full accepted depth of one market at one instant.
#[derive(Debug, Eq, PartialEq)]
pub struct OrderBookSnapshot {
    venue: Venue,
    symbol: Symbol,
    source_sequence: Option<u64>,
    timestamps: EventTimestamps,
    bids: Vec<BookLevel>,
    asks: Vec<BookLevel>,
}

/// The model of `OrderBookSnapshot`.
pub struct SnapshotView {
    pub venue: Venue,
    pub coin: Seq<char>,
    pub source_sequence: Option<u64>,
    pub timestamps: TimestampsView,
    pub bids: Seq<BookLevel>,
    pub asks: Seq<BookLevel>,
}

impl SnapshotView {
    /// Both sides hold distinct prices, best first, and do not touch.
    pub open spec fn valid(self) -> bool {
        &&& market_coin_error(self.coin) is None
        &&& self.bids.len() > 0
        &&& self.asks.len() > 0
        &&& levels_valid(self.bids)
        &&& levels_valid(self.asks)
        &&& descending(self.bids)
        &&& ascending(self.asks)
        &&& self.bids[0].price.units() < self.asks[0].price.units()
    }
}

impl View for OrderBookSnapshot {
    type V = SnapshotView;

    closed spec fn view(&self) -> SnapshotView {
        SnapshotView {
            venue: self.venue,
            coin: self.symbol@,
            source_sequence: self.source_sequence,
            timestamps: self.timestamps@,
            bids: self.bids@,
            asks: self.asks@,
        }
    }
}

impl Clone for OrderBookSnapshot {
    fn clone(&self) -> (copy: Self)
        ensures
            copy@ == self@,
    {
        proof {
            use_type_invariant(self);
        }
        OrderBookSnapshot {
            venue: self.venue,
            symbol: self.symbol.clone(),
            source_sequence: self.source_sequence,
            timestamps: self.timestamps.clone(),
            bids: vstd::slice::slice_to_vec(self.bids.as_slice()),
            asks: vstd::slice::slice_to_vec(self.asks.as_slice()),
        }
    }
}

/// Why levels do not form a snapshot.
#[derive(Clone, Copy, Debug, Eq, PartialEq, Structural)]
pub enum SnapshotValidationError {
    EmptyBids,
    EmptyAsks,
    DuplicateBid(Price),
    DuplicateAsk(Price),
    LockedOrCrossed { best_bid: Price, best_ask: Price },
}

/// What becomes of levels that a venue delivered in any order: either the
/// snapshot that holds exactly these levels, or the reason for which there is
/// none.
pub open spec fn snapshot_outcome(
    venue: Venue,
    coin: Seq<char>,
    source_sequence: Option<u64>,
    timestamps: TimestampsView,
    bids: Seq<BookLevel>,
    asks: Seq<BookLevel>,
    outcome: Result<SnapshotView, SnapshotValidationError>,
) -> bool {
    match outcome {
        Ok(snapshot) => {
            &&& snapshot.valid()
            &&& snapshot.venue == venue
            &&& snapshot.coin == coin
            &&& snapshot.source_sequence == source_sequence
            &&& snapshot.timestamps == timestamps
            &&& snapshot.bids.to_multiset() == bids.to_multiset()
            &&& snapshot.asks.to_multiset() == asks.to_multiset()
        },
        Err(SnapshotValidationError::EmptyBids) => bids.len() == 0,
        Err(SnapshotValidationError::EmptyAsks) => bids.len() > 0 && asks.len() == 0,
        Err(SnapshotValidationError::DuplicateBid(price)) => {
            &&& bids.len() > 0
            &&& asks.len() > 0
            &&& highest_duplicate(bids, price)
        },
        Err(SnapshotValidationError::DuplicateAsk(price)) => {
            &&& bids.len() > 0
            &&& asks.len() > 0
            &&& !has_duplicate(bids)
            &&& lowest_duplicate(asks, price)
        },
        Err(SnapshotValidationError::LockedOrCrossed { best_bid, best_ask }) => {
            &&& !has_duplicate(bids)
            &&& !has_duplicate(asks)
            &&& highest_price(bids, best_bid)
            &&& lowest_price(asks, best_ask)
            &&& best_bid.units() >= best_ask.units()
        },
    }
}

/// The model of what became of levels.
pub open spec fn outcome_view(
    result: Result<OrderBookSnapshot, SnapshotValidationError>,
) -> Result<SnapshotView, SnapshotValidationError> {
    match result {
        Ok(snapshot) => Ok(snapshot@),
        Err(error) => Err(error),
    }
}

/// The one thing that becomes of levels that a venue delivered.
pub open spec fn snapshot_of(
    venue: Venue,
    coin: Seq<char>,
    source_sequence: Option<u64>,
    timestamps: TimestampsView,
    bids: Seq<BookLevel>,
    asks: Seq<BookLevel>,
) -> Result<SnapshotView, SnapshotValidationError> {
    choose|outcome: Result<SnapshotView, SnapshotValidationError>|
        snapshot_outcome(venue, coin, source_sequence, timestamps, bids, asks, outcome)
}

/// Whether `left` may stand before `right` in the given direction.
spec fn in_order(left: BookLevel, right: BookLevel, falling: bool) -> bool {
    if falling {
        left.price.units() >= right.price.units()
    } else {
        left.price.units() <= right.price.units()
    }
}

spec fn ordered(levels: Seq<BookLevel>, falling: bool) -> bool {
    forall|i: int, j: int|
        0 <= i < j < levels.len() ==> in_order(#[trigger] levels[i], #[trigger] levels[j], falling)
}

proof fn lemma_pair_moves(from: Seq<BookLevel>, to: Seq<BookLevel>, i: int, j: int)
    requires
        from.to_multiset() == to.to_multiset(),
        0 <= i < j < from.len(),
    ensures
        exists|k: int, l: int|
            0 <= k < to.len() && 0 <= l < to.len() && k != l && #[trigger] to[k] == from[i]
                && #[trigger] to[l] == from[j],
{
    broadcast use vstd::seq_lib::group_to_multiset_ensures;

    let x = from[i];
    let y = from[j];
    assert(from.to_multiset().contains(x)) by {
        assert(from.contains(x));
    }
    assert(to.contains(x));
    let k = choose|k: int| 0 <= k < to.len() && to[k] == x;
    let rest = from.remove(i);
    assert(rest[j - 1] == y);
    assert(rest.contains(y));
    assert(rest.to_multiset() == from.to_multiset().remove(x));
    let other = to.remove(k);
    assert(other.to_multiset() == to.to_multiset().remove(x));
    assert(other.to_multiset().contains(y));
    assert(other.contains(y));
    let m = choose|m: int| 0 <= m < other.len() && other[m] == y;
    let l = if m < k {
        m
    } else {
        m + 1
    };
    assert(to[l] == y);
    assert(to[k] == from[i] && to[l] == from[j] && k != l);
}

proof fn lemma_duplicated_moves(from: Seq<BookLevel>, to: Seq<BookLevel>, price: Price)
    requires
        from.to_multiset() == to.to_multiset(),
        duplicated(from, price),
    ensures
        duplicated(to, price),
{
    let (i, j) = choose|i: int, j: int|
        0 <= i < j < from.len() && (#[trigger] from[i]).price == price && (
        #[trigger] from[j]).price == price;
    lemma_pair_moves(from, to, i, j);
    let (k, l) = choose|k: int, l: int|
        0 <= k < to.len() && 0 <= l < to.len() && k != l && #[trigger] to[k] == from[i]
            && #[trigger] to[l] == from[j];
    if k < l {
        assert(to[k].price == price && to[l].price == price);
    } else {
        assert(to[l].price == price && to[k].price == price);
    }
}

/// A side sorted in one direction, with its duplicates found, says all about the
/// side as it came.
proof fn lemma_side(levels: Seq<BookLevel>, sorted: Seq<BookLevel>, falling: bool)
    requires
        sorted.to_multiset() == levels.to_multiset(),
        ordered(sorted, falling),
        levels_valid(sorted),
    ensures
        sorted.len() == levels.len(),
        levels_valid(levels),
        forall|price: Price| duplicated(sorted, price) <==> duplicated(levels, price),
        sorted.len() > 0 && falling ==> highest_price(levels, sorted[0].price),
        sorted.len() > 0 && !falling ==> lowest_price(levels, sorted[0].price),
{
    broadcast use vstd::seq_lib::group_to_multiset_ensures;

    vstd::seq_lib::to_multiset_len(sorted);
    vstd::seq_lib::to_multiset_len(levels);
    assert forall|price: Price| duplicated(sorted, price) <==> duplicated(levels, price) by {
        if duplicated(sorted, price) {
            lemma_duplicated_moves(sorted, levels, price);
        }
        if duplicated(levels, price) {
            lemma_duplicated_moves(levels, sorted, price);
        }
    }
    assert forall|i: int| 0 <= i < levels.len() implies (#[trigger] levels[i]).valid() && in_order(
        sorted[0],
        levels[i],
        falling,
    ) by {
        assert(levels.contains(levels[i]));
        assert(levels.to_multiset().contains(levels[i]));
        assert(sorted.contains(levels[i]));
        let k = choose|k: int| 0 <= k < sorted.len() && sorted[k] == levels[i];
        assert(in_order(sorted[0], sorted[k], falling));
    }
    if sorted.len() > 0 {
        assert(sorted.contains(sorted[0]));
        assert(sorted.to_multiset().contains(sorted[0]));
        assert(levels.contains(sorted[0]));
        let k = choose|k: int| 0 <= k < levels.len() && levels[k] == sorted[0];
        assert(levels[k].price == sorted[0].price);
    }
}

fn sort_levels(levels: &Vec<BookLevel>, falling: bool) -> (sorted: Vec<BookLevel>)
    ensures
        sorted@.to_multiset() == levels@.to_multiset(),
        ordered(sorted@, falling),
        levels_valid(sorted@),
        sorted@.len() == levels@.len(),
{
    let mut sorted: Vec<BookLevel> = Vec::new();
    let mut i: usize = 0;
    proof {
        broadcast use vstd::seq_lib::group_to_multiset_ensures;

        assert(levels@.take(0) =~= Seq::<BookLevel>::empty());
    }
    while i < levels.len()
        invariant
            i <= levels.len(),
            sorted@.len() == i,
            sorted@.to_multiset() == levels@.take(i as int).to_multiset(),
            ordered(sorted@, falling),
            levels_valid(sorted@),
        decreases levels.len() - i,
    {
        let level: BookLevel = levels[i];
        let _ = level.observe_valid();
        let units: i128 = level.price.comparison_units();
        let mut low: usize = 0;
        let mut high: usize = sorted.len();
        while low < high
            invariant
                low <= high <= sorted.len(),
                units == level.price.units(),
                ordered(sorted@, falling),
                forall|j: int| 0 <= j < low ==> in_order(#[trigger] sorted@[j], level, falling),
                forall|j: int|
                    high <= j < sorted.len() ==> in_order(level, #[trigger] sorted@[j], falling),
            decreases high - low,
        {
            let middle: usize = low + (high - low) / 2;
            let other: i128 = sorted[middle].price.comparison_units();
            let goes_after: bool = if falling {
                other >= units
            } else {
                other <= units
            };
            if goes_after {
                proof {
                    assert forall|j: int| 0 <= j <= middle implies in_order(
                        #[trigger] sorted@[j],
                        level,
                        falling,
                    ) by {
                        if j < middle {
                            assert(in_order(sorted@[j], sorted@[middle as int], falling));
                        }
                    }
                }
                low = middle + 1;
            } else {
                proof {
                    assert forall|j: int| middle <= j < sorted.len() implies in_order(
                        level,
                        #[trigger] sorted@[j],
                        falling,
                    ) by {
                        if middle < j {
                            assert(in_order(sorted@[middle as int], sorted@[j], falling));
                        }
                    }
                }
                high = middle;
            }
        }
        proof {
            broadcast use vstd::seq_lib::group_to_multiset_ensures;

            assert(levels@.take(i + 1) =~= levels@.take(i as int).push(levels@[i as int]));
            vstd::seq_lib::to_multiset_insert(sorted@, low as int, level);
        }
        let ghost before = sorted@;
        sorted.insert(low, level);
        proof {
            assert(sorted@ == before.insert(low as int, level));
            assert forall|a: int, b: int| 0 <= a < b < sorted@.len() implies in_order(
                #[trigger] sorted@[a],
                #[trigger] sorted@[b],
                falling,
            ) by {
                if a < low {
                    assert(sorted@[a] == before[a]);
                } else if a > low {
                    assert(sorted@[a] == before[a - 1]);
                }
                if b < low {
                    assert(sorted@[b] == before[b]);
                } else if b > low {
                    assert(sorted@[b] == before[b - 1]);
                }
            }
            assert forall|a: int| 0 <= a < sorted@.len() implies (#[trigger] sorted@[a]).valid() by {
                if a < low {
                    assert(sorted@[a] == before[a]);
                } else if a > low {
                    assert(sorted@[a] == before[a - 1]);
                }
            }
        }
        i = i + 1;
    }
    assert(levels@.take(i as int) =~= levels@);
    sorted
}

/// The first price in an ordered side that its neighbour repeats.
fn duplicate_price(levels: &Vec<BookLevel>, falling: bool) -> (price: Option<Price>)
    requires
        ordered(levels@, falling),
        levels_valid(levels@),
    ensures
        match price {
            Some(price) => {
                &&& falling ==> highest_duplicate(levels@, price)
                &&& !falling ==> lowest_duplicate(levels@, price)
            },
            None => {
                &&& !has_duplicate(levels@)
                &&& falling ==> descending(levels@)
                &&& !falling ==> ascending(levels@)
            },
        },
{
    let mut i: usize = 0;
    while levels.len() >= 2 && i < levels.len() - 1
        invariant
            i <= levels.len(),
            ordered(levels@, falling),
            levels_valid(levels@),
            forall|a: int, b: int|
                0 <= a < b <= i && b < levels.len() ==> (#[trigger] levels@[a]).price.units() != (
                #[trigger] levels@[b]).price.units(),
        decreases levels.len() - i,
    {
        let left: Price = levels[i].price;
        let right: Price = levels[i + 1].price;
        if left.comparison_units() == right.comparison_units() {
            proof {
                lemma_price_value(left, right);
                assert(duplicated(levels@, left)) by {
                    assert(levels@[i as int].price == left);
                    assert(levels@[i + 1].price == left);
                }
                assert forall|other: Price| duplicated(levels@, other) implies (if falling {
                    other.units() <= left.units()
                } else {
                    other.units() >= left.units()
                }) by {
                    let (a, b) = choose|a: int, b: int|
                        0 <= a < b < levels@.len() && (#[trigger] levels@[a]).price == other && (
                        #[trigger] levels@[b]).price == other;
                    assert(b > i);
                    if b > i + 1 {
                        assert(in_order(levels@[i + 1], levels@[b], falling));
                    }
                }
            }
            return Some(left);
        }
        proof {
            assert forall|a: int, b: int| 0 <= a < b <= i + 1 && b < levels.len() implies (
            #[trigger] levels@[a]).price.units() != (#[trigger] levels@[b]).price.units() by {
                if b == i + 1 && a < i {
                    assert(in_order(levels@[a], levels@[i as int], falling));
                    assert(in_order(levels@[i as int], levels@[b], falling));
                }
            }
        }
        i = i + 1;
    }
    proof {
        assert forall|a: int, b: int| 0 <= a < b < levels@.len() implies (
        #[trigger] levels@[a]).price.units() != (#[trigger] levels@[b]).price.units() by {}
        assert forall|a: int, b: int| 0 <= a < b < levels@.len() implies (if falling {
            (#[trigger] levels@[a]).price.units() > (#[trigger] levels@[b]).price.units()
        } else {
            levels@[a].price.units() < levels@[b].price.units()
        }) by {
            assert(in_order(levels@[a], levels@[b], falling));
        }
        if has_duplicate(levels@) {
            let price = choose|price: Price| duplicated(levels@, price);
            let (a, b) = choose|a: int, b: int|
                0 <= a < b < levels@.len() && (#[trigger] levels@[a]).price == price && (
                #[trigger] levels@[b]).price == price;
            assert(levels@[a].price.units() != levels@[b].price.units());
        }
    }
    None
}

impl OrderBookSnapshot {
    #[verifier::type_invariant]
    spec fn best_first(self) -> bool {
        self@.valid()
    }

    /// Sorts and checks the levels of a book.
    pub fn try_new(
        venue: Venue,
        symbol: Symbol,
        source_sequence: Option<u64>,
        timestamps: EventTimestamps,
        bids: Vec<BookLevel>,
        asks: Vec<BookLevel>,
    ) -> (result: Result<Self, SnapshotValidationError>)
        ensures
            snapshot_outcome(
                venue,
                symbol@,
                source_sequence,
                timestamps@,
                bids@,
                asks@,
                outcome_view(result),
            ),
            snapshot_of(venue, symbol@, source_sequence, timestamps@, bids@, asks@)
                == outcome_view(result),
    {
        let ghost coin = symbol@;
        let ghost times = timestamps@;
        let ghost bid_levels = bids@;
        let ghost ask_levels = asks@;
        let result = OrderBookSnapshot::checked(
            venue,
            symbol,
            source_sequence,
            timestamps,
            bids,
            asks,
        );
        proof {
            let outcome = outcome_view(result);
            lemma_outcome_unique(
                venue,
                coin,
                source_sequence,
                times,
                bid_levels,
                ask_levels,
                outcome,
                snapshot_of(venue, coin, source_sequence, times, bid_levels, ask_levels),
            );
        }
        result
    }

    fn checked(
        venue: Venue,
        symbol: Symbol,
        source_sequence: Option<u64>,
        timestamps: EventTimestamps,
        bids: Vec<BookLevel>,
        asks: Vec<BookLevel>,
    ) -> (result: Result<Self, SnapshotValidationError>)
        ensures
            snapshot_outcome(
                venue,
                symbol@,
                source_sequence,
                timestamps@,
                bids@,
                asks@,
                outcome_view(result),
            ),
            bids@.len() > 0 && asks@.len() > 0 ==> levels_valid(bids@) && levels_valid(asks@),
    {
        if bids.len() == 0 {
            return Err(SnapshotValidationError::EmptyBids);
        }
        if asks.len() == 0 {
            return Err(SnapshotValidationError::EmptyAsks);
        }
        let sorted_bids: Vec<BookLevel> = sort_levels(&bids, true);
        let sorted_asks: Vec<BookLevel> = sort_levels(&asks, false);
        proof {
            lemma_side(bids@, sorted_bids@, true);
            lemma_side(asks@, sorted_asks@, false);
        }
        if let Some(price) = duplicate_price(&sorted_bids, true) {
            return Err(SnapshotValidationError::DuplicateBid(price));
        }
        if let Some(price) = duplicate_price(&sorted_asks, false) {
            return Err(SnapshotValidationError::DuplicateAsk(price));
        }
        let best_bid: Price = sorted_bids[0].price;
        let best_ask: Price = sorted_asks[0].price;
        if best_bid.comparison_units() >= best_ask.comparison_units() {
            return Err(SnapshotValidationError::LockedOrCrossed { best_bid, best_ask });
        }
        let _ = symbol.market_coin().as_str();
        Ok(
            OrderBookSnapshot {
                venue,
                symbol,
                source_sequence,
                timestamps,
                bids: sorted_bids,
                asks: sorted_asks,
            },
        )
    }

    pub fn venue(&self) -> (venue: Venue)
        ensures
            venue == self@.venue,
    {
        self.venue
    }

    pub fn symbol(&self) -> (symbol: &Symbol)
        ensures
            symbol@ == self@.coin,
    {
        &self.symbol
    }

    pub fn source_sequence(&self) -> (sequence: Option<u64>)
        ensures
            sequence == self@.source_sequence,
    {
        self.source_sequence
    }

    pub fn timestamps(&self) -> (timestamps: &EventTimestamps)
        ensures
            timestamps@ == self@.timestamps,
    {
        &self.timestamps
    }

    pub fn bids(&self) -> (bids: &[BookLevel])
        ensures
            bids@ == self@.bids,
            self@.valid(),
    {
        proof {
            use_type_invariant(self);
        }
        self.bids.as_slice()
    }

    pub fn asks(&self) -> (asks: &[BookLevel])
        ensures
            asks@ == self@.asks,
            self@.valid(),
    {
        proof {
            use_type_invariant(self);
        }
        self.asks.as_slice()
    }

    /// The snapshot with another processing completion time.
    pub fn completed_at(self, completed: LocalObservationTime) -> (snapshot: Self)
        ensures
            snapshot@ == (SnapshotView {
                timestamps: TimestampsView {
                    processing_completed: completed,
                    ..self@.timestamps
                },
                ..self@
            }),
    {
        proof {
            use_type_invariant(&self);
        }
        let mut timestamps: EventTimestamps = self.timestamps.clone();
        timestamps.set_processing_completed(completed);
        OrderBookSnapshot {
            venue: self.venue,
            symbol: self.symbol.clone(),
            source_sequence: self.source_sequence,
            timestamps,
            bids: vstd::slice::slice_to_vec(self.bids.as_slice()),
            asks: vstd::slice::slice_to_vec(self.asks.as_slice()),
        }
    }
}

/// Whether the latest accepted depth is available for decisions.
#[derive(Clone, Copy, Debug, Eq, PartialEq, Structural)]
pub enum OrderBookStatus {
    AwaitingSnapshot,
    Healthy,
    Unhealthy,
}

/// A snapshot of another market than the book's.
#[derive(Debug, Eq, PartialEq)]
pub struct OrderBookIdentityError {
    pub expected_venue: Venue,
    pub actual_venue: Venue,
    pub expected_symbol: Symbol,
    pub actual_symbol: Symbol,
}

/// The book state of one market at one venue.
#[derive(Debug)]
pub struct OrderBook {
    venue: Venue,
    symbol: Symbol,
    status: OrderBookStatus,
    last_snapshot: Option<OrderBookSnapshot>,
}

/// The model of `OrderBook`.
pub struct BookView {
    pub venue: Venue,
    pub coin: Seq<char>,
    pub status: OrderBookStatus,
    pub last_snapshot: Option<SnapshotView>,
}

impl BookView {
    /// A book that has not seen a snapshot.
    pub open spec fn awaiting(venue: Venue, coin: Seq<char>) -> BookView {
        BookView { venue, coin, status: OrderBookStatus::AwaitingSnapshot, last_snapshot: None }
    }

    /// The book after an accepted snapshot.
    pub open spec fn replaced(self, snapshot: SnapshotView) -> BookView {
        BookView { status: OrderBookStatus::Healthy, last_snapshot: Some(snapshot), ..self }
    }

    /// The book after it stopped being trustworthy.
    pub open spec fn unhealthy(self) -> BookView {
        BookView { status: OrderBookStatus::Unhealthy, ..self }
    }

    /// The snapshot that may be used for decisions.
    pub open spec fn current(self) -> Option<SnapshotView> {
        if self.status == OrderBookStatus::Healthy {
            self.last_snapshot
        } else {
            None
        }
    }

    /// Whether the book accepts snapshots of this identity.
    pub open spec fn accepts(self, snapshot: SnapshotView) -> bool {
        snapshot.venue == self.venue && snapshot.coin == self.coin
    }

    /// A held snapshot is one of the book's own market, and only a book that
    /// holds one is healthy.
    pub open spec fn valid(self) -> bool {
        &&& market_coin_error(self.coin) is None
        &&& self.last_snapshot matches Some(snapshot) ==> snapshot.valid() && self.accepts(snapshot)
        &&& self.status == OrderBookStatus::Healthy ==> self.last_snapshot is Some
    }
}

/// The model of an optional snapshot.
pub open spec fn optional_snapshot(snapshot: Option<OrderBookSnapshot>) -> Option<SnapshotView> {
    match snapshot {
        Some(snapshot) => Some(snapshot@),
        None => None,
    }
}

impl View for OrderBook {
    type V = BookView;

    closed spec fn view(&self) -> BookView {
        BookView {
            venue: self.venue,
            coin: self.symbol@,
            status: self.status,
            last_snapshot: optional_snapshot(self.last_snapshot),
        }
    }
}

impl OrderBook {
    #[verifier::type_invariant]
    spec fn consistent(self) -> bool {
        self@.valid()
    }

    pub fn new(venue: Venue, symbol: Symbol) -> (book: Self)
        ensures
            book@ == BookView::awaiting(venue, symbol@),
    {
        let _ = symbol.market_coin().as_str();
        OrderBook { venue, symbol, status: OrderBookStatus::AwaitingSnapshot, last_snapshot: None }
    }

    /// Installs a snapshot of the book's own market; any other makes the book
    /// unhealthy.
    pub fn replace(&mut self, snapshot: OrderBookSnapshot) -> (result: Result<
        (),
        OrderBookIdentityError,
    >)
        ensures
            match result {
                Ok(_) => old(self)@.accepts(snapshot@) && final(self)@ == old(self)@.replaced(
                    snapshot@,
                ),
                Err(error) => {
                    &&& !old(self)@.accepts(snapshot@)
                    &&& final(self)@ == old(self)@.unhealthy()
                    &&& error.expected_venue == old(self)@.venue
                    &&& error.actual_venue == snapshot@.venue
                    &&& error.expected_symbol@ == old(self)@.coin
                    &&& error.actual_symbol@ == snapshot@.coin
                },
            },
    {
        proof {
            use_type_invariant(&*self);
        }
        let _ = snapshot.bids();
        if snapshot.venue() != self.venue || !same_text(
            snapshot.symbol().market_coin().as_str(),
            self.symbol.market_coin().as_str(),
        ) {
            self.status = OrderBookStatus::Unhealthy;
            return Err(
                OrderBookIdentityError {
                    expected_venue: self.venue,
                    actual_venue: snapshot.venue(),
                    expected_symbol: self.symbol.clone(),
                    actual_symbol: snapshot.symbol().clone(),
                },
            );
        }
        self.last_snapshot = Some(snapshot);
        self.status = OrderBookStatus::Healthy;
        Ok(())
    }

    /// Installs a snapshot and stamps it with the time that `completed` gives
    /// once it is in place.
    pub fn replace_at_processing_completion<F>(
        &mut self,
        snapshot: OrderBookSnapshot,
        completed: F,
    ) -> (result: Result<(), OrderBookIdentityError>) where F: FnOnce() -> LocalObservationTime
        requires
            completed.requires(()),
        ensures
            match result {
                Ok(_) => {
                    &&& old(self)@.accepts(snapshot@)
                    &&& exists|time: LocalObservationTime|
                        #[trigger] completed.ensures((), time) && final(self)@ == old(
                            self,
                        )@.replaced(stamped(snapshot@, time))
                },
                Err(error) => {
                    &&& !old(self)@.accepts(snapshot@)
                    &&& final(self)@ == old(self)@.unhealthy()
                    &&& error.expected_venue == old(self)@.venue
                    &&& error.actual_venue == snapshot@.venue
                    &&& error.expected_symbol@ == old(self)@.coin
                    &&& error.actual_symbol@ == snapshot@.coin
                },
            },
    {
        if snapshot.venue() != self.venue || !same_text(
            snapshot.symbol().market_coin().as_str(),
            self.symbol.market_coin().as_str(),
        ) {
            return self.replace(snapshot);
        }
        let time: LocalObservationTime = completed();
        self.replace(snapshot.completed_at(time))
    }

    pub fn mark_unhealthy(&mut self)
        ensures
            final(self)@ == old(self)@.unhealthy(),
    {
        proof {
            use_type_invariant(&*self);
        }
        self.status = OrderBookStatus::Unhealthy;
    }

    pub fn venue(&self) -> (venue: Venue)
        ensures
            venue == self@.venue,
    {
        self.venue
    }

    pub fn symbol(&self) -> (symbol: &Symbol)
        ensures
            symbol@ == self@.coin,
    {
        &self.symbol
    }

    pub fn status(&self) -> (status: OrderBookStatus)
        ensures
            status == self@.status,
            self@.valid(),
    {
        proof {
            use_type_invariant(self);
        }
        self.status
    }

    /// The snapshot that may be used for decisions.
    pub fn current(&self) -> (snapshot: Option<&OrderBookSnapshot>)
        ensures
            match snapshot {
                Some(snapshot) => self@.current() == Some(snapshot@),
                None => self@.current() is None,
            },
            self@.valid(),
    {
        proof {
            use_type_invariant(self);
        }
        if self.status == OrderBookStatus::Healthy {
            self.last_snapshot.as_ref()
        } else {
            None
        }
    }

    /// The last accepted snapshot, whatever the status.
    pub fn last_snapshot(&self) -> (snapshot: Option<&OrderBookSnapshot>)
        ensures
            match snapshot {
                Some(snapshot) => self@.last_snapshot == Some(snapshot@),
                None => self@.last_snapshot is None,
            },
            self@.valid(),
    {
        proof {
            use_type_invariant(self);
        }
        self.last_snapshot.as_ref()
    }
}

/// A snapshot with its processing completion time.
pub open spec fn stamped(snapshot: SnapshotView, time: LocalObservationTime) -> SnapshotView {
    SnapshotView {
        timestamps: TimestampsView { processing_completed: time, ..snapshot.timestamps },
        ..snapshot
    }
}

/// The rendering of a price.
pub open spec fn price_text(price: Price) -> Seq<char> {
    scaled_text(price.coefficient_value() as nat, price.scale_value())
}

impl SnapshotValidationError {
    /// The message of the error.
    pub open spec fn message(self) -> Seq<char> {
        match self {
            SnapshotValidationError::EmptyBids => "snapshot has no bids"@,
            SnapshotValidationError::EmptyAsks => "snapshot has no asks"@,
            SnapshotValidationError::DuplicateBid(price) => "duplicate bid price "@ + price_text(
                price,
            ),
            SnapshotValidationError::DuplicateAsk(price) => "duplicate ask price "@ + price_text(
                price,
            ),
            SnapshotValidationError::LockedOrCrossed { best_bid, best_ask } =>
                "snapshot is locked or crossed: best bid "@ + price_text(best_bid) + ", best ask "@
                    + price_text(best_ask),
        }
    }

    pub fn to_text(&self) -> (text: String)
        ensures
            text@ == self.message(),
    {
        match self {
            SnapshotValidationError::EmptyBids => "snapshot has no bids".to_owned(),
            SnapshotValidationError::EmptyAsks => "snapshot has no asks".to_owned(),
            SnapshotValidationError::DuplicateBid(price) => {
                let mut text: String = "duplicate bid price ".to_owned();
                text.append(price.to_text().as_str());
                text
            },
            SnapshotValidationError::DuplicateAsk(price) => {
                let mut text: String = "duplicate ask price ".to_owned();
                text.append(price.to_text().as_str());
                text
            },
            SnapshotValidationError::LockedOrCrossed { best_bid, best_ask } => {
                let mut text: String = "snapshot is locked or crossed: best bid ".to_owned();
                text.append(best_bid.to_text().as_str());
                text.append(", best ask ");
                text.append(best_ask.to_text().as_str());
                text
            },
        }
    }
}

impl OrderBookIdentityError {
    /// The message of the error.
    pub open spec fn message(&self) -> Seq<char> {
        "snapshot identity mismatch: expected "@ + self.expected_venue.display_name()
            + "/Perpetual(MarketCoin("@ + debug_rendering(self.expected_symbol@) + ")), got "@
            + self.actual_venue.display_name() + "/Perpetual(MarketCoin("@ + debug_rendering(
            self.actual_symbol@,
        ) + "))"@
    }

    pub fn to_text(&self) -> (text: String)
        ensures
            text@ == self.message(),
    {
        let mut text: String = "snapshot identity mismatch: expected ".to_owned();
        text.append(self.expected_venue.to_text().as_str());
        text.append("/Perpetual(MarketCoin(");
        text.append(debug_text(self.expected_symbol.market_coin().as_str()).as_str());
        text.append(")), got ");
        text.append(self.actual_venue.to_text().as_str());
        text.append("/Perpetual(MarketCoin(");
        text.append(debug_text(self.actual_symbol.market_coin().as_str()).as_str());
        text.append("))");
        text
    }
}

proof fn lemma_same_sorted(left: Seq<BookLevel>, right: Seq<BookLevel>, falling: bool)
    requires
        left.to_multiset() == right.to_multiset(),
        falling ==> descending(left) && descending(right),
        !falling ==> ascending(left) && ascending(right),
    ensures
        left == right,
    decreases left.len(),
{
    broadcast use vstd::seq_lib::group_to_multiset_ensures;

    vstd::seq_lib::to_multiset_len(left);
    vstd::seq_lib::to_multiset_len(right);
    if left.len() == 0 {
        assert(left =~= right);
    } else {
        assert(left.contains(left[0]));
        assert(right.contains(right[0]));
        assert(right.to_multiset().contains(left[0]));
        assert(left.to_multiset().contains(right[0]));
        assert(right.contains(left[0]));
        assert(left.contains(right[0]));
        let i = choose|i: int| 0 <= i < right.len() && right[i] == left[0];
        let j = choose|j: int| 0 <= j < left.len() && left[j] == right[0];
        assert(i == 0);
        assert(left.remove(0).to_multiset() == left.to_multiset().remove(left[0]));
        assert(right.remove(0).to_multiset() == right.to_multiset().remove(right[0]));
        let rest_left = left.remove(0);
        let rest_right = right.remove(0);
        assert(forall|k: int| 0 <= k < rest_left.len() ==> #[trigger] rest_left[k] == left[k + 1]);
        assert(forall|k: int|
            0 <= k < rest_right.len() ==> #[trigger] rest_right[k] == right[k + 1]);
        lemma_same_sorted(rest_left, rest_right, falling);
        assert(left =~= seq![left[0]] + rest_left);
        assert(right =~= seq![right[0]] + rest_right);
    }
}

/// The same levels, in whatever order they come, make the same snapshot.
pub proof fn lemma_snapshot_unique(
    venue: Venue,
    coin: Seq<char>,
    source_sequence: Option<u64>,
    timestamps: TimestampsView,
    bids: Seq<BookLevel>,
    asks: Seq<BookLevel>,
    left: SnapshotView,
    right: SnapshotView,
)
    requires
        snapshot_outcome(venue, coin, source_sequence, timestamps, bids, asks, Ok(left)),
        snapshot_outcome(venue, coin, source_sequence, timestamps, bids, asks, Ok(right)),
    ensures
        left == right,
{
    lemma_same_sorted(left.bids, right.bids, true);
    lemma_same_sorted(left.asks, right.asks, false);
}

proof fn lemma_accepted_levels(snapshot: Seq<BookLevel>, levels: Seq<BookLevel>, falling: bool)
    requires
        snapshot.to_multiset() == levels.to_multiset(),
        falling ==> descending(snapshot),
        !falling ==> ascending(snapshot),
    ensures
        snapshot.len() == levels.len(),
        !has_duplicate(levels),
        snapshot.len() > 0 ==> levels.contains(snapshot[0]),
        forall|i: int|
            0 <= i < levels.len() ==> if falling {
                (#[trigger] levels[i]).price.units() <= snapshot[0].price.units()
            } else {
                levels[i].price.units() >= snapshot[0].price.units()
            },
{
    broadcast use vstd::seq_lib::group_to_multiset_ensures;

    vstd::seq_lib::to_multiset_len(snapshot);
    vstd::seq_lib::to_multiset_len(levels);
    if has_duplicate(levels) {
        let price = choose|price: Price| duplicated(levels, price);
        lemma_duplicated_moves(levels, snapshot, price);
    }
    if snapshot.len() > 0 {
        assert(snapshot.contains(snapshot[0]));
        assert(snapshot.to_multiset().contains(snapshot[0]));
    }
    assert forall|i: int| 0 <= i < levels.len() implies if falling {
        (#[trigger] levels[i]).price.units() <= snapshot[0].price.units()
    } else {
        levels[i].price.units() >= snapshot[0].price.units()
    } by {
        assert(levels.contains(levels[i]));
        assert(levels.to_multiset().contains(levels[i]));
        assert(snapshot.contains(levels[i]));
        let k = choose|k: int| 0 <= k < snapshot.len() && snapshot[k] == levels[i];
        assert(k == 0 || snapshot[0].price.units() != snapshot[k].price.units());
    }
}

/// Nothing but one thing becomes of the levels that a venue delivered.
pub proof fn lemma_outcome_unique(
    venue: Venue,
    coin: Seq<char>,
    source_sequence: Option<u64>,
    timestamps: TimestampsView,
    bids: Seq<BookLevel>,
    asks: Seq<BookLevel>,
    left: Result<SnapshotView, SnapshotValidationError>,
    right: Result<SnapshotView, SnapshotValidationError>,
)
    requires
        snapshot_outcome(venue, coin, source_sequence, timestamps, bids, asks, left),
        snapshot_outcome(venue, coin, source_sequence, timestamps, bids, asks, right),
        bids.len() > 0 && asks.len() > 0 ==> levels_valid(bids) && levels_valid(asks),
    ensures
        left == right,
{
    if left is Ok && right is Ok {
        lemma_snapshot_unique(
            venue,
            coin,
            source_sequence,
            timestamps,
            bids,
            asks,
            left->Ok_0,
            right->Ok_0,
        );
    } else if left is Ok {
        lemma_accepted_levels(left->Ok_0.bids, bids, true);
        lemma_accepted_levels(left->Ok_0.asks, asks, false);
        lemma_no_other_outcome(bids, asks, left->Ok_0, right);
    } else if right is Ok {
        lemma_accepted_levels(right->Ok_0.bids, bids, true);
        lemma_accepted_levels(right->Ok_0.asks, asks, false);
        lemma_no_other_outcome(bids, asks, right->Ok_0, left);
    } else {
        match (left, right) {
            (
                Err(SnapshotValidationError::DuplicateBid(a)),
                Err(SnapshotValidationError::DuplicateBid(b)),
            ) => {
                lemma_price_value(a, b);
            },
            (
                Err(SnapshotValidationError::DuplicateAsk(a)),
                Err(SnapshotValidationError::DuplicateAsk(b)),
            ) => {
                lemma_price_value(a, b);
            },
            (
                Err(SnapshotValidationError::LockedOrCrossed { best_bid: a, best_ask: c }),
                Err(SnapshotValidationError::LockedOrCrossed { best_bid: b, best_ask: d }),
            ) => {
                lemma_price_value(a, b);
                lemma_price_value(c, d);
            },
            _ => {},
        }
    }
}

proof fn lemma_no_other_outcome(
    bids: Seq<BookLevel>,
    asks: Seq<BookLevel>,
    snapshot: SnapshotView,
    other: Result<SnapshotView, SnapshotValidationError>,
)
    requires
        snapshot.valid(),
        snapshot.bids.len() == bids.len(),
        snapshot.asks.len() == asks.len(),
        !has_duplicate(bids),
        !has_duplicate(asks),
        bids.contains(snapshot.bids[0]),
        asks.contains(snapshot.asks[0]),
        forall|i: int|
            0 <= i < bids.len() ==> (#[trigger] bids[i]).price.units()
                <= snapshot.bids[0].price.units(),
        forall|i: int|
            0 <= i < asks.len() ==> (#[trigger] asks[i]).price.units()
                >= snapshot.asks[0].price.units(),
        snapshot_outcome(
            snapshot.venue,
            snapshot.coin,
            snapshot.source_sequence,
            snapshot.timestamps,
            bids,
            asks,
            other,
        ),
    ensures
        other is Ok,
{
}

/// Levels that already form a valid snapshot are accepted, and the snapshot is
/// they: nothing is lost, added or moved.
pub proof fn lemma_valid_snapshot_accepted(
    snapshot: SnapshotView,
    outcome: Result<SnapshotView, SnapshotValidationError>,
)
    requires
        snapshot.valid(),
        snapshot_outcome(
            snapshot.venue,
            snapshot.coin,
            snapshot.source_sequence,
            snapshot.timestamps,
            snapshot.bids,
            snapshot.asks,
            outcome,
        ),
    ensures
        outcome == Ok::<SnapshotView, SnapshotValidationError>(snapshot),
{
    assert forall|price: Price| !duplicated(snapshot.bids, price) by {}
    assert forall|price: Price| !duplicated(snapshot.asks, price) by {}
    match outcome {
        Ok(other) => {
            lemma_same_sorted(snapshot.bids, other.bids, true);
            lemma_same_sorted(snapshot.asks, other.asks, false);
        },
        Err(SnapshotValidationError::LockedOrCrossed { best_bid, best_ask }) => {
            let i = choose|i: int|
                0 <= i < snapshot.bids.len() && (#[trigger] snapshot.bids[i]).price == best_bid;
            let j = choose|j: int|
                0 <= j < snapshot.asks.len() && (#[trigger] snapshot.asks[j]).price == best_ask;
            assert(snapshot.bids[i].price.units() <= snapshot.bids[0].price.units());
            assert(snapshot.asks[j].price.units() >= snapshot.asks[0].price.units());
        },
        Err(_) => {},
    }
}

/// A book that became unhealthy offers no snapshot for decisions, keeps the
/// last one it accepted, and offers one again as soon as it accepts one.
pub proof fn lemma_unhealthy_until_fresh_snapshot(book: BookView, snapshot: SnapshotView)
    ensures
        book.unhealthy().current() is None,
        book.unhealthy().unhealthy().current() is None,
        book.unhealthy().last_snapshot == book.last_snapshot,
        book.unhealthy().replaced(snapshot).current() == Some(snapshot),
{
}

proof fn lemma_place_in_order(sorted: Seq<BookLevel>, level: BookLevel, falling: bool) -> (place: int)
    requires
        ordered(sorted, falling),
    ensures
        0 <= place <= sorted.len(),
        forall|i: int| 0 <= i < place ==> in_order(#[trigger] sorted[i], level, falling),
        forall|i: int| place <= i < sorted.len() ==> in_order(level, #[trigger] sorted[i], falling),
    decreases sorted.len(),
{
    if sorted.len() == 0 {
        0
    } else if in_order(sorted.last(), level, falling) {
        assert forall|i: int| 0 <= i < sorted.len() implies in_order(
            #[trigger] sorted[i],
            level,
            falling,
        ) by {
            assert(i == sorted.len() - 1 || in_order(sorted[i], sorted.last(), falling));
        }
        sorted.len() as int
    } else {
        let rest = sorted.drop_last();
        let place = lemma_place_in_order(rest, level, falling);
        assert forall|i: int| 0 <= i < place implies in_order(
            #[trigger] sorted[i],
            level,
            falling,
        ) by {
            assert(rest[i] == sorted[i]);
        }
        assert forall|i: int| place <= i < sorted.len() implies in_order(
            level,
            #[trigger] sorted[i],
            falling,
        ) by {
            if i < rest.len() {
                assert(rest[i] == sorted[i]);
            }
        }
        place
    }
}

proof fn lemma_arranged(levels: Seq<BookLevel>, falling: bool) -> (sorted: Seq<BookLevel>)
    requires
        levels_valid(levels),
    ensures
        sorted.to_multiset() == levels.to_multiset(),
        ordered(sorted, falling),
        levels_valid(sorted),
    decreases levels.len(),
{
    broadcast use vstd::seq_lib::group_to_multiset_ensures;

    if levels.len() == 0 {
        levels
    } else {
        let level = levels.last();
        let before = lemma_arranged(levels.drop_last(), falling);
        let place = lemma_place_in_order(before, level, falling);
        let sorted = before.insert(place, level);
        assert(levels =~= levels.drop_last().push(level));
        vstd::seq_lib::to_multiset_insert(before, place, level);
        assert forall|a: int, b: int| 0 <= a < b < sorted.len() implies in_order(
            #[trigger] sorted[a],
            #[trigger] sorted[b],
            falling,
        ) by {
            if a < place {
                assert(sorted[a] == before[a]);
            } else if a > place {
                assert(sorted[a] == before[a - 1]);
            }
            if b < place {
                assert(sorted[b] == before[b]);
            } else if b > place {
                assert(sorted[b] == before[b - 1]);
            }
        }
        assert forall|a: int| 0 <= a < sorted.len() implies (#[trigger] sorted[a]).valid() by {
            if a < place {
                assert(sorted[a] == before[a]);
            } else if a > place {
                assert(sorted[a] == before[a - 1]);
            }
        }
        sorted
    }
}

proof fn lemma_first_duplicate(sorted: Seq<BookLevel>, falling: bool) -> (price: Price)
    requires
        ordered(sorted, falling),
        has_duplicate(sorted),
    ensures
        falling ==> highest_duplicate(sorted, price),
        !falling ==> lowest_duplicate(sorted, price),
    decreases sorted.len(),
{
    let found = choose|price: Price| duplicated(sorted, price);
    let first = sorted[0].price;
    let rest = sorted.drop_first();
    assert forall|other: Price| #[trigger] duplicated(sorted, other) && other != first implies duplicated(
        rest,
        other,
    ) by {
        let (i, j) = choose|i: int, j: int|
            0 <= i < j < sorted.len() && (#[trigger] sorted[i]).price == other && (
            #[trigger] sorted[j]).price == other;
        assert(rest[i - 1].price == other && rest[j - 1].price == other);
    }
    assert forall|other: Price| #[trigger] duplicated(rest, other) implies duplicated(
        sorted,
        other,
    ) by {
        let (i, j) = choose|i: int, j: int|
            0 <= i < j < rest.len() && (#[trigger] rest[i]).price == other && (
            #[trigger] rest[j]).price == other;
        assert(sorted[i + 1].price == other && sorted[j + 1].price == other);
    }
    if duplicated(sorted, first) {
        assert forall|other: Price| duplicated(sorted, other) implies if falling {
            other.units() <= first.units()
        } else {
            other.units() >= first.units()
        } by {
            let (i, j) = choose|i: int, j: int|
                0 <= i < j < sorted.len() && (#[trigger] sorted[i]).price == other && (
                #[trigger] sorted[j]).price == other;
            assert(in_order(sorted[0], sorted[j], falling));
        }
        first
    } else {
        assert(duplicated(rest, found));
        assert(ordered(rest, falling)) by {
            assert forall|i: int, j: int| 0 <= i < j < rest.len() implies in_order(
                #[trigger] rest[i],
                #[trigger] rest[j],
                falling,
            ) by {
                assert(rest[i] == sorted[i + 1] && rest[j] == sorted[j + 1]);
            }
        }
        lemma_first_duplicate(rest, falling)
    }
}

proof fn lemma_strictly_sorted(sorted: Seq<BookLevel>, falling: bool)
    requires
        ordered(sorted, falling),
        levels_valid(sorted),
        !has_duplicate(sorted),
    ensures
        falling ==> descending(sorted),
        !falling ==> ascending(sorted),
{
    assert forall|i: int, j: int| 0 <= i < j < sorted.len() implies (
    #[trigger] sorted[i]).price.units() != (#[trigger] sorted[j]).price.units() by {
        lemma_price_value(sorted[i].price, sorted[j].price);
        if sorted[i].price == sorted[j].price {
            assert(duplicated(sorted, sorted[i].price));
        }
    }
    assert forall|i: int, j: int| 0 <= i < j < sorted.len() implies in_order(
        #[trigger] sorted[i],
        #[trigger] sorted[j],
        falling,
    ) by {}
}

/// Something becomes of any levels that a venue delivered.
pub proof fn lemma_outcome_decided(
    venue: Venue,
    coin: Seq<char>,
    source_sequence: Option<u64>,
    timestamps: TimestampsView,
    bids: Seq<BookLevel>,
    asks: Seq<BookLevel>,
)
    requires
        market_coin_error(coin) is None,
        levels_valid(bids),
        levels_valid(asks),
    ensures
        snapshot_outcome(
            venue,
            coin,
            source_sequence,
            timestamps,
            bids,
            asks,
            snapshot_of(venue, coin, source_sequence, timestamps, bids, asks),
        ),
{
    let sorted_bids = lemma_arranged(bids, true);
    let sorted_asks = lemma_arranged(asks, false);
    lemma_side(bids, sorted_bids, true);
    lemma_side(asks, sorted_asks, false);
    let outcome = if bids.len() == 0 {
        Err(SnapshotValidationError::EmptyBids)
    } else if asks.len() == 0 {
        Err(SnapshotValidationError::EmptyAsks)
    } else if has_duplicate(bids) {
        let price = choose|price: Price| duplicated(bids, price);
        assert(duplicated(sorted_bids, price));
        Err(SnapshotValidationError::DuplicateBid(lemma_first_duplicate(sorted_bids, true)))
    } else if has_duplicate(asks) {
        let price = choose|price: Price| duplicated(asks, price);
        assert(duplicated(sorted_asks, price));
        Err(SnapshotValidationError::DuplicateAsk(lemma_first_duplicate(sorted_asks, false)))
    } else if sorted_bids[0].price.units() >= sorted_asks[0].price.units() {
        Err(
            SnapshotValidationError::LockedOrCrossed {
                best_bid: sorted_bids[0].price,
                best_ask: sorted_asks[0].price,
            },
        )
    } else {
        assert forall|price: Price| !duplicated(sorted_bids, price) by {
            assert(!duplicated(bids, price));
        }
        assert forall|price: Price| !duplicated(sorted_asks, price) by {
            assert(!duplicated(asks, price));
        }
        lemma_strictly_sorted(sorted_bids, true);
        lemma_strictly_sorted(sorted_asks, false);
        Ok(
            SnapshotView {
                venue,
                coin,
                source_sequence,
                timestamps,
                bids: sorted_bids,
                asks: sorted_asks,
            },
        )
    };
    assert(snapshot_outcome(
        venue,
        coin,
        source_sequence,
        timestamps,
        bids,
        asks,
        outcome,
    ));
}

/// Levels make a snapshot exactly if there are bids and asks, no side names a price
/// twice, and every bid is below every ask. The snapshot then holds the bids that came
/// as its bids and the asks that came as its asks, all of them and nothing else, the
/// bids from the highest price down and the asks from the lowest up.
pub proof fn lemma_snapshot_holds_levels(
    venue: Venue,
    coin: Seq<char>,
    source_sequence: Option<u64>,
    timestamps: TimestampsView,
    bids: Seq<BookLevel>,
    asks: Seq<BookLevel>,
)
    requires
        market_coin_error(coin) is None,
        levels_valid(bids),
        levels_valid(asks),
    ensures
        ({
            let outcome = snapshot_of(venue, coin, source_sequence, timestamps, bids, asks);
            let snapshot = outcome->Ok_0;
            &&& outcome is Ok <==> {
                &&& bids.len() > 0
                &&& asks.len() > 0
                &&& forall|i: int, j: int|
                    0 <= i < j < bids.len() ==> (#[trigger] bids[i]).price != (
                    #[trigger] bids[j]).price
                &&& forall|i: int, j: int|
                    0 <= i < j < asks.len() ==> (#[trigger] asks[i]).price != (
                    #[trigger] asks[j]).price
                &&& forall|i: int, j: int|
                    0 <= i < bids.len() && 0 <= j < asks.len() ==> (
                    #[trigger] bids[i]).price.units() < (#[trigger] asks[j]).price.units()
            }
            &&& outcome is Ok ==> {
                &&& snapshot.venue == venue
                &&& snapshot.coin == coin
                &&& snapshot.source_sequence == source_sequence
                &&& snapshot.timestamps == timestamps
                &&& snapshot.bids.len() == bids.len()
                &&& snapshot.asks.len() == asks.len()
                &&& forall|level: BookLevel| #[trigger]
                    snapshot.bids.contains(level) <==> bids.contains(level)
                &&& forall|level: BookLevel| #[trigger]
                    snapshot.asks.contains(level) <==> asks.contains(level)
                &&& descending(snapshot.bids)
                &&& ascending(snapshot.asks)
            }
        }),
{
    broadcast use vstd::seq_lib::group_to_multiset_ensures;

    let outcome = snapshot_of(venue, coin, source_sequence, timestamps, bids, asks);
    lemma_outcome_decided(venue, coin, source_sequence, timestamps, bids, asks);
    match outcome {
        Ok(snapshot) => {
            lemma_accepted_levels(snapshot.bids, bids, true);
            lemma_accepted_levels(snapshot.asks, asks, false);
            assert forall|i: int, j: int| 0 <= i < j < bids.len() implies (
            #[trigger] bids[i]).price != (#[trigger] bids[j]).price by {
                if bids[i].price == bids[j].price {
                    assert(duplicated(bids, bids[i].price));
                }
            }
            assert forall|i: int, j: int| 0 <= i < j < asks.len() implies (
            #[trigger] asks[i]).price != (#[trigger] asks[j]).price by {
                if asks[i].price == asks[j].price {
                    assert(duplicated(asks, asks[i].price));
                }
            }
            assert forall|level: BookLevel| #[trigger]
                snapshot.bids.contains(level) <==> bids.contains(level) by {
                assert(snapshot.bids.to_multiset().contains(level) <==> snapshot.bids.contains(
                    level,
                ));
                assert(bids.to_multiset().contains(level) <==> bids.contains(level));
            }
            assert forall|level: BookLevel| #[trigger]
                snapshot.asks.contains(level) <==> asks.contains(level) by {
                assert(snapshot.asks.to_multiset().contains(level) <==> snapshot.asks.contains(
                    level,
                ));
                assert(asks.to_multiset().contains(level) <==> asks.contains(level));
            }
        },
        Err(SnapshotValidationError::DuplicateBid(price)) => {
            let (i, j) = choose|i: int, j: int|
                0 <= i < j < bids.len() && (#[trigger] bids[i]).price == price && (
                #[trigger] bids[j]).price == price;
            assert(bids[i].price == bids[j].price);
        },
        Err(SnapshotValidationError::DuplicateAsk(price)) => {
            let (i, j) = choose|i: int, j: int|
                0 <= i < j < asks.len() && (#[trigger] asks[i]).price == price && (
                #[trigger] asks[j]).price == price;
            assert(asks[i].price == asks[j].price);
        },
        Err(SnapshotValidationError::LockedOrCrossed { best_bid, best_ask }) => {
            let i = choose|i: int| 0 <= i < bids.len() && (#[trigger] bids[i]).price == best_bid;
            let j = choose|j: int| 0 <= j < asks.len() && (#[trigger] asks[j]).price == best_ask;
            assert(bids[i].price.units() >= asks[j].price.units());
        },
        Err(_) => {},
    }
}

/// A book takes in the snapshots of its own market and no other, and what it offers for
/// decisions is the last one that it took in. One that has not seen any offers none.
pub proof fn lemma_book_of_one_market(book: BookView, snapshot: SnapshotView)
    requires
        book.valid(),
    ensures
        book.accepts(snapshot) <==> snapshot.venue == book.venue && snapshot.coin == book.coin,
        book.current() matches Some(held) ==> held.venue == book.venue && held.coin == book.coin
            && book.last_snapshot == Some(held),
        book.replaced(snapshot).venue == book.venue,
        book.replaced(snapshot).coin == book.coin,
        book.replaced(snapshot).status == OrderBookStatus::Healthy,
        book.unhealthy().venue == book.venue,
        book.unhealthy().coin == book.coin,
        book.unhealthy().status == OrderBookStatus::Unhealthy,
        BookView::awaiting(book.venue, book.coin).current() is None,
        BookView::awaiting(book.venue, book.coin).last_snapshot is None,
{
}

} // verus!
