//! No two events enter the event digest by the same bytes.
use vstd::prelude::*;
use vstd::utf8::{encode_utf8, encode_utf8_decode_utf8};

use crate::bytes::{
    le_bytes, lemma_concat_associates, lemma_le_bytes_len, lemma_le_round_trip, lemma_pow256,
    pow256,
};
use crate::domain::price::lemma_price_value;
use crate::domain::quantity::lemma_quantity_value;
use crate::domain::{Price, Quantity};
use crate::engine::{lemma_run_counts_events, run};
use crate::engine::transcript::{
    amount_bytes, event_bytes, identity_bytes, kinds_bytes, level_bytes, levels_bytes,
    observation_bytes, observations_bytes, optional_level_bytes, optional_u64_bytes, payload_bytes,
    text_bytes, timestamps_bytes, venue_number,
};
use crate::market_data::event::{
    EventView, IdentityView, TimestampsView, TradeView, UnavailableView,
};
use crate::market_data::order_book::{lemma_order_count, levels_valid, SnapshotView};
use crate::market_data::{BookLevel, ExchangeTimeObservation};

verus! {

/// Whether the length of a text in bytes fits in 64 bits.
pub open spec fn text_countable(text: Seq<char>) -> bool {
    encode_utf8(text).len() <= u64::MAX
}

/// Whether the lengths of all texts and lists of an event fit in 64 bits.
pub open spec fn countable(event: EventView) -> bool {
    &&& text_countable(event.coin())
    &&& match event {
        EventView::OrderBookSnapshot(snapshot) => {
            &&& snapshot.timestamps.exchange_times.len() <= u64::MAX
            &&& snapshot.bids.len() <= u64::MAX
            &&& snapshot.asks.len() <= u64::MAX
        },
        EventView::BestBidOfferUpdated(bbo) => bbo.timestamps.exchange_times.len() <= u64::MAX,
        EventView::MarketTrade(trade) => {
            &&& trade.timestamps.exchange_times.len() <= u64::MAX
            &&& identity_countable(trade.identity)
        },
        EventView::OrderBookUnavailable(event) => text_countable(event.diagnostic),
        EventView::TradeStreamUnavailable(event) => text_countable(event.diagnostic),
        EventView::TradeStreamResumed(_) => true,
    }
}

/// Whether the lengths of the texts of an identity fit in 64 bits.
pub open spec fn identity_countable(identity: IdentityView) -> bool {
    match identity {
        IdentityView::Hyperliquid { transaction_hash, .. } => text_countable(transaction_hash),
        IdentityView::Lighter { trade_id, .. } => text_countable(trade_id),
        _ => true,
    }
}

proof fn lemma_split(a: Seq<u8>, b: Seq<u8>, x: Seq<u8>, y: Seq<u8>)
    requires
        a.len() == b.len(),
        a + x == b + y,
    ensures
        a == b,
        x == y,
{
    assert((a + x).take(a.len() as int) =~= a);
    assert((b + y).take(b.len() as int) =~= b);
    assert((a + x).skip(a.len() as int) =~= x);
    assert((b + y).skip(b.len() as int) =~= y);
}

proof fn lemma_byte(a: u8, b: u8, x: Seq<u8>, y: Seq<u8>)
    requires
        seq![a] + x == seq![b] + y,
    ensures
        a == b,
        x == y,
{
    lemma_split(seq![a], seq![b], x, y);
    assert(seq![a][0] == seq![b][0]);
}

proof fn lemma_number(a: nat, b: nat, width: nat, x: Seq<u8>, y: Seq<u8>)
    requires
        a < pow256(width),
        b < pow256(width),
        le_bytes(a, width) + x == le_bytes(b, width) + y,
    ensures
        a == b,
        x == y,
{
    lemma_le_round_trip(a, width);
    lemma_le_round_trip(b, width);
    lemma_split(le_bytes(a, width), le_bytes(b, width), x, y);
}

proof fn lemma_u64(a: nat, b: nat, x: Seq<u8>, y: Seq<u8>)
    requires
        a <= u64::MAX,
        b <= u64::MAX,
        le_bytes(a, 8) + x == le_bytes(b, 8) + y,
    ensures
        a == b,
        x == y,
{
    lemma_pow256();
    lemma_number(a, b, 8, x, y);
}

proof fn lemma_text(a: Seq<char>, b: Seq<char>, x: Seq<u8>, y: Seq<u8>)
    requires
        text_countable(a),
        text_countable(b),
        text_bytes(a) + x == text_bytes(b) + y,
    ensures
        a == b,
        x == y,
{
    broadcast use lemma_concat_associates;

    let (left, right) = (encode_utf8(a), encode_utf8(b));
    assert(text_bytes(a) + x == le_bytes(left.len(), 8) + (left + x));
    assert(text_bytes(b) + y == le_bytes(right.len(), 8) + (right + y));
    lemma_u64(left.len(), right.len(), left + x, right + y);
    lemma_split(left, right, x, y);
    encode_utf8_decode_utf8(a);
    encode_utf8_decode_utf8(b);
}

proof fn lemma_optional_u64(a: Option<u64>, b: Option<u64>, x: Seq<u8>, y: Seq<u8>)
    requires
        optional_u64_bytes(a) + x == optional_u64_bytes(b) + y,
    ensures
        a == b,
        x == y,
{
    broadcast use lemma_concat_associates;

    let rest = |value: Option<u64>, z: Seq<u8>|
        match value {
            Some(value) => le_bytes(value as nat, 8) + z,
            None => z,
        };
    let tag = |value: Option<u64>|
        if value is Some {
            1u8
        } else {
            0u8
        };
    assert(optional_u64_bytes(a) + x == seq![tag(a)] + rest(a, x));
    assert(optional_u64_bytes(b) + y == seq![tag(b)] + rest(b, y));
    lemma_byte(tag(a), tag(b), rest(a, x), rest(b, y));
    if let (Some(left), Some(right)) = (a, b) {
        lemma_u64(left as nat, right as nat, x, y);
    }
}

proof fn lemma_amount_range(price: Price, quantity: Quantity)
    requires
        price.valid(),
        quantity.valid(),
    ensures
        0 <= price.coefficient_value() < pow256(16),
        0 <= quantity.coefficient_value() < pow256(16),
        price.scale_value() < 256,
        quantity.scale_value() < 256,
{
    lemma_pow256();
    lemma_price_value(price, price);
    lemma_quantity_value(quantity, quantity);
}

proof fn lemma_amounts(
    price_a: Price,
    quantity_a: Quantity,
    price_b: Price,
    quantity_b: Quantity,
    x: Seq<u8>,
    y: Seq<u8>,
)
    requires
        price_a.valid(),
        quantity_a.valid(),
        price_b.valid(),
        quantity_b.valid(),
        amount_bytes(price_a, quantity_a) + x == amount_bytes(price_b, quantity_b) + y,
    ensures
        price_a == price_b,
        quantity_a == quantity_b,
        x == y,
{
    broadcast use lemma_concat_associates;

    lemma_amount_range(price_a, quantity_a);
    lemma_amount_range(price_b, quantity_b);
    let scale = |price: Price| price.scale_value() as u8;
    let rest = |quantity: Quantity, z: Seq<u8>|
        le_bytes(quantity.coefficient_value() as nat, 16) + (seq![quantity.scale_value() as u8]
            + z);
    assert(amount_bytes(price_a, quantity_a) + x == le_bytes(
        price_a.coefficient_value() as nat,
        16,
    ) + (seq![scale(price_a)] + rest(quantity_a, x)));
    assert(amount_bytes(price_b, quantity_b) + y == le_bytes(
        price_b.coefficient_value() as nat,
        16,
    ) + (seq![scale(price_b)] + rest(quantity_b, y)));
    lemma_number(
        price_a.coefficient_value() as nat,
        price_b.coefficient_value() as nat,
        16,
        seq![scale(price_a)] + rest(quantity_a, x),
        seq![scale(price_b)] + rest(quantity_b, y),
    );
    lemma_byte(scale(price_a), scale(price_b), rest(quantity_a, x), rest(quantity_b, y));
    lemma_number(
        quantity_a.coefficient_value() as nat,
        quantity_b.coefficient_value() as nat,
        16,
        seq![quantity_a.scale_value() as u8] + x,
        seq![quantity_b.scale_value() as u8] + y,
    );
    lemma_byte(quantity_a.scale_value() as u8, quantity_b.scale_value() as u8, x, y);
    lemma_price_value(price_a, price_b);
    lemma_quantity_value(quantity_a, quantity_b);
}

proof fn lemma_level(a: BookLevel, b: BookLevel, x: Seq<u8>, y: Seq<u8>)
    requires
        a.valid(),
        b.valid(),
        level_bytes(a) + x == level_bytes(b) + y,
    ensures
        a == b,
        x == y,
{
    broadcast use lemma_concat_associates;

    let count = |level: BookLevel|
        match level.order_count {
            Some(count) => Some(count.count() as u64),
            None => None,
        };
    assert(level_bytes(a) + x == amount_bytes(a.price, a.quantity) + (optional_u64_bytes(count(a))
        + x));
    assert(level_bytes(b) + y == amount_bytes(b.price, b.quantity) + (optional_u64_bytes(count(b))
        + y));
    lemma_amounts(
        a.price,
        a.quantity,
        b.price,
        b.quantity,
        optional_u64_bytes(count(a)) + x,
        optional_u64_bytes(count(b)) + y,
    );
    lemma_optional_u64(count(a), count(b), x, y);
    if let (Some(left), Some(right)) = (a.order_count, b.order_count) {
        lemma_order_count(left, right);
    }
}

proof fn lemma_levels_front(levels: Seq<BookLevel>)
    requires
        levels.len() > 0,
    ensures
        levels_bytes(levels) == level_bytes(levels[0]) + levels_bytes(levels.drop_first()),
    decreases levels.len(),
{
    if levels.len() == 1 {
        assert(levels_bytes(levels.drop_last()) =~= Seq::<u8>::empty());
        assert(levels_bytes(levels) =~= level_bytes(levels[0]) + levels_bytes(levels.drop_first()));
    } else {
        lemma_levels_front(levels.drop_last());
        assert(levels.drop_last().drop_first() =~= levels.drop_first().drop_last());
        assert(levels_bytes(levels) =~= level_bytes(levels[0]) + levels_bytes(levels.drop_first()));
    }
}

proof fn lemma_levels(a: Seq<BookLevel>, b: Seq<BookLevel>, x: Seq<u8>, y: Seq<u8>)
    requires
        a.len() == b.len(),
        levels_valid(a),
        levels_valid(b),
        levels_bytes(a) + x == levels_bytes(b) + y,
    ensures
        a == b,
        x == y,
    decreases a.len(),
{
    if a.len() == 0 {
        assert(levels_bytes(a) + x =~= x);
        assert(levels_bytes(b) + y =~= y);
        assert(a =~= b);
    } else {
        let (left, right) = (a.drop_first(), b.drop_first());
        lemma_levels_front(a);
        lemma_levels_front(b);
        lemma_concat_associates(level_bytes(a[0]), levels_bytes(left), x);
        lemma_concat_associates(level_bytes(b[0]), levels_bytes(right), y);
        assert(a[0].valid() && b[0].valid());
        lemma_level(a[0], b[0], levels_bytes(left) + x, levels_bytes(right) + y);
        assert forall|i: int| 0 <= i < left.len() implies (#[trigger] left[i]).valid() by {
            assert(a[i + 1].valid());
        }
        assert forall|i: int| 0 <= i < right.len() implies (#[trigger] right[i]).valid() by {
            assert(b[i + 1].valid());
        }
        lemma_levels(left, right, x, y);
        assert(a =~= seq![a[0]] + left);
        assert(b =~= seq![b[0]] + right);
    }
}

/// Levels behind their number.
proof fn lemma_counted_levels(a: Seq<BookLevel>, b: Seq<BookLevel>, x: Seq<u8>, y: Seq<u8>)
    requires
        a.len() <= u64::MAX,
        b.len() <= u64::MAX,
        levels_valid(a),
        levels_valid(b),
        le_bytes(a.len(), 8) + (levels_bytes(a) + x) == le_bytes(b.len(), 8) + (levels_bytes(b)
            + y),
    ensures
        a == b,
        x == y,
{
    lemma_u64(a.len(), b.len(), levels_bytes(a) + x, levels_bytes(b) + y);
    lemma_levels(a, b, x, y);
}

proof fn lemma_optional_level(
    a: Option<BookLevel>,
    b: Option<BookLevel>,
    x: Seq<u8>,
    y: Seq<u8>,
)
    requires
        a matches Some(level) ==> level.valid(),
        b matches Some(level) ==> level.valid(),
        optional_level_bytes(a) + x == optional_level_bytes(b) + y,
    ensures
        a == b,
        x == y,
{
    broadcast use lemma_concat_associates;

    let rest = |level: Option<BookLevel>, z: Seq<u8>|
        match level {
            Some(level) => level_bytes(level) + z,
            None => z,
        };
    let tag = |level: Option<BookLevel>|
        if level is Some {
            1u8
        } else {
            0u8
        };
    assert(optional_level_bytes(a) + x == seq![tag(a)] + rest(a, x));
    assert(optional_level_bytes(b) + y == seq![tag(b)] + rest(b, y));
    lemma_byte(tag(a), tag(b), rest(a, x), rest(b, y));
    if let (Some(left), Some(right)) = (a, b) {
        lemma_level(left, right, x, y);
    }
}

proof fn lemma_observation(
    a: ExchangeTimeObservation,
    b: ExchangeTimeObservation,
    x: Seq<u8>,
    y: Seq<u8>,
)
    requires
        observation_bytes(a) + x == observation_bytes(b) + y,
    ensures
        a == b,
        x == y,
{
    lemma_le_round_trip_u64(a.raw_value, b.raw_value);
    let (left, right) = (observation_bytes(a), observation_bytes(b));
    lemma_split(left, right, x, y);
    assert(left[0] == right[0]);
    assert(left[9] == right[9]);
    assert(left.subrange(1, 9) =~= le_bytes(a.raw_value as nat, 8));
    assert(right.subrange(1, 9) =~= le_bytes(b.raw_value as nat, 8));
}

proof fn lemma_le_round_trip_u64(a: u64, b: u64)
    ensures
        le_bytes(a as nat, 8).len() == 8,
        le_bytes(b as nat, 8).len() == 8,
        le_bytes(a as nat, 8) == le_bytes(b as nat, 8) ==> a == b,
{
    lemma_pow256();
    lemma_le_round_trip(a as nat, 8);
    lemma_le_round_trip(b as nat, 8);
}

proof fn lemma_observations_front(observations: Seq<ExchangeTimeObservation>)
    requires
        observations.len() > 0,
    ensures
        observations_bytes(observations) == observation_bytes(observations[0])
            + observations_bytes(observations.drop_first()),
    decreases observations.len(),
{
    let first = observation_bytes(observations[0]);
    if observations.len() == 1 {
        assert(observations_bytes(observations.drop_last()) =~= Seq::<u8>::empty());
        assert(observations_bytes(observations) =~= first + observations_bytes(
            observations.drop_first(),
        ));
    } else {
        lemma_observations_front(observations.drop_last());
        assert(observations.drop_last().drop_first() =~= observations.drop_first().drop_last());
        assert(observations_bytes(observations) =~= first + observations_bytes(
            observations.drop_first(),
        ));
    }
}

proof fn lemma_observations(
    a: Seq<ExchangeTimeObservation>,
    b: Seq<ExchangeTimeObservation>,
    x: Seq<u8>,
    y: Seq<u8>,
)
    requires
        a.len() == b.len(),
        observations_bytes(a) + x == observations_bytes(b) + y,
    ensures
        a == b,
        x == y,
    decreases a.len(),
{
    broadcast use lemma_concat_associates;

    if a.len() == 0 {
        assert(observations_bytes(a) + x =~= x);
        assert(observations_bytes(b) + y =~= y);
        assert(a =~= b);
    } else {
        let (left, right) = (a.drop_first(), b.drop_first());
        lemma_observations_front(a);
        lemma_observations_front(b);
        lemma_observation(a[0], b[0], observations_bytes(left) + x, observations_bytes(right) + y);
        lemma_observations(left, right, x, y);
        assert(a =~= seq![a[0]] + left);
        assert(b =~= seq![b[0]] + right);
    }
}

proof fn lemma_timestamps(a: TimestampsView, b: TimestampsView, x: Seq<u8>, y: Seq<u8>)
    requires
        a.exchange_times.len() <= u64::MAX,
        b.exchange_times.len() <= u64::MAX,
        timestamps_bytes(a) + x == timestamps_bytes(b) + y,
    ensures
        a == b,
        x == y,
{
    broadcast use lemma_concat_associates;

    let listed = |times: TimestampsView, z: Seq<u8>|
        le_bytes(times.exchange_times.len(), 8) + (observations_bytes(times.exchange_times) + z);
    let completed = |times: TimestampsView, z: Seq<u8>|
        le_bytes(times.processing_completed.0 as nat, 8) + listed(times, z);
    assert(timestamps_bytes(a) + x == le_bytes(a.local_receive.0 as nat, 8) + completed(a, x));
    assert(timestamps_bytes(b) + y == le_bytes(b.local_receive.0 as nat, 8) + completed(b, y));
    lemma_u64(
        a.local_receive.0 as nat,
        b.local_receive.0 as nat,
        completed(a, x),
        completed(b, y),
    );
    lemma_u64(
        a.processing_completed.0 as nat,
        b.processing_completed.0 as nat,
        listed(a, x),
        listed(b, y),
    );
    lemma_u64(
        a.exchange_times.len(),
        b.exchange_times.len(),
        observations_bytes(a.exchange_times) + x,
        observations_bytes(b.exchange_times) + y,
    );
    lemma_observations(a.exchange_times, b.exchange_times, x, y);
}

proof fn lemma_three_numbers(
    a: (u64, u64, u64),
    b: (u64, u64, u64),
    x: Seq<u8>,
    y: Seq<u8>,
)
    requires
        le_bytes(a.0 as nat, 8) + (le_bytes(a.1 as nat, 8) + (le_bytes(a.2 as nat, 8) + x))
            == le_bytes(b.0 as nat, 8) + (le_bytes(b.1 as nat, 8) + (le_bytes(b.2 as nat, 8) + y)),
    ensures
        a == b,
        x == y,
{
    lemma_u64(
        a.0 as nat,
        b.0 as nat,
        le_bytes(a.1 as nat, 8) + (le_bytes(a.2 as nat, 8) + x),
        le_bytes(b.1 as nat, 8) + (le_bytes(b.2 as nat, 8) + y),
    );
    lemma_u64(
        a.1 as nat,
        b.1 as nat,
        le_bytes(a.2 as nat, 8) + x,
        le_bytes(b.2 as nat, 8) + y,
    );
    lemma_u64(a.2 as nat, b.2 as nat, x, y);
}

spec fn identity_tag(identity: IdentityView) -> u8 {
    match identity {
        IdentityView::Aster { .. } => 0,
        IdentityView::Hyperliquid { .. } => 1,
        IdentityView::Lighter { .. } => 2,
        IdentityView::Binance { .. } => 3,
    }
}

spec fn identity_rest(identity: IdentityView, z: Seq<u8>) -> Seq<u8> {
    match identity {
        IdentityView::Aster { aggregate_trade_id, first_trade_id, last_trade_id } => le_bytes(
            aggregate_trade_id as nat,
            8,
        ) + (le_bytes(first_trade_id as nat, 8) + (le_bytes(last_trade_id as nat, 8) + z)),
        IdentityView::Hyperliquid { block_time, trade_id, transaction_hash } => le_bytes(
            block_time as nat,
            8,
        ) + (le_bytes(trade_id as nat, 8) + (text_bytes(transaction_hash) + z)),
        IdentityView::Lighter { market_id, trade_id, message_nonce } => le_bytes(
            market_id as nat,
            8,
        ) + (text_bytes(trade_id) + (optional_u64_bytes(message_nonce) + z)),
        IdentityView::Binance { aggregate_trade_id, first_trade_id, last_trade_id } => le_bytes(
            aggregate_trade_id as nat,
            8,
        ) + (le_bytes(first_trade_id as nat, 8) + (le_bytes(last_trade_id as nat, 8) + z)),
    }
}

proof fn lemma_identity_front(identity: IdentityView, z: Seq<u8>)
    ensures
        identity_bytes(identity) + z == seq![identity_tag(identity)] + identity_rest(identity, z),
{
    assert(identity_bytes(identity) + z =~= seq![identity_tag(identity)] + identity_rest(
        identity,
        z,
    ));
}

proof fn lemma_identity(a: IdentityView, b: IdentityView, x: Seq<u8>, y: Seq<u8>)
    requires
        identity_countable(a),
        identity_countable(b),
        identity_bytes(a) + x == identity_bytes(b) + y,
    ensures
        a == b,
        x == y,
{
    lemma_identity_front(a, x);
    lemma_identity_front(b, y);
    lemma_byte(identity_tag(a), identity_tag(b), identity_rest(a, x), identity_rest(b, y));
    match (a, b) {
        (
            IdentityView::Aster { aggregate_trade_id: a1, first_trade_id: a2, last_trade_id: a3 },
            IdentityView::Aster { aggregate_trade_id: b1, first_trade_id: b2, last_trade_id: b3 },
        ) => {
            lemma_three_numbers((a1, a2, a3), (b1, b2, b3), x, y);
        },
        (
            IdentityView::Binance { aggregate_trade_id: a1, first_trade_id: a2, last_trade_id: a3 },
            IdentityView::Binance { aggregate_trade_id: b1, first_trade_id: b2, last_trade_id: b3 },
        ) => {
            lemma_three_numbers((a1, a2, a3), (b1, b2, b3), x, y);
        },
        (
            IdentityView::Hyperliquid { block_time: a1, trade_id: a2, transaction_hash: a3 },
            IdentityView::Hyperliquid { block_time: b1, trade_id: b2, transaction_hash: b3 },
        ) => {
            lemma_u64(
                a1 as nat,
                b1 as nat,
                le_bytes(a2 as nat, 8) + (text_bytes(a3) + x),
                le_bytes(b2 as nat, 8) + (text_bytes(b3) + y),
            );
            lemma_u64(a2 as nat, b2 as nat, text_bytes(a3) + x, text_bytes(b3) + y);
            lemma_text(a3, b3, x, y);
        },
        (
            IdentityView::Lighter { market_id: a1, trade_id: a2, message_nonce: a3 },
            IdentityView::Lighter { market_id: b1, trade_id: b2, message_nonce: b3 },
        ) => {
            lemma_u64(
                a1 as nat,
                b1 as nat,
                text_bytes(a2) + (optional_u64_bytes(a3) + x),
                text_bytes(b2) + (optional_u64_bytes(b3) + y),
            );
            lemma_text(a2, b2, optional_u64_bytes(a3) + x, optional_u64_bytes(b3) + y);
            lemma_optional_u64(a3, b3, x, y);
        },
        _ => {},
    }
}

spec fn payload_tag(event: EventView) -> u8 {
    match event {
        EventView::OrderBookSnapshot(_) => 0,
        EventView::OrderBookUnavailable(_) => 1,
        EventView::MarketTrade(_) => 2,
        EventView::TradeStreamUnavailable(_) => 3,
        EventView::TradeStreamResumed(_) => 4,
        EventView::BestBidOfferUpdated(_) => 5,
    }
}

spec fn snapshot_rest(snapshot: SnapshotView, z: Seq<u8>) -> Seq<u8> {
    timestamps_bytes(snapshot.timestamps) + (optional_u64_bytes(snapshot.source_sequence) + (
    le_bytes(snapshot.bids.len(), 8) + (levels_bytes(snapshot.bids) + (le_bytes(
        snapshot.asks.len(),
        8,
    ) + (levels_bytes(snapshot.asks) + z)))))
}

spec fn unavailable_rest(event: UnavailableView, z: Seq<u8>) -> Seq<u8> {
    le_bytes(event.observed_at.0 as nat, 8) + (seq![
        crate::engine::transcript::category_number(event.category),
    ] + (text_bytes(event.diagnostic) + z))
}

spec fn trade_rest(trade: TradeView, z: Seq<u8>) -> Seq<u8> {
    timestamps_bytes(trade.timestamps) + (amount_bytes(trade.price, trade.quantity) + (kinds_bytes(
        trade,
    ) + (identity_bytes(trade.identity) + z)))
}

spec fn payload_rest(event: EventView, z: Seq<u8>) -> Seq<u8> {
    match event {
        EventView::OrderBookSnapshot(snapshot) => snapshot_rest(snapshot, z),
        EventView::OrderBookUnavailable(event) => unavailable_rest(event, z),
        EventView::MarketTrade(trade) => trade_rest(trade, z),
        EventView::TradeStreamUnavailable(event) => unavailable_rest(event, z),
        EventView::TradeStreamResumed(event) => le_bytes(event.observed_at.0 as nat, 8) + z,
        EventView::BestBidOfferUpdated(bbo) => timestamps_bytes(bbo.timestamps) + (
        optional_level_bytes(bbo.bid) + (optional_level_bytes(bbo.ask) + z)),
    }
}

proof fn lemma_payload_front(event: EventView, z: Seq<u8>)
    ensures
        payload_bytes(event) + z == seq![payload_tag(event)] + payload_rest(event, z),
{
    broadcast use lemma_concat_associates;

}

proof fn lemma_snapshot(a: SnapshotView, b: SnapshotView, x: Seq<u8>, y: Seq<u8>)
    requires
        a.valid(),
        b.valid(),
        a.venue == b.venue,
        a.coin == b.coin,
        countable(EventView::OrderBookSnapshot(a)),
        countable(EventView::OrderBookSnapshot(b)),
        snapshot_rest(a, x) == snapshot_rest(b, y),
    ensures
        a == b,
        x == y,
{
    let asks = |book: SnapshotView, z: Seq<u8>|
        le_bytes(book.asks.len(), 8) + (levels_bytes(book.asks) + z);
    let bids = |book: SnapshotView, z: Seq<u8>|
        le_bytes(book.bids.len(), 8) + (levels_bytes(book.bids) + asks(book, z));
    let sequence = |book: SnapshotView, z: Seq<u8>|
        optional_u64_bytes(book.source_sequence) + bids(book, z);
    lemma_timestamps(a.timestamps, b.timestamps, sequence(a, x), sequence(b, y));
    lemma_optional_u64(a.source_sequence, b.source_sequence, bids(a, x), bids(b, y));
    lemma_counted_levels(a.bids, b.bids, asks(a, x), asks(b, y));
    lemma_counted_levels(a.asks, b.asks, x, y);
}

proof fn lemma_unavailable(a: UnavailableView, b: UnavailableView, x: Seq<u8>, y: Seq<u8>)
    requires
        a.venue == b.venue,
        a.coin == b.coin,
        text_countable(a.diagnostic),
        text_countable(b.diagnostic),
        unavailable_rest(a, x) == unavailable_rest(b, y),
    ensures
        a == b,
        x == y,
{
    let number = |event: UnavailableView|
        crate::engine::transcript::category_number(event.category);
    let rest = |event: UnavailableView, z: Seq<u8>| text_bytes(event.diagnostic) + z;
    lemma_u64(
        a.observed_at.0 as nat,
        b.observed_at.0 as nat,
        seq![number(a)] + rest(a, x),
        seq![number(b)] + rest(b, y),
    );
    lemma_byte(number(a), number(b), rest(a, x), rest(b, y));
    lemma_text(a.diagnostic, b.diagnostic, x, y);
}

proof fn lemma_trade(a: TradeView, b: TradeView, x: Seq<u8>, y: Seq<u8>)
    requires
        a.venue == b.venue,
        a.coin == b.coin,
        a.price.valid() && a.quantity.valid(),
        b.price.valid() && b.quantity.valid(),
        countable(EventView::MarketTrade(a)),
        countable(EventView::MarketTrade(b)),
        trade_rest(a, x) == trade_rest(b, y),
    ensures
        a == b,
        x == y,
{
    let identity = |trade: TradeView, z: Seq<u8>| identity_bytes(trade.identity) + z;
    let kinds = |trade: TradeView, z: Seq<u8>| kinds_bytes(trade) + identity(trade, z);
    let amounts = |trade: TradeView, z: Seq<u8>|
        amount_bytes(trade.price, trade.quantity) + kinds(trade, z);
    lemma_timestamps(a.timestamps, b.timestamps, amounts(a, x), amounts(b, y));
    lemma_amounts(a.price, a.quantity, b.price, b.quantity, kinds(a, x), kinds(b, y));
    lemma_split(kinds_bytes(a), kinds_bytes(b), identity(a, x), identity(b, y));
    assert(kinds_bytes(a)[0] == kinds_bytes(b)[0]);
    assert(kinds_bytes(a)[1] == kinds_bytes(b)[1]);
    assert(kinds_bytes(a)[2] == kinds_bytes(b)[2]);
    assert(kinds_bytes(a)[3] == kinds_bytes(b)[3]);
    lemma_identity(a.identity, b.identity, x, y);
}

proof fn lemma_payload(a: EventView, b: EventView, x: Seq<u8>, y: Seq<u8>)
    requires
        a.valid(),
        b.valid(),
        countable(a),
        countable(b),
        a.venue() == b.venue(),
        a.coin() == b.coin(),
        payload_bytes(a) + x == payload_bytes(b) + y,
    ensures
        a == b,
        x == y,
{
    lemma_payload_front(a, x);
    lemma_payload_front(b, y);
    lemma_byte(payload_tag(a), payload_tag(b), payload_rest(a, x), payload_rest(b, y));
    match (a, b) {
        (EventView::OrderBookSnapshot(left), EventView::OrderBookSnapshot(right)) => {
            lemma_snapshot(left, right, x, y);
        },
        (EventView::OrderBookUnavailable(left), EventView::OrderBookUnavailable(right)) => {
            lemma_unavailable(left, right, x, y);
        },
        (EventView::MarketTrade(left), EventView::MarketTrade(right)) => {
            lemma_trade(left, right, x, y);
        },
        (EventView::TradeStreamUnavailable(left), EventView::TradeStreamUnavailable(right)) => {
            lemma_unavailable(left, right, x, y);
        },
        (EventView::TradeStreamResumed(left), EventView::TradeStreamResumed(right)) => {
            lemma_u64(left.observed_at.0 as nat, right.observed_at.0 as nat, x, y);
        },
        (EventView::BestBidOfferUpdated(left), EventView::BestBidOfferUpdated(right)) => {
            lemma_timestamps(
                left.timestamps,
                right.timestamps,
                optional_level_bytes(left.bid) + (optional_level_bytes(left.ask) + x),
                optional_level_bytes(right.bid) + (optional_level_bytes(right.ask) + y),
            );
            lemma_optional_level(
                left.bid,
                right.bid,
                optional_level_bytes(left.ask) + x,
                optional_level_bytes(right.ask) + y,
            );
            lemma_optional_level(left.ask, right.ask, x, y);
        },
        _ => {},
    }
}

proof fn lemma_event(n1: u64, e1: EventView, n2: u64, e2: EventView, x: Seq<u8>, y: Seq<u8>)
    requires
        e1.valid(),
        e2.valid(),
        countable(e1),
        countable(e2),
        event_bytes(n1, e1) + x == event_bytes(n2, e2) + y,
    ensures
        n1 == n2,
        e1 == e2,
        x == y,
{
    broadcast use lemma_concat_associates;

    let coin = |event: EventView, z: Seq<u8>| text_bytes(event.coin()) + (payload_bytes(event) + z);
    let venue = |event: EventView, z: Seq<u8>|
        seq![venue_number(event.venue())] + coin(event, z);
    assert(event_bytes(n1, e1) + x == le_bytes(n1 as nat, 8) + venue(e1, x));
    assert(event_bytes(n2, e2) + y == le_bytes(n2 as nat, 8) + venue(e2, y));
    lemma_u64(n1 as nat, n2 as nat, venue(e1, x), venue(e2, y));
    lemma_byte(venue_number(e1.venue()), venue_number(e2.venue()), coin(e1, x), coin(e2, y));
    lemma_text(e1.coin(), e2.coin(), payload_bytes(e1) + x, payload_bytes(e2) + y);
    lemma_payload(e1, e2, x, y);
}

/// Different events, or the same event under different numbers, never enter the event digest
/// by the same bytes.
pub proof fn lemma_event_bytes_distinct(n1: u64, e1: EventView, n2: u64, e2: EventView)
    requires
        e1.valid(),
        e2.valid(),
        countable(e1),
        countable(e2),
    ensures
        event_bytes(n1, e1) == event_bytes(n2, e2) ==> n1 == n2 && e1 == e2,
{
    if event_bytes(n1, e1) == event_bytes(n2, e2) {
        let none = Seq::<u8>::empty();
        assert(event_bytes(n1, e1) + none =~= event_bytes(n1, e1));
        assert(event_bytes(n2, e2) + none =~= event_bytes(n2, e2));
        lemma_event(n1, e1, n2, e2, none, none);
    }
}

spec fn bytes_from(events: Seq<EventView>, start: nat) -> Seq<u8>
    decreases events.len(),
{
    if events.len() == 0 {
        Seq::empty()
    } else {
        event_bytes(start as u64, events[0]) + bytes_from(events.skip(1), start + 1)
    }
}

proof fn lemma_bytes_pushed(events: Seq<EventView>, start: nat)
    requires
        events.len() > 0,
    ensures
        bytes_from(events, start) == bytes_from(events.drop_last(), start) + event_bytes(
            (start + events.len() - 1) as u64,
            events.last(),
        ),
    decreases events.len(),
{
    let rest = events.skip(1);
    let earlier = events.drop_last();
    if events.len() == 1 {
        assert(bytes_from(rest, start + 1) =~= Seq::<u8>::empty());
        assert(bytes_from(earlier, start) =~= Seq::<u8>::empty());
        assert(bytes_from(events, start) =~= bytes_from(earlier, start) + event_bytes(
            start as u64,
            events.last(),
        ));
    } else {
        lemma_bytes_pushed(rest, start + 1);
        assert(rest.drop_last() =~= earlier.skip(1));
        assert(bytes_from(events, start) =~= bytes_from(earlier, start) + event_bytes(
            (start + events.len() - 1) as u64,
            events.last(),
        ));
    }
}

proof fn lemma_run_bytes(events: Seq<EventView>)
    requires
        events.len() < u64::MAX,
    ensures
        run(events).transcript == bytes_from(events, 1),
    decreases events.len(),
{
    if events.len() > 0 {
        lemma_run_bytes(events.drop_last());
        lemma_run_counts_events(events.drop_last());
        lemma_bytes_pushed(events, 1);
    }
}

proof fn lemma_bytes_tell_events(left: Seq<EventView>, right: Seq<EventView>, start: nat)
    requires
        bytes_from(left, start) == bytes_from(right, start),
        forall|i: int| 0 <= i < left.len() ==> (#[trigger] left[i]).valid() && countable(left[i]),
        forall|i: int|
            0 <= i < right.len() ==> (#[trigger] right[i]).valid() && countable(right[i]),
    ensures
        left == right,
    decreases left.len(),
{
    if left.len() == 0 || right.len() == 0 {
        lemma_le_bytes_len(start as u64 as nat, 8);
        assert(left =~= right);
    } else {
        let rest_left = left.skip(1);
        let rest_right = right.skip(1);
        lemma_event(
            start as u64,
            left[0],
            start as u64,
            right[0],
            bytes_from(rest_left, start + 1),
            bytes_from(rest_right, start + 1),
        );
        assert forall|i: int| 0 <= i < rest_left.len() implies (#[trigger] rest_left[i]).valid()
            && countable(rest_left[i]) by {
            assert(rest_left[i] == left[i + 1]);
        }
        assert forall|i: int| 0 <= i < rest_right.len() implies (#[trigger] rest_right[i]).valid()
            && countable(rest_right[i]) by {
            assert(rest_right[i] == right[i + 1]);
        }
        lemma_bytes_tell_events(rest_left, rest_right, start + 1);
        assert(left =~= seq![left[0]] + rest_left);
        assert(right =~= seq![right[0]] + rest_right);
    }
}

/// What is digested of a run tells every event of it, in order: runs over different events
/// are digested from different bytes.
pub proof fn lemma_digested_bytes_tell_events(left: Seq<EventView>, right: Seq<EventView>)
    requires
        left.len() < u64::MAX,
        right.len() < u64::MAX,
        forall|i: int| 0 <= i < left.len() ==> (#[trigger] left[i]).valid() && countable(left[i]),
        forall|i: int|
            0 <= i < right.len() ==> (#[trigger] right[i]).valid() && countable(right[i]),
    ensures
        run(left).transcript == run(right).transcript ==> left == right,
{
    if run(left).transcript == run(right).transcript {
        lemma_run_bytes(left);
        lemma_run_bytes(right);
        lemma_bytes_tell_events(left, right, 1);
    }
}

} // verus!
