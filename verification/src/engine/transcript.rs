//! The bytes by which events enter the event digest.
use vstd::prelude::*;

use crate::bytes::{le_bytes, lemma_concat_associates, push_all, push_le};
use crate::domain::{Price, Quantity, Venue};
use crate::market_data::event::{EventView, IdentityView, TimestampsView, TradeView};
use crate::market_data::{
    AggressorSide, AggressorSideClassification, BestBidOffer, BookLevel, EventTimestamps,
    ExchangeTimeKind, ExchangeTimeObservation, ExchangeTimeUnit, MarketTrade, MarketTradeIdentity,
    MarketTradeKind, MarketTradeReportingKind, NormalizedMarketEvent, OrderBookSnapshot,
    UnavailabilityCategory,
};

verus! {

/// The place of a venue in reports and its number in the event digest.
pub open spec fn venue_number(venue: Venue) -> u8 {
    match venue {
        Venue::Aster => 0,
        Venue::Hyperliquid => 1,
        Venue::Lighter => 2,
        Venue::Binance => 3,
    }
}

/// The number of an unavailability category in the event digest.
pub open spec fn category_number(category: UnavailabilityCategory) -> u8 {
    match category {
        UnavailabilityCategory::Disconnected => 0,
        UnavailabilityCategory::InvalidMarketData => 1,
        UnavailabilityCategory::SequenceGap => 2,
        UnavailabilityCategory::RecorderShutdown => 3,
        UnavailabilityCategory::Other => 4,
    }
}

/// The number of an exchange time kind in the event digest.
pub open spec fn time_kind_number(kind: ExchangeTimeKind) -> u8 {
    match kind {
        ExchangeTimeKind::EventTime => 0,
        ExchangeTimeKind::TradeTime => 1,
        ExchangeTimeKind::BlockTime => 2,
        ExchangeTimeKind::TransactionTime => 3,
        ExchangeTimeKind::Other => 4,
    }
}

/// The number of an exchange time unit in the event digest.
pub open spec fn time_unit_number(unit: ExchangeTimeUnit) -> u8 {
    match unit {
        ExchangeTimeUnit::Milliseconds => 0,
        ExchangeTimeUnit::Microseconds => 1,
        ExchangeTimeUnit::Nanoseconds => 2,
        ExchangeTimeUnit::Unknown => 3,
    }
}

/// The number of a reporting kind in the event digest.
pub open spec fn reporting_number(kind: MarketTradeReportingKind) -> u8 {
    match kind {
        MarketTradeReportingKind::Individual => 0,
        MarketTradeReportingKind::TakerOrderAggregate => 1,
    }
}

/// The number of a trade kind in the event digest.
pub open spec fn trade_kind_number(kind: MarketTradeKind) -> u8 {
    match kind {
        MarketTradeKind::Regular => 0,
        MarketTradeKind::Liquidation => 1,
        MarketTradeKind::Deleverage => 2,
        MarketTradeKind::MarketSettlement => 3,
        MarketTradeKind::Other => 4,
    }
}

/// The number of an aggressor side in the event digest.
pub open spec fn side_number(side: AggressorSide) -> u8 {
    match side {
        AggressorSide::Buy => 0,
        AggressorSide::Sell => 1,
        AggressorSide::Unknown => 2,
    }
}

/// The number of a side classification in the event digest.
pub open spec fn classification_number(classification: AggressorSideClassification) -> u8 {
    match classification {
        AggressorSideClassification::VenueProvided => 0,
        AggressorSideClassification::DerivedFromMakerSide => 1,
        AggressorSideClassification::Unknown => 2,
    }
}

/// A text as its byte length and its UTF-8 bytes.
pub open spec fn text_bytes(text: Seq<char>) -> Seq<u8> {
    let utf8 = vstd::utf8::encode_utf8(text);
    le_bytes(utf8.len(), 8) + utf8
}

/// An optional number behind a presence byte.
pub open spec fn optional_u64_bytes(value: Option<u64>) -> Seq<u8> {
    match value {
        Some(value) => seq![1u8] + le_bytes(value as nat, 8),
        None => seq![0u8],
    }
}

/// A price and a quantity, each as coefficient and scale.
pub open spec fn amount_bytes(price: Price, quantity: Quantity) -> Seq<u8> {
    le_bytes(price.coefficient_value() as nat, 16) + seq![price.scale_value() as u8] + le_bytes(
        quantity.coefficient_value() as nat,
        16,
    ) + seq![quantity.scale_value() as u8]
}

/// Price, quantity and order count of a level.
pub open spec fn level_bytes(level: BookLevel) -> Seq<u8> {
    amount_bytes(level.price, level.quantity) + optional_u64_bytes(
        match level.order_count {
            Some(count) => Some(count.count() as u64),
            None => None,
        },
    )
}

/// Levels one after the other.
pub open spec fn levels_bytes(levels: Seq<BookLevel>) -> Seq<u8>
    decreases levels.len(),
{
    if levels.len() == 0 {
        Seq::empty()
    } else {
        levels_bytes(levels.drop_last()) + level_bytes(levels.last())
    }
}

/// An optional level behind a presence byte.
pub open spec fn optional_level_bytes(level: Option<BookLevel>) -> Seq<u8> {
    match level {
        Some(level) => seq![1u8] + level_bytes(level),
        None => seq![0u8],
    }
}

/// One exchange time observation.
pub open spec fn observation_bytes(observation: ExchangeTimeObservation) -> Seq<u8> {
    seq![time_kind_number(observation.kind)] + le_bytes(observation.raw_value as nat, 8) + seq![
        time_unit_number(observation.declared_unit),
    ]
}

/// Exchange time observations one after the other.
pub open spec fn observations_bytes(observations: Seq<ExchangeTimeObservation>) -> Seq<u8>
    decreases observations.len(),
{
    if observations.len() == 0 {
        Seq::empty()
    } else {
        observations_bytes(observations.drop_last()) + observation_bytes(observations.last())
    }
}

/// The times of an event.
pub open spec fn timestamps_bytes(timestamps: TimestampsView) -> Seq<u8> {
    le_bytes(timestamps.local_receive.0 as nat, 8) + le_bytes(
        timestamps.processing_completed.0 as nat,
        8,
    ) + le_bytes(timestamps.exchange_times.len(), 8) + observations_bytes(
        timestamps.exchange_times,
    )
}

/// The identity of a trade.
pub open spec fn identity_bytes(identity: IdentityView) -> Seq<u8> {
    match identity {
        IdentityView::Aster { aggregate_trade_id, first_trade_id, last_trade_id } => seq![0u8]
            + le_bytes(aggregate_trade_id as nat, 8) + le_bytes(first_trade_id as nat, 8)
            + le_bytes(last_trade_id as nat, 8),
        IdentityView::Hyperliquid { block_time, trade_id, transaction_hash } => seq![1u8]
            + le_bytes(block_time as nat, 8) + le_bytes(trade_id as nat, 8) + text_bytes(
            transaction_hash,
        ),
        IdentityView::Lighter { market_id, trade_id, message_nonce } => seq![2u8] + le_bytes(
            market_id as nat,
            8,
        ) + text_bytes(trade_id) + optional_u64_bytes(message_nonce),
        IdentityView::Binance { aggregate_trade_id, first_trade_id, last_trade_id } => seq![3u8]
            + le_bytes(aggregate_trade_id as nat, 8) + le_bytes(first_trade_id as nat, 8)
            + le_bytes(last_trade_id as nat, 8),
    }
}

/// How a trade is reported and classified.
pub open spec fn kinds_bytes(trade: TradeView) -> Seq<u8> {
    seq![
        reporting_number(trade.reporting_kind),
        trade_kind_number(trade.trade_kind),
        side_number(trade.aggressor_side),
        classification_number(trade.aggressor_side_classification),
    ]
}

/// What an event says beyond its market.
pub open spec fn payload_bytes(event: EventView) -> Seq<u8> {
    match event {
        EventView::OrderBookSnapshot(snapshot) => seq![0u8] + timestamps_bytes(snapshot.timestamps)
            + optional_u64_bytes(snapshot.source_sequence) + le_bytes(snapshot.bids.len(), 8)
            + levels_bytes(snapshot.bids) + le_bytes(snapshot.asks.len(), 8) + levels_bytes(
            snapshot.asks,
        ),
        EventView::BestBidOfferUpdated(bbo) => seq![5u8] + timestamps_bytes(bbo.timestamps)
            + optional_level_bytes(bbo.bid) + optional_level_bytes(bbo.ask),
        EventView::OrderBookUnavailable(event) => seq![1u8] + le_bytes(event.observed_at.0 as nat, 8)
            + seq![category_number(event.category)] + text_bytes(event.diagnostic),
        EventView::MarketTrade(trade) => seq![2u8] + timestamps_bytes(trade.timestamps)
            + amount_bytes(trade.price, trade.quantity) + kinds_bytes(trade) + identity_bytes(
            trade.identity,
        ),
        EventView::TradeStreamUnavailable(event) => seq![3u8] + le_bytes(
            event.observed_at.0 as nat,
            8,
        ) + seq![category_number(event.category)] + text_bytes(event.diagnostic),
        EventView::TradeStreamResumed(event) => seq![4u8] + le_bytes(event.observed_at.0 as nat, 8),
    }
}

/// The bytes by which an event enters the event digest.
pub open spec fn event_bytes(sequence: u64, event: EventView) -> Seq<u8> {
    le_bytes(sequence as nat, 8) + seq![venue_number(event.venue())] + text_bytes(event.coin())
        + payload_bytes(event)
}

pub fn venue_rank(venue: Venue) -> (rank: u8)
    ensures
        rank == venue_number(venue),
{
    match venue {
        Venue::Aster => 0,
        Venue::Hyperliquid => 1,
        Venue::Lighter => 2,
        Venue::Binance => 3,
    }
}

fn unavailability_rank(category: UnavailabilityCategory) -> (rank: u8)
    ensures
        rank == category_number(category),
{
    match category {
        UnavailabilityCategory::Disconnected => 0,
        UnavailabilityCategory::InvalidMarketData => 1,
        UnavailabilityCategory::SequenceGap => 2,
        UnavailabilityCategory::RecorderShutdown => 3,
        UnavailabilityCategory::Other => 4,
    }
}

fn hash_u8(out: &mut Vec<u8>, value: u8)
    ensures
        final(out)@ == old(out)@ + seq![value],
{
    out.push(value);
    assert(out@ =~= old(out)@ + seq![value]);
}

fn hash_u64(out: &mut Vec<u8>, value: u64)
    ensures
        final(out)@ == old(out)@ + le_bytes(value as nat, 8),
{
    push_le(out, value as u128, 8);
}

fn hash_i128(out: &mut Vec<u8>, value: i128)
    requires
        value >= 0,
    ensures
        final(out)@ == old(out)@ + le_bytes(value as nat, 16),
{
    push_le(out, value as u128, 16);
}

fn hash_optional_u64(out: &mut Vec<u8>, value: Option<u64>)
    ensures
        final(out)@ == old(out)@ + optional_u64_bytes(value),
{
    match value {
        Some(value) => {
            hash_u8(out, 1);
            hash_u64(out, value);
            assert(out@ =~= old(out)@ + optional_u64_bytes(Some(value)));
        },
        None => hash_u8(out, 0),
    }
}

fn hash_str(out: &mut Vec<u8>, value: &str)
    ensures
        final(out)@ == old(out)@ + text_bytes(value@),
{
    let bytes: &[u8] = value.as_bytes();
    hash_u64(out, bytes.len() as u64);
    push_all(out, bytes);
    assert(out@ =~= old(out)@ + text_bytes(value@));
}

fn hash_amounts(out: &mut Vec<u8>, price: Price, quantity: Quantity)
    ensures
        final(out)@ == old(out)@ + amount_bytes(price, quantity),
{
    broadcast use lemma_concat_associates;

    hash_i128(out, price.coefficient());
    hash_u8(out, price.scale());
    hash_i128(out, quantity.coefficient());
    hash_u8(out, quantity.scale());
}

fn hash_book_level(out: &mut Vec<u8>, level: &BookLevel)
    ensures
        final(out)@ == old(out)@ + level_bytes(*level),
{
    hash_amounts(out, level.price, level.quantity);
    let count: Option<u64> = match level.order_count {
        Some(count) => Some(count.get() as u64),
        None => None,
    };
    hash_optional_u64(out, count);
    assert(out@ =~= old(out)@ + level_bytes(*level));
}

fn hash_book_levels(out: &mut Vec<u8>, levels: &[BookLevel])
    ensures
        final(out)@ == old(out)@ + (le_bytes(levels@.len(), 8) + levels_bytes(levels@)),
{
    hash_u64(out, levels.len() as u64);
    let ghost start = out@;
    let mut i: usize = 0;
    assert(levels@.take(0) =~= Seq::<BookLevel>::empty());
    assert(start + levels_bytes(levels@.take(0)) =~= start);
    while i < levels.len()
        invariant
            i <= levels.len(),
            out@ == start + levels_bytes(levels@.take(i as int)),
        decreases levels.len() - i,
    {
        hash_book_level(out, &levels[i]);
        i = i + 1;
        proof {
            let taken = levels@.take(i as int);
            assert(taken.drop_last() =~= levels@.take(i - 1));
            assert(out@ =~= start + levels_bytes(taken));
        }
    }
    assert(levels@.take(i as int) =~= levels@);
    assert(out@ =~= old(out)@ + (le_bytes(levels@.len(), 8) + levels_bytes(levels@)));
}

fn hash_optional_book_level(out: &mut Vec<u8>, level: Option<&BookLevel>)
    ensures
        final(out)@ == old(out)@ + optional_level_bytes(
            match level {
                Some(level) => Some(*level),
                None => None,
            },
        ),
{
    match level {
        Some(level) => {
            hash_u8(out, 1);
            hash_book_level(out, level);
            assert(out@ =~= old(out)@ + optional_level_bytes(Some(*level)));
        },
        None => hash_u8(out, 0),
    }
}

fn hash_timestamps(out: &mut Vec<u8>, timestamps: &EventTimestamps)
    ensures
        final(out)@ == old(out)@ + timestamps_bytes(timestamps@),
{
    hash_u64(out, timestamps.local_receive().nanos_since_start());
    hash_u64(out, timestamps.processing_completed().nanos_since_start());
    let observations: &[ExchangeTimeObservation] = timestamps.exchange_times();
    hash_u64(out, observations.len() as u64);
    let ghost start = out@;
    let mut i: usize = 0;
    assert(observations@.take(0) =~= Seq::<ExchangeTimeObservation>::empty());
    assert(start + observations_bytes(observations@.take(0)) =~= start);
    while i < observations.len()
        invariant
            i <= observations.len(),
            out@ == start + observations_bytes(observations@.take(i as int)),
        decreases observations.len() - i,
    {
        let observation: ExchangeTimeObservation = observations[i];
        hash_u8(
            out,
            match observation.kind() {
                ExchangeTimeKind::EventTime => 0,
                ExchangeTimeKind::TradeTime => 1,
                ExchangeTimeKind::BlockTime => 2,
                ExchangeTimeKind::TransactionTime => 3,
                ExchangeTimeKind::Other => 4,
            },
        );
        hash_u64(out, observation.raw_value());
        hash_u8(
            out,
            match observation.declared_unit() {
                ExchangeTimeUnit::Milliseconds => 0,
                ExchangeTimeUnit::Microseconds => 1,
                ExchangeTimeUnit::Nanoseconds => 2,
                ExchangeTimeUnit::Unknown => 3,
            },
        );
        i = i + 1;
        proof {
            let taken = observations@.take(i as int);
            assert(taken.drop_last() =~= observations@.take(i - 1));
            assert(out@ =~= start + observations_bytes(taken));
        }
    }
    assert(observations@.take(i as int) =~= observations@);
    assert(out@ =~= old(out)@ + timestamps_bytes(timestamps@));
}

fn hash_identity(out: &mut Vec<u8>, identity: &MarketTradeIdentity)
    ensures
        final(out)@ == old(out)@ + identity_bytes(identity@),
{
    match identity {
        MarketTradeIdentity::Aster { aggregate_trade_id, first_trade_id, last_trade_id } => {
            hash_u8(out, 0);
            hash_u64(out, *aggregate_trade_id);
            hash_u64(out, *first_trade_id);
            hash_u64(out, *last_trade_id);
        },
        MarketTradeIdentity::Hyperliquid { block_time, trade_id, transaction_hash } => {
            hash_u8(out, 1);
            hash_u64(out, *block_time);
            hash_u64(out, *trade_id);
            hash_str(out, transaction_hash.as_str());
        },
        MarketTradeIdentity::Lighter { market_id, trade_id, message_nonce } => {
            hash_u8(out, 2);
            hash_u64(out, *market_id as u64);
            hash_str(out, trade_id.as_str());
            hash_optional_u64(out, *message_nonce);
        },
        MarketTradeIdentity::Binance { aggregate_trade_id, first_trade_id, last_trade_id } => {
            hash_u8(out, 3);
            hash_u64(out, *aggregate_trade_id);
            hash_u64(out, *first_trade_id);
            hash_u64(out, *last_trade_id);
        },
    }
    assert(out@ =~= old(out)@ + identity_bytes(identity@));
}

fn hash_snapshot(out: &mut Vec<u8>, snapshot: &OrderBookSnapshot)
    ensures
        final(out)@ == old(out)@ + payload_bytes(EventView::OrderBookSnapshot(snapshot@)),
{
    broadcast use lemma_concat_associates;

    hash_u8(out, 0);
    hash_timestamps(out, snapshot.timestamps());
    hash_optional_u64(out, snapshot.source_sequence());
    hash_book_levels(out, snapshot.bids());
    hash_book_levels(out, snapshot.asks());
}

fn hash_best_bid_offer(out: &mut Vec<u8>, bbo: &BestBidOffer)
    ensures
        final(out)@ == old(out)@ + payload_bytes(EventView::BestBidOfferUpdated(bbo@)),
{
    broadcast use lemma_concat_associates;

    hash_u8(out, 5);
    hash_timestamps(out, bbo.timestamps());
    hash_optional_book_level(out, bbo.bid());
    hash_optional_book_level(out, bbo.ask());
}

fn hash_kinds(out: &mut Vec<u8>, trade: &MarketTrade)
    ensures
        final(out)@ == old(out)@ + kinds_bytes(trade@),
{
    hash_u8(
        out,
        match trade.reporting_kind() {
            MarketTradeReportingKind::Individual => 0,
            MarketTradeReportingKind::TakerOrderAggregate => 1,
        },
    );
    hash_u8(
        out,
        match trade.trade_kind() {
            MarketTradeKind::Regular => 0,
            MarketTradeKind::Liquidation => 1,
            MarketTradeKind::Deleverage => 2,
            MarketTradeKind::MarketSettlement => 3,
            MarketTradeKind::Other => 4,
        },
    );
    hash_u8(
        out,
        match trade.aggressor_side() {
            AggressorSide::Buy => 0,
            AggressorSide::Sell => 1,
            AggressorSide::Unknown => 2,
        },
    );
    hash_u8(
        out,
        match trade.aggressor_side_classification() {
            AggressorSideClassification::VenueProvided => 0,
            AggressorSideClassification::DerivedFromMakerSide => 1,
            AggressorSideClassification::Unknown => 2,
        },
    );
    assert(out@ =~= old(out)@ + kinds_bytes(trade@));
}

fn hash_trade(out: &mut Vec<u8>, trade: &MarketTrade)
    ensures
        final(out)@ == old(out)@ + payload_bytes(EventView::MarketTrade(trade@)),
{
    broadcast use lemma_concat_associates;

    hash_u8(out, 2);
    hash_timestamps(out, trade.timestamps());
    hash_amounts(out, trade.price(), trade.quantity());
    hash_kinds(out, trade);
    hash_identity(out, trade.identity());
}

/// The bytes by which an event enters the event digest.
pub fn hash_event(sequence: u64, event: &NormalizedMarketEvent) -> (out: Vec<u8>)
    ensures
        out@ == event_bytes(sequence, event@),
{
    broadcast use lemma_concat_associates;

    let mut out: Vec<u8> = Vec::new();
    hash_u64(&mut out, sequence);
    hash_u8(&mut out, venue_rank(event.venue()));
    hash_str(&mut out, event.market_coin().as_str());
    assert(Seq::<u8>::empty() + le_bytes(sequence as nat, 8) =~= le_bytes(sequence as nat, 8));
    match event {
        NormalizedMarketEvent::OrderBookSnapshot(snapshot) => hash_snapshot(&mut out, snapshot),
        NormalizedMarketEvent::BestBidOfferUpdated(bbo) => hash_best_bid_offer(&mut out, bbo),
        NormalizedMarketEvent::OrderBookUnavailable(unavailable) => {
            hash_u8(&mut out, 1);
            hash_u64(&mut out, unavailable.observed_at().nanos_since_start());
            hash_u8(&mut out, unavailability_rank(unavailable.category()));
            hash_str(&mut out, unavailable.diagnostic());
        },
        NormalizedMarketEvent::MarketTrade(trade) => hash_trade(&mut out, trade),
        NormalizedMarketEvent::TradeStreamUnavailable(unavailable) => {
            hash_u8(&mut out, 3);
            hash_u64(&mut out, unavailable.observed_at().nanos_since_start());
            hash_u8(&mut out, unavailability_rank(unavailable.category()));
            hash_str(&mut out, unavailable.diagnostic());
        },
        NormalizedMarketEvent::TradeStreamResumed(resumed) => {
            hash_u8(&mut out, 4);
            hash_u64(&mut out, resumed.observed_at().nanos_since_start());
        },
    }
    out
}

} // verus!
