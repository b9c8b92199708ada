//! What the data-quality counters of a capture count.
use vstd::prelude::*;

use crate::market_data::event::{EventView, UnavailabilityCategory};
use crate::recorder::capture::{observed, CaptureProgress};
use crate::recorder::manifest::DataQualityCounters;

verus! {

/// The counters after events, one after the other.
pub open spec fn counted(start: DataQualityCounters, events: Seq<EventView>) -> DataQualityCounters
    decreases events.len(),
{
    if events.len() == 0 {
        start
    } else {
        observed(counted(start, events.drop_last()), events.last())
    }
}

/// How many events are interruptions of a book.
pub open spec fn book_interruptions(events: Seq<EventView>) -> nat {
    events.filter(|event: EventView| event is OrderBookUnavailable).len()
}

/// How many events are interruptions of a book by a lost connection.
pub open spec fn lost_connections(events: Seq<EventView>) -> nat {
    events.filter(
        |event: EventView|
            event is OrderBookUnavailable && event->OrderBookUnavailable_0.category
                == UnavailabilityCategory::Disconnected,
    ).len()
}

/// How many events are interruptions of a trade stream.
pub open spec fn trade_interruptions(events: Seq<EventView>) -> nat {
    events.filter(|event: EventView| event is TradeStreamUnavailable).len()
}

/// How many events are interruptions by data that is not valid, of a book or of a trade
/// stream.
pub open spec fn rejections(events: Seq<EventView>) -> nat {
    events.filter(
        |event: EventView|
            (event is OrderBookUnavailable && event->OrderBookUnavailable_0.category
                == UnavailabilityCategory::InvalidMarketData) || (event is TradeStreamUnavailable
                && event->TradeStreamUnavailable_0.category
                == UnavailabilityCategory::InvalidMarketData),
    ).len()
}

/// The counters say how many interruptions of books, lost connections, interruptions of trade
/// streams and rejections there were among the events; trades that came twice are no events
/// and are counted apart.
pub proof fn lemma_counters_count_events(events: Seq<EventView>)
    requires
        events.len() < u64::MAX,
    ensures
        ({
            let counters = counted(CaptureProgress::fresh().data_quality, events);
            &&& counters.order_book_unavailable == book_interruptions(events)
            &&& counters.disconnects == lost_connections(events)
            &&& counters.trade_stream_gaps == trade_interruptions(events)
            &&& counters.invalid_messages == rejections(events)
            &&& counters.deduplicated_trades == 0
            &&& book_interruptions(events) <= events.len()
            &&& lost_connections(events) <= events.len()
            &&& trade_interruptions(events) <= events.len()
            &&& rejections(events) <= events.len()
        }),
    decreases events.len(),
{
    reveal(Seq::filter);
    if events.len() > 0 {
        lemma_counters_count_events(events.drop_last());
    }
}

/// A trade that came twice raises its own counter by one and no other.
pub proof fn lemma_repeated_trade_counted(progress: CaptureProgress)
    requires
        progress.data_quality.deduplicated_trades < u64::MAX,
    ensures
        ({
            let before = progress.data_quality;
            let after = progress.deduplicated().data_quality;
            &&& after.deduplicated_trades == before.deduplicated_trades + 1
            &&& after.order_book_unavailable == before.order_book_unavailable
            &&& after.disconnects == before.disconnects
            &&& after.trade_stream_gaps == before.trade_stream_gaps
            &&& after.invalid_messages == before.invalid_messages
            &&& progress.deduplicated().next_capture_sequence == progress.next_capture_sequence
        }),
{
}

/// An event that is taken in raises the next number by one, is counted in the data quality
/// and in the bytes, and the high-water mark is the largest length that the queue had, at
/// least one.
pub proof fn lemma_event_taken_in(
    progress: CaptureProgress,
    event: EventView,
    bytes: u64,
    length: usize,
)
    requires
        progress.next_capture_sequence < u64::MAX,
        progress.approximate_owned_event_bytes + bytes <= u64::MAX,
    ensures
        ({
            let after = progress.advanced(event, bytes, length);
            &&& after.next_capture_sequence == progress.next_capture_sequence + 1
            &&& after.approximate_owned_event_bytes == progress.approximate_owned_event_bytes
                + bytes
            &&& after.queue_high_water_mark >= progress.queue_high_water_mark
            &&& after.queue_high_water_mark >= length
            &&& after.queue_high_water_mark >= 1
            &&& after.queue_high_water_mark == progress.queue_high_water_mark
                || after.queue_high_water_mark == length || after.queue_high_water_mark == 1
            &&& after.data_quality == counted(progress.data_quality, seq![event])
            &&& after.queue_full == progress.queue_full
        }),
{
    assert(seq![event].drop_last() =~= Seq::<EventView>::empty());
    assert(seq![event].last() == event);
    assert(counted(progress.data_quality, seq![event].drop_last()) == progress.data_quality);
}

} // verus!
