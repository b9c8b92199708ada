//! That an export loses, doubles and reorders nothing.
use vstd::prelude::*;

use crate::export::convert::{event_rows, RowsView};
use crate::export::exporter::{
    closing_outputs, event_row_count, group_outputs, partition_of, reconciliation, total_rows,
    with_all_rows, with_level, with_levels, Exported, ExporterView, OutputView, RowGroups,
    TableRows,
};
use crate::export::partition::{
    group_place, group_rows, has_group, in_partition_order, lemma_place_of_last, lemma_with_rows,
    partition_before, with_row, PartitionView,
};
use crate::export::rows::{CellView, Table};
use crate::json::object_text;
use crate::recorder::manifest::ManifestView;
use crate::recorder::validated::ReplayView;

verus! {

/// What a step writes to a table for a market.
pub open spec fn output_rows(output: OutputView, table: Table, partition: PartitionView) -> Seq<
    Seq<CellView>,
> {
    match output {
        OutputView::AppendLevels { partition: market, rows, .. } => if table
            == Table::OrderBookLevels && market == partition {
            rows
        } else {
            Seq::empty()
        },
        OutputView::WriteTable { table: written, partition: market, rows, .. } => if written
            == table && market == partition {
            rows
        } else {
            Seq::empty()
        },
        _ => Seq::empty(),
    }
}

/// What steps write to a table for a market, in order.
pub open spec fn rows_written(
    outputs: Seq<OutputView>,
    table: Table,
    partition: PartitionView,
) -> Seq<Seq<CellView>>
    decreases outputs.len(),
{
    if outputs.len() == 0 {
        Seq::empty()
    } else {
        rows_written(outputs.drop_last(), table, partition) + output_rows(
            outputs.last(),
            table,
            partition,
        )
    }
}

/// The rows of an event in a table for a market.
pub open spec fn event_part(
    capture_id: Seq<char>,
    event: ReplayView,
    table: Table,
    partition: PartitionView,
) -> Seq<Seq<CellView>> {
    match event_rows(capture_id, event.capture_sequence, event.event) {
        Err(_) => Seq::empty(),
        Ok(rows) => if partition_of(event.event) != partition {
            Seq::empty()
        } else {
            table_part(rows, table)
        },
    }
}

/// The rows that belong to a table.
pub open spec fn table_part(rows: RowsView, table: Table) -> Seq<Seq<CellView>> {
    if table == Table::OrderBookLevels {
        rows.levels
    } else if table == Table::ExchangeTimes {
        rows.times
    } else if table == rows.table {
        seq![rows.row]
    } else {
        Seq::empty()
    }
}

/// The rows of events in a table for a market, in the order of the events.
pub open spec fn expected_rows(
    capture_id: Seq<char>,
    events: Seq<ReplayView>,
    table: Table,
    partition: PartitionView,
) -> Seq<Seq<CellView>>
    decreases events.len(),
{
    if events.len() == 0 {
        Seq::empty()
    } else {
        expected_rows(capture_id, events.drop_last(), table, partition) + event_part(
            capture_id,
            events.last(),
            table,
            partition,
        )
    }
}

/// The rows of events in a table, counted.
pub open spec fn expected_count(
    capture_id: Seq<char>,
    events: Seq<ReplayView>,
    table: Table,
) -> nat
    decreases events.len(),
{
    if events.len() == 0 {
        0
    } else {
        expected_count(capture_id, events.drop_last(), table) + event_part(
            capture_id,
            events.last(),
            table,
            partition_of(events.last().event),
        ).len()
    }
}

/// Taking events one after the other.
pub open spec fn exported(start: ExporterView, events: Seq<ReplayView>) -> Exported<ExporterView>
    decreases events.len(),
{
    if events.len() == 0 {
        Ok((start, Seq::empty()))
    } else {
        match exported(start, events.drop_last()) {
            Err(error) => Err(error),
            Ok(earlier) => match earlier.0.accepted(events.last()) {
                Err(error) => Err(error),
                Ok(after) => Ok((after.0, earlier.1 + after.1)),
            },
        }
    }
}

/// The rows of a table that are not written yet.
pub open spec fn kept(exporter: ExporterView, table: Table) -> RowGroups {
    match table {
        Table::OrderBookEvents => exporter.books,
        Table::BestBidOffers => exporter.best_bid_offers,
        Table::MarketTrades => exporter.trades,
        Table::AvailabilityEvents => exporter.availability,
        Table::ExchangeTimes => exporter.exchange_times,
        Table::OrderBookLevels => exporter.levels,
        Table::Captures => Seq::empty(),
    }
}

/// The rows of a table so far, counted.
pub open spec fn counted(exporter: ExporterView, table: Table) -> nat {
    if table == Table::OrderBookLevels {
        exporter.level_rows as nat
    } else {
        exporter.table_rows.of(table) as nat + total_rows(kept(exporter, table))
    }
}

/// Whether all rows that are kept are grouped in order.
pub open spec fn ordered(exporter: ExporterView) -> bool {
    &&& in_partition_order(exporter.books)
    &&& in_partition_order(exporter.best_bid_offers)
    &&& in_partition_order(exporter.trades)
    &&& in_partition_order(exporter.availability)
    &&& in_partition_order(exporter.exchange_times)
    &&& in_partition_order(exporter.levels)
}

proof fn lemma_written_sum(
    first: Seq<OutputView>,
    second: Seq<OutputView>,
    table: Table,
    partition: PartitionView,
)
    ensures
        rows_written(first + second, table, partition) == rows_written(first, table, partition)
            + rows_written(second, table, partition),
    decreases second.len(),
{
    if second.len() == 0 {
        assert(first + second =~= first);
        assert(rows_written(first, table, partition) + Seq::<Seq<CellView>>::empty()
            =~= rows_written(first, table, partition));
    } else {
        lemma_written_sum(first, second.drop_last(), table, partition);
        assert((first + second).drop_last() =~= first + second.drop_last());
        assert((first + second).last() == second.last());
        let a = rows_written(first, table, partition);
        let b = rows_written(second.drop_last(), table, partition);
        let c = output_rows(second.last(), table, partition);
        assert((a + b) + c =~= a + (b + c));
    }
}

proof fn lemma_written_push(
    outputs: Seq<OutputView>,
    output: OutputView,
    table: Table,
    partition: PartitionView,
)
    ensures
        rows_written(outputs.push(output), table, partition) == rows_written(
            outputs,
            table,
            partition,
        ) + output_rows(output, table, partition),
{
    assert(outputs.push(output).drop_last() =~= outputs);
}

/// Rows of a market in groups, wherever they stand.
spec fn rows_among(groups: RowGroups, partition: PartitionView) -> Seq<Seq<CellView>>
    decreases groups.len(),
{
    if groups.len() == 0 {
        Seq::empty()
    } else {
        rows_among(groups.drop_last(), partition) + (if groups.last().0 == partition {
            groups.last().1
        } else {
            Seq::empty()
        })
    }
}

proof fn lemma_rows_among(groups: RowGroups, partition: PartitionView)
    requires
        in_partition_order(groups),
    ensures
        rows_among(groups, partition) == group_rows(groups, partition),
    decreases groups.len(),
{
    if groups.len() > 0 {
        let earlier = groups.drop_last();
        assert(in_partition_order(earlier)) by {
            assert forall|i: int, j: int| 0 <= i < j < earlier.len() implies partition_before(
                (#[trigger] earlier[i]).0,
                (#[trigger] earlier[j]).0,
            ) by {
                assert(partition_before(groups[i].0, groups[j].0));
            }
        }
        lemma_rows_among(earlier, partition);
        lemma_place_of_last(groups, partition);
        assert(rows_among(groups, partition) =~= group_rows(groups, partition));
    } else {
        assert(!has_group(groups, partition));
    }
}

proof fn lemma_group_outputs(
    date: Seq<char>,
    capture_id: Seq<char>,
    batch: u64,
    written: Table,
    groups: RowGroups,
    table: Table,
    partition: PartitionView,
)
    ensures
        rows_written(
            group_outputs(date, capture_id, batch, written, groups),
            table,
            partition,
        ) == (if table == written {
            rows_among(groups, partition)
        } else {
            Seq::empty()
        }),
    decreases groups.len(),
{
    if groups.len() > 0 {
        lemma_group_outputs(
            date,
            capture_id,
            batch,
            written,
            groups.drop_last(),
            table,
            partition,
        );
        let earlier = group_outputs(date, capture_id, batch, written, groups.drop_last());
        let outputs = group_outputs(date, capture_id, batch, written, groups);
        if groups.last().1.len() == 0 {
            assert(groups.last().1 =~= Seq::empty());
        } else {
            assert(outputs.drop_last() =~= earlier);
        }
        if table == written {
            assert(rows_written(outputs, table, partition) =~= rows_among(groups, partition));
        } else {
            assert(rows_written(outputs, table, partition) =~= Seq::empty());
        }
    }
}

proof fn lemma_closing_outputs(
    date: Seq<char>,
    capture_id: Seq<char>,
    groups: RowGroups,
    table: Table,
    partition: PartitionView,
)
    ensures
        rows_written(closing_outputs(date, capture_id, groups), table, partition) == (if table
            == Table::OrderBookLevels {
            rows_among(groups, partition)
        } else {
            Seq::empty()
        }),
    decreases groups.len(),
{
    if groups.len() > 0 {
        lemma_closing_outputs(date, capture_id, groups.drop_last(), table, partition);
        let earlier = closing_outputs(date, capture_id, groups.drop_last());
        let outputs = closing_outputs(date, capture_id, groups);
        let appended = outputs.drop_last();
        lemma_written_push(appended, outputs.last(), table, partition);
        assert(outputs =~= appended.push(outputs.last()));
        if groups.last().1.len() == 0 {
            assert(groups.last().1 =~= Seq::empty());
            assert(appended =~= earlier);
        } else {
            assert(appended.drop_last() =~= earlier);
        }
        if table == Table::OrderBookLevels {
            assert(rows_written(outputs, table, partition) =~= rows_among(groups, partition));
        } else {
            assert(rows_written(outputs, table, partition) =~= Seq::empty());
        }
    }
}

proof fn lemma_with_all_rows(
    groups: RowGroups,
    partition: PartitionView,
    rows: Seq<Seq<CellView>>,
    other: PartitionView,
)
    requires
        in_partition_order(groups),
    ensures
        in_partition_order(with_all_rows(groups, partition, rows)),
        group_rows(with_all_rows(groups, partition, rows), other) == group_rows(groups, other)
            + (if other == partition {
            rows
        } else {
            Seq::empty()
        }),
        total_rows(with_all_rows(groups, partition, rows)) == total_rows(groups) + rows.len(),
    decreases rows.len(),
{
    let after = with_all_rows(groups, partition, rows);
    let old_rows = group_rows(groups, other);
    if rows.len() == 0 {
        assert(old_rows + Seq::<Seq<CellView>>::empty() =~= old_rows);
        assert(rows =~= Seq::empty());
    } else {
        let earlier = with_all_rows(groups, partition, rows.drop_last());
        lemma_with_all_rows(groups, partition, rows.drop_last(), other);
        lemma_with_rows(
            earlier,
            partition,
            group_rows(earlier, partition).push(rows.last()),
            other,
        );
        lemma_total_with_row(earlier, partition, rows.last());
        if other == partition {
            assert(group_rows(after, other) =~= old_rows + rows);
        }
    }
}

proof fn lemma_total_update(groups: RowGroups, place: int, entry: (PartitionView, Seq<Seq<CellView>>))
    requires
        0 <= place < groups.len(),
    ensures
        total_rows(groups.update(place, entry)) == total_rows(groups) - groups[place].1.len()
            + entry.1.len(),
    decreases groups.len(),
{
    let after = groups.update(place, entry);
    if place == groups.len() - 1 {
        assert(after.drop_last() =~= groups.drop_last());
    } else {
        lemma_total_update(groups.drop_last(), place, entry);
        assert(after.drop_last() =~= groups.drop_last().update(place, entry));
    }
}

proof fn lemma_total_insert(groups: RowGroups, place: int, entry: (PartitionView, Seq<Seq<CellView>>))
    requires
        0 <= place <= groups.len(),
    ensures
        total_rows(groups.insert(place, entry)) == total_rows(groups) + entry.1.len(),
    decreases groups.len(),
{
    let after = groups.insert(place, entry);
    if place == groups.len() {
        assert(after.drop_last() =~= groups);
    } else {
        lemma_total_insert(groups.drop_last(), place, entry);
        assert(after.drop_last() =~= groups.drop_last().insert(place, entry));
    }
}

proof fn lemma_place_inside(groups: RowGroups, partition: PartitionView)
    ensures
        group_place(groups, partition) <= groups.len(),
    decreases groups.len(),
{
    if groups.len() > 0 && partition_before(groups[0].0, partition) {
        lemma_place_inside(groups.drop_first(), partition);
    }
}

proof fn lemma_total_with_row(groups: RowGroups, partition: PartitionView, row: Seq<CellView>)
    ensures
        total_rows(with_row(groups, partition, row)) == total_rows(groups) + 1,
{
    lemma_place_inside(groups, partition);
    let place = group_place(groups, partition) as int;
    let entry = (partition, group_rows(groups, partition).push(row));
    if has_group(groups, partition) {
        lemma_total_update(groups, place, entry);
    } else {
        lemma_total_insert(groups, place, entry);
    }
}

proof fn lemma_with_levels(
    date: Seq<char>,
    capture_id: Seq<char>,
    groups: RowGroups,
    partition: PartitionView,
    rows: Seq<Seq<CellView>>,
    table: Table,
    other: PartitionView,
)
    requires
        in_partition_order(groups),
    ensures
        in_partition_order(with_levels(date, capture_id, groups, partition, rows).0),
        table == Table::OrderBookLevels ==> rows_written(
            with_levels(date, capture_id, groups, partition, rows).1,
            table,
            other,
        ) + group_rows(with_levels(date, capture_id, groups, partition, rows).0, other)
            == group_rows(groups, other) + (if other == partition {
            rows
        } else {
            Seq::empty()
        }),
        table != Table::OrderBookLevels ==> rows_written(
            with_levels(date, capture_id, groups, partition, rows).1,
            table,
            other,
        ) == Seq::<Seq<CellView>>::empty(),
    decreases rows.len(),
{
    let after = with_levels(date, capture_id, groups, partition, rows);
    let old_rows = group_rows(groups, other);
    if rows.len() == 0 {
        assert(rows =~= Seq::empty());
        assert(Seq::<Seq<CellView>>::empty() + old_rows =~= old_rows + Seq::<
            Seq<CellView>,
        >::empty());
    } else {
        let earlier = with_levels(date, capture_id, groups, partition, rows.drop_last());
        let step = with_level(date, capture_id, earlier.0, partition, rows.last());
        lemma_with_levels(date, capture_id, groups, partition, rows.drop_last(), table, other);
        lemma_written_sum(earlier.1, step.1, table, other);
        let grown = group_rows(earlier.0, partition).push(rows.last());
        lemma_with_rows(earlier.0, partition, grown, other);
        lemma_with_rows(earlier.0, partition, Seq::empty(), other);
        let so_far = rows_written(earlier.1, table, other);
        let now = rows_written(step.1, table, other);
        assert(rows =~= rows.drop_last().push(rows.last()));
        assert(now == (if table == Table::OrderBookLevels && other == partition && grown.len()
            >= 4_096 {
            grown
        } else {
            Seq::empty()
        })) by {
            reveal_with_fuel(rows_written, 3);
            if step.1.len() == 0 {
            } else if step.1.len() == 1 {
                assert(step.1.drop_last() =~= Seq::empty());
            } else {
                assert(step.1.drop_last().drop_last() =~= Seq::empty());
            }
            assert(now =~= if table == Table::OrderBookLevels && other == partition && grown.len()
                >= 4_096 {
                grown
            } else {
                Seq::empty()
            });
        }
        if table == Table::OrderBookLevels {
            let middle = group_rows(earlier.0, other);
            if other == partition {
                assert(now + group_rows(step.0, other) =~= grown);
                assert((so_far + now) + group_rows(step.0, other) =~= so_far + (now + group_rows(
                    step.0,
                    other,
                )));
                assert(so_far + grown =~= (so_far + middle).push(rows.last()));
                assert(old_rows + rows =~= (old_rows + rows.drop_last()).push(rows.last()));
            } else {
                assert(group_rows(step.0, other) == middle);
                assert((so_far + now) + middle =~= so_far + middle);
            }
        } else {
            assert(so_far + now =~= Seq::empty());
        }
    }
}

proof fn lemma_batch_outputs(exporter: ExporterView, table: Table, partition: PartitionView)
    requires
        ordered(exporter),
    ensures
        rows_written(exporter.batch_outputs(), table, partition) == (if table
            == Table::OrderBookLevels {
            Seq::empty()
        } else {
            group_rows(kept(exporter, table), partition)
        }),
{
    let date = exporter.date;
    let id = exporter.capture_id;
    let batch = exporter.batch_index;
    let books = group_outputs(date, id, batch, Table::OrderBookEvents, exporter.books);
    let trades = group_outputs(date, id, batch, Table::MarketTrades, exporter.trades);
    let bbos = group_outputs(date, id, batch, Table::BestBidOffers, exporter.best_bid_offers);
    let states = group_outputs(date, id, batch, Table::AvailabilityEvents, exporter.availability);
    let times = group_outputs(date, id, batch, Table::ExchangeTimes, exporter.exchange_times);
    lemma_written_sum(books, trades, table, partition);
    lemma_written_sum(books + trades, bbos, table, partition);
    lemma_written_sum(books + trades + bbos, states, table, partition);
    lemma_written_sum(books + trades + bbos + states, times, table, partition);
    lemma_group_outputs(date, id, batch, Table::OrderBookEvents, exporter.books, table, partition);
    lemma_group_outputs(date, id, batch, Table::MarketTrades, exporter.trades, table, partition);
    lemma_group_outputs(
        date,
        id,
        batch,
        Table::BestBidOffers,
        exporter.best_bid_offers,
        table,
        partition,
    );
    lemma_group_outputs(
        date,
        id,
        batch,
        Table::AvailabilityEvents,
        exporter.availability,
        table,
        partition,
    );
    lemma_group_outputs(
        date,
        id,
        batch,
        Table::ExchangeTimes,
        exporter.exchange_times,
        table,
        partition,
    );
    lemma_rows_among(exporter.books, partition);
    lemma_rows_among(exporter.trades, partition);
    lemma_rows_among(exporter.best_bid_offers, partition);
    lemma_rows_among(exporter.availability, partition);
    lemma_rows_among(exporter.exchange_times, partition);
    if table == Table::Captures {
        assert(!has_group(kept(exporter, table), partition));
    }
    assert(rows_written(exporter.batch_outputs(), table, partition) =~= if table
        == Table::OrderBookLevels {
        Seq::empty()
    } else {
        group_rows(kept(exporter, table), partition)
    });
}

proof fn lemma_written_state(exporter: ExporterView, table: Table, partition: PartitionView)
    requires
        ordered(exporter),
        exporter.countable(),
    ensures
        ordered(exporter.written()),
        rows_written(exporter.batch_outputs(), table, partition) + group_rows(
            kept(exporter.written(), table),
            partition,
        ) == group_rows(kept(exporter, table), partition),
        counted(exporter.written(), table) == counted(exporter, table),
{
    lemma_batch_outputs(exporter, table, partition);
    let after = exporter.written();
    if table != Table::OrderBookLevels {
        assert(!has_group(kept(after, table), partition));
    }
    assert(rows_written(exporter.batch_outputs(), table, partition) + group_rows(
        kept(after, table),
        partition,
    ) =~= group_rows(kept(exporter, table), partition));
}

/// What is written for an event, and what is kept of it, is what was kept before and the rows
/// of the event, in this order, for every table and every market. The counts grow by the rows
/// of the event.
pub proof fn lemma_event_exported(
    exporter: ExporterView,
    event: ReplayView,
    table: Table,
    partition: PartitionView,
)
    requires
        ordered(exporter),
        exporter.processed_events < u64::MAX,
        exporter.accepted(event) is Ok,
        table != Table::Captures,
    ensures
        ordered(exporter.accepted(event)->Ok_0.0),
        exporter.accepted(event)->Ok_0.0.capture_id == exporter.capture_id,
        exporter.accepted(event)->Ok_0.0.processed_events == exporter.processed_events + 1,
        rows_written(exporter.accepted(event)->Ok_0.1, table, partition) + group_rows(
            kept(exporter.accepted(event)->Ok_0.0, table),
            partition,
        ) == group_rows(kept(exporter, table), partition) + event_part(
            exporter.capture_id,
            event,
            table,
            partition,
        ),
        counted(exporter.accepted(event)->Ok_0.0, table) == counted(exporter, table) + event_part(
            exporter.capture_id,
            event,
            table,
            partition_of(event.event),
        ).len(),
{
    let rows = event_rows(exporter.capture_id, event.capture_sequence, event.event)->Ok_0;
    let market = partition_of(event.event);
    let next = exporter.with_event(market, rows);
    let levels = with_levels(
        exporter.date,
        exporter.capture_id,
        exporter.levels,
        market,
        rows.levels,
    );
    let part = event_part(exporter.capture_id, event, table, partition);
    let old_rows = group_rows(kept(exporter, table), partition);
    lemma_with_levels(
        exporter.date,
        exporter.capture_id,
        exporter.levels,
        market,
        rows.levels,
        table,
        partition,
    );
    lemma_with_all_rows(exporter.exchange_times, market, rows.times, partition);
    let groups = kept(exporter, rows.table);
    lemma_with_rows(groups, market, group_rows(groups, market).push(rows.row), partition);
    lemma_total_with_row(groups, market, rows.row);
    assert(ordered(next));
    assert(rows_written(levels.1, table, partition) + group_rows(kept(next, table), partition)
        == old_rows + part) by {
        if table != Table::OrderBookLevels {
            let now = group_rows(kept(next, table), partition);
            assert(Seq::<Seq<CellView>>::empty() + now =~= now);
            if table == rows.table {
                if partition == market {
                    assert(old_rows.push(rows.row) =~= old_rows + part);
                } else {
                    assert(old_rows =~= old_rows + part);
                }
            } else if table != Table::ExchangeTimes {
                assert(old_rows =~= old_rows + part);
            }
        }
    }
    assert(counted(next, table) == counted(exporter, table) + event_part(
        exporter.capture_id,
        event,
        table,
        market,
    ).len());
    if next.processed_events % 4_096 == 0 {
        lemma_written_state(next, table, partition);
        lemma_written_sum(levels.1, next.batch_outputs(), table, partition);
        let first = rows_written(levels.1, table, partition);
        let second = rows_written(next.batch_outputs(), table, partition);
        let left = group_rows(kept(next.written(), table), partition);
        assert((first + second) + left =~= first + (second + left));
    }
}

proof fn lemma_regrouped<T>(first: Seq<T>, second: Seq<T>, left: Seq<T>, before: Seq<T>, part: Seq<T>)
    requires
        second + left == before + part,
    ensures
        (first + second) + left == (first + before) + part,
{
    assert((first + second) + left =~= first + (second + left));
    assert(first + (before + part) =~= (first + before) + part);
}

/// Nothing is lost, doubled or reordered while events are taken: for every table and every
/// market, what is written and what is kept are the rows of the events, in the order of the
/// events. The counts are those of the rows.
pub proof fn lemma_events_exported(
    date: Seq<char>,
    capture_id: Seq<char>,
    events: Seq<ReplayView>,
    table: Table,
    partition: PartitionView,
)
    requires
        events.len() <= u64::MAX,
        exported(ExporterView::fresh(date, capture_id), events) is Ok,
        table != Table::Captures,
    ensures
        ({
            let end = exported(ExporterView::fresh(date, capture_id), events)->Ok_0;
            &&& ordered(end.0)
            &&& end.0.capture_id == capture_id
            &&& end.0.processed_events == events.len()
            &&& rows_written(end.1, table, partition) + group_rows(kept(end.0, table), partition)
                == expected_rows(capture_id, events, table, partition)
            &&& counted(end.0, table) == expected_count(capture_id, events, table)
        }),
    decreases events.len(),
{
    let start = ExporterView::fresh(date, capture_id);
    if events.len() == 0 {
        assert(!has_group(kept(start, table), partition));
        assert(Seq::<Seq<CellView>>::empty() + Seq::<Seq<CellView>>::empty() =~= Seq::<
            Seq<CellView>,
        >::empty());
    } else {
        lemma_events_exported(date, capture_id, events.drop_last(), table, partition);
        let earlier = exported(start, events.drop_last())->Ok_0;
        let after = earlier.0.accepted(events.last())->Ok_0;
        lemma_event_exported(earlier.0, events.last(), table, partition);
        lemma_written_sum(earlier.1, after.1, table, partition);
        let first = rows_written(earlier.1, table, partition);
        let second = rows_written(after.1, table, partition);
        let left = group_rows(kept(after.0, table), partition);
        let before = group_rows(kept(earlier.0, table), partition);
        let part = event_part(capture_id, events.last(), table, partition);
        lemma_regrouped(first, second, left, before, part);
    }
}

/// One event has one row among the tables of events.
proof fn lemma_one_row_each(capture_id: Seq<char>, events: Seq<ReplayView>)
    requires
        forall|i: int|
            0 <= i < events.len() ==> event_rows(
                capture_id,
                (#[trigger] events[i]).capture_sequence,
                events[i].event,
            ) is Ok,
    ensures
        expected_count(capture_id, events, Table::OrderBookEvents) + expected_count(
            capture_id,
            events,
            Table::BestBidOffers,
        ) + expected_count(capture_id, events, Table::MarketTrades) + expected_count(
            capture_id,
            events,
            Table::AvailabilityEvents,
        ) == events.len(),
    decreases events.len(),
{
    if events.len() > 0 {
        assert forall|i: int| 0 <= i < events.drop_last().len() implies event_rows(
            capture_id,
            (#[trigger] events.drop_last()[i]).capture_sequence,
            events.drop_last()[i].event,
        ) is Ok by {
            assert(events.drop_last()[i] == events[i]);
        }
        lemma_one_row_each(capture_id, events.drop_last());
        let last = events[events.len() - 1];
        assert(event_rows(capture_id, last.capture_sequence, last.event) is Ok);
    }
}

proof fn lemma_all_convert(date: Seq<char>, capture_id: Seq<char>, events: Seq<ReplayView>, i: int)
    requires
        events.len() <= u64::MAX,
        exported(ExporterView::fresh(date, capture_id), events) is Ok,
        0 <= i < events.len(),
    ensures
        event_rows(capture_id, events[i].capture_sequence, events[i].event) is Ok,
    decreases events.len(),
{
    if i == events.len() - 1 {
        lemma_events_exported(
            date,
            capture_id,
            events.drop_last(),
            Table::OrderBookEvents,
            (Seq::empty(), Seq::empty()),
        );
    } else {
        lemma_all_convert(date, capture_id, events.drop_last(), i);
        assert(events.drop_last()[i] == events[i]);
    }
}

/// An export reconciles: once every event was taken, every event has exactly one row, so that
/// the export ends well if its configuration can be rendered and its times can be counted.
pub proof fn lemma_export_reconciles(
    date: Seq<char>,
    capture_id: Seq<char>,
    events: Seq<ReplayView>,
    manifest: ManifestView,
    manifest_sha256: Seq<char>,
)
    requires
        events.len() <= u64::MAX,
        exported(ExporterView::fresh(date, capture_id), events) is Ok,
    ensures
        ({
            let end = exported(ExporterView::fresh(date, capture_id), events)->Ok_0;
            end.0.finished(manifest, manifest_sha256, events.len() as u64) is Ok <==> expected_count(
                capture_id,
                events,
                Table::ExchangeTimes,
            ) <= u64::MAX
        }),
{
    let market = (Seq::<char>::empty(), Seq::<char>::empty());
    lemma_events_exported(date, capture_id, events, Table::OrderBookEvents, market);
    lemma_events_exported(date, capture_id, events, Table::BestBidOffers, market);
    lemma_events_exported(date, capture_id, events, Table::MarketTrades, market);
    lemma_events_exported(date, capture_id, events, Table::AvailabilityEvents, market);
    lemma_events_exported(date, capture_id, events, Table::ExchangeTimes, market);
    assert forall|i: int| 0 <= i < events.len() implies event_rows(
        capture_id,
        (#[trigger] events[i]).capture_sequence,
        events[i].event,
    ) is Ok by {
        lemma_all_convert(date, capture_id, events, i);
    }
    lemma_one_row_each(capture_id, events);
    let end = exported(ExporterView::fresh(date, capture_id), events)->Ok_0;
    if end.0.countable() {
        let rows = TableRows {
            order_book_levels: end.0.level_rows,
            ..end.0.written().table_rows
        };
        assert(event_row_count(rows) == events.len());
        assert(reconciliation(rows, events.len() as u64) is None);
    }
}

proof fn lemma_finish_writes_rest(
    exporter: ExporterView,
    manifest: ManifestView,
    manifest_sha256: Seq<char>,
    canonical_events: u64,
    table: Table,
    partition: PartitionView,
)
    requires
        ordered(exporter),
        table != Table::Captures,
        exporter.finished(manifest, manifest_sha256, canonical_events) is Ok,
    ensures
        rows_written(
            exporter.finished(manifest, manifest_sha256, canonical_events)->Ok_0.1,
            table,
            partition,
        ) == group_rows(kept(exporter, table), partition),
        exporter.finished(manifest, manifest_sha256, canonical_events)->Ok_0.0.of(table) == counted(
            exporter,
            table,
        ),
{
    let captures = exporter.captures_output(
        manifest,
        manifest_sha256,
        object_text(manifest.configuration),
    );
    assert(output_rows(captures, table, partition) == Seq::<Seq<CellView>>::empty());
    lemma_rest_written(exporter, captures, table, partition);
}

proof fn lemma_rest_written(
    exporter: ExporterView,
    captures: OutputView,
    table: Table,
    partition: PartitionView,
)
    requires
        ordered(exporter),
        output_rows(captures, table, partition) == Seq::<Seq<CellView>>::empty(),
        table != Table::Captures,
    ensures
        rows_written(
            exporter.batch_outputs() + closing_outputs(
                exporter.date,
                exporter.capture_id,
                exporter.levels,
            ) + seq![captures],
            table,
            partition,
        ) == group_rows(kept(exporter, table), partition),
{
    let batch = exporter.batch_outputs();
    let closing = closing_outputs(exporter.date, exporter.capture_id, exporter.levels);
    lemma_batch_outputs(exporter, table, partition);
    lemma_closing_outputs(
        exporter.date,
        exporter.capture_id,
        exporter.levels,
        table,
        partition,
    );
    lemma_rows_among(exporter.levels, partition);
    lemma_written_sum(batch, closing, table, partition);
    lemma_written_push(batch + closing, captures, table, partition);
    assert((batch + closing).push(captures) =~= batch + closing + seq![captures]);
    assert(rows_written(batch + closing + seq![captures], table, partition) =~= group_rows(
        kept(exporter, table),
        partition,
    ));
}

/// A finished export is complete: for every table and every market, the files hold the rows of
/// the events, in the order of the events, and the counts are those of the rows.
pub proof fn lemma_export_complete(
    date: Seq<char>,
    capture_id: Seq<char>,
    events: Seq<ReplayView>,
    manifest: ManifestView,
    manifest_sha256: Seq<char>,
    table: Table,
    partition: PartitionView,
)
    requires
        events.len() <= u64::MAX,
        table != Table::Captures,
        exported(ExporterView::fresh(date, capture_id), events) is Ok,
        exported(ExporterView::fresh(date, capture_id), events)->Ok_0.0.finished(
            manifest,
            manifest_sha256,
            events.len() as u64,
        ) is Ok,
    ensures
        ({
            let taken = exported(ExporterView::fresh(date, capture_id), events)->Ok_0;
            let end = taken.0.finished(
                manifest,
                manifest_sha256,
                events.len() as u64,
            )->Ok_0;
            &&& rows_written(taken.1 + end.1, table, partition) == expected_rows(
                capture_id,
                events,
                table,
                partition,
            )
            &&& end.0.of(table) == expected_count(capture_id, events, table)
        }),
{
    let taken = exported(ExporterView::fresh(date, capture_id), events)->Ok_0;
    let exporter = taken.0;
    let canonical = events.len() as u64;
    let end = exporter.finished(manifest, manifest_sha256, canonical)->Ok_0;
    lemma_events_exported(date, capture_id, events, table, partition);
    lemma_finish_writes_rest(exporter, manifest, manifest_sha256, canonical, table, partition);
    lemma_written_sum(taken.1, end.1, table, partition);
}

} // verus!
