//! Lists that are kept in the order of the markets they are about.
use vstd::prelude::*;

use crate::domain::Venue;
use crate::engine::transcript::venue_number;
use crate::text::{
    lemma_text_less_irreflexive, lemma_text_less_total, lemma_text_less_transitive, text_less,
};

verus! {

/// A market: its venue and its coin.
pub type MarketId = (Venue, Seq<char>);

/// The order of markets in reports: by venue, then by coin.
pub open spec fn market_before(left: MarketId, right: MarketId) -> bool {
    ||| venue_number(left.0) < venue_number(right.0)
    ||| venue_number(left.0) == venue_number(right.0) && text_less(left.1, right.1)
}

pub proof fn lemma_market_order(a: MarketId, b: MarketId, c: MarketId)
    ensures
        !market_before(a, a),
        a == b || market_before(a, b) || market_before(b, a),
        market_before(a, b) && market_before(b, c) ==> market_before(a, c),
{
    lemma_text_less_irreflexive(a.1);
    lemma_text_less_total(a.1, b.1);
    if text_less(a.1, b.1) && text_less(b.1, c.1) {
        lemma_text_less_transitive(a.1, b.1, c.1);
    }
}

/// Strictly rising markets.
pub open spec fn in_market_order<T>(items: Seq<(MarketId, T)>) -> bool {
    forall|i: int, j: int|
        0 <= i < j < items.len() ==> market_before((#[trigger] items[i]).0, (#[trigger] items[j]).0)
}

/// Some item is about the market.
pub open spec fn lists_market<T>(items: Seq<(MarketId, T)>, market: MarketId) -> bool {
    exists|i: int| 0 <= i < items.len() && (#[trigger] items[i]).0 == market
}

/// The items by market.
pub open spec fn keyed<T>(items: Seq<(MarketId, T)>) -> Map<MarketId, T> {
    Map::new(
        |market: MarketId| lists_market(items, market),
        |market: MarketId|
            items[choose|i: int| 0 <= i < items.len() && (#[trigger] items[i]).0 == market].1,
    )
}

pub proof fn lemma_keyed_at<T>(items: Seq<(MarketId, T)>, i: int)
    requires
        in_market_order(items),
        0 <= i < items.len(),
    ensures
        keyed(items).dom().contains(items[i].0),
        keyed(items)[items[i].0] == items[i].1,
{
    let market = items[i].0;
    assert(lists_market(items, market));
    let j = choose|j: int| 0 <= j < items.len() && (#[trigger] items[j]).0 == market;
    lemma_market_order(market, market, market);
    assert(i == j);
}

pub proof fn lemma_keyed_insert<T>(items: Seq<(MarketId, T)>, i: int, market: MarketId, value: T)
    requires
        in_market_order(items),
        0 <= i <= items.len(),
        forall|j: int| 0 <= j < i ==> market_before((#[trigger] items[j]).0, market),
        forall|j: int| i <= j < items.len() ==> market_before(market, (#[trigger] items[j]).0),
    ensures
        in_market_order(items.insert(i, (market, value))),
        keyed(items.insert(i, (market, value))) == keyed(items).insert(market, value),
        !keyed(items).dom().contains(market),
{
    let after = items.insert(i, (market, value));
    lemma_market_order(market, market, market);
    assert forall|a: int, b: int| 0 <= a < b < after.len() implies market_before(
        (#[trigger] after[a]).0,
        (#[trigger] after[b]).0,
    ) by {
        let old_a = if a < i { a } else { a - 1 };
        let old_b = if b < i { b } else { b - 1 };
        if a != i {
            assert(after[a] == items[old_a]);
        }
        if b != i {
            assert(after[b] == items[old_b]);
        }
    }
    assert forall|other: MarketId| lists_market(after, other) <==> (other == market
        || lists_market(items, other)) by {
        if lists_market(items, other) {
            let j = choose|j: int| 0 <= j < items.len() && (#[trigger] items[j]).0 == other;
            let k = if j < i { j } else { j + 1 };
            assert(after[k] == items[j]);
        }
        if lists_market(after, other) {
            let k = choose|k: int| 0 <= k < after.len() && (#[trigger] after[k]).0 == other;
            if k != i {
                let j = if k < i { k } else { k - 1 };
                assert(after[k] == items[j]);
            }
        }
        assert(after[i].0 == market);
    }
    assert(!lists_market(items, market)) by {
        if lists_market(items, market) {
            let j = choose|j: int| 0 <= j < items.len() && (#[trigger] items[j]).0 == market;
        }
    }
    let left = keyed(after);
    let right = keyed(items).insert(market, value);
    assert(left.dom() =~= right.dom());
    assert forall|other: MarketId| left.dom().contains(other) implies left[other]
        == right[other] by {
        let k = choose|k: int| 0 <= k < after.len() && (#[trigger] after[k]).0 == other;
        lemma_keyed_at(after, k);
        if k == i {
        } else {
            let j = if k < i { k } else { k - 1 };
            assert(after[k] == items[j]);
            lemma_keyed_at(items, j);
        }
    }
    assert(left =~= right);
}

pub proof fn lemma_keyed_update<T>(items: Seq<(MarketId, T)>, i: int, value: T)
    requires
        in_market_order(items),
        0 <= i < items.len(),
    ensures
        in_market_order(items.update(i, (items[i].0, value))),
        keyed(items.update(i, (items[i].0, value))) == keyed(items).insert(items[i].0, value),
{
    let after = items.update(i, (items[i].0, value));
    assert forall|j: int| 0 <= j < after.len() implies (#[trigger] after[j]).0 == items[j].0 by {}
    assert(in_market_order(after));
    lemma_market_order(items[i].0, items[i].0, items[i].0);
    assert forall|other: MarketId| lists_market(after, other) <==> lists_market(items, other) by {
        if lists_market(items, other) {
            let j = choose|j: int| 0 <= j < items.len() && (#[trigger] items[j]).0 == other;
            assert(after[j].0 == other);
        }
        if lists_market(after, other) {
            let j = choose|j: int| 0 <= j < after.len() && (#[trigger] after[j]).0 == other;
            assert(items[j].0 == other);
        }
    }
    assert(lists_market(items, items[i].0));
    let left = keyed(after);
    let right = keyed(items).insert(items[i].0, value);
    assert(left.dom() =~= right.dom());
    assert forall|other: MarketId| left.dom().contains(other) implies left[other]
        == right[other] by {
        let k = choose|k: int| 0 <= k < after.len() && (#[trigger] after[k]).0 == other;
        lemma_keyed_at(after, k);
        lemma_keyed_at(items, k);
        if k != i {
            assert(after[k] == items[k]);
            assert(other != items[i].0);
        }
    }
    assert(left =~= right);
}

pub proof fn lemma_keyed_absent<T>(items: Seq<(MarketId, T)>, i: int, market: MarketId)
    requires
        0 <= i <= items.len(),
        forall|j: int| 0 <= j < i ==> market_before((#[trigger] items[j]).0, market),
        forall|j: int| i <= j < items.len() ==> market_before(market, (#[trigger] items[j]).0),
    ensures
        !keyed(items).dom().contains(market),
{
    lemma_market_order(market, market, market);
}

} // verus!
