//! One side of a book that is kept up by changes.
use vstd::prelude::*;

use crate::domain::price::lemma_price_value;
use crate::domain::{Price, Quantity};
use crate::market_data::order_book::{ascending, levels_valid};
use crate::market_data::BookLevel;

verus! {

/// One side of a book: the quantity at each price.
pub struct PriceLadder {
    levels: Vec<BookLevel>,
}

/// Whether levels list a side completely, in rising order of price and without counts.
pub open spec fn lists(levels: Seq<BookLevel>, side: Map<Price, Quantity>) -> bool {
    &&& ascending(levels)
    &&& levels_valid(levels)
    &&& forall|i: int|
        0 <= i < levels.len() ==> (#[trigger] levels[i]).order_count is None && side.contains_key(
            levels[i].price,
        ) && side[levels[i].price] == levels[i].quantity
    &&& forall|price: Price| #[trigger]
        side.contains_key(price) ==> stands_at(levels, price)
}

/// Some level has the price.
pub open spec fn stands_at(levels: Seq<BookLevel>, price: Price) -> bool {
    exists|i: int| 0 <= i < levels.len() && (#[trigger] levels[i]).price == price
}

/// The levels of a side, in rising order of price.
pub open spec fn ladder_levels(side: Map<Price, Quantity>) -> Seq<BookLevel> {
    choose|levels: Seq<BookLevel>| lists(levels, side)
}

spec fn held(levels: Seq<BookLevel>) -> Map<Price, Quantity> {
    Map::new(
        |price: Price| stands_at(levels, price),
        |price: Price|
            levels[choose|i: int|
                0 <= i < levels.len() && (#[trigger] levels[i]).price == price].quantity,
    )
}

spec fn sound(levels: Seq<BookLevel>) -> bool {
    &&& ascending(levels)
    &&& levels_valid(levels)
    &&& forall|i: int| 0 <= i < levels.len() ==> (#[trigger] levels[i]).order_count is None
}

proof fn lemma_held_listed(levels: Seq<BookLevel>)
    requires
        sound(levels),
    ensures
        lists(levels, held(levels)),
{
    assert forall|i: int| 0 <= i < levels.len() implies (#[trigger] levels[i]).order_count is None
        && held(levels).contains_key(levels[i].price) && held(levels)[levels[i].price]
        == levels[i].quantity by {
        let price = levels[i].price;
        assert(stands_at(levels, price));
        let j = choose|j: int| 0 <= j < levels.len() && (#[trigger] levels[j]).price == price;
        if i < j {
            assert(levels[i].price.units() < levels[j].price.units());
        } else if j < i {
            assert(levels[j].price.units() < levels[i].price.units());
        }
    }
}

proof fn lemma_one_side(levels: Seq<BookLevel>, left: Map<Price, Quantity>, right: Map<Price, Quantity>)
    requires
        lists(levels, left),
        lists(levels, right),
    ensures
        left == right,
{
    assert forall|price: Price| left.contains_key(price) == right.contains_key(price) by {
        if left.contains_key(price) {
            assert(stands_at(levels, price));
        }
        if right.contains_key(price) {
            assert(stands_at(levels, price));
        }
    }
    assert(left =~= right) by {
        assert forall|price: Price| left.contains_key(price) implies left[price] == right[price] by {
            assert(stands_at(levels, price));
            let i = choose|i: int| 0 <= i < levels.len() && (#[trigger] levels[i]).price == price;
            assert(left[levels[i].price] == levels[i].quantity);
        }
    }
}

/// A side has only one listing.
pub proof fn lemma_listing_unique(
    left: Seq<BookLevel>,
    right: Seq<BookLevel>,
    side: Map<Price, Quantity>,
)
    requires
        lists(left, side),
        lists(right, side),
    ensures
        left == right,
    decreases left.len(),
{
    if left.len() == 0 {
        if right.len() > 0 {
            assert(side.contains_key(right[0].price));
            assert(stands_at(left, right[0].price));
        }
        assert(left =~= right);
    } else {
        assert(side.contains_key(left[0].price));
        assert(stands_at(right, left[0].price));
        let j = choose|j: int| 0 <= j < right.len() && (#[trigger] right[j]).price == left[0].price;
        assert(side.contains_key(right[0].price));
        assert(stands_at(left, right[0].price));
        let i = choose|i: int| 0 <= i < left.len() && (#[trigger] left[i]).price == right[0].price;
        assert(j == 0) by {
            if j > 0 {
                assert(right[0].price.units() < right[j].price.units());
                if i > 0 {
                    assert(left[0].price.units() < left[i].price.units());
                }
            }
        }
        assert(left[0] == right[0]);
        let rest = side.remove(left[0].price);
        lemma_rest_listed(left, side);
        lemma_rest_listed(right, side);
        lemma_listing_unique(left.drop_first(), right.drop_first(), rest);
        assert(left =~= seq![left[0]] + left.drop_first());
        assert(right =~= seq![right[0]] + right.drop_first());
    }
}

proof fn lemma_rest_listed(levels: Seq<BookLevel>, side: Map<Price, Quantity>)
    requires
        lists(levels, side),
        levels.len() > 0,
    ensures
        lists(levels.drop_first(), side.remove(levels[0].price)),
{
    let rest = levels.drop_first();
    let remaining = side.remove(levels[0].price);
    assert forall|i: int| 0 <= i < rest.len() implies (#[trigger] rest[i]).order_count is None
        && remaining.contains_key(rest[i].price) && remaining[rest[i].price]
        == rest[i].quantity by {
        assert(rest[i] == levels[i + 1]);
        assert(levels[0].price.units() < levels[i + 1].price.units());
    }
    assert forall|price: Price| #[trigger] remaining.contains_key(price) implies stands_at(
        rest,
        price,
    ) by {
        assert(side.contains_key(price));
        assert(stands_at(levels, price));
        let i = choose|i: int| 0 <= i < levels.len() && (#[trigger] levels[i]).price == price;
        assert(rest[i - 1].price == price);
    }
    assert(ascending(rest)) by {
        assert forall|i: int, j: int| 0 <= i < j < rest.len() implies (
        #[trigger] rest[i]).price.units() < (#[trigger] rest[j]).price.units() by {
            assert(rest[i] == levels[i + 1]);
            assert(rest[j] == levels[j + 1]);
        }
    }
    assert(levels_valid(rest)) by {
        assert forall|i: int| 0 <= i < rest.len() implies (#[trigger] rest[i]).valid() by {
            assert(rest[i] == levels[i + 1]);
        }
    }
}

impl View for PriceLadder {
    type V = Map<Price, Quantity>;

    closed spec fn view(&self) -> Map<Price, Quantity> {
        held(self.levels@)
    }
}

impl PriceLadder {
    /// Prices rise and every level is valid.
    pub closed spec fn well_formed(self) -> bool {
        sound(self.levels@)
    }

    /// A side without levels.
    pub fn new() -> (ladder: Self)
        ensures
            ladder.well_formed(),
            ladder@ == Map::<Price, Quantity>::empty(),
    {
        let ladder = PriceLadder { levels: Vec::new() };
        assert(ladder@ =~= Map::<Price, Quantity>::empty()) by {
            assert forall|price: Price| !stands_at(ladder.levels@, price) by {}
        }
        ladder
    }

    fn place_of(&self, price: Price) -> (place: (usize, bool))
        requires
            self.well_formed(),
            price.valid(),
        ensures
            place.0 <= self.levels@.len(),
            forall|j: int|
                0 <= j < place.0 ==> (#[trigger] self.levels@[j]).price.units() < price.units(),
            place.1 ==> place.0 < self.levels@.len() && self.levels@[place.0 as int].price == price,
            !place.1 ==> forall|j: int|
                place.0 <= j < self.levels@.len() ==> (#[trigger] self.levels@[j]).price.units()
                    > price.units(),
            place.1 == self@.contains_key(price),
    {
        let units: i128 = price.comparison_units();
        let mut i: usize = 0;
        while i < self.levels.len()
            invariant
                i <= self.levels.len(),
                self.well_formed(),
                price.valid(),
                units == price.units(),
                forall|j: int|
                    0 <= j < i ==> (#[trigger] self.levels@[j]).price.units() < price.units(),
            decreases self.levels.len() - i,
        {
            let other: i128 = self.levels[i].price.comparison_units();
            if other >= units {
                if other == units {
                    proof {
                        lemma_price_value(self.levels@[i as int].price, price);
                        assert(stands_at(self.levels@, price));
                    }
                    return (i, true);
                }
                proof {
                    assert forall|j: int| i <= j < self.levels@.len() implies (
                    #[trigger] self.levels@[j]).price.units() > price.units() by {
                        if i < j {
                            assert(self.levels@[i as int].price.units()
                                < self.levels@[j].price.units());
                        }
                    }
                    assert(!stands_at(self.levels@, price));
                }
                return (i, false);
            }
            i = i + 1;
        }
        assert(!stands_at(self.levels@, price));
        (i, false)
    }

    /// Whether there is a quantity at the price.
    pub fn contains(&self, price: Price) -> (r: bool)
        requires
            self.well_formed(),
            price.valid(),
        ensures
            r == self@.contains_key(price),
    {
        self.place_of(price).1
    }

    /// Sets the quantity at a price.
    pub fn insert(&mut self, price: Price, quantity: Quantity)
        requires
            old(self).well_formed(),
            price.valid(),
            quantity.valid(),
        ensures
            final(self).well_formed(),
            final(self)@ == old(self)@.insert(price, quantity),
    {
        let ghost before = self.levels@;
        let ghost side = self@.insert(price, quantity);
        proof {
            lemma_held_listed(before);
        }
        let (place, there) = self.place_of(price);
        let level: BookLevel = BookLevel::new(price, quantity, None);
        if there {
            self.levels.set(place, level);
            proof {
                let after = self.levels@;
                assert(after =~= before.update(place as int, level));
                assert forall|i: int, j: int| 0 <= i < j < after.len() implies (
                #[trigger] after[i]).price.units() < (#[trigger] after[j]).price.units() by {
                    assert(before[i].price.units() < before[j].price.units());
                }
                assert forall|i: int| 0 <= i < after.len() implies (
                #[trigger] after[i]).order_count is None && side.contains_key(after[i].price)
                    && side[after[i].price] == after[i].quantity by {
                    if i != place {
                        assert(after[i] == before[i]);
                        if i < place {
                            assert(before[i].price.units() < before[place as int].price.units());
                        } else {
                            assert(before[place as int].price.units() < before[i].price.units());
                        }
                    }
                }
                assert forall|other: Price| #[trigger] side.contains_key(other) implies stands_at(
                    after,
                    other,
                ) by {
                    if other == price {
                        assert(after[place as int].price == other);
                    } else {
                        assert(held(before).contains_key(other));
                        let i = choose|i: int|
                            0 <= i < before.len() && (#[trigger] before[i]).price == other;
                        assert(after[i].price == other);
                    }
                }
                assert(levels_valid(after)) by {
                    assert forall|i: int| 0 <= i < after.len() implies (
                    #[trigger] after[i]).valid() by {
                        if i != place {
                            assert(after[i] == before[i]);
                        }
                    }
                }
            }
        } else {
            self.levels.insert(place, level);
            proof {
                let after = self.levels@;
                assert(after =~= before.insert(place as int, level));
                assert forall|i: int, j: int| 0 <= i < j < after.len() implies (
                #[trigger] after[i]).price.units() < (#[trigger] after[j]).price.units() by {
                    let a = if i < place {
                        i
                    } else {
                        i - 1
                    };
                    let b = if j < place {
                        j
                    } else {
                        j - 1
                    };
                    if i != place {
                        assert(after[i] == before[a]);
                    }
                    if j != place {
                        assert(after[j] == before[b]);
                    }
                }
                assert forall|i: int| 0 <= i < after.len() implies (
                #[trigger] after[i]).order_count is None && side.contains_key(after[i].price)
                    && side[after[i].price] == after[i].quantity by {
                    if i < place {
                        assert(after[i] == before[i]);
                    } else if i > place {
                        assert(after[i] == before[i - 1]);
                    }
                }
                assert forall|other: Price| #[trigger] side.contains_key(other) implies stands_at(
                    after,
                    other,
                ) by {
                    if other == price {
                        assert(after[place as int].price == other);
                    } else {
                        assert(held(before).contains_key(other));
                        let i = choose|i: int|
                            0 <= i < before.len() && (#[trigger] before[i]).price == other;
                        if i < place {
                            assert(after[i].price == other);
                        } else {
                            assert(after[i + 1].price == other);
                        }
                    }
                }
                assert(levels_valid(after)) by {
                    assert forall|i: int| 0 <= i < after.len() implies (
                    #[trigger] after[i]).valid() by {
                        if i < place {
                            assert(after[i] == before[i]);
                        } else if i > place {
                            assert(after[i] == before[i - 1]);
                        }
                    }
                }
            }
        }
        proof {
            lemma_held_listed(self.levels@);
            lemma_one_side(self.levels@, self@, side);
        }
    }

    /// Removes what is at a price.
    pub fn remove(&mut self, price: Price)
        requires
            old(self).well_formed(),
            price.valid(),
        ensures
            final(self).well_formed(),
            final(self)@ == old(self)@.remove(price),
    {
        let ghost before = self.levels@;
        let ghost side = self@.remove(price);
        proof {
            lemma_held_listed(before);
        }
        let (place, there) = self.place_of(price);
        if !there {
            assert(side =~= self@);
            return ;
        }
        let _ = self.levels.remove(place);
        proof {
            let after = self.levels@;
            assert(after =~= before.remove(place as int));
            assert forall|i: int| 0 <= i < after.len() implies #[trigger] after[i] == before[if i
                < place {
                i
            } else {
                i + 1
            }] by {}
            assert forall|i: int| 0 <= i < after.len() implies (#[trigger] after[i]).order_count
                is None && side.contains_key(after[i].price) && side[after[i].price]
                == after[i].quantity by {
                let k = if i < place {
                    i
                } else {
                    i + 1
                };
                assert(after[i] == before[k]);
                if k < place {
                    assert(before[k].price.units() < before[place as int].price.units());
                } else {
                    assert(before[place as int].price.units() < before[k].price.units());
                }
            }
            assert forall|other: Price| #[trigger] side.contains_key(other) implies stands_at(
                after,
                other,
            ) by {
                assert(held(before).contains_key(other));
                let i = choose|i: int|
                    0 <= i < before.len() && (#[trigger] before[i]).price == other;
                if i < place {
                    assert(after[i].price == other);
                } else {
                    assert(after[i - 1].price == other);
                }
            }
            lemma_held_listed(self.levels@);
            lemma_one_side(self.levels@, self@, side);
        }
    }

    /// The levels in rising order of price.
    pub fn levels(&self) -> (levels: Vec<BookLevel>)
        requires
            self.well_formed(),
        ensures
            levels@ == ladder_levels(self@),
            lists(levels@, self@),
    {
        proof {
            lemma_held_listed(self.levels@);
            lemma_listing_unique(self.levels@, ladder_levels(self@), self@);
        }
        vstd::slice::slice_to_vec(self.levels.as_slice())
    }
}

/// Whether a side has a listing, as every side of a book that is kept up by changes has.
pub open spec fn listable(side: Map<Price, Quantity>) -> bool {
    exists|levels: Seq<BookLevel>| lists(levels, side)
}

/// A side that is in order can be listed.
pub proof fn lemma_ladder_listable(ladder: PriceLadder)
    requires
        ladder.well_formed(),
    ensures
        listable(ladder@),
{
    lemma_held_listed(ladder.levels@);
}

proof fn lemma_place_by_units(levels: Seq<BookLevel>, units: int) -> (place: int)
    requires
        ascending(levels),
    ensures
        0 <= place <= levels.len(),
        forall|i: int| 0 <= i < place ==> (#[trigger] levels[i]).price.units() < units,
        forall|i: int| place <= i < levels.len() ==> (#[trigger] levels[i]).price.units() >= units,
    decreases levels.len(),
{
    if levels.len() == 0 {
        0
    } else {
        let rest = levels.drop_last();
        assert forall|i: int, j: int| 0 <= i < j < rest.len() implies (
        #[trigger] rest[i]).price.units() < (#[trigger] rest[j]).price.units() by {
            assert(rest[i] == levels[i] && rest[j] == levels[j]);
        }
        let place = lemma_place_by_units(rest, units);
        let last = levels.len() - 1;
        if levels[last].price.units() < units {
            assert forall|i: int| 0 <= i < levels.len() implies (
            #[trigger] levels[i]).price.units() < units by {
                if i < last {
                    assert(levels[i].price.units() < levels[last].price.units());
                }
            }
            levels.len() as int
        } else {
            assert forall|i: int| 0 <= i < place implies (#[trigger] levels[i]).price.units()
                < units by {
                assert(levels[i] == rest[i]);
            }
            assert forall|i: int| place <= i < levels.len() implies (
            #[trigger] levels[i]).price.units() >= units by {
                if i < last {
                    assert(levels[i] == rest[i]);
                }
            }
            place
        }
    }
}

/// A side that can be listed still can once a price has a quantity.
pub proof fn lemma_listable_inserted(side: Map<Price, Quantity>, price: Price, quantity: Quantity)
    requires
        listable(side),
        price.valid(),
        quantity.valid(),
    ensures
        listable(side.insert(price, quantity)),
{
    let levels = choose|levels: Seq<BookLevel>| lists(levels, side);
    let after = side.insert(price, quantity);
    let level = BookLevel { price, quantity, order_count: None };
    let place = lemma_place_by_units(levels, price.units());
    let known = side.contains_key(price);
    if known {
        assert(stands_at(levels, price));
        let at = choose|i: int| 0 <= i < levels.len() && (#[trigger] levels[i]).price == price;
        if place < at {
            assert(levels[place].price.units() < levels[at].price.units());
        }
        assert(place == at);
        let listed = levels.update(at, level);
        assert forall|i: int, j: int| 0 <= i < j < listed.len() implies (
        #[trigger] listed[i]).price.units() < (#[trigger] listed[j]).price.units() by {
            assert(levels[i].price.units() < levels[j].price.units());
        }
        assert forall|i: int| 0 <= i < listed.len() implies (#[trigger] listed[i]).valid()
            && listed[i].order_count is None && after.contains_key(listed[i].price)
            && after[listed[i].price] == listed[i].quantity by {
            assert(levels[i].valid());
            if i != at {
                assert(levels[i].price.units() != levels[at].price.units()) by {
                    if i < at {
                        assert(levels[i].price.units() < levels[at].price.units());
                    } else {
                        assert(levels[at].price.units() < levels[i].price.units());
                    }
                }
            }
        }
        assert forall|other: Price| #[trigger] after.contains_key(other) implies stands_at(
            listed,
            other,
        ) by {
            if other == price {
                assert(listed[at].price == price);
            } else {
                assert(side.contains_key(other));
                let k = choose|i: int|
                    0 <= i < levels.len() && (#[trigger] levels[i]).price == other;
                assert(listed[k].price == other);
            }
        }
        assert(lists(listed, after));
    } else {
        let listed = levels.insert(place, level);
        assert forall|i: int| place <= i < levels.len() implies (
        #[trigger] levels[i]).price.units() > price.units() by {
            assert(side.contains_key(levels[i].price));
            assert(levels[i].valid());
            lemma_price_value(levels[i].price, price);
        }
        assert forall|i: int, j: int| 0 <= i < j < listed.len() implies (
        #[trigger] listed[i]).price.units() < (#[trigger] listed[j]).price.units() by {
            let left = if i < place {
                i
            } else {
                i - 1
            };
            let right = if j < place {
                j
            } else {
                j - 1
            };
            if i == place {
                assert(listed[j] == levels[right]);
            } else if j == place {
                assert(listed[i] == levels[left]);
            } else {
                assert(listed[i] == levels[left] && listed[j] == levels[right]);
                assert(levels[left].price.units() < levels[right].price.units());
            }
        }
        assert forall|i: int| 0 <= i < listed.len() implies (#[trigger] listed[i]).valid()
            && listed[i].order_count is None && after.contains_key(listed[i].price)
            && after[listed[i].price] == listed[i].quantity by {
            if i != place {
                let own = if i < place {
                    i
                } else {
                    i - 1
                };
                assert(listed[i] == levels[own]);
                assert(levels[own].valid());
                assert(side.contains_key(levels[own].price));
            }
        }
        assert forall|other: Price| #[trigger] after.contains_key(other) implies stands_at(
            listed,
            other,
        ) by {
            if other == price {
                assert(listed[place].price == price);
            } else {
                assert(side.contains_key(other));
                let k = choose|i: int|
                    0 <= i < levels.len() && (#[trigger] levels[i]).price == other;
                if k < place {
                    assert(listed[k].price == other);
                } else {
                    assert(listed[k + 1].price == other);
                }
            }
        }
        assert(lists(listed, after));
    }
}

/// A side that can be listed still can once a price is gone.
pub proof fn lemma_listable_removed(side: Map<Price, Quantity>, price: Price)
    requires
        listable(side),
    ensures
        listable(side.remove(price)),
{
    let levels = choose|levels: Seq<BookLevel>| lists(levels, side);
    let after = side.remove(price);
    if side.contains_key(price) {
        assert(stands_at(levels, price));
        let at = choose|i: int| 0 <= i < levels.len() && (#[trigger] levels[i]).price == price;
        let listed = levels.remove(at);
        assert forall|i: int, j: int| 0 <= i < j < listed.len() implies (
        #[trigger] listed[i]).price.units() < (#[trigger] listed[j]).price.units() by {
            let left = if i < at {
                i
            } else {
                i + 1
            };
            let right = if j < at {
                j
            } else {
                j + 1
            };
            assert(listed[i] == levels[left] && listed[j] == levels[right]);
        }
        assert forall|i: int| 0 <= i < listed.len() implies (#[trigger] listed[i]).valid()
            && listed[i].order_count is None && after.contains_key(listed[i].price)
            && after[listed[i].price] == listed[i].quantity by {
            let own = if i < at {
                i
            } else {
                i + 1
            };
            assert(listed[i] == levels[own]);
            assert(levels[own].valid());
            assert(levels[own].price.units() != levels[at].price.units()) by {
                if own < at {
                    assert(levels[own].price.units() < levels[at].price.units());
                } else {
                    assert(levels[at].price.units() < levels[own].price.units());
                }
            }
        }
        assert forall|other: Price| #[trigger] after.contains_key(other) implies stands_at(
            listed,
            other,
        ) by {
            assert(side.contains_key(other));
            let k = choose|i: int| 0 <= i < levels.len() && (#[trigger] levels[i]).price == other;
            if k < at {
                assert(listed[k].price == other);
            } else {
                assert(listed[k - 1].price == other);
            }
        }
        assert(lists(listed, after));
    } else {
        assert(after =~= side);
    }
}

/// An empty side can be listed.
pub proof fn lemma_empty_listable()
    ensures
        listable(Map::<Price, Quantity>::empty()),
{
    assert(lists(Seq::<BookLevel>::empty(), Map::<Price, Quantity>::empty()));
}

} // verus!
