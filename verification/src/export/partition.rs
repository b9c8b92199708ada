//! Partitions of a dataset, and rows grouped by partition.
use vstd::prelude::*;
use vstd::utf8::encode_utf8;

use crate::text::{
    lemma_text_less_irreflexive, lemma_text_less_total, lemma_text_less_transitive, same_text,
    sorts_before, text_less,
};

verus! {

/// The rows of one market at one venue.
#[derive(Debug, Eq, PartialEq)]
pub struct Partition {
    pub venue: String,
    pub market: String,
}

/// The model of `Partition`: venue, then market.
pub type PartitionView = (Seq<char>, Seq<char>);

impl View for Partition {
    type V = PartitionView;

    open spec fn view(&self) -> PartitionView {
        (self.venue@, self.market@)
    }
}

impl Clone for Partition {
    fn clone(&self) -> (copy: Self)
        ensures
            copy@ == self@,
    {
        Partition { venue: self.venue.clone(), market: self.market.clone() }
    }
}

/// The order of partitions: by venue, then by market.
pub open spec fn partition_before(left: PartitionView, right: PartitionView) -> bool {
    ||| text_less(left.0, right.0)
    ||| left.0 == right.0 && text_less(left.1, right.1)
}

proof fn lemma_partition_order(a: PartitionView, b: PartitionView, c: PartitionView)
    ensures
        !partition_before(a, a),
        a == b || partition_before(a, b) || partition_before(b, a),
        partition_before(a, b) && partition_before(b, c) ==> partition_before(a, c),
{
    lemma_text_less_irreflexive(a.0);
    lemma_text_less_irreflexive(a.1);
    lemma_text_less_total(a.0, b.0);
    lemma_text_less_total(a.1, b.1);
    if text_less(a.0, b.0) && text_less(b.0, c.0) {
        lemma_text_less_transitive(a.0, b.0, c.0);
    }
    if text_less(a.1, b.1) && text_less(b.1, c.1) {
        lemma_text_less_transitive(a.1, b.1, c.1);
    }
}

impl Partition {
    /// Whether this partition stands before another.
    pub fn before(&self, other: &Partition) -> (r: bool)
        ensures
            r == partition_before(self@, other@),
    {
        if sorts_before(self.venue.as_str(), other.venue.as_str()) {
            return true;
        }
        same_text(self.venue.as_str(), other.venue.as_str()) && sorts_before(
            self.market.as_str(),
            other.market.as_str(),
        )
    }

    /// Whether two partitions are the same.
    pub fn same(&self, other: &Partition) -> (r: bool)
        ensures
            r == (self@ == other@),
    {
        same_text(self.venue.as_str(), other.venue.as_str()) && same_text(
            self.market.as_str(),
            other.market.as_str(),
        )
    }
}

/// Rows by partition, in the order of partitions.
pub type GroupsView<V> = Seq<(PartitionView, Seq<V>)>;

/// How many groups stand before a partition.
pub open spec fn group_place<V>(groups: GroupsView<V>, partition: PartitionView) -> nat
    decreases groups.len(),
{
    if groups.len() == 0 || !partition_before(groups[0].0, partition) {
        0
    } else {
        1 + group_place(groups.drop_first(), partition)
    }
}

/// Whether there is a group of the partition.
pub open spec fn has_group<V>(groups: GroupsView<V>, partition: PartitionView) -> bool {
    let place = group_place(groups, partition);
    place < groups.len() && groups[place as int].0 == partition
}

/// The rows of a partition.
pub open spec fn group_rows<V>(groups: GroupsView<V>, partition: PartitionView) -> Seq<V> {
    if has_group(groups, partition) {
        groups[group_place(groups, partition) as int].1
    } else {
        Seq::empty()
    }
}

/// With the rows of a partition replaced.
pub open spec fn with_rows<V>(
    groups: GroupsView<V>,
    partition: PartitionView,
    rows: Seq<V>,
) -> GroupsView<V> {
    let place = group_place(groups, partition) as int;
    if has_group(groups, partition) {
        groups.update(place, (partition, rows))
    } else {
        groups.insert(place, (partition, rows))
    }
}

/// With one more row.
pub open spec fn with_row<V>(groups: GroupsView<V>, partition: PartitionView, row: V) -> GroupsView<
    V,
> {
    with_rows(groups, partition, group_rows(groups, partition).push(row))
}

/// Strictly rising partitions.
pub open spec fn in_partition_order<V>(groups: GroupsView<V>) -> bool {
    forall|i: int, j: int|
        0 <= i < j < groups.len() ==> partition_before(
            (#[trigger] groups[i]).0,
            (#[trigger] groups[j]).0,
        )
}

proof fn lemma_place<V>(groups: GroupsView<V>, partition: PartitionView)
    requires
        in_partition_order(groups),
    ensures
        group_place(groups, partition) <= groups.len(),
        forall|j: int|
            0 <= j < group_place(groups, partition) ==> partition_before(
                (#[trigger] groups[j]).0,
                partition,
            ),
        forall|j: int|
            group_place(groups, partition) <= j < groups.len() ==> !partition_before(
                (#[trigger] groups[j]).0,
                partition,
            ),
        !has_group(groups, partition) ==> forall|j: int|
            group_place(groups, partition) <= j < groups.len() ==> partition_before(
                partition,
                (#[trigger] groups[j]).0,
            ),
    decreases groups.len(),
{
    let place = group_place(groups, partition);
    if groups.len() > 0 {
        if partition_before(groups[0].0, partition) {
            let rest = groups.drop_first();
            assert(in_partition_order(rest)) by {
                assert forall|i: int, j: int| 0 <= i < j < rest.len() implies partition_before(
                    (#[trigger] rest[i]).0,
                    (#[trigger] rest[j]).0,
                ) by {
                    assert(rest[i] == groups[i + 1]);
                    assert(rest[j] == groups[j + 1]);
                }
            }
            lemma_place(rest, partition);
            assert forall|j: int| 0 <= j < place implies partition_before(
                (#[trigger] groups[j]).0,
                partition,
            ) by {
                if j > 0 {
                    assert(groups[j] == rest[j - 1]);
                }
            }
            assert forall|j: int| place <= j < groups.len() implies !partition_before(
                (#[trigger] groups[j]).0,
                partition,
            ) by {
                assert(groups[j] == rest[j - 1]);
            }
        } else {
            assert forall|j: int| 0 <= j < groups.len() implies !partition_before(
                (#[trigger] groups[j]).0,
                partition,
            ) by {
                if j > 0 && partition_before(groups[j].0, partition) {
                    lemma_partition_order(groups[0].0, groups[j].0, partition);
                }
            }
        }
    }
    if !has_group(groups, partition) {
        assert forall|j: int| place <= j < groups.len() implies partition_before(
            partition,
            (#[trigger] groups[j]).0,
        ) by {
            lemma_partition_order(partition, groups[place as int].0, groups[j].0);
            if j > place {
                assert(partition_before(groups[place as int].0, groups[j].0));
            }
        }
    }
}

/// What is at a place between the smaller and the not smaller is the place of a partition.
proof fn lemma_place_is<V>(groups: GroupsView<V>, partition: PartitionView, i: int)
    requires
        0 <= i <= groups.len(),
        forall|j: int| 0 <= j < i ==> partition_before((#[trigger] groups[j]).0, partition),
        i < groups.len() ==> !partition_before(groups[i].0, partition),
    ensures
        group_place(groups, partition) == i,
    decreases groups.len(),
{
    if i > 0 {
        let rest = groups.drop_first();
        assert forall|j: int| 0 <= j < i - 1 implies partition_before(
            (#[trigger] rest[j]).0,
            partition,
        ) by {
            assert(rest[j] == groups[j + 1]);
        }
        assert(partition_before(groups[0].0, partition));
        lemma_place_is(rest, partition, i - 1);
    }
}

/// The rows of a partition are those of the last group if it is this partition's, else those
/// among the groups before.
pub proof fn lemma_place_of_last<V>(groups: GroupsView<V>, partition: PartitionView)
    requires
        in_partition_order(groups),
        groups.len() > 0,
    ensures
        groups.last().0 == partition ==> group_rows(groups, partition) == groups.last().1
            && group_rows(groups.drop_last(), partition) == Seq::<V>::empty(),
        groups.last().0 != partition ==> group_rows(groups, partition) == group_rows(
            groups.drop_last(),
            partition,
        ),
{
    let earlier = groups.drop_last();
    let last = groups.len() - 1;
    lemma_place(groups, partition);
    lemma_partition_order(partition, partition, partition);
    let place = group_place(groups, partition) as int;
    if groups.last().0 == partition {
        assert forall|j: int| 0 <= j < last implies partition_before(
            (#[trigger] groups[j]).0,
            partition,
        ) by {
            assert(partition_before(groups[j].0, groups[last].0));
        }
        lemma_place_is(groups, partition, last);
        assert forall|j: int| 0 <= j < last implies partition_before(
            (#[trigger] earlier[j]).0,
            partition,
        ) by {
            assert(earlier[j] == groups[j]);
        }
        lemma_place_is(earlier, partition, last);
    } else {
        let inside = if place > last {
            last
        } else {
            place
        };
        assert forall|j: int| 0 <= j < inside implies partition_before(
            (#[trigger] earlier[j]).0,
            partition,
        ) by {
            assert(earlier[j] == groups[j]);
        }
        lemma_place_is(earlier, partition, inside);
    }
}

/// Rows stay grouped: setting the rows of one partition keeps the order of partitions, gives
/// this partition these rows, and leaves every other partition as it is.
pub proof fn lemma_with_rows<V>(
    groups: GroupsView<V>,
    partition: PartitionView,
    rows: Seq<V>,
    other: PartitionView,
)
    requires
        in_partition_order(groups),
    ensures
        in_partition_order(with_rows(groups, partition, rows)),
        has_group(with_rows(groups, partition, rows), partition),
        group_rows(with_rows(groups, partition, rows), partition) == rows,
        other != partition ==> group_rows(with_rows(groups, partition, rows), other) == group_rows(
            groups,
            other,
        ),
        other != partition ==> has_group(with_rows(groups, partition, rows), other) == has_group(
            groups,
            other,
        ),
{
    let after = with_rows(groups, partition, rows);
    let place = group_place(groups, partition) as int;
    let there = has_group(groups, partition);
    lemma_place(groups, partition);
    lemma_partition_order(partition, partition, partition);
    if there {
        assert forall|i: int, j: int| 0 <= i < j < after.len() implies partition_before(
            (#[trigger] after[i]).0,
            (#[trigger] after[j]).0,
        ) by {
            assert(partition_before(groups[i].0, groups[j].0));
        }
    } else {
        assert forall|i: int, j: int| 0 <= i < j < after.len() implies partition_before(
            (#[trigger] after[i]).0,
            (#[trigger] after[j]).0,
        ) by {
            if i < place && j > place {
                assert(partition_before(groups[i].0, groups[j - 1].0));
            } else if i > place {
                assert(partition_before(groups[i - 1].0, groups[j - 1].0));
            } else if j < place {
                assert(partition_before(groups[i].0, groups[j].0));
            } else if i == place {
                assert(partition_before(partition, groups[j - 1].0));
            } else {
                assert(partition_before(groups[i].0, partition));
            }
        }
    }
    assert forall|j: int| 0 <= j < place implies partition_before(
        (#[trigger] after[j]).0,
        partition,
    ) by {
        assert(after[j] == groups[j]);
    }
    lemma_place_is(after, partition, place);
    if other != partition {
        let k = group_place(groups, other) as int;
        lemma_place(groups, other);
        if there {
            assert forall|j: int| 0 <= j < k implies partition_before(
                (#[trigger] after[j]).0,
                other,
            ) by {
                assert(after[j].0 == groups[j].0);
            }
            lemma_place_is(after, other, k);
        } else {
            lemma_partition_order(partition, other, other);
            lemma_partition_order(other, partition, other);
            if partition_before(partition, other) {
                assert(place <= k) by {
                    if k < place {
                        assert(partition_before(groups[k].0, partition));
                        lemma_partition_order(groups[k].0, partition, other);
                    }
                }
                assert forall|j: int| 0 <= j < k + 1 implies partition_before(
                    (#[trigger] after[j]).0,
                    other,
                ) by {
                    if j < place {
                        assert(after[j] == groups[j]);
                    } else if j > place {
                        assert(after[j] == groups[j - 1]);
                    }
                }
                assert(k < groups.len() ==> after[k + 1] == groups[k]);
                lemma_place_is(after, other, k + 1);
            } else {
                assert(k <= place) by {
                    if place < k {
                        assert(partition_before(groups[place].0, other));
                        assert(partition_before(partition, groups[place].0));
                        lemma_partition_order(partition, groups[place].0, other);
                    }
                }
                assert forall|j: int| 0 <= j < k implies partition_before(
                    (#[trigger] after[j]).0,
                    other,
                ) by {
                    assert(after[j] == groups[j]);
                }
                if k < place {
                    assert(after[k] == groups[k]);
                }
                lemma_place_is(after, other, k);
                if k == place {
                    assert(after[k].0 == partition);
                    if k < groups.len() && groups[k].0 == other {
                        assert(partition_before(partition, groups[k].0));
                    }
                }
            }
        }
    }
}

/// Rows grouped by partition.
pub struct Groups<R: View> {
    entries: Vec<(Partition, Vec<R>)>,
}

/// The models of rows.
pub open spec fn row_views<R: View>(rows: Seq<R>) -> Seq<R::V> {
    rows.map_values(|row: R| row@)
}

/// The models of groups.
pub open spec fn group_views<R: View>(entries: Seq<(Partition, Vec<R>)>) -> GroupsView<R::V> {
    entries.map_values(|entry: (Partition, Vec<R>)| (entry.0@, row_views(entry.1@)))
}

impl<R: View> View for Groups<R> {
    type V = GroupsView<R::V>;

    closed spec fn view(&self) -> GroupsView<R::V> {
        group_views(self.entries@)
    }
}

impl<R: View> Groups<R> {
    pub fn new() -> (groups: Self)
        ensures
            groups@ == Seq::<(PartitionView, Seq<R::V>)>::empty(),
    {
        let groups = Groups { entries: Vec::new() };
        assert(groups@ =~= Seq::<(PartitionView, Seq<R::V>)>::empty());
        groups
    }

    fn place_of(&self, partition: &Partition) -> (place: (usize, bool))
        ensures
            place.0 == group_place(self@, partition@),
            place.0 <= self.entries@.len(),
            place.1 == has_group(self@, partition@),
    {
        let mut i: usize = 0;
        while i < self.entries.len() && self.entries[i].0.before(partition)
            invariant
                i <= self.entries.len(),
                forall|j: int|
                    0 <= j < i ==> partition_before((#[trigger] self@[j]).0, partition@),
            decreases self.entries.len() - i,
        {
            assert(self@[i as int].0 == self.entries@[i as int].0@);
            i = i + 1;
        }
        proof {
            if i < self.entries.len() {
                assert(self@[i as int].0 == self.entries@[i as int].0@);
            }
            lemma_place_is(self@, partition@, i as int);
        }
        let there: bool = i < self.entries.len() && self.entries[i].0.same(partition);
        (i, there)
    }

    /// Whether there is a group of the partition.
    pub fn contains(&self, partition: &Partition) -> (r: bool)
        ensures
            r == has_group(self@, partition@),
    {
        self.place_of(partition).1
    }

    /// How many rows the partition has.
    pub fn count(&self, partition: &Partition) -> (count: usize)
        ensures
            count == group_rows(self@, partition@).len(),
    {
        let (place, there) = self.place_of(partition);
        if there {
            assert(self@[place as int].1 == row_views(self.entries@[place as int].1@));
            self.entries[place].1.len()
        } else {
            0
        }
    }

    /// Adds a row.
    pub fn push(&mut self, partition: &Partition, row: R)
        ensures
            final(self)@ == with_row(old(self)@, partition@, row@),
    {
        let ghost before = self@;
        let ghost entries = self.entries@;
        let (place, there) = self.place_of(partition);
        if there {
            self.entries[place].1.push(row);
            proof {
                assert(before[place as int] == (
                    entries[place as int].0@,
                    row_views(entries[place as int].1@),
                ));
                assert(row_views(self.entries@[place as int].1@) =~= row_views(
                    entries[place as int].1@,
                ).push(row@));
                assert(self@ =~= with_row(before, partition@, row@));
            }
        } else {
            let mut rows: Vec<R> = Vec::new();
            rows.push(row);
            let ghost list = rows@;
            self.entries.insert(place, (partition.clone(), rows));
            proof {
                assert(row_views(list) =~= Seq::<R::V>::empty().push(row@));
                assert(self@ =~= with_row(before, partition@, row@));
            }
        }
    }

    /// Takes the rows of a partition and leaves it empty.
    pub fn take(&mut self, partition: &Partition) -> (rows: Vec<R>)
        requires
            has_group(old(self)@, partition@),
        ensures
            row_views(rows@) == group_rows(old(self)@, partition@),
            final(self)@ == with_rows(old(self)@, partition@, Seq::empty()),
    {
        let ghost before = self@;
        let ghost entries = self.entries@;
        let (place, _) = self.place_of(partition);
        let mut rows: Vec<R> = Vec::new();
        rows.append(&mut self.entries[place].1);
        proof {
            assert(before[place as int] == (
                entries[place as int].0@,
                row_views(entries[place as int].1@),
            ));
            assert(rows@ =~= entries[place as int].1@);
            assert(row_views(self.entries@[place as int].1@) =~= Seq::<R::V>::empty());
            assert(self@ =~= with_rows(before, partition@, Seq::empty()));
        }
        rows
    }

    /// The groups, in the order of partitions.
    pub fn into_entries(self) -> (entries: Vec<(Partition, Vec<R>)>)
        ensures
            group_views(entries@) == self@,
    {
        self.entries
    }
}

/// The hexadecimal digit of a number below sixteen, in upper case.
pub open spec fn upper_hex(value: nat) -> char {
    if value < 10 {
        (48 + value) as char
    } else {
        (55 + value) as char
    }
}

/// Whether a byte stands for itself in a partition's name.
pub open spec fn plain_byte(byte: u8) -> bool {
    ||| 48 <= byte <= 57
    ||| 65 <= byte <= 90
    ||| 97 <= byte <= 122
    ||| byte == 45
    ||| byte == 95
    ||| byte == 46
}

/// The rendering of a byte in a partition's name.
pub open spec fn byte_rendering(byte: u8) -> Seq<char> {
    if plain_byte(byte) {
        seq![byte as char]
    } else {
        seq!['%', upper_hex((byte / 16) as nat), upper_hex((byte % 16) as nat)]
    }
}

/// The rendering of bytes in a partition's name.
pub open spec fn bytes_rendering(bytes: Seq<u8>) -> Seq<char>
    decreases bytes.len(),
{
    if bytes.len() == 0 {
        Seq::empty()
    } else {
        bytes_rendering(bytes.drop_last()) + byte_rendering(bytes.last())
    }
}

/// The rendering of a text in a partition's name: letters, digits, `-`, `_` and `.` as they
/// are, every other byte as `%` and two hexadecimal digits.
pub open spec fn partition_value(text: Seq<char>) -> Seq<char> {
    bytes_rendering(encode_utf8(text))
}

fn upper_hex_digit(value: u8) -> (c: char)
    requires
        value < 16,
    ensures
        c == upper_hex(value as nat),
{
    if value < 10 {
        (48 + value) as char
    } else {
        (55 + value) as char
    }
}

/// Renders a text for a partition's name.
pub fn safe_partition_value(value: &str) -> (encoded: String)
    ensures
        encoded@ == partition_value(value@),
{
    let bytes: &[u8] = value.as_bytes();
    let mut encoded: String = String::new();
    let mut i: usize = 0;
    assert(bytes@.take(0) =~= Seq::<u8>::empty());
    while i < bytes.len()
        invariant
            i <= bytes.len(),
            encoded@ == bytes_rendering(bytes@.take(i as int)),
        decreases bytes.len() - i,
    {
        let byte: u8 = bytes[i];
        let ghost before = encoded@;
        if (48 <= byte && byte <= 57) || (65 <= byte && byte <= 90) || (97 <= byte && byte <= 122)
            || byte == 45 || byte == 95 || byte == 46 {
            encoded.push(byte as char);
        } else {
            encoded.push('%');
            encoded.push(upper_hex_digit(byte / 16));
            encoded.push(upper_hex_digit(byte % 16));
        }
        proof {
            assert(bytes@.take(i + 1).drop_last() =~= bytes@.take(i as int));
            assert(encoded@ =~= before + byte_rendering(byte));
        }
        i = i + 1;
    }
    assert(bytes@.take(i as int) =~= bytes@);
    encoded
}

/// Whether a character may stand in a partition's name.
pub open spec fn name_char(c: char) -> bool {
    ||| '0' <= c <= '9'
    ||| 'A' <= c <= 'Z'
    ||| 'a' <= c <= 'z'
    ||| c == '-'
    ||| c == '_'
    ||| c == '.'
    ||| c == '%'
}

proof fn lemma_rendering_chars(bytes: Seq<u8>, i: int)
    requires
        0 <= i < bytes_rendering(bytes).len(),
    ensures
        name_char(bytes_rendering(bytes)[i]),
    decreases bytes.len(),
{
    let earlier = bytes_rendering(bytes.drop_last());
    if i < earlier.len() {
        lemma_rendering_chars(bytes.drop_last(), i);
    }
}

/// A market's name cannot lead out of its directory: no character of a rendering separates
/// the parts of a path.
pub proof fn lemma_value_stays_inside(text: Seq<char>, i: int)
    requires
        0 <= i < partition_value(text).len(),
    ensures
        name_char(partition_value(text)[i]),
        partition_value(text)[i] != '/',
        partition_value(text)[i] != '\\',
{
    lemma_rendering_chars(encode_utf8(text), i);
}

proof fn lemma_byte_rendered(left: u8, right: u8)
    ensures
        byte_rendering(left).last() == byte_rendering(right).last() && byte_rendering(left).len()
            == byte_rendering(right).len() && (byte_rendering(left).len() == 3
            ==> byte_rendering(left)[1] == byte_rendering(right)[1]) ==> left == right,
        byte_rendering(left).len() == if plain_byte(left) {
            1nat
        } else {
            3nat
        },
        byte_rendering(left)[0] == '%' <==> !plain_byte(left),
{
}

proof fn lemma_rendering_front(bytes: Seq<u8>)
    requires
        bytes.len() > 0,
    ensures
        bytes_rendering(bytes) == byte_rendering(bytes[0]) + bytes_rendering(bytes.skip(1)),
    decreases bytes.len(),
{
    let rest = bytes.skip(1);
    if bytes.len() == 1 {
        assert(bytes.drop_last() =~= Seq::<u8>::empty());
        assert(bytes_rendering(bytes.drop_last()) =~= Seq::<char>::empty());
        assert(bytes_rendering(rest) =~= Seq::<char>::empty());
        assert(bytes_rendering(bytes) =~= byte_rendering(bytes[0]) + bytes_rendering(rest));
    } else {
        lemma_rendering_front(bytes.drop_last());
        assert(bytes.drop_last().skip(1) =~= rest.drop_last());
        assert(bytes_rendering(bytes) =~= byte_rendering(bytes[0]) + bytes_rendering(rest));
    }
}

proof fn lemma_rendering_unique(left: Seq<u8>, right: Seq<u8>)
    requires
        bytes_rendering(left) == bytes_rendering(right),
    ensures
        left == right,
    decreases left.len(),
{
    if left.len() == 0 || right.len() == 0 {
        if left.len() > 0 {
            lemma_rendering_front(left);
            lemma_byte_rendered(left[0], left[0]);
            assert(bytes_rendering(right).len() == 0);
        }
        if right.len() > 0 {
            lemma_rendering_front(right);
            lemma_byte_rendered(right[0], right[0]);
            assert(bytes_rendering(left).len() == 0);
        }
        assert(left =~= right);
    } else {
        lemma_rendering_front(left);
        lemma_rendering_front(right);
        lemma_byte_rendered(left[0], right[0]);
        lemma_byte_rendered(right[0], left[0]);
        let all = bytes_rendering(left);
        let first = byte_rendering(left[0]);
        let other = byte_rendering(right[0]);
        assert(all[0] == first[0] && all[0] == other[0]);
        assert(first.len() == other.len());
        assert forall|i: int| 0 <= i < first.len() implies first[i] == other[i] by {
            assert(all[i] == first[i] && all[i] == other[i]);
        }
        assert(first =~= other);
        assert(all.skip(first.len() as int) =~= bytes_rendering(left.skip(1)));
        assert(all.skip(first.len() as int) =~= bytes_rendering(right.skip(1)));
        lemma_rendering_unique(left.skip(1), right.skip(1));
        assert(left =~= seq![left[0]] + left.skip(1));
        assert(right =~= seq![right[0]] + right.skip(1));
    }
}

/// Different texts have different renderings, so no two markets share a directory.
pub proof fn lemma_values_distinct(left: Seq<char>, right: Seq<char>)
    requires
        partition_value(left) == partition_value(right),
    ensures
        encode_utf8(left) == encode_utf8(right),
{
    lemma_rendering_unique(encode_utf8(left), encode_utf8(right));
}

/// Letters, digits, `-`, `_` and `.` stand for themselves.
pub proof fn lemma_plain_value(bytes: Seq<u8>)
    requires
        forall|i: int|
            0 <= i < bytes.len() ==> name_char(#[trigger] bytes[i] as char) && bytes[i] != 37,
    ensures
        bytes_rendering(bytes) == bytes.map_values(|byte: u8| byte as char),
    decreases bytes.len(),
{
    if bytes.len() == 0 {
        assert(bytes_rendering(bytes) =~= bytes.map_values(|byte: u8| byte as char));
    } else {
        let earlier = bytes.drop_last();
        assert forall|i: int| 0 <= i < earlier.len() implies name_char(
            #[trigger] earlier[i] as char,
        ) && earlier[i] != 37 by {
            assert(earlier[i] == bytes[i]);
        }
        lemma_plain_value(earlier);
        assert(bytes[bytes.len() - 1] == bytes.last());
        assert(plain_byte(bytes.last()));
        assert(bytes_rendering(bytes) =~= bytes.map_values(|byte: u8| byte as char));
    }
}

} // verus!
