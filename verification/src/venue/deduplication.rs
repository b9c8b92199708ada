//! Detection of trades that were delivered before.
use std::collections::HashMap;
use vstd::prelude::*;

use crate::text::{chars_of, same_text};

verus! {

/// What became of an identity that was observed.
#[derive(Clone, Copy, Debug, Eq, PartialEq, Structural)]
pub enum DeduplicationResult {
    New,
    Duplicate,
    CapacityExceeded,
}

/// A value by which something is recognized.
pub trait DedupKey: Sized {
    /// What tells identities apart.
    type Identity;

    /// What tells this identity apart from others.
    spec fn identity(&self) -> Self::Identity;

    /// The bucket in which an identity is kept.
    spec fn bucket_of(identity: Self::Identity) -> u64;

    /// Whether two values identify the same thing.
    fn same(&self, other: &Self) -> (same: bool)
        ensures
            same <==> self.identity() == other.identity(),
    ;

    /// The bucket in which this identity is kept.
    fn bucket(&self) -> (bucket: u64)
        ensures
            bucket == Self::bucket_of(self.identity()),
    ;
}

impl DedupKey for u64 {
    type Identity = u64;

    open spec fn identity(&self) -> u64 {
        *self
    }

    open spec fn bucket_of(identity: u64) -> u64 {
        identity
    }

    fn same(&self, other: &Self) -> (same: bool) {
        *self == *other
    }

    fn bucket(&self) -> (bucket: u64) {
        *self
    }
}

impl DedupKey for (u64, u64) {
    type Identity = (u64, u64);

    open spec fn identity(&self) -> (u64, u64) {
        *self
    }

    open spec fn bucket_of(identity: (u64, u64)) -> u64 {
        identity.1
    }

    fn same(&self, other: &Self) -> (same: bool) {
        self.0 == other.0 && self.1 == other.1
    }

    fn bucket(&self) -> (bucket: u64) {
        self.1
    }
}

/// The bucket of a text: a number made of its characters.
pub open spec fn text_bucket(text: Seq<char>) -> nat
    decreases text.len(),
{
    if text.len() == 0 {
        0
    } else {
        (text_bucket(text.drop_last()) * 31 + text.last() as u32 as nat) % 0x1_0000_0000
    }
}

fn bucket_of_text(text: &str) -> (bucket: u64)
    ensures
        bucket == text_bucket(text@),
        bucket < 0x1_0000_0000,
{
    let chars: Vec<char> = chars_of(text);
    let mut bucket: u64 = 0;
    let mut i: usize = 0;
    while i < chars.len()
        invariant
            i <= chars.len(),
            bucket < 0x1_0000_0000,
            bucket == text_bucket(chars@.take(i as int)),
        decreases chars.len() - i,
    {
        assert(chars@.take(i + 1).drop_last() =~= chars@.take(i as int));
        bucket = (bucket * 31 + chars[i] as u32 as u64) % 0x1_0000_0000;
        i = i + 1;
    }
    assert(chars@.take(chars@.len() as int) =~= chars@);
    bucket
}

impl DedupKey for &str {
    type Identity = Seq<char>;

    open spec fn identity(&self) -> Seq<char> {
        self@
    }

    open spec fn bucket_of(identity: Seq<char>) -> u64 {
        text_bucket(identity) as u64
    }

    fn same(&self, other: &Self) -> (same: bool) {
        same_text(self, other)
    }

    fn bucket(&self) -> (bucket: u64) {
        bucket_of_text(self)
    }
}

impl DedupKey for (u32, String) {
    type Identity = (u32, Seq<char>);

    open spec fn identity(&self) -> (u32, Seq<char>) {
        (self.0, self.1@)
    }

    open spec fn bucket_of(identity: (u32, Seq<char>)) -> u64 {
        text_bucket(identity.1) as u64
    }

    fn same(&self, other: &Self) -> (same: bool) {
        self.0 == other.0 && same_text(self.1.as_str(), other.1.as_str())
    }

    fn bucket(&self) -> (bucket: u64) {
        bucket_of_text(self.1.as_str())
    }
}

/// Remembers identities up to a fixed number, and never forgets one.
pub struct BoundedDeduplicator<K: DedupKey> {
    buckets: HashMap<u64, Vec<K>>,
    count: usize,
    capacity: usize,
    duplicate_count: u64,
    order: Ghost<Seq<K::Identity>>,
}

/// The model of `BoundedDeduplicator`.
pub struct DedupView<I> {
    /// The identities in the order in which they were first observed.
    pub seen: Seq<I>,
    pub capacity: nat,
    pub duplicate_count: u64,
}

impl<I> DedupView<I> {
    /// What becomes of an identity.
    pub open spec fn result(self, identity: I) -> DeduplicationResult {
        if self.seen.contains(identity) {
            DeduplicationResult::Duplicate
        } else if self.seen.len() == self.capacity {
            DeduplicationResult::CapacityExceeded
        } else {
            DeduplicationResult::New
        }
    }

    /// After an identity was observed.
    pub open spec fn observed(self, identity: I) -> DedupView<I> {
        match self.result(identity) {
            DeduplicationResult::Duplicate => DedupView {
                duplicate_count: if self.duplicate_count == u64::MAX {
                    u64::MAX
                } else {
                    (self.duplicate_count + 1) as u64
                },
                ..self
            },
            DeduplicationResult::CapacityExceeded => self,
            DeduplicationResult::New => DedupView { seen: self.seen.push(identity), ..self },
        }
    }

    /// Before anything was observed.
    pub open spec fn fresh(capacity: nat) -> DedupView<I> {
        DedupView { seen: Seq::empty(), capacity, duplicate_count: 0 }
    }
}

impl<K: DedupKey> View for BoundedDeduplicator<K> {
    type V = DedupView<K::Identity>;

    closed spec fn view(&self) -> DedupView<K::Identity> {
        DedupView {
            seen: self.order@,
            capacity: self.capacity as nat,
            duplicate_count: self.duplicate_count,
        }
    }
}

/// Whether a list holds a value of the given identity.
spec fn holds<K: DedupKey>(list: Seq<K>, identity: K::Identity) -> bool {
    exists|j: int| 0 <= j < list.len() && (#[trigger] list[j]).identity() == identity
}

impl<K: DedupKey> BoundedDeduplicator<K> {
    /// Every identity is kept once, in its bucket, and there is room for all.
    pub closed spec fn well_formed(self) -> bool {
        &&& self.count == self.order@.len()
        &&& self.count <= self.capacity
        &&& self.order@.no_duplicates()
        &&& forall|identity: K::Identity|
            #![trigger K::bucket_of(identity)]
            self.order@.contains(identity) ==> self.buckets@.contains_key(K::bucket_of(identity))
                && holds(self.buckets@[K::bucket_of(identity)]@, identity)
        &&& forall|bucket: u64, j: int|
            #![trigger self.buckets@[bucket]@[j]]
            self.buckets@.contains_key(bucket) && 0 <= j < self.buckets@[bucket]@.len() ==> {
                &&& self.order@.contains(self.buckets@[bucket]@[j].identity())
                &&& K::bucket_of(self.buckets@[bucket]@[j].identity()) == bucket
            }
    }

    /// Remembers nothing yet.
    pub fn new(capacity: usize) -> (dedup: Self)
        requires
            capacity > 0,
        ensures
            dedup.well_formed(),
            dedup@ == DedupView::<K::Identity>::fresh(capacity as nat),
    {
        broadcast use vstd::std_specs::hash::group_hash_axioms;

        BoundedDeduplicator {
            buckets: HashMap::new(),
            count: 0,
            capacity,
            duplicate_count: 0,
            order: Ghost(Seq::empty()),
        }
    }

    fn known(&self, key: &K) -> (known: bool)
        requires
            self.well_formed(),
        ensures
            known == self@.seen.contains(key.identity()),
    {
        broadcast use vstd::std_specs::hash::group_hash_axioms;

        let bucket: u64 = key.bucket();
        match self.buckets.get(&bucket) {
            None => false,
            Some(list) => {
                let mut i: usize = 0;
                while i < list.len()
                    invariant
                        i <= list.len(),
                        self.well_formed(),
                        self.buckets@.contains_key(bucket),
                        *list == self.buckets@[bucket],
                        bucket == K::bucket_of(key.identity()),
                        forall|j: int| 0 <= j < i ==> (#[trigger] list@[j]).identity()
                            != key.identity(),
                    decreases list.len() - i,
                {
                    if list[i].same(key) {
                        assert(self.order@.contains(self.buckets@[bucket]@[i as int].identity()));
                        return true;
                    }
                    i = i + 1;
                }
                false
            },
        }
    }

    /// Observes an identity. One that is new is remembered, unless there is no room: none
    /// is ever forgotten to make some.
    pub fn observe(&mut self, key: K) -> (result: DeduplicationResult)
        requires
            old(self).well_formed(),
        ensures
            final(self).well_formed(),
            result == old(self)@.result(key.identity()),
            final(self)@ == old(self)@.observed(key.identity()),
    {
        broadcast use vstd::std_specs::hash::group_hash_axioms;

        if self.known(&key) {
            self.duplicate_count = self.duplicate_count.saturating_add(1);
            return DeduplicationResult::Duplicate;
        }
        if self.count == self.capacity {
            return DeduplicationResult::CapacityExceeded;
        }
        let ghost identity = key.identity();
        let ghost before = self.buckets@;
        let ghost order = self.order@;
        let bucket: u64 = key.bucket();
        let mut list: Vec<K> = match self.buckets.remove(&bucket) {
            Some(list) => list,
            None => Vec::new(),
        };
        let ghost old_list = list@;
        list.push(key);
        let ghost new_list = list@;
        self.buckets.insert(bucket, list);
        self.count = self.count + 1;
        self.order = Ghost(order.push(identity));
        proof {
            assert(before.contains_key(bucket) ==> old_list == before[bucket]@);
            assert(self.buckets@ =~= before.insert(bucket, self.buckets@[bucket]));
            assert forall|other: K::Identity|
                #![trigger K::bucket_of(other)]
                self.order@.contains(other) implies self.buckets@.contains_key(K::bucket_of(other))
                && holds(self.buckets@[K::bucket_of(other)]@, other) by {
                if other == identity {
                    assert(new_list[new_list.len() - 1].identity() == identity);
                } else {
                    let k = choose|k: int|
                        0 <= k < self.order@.len() && #[trigger] self.order@[k] == other;
                    assert(order[k] == other);
                    assert(order.contains(other));
                    if K::bucket_of(other) == bucket {
                        let j = choose|j: int|
                            0 <= j < old_list.len() && (#[trigger] old_list[j]).identity() == other;
                        assert(new_list[j].identity() == other);
                    }
                }
            }
            assert forall|b: u64, j: int|
                #![trigger self.buckets@[b]@[j]]
                self.buckets@.contains_key(b) && 0 <= j < self.buckets@[b]@.len() implies {
                &&& self.order@.contains(self.buckets@[b]@[j].identity())
                &&& K::bucket_of(self.buckets@[b]@[j].identity()) == b
            } by {
                let item = self.buckets@[b]@[j];
                if b == bucket && j == new_list.len() - 1 {
                    assert(self.order@[order.len() as int] == identity);
                } else {
                    assert(item == before[b]@[j]);
                    assert(order.contains(item.identity()));
                    let k = choose|k: int|
                        0 <= k < order.len() && #[trigger] order[k] == item.identity();
                    assert(self.order@[k] == item.identity());
                }
            }
        }
        DeduplicationResult::New
    }

    pub fn unique_count(&self) -> (count: usize)
        requires
            self.well_formed(),
        ensures
            count == self@.seen.len(),
    {
        self.count
    }

    pub fn duplicate_count(&self) -> (count: u64)
        ensures
            count == self@.duplicate_count,
    {
        self.duplicate_count
    }

    pub fn capacity(&self) -> (capacity: usize)
        ensures
            capacity == self@.capacity,
    {
        self.capacity
    }
}

/// An identity that was observed and remembered is a duplicate from then on, however
/// many others are observed; a duplicate takes no room, and a full memory takes in
/// nothing more.
pub proof fn lemma_never_forgets<I>(before: DedupView<I>, identity: I, other: I)
    requires
        before.seen.contains(identity),
    ensures
        before.result(identity) == DeduplicationResult::Duplicate,
        before.observed(other).seen.contains(identity),
        before.observed(identity).seen == before.seen,
        before.seen.len() == before.capacity ==> before.observed(other).seen == before.seen,
{
    let k = choose|k: int| 0 <= k < before.seen.len() && #[trigger] before.seen[k] == identity;
    let pushed = before.seen.push(other);
    assert(pushed[k] == identity);
}

/// What is remembered after identities were observed one after the other.
pub open spec fn after_all<I>(identities: Seq<I>, capacity: nat) -> DedupView<I>
    decreases identities.len(),
{
    if identities.len() == 0 {
        DedupView::fresh(capacity)
    } else {
        after_all(identities.drop_last(), capacity).observed(identities.last())
    }
}

proof fn lemma_all_remembered<I>(identities: Seq<I>, capacity: nat)
    requires
        identities.len() <= capacity,
    ensures
        after_all(identities, capacity).capacity == capacity,
        after_all(identities, capacity).seen.len() <= identities.len(),
        forall|identity: I|
            #[trigger] after_all(identities, capacity).seen.contains(identity)
                <==> identities.contains(identity),
    decreases identities.len(),
{
    let after = after_all(identities, capacity);
    if identities.len() > 0 {
        let earlier = identities.drop_last();
        let last = identities.last();
        let before = after_all(earlier, capacity);
        lemma_all_remembered(earlier, capacity);
        assert forall|identity: I| #[trigger] after.seen.contains(identity)
            <==> identities.contains(identity) by {
            assert(before.seen.contains(identity) <==> earlier.contains(identity));
            assert(before.seen.contains(last) <==> earlier.contains(last));
            assert(identities[identities.len() - 1] == last);
            if earlier.contains(identity) {
                let k = choose|k: int| 0 <= k < earlier.len() && earlier[k] == identity;
                assert(identities[k] == identity);
            }
            if identities.contains(identity) && identity != last {
                let k = choose|k: int| 0 <= k < identities.len() && identities[k] == identity;
                assert(earlier[k] == identity);
            }
            let pushed = before.seen.push(last);
            assert(pushed[before.seen.len() as int] == last);
            if before.seen.contains(identity) {
                let k = choose|k: int| 0 <= k < before.seen.len() && before.seen[k] == identity;
                assert(pushed[k] == identity);
            }
            if pushed.contains(identity) && identity != last {
                let k = choose|k: int| 0 <= k < pushed.len() && pushed[k] == identity;
                assert(before.seen[k] == identity);
            }
        }
    } else {
        assert(!identities.contains(identities[0]));
    }
}

/// As long as no more identities were observed than there is room for, an identity is new
/// the first time that it is observed and a duplicate every other time.
pub proof fn lemma_first_observation_is_new<I>(identities: Seq<I>, capacity: nat, identity: I)
    requires
        identities.len() < capacity,
    ensures
        after_all(identities, capacity).result(identity) == if identities.contains(identity) {
            DeduplicationResult::Duplicate
        } else {
            DeduplicationResult::New
        },
{
    lemma_all_remembered(identities, capacity);
    assert(after_all(identities, capacity).seen.contains(identity) <==> identities.contains(
        identity,
    ));
}

/// Without a repetition, as many identities are new as there is room for, and none beyond.
pub proof fn lemma_memory_holds_capacity<I>(identities: Seq<I>, capacity: nat, identity: I)
    requires
        identities.no_duplicates(),
        !identities.contains(identity),
        identities.len() <= capacity,
    ensures
        after_all(identities, capacity).result(identity) == if identities.len() < capacity {
            DeduplicationResult::New
        } else {
            DeduplicationResult::CapacityExceeded
        },
        after_all(identities, capacity).seen == identities,
    decreases identities.len(),
{
    lemma_all_remembered(identities, capacity);
    assert(after_all(identities, capacity).seen.contains(identity) <==> identities.contains(
        identity,
    ));
    if identities.len() > 0 {
        let earlier = identities.drop_last();
        let last = identities.last();
        if earlier.contains(last) {
            let k = choose|k: int| 0 <= k < earlier.len() && earlier[k] == last;
            assert(identities[k] == identities[identities.len() - 1]);
        }
        lemma_memory_holds_capacity(earlier, capacity, last);
        assert(after_all(identities, capacity).seen =~= identities);
    } else {
        assert(after_all(identities, capacity).seen =~= identities);
    }
}

} // verus!
