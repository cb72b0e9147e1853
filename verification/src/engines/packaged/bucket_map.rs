//! Lookups from hashes to values, kept in the order in which they are stored.
use vstd::prelude::*;
use std::collections::BTreeMap;
use vstd::std_specs::cmp::OrdSpec;
use vstd::std_specs::iter::IteratorSpec;

use crate::engines::Hash40;

verus! {

broadcast use {vstd::std_specs::btree::group_btree_axioms, vstd::laws_cmp::group_laws_cmp};

/// Whether the keys of `entries` grow strictly from each entry to the next.
pub open spec fn ascending<V>(entries: Seq<(u64, V)>) -> bool {
    forall|i: int, j: int| 0 <= i < j < entries.len() ==> entries[i].0 < entries[j].0
}

/// Whether `entries` holds exactly the pairs of `map`, ordered by key.
pub open spec fn lists<V>(entries: Seq<(u64, V)>, map: Map<u64, V>) -> bool {
    &&& ascending(entries)
    &&& forall|i: int|
        0 <= i < entries.len() ==> map.contains_key((#[trigger] entries[i]).0) && map[entries[i].0]
            == entries[i].1
    &&& forall|key: u64| #[trigger]
        map.contains_key(key) ==> exists|i: int|
            0 <= i < entries.len() && (#[trigger] entries[i]).0 == key
}

/// The pairs of `map` in the order of their keys.
pub closed spec fn ordered<V>(map: Map<u64, V>) -> Seq<(u64, V)> {
    choose|entries: Seq<(u64, V)>| lists(entries, map)
}

/// A map has one list of its pairs in the order of their keys.
pub proof fn lemma_lists_unique<V>(a: Seq<(u64, V)>, b: Seq<(u64, V)>, map: Map<u64, V>)
    requires
        lists(a, map),
        lists(b, map),
    ensures
        a == b,
    decreases a.len(),
{
    if a.len() == 0 {
        if b.len() > 0 {
            assert(map.contains_key(b[0].0));
        }
        assert(a =~= b);
    } else {
        let key = a[0].0;
        assert(map.contains_key(key));
        let j = choose|j: int| 0 <= j < b.len() && (#[trigger] b[j]).0 == key;
        assert(map.contains_key(b[0].0));
        let i = choose|i: int| 0 <= i < a.len() && (#[trigger] a[i]).0 == b[0].0;
        assert(i == 0) by {
            if i > 0 {
                assert(a[0].0 < a[i].0);
                if j > 0 {
                    assert(b[0].0 < b[j].0);
                }
            }
        }
        assert(a[0] == b[0]);
        let rest_a = a.drop_first();
        let rest_b = b.drop_first();
        let rest = map.remove(key);
        assert(lists(rest_a, rest)) by {
            assert forall|n: int| 0 <= n < rest_a.len() implies rest.contains_key(
                (#[trigger] rest_a[n]).0,
            ) && rest[rest_a[n].0] == rest_a[n].1 by {
                assert(rest_a[n] == a[n + 1]);
                assert(a[0].0 < a[n + 1].0);
            }
            assert forall|other: u64| #[trigger] rest.contains_key(other) implies exists|n: int|
                0 <= n < rest_a.len() && (#[trigger] rest_a[n]).0 == other by {
                assert(map.contains_key(other));
                let m = choose|m: int| 0 <= m < a.len() && (#[trigger] a[m]).0 == other;
                assert(rest_a[m - 1] == a[m]);
            }
            assert forall|n: int, m: int| 0 <= n < m < rest_a.len() implies rest_a[n].0
                < rest_a[m].0 by {
                assert(rest_a[n] == a[n + 1]);
                assert(rest_a[m] == a[m + 1]);
            }
        }
        assert(lists(rest_b, rest)) by {
            assert forall|n: int| 0 <= n < rest_b.len() implies rest.contains_key(
                (#[trigger] rest_b[n]).0,
            ) && rest[rest_b[n].0] == rest_b[n].1 by {
                assert(rest_b[n] == b[n + 1]);
                assert(b[0].0 < b[n + 1].0);
            }
            assert forall|other: u64| #[trigger] rest.contains_key(other) implies exists|n: int|
                0 <= n < rest_b.len() && (#[trigger] rest_b[n]).0 == other by {
                assert(map.contains_key(other));
                let m = choose|m: int| 0 <= m < b.len() && (#[trigger] b[m]).0 == other;
                assert(rest_b[m - 1] == b[m]);
            }
            assert forall|n: int, m: int| 0 <= n < m < rest_b.len() implies rest_b[n].0
                < rest_b[m].0 by {
                assert(rest_b[n] == b[n + 1]);
                assert(rest_b[m] == b[m + 1]);
            }
        }
        lemma_lists_unique(rest_a, rest_b, rest);
        assert(a =~= seq![a[0]] + rest_a);
        assert(b =~= seq![b[0]] + rest_b);
    }
}

/// A list of the pairs of `map` in the order of their keys is the list that
/// [`ordered`] names.
pub proof fn lemma_ordered<V>(entries: Seq<(u64, V)>, map: Map<u64, V>)
    requires
        lists(entries, map),
    ensures
        entries == ordered(map),
        lists(ordered(map), map),
{
    lemma_lists_unique(entries, ordered(map), map);
}

/// The pairs of a map in the order of their keys.
pub fn ordered_entries<V: Copy>(map: &BTreeMap<u64, V>) -> (out: Vec<(u64, V)>)
    ensures
        lists(out@, map@),
        out@ == ordered(map@),
{
    let mut out: Vec<(u64, V)> = Vec::new();
    let ghost all = map.iter().remaining();
    for pair in it: map.iter()
        invariant
            it.seq() == all,
            out@.len() == it.index(),
            forall|i: int|
                0 <= i < out@.len() ==> (#[trigger] out@[i]) == (*all[i].0, *all[i].1),
    {
        out.push((*pair.0, *pair.1));
    }
    proof {
        let keys = all.map_values(|kv: (&u64, &V)| *kv.0);
        assert forall|other: Seq<u64>|
            other.len() == keys.len() && (forall|i: int|
                0 <= i < keys.len() ==> #[trigger] other[i] == keys[i]) implies #[trigger] vstd::std_specs::btree::increasing_seq(
            other,
        ) == vstd::std_specs::btree::increasing_seq(keys) by {
            assert(other =~= keys);
        }
        vstd::std_specs::btree::axiom_increasing_seq_meaning(keys);
        assert(vstd::std_specs::btree::increasing_seq(keys));
        assert(out@.len() == all.len());
        assert forall|i: int, j: int| 0 <= i < j < out@.len() implies out@[i].0 < out@[j].0 by {
            assert(keys[i] == out@[i].0);
            assert(keys[j] == out@[j].0);
            assert(keys[i].cmp_spec(&keys[j]) is Less);
        }
        assert forall|key: u64| #[trigger] map@.contains_key(key) implies exists|i: int|
            0 <= i < out@.len() && (#[trigger] out@[i]).0 == key by {
            assert(all.contains((&key, &map@[key])));
            let i = choose|i: int| 0 <= i < all.len() && all[i] == (&key, &map@[key]);
            assert(out@[i].0 == key);
        }
        lemma_ordered(out@, map@);
    }
    out
}


/// The value that an ordered lookup holds for `hash`.
pub open spec fn hash_lookup<V>(map: Map<u64, V>, hash: u64) -> Option<V> {
    if map.contains_key(hash) {
        Some(map[hash])
    } else {
        None
    }
}

/// Looks `hash` up in an ordered lookup.
pub fn find_hash<V: Copy>(map: &BTreeMap<u64, V>, hash: u64) -> (found: Option<V>)
    ensures
        found == hash_lookup(map@, hash),
{
    match map.get(&hash) {
        None => None,
        Some(value) => Some(*value),
    }
}

/// The bucket that holds `hash` among `count` buckets.
pub open spec fn bucket_of(hash: u64, count: nat) -> int {
    (hash as int) % (count as int)
}

/// The pairs of the first `upto` buckets: bucket after bucket, each in the
/// order of its keys.
pub open spec fn bucket_entries<V>(buckets: Seq<Map<u64, V>>, upto: nat) -> Seq<(u64, V)>
    decreases upto,
{
    if upto == 0 {
        Seq::empty()
    } else {
        bucket_entries(buckets, (upto - 1) as nat) + ordered(buckets[upto - 1])
    }
}

/// Whether every key lies in the bucket that its hash selects.
pub open spec fn well_bucketed<V>(buckets: Seq<Map<u64, V>>) -> bool {
    &&& buckets.len() > 0
    &&& forall|bucket: int, key: u64|
        0 <= bucket < buckets.len() && #[trigger] buckets[bucket].contains_key(key)
            ==> bucket_of(key, buckets.len()) == bucket
}

/// The value stored under `hash`, if there is one.
pub open spec fn bucket_lookup<V>(buckets: Seq<Map<u64, V>>, hash: u64) -> Option<V> {
    let bucket = buckets[bucket_of(hash, buckets.len())];
    if bucket.contains_key(hash) {
        Some(bucket[hash])
    } else {
        None
    }
}

/// The buckets after storing `value` under `hash`.
pub open spec fn bucket_insert<V>(buckets: Seq<Map<u64, V>>, hash: u64, value: V) -> Seq<
    Map<u64, V>,
> {
    let at = bucket_of(hash, buckets.len());
    buckets.update(at, buckets[at].insert(hash, value))
}

/// Whether each bucket has a list of its pairs in the order of their keys.
/// A bucket with finitely many keys has one.
pub open spec fn all_listed<V>(buckets: Seq<Map<u64, V>>) -> bool {
    forall|bucket: int|
        0 <= bucket < buckets.len() ==> lists(ordered(#[trigger] buckets[bucket]), buckets[bucket])
}

/// The pairs of fewer buckets start the pairs of more buckets.
pub proof fn lemma_bucket_entries_grow<V>(buckets: Seq<Map<u64, V>>, short: nat, long: nat)
    requires
        short <= long,
    ensures
        bucket_entries(buckets, short).len() <= bucket_entries(buckets, long).len(),
        bucket_entries(buckets, long).subrange(0, bucket_entries(buckets, short).len() as int)
            == bucket_entries(buckets, short),
    decreases long,
{
    if short < long {
        lemma_bucket_entries_grow(buckets, short, (long - 1) as nat);
        let before = bucket_entries(buckets, (long - 1) as nat);
        let head = bucket_entries(buckets, short);
        assert(bucket_entries(buckets, long).subrange(0, head.len() as int) =~= before.subrange(
            0,
            head.len() as int,
        ));
    } else {
        assert(bucket_entries(buckets, long).subrange(
            0,
            bucket_entries(buckets, short).len() as int,
        ) =~= bucket_entries(buckets, short));
    }
}

/// How the pairs of a bucketed lookup lie, as its index says it. The first
/// bucket starts at zero, and each bucket starts where the one before it
/// ends, so that the lengths of all buckets add up to the number of pairs.
/// The pairs from the start of a bucket on, as many as the bucket is long,
/// are the pairs of that bucket: each hash selects the bucket, the hashes
/// ascend, and each pair holds the value that the lookup has under its
/// hash.
pub proof fn lemma_bucket_layout<V>(buckets: Seq<Map<u64, V>>, bucket: int)
    requires
        well_bucketed(buckets),
        all_listed(buckets),
        0 <= bucket < buckets.len(),
    ensures
        ({
            let all = bucket_entries(buckets, buckets.len());
            let start = bucket_entries(buckets, bucket as nat).len();
            let length = ordered(buckets[bucket]).len();
            &&& bucket_entries(buckets, 0).len() == 0
            &&& bucket_entries(buckets, (bucket + 1) as nat).len() == start + length
            &&& start + length <= all.len()
            &&& all.subrange(start as int, (start + length) as int) == ordered(buckets[bucket])
            &&& forall|i: int|
                start <= i < start + length ==> bucket_of((#[trigger] all[i]).0, buckets.len())
                    == bucket && bucket_lookup(buckets, all[i].0) == Some(all[i].1)
            &&& forall|i: int, j: int|
                start <= i < j < start + length ==> (#[trigger] all[i]).0 < (#[trigger] all[j]).0
        }),
{
    let all = bucket_entries(buckets, buckets.len());
    let start = bucket_entries(buckets, bucket as nat).len();
    let own = ordered(buckets[bucket]);
    let upto = bucket_entries(buckets, (bucket + 1) as nat);
    assert(upto == bucket_entries(buckets, bucket as nat) + own);
    lemma_bucket_entries_grow(buckets, (bucket + 1) as nat, buckets.len());
    assert(all.subrange(0, upto.len() as int) == upto);
    assert(all.subrange(start as int, (start + own.len()) as int) =~= own) by {
        assert forall|i: int| 0 <= i < own.len() implies all.subrange(
            start as int,
            (start + own.len()) as int,
        )[i] == own[i] by {
            assert(all.subrange(0, upto.len() as int)[start + i] == upto[start + i]);
        }
    }
    assert(lists(own, buckets[bucket]));
    assert forall|i: int| start <= i < start + own.len() implies bucket_of(
        (#[trigger] all[i]).0,
        buckets.len(),
    ) == bucket && bucket_lookup(buckets, all[i].0) == Some(all[i].1) by {
        assert(all.subrange(start as int, (start + own.len()) as int)[i - start] == own[i - start]);
        assert(buckets[bucket].contains_key(own[i - start].0));
    }
    assert forall|i: int, j: int| start <= i < j < start + own.len() implies (#[trigger] all[i]).0
        < (#[trigger] all[j]).0 by {
        assert(all.subrange(start as int, (start + own.len()) as int)[i - start] == own[i - start]);
        assert(all.subrange(start as int, (start + own.len()) as int)[j - start] == own[j - start]);
        assert(own[i - start].0 < own[j - start].0);
    }
}

/// The list `entries` with one pair more, at its place in the order of the
/// keys.
pub open spec fn inserted<V>(entries: Seq<(u64, V)>, key: u64, value: V) -> Seq<(u64, V)>
    decreases entries.len(),
{
    if entries.len() == 0 || entries.last().0 < key {
        entries.push((key, value))
    } else {
        inserted(entries.drop_last(), key, value).push(entries.last())
    }
}

/// A map that takes in a new key has a list that is one pair longer.
pub proof fn lemma_inserted<V>(entries: Seq<(u64, V)>, map: Map<u64, V>, key: u64, value: V)
    requires
        lists(entries, map),
        !map.contains_key(key),
    ensures
        lists(inserted(entries, key, value), map.insert(key, value)),
        inserted(entries, key, value).len() == entries.len() + 1,
    decreases entries.len(),
{
    let after = map.insert(key, value);
    let result = inserted(entries, key, value);
    if entries.len() == 0 || entries.last().0 < key {
        assert forall|i: int, j: int| 0 <= i < j < result.len() implies result[i].0
            < result[j].0 by {
            if j == entries.len() {
                assert(result[i] == entries[i]);
                if i < entries.len() - 1 {
                    assert(entries[i].0 < entries[entries.len() - 1].0);
                }
            } else {
                assert(entries[i].0 < entries[j].0);
            }
        }
        assert forall|i: int| 0 <= i < result.len() implies after.contains_key(
            (#[trigger] result[i]).0,
        ) && after[result[i].0] == result[i].1 by {
            if i < entries.len() {
                assert(result[i] == entries[i]);
                assert(map.contains_key(entries[i].0));
            }
        }
        assert forall|other: u64| #[trigger] after.contains_key(other) implies exists|i: int|
            0 <= i < result.len() && (#[trigger] result[i]).0 == other by {
            if other == key {
                assert(result[entries.len() as int].0 == key);
            } else {
                assert(map.contains_key(other));
                let i = choose|i: int| 0 <= i < entries.len() && (#[trigger] entries[i]).0 == other;
                assert(result[i] == entries[i]);
            }
        }
    } else {
        let last = entries.last();
        let rest = entries.drop_last();
        let fewer = map.remove(last.0);
        assert(map.contains_key(last.0));
        assert(lists(rest, fewer)) by {
            assert forall|i: int, j: int| 0 <= i < j < rest.len() implies rest[i].0
                < rest[j].0 by {
                assert(entries[i].0 < entries[j].0);
            }
            assert forall|i: int| 0 <= i < rest.len() implies fewer.contains_key(
                (#[trigger] rest[i]).0,
            ) && fewer[rest[i].0] == rest[i].1 by {
                assert(rest[i] == entries[i]);
                assert(entries[i].0 < entries[entries.len() - 1].0);
            }
            assert forall|other: u64| #[trigger] fewer.contains_key(other) implies exists|i: int|
                0 <= i < rest.len() && (#[trigger] rest[i]).0 == other by {
                assert(map.contains_key(other));
                let i = choose|i: int| 0 <= i < entries.len() && (#[trigger] entries[i]).0 == other;
                assert(rest[i] == entries[i]);
            }
        }
        lemma_inserted(rest, fewer, key, value);
        let inner = inserted(rest, key, value);
        let between = fewer.insert(key, value);
        assert(result == inner.push(last));
        assert forall|i: int, j: int| 0 <= i < j < result.len() implies result[i].0
            < result[j].0 by {
            if j == inner.len() {
                assert(result[i] == inner[i]);
                assert(between.contains_key(inner[i].0));
                if inner[i].0 != key {
                    assert(map.contains_key(inner[i].0));
                    let k = choose|k: int|
                        0 <= k < entries.len() && (#[trigger] entries[k]).0 == inner[i].0;
                    if k < entries.len() - 1 {
                        assert(entries[k].0 < entries[entries.len() - 1].0);
                    }
                }
            } else {
                assert(inner[i].0 < inner[j].0);
            }
        }
        assert forall|i: int| 0 <= i < result.len() implies after.contains_key(
            (#[trigger] result[i]).0,
        ) && after[result[i].0] == result[i].1 by {
            if i < inner.len() {
                assert(result[i] == inner[i]);
                assert(between.contains_key(inner[i].0));
            }
        }
        assert forall|other: u64| #[trigger] after.contains_key(other) implies exists|i: int|
            0 <= i < result.len() && (#[trigger] result[i]).0 == other by {
            if other == last.0 {
                assert(result[inner.len() as int].0 == other);
            } else {
                assert(between.contains_key(other));
                let i = choose|i: int| 0 <= i < inner.len() && (#[trigger] inner[i]).0 == other;
                assert(result[i] == inner[i]);
            }
        }
    }
}

/// A map with finitely many keys has a list of its pairs in the order of
/// their keys.
pub proof fn lemma_finite_listed<V>(map: Map<u64, V>)
    requires
        map.dom().finite(),
    ensures
        lists(ordered(map), map),
    decreases map.dom().len(),
{
    broadcast use vstd::set::group_set_axioms;

    if map.dom().len() == 0 {
        assert(map.dom() =~= Set::<u64>::empty());
        let none = Seq::<(u64, V)>::empty();
        assert(lists(none, map));
        lemma_ordered(none, map);
    } else {
        let key = map.dom().choose();
        assert(map.dom().contains(key));
        let rest = map.remove(key);
        assert(rest.dom() =~= map.dom().remove(key));
        lemma_finite_listed(rest);
        lemma_inserted(ordered(rest), rest, key, map[key]);
        assert(rest.insert(key, map[key]) =~= map);
        lemma_ordered(inserted(ordered(rest), key, map[key]), map);
    }
}

/// A lookup that takes in a new hash has the same number of buckets and
/// one pair more, and each of its buckets has a list of its pairs still.
pub proof fn lemma_bucket_insert_grows<V>(buckets: Seq<Map<u64, V>>, hash: u64, value: V)
    requires
        well_bucketed(buckets),
        all_listed(buckets),
        bucket_lookup(buckets, hash) is None,
    ensures
        bucket_insert(buckets, hash, value).len() == buckets.len(),
        all_listed(bucket_insert(buckets, hash, value)),
        bucket_entries(bucket_insert(buckets, hash, value), buckets.len()).len() == bucket_entries(
            buckets,
            buckets.len(),
        ).len() + 1,
{
    let at = bucket_of(hash, buckets.len());
    let after = bucket_insert(buckets, hash, value);
    lemma_inserted(ordered(buckets[at]), buckets[at], hash, value);
    lemma_ordered(inserted(ordered(buckets[at]), hash, value), after[at]);
    assert forall|bucket: int| 0 <= bucket < after.len() implies lists(
        ordered(#[trigger] after[bucket]),
        after[bucket],
    ) by {
        if bucket != at {
            assert(after[bucket] == buckets[bucket]);
        }
    }
    lemma_bucket_insert_count(buckets, hash, value, buckets.len());
}

/// The pairs of the first `upto` buckets of a lookup that takes in a new
/// hash: one more where the bucket of the hash is among them.
pub proof fn lemma_bucket_insert_count<V>(
    buckets: Seq<Map<u64, V>>,
    hash: u64,
    value: V,
    upto: nat,
)
    requires
        well_bucketed(buckets),
        all_listed(buckets),
        bucket_lookup(buckets, hash) is None,
        upto <= buckets.len(),
    ensures
        bucket_entries(bucket_insert(buckets, hash, value), upto).len() == bucket_entries(
            buckets,
            upto,
        ).len() + (if bucket_of(hash, buckets.len()) < upto {
            1nat
        } else {
            0nat
        }),
    decreases upto,
{
    if upto > 0 {
        lemma_bucket_insert_count(buckets, hash, value, (upto - 1) as nat);
        let at = bucket_of(hash, buckets.len());
        let after = bucket_insert(buckets, hash, value);
        if at == upto - 1 {
            lemma_inserted(ordered(buckets[at]), buckets[at], hash, value);
            lemma_ordered(inserted(ordered(buckets[at]), hash, value), after[at]);
        } else {
            assert(after[upto - 1] == buckets[upto - 1]);
        }
    }
}

/// A map from hashes to values that keeps a fixed number of buckets. The hash
/// modulo the number of buckets selects the bucket; each bucket is ordered by
/// hash. This is the two-level lookup that the archive stores.
pub struct BucketMap<V>(Vec<BTreeMap<u64, V>>);

impl<V> View for BucketMap<V> {
    type V = Seq<Map<u64, V>>;

    closed spec fn view(&self) -> Seq<Map<u64, V>> {
        self.0@.map_values(|bucket: BTreeMap<u64, V>| bucket@)
    }
}

/// `BTreeMap::get_mut` of the standard library: a mutable reference to the
/// value under the key, if the map has the key. What the caller leaves
/// behind the reference is the value under the key from then on; the map
/// has the same keys, and every other value stays.
#[verifier::external_body]
fn tree_get_mut<V>(map: &mut BTreeMap<u64, V>, key: u64) -> (value: Option<&mut V>)
    ensures
        match value {
            Some(value) => old(map)@.contains_key(key) && *value == old(map)@[key] && final(map)@
                == old(map)@.insert(key, *final(value)),
            None => !old(map)@.contains_key(key) && final(map)@ == old(map)@,
        },
{
    map.get_mut(&key)
}

impl<V> BucketMap<V> {
    /// The map has a bucket, and each of its keys lies in the bucket that
    /// its hash selects.
    pub open spec fn wf(&self) -> bool {
        well_bucketed(self@)
    }

    fn bucket_for_hash(&self, hash: Hash40) -> (at: usize)
        requires
            self.wf(),
        ensures
            at == bucket_of(hash.0, self@.len()),
            at < self@.len(),
    {
        let count: usize = self.0.len();
        (hash.0 % (count as u64)) as usize
    }

    pub fn new(bucket_count: usize) -> (map: Self)
        requires
            bucket_count > 0,
        ensures
            map.wf(),
            map@.len() == bucket_count,
            forall|i: int| 0 <= i < bucket_count ==> #[trigger] map@[i] == Map::<u64, V>::empty(),
    {
        let mut buckets: Vec<BTreeMap<u64, V>> = Vec::new();
        let mut i: usize = 0;
        while i < bucket_count
            invariant
                i <= bucket_count,
                buckets@.len() == i,
                forall|j: int| 0 <= j < i ==> (#[trigger] buckets@[j])@ == Map::<u64, V>::empty(),
            decreases bucket_count - i,
        {
            buckets.push(BTreeMap::new());
            i = i + 1;
        }
        BucketMap(buckets)
    }

    pub fn get(&self, hash: Hash40) -> (value: Option<&V>)
        requires
            self.wf(),
        ensures
            match value {
                Some(value) => bucket_lookup(self@, hash.0) == Some(*value),
                None => bucket_lookup(self@, hash.0) is None,
            },
    {
        let at = self.bucket_for_hash(hash);
        self.0[at].get(&hash.0)
    }

    /// The value under the given hash, to be changed in place. What the
    /// caller leaves behind the reference is the value under the hash from
    /// then on.
    pub fn get_mut(&mut self, hash: Hash40) -> (value: Option<&mut V>)
        requires
            old(self).wf(),
        ensures
            match value {
                Some(value) => bucket_lookup(old(self)@, hash.0) == Some(*value) && final(self)@
                    == bucket_insert(old(self)@, hash.0, *final(value)),
                None => bucket_lookup(old(self)@, hash.0) is None && final(self)@ == old(self)@,
            },
            final(self).wf(),
    {
        let at = self.bucket_for_hash(hash);
        proof {
            let before = self@;
            assert forall|value: V| well_bucketed(#[trigger] bucket_insert(before, hash.0, value)) by {
                let after = bucket_insert(before, hash.0, value);
                assert forall|bucket: int, key: u64|
                    0 <= bucket < after.len() && #[trigger] after[bucket].contains_key(
                        key,
                    ) implies bucket_of(key, after.len()) == bucket by {
                    if key != hash.0 || bucket != at {
                        assert(before[bucket].contains_key(key));
                    }
                }
            }
        }
        tree_get_mut(&mut self.0[at], hash.0)
    }

    pub fn insert(&mut self, hash: Hash40, value: V) -> (previous: Option<V>)
        requires
            old(self).wf(),
        ensures
            final(self).wf(),
            final(self)@ == bucket_insert(old(self)@, hash.0, value),
            previous == bucket_lookup(old(self)@, hash.0),
    {
        let at = self.bucket_for_hash(hash);
        let previous = self.0[at].insert(hash.0, value);
        assert(self@ =~= bucket_insert(old(self)@, hash.0, value));
        previous
    }

    pub fn remove(&mut self, hash: Hash40) -> (previous: Option<V>)
        requires
            old(self).wf(),
        ensures
            final(self).wf(),
            final(self)@ == old(self)@.update(
                bucket_of(hash.0, old(self)@.len()),
                old(self)@[bucket_of(hash.0, old(self)@.len())].remove(hash.0),
            ),
            previous == bucket_lookup(old(self)@, hash.0),
    {
        let at = self.bucket_for_hash(hash);
        let previous = self.0[at].remove(&hash.0);
        assert(self@ =~= old(self)@.update(at as int, old(self)@[at as int].remove(hash.0)));
        previous
    }

    pub fn contains_key(&self, hash: Hash40) -> (b: bool)
        requires
            self.wf(),
        ensures
            b == bucket_lookup(self@, hash.0).is_some(),
    {
        self.get(hash).is_some()
    }

    pub fn into_inner(self) -> (buckets: Vec<BTreeMap<u64, V>>)
        ensures
            buckets@.map_values(|bucket: BTreeMap<u64, V>| bucket@) == self@,
    {
        self.0
    }

    /// Every bucket of a lookup has a list of its pairs in the order of
    /// their hashes: a bucket holds finitely many pairs.
    pub proof fn lemma_listed(&self)
        ensures
            all_listed(self@),
    {
        assert forall|bucket: int| 0 <= bucket < self@.len() implies lists(
            ordered(#[trigger] self@[bucket]),
            self@[bucket],
        ) by {
            vstd::std_specs::btree::axiom_btree_map_view_finite_dom(self.0@[bucket]);
            assert(self@[bucket] == self.0@[bucket]@);
            lemma_finite_listed(self@[bucket]);
        }
    }

    pub fn bucket_count(&self) -> (count: usize)
        ensures
            count == self@.len(),
    {
        self.0.len()
    }

    /// The buckets, in order.
    pub fn buckets(&self) -> (buckets: &[BTreeMap<u64, V>])
        ensures
            buckets@.map_values(|bucket: BTreeMap<u64, V>| bucket@) == self@,
    {
        self.0.as_slice()
    }
}

impl<V: Copy> BucketMap<V> {
    /// The pairs of the map: bucket after bucket, each in the order of its
    /// hashes.
    pub fn iter(&self) -> (entries: Vec<(u64, V)>)
        ensures
            entries@ == bucket_entries(self@, self@.len()),
    {
        let mut entries: Vec<(u64, V)> = Vec::new();
        let mut i: usize = 0;
        while i < self.0.len()
            invariant
                i <= self.0@.len(),
                self@.len() == self.0@.len(),
                entries@ == bucket_entries(self@, i as nat),
            decreases self.0@.len() - i,
        {
            let mut bucket = ordered_entries(&self.0[i]);
            entries.append(&mut bucket);
            i = i + 1;
        }
        entries
    }

    /// The number of pairs in the map.
    pub fn len(&self) -> (n: usize)
        ensures
            n == bucket_entries(self@, self@.len()).len(),
    {
        self.iter().len()
    }
}

} // verus!
