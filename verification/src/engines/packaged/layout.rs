//! The lookup of the paths as it lies in the bytes that are written.
//!
//! The lookup starts with the number of its pairs and the number of its
//! buckets. A pair of numbers follows for each bucket: where the bucket
//! starts among the pairs, and how many pairs it has. The keys follow,
//! bucket after bucket and in each bucket in the order of the hashes: each
//! is the hash packed with the index that its path has in the table of
//! paths.
use vstd::prelude::*;

use crate::bytes::{
    le32, le64, lemma_le_len, lemma_u32_round_trip, lemma_u64_round_trip, u32_at, u64_at,
};
use crate::engines::packaged::bucket_map::{
    all_listed, bucket_entries, bucket_of, lemma_bucket_layout, ordered, well_bucketed,
};
use crate::engines::packaged::serialize::bucket_index_bytes;
use crate::engines::packaged::writer::WriterModel;
use crate::engines::rounds::{index_in, key_bytes, lemma_key_bytes_len};
use crate::engines::table::TableCell;
use crate::engines::{Hash40, HashKey};

verus! {

/// The index of a bucketed lookup takes eight bytes for each bucket.
pub proof fn lemma_index_len<V>(buckets: Seq<Map<u64, V>>, upto: nat, with_end: bool)
    ensures
        bucket_index_bytes(buckets, upto, with_end).len() == 8 * upto,
    decreases upto,
{
    if upto > 0 {
        lemma_index_len(buckets, (upto - 1) as nat, with_end);
        lemma_le_len();
    }
}

/// The two numbers of a bucket in the index that is written behind other
/// bytes: the number of pairs before the bucket, and the number of pairs
/// in it.
pub proof fn lemma_index_numbers<V>(
    buckets: Seq<Map<u64, V>>,
    upto: nat,
    bucket: int,
    before: Seq<u8>,
    after: Seq<u8>,
)
    requires
        0 <= bucket < upto,
    ensures
        ({
            let data = before + bucket_index_bytes(buckets, upto, false) + after;
            &&& u32_at(data, before.len() + 8 * bucket) == bucket_entries(
                buckets,
                bucket as nat,
            ).len() as u32
            &&& u32_at(data, before.len() + 8 * bucket + 4) == ordered(buckets[bucket]).len() as u32
        }),
    decreases upto,
{
    lemma_le_len();
    let head = bucket_index_bytes(buckets, (upto - 1) as nat, false);
    let start = le32(bucket_entries(buckets, (upto - 1) as nat).len() as u32);
    let length = le32(ordered(buckets[upto - 1]).len() as u32);
    let data = before + bucket_index_bytes(buckets, upto, false) + after;
    lemma_index_len(buckets, (upto - 1) as nat, false);
    if bucket == upto - 1 {
        lemma_u32_round_trip(
            before + head,
            bucket_entries(buckets, (upto - 1) as nat).len() as u32,
            length + after,
        );
        assert(data =~= (before + head) + start + (length + after));
        lemma_u32_round_trip(before + head + start, ordered(buckets[upto - 1]).len() as u32, after);
        assert(data =~= (before + head + start) + length + after);
    } else {
        lemma_index_numbers(buckets, (upto - 1) as nat, bucket, before, start + length + after);
        assert(data =~= before + head + (start + length + after));
    }
}

/// The key of a pair among the keys that are written behind other bytes:
/// its hash packed with the index that its cell has in the table.
pub proof fn lemma_key_at(
    entries: Seq<(u64, TableCell)>,
    table: Seq<TableCell>,
    upto: nat,
    at: int,
    before: Seq<u8>,
    after: Seq<u8>,
)
    requires
        0 <= at < upto,
        key_bytes(entries, table, upto) is Some,
    ensures
        index_in(table, entries[at].1) is Some,
        u64_at(before + key_bytes(entries, table, upto).unwrap() + after, before.len() + 8 * at)
            == HashKey::pack(
            Hash40(entries[at].0),
            index_in(table, entries[at].1).unwrap() as usize,
        ).0,
    decreases upto,
{
    lemma_le_len();
    let head = key_bytes(entries, table, (upto - 1) as nat).unwrap();
    let last = le64(
        HashKey::pack(
            Hash40(entries[upto - 1].0),
            index_in(table, entries[upto - 1].1).unwrap() as usize,
        ).0,
    );
    let data = before + key_bytes(entries, table, upto).unwrap() + after;
    lemma_key_bytes_len(entries, table, (upto - 1) as nat);
    if at == upto - 1 {
        lemma_u64_round_trip(
            before + head,
            HashKey::pack(
                Hash40(entries[upto - 1].0),
                index_in(table, entries[upto - 1].1).unwrap() as usize,
            ).0,
            after,
        );
        assert(data =~= (before + head) + last + after);
    } else {
        lemma_key_at(entries, table, (upto - 1) as nat, at, before, last + after);
        assert(data =~= before + head + (last + after));
    }
}

/// The lookup of the paths as it is written. The bytes start with the
/// number of the pairs and the number of the buckets. For each bucket two
/// numbers follow: where it starts, which is zero for the first bucket and
/// for every other the start of the bucket before it plus its length, and
/// how many pairs it has. Then the keys follow: the keys from the start of
/// a bucket on, as many as the bucket is long, hold exactly the hashes of
/// that bucket in ascending order, each with the index that its path has
/// in the table of paths.
pub proof fn lemma_lookup_layout(writer: WriterModel, bucket: int, after: Seq<u8>)
    requires
        well_bucketed(writer.file_lookup),
        all_listed(writer.file_lookup),
        writer.path_lookup_bytes() is Some,
        bucket_entries(writer.file_lookup, writer.file_lookup.len()).len() <= u32::MAX,
        writer.file_lookup.len() <= u32::MAX,
        0 <= bucket < writer.file_lookup.len(),
    ensures
        ({
            let buckets = writer.file_lookup;
            let count = buckets.len();
            let entries = bucket_entries(buckets, count);
            let data = writer.path_lookup_bytes().unwrap() + after;
            let start = bucket_entries(buckets, bucket as nat).len();
            let length = ordered(buckets[bucket]).len();
            &&& u32_at(data, 0) == entries.len()
            &&& u32_at(data, 4) == count
            &&& u32_at(data, 8 + 8 * bucket) == start
            &&& u32_at(data, 8 + 8 * bucket + 4) == length
            &&& bucket == 0 ==> start == 0
            &&& bucket + 1 < count ==> bucket_entries(buckets, (bucket + 1) as nat).len() == start
                + length
            &&& bucket + 1 == count ==> entries.len() == start + length
            &&& forall|i: int|
                start <= i < start + length ==> bucket_of((#[trigger] entries[i]).0, count) == bucket
                    && index_in(writer.tables.paths, entries[i].1) is Some && u64_at(
                    data,
                    8 + 8 * count + 8 * i,
                ) == HashKey::pack(
                    Hash40(entries[i].0),
                    index_in(writer.tables.paths, entries[i].1).unwrap() as usize,
                ).0
            &&& forall|i: int, j: int|
                start <= i < j < start + length ==> (#[trigger] entries[i]).0 < (
                #[trigger] entries[j]).0
            &&& forall|hash: u64|
                #![trigger buckets[bucket].contains_key(hash)]
                buckets[bucket].contains_key(hash) ==> exists|i: int|
                    start <= i < start + length && (#[trigger] entries[i]).0 == hash
        }),
{
    lemma_le_len();
    let buckets = writer.file_lookup;
    let count = buckets.len();
    let entries = bucket_entries(buckets, count);
    let index = bucket_index_bytes(buckets, count, false);
    let keys = key_bytes(entries, writer.tables.paths, entries.len()).unwrap();
    let data = writer.path_lookup_bytes().unwrap() + after;
    let first = le32(entries.len() as u32);
    let second = le32(count as u32);
    assert(data =~= first + second + index + keys + after);
    lemma_u32_round_trip(Seq::empty(), entries.len() as u32, second + index + keys + after);
    assert(data =~= Seq::<u8>::empty() + first + (second + index + keys + after));
    lemma_u32_round_trip(first, count as u32, index + keys + after);
    assert(data =~= first + second + (index + keys + after));
    lemma_index_numbers(buckets, count, bucket, first + second, keys + after);
    assert(data =~= (first + second) + index + (keys + after));
    lemma_index_len(buckets, count, false);
    lemma_bucket_layout(buckets, bucket);
    crate::engines::packaged::bucket_map::lemma_bucket_entries_grow(buckets, bucket as nat, count);
    let start = bucket_entries(buckets, bucket as nat).len();
    let length = ordered(buckets[bucket]).len();
    assert forall|i: int| start <= i < start + length implies bucket_of(
        (#[trigger] entries[i]).0,
        count,
    ) == bucket && index_in(writer.tables.paths, entries[i].1) is Some && u64_at(
        data,
        8 + 8 * count + 8 * i,
    ) == HashKey::pack(
        Hash40(entries[i].0),
        index_in(writer.tables.paths, entries[i].1).unwrap() as usize,
    ).0 by {
        lemma_key_at(entries, writer.tables.paths, entries.len(), i, first + second + index, after);
        assert(data =~= (first + second + index) + keys + after);
    }
    assert forall|hash: u64|
        #![trigger buckets[bucket].contains_key(hash)]
        buckets[bucket].contains_key(hash) implies exists|i: int|
        start <= i < start + length && (#[trigger] entries[i]).0 == hash by {
        let own = ordered(buckets[bucket]);
        let k = choose|k: int| 0 <= k < own.len() && (#[trigger] own[k]).0 == hash;
        assert(entries.subrange(start as int, (start + length) as int)[k] == own[k]);
        assert(entries[start + k].0 == hash);
    }
    if bucket + 1 == count {
    }
}

} // verus!
