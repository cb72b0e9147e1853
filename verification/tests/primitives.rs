use archive_manifest::bytes::{push_record, push_u16, push_u32, push_u64, push_zeros, read_u16, read_u32, read_u64};
use archive_manifest::engines::packaged::bucket_map::{ordered_entries, BucketMap};
use archive_manifest::engines::table::{
    CellIds, CellStore, TableCell, TableContiguousReference, TableLinkedReference, TableMaker,
    TableReference, TableReferenceSet,
};
use archive_manifest::engines::search::types::{
    SearchPath, SearchPathFolderReference, SearchPathNextReference,
};
use archive_manifest::engines::{Hash40, HashKey, Locale, Region, Version};
use archive_manifest::hashing::{hash_of, Hashable};
use archive_manifest::raw::{RawGroup, RawHashKey};
use archive_manifest::{
    compress_data, decompress_data, decompress_data_with_size, ArchiveError, Decompressor,
    DefaultDecompressor, HASH_MASK, INVALID_INDEX, INVALID_INDEX32,
};
use std::collections::BTreeMap;

#[test]
fn hash_key_packs_and_unpacks() {
    let key = HashKey::new(Hash40(0x12_3456_789A), 0xABCDEF);
    assert_eq!(key.0, 0xABCD_EF12_3456_789A);
    assert_eq!(key.hash(), Hash40(0x12_3456_789A));
    assert_eq!(key.index(), 0xABCDEF);
}

#[test]
fn hash_key_symmetry_on_edges() {
    for (hash, index) in [(0u64, 0usize), (HASH_MASK, 0), (0, 0xFF_FFFF), (HASH_MASK, 0xFF_FFFF), (1, 1)] {
        let key = HashKey::new(Hash40(hash), index);
        assert_eq!(key.hash().0, hash);
        assert_eq!(key.index(), index);
    }
}

#[test]
fn hash_key_setters_keep_the_other_half() {
    let mut key = HashKey::new(Hash40(0x11_2233_4455), 0x123456);
    key.set_hash(Hash40(0xAA_BBCC_DDEE));
    assert_eq!(key.index(), 0x123456);
    assert_eq!(key.hash(), Hash40(0xAA_BBCC_DDEE));
    key.set_index(0x654321);
    assert_eq!(key.hash(), Hash40(0xAA_BBCC_DDEE));
    assert_eq!(key.index(), 0x654321);
}

#[test]
fn invalid_index_is_24_ones() {
    assert_eq!(INVALID_INDEX, 0x00FF_FFFF);
    assert_eq!(INVALID_INDEX32, 0x00FF_FFFF);
    let key = HashKey::new(Hash40(5), INVALID_INDEX);
    assert_eq!(key.index(), INVALID_INDEX);
}

#[test]
fn little_endian_bytes() {
    let mut out = Vec::new();
    push_u16(&mut out, 0x0102);
    push_u32(&mut out, 0x0304_0506);
    push_u64(&mut out, 0x0708_090A_0B0C_0D0E);
    push_zeros(&mut out, 2);
    assert_eq!(
        out,
        vec![0x02, 0x01, 0x06, 0x05, 0x04, 0x03, 0x0E, 0x0D, 0x0C, 0x0B, 0x0A, 0x09, 0x08, 0x07, 0, 0]
    );
    assert_eq!(read_u16(&out, 0), 0x0102);
    assert_eq!(read_u32(&out, 2), 0x0304_0506);
    assert_eq!(read_u64(&out, 6), 0x0708_090A_0B0C_0D0E);
}

#[test]
fn record_is_quads_then_words() {
    let mut out = vec![0xEE];
    push_record(&mut out, &[1u64], &[2u32, 3u32]);
    assert_eq!(out, vec![0xEE, 1, 0, 0, 0, 0, 0, 0, 0, 2, 0, 0, 0, 3, 0, 0, 0]);
}

#[test]
fn version_reads_and_writes_four_bytes() {
    let version = Version::parse(&[3, 2, 0x0D, 0x00], 0);
    assert_eq!(version, Version::new(13, 2, 3));
    let mut out = Vec::new();
    version.write(&mut out);
    assert_eq!(out, vec![3, 2, 0x0D, 0x00]);
    let mut cut = Vec::new();
    Version::new(0x1_0001, 0x102, 0x203).write(&mut cut);
    assert_eq!(cut, vec![0x03, 0x02, 0x01, 0x00]);
}

#[test]
fn cells_share_their_record() {
    let mut store: CellStore<u32> = CellStore::new();
    let first = TableCell::new(10u32, &mut store, &mut CellIds::new());
    let second = TableCell::new(20u32, &mut store, &mut CellIds::new());
    assert_eq!(first.slot(), 0);
    assert_eq!(second.slot(), 1);
    let copy = first;
    *copy.get_mut(&mut store) = 11;
    assert_eq!(*first.get(&store), 11);
    assert_eq!(*second.get(&store), 20);
    assert!(store.contains(&second));
    assert!(!store.contains(&TableCell::from_slot(2)));
    assert!(store.lookup(&TableCell::from_slot(2)).is_none());
    assert_eq!(store.len(), 2);
}

#[test]
fn reference_resolves_once() {
    let table = vec![TableCell::from_slot(7), TableCell::from_slot(8), TableCell::from_slot(9)];
    let mut reference = TableReference::Unresolved(1);
    assert!(!reference.is_resolved());
    assert!(reference.can_resolve(3, 0));
    assert!(!reference.can_resolve(1, 0));
    reference.resolve(&table);
    assert_eq!(reference, TableReference::Resolved(TableCell::from_slot(8)));
    reference.resolve(&table[..1]);
    assert_eq!(*reference.cell(), TableCell::from_slot(8));
    let mut moved = TableReference::Unresolved(1);
    assert!(moved.can_resolve(3, 1));
    assert!(!moved.can_resolve(3, 2));
    moved.resolve_with_offset(&table, 1);
    assert_eq!(moved, TableReference::Resolved(TableCell::from_slot(9)));
    assert_eq!(TableReference::invalid(), TableReference::Unresolved(INVALID_INDEX));
}

#[test]
fn contiguous_reference_takes_a_range() {
    let table: Vec<TableCell> = (10..20).map(TableCell::from_slot).collect();
    let mut set = TableContiguousReference::new_from_count(2, 3);
    assert!(!set.0.is_resolved());
    assert!(set.can_resolve(10, 0));
    assert!(!set.can_resolve(4, 0));
    assert!(!set.can_resolve(10, 6));
    set.resolve(&table);
    assert!(set.0.is_resolved());
    assert_eq!(set.0.len(), 3);
    assert_eq!(set.0.cells(), &table[2..5]);
    assert_eq!(set.0.get(1), TableCell::from_slot(13));
    let mut moved = TableContiguousReference::new_from_count(0, 2);
    moved.resolve_with_offset(&table, 8);
    assert_eq!(moved.0.iter(), vec![TableCell::from_slot(18), TableCell::from_slot(19)]);
    let mut empty = TableContiguousReference::new_from_count(4, 0);
    empty.resolve(&table);
    assert!(empty.0.is_empty());
    match TableContiguousReference::invalid().0 {
        TableReferenceSet::Unresolved(range) => assert_eq!(range, INVALID_INDEX..INVALID_INDEX),
        TableReferenceSet::Resolved(_) => panic!("an invalid set is not resolved"),
    }
}

#[test]
fn reference_set_changes_in_place() {
    let mut set: TableReferenceSet<usize> = TableReferenceSet::Unresolved(0);
    set.replace(vec![TableCell::from_slot(1)]);
    set.push(TableCell::from_slot(3));
    set.insert(1, TableCell::from_slot(2));
    assert_eq!(set.iter(), vec![TableCell::from_slot(1), TableCell::from_slot(2), TableCell::from_slot(3)]);
    set.clear();
    assert!(set.is_empty());
}

fn search_path(next: SearchPathNextReference) -> SearchPath {
    SearchPath {
        full_path: Hash40(1),
        parent: Hash40(2),
        name: Hash40(3),
        extension: Hash40(4),
        folder: SearchPathFolderReference::Absent,
        next,
    }
}

#[test]
fn linked_reference_follows_next() {
    let mut store: CellStore<SearchPath> = CellStore::new();
    let a = TableCell::new(search_path(SearchPathNextReference::Path(TableCell::from_slot(2))), &mut store, &mut CellIds::new());
    let b = TableCell::new(search_path(SearchPathNextReference::Absent), &mut store, &mut CellIds::new());
    let c = TableCell::new(search_path(SearchPathNextReference::Path(TableCell::from_slot(1))), &mut store, &mut CellIds::new());
    let table = vec![a, b, c];
    let mut list = TableLinkedReference::new(0);
    assert!(list.resolve(&table, &store));
    assert_eq!(list.0.iter(), vec![a, c, b]);
    let mut nothing = TableLinkedReference::invalid();
    assert!(nothing.resolve(&table, &store));
    assert!(nothing.0.is_empty());
    let mut outside = TableLinkedReference::new(3);
    assert!(!outside.resolve(&table, &store));
    assert!(!outside.0.is_resolved());
}

#[test]
fn linked_reference_rejects_a_cycle() {
    let mut store: CellStore<SearchPath> = CellStore::new();
    let a = TableCell::new(search_path(SearchPathNextReference::Path(TableCell::from_slot(1))), &mut store, &mut CellIds::new());
    let b = TableCell::new(search_path(SearchPathNextReference::Path(TableCell::from_slot(0))), &mut store, &mut CellIds::new());
    let table = vec![a, b];
    let mut list = TableLinkedReference::new(0);
    assert!(!list.resolve(&table, &store));
    assert!(!list.0.is_resolved());
    let mut dangling: CellStore<SearchPath> = CellStore::new();
    let lone = TableCell::new(search_path(SearchPathNextReference::Path(TableCell::from_slot(5))), &mut dangling, &mut CellIds::new());
    let mut list = TableLinkedReference::new(0);
    assert!(!list.resolve(&[lone], &dangling));
}

#[test]
fn table_maker_assigns_indices() {
    let mut maker = TableMaker::new();
    assert_eq!(maker.len(), 0);
    maker.push(TableCell::from_slot(40));
    maker.push(TableCell::from_slot(7));
    assert!(maker.has_cell(&TableCell::from_slot(7)));
    assert!(!maker.has_cell(&TableCell::from_slot(8)));
    assert_eq!(maker.get_index(&TableCell::from_slot(40)), 0);
    assert_eq!(maker.get_index(&TableCell::from_slot(7)), 1);
    assert!(!maker.push_new(TableCell::from_slot(7)));
    assert!(maker.push_new(TableCell::from_slot(9)));
    assert_eq!(maker.iter(), &[TableCell::from_slot(40), TableCell::from_slot(7), TableCell::from_slot(9)]);
    assert_eq!(maker.into_inner().len(), 3);
    assert_eq!(TableMaker::default().len(), 0);
}

#[test]
fn bucket_map_selects_bucket_by_hash() {
    let mut map: BucketMap<u32> = BucketMap::new(4);
    assert_eq!(map.bucket_count(), 4);
    assert_eq!(map.insert(Hash40(9), 90), None);
    assert_eq!(map.insert(Hash40(5), 50), None);
    assert_eq!(map.insert(Hash40(2), 20), None);
    assert_eq!(map.insert(Hash40(4), 40), None);
    assert_eq!(map.insert(Hash40(9), 91), Some(90));
    assert_eq!(map.get(Hash40(9)), Some(&91));
    assert_eq!(map.get(Hash40(13)), None);
    assert!(map.contains_key(Hash40(2)));
    assert_eq!(map.len(), 4);
    assert_eq!(map.iter(), vec![(4, 40), (5, 50), (9, 91), (2, 20)]);
    assert_eq!(map.buckets()[1].len(), 2);
    assert_eq!(map.remove(Hash40(5)), Some(50));
    assert_eq!(map.remove(Hash40(5)), None);
    assert_eq!(map.len(), 3);
    assert_eq!(map.into_inner().len(), 4);
}

#[test]
fn bucket_map_changes_a_value_in_place() {
    let mut map: BucketMap<u32> = BucketMap::new(4);
    map.insert(Hash40(9), 90);
    map.insert(Hash40(5), 50);
    assert!(map.get_mut(Hash40(13)).is_none());
    *map.get_mut(Hash40(9)).unwrap() += 1;
    assert_eq!(map.get(Hash40(9)), Some(&91));
    assert_eq!(map.get(Hash40(5)), Some(&50));
    assert_eq!(map.len(), 2);
    assert_eq!(map.iter(), vec![(5, 50), (9, 91)]);
}

#[test]
fn ordered_entries_ascend() {
    let mut map = BTreeMap::new();
    map.insert(30u64, 'c');
    map.insert(10u64, 'a');
    map.insert(20u64, 'b');
    assert_eq!(ordered_entries(&map), vec![(10, 'a'), (20, 'b'), (30, 'c')]);
    assert_eq!(ordered_entries(&BTreeMap::<u64, u8>::new()), vec![]);
}

#[test]
fn hash_of_matches_the_hash_crate() {
    assert_eq!(hash_of("").0, 0);
    for text in ["a", "abc", "fighter/mario/model/body/c00/model.nutexb", "/", "nutexb"] {
        let hash = hash_of(text);
        assert_eq!(hash.0, hash40::Hash40::new(text).0);
        assert_eq!(hash.0 >> 32, (text.len() & 0xFF) as u64);
        assert!(hash.0 <= HASH_MASK);
    }
    assert_eq!(hash_of("ABC"), hash_of("abc"));
    assert_ne!(hash_of("abc"), hash_of("abd"));
    assert_eq!(hash_of("abc").0 & 0xFFFF_FFFF, 0x3524_41C2);
}

#[test]
fn hashable_hashes_strings_and_keeps_hashes() {
    assert_eq!("abc".to_hash(), hash_of("abc"));
    assert_eq!(Hash40(77).to_hash(), Hash40(77));
}

#[test]
fn locale_codes() {
    assert_eq!(Locale::Japanese.as_str(), "jp_ja");
    assert_eq!(Locale::Taiwanese.as_str(), "zh_tw");
    assert_eq!(Locale::Invalid.as_str(), "");
    assert_eq!(Locale::UsSpanish.as_pretty_str(), "US Spanish");
    assert_eq!(Locale::German.as_pretty_str(), "German");
    assert_eq!(Locale::from_str("kr_ko"), Locale::Korean);
    assert_eq!(Locale::from_str("eu_de"), Locale::German);
    assert_eq!(Locale::from_str("xx_xx"), Locale::Invalid);
    assert_eq!(Locale::from_number(0), Locale::Japanese);
    assert_eq!(Locale::from_number(13), Locale::Taiwanese);
    assert_eq!(Locale::from_number(14), Locale::Invalid);
    assert_eq!(Locale::from_number(-1), Locale::Invalid);
}

#[test]
fn european_codes_of_english_french_and_spanish_read_as_american() {
    assert_eq!(Locale::from_str("eu_en"), Locale::UsEnglish);
    assert_eq!(Locale::from_str("eu_fr"), Locale::UsFrench);
    assert_eq!(Locale::from_str("eu_es"), Locale::UsSpanish);
    assert_eq!(Locale::EuEnglish.as_str(), "eu_en");
}

#[test]
fn region_codes() {
    assert_eq!(Region::Japan.as_str(), "jp");
    assert_eq!(Region::NorthAmerica.as_pretty_str(), "North America");
    assert_eq!(Region::Invalid.as_pretty_str(), "");
    assert_eq!(Region::from_str("zh"), Region::China);
    assert_eq!(Region::from_str("??"), Region::Invalid);
    assert_eq!(Region::from_number(2), Region::Europe);
    assert_eq!(Region::from_number(5), Region::Invalid);
    assert_eq!(Region::from_locale(Locale::Dutch), Region::Europe);
    assert_eq!(Region::from_locale(Locale::UsFrench), Region::NorthAmerica);
    assert_eq!(Region::from_locale(Locale::Taiwanese), Region::China);
    assert_eq!(Region::from_locale(Locale::Invalid), Region::Invalid);
}

#[test]
fn raw_keys_split_their_second_word() {
    let key = RawHashKey { hash: 0x89AB_CDEF, len_and_index: 0x1234_5607 };
    assert_eq!(key.index(), 0x12_3456);
    assert_eq!(key.hash40(), Hash40(0x07_89AB_CDEF));
    let group = RawGroup {
        archive_offset_1: 0x89AB_CDEF,
        archive_offset_2: 0x0123_4567,
        decompressed_size: 0,
        compressed_size: 0,
        range_start: 0,
        range_count: 0,
        sub_package: 0,
    };
    assert_eq!(group.archive_offset(), 0x0123_4567_89AB_CDEF);
}

#[test]
fn compression_round_trips() {
    let data: Vec<u8> = (0..2000u32).map(|i| (i % 7) as u8).collect();
    let packed = compress_data(&data).unwrap();
    assert_ne!(packed, data);
    assert!(packed.len() < data.len());
    assert_eq!(&packed[..4], &[0x28, 0xB5, 0x2F, 0xFD]);
    assert_eq!(decompress_data(&packed).unwrap(), data);
    assert_eq!(decompress_data_with_size(&packed, data.len()).unwrap(), data);
    assert_eq!(DefaultDecompressor.decompress(&packed).unwrap(), data);
    assert_eq!(DefaultDecompressor.decompress_with_size(&packed, 1).unwrap(), data);
}

#[test]
fn decompression_of_garbage_is_a_codec_error() {
    assert_eq!(decompress_data(&[1, 2, 3, 4, 5, 6, 7, 8]), Err(ArchiveError::Codec));
    assert_eq!(decompress_data(&[]), Err(ArchiveError::Codec));
    let data = vec![9u8; 100];
    let mut packed = compress_data(&data).unwrap();
    packed.truncate(packed.len() - 3);
    assert_eq!(decompress_data(&packed), Err(ArchiveError::Codec));
}

#[test]
fn identifiers_come_from_one_counter() {
    let mut ids = CellIds::new();
    let mut bytes: CellStore<u8> = CellStore::new();
    let mut words: CellStore<u16> = CellStore::new();
    let mut more: CellStore<u8> = CellStore::new();
    let a = TableCell::new(7u8, &mut bytes, &mut ids);
    let b = TableCell::new(7u16, &mut words, &mut ids);
    let c = TableCell::new(7u8, &mut more, &mut ids);
    let d = TableCell::new(7u8, &mut bytes, &mut ids);
    // Each is the first cell of its store, or the second.
    assert_eq!((a.slot(), b.slot(), c.slot(), d.slot()), (0, 0, 0, 1));
    // A cell that is made later has the greater identifier, whatever it holds.
    assert!(a.guid(&bytes) < b.guid(&words));
    assert!(b.guid(&words) < c.guid(&more));
    assert!(c.guid(&more) < d.guid(&bytes));
    assert_eq!((a.guid(&bytes), b.guid(&words), c.guid(&more), d.guid(&bytes)), (0, 1, 2, 3));
    assert_eq!(ids.next, 4);
    // A copy has the identifier of the cell, and a write keeps it.
    let copy = a;
    assert_eq!(copy.guid(&bytes), a.guid(&bytes));
    *a.get_mut(&mut bytes) = 9;
    assert_eq!(*copy.get(&bytes), 9);
    assert_eq!(a.guid(&bytes), 0);
}

#[test]
fn records_that_are_read_get_the_next_identifiers() {
    let mut ids = CellIds::new();
    let mut first: CellStore<u8> = CellStore::new();
    TableCell::new(1u8, &mut first, &mut ids);
    let store = CellStore::from_records(vec![10u32, 20, 30], &mut ids);
    assert_eq!(ids.next, 4);
    for slot in 0..3u64 {
        assert_eq!(TableCell::from_slot(slot).guid(&store), 1 + slot);
    }
    let mut late = CellStore::unnamed(vec![5u8, 6]);
    assert!(late.ids.is_empty());
    late.name_all(&mut ids);
    assert_eq!(TableCell::from_slot(1).guid(&late), 5);
    assert_eq!(ids.next, 6);
}
