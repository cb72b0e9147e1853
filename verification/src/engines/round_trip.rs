//! What is read back from the bytes that were written.
//!
//! A record is written against the rebuilt tables and read back with its
//! references as indices into those tables. Resolving the indices against
//! the same tables gives the references that were written.
use vstd::prelude::*;

use crate::bytes::{lemma_record_fields, quad_at, u32_at, word_at};
use crate::engines::packaged::encode::reference_index;
use crate::engines::packaged::types::{
    Descriptor, DescriptorLoadArguments, DescriptorMetadataReference, Group, GroupView, Link,
    LinkOwnerReference, Metadata, Path, PathVersionedFileReference,
};
use crate::engines::packaged::PackagedTables;
use crate::engines::rounds::{index_in, table_bytes};
use crate::engines::stream::{
    stream_link_encoder, stream_metadata_encoder, StreamTables, StreamWriterModel,
};
use crate::engines::{records_decoded, whole_table};
use crate::engines::search::types::{SearchPath, SearchPathNextReference};
use crate::engines::stream::types::{StreamLink, StreamMetadata, StreamPath, StreamPathView};
use crate::engines::table::{position, ReferenceSetView, TableCell, TableReference};
use crate::engines::{Hash40, HashKey, TableRecord};
use crate::{INVALID_INDEX, INVALID_INDEX32};

verus! {

/// The index of a cell in a table of at most 2^32 cells is the place where
/// the table holds the cell.
pub proof fn lemma_index_in(table: Seq<TableCell>, cell: TableCell)
    requires
        table.len() <= u32::MAX,
    ensures
        index_in(table, cell) matches Some(index) ==> index < table.len() && table[index as int]
            == cell,
{
    if table.contains(cell) {
        let i = choose|i: int| 0 <= i < table.len() && table[i] == cell;
        assert(0 <= position(table, cell) < table.len() && table[position(table, cell)] == cell);
    }
}

/// Whether no table has more cells than an index of 24 bits can name, with
/// the invalid index left out.
pub open spec fn fits_24_bits(t: PackagedTables) -> bool {
    &&& t.packages.len() < INVALID_INDEX
    &&& t.child_packages.len() < INVALID_INDEX
    &&& t.groups.len() < INVALID_INDEX
    &&& t.paths.len() < INVALID_INDEX
    &&& t.links.len() < INVALID_INDEX
    &&& t.infos.len() < INVALID_INDEX
    &&& t.descriptors.len() < INVALID_INDEX
    &&& t.metadatas.len() < INVALID_INDEX
    &&& t.patches.len() < INVALID_INDEX
    &&& t.versioned_files.len() < INVALID_INDEX
}

/// A stream metadata that is written and read back is the same.
pub proof fn lemma_stream_metadata_round_trip(record: StreamMetadata, before: Seq<u8>, after: Seq<u8>)
    ensures
        StreamMetadata::decoded(before + record.encoded() + after, before.len() as int) == Some(
            record,
        ),
{
    lemma_record_fields(before, seq![record.size, record.offset], seq![], after);
    let all = before + record.encoded() + after;
    assert(quad_at(all, before.len() as int, 0) == record.size);
    assert(quad_at(all, before.len() as int, 1) == record.offset);
}

/// A stream link that is written against a table of metadatas is read back
/// with the index of its metadata, and resolving that index against the
/// table gives the link that was written.
pub proof fn lemma_stream_link_round_trip(
    record: StreamLink,
    metadatas: Seq<TableCell>,
    before: Seq<u8>,
    after: Seq<u8>,
)
    requires
        metadatas.len() <= u32::MAX,
        record.encoded(metadatas) is Some,
    ensures
        StreamLink::decoded(
            before + record.encoded(metadatas).unwrap() + after,
            before.len() as int,
        ) matches Some(read) && read.resolvable(metadatas.len()) && read.resolved(metadatas)
            == record,
{
    let cell = record.metadata->Resolved_0;
    let index = index_in(metadatas, cell).unwrap();
    lemma_index_in(metadatas, cell);
    lemma_record_fields(before, seq![], seq![index], after);
    let all = before + record.encoded(metadatas).unwrap() + after;
    assert(word_at(all, before.len() as int, 0, 0) == index);
}

/// A link that is written against the rebuilt tables is read back with the
/// index of its owner and the index of its info. The index of a package is
/// below the number of packages; the index of a group counts on from there.
/// Resolving the indices against the tables gives the link that was written.
pub proof fn lemma_link_round_trip(record: Link, t: PackagedTables, before: Seq<u8>, after: Seq<u8>)
    requires
        t.packages.len() <= u32::MAX,
        t.groups.len() <= u32::MAX,
        t.infos.len() <= u32::MAX,
        record.encoded(t) is Some,
    ensures
        Link::decoded(before + record.encoded(t).unwrap() + after, before.len() as int)
            matches Some(read) && read.resolvable(t.packages.len(), t.groups.len(), t.infos.len())
            && read.resolved(t.packages, t.groups, t.infos) == record,
{
    let owner = record.owner_index(t).unwrap();
    let info = reference_index(t.infos, record.info).unwrap();
    lemma_index_in(t.infos, record.info->Resolved_0);
    match record.owner {
        LinkOwnerReference::Package(package) => {
            lemma_index_in(t.packages, package);
        },
        LinkOwnerReference::Group(group) => {
            lemma_index_in(t.groups, group);
        },
        LinkOwnerReference::Unresolved(_) => {},
    }
    lemma_record_fields(before, seq![], seq![owner, info], after);
    let all = before + record.encoded(t).unwrap() + after;
    assert(word_at(all, before.len() as int, 0, 0) == owner);
    assert(word_at(all, before.len() as int, 0, 1) == info);
}

/// For a key that packs a 40-bit hash with an index that fits 24 bits, both
/// halves are read back.
pub proof fn lemma_key_halves(hash: Hash40, index: usize)
    requires
        hash.is_valid(),
        index <= INVALID_INDEX,
    ensures
        HashKey(HashKey::pack(hash, index).0).hash_part() == hash,
        HashKey(HashKey::pack(hash, index).0).index_part() == index,
{
    HashKey::lemma_pack_unpack(hash, index);
}

/// A path without a versioned file is written with the invalid index and
/// read back without a versioned file. A path with one is read back with
/// the index of the file counted from the first file of the latest patch,
/// and resolving against the tables gives the path that was written.
pub proof fn lemma_path_round_trip(
    record: Path,
    t: PackagedTables,
    last_patch_files_start: usize,
    before: Seq<u8>,
    after: Seq<u8>,
)
    requires
        fits_24_bits(t),
        record.full_path.is_valid(),
        record.extension.is_valid(),
        !(record.versioned_file is Unresolved),
        record.encoded(t, last_patch_files_start) is Some,
    ensures
        Path::decoded(
            before + record.encoded(t, last_patch_files_start).unwrap() + after,
            before.len() as int,
        ) matches Some(read) && (record.versioned_file is Absent ==> read.versioned_file
            is Absent) && read.resolvable(
            t.links.len(),
            t.versioned_files.len(),
            last_patch_files_start as int,
        ) && read.resolved(t.links, t.versioned_files, last_patch_files_start as int) == record,
{
    let link = reference_index(t.links, record.link).unwrap();
    let versioned = record.versioned_index(t, last_patch_files_start).unwrap();
    lemma_index_in(t.links, record.link->Resolved_0);
    match record.versioned_file {
        PathVersionedFileReference::VersionedFile(file) => {
            lemma_index_in(t.versioned_files, file);
        },
        _ => {},
    }
    lemma_key_halves(record.full_path, link as usize);
    lemma_key_halves(record.extension, versioned);
    lemma_record_fields(
        before,
        seq![
            HashKey::pack(record.full_path, link as usize).0,
            HashKey::pack(record.extension, versioned).0,
            record.parent.0,
            record.file_name.0,
        ],
        seq![],
        after,
    );
    let all = before + record.encoded(t, last_patch_files_start).unwrap() + after;
    assert(quad_at(all, before.len() as int, 0) == HashKey::pack(record.full_path, link as usize).0);
    assert(quad_at(all, before.len() as int, 1) == HashKey::pack(record.extension, versioned).0);
    assert(quad_at(all, before.len() as int, 2) == record.parent.0);
    assert(quad_at(all, before.len() as int, 3) == record.file_name.0);
}

/// A descriptor without a metadata is written with the invalid index and
/// read back without a metadata. A descriptor with one is read back with
/// the index of its metadata.
pub proof fn lemma_descriptor_metadata_round_trip(
    record: Descriptor,
    t: PackagedTables,
    info_offset: usize,
    before: Seq<u8>,
    after: Seq<u8>,
)
    requires
        fits_24_bits(t),
        !(record.metadata is Unresolved),
        record.encoded(t, info_offset) is Some,
    ensures
        ({
            let all = before + record.encoded(t, info_offset).unwrap() + after;
            let metadata = u32_at(all, before.len() as int + 4);
            &&& record.metadata is Absent <==> metadata == INVALID_INDEX32
            &&& u32_at(all, before.len() as int) == reference_index(t.groups, record.group).unwrap()
            &&& record.metadata matches DescriptorMetadataReference::Metadata(cell) ==> metadata
                < t.metadatas.len() && t.metadatas[metadata as int] == cell
            &&& t.groups[u32_at(all, before.len() as int) as int] == record.group->Resolved_0
        }),
{
    let group = reference_index(t.groups, record.group).unwrap();
    let metadata = record.metadata_index(t).unwrap();
    let word = record.load_args.encoded(t, info_offset).unwrap();
    lemma_index_in(t.groups, record.group->Resolved_0);
    match record.metadata {
        DescriptorMetadataReference::Metadata(cell) => {
            lemma_index_in(t.metadatas, cell);
        },
        _ => {},
    }
    lemma_record_fields(before, seq![], seq![group, metadata, word], after);
    let all = before + record.encoded(t, info_offset).unwrap() + after;
    assert(word_at(all, before.len() as int, 0, 0) == group);
    assert(word_at(all, before.len() as int, 0, 1) == metadata);
}

/// The word of a package skip holds the tag 0x03 in its top byte and below
/// it the index of the info less the offset; it is read back as a package
/// skip to that index, and resolving with the same offset gives the info
/// that was written.
pub proof fn lemma_package_skip_round_trip(info: TableCell, t: PackagedTables, info_offset: usize)
    requires
        fits_24_bits(t),
        (DescriptorLoadArguments::PackageSkip { info: TableReference::Resolved(info) }).encoded(
            t,
            info_offset,
        ) is Some,
    ensures
        ({
            let args = DescriptorLoadArguments::PackageSkip { info: TableReference::Resolved(info) };
            let word = args.encoded(t, info_offset).unwrap();
            let index = index_in(t.infos, info).unwrap();
            &&& index >= info_offset
            &&& word == 0x0300_0000u32 + (index - info_offset)
            &&& DescriptorLoadArguments::decoded(word) == Some(
                DescriptorLoadArguments::PackageSkip {
                    info: TableReference::Unresolved((index - info_offset) as usize),
                },
            )
            &&& DescriptorLoadArguments::decoded(word).unwrap().resolved(
                t.links,
                t.infos,
                t.patches,
                info_offset as int,
                false,
            ) == args
        }),
{
    let index = index_in(t.infos, info).unwrap();
    lemma_index_in(t.infos, info);
    let payload: u32 = (index - info_offset) as u32;
    assert(payload < 0x00FF_FFFF ==> (0x0300_0000u32 | payload) == 0x0300_0000u32 + payload && (
    0x0300_0000u32 | payload) >> 24 == 0x03 && (0x0300_0000u32 | payload) & 0x00FF_FFFF == payload)
        by (bit_vector);
}

/// A path of the search filesystem without a next path is written with the
/// invalid index and read back without a next path; with one, it is read
/// back with the index of that path. The folder bit is read back as it was
/// written.
pub proof fn lemma_search_path_round_trip(
    record: SearchPath,
    paths: Seq<TableCell>,
    before: Seq<u8>,
    after: Seq<u8>,
)
    requires
        paths.len() < INVALID_INDEX,
        record.full_path.is_valid(),
        record.parent.is_valid(),
        record.encoded(paths) is Some,
    ensures
        SearchPath::decoded(before + record.encoded(paths).unwrap() + after, before.len() as int)
            matches Some(read) && (record.next is Absent <==> read.next is Absent) && (
        record.folder is Absent <==> read.folder is Absent) && read.next.resolvable(paths.len())
            && read.next.resolved(paths) == record.next && read.full_path == record.full_path
            && read.parent == record.parent && read.name == record.name && read.extension
            == record.extension,
{
    let next = record.next_index(paths).unwrap();
    match record.next {
        SearchPathNextReference::Path(cell) => {
            lemma_index_in(paths, cell);
        },
        _ => {},
    }
    lemma_key_halves(record.full_path, next);
    lemma_key_halves(record.parent, record.folder_index());
    lemma_record_fields(
        before,
        seq![
            HashKey::pack(record.full_path, next).0,
            HashKey::pack(record.parent, record.folder_index()).0,
            record.name.0,
            record.extension.0,
        ],
        seq![],
        after,
    );
    let all = before + record.encoded(paths).unwrap() + after;
    assert(quad_at(all, before.len() as int, 0) == HashKey::pack(record.full_path, next).0);
    assert(quad_at(all, before.len() as int, 1) == HashKey::pack(
        record.parent,
        record.folder_index(),
    ).0);
    assert(quad_at(all, before.len() as int, 2) == record.name.0);
    assert(quad_at(all, before.len() as int, 3) == record.extension.0);
    assert(0x0040_0000usize & 0x0040_0000 != 0 && 0usize & 0x0040_0000 == 0) by (bit_vector);
}

/// A stream path is written with the index of its first link and its flag
/// word, and read back with as many links as its flag word says. Where it
/// had that many links in a row of the table, resolving gives the path that
/// was written.
pub proof fn lemma_stream_path_round_trip(
    record: StreamPathView,
    links: Seq<TableCell>,
    before: Seq<u8>,
    after: Seq<u8>,
)
    requires
        links.len() < INVALID_INDEX,
        record.full_path.is_valid(),
        !(record.is_localized && record.is_regional),
        record.encoded(links) is Some,
    ensures
        StreamPath::decoded(before + record.encoded(links).unwrap() + after, before.len() as int)
            matches Some(read) && read.full_path == record.full_path && read.is_localized
            == record.is_localized && read.is_regional == record.is_regional && read.links
            == ReferenceSetView::<std::ops::Range<usize>>::Unresolved(
            crate::engines::table::span(
                index_in(links, record.links.cells()[0]).unwrap() as usize,
                if record.is_localized {
                    14
                } else if record.is_regional {
                    5
                } else {
                    1
                },
            ),
        ),
{
    let first = record.links.cells()[0];
    let link = index_in(links, first).unwrap();
    lemma_index_in(links, first);
    lemma_key_halves(record.full_path, link as usize);
    lemma_record_fields(
        before,
        seq![HashKey::pack(record.full_path, link as usize).0],
        seq![record.flags()],
        after,
    );
    let all = before + record.encoded(links).unwrap() + after;
    assert(quad_at(all, before.len() as int, 0) == HashKey::pack(record.full_path, link as usize).0);
    assert(word_at(all, before.len() as int, 1, 0) == record.flags());
}

/// A version-group, the group without a sub-package, is written with the
/// invalid index in the place of its sub-package and read back without
/// one.
pub proof fn lemma_group_sub_package_sentinel(
    record: GroupView,
    t: PackagedTables,
    before: Seq<u8>,
    after: Seq<u8>,
)
    requires
        record.is_version_group(),
        record.encoded(t) is Some,
    ensures
        u32_at(before + record.encoded(t).unwrap() + after, before.len() as int + 24) == INVALID_INDEX32,
        Group::decoded(
            before + record.encoded(t).unwrap() + after,
            before.len() as int,
        ).unwrap().sub_package is Absent,
{
    let files = record.files_span(t).unwrap();
    lemma_record_fields(
        before,
        seq![record.archive_offset],
        seq![record.decompressed_size, record.compressed_size, files.0, files.1, INVALID_INDEX32],
        after,
    );
    let all = before + record.encoded(t).unwrap() + after;
    assert(word_at(all, before.len() as int, 1, 4) == INVALID_INDEX32);
}


/// The records of a table in the order of the table, each put through
/// `read`, which gets the record and its index.
pub open spec fn in_table_order<V>(
    records: Seq<V>,
    table: Seq<TableCell>,
    upto: nat,
    read: spec_fn(V, int) -> V,
) -> Seq<V> {
    Seq::new(upto, |i: int| read(records[table[i].slot as int], i))
}

/// Whether each of the first `upto` records of a table, written anywhere,
/// takes the width of its kind and is read back as `read` says.
pub open spec fn reads_back<T: TableRecord>(
    records: Seq<T::V>,
    table: Seq<TableCell>,
    upto: nat,
    encode: spec_fn(T::V, int) -> Option<Seq<u8>>,
    read: spec_fn(T::V, int) -> T::V,
) -> bool {
    forall|i: int, before: Seq<u8>, after: Seq<u8>|
        0 <= i < upto && encode(records[table[i].slot as int], i) is Some ==> encode(
            records[table[i].slot as int],
            i,
        ).unwrap().len() == T::width() && #[trigger] T::decoded(
            before + encode(records[table[i].slot as int], i).unwrap() + after,
            before.len() as int,
        ) == Some(read(records[table[i].slot as int], i))
}

/// A table that is written and read back holds its records in the order of
/// the table, each as it is read back: where every record of the table is
/// read back from its own bytes, the whole table is read back from the
/// bytes of the table, whatever follows them.
pub proof fn lemma_table_round_trip<T: TableRecord>(
    records: Seq<T::V>,
    table: Seq<TableCell>,
    upto: nat,
    encode: spec_fn(T::V, int) -> Option<Seq<u8>>,
    read: spec_fn(T::V, int) -> T::V,
    after: Seq<u8>,
)
    requires
        table_bytes(records, table, upto, encode) is Some,
        reads_back::<T>(records, table, upto, encode, read),
    ensures
        table_bytes(records, table, upto, encode).unwrap().len() == upto * T::width(),
        records_decoded::<T>(table_bytes(records, table, upto, encode).unwrap() + after, 0, upto)
            == Some(in_table_order(records, table, upto, read)),
    decreases upto,
{
    let all = table_bytes(records, table, upto, encode).unwrap();
    if upto == 0 {
        assert(in_table_order(records, table, upto, read) =~= Seq::<T::V>::empty());
    } else {
        let head = table_bytes(records, table, (upto - 1) as nat, encode).unwrap();
        let record = records[table[upto - 1].slot as int];
        let bytes = encode(record, upto - 1).unwrap();
        assert(all == head + bytes);
        lemma_table_round_trip::<T>(
            records,
            table,
            (upto - 1) as nat,
            encode,
            read,
            bytes + after,
        );
        assert(head + (bytes + after) =~= all + after);
        assert(T::decoded(head + bytes + after, head.len() as int) == Some(read(record, upto - 1)));
        assert(head + bytes + after =~= all + after);
        assert((upto - 1) * T::width() + T::width() == upto * T::width()) by (nonlinear_arith);
        assert(in_table_order(records, table, (upto - 1) as nat, read).push(
            read(record, upto - 1),
        ) =~= in_table_order(records, table, upto, read));
    }
}

/// A table that is written behind other bytes is read back from the place
/// where it starts, in the same way.
pub proof fn lemma_table_round_trip_at<T: TableRecord>(
    records: Seq<T::V>,
    table: Seq<TableCell>,
    upto: nat,
    encode: spec_fn(T::V, int) -> Option<Seq<u8>>,
    read: spec_fn(T::V, int) -> T::V,
    before: Seq<u8>,
    after: Seq<u8>,
)
    requires
        table_bytes(records, table, upto, encode) is Some,
        reads_back::<T>(records, table, upto, encode, read),
    ensures
        table_bytes(records, table, upto, encode).unwrap().len() == upto * T::width(),
        records_decoded::<T>(
            before + table_bytes(records, table, upto, encode).unwrap() + after,
            before.len() as int,
            upto,
        ) == Some(in_table_order(records, table, upto, read)),
    decreases upto,
{
    let all = table_bytes(records, table, upto, encode).unwrap();
    if upto == 0 {
        assert(in_table_order(records, table, upto, read) =~= Seq::<T::V>::empty());
    } else {
        let head = table_bytes(records, table, (upto - 1) as nat, encode).unwrap();
        let record = records[table[upto - 1].slot as int];
        let bytes = encode(record, upto - 1).unwrap();
        assert(all == head + bytes);
        lemma_table_round_trip_at::<T>(
            records,
            table,
            (upto - 1) as nat,
            encode,
            read,
            before,
            bytes + after,
        );
        assert(before + head + (bytes + after) =~= before + all + after);
        assert(T::decoded((before + head) + bytes + after, (before + head).len() as int) == Some(
            read(record, upto - 1),
        ));
        assert((before + head) + bytes + after =~= before + all + after);
        assert((upto - 1) * T::width() + T::width() == upto * T::width()) by (nonlinear_arith);
        assert(in_table_order(records, table, (upto - 1) as nat, read).push(
            read(record, upto - 1),
        ) =~= in_table_order(records, table, upto, read));
    }
}

/// Whether `rows` has one row for each cell of the table, and `settle`
/// turns each row into the record of its cell.
pub open spec fn settled_rows<V>(
    rows: Seq<V>,
    records: Seq<V>,
    table: Seq<TableCell>,
    settle: spec_fn(V, int) -> Option<V>,
) -> bool {
    &&& rows.len() == table.len()
    &&& forall|i: int|
        0 <= i < rows.len() ==> settle(#[trigger] rows[i], i) == Some(
            records[table[i].slot as int],
        )
}

/// Whether each of the first `upto` records of a table, written anywhere,
/// takes the width of its kind and is read back as a row that `settle`
/// turns into the record.
pub open spec fn settles_back<T: TableRecord>(
    records: Seq<T::V>,
    table: Seq<TableCell>,
    upto: nat,
    encode: spec_fn(T::V, int) -> Option<Seq<u8>>,
    settle: spec_fn(T::V, int) -> Option<T::V>,
) -> bool {
    forall|i: int, before: Seq<u8>, after: Seq<u8>|
        0 <= i < upto && encode(records[table[i].slot as int], i) is Some ==> encode(
            records[table[i].slot as int],
            i,
        ).unwrap().len() == T::width() && (#[trigger] T::decoded(
            before + encode(records[table[i].slot as int], i).unwrap() + after,
            before.len() as int,
        )) is Some && settle(
            T::decoded(
                before + encode(records[table[i].slot as int], i).unwrap() + after,
                before.len() as int,
            ).unwrap(),
            i,
        ) == Some(records[table[i].slot as int])
}

/// A table that is written and read back settles as its records: where
/// every record of the table is read back from its own bytes as a row that
/// settles as the record, the whole table is read back as rows that settle
/// as the records in the order of the table.
pub proof fn lemma_table_settles<T: TableRecord>(
    records: Seq<T::V>,
    table: Seq<TableCell>,
    upto: nat,
    encode: spec_fn(T::V, int) -> Option<Seq<u8>>,
    settle: spec_fn(T::V, int) -> Option<T::V>,
    after: Seq<u8>,
)
    requires
        upto <= table.len(),
        table_bytes(records, table, upto, encode) is Some,
        settles_back::<T>(records, table, upto, encode, settle),
    ensures
        table_bytes(records, table, upto, encode).unwrap().len() == upto * T::width(),
        records_decoded::<T>(table_bytes(records, table, upto, encode).unwrap() + after, 0, upto)
            matches Some(rows) && settled_rows(rows, records, table.subrange(0, upto as int), settle),
    decreases upto,
{
    let all = table_bytes(records, table, upto, encode).unwrap();
    if upto > 0 {
        let head = table_bytes(records, table, (upto - 1) as nat, encode).unwrap();
        let record = records[table[upto - 1].slot as int];
        let bytes = encode(record, upto - 1).unwrap();
        assert(all == head + bytes);
        lemma_table_settles::<T>(records, table, (upto - 1) as nat, encode, settle, bytes + after);
        assert(head + (bytes + after) =~= all + after);
        assert(T::decoded(head + bytes + after, head.len() as int) is Some);
        assert(head + bytes + after =~= all + after);
        assert((upto - 1) * T::width() + T::width() == upto * T::width()) by (nonlinear_arith);
        let rows = records_decoded::<T>(all + after, 0, upto).unwrap();
        let before = records_decoded::<T>(all + after, 0, (upto - 1) as nat).unwrap();
        assert(rows == before.push(T::decoded(all + after, head.len() as int).unwrap()));
        assert forall|i: int| 0 <= i < rows.len() implies settle(#[trigger] rows[i], i) == Some(
            records[table.subrange(0, upto as int)[i].slot as int],
        ) by {
            if i < upto - 1 {
                assert(rows[i] == before[i]);
                assert(table.subrange(0, upto - 1)[i] == table.subrange(0, upto as int)[i]);
            }
        }
    }
}

/// The whole of a table that is written settles as its records, where each
/// of them does.
pub proof fn lemma_whole_table_settles<T: TableRecord>(
    records: Seq<T::V>,
    table: Seq<TableCell>,
    encode: spec_fn(T::V, int) -> Option<Seq<u8>>,
    settle: spec_fn(T::V, int) -> Option<T::V>,
)
    requires
        T::width() > 0,
        table_bytes(records, table, table.len(), encode) is Some,
        settles_back::<T>(records, table, table.len(), encode, settle),
    ensures
        whole_table::<T>(table_bytes(records, table, table.len(), encode).unwrap()) matches Some(
            rows,
        ) && settled_rows(rows, records, table, settle),
{
    let bytes = table_bytes(records, table, table.len(), encode).unwrap();
    lemma_table_settles::<T>(records, table, table.len(), encode, settle, Seq::empty());
    assert(bytes + Seq::<u8>::empty() =~= bytes);
    assert(table.subrange(0, table.len() as int) =~= table);
    lemma_whole_table::<T>(bytes, table.len());
}

/// Bytes whose number is a multiple of the width of a record make a whole
/// table of that many records.
pub proof fn lemma_whole_table<T: TableRecord>(data: Seq<u8>, count: nat)
    requires
        T::width() > 0,
        data.len() == count * T::width(),
    ensures
        whole_table::<T>(data) == records_decoded::<T>(data, 0, count),
{
    let width = T::width() as int;
    assert((count * width) % width == 0 && (count * width) / width == count) by (nonlinear_arith)
        requires
            width > 0,
    ;
}

/// How a stream link is read back: with the index of its metadata in the
/// table of metadatas.
pub open spec fn stream_link_read(t: StreamTables) -> spec_fn(StreamLink, int) -> StreamLink {
    |record: StreamLink, i: int|
        StreamLink {
            metadata: TableReference::Unresolved(
                index_in(t.metadatas, record.metadata->Resolved_0).unwrap() as usize,
            ),
        }
}

} // verus!
