//! Writing the records of the packaged filesystem and reading them back.
//!
//! A record is written against the rebuilt tables, where each reference is
//! the index of its cell. Reading the bytes gives the record with those
//! indices; resolving them against the same tables gives the record that
//! was written.
use vstd::prelude::*;
use std::ops::Range;

use crate::bytes::{lemma_record_fields, quad_at, word_at};
use crate::engines::packaged::encode::{flag_bit, reference_index, set_first, set_span};
use crate::engines::packaged::types::{
    flag_set, variant_count, ChildPackage, Descriptor, DescriptorLoadArguments,
    DescriptorLoadArgumentsPatchReference, DescriptorMetadataReference, Info, InfoView, Metadata,
    Group, GroupFilesView, GroupSubPackageReference, GroupView, Link, Package, PackageView, Path,
    VersionedFile,
};
use crate::engines::packaged::serialize::{
    child_package_encoder, descriptor_encoder, group_encoder, info_encoder, link_encoder,
    metadata_encoder, package_encoder, path_encoder, write_offset_at,
};
use crate::engines::packaged::order::{
    group_rows, in_rows, info_rows, lemma_rebuilt_in_rows, package_rows,
};
use crate::engines::packaged::writer::{reorganized, WriterModel};
use crate::engines::packaged::{
    child_package_step, descriptor_step, group_step, info_step, link_step, package_step,
    path_step, PackagedCellsView,
};
use crate::engines::packaged::PackagedTables;
use crate::engines::round_trip::{
    fits_24_bits, in_table_order, lemma_index_in, lemma_key_halves, lemma_link_round_trip,
    lemma_path_round_trip, lemma_table_round_trip, lemma_whole_table, lemma_whole_table_settles,
    reads_back, settled_rows, settles_back,
};
use crate::engines::rounds::{distinct, index_in, lemma_placed_positions, placed, placed_at};
use crate::engines::table::{position, span, ReferenceSetView, TableCell};
use crate::engines::{whole_table, HashKey, TableRecord};
use crate::INVALID_INDEX32;

verus! {

/// A word with one flag more: the bit of the flag is set where the flag
/// holds, and every other bit is as it was.
pub proof fn lemma_flag_or(word: u32, set: bool, bit: u32, probe: u32)
    requires
        bit < 32,
        probe < 32,
    ensures
        flag_set(word | flag_bit(set, bit), probe) == (flag_set(word, probe) || (set && probe
            == bit)),
        flag_set(flag_bit(set, bit), probe) == (set && probe == bit),
{
    assert(bit < 32 && probe < 32 ==> (((word | (1u32 << bit)) & (1u32 << probe) != 0) <==> (probe
        == bit || (word & (1u32 << probe) != 0))) && ((1u32 << bit) & (1u32 << probe) != 0
        <==> probe == bit) && (word | 0u32) == word && 0u32 & (1u32 << probe) == 0)
        by (bit_vector);
}

/// A metadata that is written and read back is the same.
pub proof fn lemma_metadata_round_trip(record: Metadata, before: Seq<u8>, after: Seq<u8>)
    ensures
        record.encoded().len() == Metadata::width(),
        Metadata::decoded(before + record.encoded() + after, before.len() as int) == Some(record),
{
    let flags = record.flags();
    lemma_record_fields(
        before,
        seq![],
        seq![record.group_offset, record.compressed_size, record.decompressed_size, flags],
        after,
    );
    let all = before + record.encoded() + after;
    assert(word_at(all, before.len() as int, 0, 0) == record.group_offset);
    assert(word_at(all, before.len() as int, 0, 1) == record.compressed_size);
    assert(word_at(all, before.len() as int, 0, 2) == record.decompressed_size);
    assert(word_at(all, before.len() as int, 0, 3) == flags);
    let a = flag_bit(record.is_standard_zstd, 0);
    let b = a | flag_bit(record.is_compressed, 1);
    let c = b | flag_bit(record.is_regional_versioned_data, 2);
    assert forall|probe: u32| probe < 4 implies flag_set(flags, probe) == (if probe == 0 {
        record.is_standard_zstd
    } else if probe == 1 {
        record.is_compressed
    } else if probe == 2 {
        record.is_regional_versioned_data
    } else {
        record.is_localized_versioned_data
    }) by {
        lemma_flag_or(0, record.is_standard_zstd, 0, probe);
        lemma_flag_or(a, record.is_compressed, 1, probe);
        lemma_flag_or(b, record.is_regional_versioned_data, 2, probe);
        lemma_flag_or(c, record.is_localized_versioned_data, 3, probe);
    }
    assert(flag_set(flags, 0) == record.is_standard_zstd);
    assert(flag_set(flags, 1) == record.is_compressed);
    assert(flag_set(flags, 2) == record.is_regional_versioned_data);
    assert(flag_set(flags, 3) == record.is_localized_versioned_data);
}

/// A child-package entry that is written against the rebuilt tables is read
/// back with the index of its package, and resolving the index against the
/// tables gives the entry that was written.
pub proof fn lemma_child_package_round_trip(
    record: ChildPackage,
    t: PackagedTables,
    before: Seq<u8>,
    after: Seq<u8>,
)
    requires
        fits_24_bits(t),
        record.full_path.is_valid(),
        record.encoded(t) is Some,
    ensures
        record.encoded(t).unwrap().len() == ChildPackage::width(),
        ChildPackage::decoded(before + record.encoded(t).unwrap() + after, before.len() as int)
            matches Some(read) && read.resolvable(t.packages.len()) && read.resolved(t.packages)
            == record,
{
    let package = reference_index(t.packages, record.package).unwrap();
    lemma_index_in(t.packages, record.package->Resolved_0);
    lemma_key_halves(record.full_path, package as usize);
    lemma_record_fields(
        before,
        seq![HashKey::pack(record.full_path, package as usize).0],
        seq![],
        after,
    );
    let all = before + record.encoded(t).unwrap() + after;
    assert(quad_at(all, before.len() as int, 0) == HashKey::pack(
        record.full_path,
        package as usize,
    ).0);
}

/// A set of cells that a table without doubles holds in a row is the range
/// of the table that starts at the index of its first cell.
pub proof fn lemma_row(table: Seq<TableCell>, cells: Seq<TableCell>)
    requires
        table.len() <= u32::MAX,
        distinct(table),
        placed(table, cells),
        cells.len() > 0,
    ensures
        index_in(table, cells[0]) matches Some(start) && start + cells.len() <= table.len()
            && table.subrange(start as int, start + cells.len()) == cells,
{
    let at = choose|at: int| #[trigger] placed_at(table, cells, at);
    lemma_placed_positions(table, cells, at);
    assert(position(table, cells[0]) == at + 0);
    assert(table.subrange(at, at + cells.len()) =~= cells);
}

/// A set of cells that is written as the index of its first cell and its
/// length is read back as a range that resolves to the set.
pub proof fn lemma_span_round_trip(table: Seq<TableCell>, set: ReferenceSetView<Range<usize>>)
    requires
        table.len() <= u32::MAX,
        distinct(table),
        set matches ReferenceSetView::Resolved(cells) && placed(table, cells),
        set_span(table, set) is Some,
    ensures
        ({
            let found = set_span(table, set).unwrap();
            let read = ReferenceSetView::<Range<usize>>::Unresolved(
                span(found.0 as usize, found.1 as usize),
            );
            &&& read.resolvable(table.len(), 0)
            &&& read.resolved_with(table, 0) == set
        }),
{
    let cells = set->Resolved_0;
    if cells.len() > 0 {
        lemma_row(table, cells);
    } else {
        assert(table.subrange(0, 0) =~= cells);
    }
}


/// An info whose descriptors stand in a row in their table, as many as its
/// flags say, is read back with the indices of its path, of its link and
/// of its first descriptor, and resolving them against the tables gives the
/// info that was written.
pub proof fn lemma_info_round_trip(
    record: InfoView,
    t: PackagedTables,
    before: Seq<u8>,
    after: Seq<u8>,
)
    requires
        fits_24_bits(t),
        distinct(t.descriptors),
        record.descriptors matches ReferenceSetView::Resolved(cells) && placed(t.descriptors, cells)
            && cells.len() == variant_count(record.is_localized, record.is_regional),
        record.encoded(t) is Some,
    ensures
        record.encoded(t).unwrap().len() == Info::width(),
        Info::decoded(before + record.encoded(t).unwrap() + after, before.len() as int)
            matches Some(read) && read.resolvable(
            t.paths.len(),
            t.links.len(),
            t.descriptors.len(),
        ) && read.resolved(t.paths, t.links, t.descriptors) == record,
{
    let path = reference_index(t.paths, record.path).unwrap();
    let link = reference_index(t.links, record.link).unwrap();
    let descriptor = set_first(t.descriptors, record.descriptors).unwrap();
    let flags = record.flags();
    lemma_index_in(t.paths, record.path->Resolved_0);
    lemma_index_in(t.links, record.link->Resolved_0);
    lemma_row(t.descriptors, record.descriptors->Resolved_0);
    lemma_record_fields(before, seq![], seq![path, link, descriptor, flags], after);
    let all = before + record.encoded(t).unwrap() + after;
    assert(word_at(all, before.len() as int, 0, 0) == path);
    assert(word_at(all, before.len() as int, 0, 1) == link);
    assert(word_at(all, before.len() as int, 0, 2) == descriptor);
    assert(word_at(all, before.len() as int, 0, 3) == flags);
    let a = flag_bit(record.is_regular_file, 4);
    let b = a | flag_bit(record.is_graphics_archive, 12);
    let c = b | flag_bit(record.is_localized, 15);
    let d = c | flag_bit(record.is_regional, 16);
    let e = d | flag_bit(record.is_shared, 20);
    assert forall|probe: u32| probe < 32 implies flag_set(flags, probe) == (if probe == 4 {
        record.is_regular_file
    } else if probe == 12 {
        record.is_graphics_archive
    } else if probe == 15 {
        record.is_localized
    } else if probe == 16 {
        record.is_regional
    } else if probe == 20 {
        record.is_shared
    } else if probe == 21 {
        record.is_unknown_flag
    } else {
        false
    }) by {
        lemma_flag_or(0, record.is_regular_file, 4, probe);
        lemma_flag_or(a, record.is_graphics_archive, 12, probe);
        lemma_flag_or(b, record.is_localized, 15, probe);
        lemma_flag_or(c, record.is_regional, 16, probe);
        lemma_flag_or(d, record.is_shared, 20, probe);
        lemma_flag_or(e, record.is_unknown_flag, 21, probe);
    }
    assert(flag_set(flags, 4) == record.is_regular_file);
    assert(flag_set(flags, 12) == record.is_graphics_archive);
    assert(flag_set(flags, 15) == record.is_localized);
    assert(flag_set(flags, 16) == record.is_regional);
    assert(flag_set(flags, 20) == record.is_shared);
    assert(flag_set(flags, 21) == record.is_unknown_flag);
}

/// A package whose groups, infos and child-package entries stand in rows in
/// their tables, the groups as many as its flags say, is read back with the
/// ranges of the three, and resolving them against the tables gives the
/// package that was written.
pub proof fn lemma_package_round_trip(
    record: PackageView,
    t: PackagedTables,
    before: Seq<u8>,
    after: Seq<u8>,
)
    requires
        fits_24_bits(t),
        record.full_path.is_valid(),
        distinct(t.groups),
        distinct(t.infos),
        distinct(t.child_packages),
        record.groups matches ReferenceSetView::Resolved(cells) && placed(t.groups, cells)
            && cells.len() == variant_count(record.is_localized, record.is_regional),
        record.infos matches ReferenceSetView::Resolved(cells) && placed(t.infos, cells),
        record.child_packages matches ReferenceSetView::Resolved(cells) && placed(
            t.child_packages,
            cells,
        ),
        record.encoded(t) is Some,
    ensures
        record.encoded(t).unwrap().len() == Package::width(),
        Package::decoded(before + record.encoded(t).unwrap() + after, before.len() as int)
            matches Some(read) && read.resolvable(
            t.groups.len(),
            t.infos.len(),
            t.child_packages.len(),
        ) && read.resolved(t.groups, t.infos, t.child_packages) == record,
{
    let group = set_first(t.groups, record.groups).unwrap();
    let infos = set_span(t.infos, record.infos).unwrap();
    let children = set_span(t.child_packages, record.child_packages).unwrap();
    let flags = record.flags();
    lemma_row(t.groups, record.groups->Resolved_0);
    lemma_span_round_trip(t.infos, record.infos);
    lemma_span_round_trip(t.child_packages, record.child_packages);
    lemma_key_halves(record.full_path, group as usize);
    lemma_record_fields(
        before,
        seq![
            HashKey::pack(record.full_path, group as usize).0,
            record.name.0,
            record.parent.0,
            record.lifetime.0,
        ],
        seq![infos.0, infos.1, children.0, children.1, flags],
        after,
    );
    let all = before + record.encoded(t).unwrap() + after;
    let base = before.len() as int;
    assert(quad_at(all, base, 0) == HashKey::pack(record.full_path, group as usize).0);
    assert(quad_at(all, base, 1) == record.name.0);
    assert(quad_at(all, base, 2) == record.parent.0);
    assert(quad_at(all, base, 3) == record.lifetime.0);
    assert(word_at(all, base, 4, 0) == infos.0);
    assert(word_at(all, base, 4, 1) == infos.1);
    assert(word_at(all, base, 4, 2) == children.0);
    assert(word_at(all, base, 4, 3) == children.1);
    assert(word_at(all, base, 4, 4) == flags);
    let a = flag_bit(record.is_localized, 24);
    let b = a | flag_bit(record.is_regional, 25);
    let c = b | flag_bit(record.has_sub_package, 26);
    let d = c | flag_bit(record.sym_link_is_regional, 27);
    assert forall|probe: u32| 24 <= probe < 29 implies flag_set(flags, probe) == (if probe == 24 {
        record.is_localized
    } else if probe == 25 {
        record.is_regional
    } else if probe == 26 {
        record.has_sub_package
    } else if probe == 27 {
        record.sym_link_is_regional
    } else {
        record.is_sym_link
    }) by {
        lemma_flag_or(0, record.is_localized, 24, probe);
        lemma_flag_or(a, record.is_regional, 25, probe);
        lemma_flag_or(b, record.has_sub_package, 26, probe);
        lemma_flag_or(c, record.sym_link_is_regional, 27, probe);
        lemma_flag_or(d, record.is_sym_link, 28, probe);
    }
    assert(flag_set(flags, 24) == record.is_localized);
    assert(flag_set(flags, 25) == record.is_regional);
    assert(flag_set(flags, 26) == record.has_sub_package);
    assert(flag_set(flags, 27) == record.sym_link_is_regional);
    assert(flag_set(flags, 28) == record.is_sym_link);
}

/// A versioned file is read back with the indices of its info and of its
/// link and with the flag that says whether it changed, and resolving the
/// indices against the tables gives the file that was written. The index
/// of the group of its patch is written between the two and is not read.
pub proof fn lemma_versioned_file_round_trip(
    record: VersionedFile,
    t: PackagedTables,
    group_index: u32,
    before: Seq<u8>,
    after: Seq<u8>,
)
    requires
        fits_24_bits(t),
        record.path.is_valid(),
        record.encoded(t, group_index) is Some,
    ensures
        record.encoded(t, group_index).unwrap().len() == VersionedFile::width(),
        VersionedFile::decoded(
            before + record.encoded(t, group_index).unwrap() + after,
            before.len() as int,
        ) matches Some(read) && read.changed_this_patch == record.changed_this_patch
            && read.resolvable(t.links.len(), t.infos.len()) && read.resolved(t.links, t.infos)
            == record,
{
    let info = reference_index(t.infos, record.info).unwrap();
    let link = reference_index(t.links, record.link).unwrap();
    lemma_index_in(t.infos, record.info->Resolved_0);
    lemma_index_in(t.links, record.link->Resolved_0);
    lemma_key_halves(record.path, record.changed_index());
    lemma_record_fields(
        before,
        seq![HashKey::pack(record.path, record.changed_index()).0],
        seq![info, group_index, link],
        after,
    );
    let all = before + record.encoded(t, group_index).unwrap() + after;
    let base = before.len() as int;
    assert(quad_at(all, base, 0) == HashKey::pack(record.path, record.changed_index()).0);
    assert(word_at(all, base, 1, 0) == info);
    assert(word_at(all, base, 1, 2) == link);
}

/// Whether the load arguments are read back as they are written: the
/// reference of owned data names a patch exactly where the descriptor
/// belongs to a versioned file, and the number of an unsupported region
/// fits the 24 bits of the payload.
pub open spec fn load_arguments_keep(args: DescriptorLoadArguments, is_versioned_descriptor: bool)
    -> bool {
    match args {
        DescriptorLoadArguments::Owned { patch } => match patch {
            DescriptorLoadArgumentsPatchReference::Patch(_) => is_versioned_descriptor,
            DescriptorLoadArgumentsPatchReference::Absent => !is_versioned_descriptor,
            DescriptorLoadArgumentsPatchReference::Unresolved(_) => false,
        },
        DescriptorLoadArguments::UnsupportedRegion { region_locale } => 0 <= region_locale
            <= 0x00FF_FFFF,
        _ => true,
    }
}

/// The word of load arguments is read back as load arguments with the
/// indices that were written, and resolving them against the tables gives
/// the load arguments that were written.
pub proof fn lemma_load_arguments_round_trip(
    args: DescriptorLoadArguments,
    t: PackagedTables,
    info_offset: usize,
    is_versioned_descriptor: bool,
)
    requires
        fits_24_bits(t),
        load_arguments_keep(args, is_versioned_descriptor),
        args.encoded(t, info_offset) is Some,
    ensures
        DescriptorLoadArguments::decoded(args.encoded(t, info_offset).unwrap()) matches Some(read)
            && read.resolvable(
            t.links.len(),
            t.infos.len(),
            t.patches.len(),
            info_offset as int,
            is_versioned_descriptor,
        ) && read.resolved(
            t.links,
            t.infos,
            t.patches,
            info_offset as int,
            is_versioned_descriptor,
        ) == args,
{
    let word = args.encoded(t, info_offset).unwrap();
    let payload: u32 = match args {
        DescriptorLoadArguments::Unowned { link } => {
            lemma_index_in(t.links, link->Resolved_0);
            reference_index(t.links, link).unwrap()
        },
        DescriptorLoadArguments::Owned { patch } => match patch {
            DescriptorLoadArgumentsPatchReference::Patch(cell) => {
                lemma_index_in(t.patches, cell);
                index_in(t.patches, cell).unwrap()
            },
            _ => 0,
        },
        DescriptorLoadArguments::PackageSkip { info } => {
            lemma_index_in(t.infos, info->Resolved_0);
            (reference_index(t.infos, info).unwrap() - info_offset) as u32
        },
        DescriptorLoadArguments::Unknown => 0,
        DescriptorLoadArguments::SharedButOwned { link } => {
            lemma_index_in(t.links, link->Resolved_0);
            reference_index(t.links, link).unwrap()
        },
        DescriptorLoadArguments::UnsupportedRegion { region_locale } => region_locale as u32,
    };
    assert(payload <= 0x00FF_FFFF ==> (payload & 0x00FF_FFFF) == payload && payload >> 24 == 0 && (
    0x0100_0000u32 | (payload & 0x00FF_FFFF)) >> 24 == 0x01 && (0x0100_0000u32 | (payload
        & 0x00FF_FFFF)) & 0x00FF_FFFF == payload && (0x0300_0000u32 | payload) >> 24 == 0x03 && (
    0x0300_0000u32 | payload) & 0x00FF_FFFF == payload && ((payload & 0x00FF_FFFF)
        | 0x0900_0000u32) >> 24 == 0x09 && ((payload & 0x00FF_FFFF) | 0x0900_0000u32)
        & 0x00FF_FFFF == payload && (0x1000_0000u32 | payload) >> 24 == 0x10 && (0x1000_0000u32
        | payload) & 0x00FF_FFFF == payload && 0x0100_0000u32 >> 24 == 0x01 && 0x0100_0000u32
        & 0x00FF_FFFF == 0 && 0x0500_0000u32 >> 24 == 0x05) by (bit_vector);
}

/// A descriptor is read back with the indices of its group and of its
/// metadata and with its load arguments, and resolving them against the
/// tables gives the descriptor that was written.
pub proof fn lemma_descriptor_round_trip(
    record: Descriptor,
    t: PackagedTables,
    info_offset: usize,
    is_versioned_descriptor: bool,
    before: Seq<u8>,
    after: Seq<u8>,
)
    requires
        fits_24_bits(t),
        !(record.metadata is Unresolved),
        load_arguments_keep(record.load_args, is_versioned_descriptor),
        record.encoded(t, info_offset) is Some,
    ensures
        record.encoded(t, info_offset).unwrap().len() == Descriptor::width(),
        Descriptor::decoded(
            before + record.encoded(t, info_offset).unwrap() + after,
            before.len() as int,
        ) matches Some(read) && read.resolvable(
            t.groups.len(),
            t.links.len(),
            t.infos.len(),
            t.metadatas.len(),
            t.patches.len(),
            info_offset as int,
            is_versioned_descriptor,
        ) && read.resolved(
            t.groups,
            t.links,
            t.infos,
            t.metadatas,
            t.patches,
            info_offset as int,
            is_versioned_descriptor,
        ) == record,
{
    let group = reference_index(t.groups, record.group).unwrap();
    let metadata = record.metadata_index(t).unwrap();
    let word = record.load_args.encoded(t, info_offset).unwrap();
    lemma_index_in(t.groups, record.group->Resolved_0);
    match record.metadata {
        DescriptorMetadataReference::Metadata(cell) => {
            lemma_index_in(t.metadatas, cell);
        },
        _ => {},
    }
    lemma_load_arguments_round_trip(record.load_args, t, info_offset, is_versioned_descriptor);
    lemma_record_fields(before, seq![], seq![group, metadata, word], after);
    let all = before + record.encoded(t, info_offset).unwrap() + after;
    let base = before.len() as int;
    assert(word_at(all, base, 0, 0) == group);
    assert(word_at(all, base, 0, 1) == metadata);
    assert(word_at(all, base, 0, 2) == word);
}

/// Whether a group at the index `self_index` is read back as it is
/// written. A version-group is. An info-group that is none names itself as
/// its sub-package. A metadata-group names a package or a group at an
/// index that is not its own; a group that it names has an index that no
/// package has.
pub open spec fn group_keeps(record: GroupView, t: PackagedTables, self_index: usize) -> bool {
    match record.files {
        GroupFilesView::Info(set) => {
            &&& set matches ReferenceSetView::Resolved(cells) && placed(t.infos, cells)
            &&& match record.sub_package {
                GroupSubPackageReference::Absent => true,
                GroupSubPackageReference::Group(group) => index_in(t.groups, group) matches Some(
                    index,
                ) && index == self_index,
                _ => false,
            }
        },
        GroupFilesView::Metadata(set) => {
            &&& set matches ReferenceSetView::Resolved(cells) && placed(t.metadatas, cells)
            &&& match record.sub_package {
                GroupSubPackageReference::Group(group) => index_in(t.groups, group) matches Some(
                    index,
                ) && index != self_index && index >= t.packages.len(),
                GroupSubPackageReference::Package(package) => index_in(
                    t.packages,
                    package,
                ) matches Some(index) && index != self_index,
                _ => false,
            }
        },
        GroupFilesView::Unresolved(_) => false,
    }
}

/// How a group that is read is classified. A group is an info-group
/// exactly when the place of its sub-package holds the invalid index or
/// the group's own index, and a metadata-group when it holds any other;
/// it is a version-group exactly when that place holds the invalid index.
/// The range of its files is resolved against the infos for an info-group
/// and against the metadatas for a metadata-group.
pub proof fn lemma_group_classification(
    data: Seq<u8>,
    off: int,
    packages: Seq<TableCell>,
    groups: Seq<TableCell>,
    infos: Seq<TableCell>,
    metadatas: Seq<TableCell>,
    self_index: usize,
)
    ensures
        ({
            let field = crate::bytes::u32_at(data, off + 24);
            let group = Group::decoded(data, off).unwrap().resolved(
                packages,
                groups,
                infos,
                metadatas,
                self_index,
            );
            &&& group.is_info_group() <==> field == INVALID_INDEX32 || field == self_index
            &&& group.is_metadata_group() <==> !(field == INVALID_INDEX32 || field == self_index)
            &&& group.is_version_group() <==> field == INVALID_INDEX32
            &&& field == INVALID_INDEX32 <==> group.sub_package is Absent
            &&& field != INVALID_INDEX32 && field == self_index ==> group.sub_package
                == GroupSubPackageReference::Group(groups[self_index as int])
        }),
{
}

/// A group that keeps is read back with the range of its files and the
/// index of its sub-package, and resolving them against the tables gives
/// the group that was written.
pub proof fn lemma_group_round_trip(
    record: GroupView,
    t: PackagedTables,
    self_index: usize,
    before: Seq<u8>,
    after: Seq<u8>,
)
    requires
        fits_24_bits(t),
        distinct(t.infos),
        distinct(t.metadatas),
        group_keeps(record, t, self_index),
        record.encoded(t) is Some,
    ensures
        record.encoded(t).unwrap().len() == Group::width(),
        Group::decoded(before + record.encoded(t).unwrap() + after, before.len() as int)
            matches Some(read) && read.resolvable(
            t.packages.len(),
            t.groups.len(),
            t.infos.len(),
            t.metadatas.len(),
            self_index,
        ) && read.resolved(t.packages, t.groups, t.infos, t.metadatas, self_index) == record,
{
    let files = record.files_span(t).unwrap();
    let sub_package = record.sub_package_index(t).unwrap();
    match record.files {
        GroupFilesView::Info(set) => {
            lemma_span_round_trip(t.infos, set);
        },
        GroupFilesView::Metadata(set) => {
            lemma_span_round_trip(t.metadatas, set);
        },
        _ => {},
    }
    match record.sub_package {
        GroupSubPackageReference::Group(group) => {
            lemma_index_in(t.groups, group);
        },
        GroupSubPackageReference::Package(package) => {
            lemma_index_in(t.packages, package);
        },
        _ => {},
    }
    lemma_record_fields(
        before,
        seq![record.archive_offset],
        seq![record.decompressed_size, record.compressed_size, files.0, files.1, sub_package],
        after,
    );
    let all = before + record.encoded(t).unwrap() + after;
    let base = before.len() as int;
    assert(quad_at(all, base, 0) == record.archive_offset);
    assert(word_at(all, base, 1, 0) == record.decompressed_size);
    assert(word_at(all, base, 1, 1) == record.compressed_size);
    assert(word_at(all, base, 1, 2) == files.0);
    assert(word_at(all, base, 1, 3) == files.1);
    assert(word_at(all, base, 1, 4) == sub_package);
}


/// Whether a package is read back as it is written: its hash fits 40 bits,
/// and its groups, infos and child-package entries stand in rows in their
/// tables, the groups as many as its flags say.
pub open spec fn package_keeps(record: PackageView, t: PackagedTables) -> bool {
    &&& record.full_path.is_valid()
    &&& record.groups matches ReferenceSetView::Resolved(cells) && placed(t.groups, cells)
        && cells.len() == variant_count(record.is_localized, record.is_regional)
    &&& record.infos matches ReferenceSetView::Resolved(cells) && placed(t.infos, cells)
    &&& record.child_packages matches ReferenceSetView::Resolved(cells) && placed(
        t.child_packages,
        cells,
    )
}

/// Whether an info is read back as it is written: its descriptors stand in
/// a row in their table, as many as its flags say.
pub open spec fn info_keeps(record: InfoView, t: PackagedTables) -> bool {
    record.descriptors matches ReferenceSetView::Resolved(cells) && placed(t.descriptors, cells)
        && cells.len() == variant_count(record.is_localized, record.is_regional)
}

/// Whether a path is read back as it is written: its hashes fit 40 bits.
pub open spec fn path_keeps(record: Path) -> bool {
    record.full_path.is_valid() && record.extension.is_valid() && !(record.versioned_file
        is Unresolved)
}

/// How a descriptor that was read at an index settles against the tables
/// that were written: resolved with the offset with which the descriptor
/// at that index is written, as the descriptor of a versioned file where
/// `is_versioned` says so.
pub open spec fn descriptor_settle(
    t: PackagedTables,
    boundary: usize,
    offset: usize,
    is_versioned: spec_fn(int) -> bool,
) -> spec_fn(Descriptor, int) -> Option<Descriptor> {
    |read: Descriptor, index: int|
        descriptor_step(
            t.groups,
            t.links,
            t.infos,
            t.metadatas,
            t.patches,
            write_offset_at(index, boundary, offset),
            is_versioned(index),
        )(read, index)
}

/// Whether every record of the rebuilt tables is read back as it is
/// written.
pub open spec fn tables_keep(
    t: PackagedTables,
    c: PackagedCellsView,
    is_versioned: spec_fn(int) -> bool,
) -> bool {
    &&& fits_24_bits(t)
    &&& distinct(t.groups)
    &&& distinct(t.infos)
    &&& distinct(t.child_packages)
    &&& distinct(t.descriptors)
    &&& distinct(t.metadatas)
    &&& forall|i: int|
        0 <= i < t.packages.len() ==> package_keeps(
            c.packages[(#[trigger] t.packages[i]).slot as int],
            t,
        )
    &&& forall|i: int|
        0 <= i < t.child_packages.len() ==> c.child_packages[(
        #[trigger] t.child_packages[i]).slot as int].full_path.is_valid()
    &&& forall|i: int|
        0 <= i < t.groups.len() ==> group_keeps(
            c.groups[(#[trigger] t.groups[i]).slot as int],
            t,
            i as usize,
        )
    &&& forall|i: int| 0 <= i < t.paths.len() ==> path_keeps(c.paths[(#[trigger] t.paths[i]).slot as int])
    &&& forall|i: int|
        0 <= i < t.infos.len() ==> info_keeps(c.infos[(#[trigger] t.infos[i]).slot as int], t)
    &&& forall|i: int|
        0 <= i < t.descriptors.len() ==> {
            let record = c.descriptors[(#[trigger] t.descriptors[i]).slot as int];
            !(record.metadata is Unresolved) && load_arguments_keep(
                record.load_args,
                is_versioned(i),
            )
        }
}

/// Every package of the tables, written anywhere, is read back as a row that
/// settles as the package.
pub proof fn lemma_packages_settle(t: PackagedTables, c: PackagedCellsView, is_versioned: spec_fn(int) -> bool)
    requires
        tables_keep(t, c, is_versioned),
    ensures
        settles_back::<Package>(c.packages, t.packages, t.packages.len(), package_encoder(t), package_step(t.groups, t.infos, t.child_packages)),
{
    let encode = package_encoder(t);
    let settle = package_step(t.groups, t.infos, t.child_packages);
    assert forall|i: int, before: Seq<u8>, after: Seq<u8>|
        0 <= i < t.packages.len() && encode(c.packages[t.packages[i].slot as int], i)
            is Some implies encode(c.packages[t.packages[i].slot as int], i).unwrap().len()
        == Package::width() && (#[trigger] Package::decoded(
        before + encode(c.packages[t.packages[i].slot as int], i).unwrap() + after,
        before.len() as int,
    )) is Some && settle(
        Package::decoded(
            before + encode(c.packages[t.packages[i].slot as int], i).unwrap() + after,
            before.len() as int,
        ).unwrap(),
        i,
    ) == Some(c.packages[t.packages[i].slot as int]) by {
        let record = c.packages[t.packages[i].slot as int];
        assert(package_keeps(record, t));
        lemma_package_round_trip(record, t, before, after);
    }
}

/// Every child-package entry of the tables, written anywhere, is read back
/// as a row that settles as the entry.
pub proof fn lemma_child_packages_settle(t: PackagedTables, c: PackagedCellsView, is_versioned: spec_fn(int) -> bool)
    requires
        tables_keep(t, c, is_versioned),
    ensures
        settles_back::<ChildPackage>(c.child_packages, t.child_packages, t.child_packages.len(), child_package_encoder(t), child_package_step(t.packages)),
{
    let encode = child_package_encoder(t);
    let settle = child_package_step(t.packages);
    assert forall|i: int, before: Seq<u8>, after: Seq<u8>|
        0 <= i < t.child_packages.len() && encode(c.child_packages[t.child_packages[i].slot as int], i)
            is Some implies encode(c.child_packages[t.child_packages[i].slot as int], i).unwrap().len()
        == ChildPackage::width() && (#[trigger] ChildPackage::decoded(
        before + encode(c.child_packages[t.child_packages[i].slot as int], i).unwrap() + after,
        before.len() as int,
    )) is Some && settle(
        ChildPackage::decoded(
            before + encode(c.child_packages[t.child_packages[i].slot as int], i).unwrap() + after,
            before.len() as int,
        ).unwrap(),
        i,
    ) == Some(c.child_packages[t.child_packages[i].slot as int]) by {
        let record = c.child_packages[t.child_packages[i].slot as int];
        assert(record.full_path.is_valid());
        lemma_child_package_round_trip(record, t, before, after);
    }
}

/// Every group of the tables, written anywhere, is read back as a row that
/// settles as the group.
pub proof fn lemma_groups_settle(t: PackagedTables, c: PackagedCellsView, is_versioned: spec_fn(int) -> bool)
    requires
        tables_keep(t, c, is_versioned),
    ensures
        settles_back::<Group>(c.groups, t.groups, t.groups.len(), group_encoder(t), group_step(t.packages, t.groups, t.infos, t.metadatas)),
{
    let encode = group_encoder(t);
    let settle = group_step(t.packages, t.groups, t.infos, t.metadatas);
    assert forall|i: int, before: Seq<u8>, after: Seq<u8>|
        0 <= i < t.groups.len() && encode(c.groups[t.groups[i].slot as int], i)
            is Some implies encode(c.groups[t.groups[i].slot as int], i).unwrap().len()
        == Group::width() && (#[trigger] Group::decoded(
        before + encode(c.groups[t.groups[i].slot as int], i).unwrap() + after,
        before.len() as int,
    )) is Some && settle(
        Group::decoded(
            before + encode(c.groups[t.groups[i].slot as int], i).unwrap() + after,
            before.len() as int,
        ).unwrap(),
        i,
    ) == Some(c.groups[t.groups[i].slot as int]) by {
        let record = c.groups[t.groups[i].slot as int];
        assert(group_keeps(record, t, i as usize));
        lemma_group_round_trip(record, t, i as usize, before, after);
    }
}

/// Every path of the tables, written anywhere, is read back as a row that
/// settles as the path.
pub proof fn lemma_paths_settle(t: PackagedTables, c: PackagedCellsView, is_versioned: spec_fn(int) -> bool, last_patch_files_start: usize)
    requires
        tables_keep(t, c, is_versioned),
    ensures
        settles_back::<Path>(c.paths, t.paths, t.paths.len(), path_encoder(t, last_patch_files_start), path_step(t.links, t.versioned_files, last_patch_files_start)),
{
    let encode = path_encoder(t, last_patch_files_start);
    let settle = path_step(t.links, t.versioned_files, last_patch_files_start);
    assert forall|i: int, before: Seq<u8>, after: Seq<u8>|
        0 <= i < t.paths.len() && encode(c.paths[t.paths[i].slot as int], i)
            is Some implies encode(c.paths[t.paths[i].slot as int], i).unwrap().len()
        == Path::width() && (#[trigger] Path::decoded(
        before + encode(c.paths[t.paths[i].slot as int], i).unwrap() + after,
        before.len() as int,
    )) is Some && settle(
        Path::decoded(
            before + encode(c.paths[t.paths[i].slot as int], i).unwrap() + after,
            before.len() as int,
        ).unwrap(),
        i,
    ) == Some(c.paths[t.paths[i].slot as int]) by {
        let record = c.paths[t.paths[i].slot as int];
        assert(path_keeps(record));
        lemma_path_round_trip(record, t, last_patch_files_start, before, after);
        lemma_record_fields(
            before,
            seq![
                HashKey::pack(
                    record.full_path,
                    reference_index(t.links, record.link).unwrap() as usize,
                ).0,
                HashKey::pack(
                    record.extension,
                    record.versioned_index(t, last_patch_files_start).unwrap(),
                ).0,
                record.parent.0,
                record.file_name.0,
            ],
            seq![],
            after,
        );
    }
}

/// Every link of the tables, written anywhere, is read back as a row that
/// settles as the link.
pub proof fn lemma_links_settle(t: PackagedTables, c: PackagedCellsView, is_versioned: spec_fn(int) -> bool)
    requires
        tables_keep(t, c, is_versioned),
    ensures
        settles_back::<Link>(c.links, t.links, t.links.len(), link_encoder(t), link_step(t.packages, t.groups, t.infos)),
{
    let encode = link_encoder(t);
    let settle = link_step(t.packages, t.groups, t.infos);
    assert forall|i: int, before: Seq<u8>, after: Seq<u8>|
        0 <= i < t.links.len() && encode(c.links[t.links[i].slot as int], i)
            is Some implies encode(c.links[t.links[i].slot as int], i).unwrap().len()
        == Link::width() && (#[trigger] Link::decoded(
        before + encode(c.links[t.links[i].slot as int], i).unwrap() + after,
        before.len() as int,
    )) is Some && settle(
        Link::decoded(
            before + encode(c.links[t.links[i].slot as int], i).unwrap() + after,
            before.len() as int,
        ).unwrap(),
        i,
    ) == Some(c.links[t.links[i].slot as int]) by {
        let record = c.links[t.links[i].slot as int];
        lemma_link_round_trip(record, t, before, after);
        lemma_record_fields(
            before,
            seq![],
            seq![record.owner_index(t).unwrap(), reference_index(t.infos, record.info).unwrap()],
            after,
        );
    }
}

/// Every info of the tables, written anywhere, is read back as a row that
/// settles as the info.
pub proof fn lemma_infos_settle(t: PackagedTables, c: PackagedCellsView, is_versioned: spec_fn(int) -> bool)
    requires
        tables_keep(t, c, is_versioned),
    ensures
        settles_back::<Info>(c.infos, t.infos, t.infos.len(), info_encoder(t), info_step(t.paths, t.links, t.descriptors)),
{
    let encode = info_encoder(t);
    let settle = info_step(t.paths, t.links, t.descriptors);
    assert forall|i: int, before: Seq<u8>, after: Seq<u8>|
        0 <= i < t.infos.len() && encode(c.infos[t.infos[i].slot as int], i)
            is Some implies encode(c.infos[t.infos[i].slot as int], i).unwrap().len()
        == Info::width() && (#[trigger] Info::decoded(
        before + encode(c.infos[t.infos[i].slot as int], i).unwrap() + after,
        before.len() as int,
    )) is Some && settle(
        Info::decoded(
            before + encode(c.infos[t.infos[i].slot as int], i).unwrap() + after,
            before.len() as int,
        ).unwrap(),
        i,
    ) == Some(c.infos[t.infos[i].slot as int]) by {
        let record = c.infos[t.infos[i].slot as int];
        assert(info_keeps(record, t));
        lemma_info_round_trip(record, t, before, after);
    }
}

/// Every descriptor of the tables, written anywhere, is read back as a row
/// that settles as the descriptor.
pub proof fn lemma_descriptors_settle(t: PackagedTables, c: PackagedCellsView, is_versioned: spec_fn(int) -> bool, boundary: usize, offset: usize)
    requires
        tables_keep(t, c, is_versioned),
    ensures
        settles_back::<Descriptor>(c.descriptors, t.descriptors, t.descriptors.len(), descriptor_encoder(t, boundary, offset), descriptor_settle(t, boundary, offset, is_versioned)),
{
    let encode = descriptor_encoder(t, boundary, offset);
    let settle = descriptor_settle(t, boundary, offset, is_versioned);
    assert forall|i: int, before: Seq<u8>, after: Seq<u8>|
        0 <= i < t.descriptors.len() && encode(c.descriptors[t.descriptors[i].slot as int], i)
            is Some implies encode(c.descriptors[t.descriptors[i].slot as int], i).unwrap().len()
        == Descriptor::width() && (#[trigger] Descriptor::decoded(
        before + encode(c.descriptors[t.descriptors[i].slot as int], i).unwrap() + after,
        before.len() as int,
    )) is Some && settle(
        Descriptor::decoded(
            before + encode(c.descriptors[t.descriptors[i].slot as int], i).unwrap() + after,
            before.len() as int,
        ).unwrap(),
        i,
    ) == Some(c.descriptors[t.descriptors[i].slot as int]) by {
        let record = c.descriptors[t.descriptors[i].slot as int];
        assert(load_arguments_keep(record.load_args, is_versioned(i)));
        lemma_descriptor_round_trip(
            record,
            t,
            write_offset_at(i, boundary, offset),
            is_versioned(i),
            before,
            after,
        );
    }
}

/// Every metadata of the tables, written anywhere, is read back as it is.
pub proof fn lemma_metadatas_read_back(t: PackagedTables, c: PackagedCellsView)
    ensures
        reads_back::<Metadata>(
            c.metadatas,
            t.metadatas,
            t.metadatas.len(),
            metadata_encoder(),
            metadata_read(),
        ),
{
    let encode = metadata_encoder();
    let read = metadata_read();
    assert forall|i: int, before: Seq<u8>, after: Seq<u8>|
        0 <= i < t.metadatas.len() && encode(c.metadatas[t.metadatas[i].slot as int], i)
            is Some implies encode(c.metadatas[t.metadatas[i].slot as int], i).unwrap().len()
        == Metadata::width() && #[trigger] Metadata::decoded(
        before + encode(c.metadatas[t.metadatas[i].slot as int], i).unwrap() + after,
        before.len() as int,
    ) == Some(read(c.metadatas[t.metadatas[i].slot as int], i)) by {
        lemma_metadata_round_trip(c.metadatas[t.metadatas[i].slot as int], before, after);
    }
}

/// How a metadata is read back: as it is.
pub open spec fn metadata_read() -> spec_fn(Metadata, int) -> Metadata {
    |record: Metadata, i: int| record
}

/// The tables of records that are written to a directory are read back as
/// rows that settle as the records that were written, table by table: a
/// row settles by resolving its indices against the tables that were
/// written, as the engine does when it resolves.
pub proof fn lemma_tables_read_back(writer: WriterModel, is_versioned: spec_fn(int) -> bool)
    requires
        tables_keep(writer.tables, writer.cells, is_versioned),
        writer.directory_tables() is Some,
    ensures
        ({
            let t = writer.tables;
            let c = writer.cells;
            let written = writer.directory_tables().unwrap();
            &&& whole_table::<Package>(written.packages) matches Some(rows) && settled_rows(
                rows,
                c.packages,
                t.packages,
                package_step(t.groups, t.infos, t.child_packages),
            )
            &&& whole_table::<ChildPackage>(written.child_packages) matches Some(rows)
                && settled_rows(rows, c.child_packages, t.child_packages, child_package_step(t.packages))
            &&& whole_table::<Group>(written.groups) matches Some(rows) && settled_rows(
                rows,
                c.groups,
                t.groups,
                group_step(t.packages, t.groups, t.infos, t.metadatas),
            )
            &&& whole_table::<Path>(written.paths) matches Some(rows) && settled_rows(
                rows,
                c.paths,
                t.paths,
                path_step(t.links, t.versioned_files, writer.last_patch_files_start),
            )
            &&& whole_table::<Link>(written.links) matches Some(rows) && settled_rows(
                rows,
                c.links,
                t.links,
                link_step(t.packages, t.groups, t.infos),
            )
            &&& whole_table::<Info>(written.infos) matches Some(rows) && settled_rows(
                rows,
                c.infos,
                t.infos,
                info_step(t.paths, t.links, t.descriptors),
            )
            &&& whole_table::<Descriptor>(written.descriptors) matches Some(rows) && settled_rows(
                rows,
                c.descriptors,
                t.descriptors,
                descriptor_settle(
                    t,
                    writer.directory_descriptor_start().unwrap(),
                    writer.info_group_info_start,
                    is_versioned,
                ),
            )
            &&& whole_table::<Metadata>(written.metadatas) == Some(
                in_table_order(c.metadatas, t.metadatas, t.metadatas.len(), metadata_read()),
            )
        }),
{
    let t = writer.tables;
    let c = writer.cells;
    let start = writer.directory_descriptor_start().unwrap();
    let offset = writer.info_group_info_start;
    lemma_packages_settle(t, c, is_versioned);
    lemma_whole_table_settles::<Package>(
        c.packages,
        t.packages,
        package_encoder(t),
        package_step(t.groups, t.infos, t.child_packages),
    );
    lemma_child_packages_settle(t, c, is_versioned);
    lemma_whole_table_settles::<ChildPackage>(
        c.child_packages,
        t.child_packages,
        child_package_encoder(t),
        child_package_step(t.packages),
    );
    lemma_groups_settle(t, c, is_versioned);
    lemma_whole_table_settles::<Group>(
        c.groups,
        t.groups,
        group_encoder(t),
        group_step(t.packages, t.groups, t.infos, t.metadatas),
    );
    lemma_paths_settle(t, c, is_versioned, writer.last_patch_files_start);
    lemma_whole_table_settles::<Path>(
        c.paths,
        t.paths,
        path_encoder(t, writer.last_patch_files_start),
        path_step(t.links, t.versioned_files, writer.last_patch_files_start),
    );
    lemma_links_settle(t, c, is_versioned);
    lemma_whole_table_settles::<Link>(
        c.links,
        t.links,
        link_encoder(t),
        link_step(t.packages, t.groups, t.infos),
    );
    lemma_infos_settle(t, c, is_versioned);
    lemma_whole_table_settles::<Info>(
        c.infos,
        t.infos,
        info_encoder(t),
        info_step(t.paths, t.links, t.descriptors),
    );
    lemma_descriptors_settle(t, c, is_versioned, start, offset);
    lemma_whole_table_settles::<Descriptor>(
        c.descriptors,
        t.descriptors,
        descriptor_encoder(t, start, offset),
        descriptor_settle(t, start, offset, is_versioned),
    );
    lemma_metadatas_read_back(t, c);
    lemma_table_round_trip::<Metadata>(
        c.metadatas,
        t.metadatas,
        t.metadatas.len(),
        metadata_encoder(),
        metadata_read(),
        Seq::empty(),
    );
    let bytes = writer.directory_tables().unwrap().metadatas;
    assert(bytes + Seq::<u8>::empty() =~= bytes);
    lemma_whole_table::<Metadata>(bytes, t.metadatas.len());
}


/// Whether a group at the index `self_index` names its sub-package so that
/// it is read back as it is written, and, where it is a metadata-group,
/// has its metadatas in a row.
pub open spec fn group_fits(record: GroupView, t: PackagedTables, self_index: usize) -> bool {
    match record.files {
        GroupFilesView::Info(set) => set is Resolved && match record.sub_package {
            GroupSubPackageReference::Absent => true,
            GroupSubPackageReference::Group(group) => index_in(t.groups, group) matches Some(
                index,
            ) && index == self_index,
            _ => false,
        },
        GroupFilesView::Metadata(_) => group_keeps(record, t, self_index),
        GroupFilesView::Unresolved(_) => false,
    }
}

/// Whether the records of the tables, taken by themselves, are read back
/// as they are written: every index fits 24 bits and every hash that is
/// packed 40, every package has as many groups and every info as many
/// descriptors as its flags say, and the groups, the paths and the
/// descriptors keep.
pub open spec fn records_fit(
    t: PackagedTables,
    c: PackagedCellsView,
    is_versioned: spec_fn(int) -> bool,
) -> bool {
    &&& fits_24_bits(t)
    &&& forall|i: int|
        0 <= i < t.packages.len() ==> {
            let record = c.packages[(#[trigger] t.packages[i]).slot as int];
            record.full_path.is_valid() && record.groups.cells().len() == variant_count(
                record.is_localized,
                record.is_regional,
            )
        }
    &&& forall|i: int|
        0 <= i < t.child_packages.len() ==> c.child_packages[(
        #[trigger] t.child_packages[i]).slot as int].full_path.is_valid()
    &&& forall|i: int|
        0 <= i < t.groups.len() ==> group_fits(
            c.groups[(#[trigger] t.groups[i]).slot as int],
            t,
            i as usize,
        )
    &&& forall|i: int| 0 <= i < t.paths.len() ==> path_keeps(c.paths[(#[trigger] t.paths[i]).slot as int])
    &&& forall|i: int|
        0 <= i < t.infos.len() ==> {
            let record = c.infos[(#[trigger] t.infos[i]).slot as int];
            record.descriptors.cells().len() == variant_count(
                record.is_localized,
                record.is_regional,
            )
        }
    &&& forall|i: int|
        0 <= i < t.descriptors.len() ==> {
            let record = c.descriptors[(#[trigger] t.descriptors[i]).slot as int];
            !(record.metadata is Unresolved) && load_arguments_keep(
                record.load_args,
                is_versioned(i),
            )
        }
}

/// The tables that the walk rebuilds keep, where their records fit: the
/// walk sees to it that no cell stands twice and that what belongs
/// together stands in a row.
pub proof fn lemma_rebuilt_tables_keep(
    from: PackagedTables,
    c: PackagedCellsView,
    is_versioned: spec_fn(int) -> bool,
)
    requires
        reorganized(from, c) is Some,
        records_fit(reorganized(from, c).unwrap().tables, c, is_versioned),
    ensures
        tables_keep(reorganized(from, c).unwrap().tables, c, is_versioned),
{
    let t = reorganized(from, c).unwrap().tables;
    lemma_rebuilt_in_rows(from, c);
    assert forall|i: int| 0 <= i < t.packages.len() implies package_keeps(
        c.packages[(#[trigger] t.packages[i]).slot as int],
        t,
    ) by {
        assert(package_rows(t, c, t.packages[i]));
    }
    assert forall|i: int| 0 <= i < t.groups.len() implies group_keeps(
        c.groups[(#[trigger] t.groups[i]).slot as int],
        t,
        i as usize,
    ) by {
        assert(group_rows(t, c, t.groups[i]));
        assert(group_fits(c.groups[t.groups[i].slot as int], t, i as usize));
    }
    assert forall|i: int| 0 <= i < t.infos.len() implies info_keeps(
        c.infos[(#[trigger] t.infos[i]).slot as int],
        t,
    ) by {
        assert(info_rows(t, c, t.infos[i]));
    }
}

/// The law for an engine: where the tables of an engine are rebuilt and
/// written, and their records fit, each table of records is read back as
/// rows that settle as the records that were written.
pub proof fn lemma_rebuilt_tables_read_back(
    from: PackagedTables,
    writer: WriterModel,
    is_versioned: spec_fn(int) -> bool,
)
    requires
        reorganized(from, writer.cells) matches Some(rebuilt) && rebuilt.tables == writer.tables,
        records_fit(writer.tables, writer.cells, is_versioned),
        writer.directory_tables() is Some,
    ensures
        ({
            let t = writer.tables;
            let c = writer.cells;
            let written = writer.directory_tables().unwrap();
            &&& whole_table::<Package>(written.packages) matches Some(rows) && settled_rows(
                rows,
                c.packages,
                t.packages,
                package_step(t.groups, t.infos, t.child_packages),
            )
            &&& whole_table::<ChildPackage>(written.child_packages) matches Some(rows)
                && settled_rows(rows, c.child_packages, t.child_packages, child_package_step(t.packages))
            &&& whole_table::<Group>(written.groups) matches Some(rows) && settled_rows(
                rows,
                c.groups,
                t.groups,
                group_step(t.packages, t.groups, t.infos, t.metadatas),
            )
            &&& whole_table::<Path>(written.paths) matches Some(rows) && settled_rows(
                rows,
                c.paths,
                t.paths,
                path_step(t.links, t.versioned_files, writer.last_patch_files_start),
            )
            &&& whole_table::<Link>(written.links) matches Some(rows) && settled_rows(
                rows,
                c.links,
                t.links,
                link_step(t.packages, t.groups, t.infos),
            )
            &&& whole_table::<Info>(written.infos) matches Some(rows) && settled_rows(
                rows,
                c.infos,
                t.infos,
                info_step(t.paths, t.links, t.descriptors),
            )
            &&& whole_table::<Descriptor>(written.descriptors) matches Some(rows) && settled_rows(
                rows,
                c.descriptors,
                t.descriptors,
                descriptor_settle(
                    t,
                    writer.directory_descriptor_start().unwrap(),
                    writer.info_group_info_start,
                    is_versioned,
                ),
            )
            &&& whole_table::<Metadata>(written.metadatas) == Some(
                in_table_order(c.metadatas, t.metadatas, t.metadatas.len(), metadata_read()),
            )
        }),
{
    lemma_rebuilt_tables_keep(from, writer.cells, is_versioned);
    lemma_tables_read_back(writer, is_versioned);
}


/// A version whose parts fit their fields is read back from the four bytes
/// that it is written as.
pub proof fn lemma_version_round_trip(version: crate::engines::Version, after: Seq<u8>)
    requires
        version.major <= 0xFFFF,
        version.minor <= 0xFF,
        version.patch <= 0xFF,
    ensures
        version.encoded().len() == 4,
        crate::engines::Version::decoded(version.encoded() + after, 0) == version,
{
    crate::bytes::lemma_le_len();
    vstd::bytes::lemma_auto_spec_u16_to_from_le_bytes();
    let major = version.major;
    let minor = version.minor;
    let patch = version.patch;
    assert(major <= 0xFFFF && minor <= 0xFF && patch <= 0xFF ==> (major & 0xFFFF) == major && (
    minor & 0xFF) == minor && (patch & 0xFF) == patch) by (bit_vector);
    let data = version.encoded() + after;
    assert(data.subrange(2, 4) =~= crate::bytes::le16((major & 0xFFFF) as u16));
}

/// The law for an engine without a patch: where its tables are rebuilt and
/// written to a directory, and their records fit, the directory is read
/// back with the version that was written, without a patch and without a
/// versioned file, with as many buckets as the lookup of the paths has,
/// and with each table of records as rows that settle as the records that
/// were written.
pub proof fn lemma_directory_read_back_without_patches(
    from: PackagedTables,
    writer: WriterModel,
    is_versioned: spec_fn(int) -> bool,
)
    requires
        reorganized(from, writer.cells) matches Some(rebuilt) && rebuilt.tables == writer.tables,
        from.patches.len() == 0,
        records_fit(writer.tables, writer.cells, is_versioned),
        writer.version.major <= 0xFFFF,
        writer.version.minor <= 0xFF,
        writer.version.patch <= 0xFF,
        writer.directory() is Some,
    ensures
        ({
            let t = writer.tables;
            let c = writer.cells;
            let directory = writer.directory().unwrap();
            &&& crate::engines::packaged::directory_cells(directory) matches Some((version, read))
                && version == writer.version && read.patches.len() == 0
                && read.versioned_files.len() == 0 && settled_rows(
                read.packages,
                c.packages,
                t.packages,
                package_step(t.groups, t.infos, t.child_packages),
            ) && settled_rows(
                read.child_packages,
                c.child_packages,
                t.child_packages,
                child_package_step(t.packages),
            ) && settled_rows(
                read.groups,
                c.groups,
                t.groups,
                group_step(t.packages, t.groups, t.infos, t.metadatas),
            ) && settled_rows(
                read.paths,
                c.paths,
                t.paths,
                path_step(t.links, t.versioned_files, writer.last_patch_files_start),
            ) && settled_rows(read.links, c.links, t.links, link_step(t.packages, t.groups, t.infos))
                && settled_rows(
                read.infos,
                c.infos,
                t.infos,
                info_step(t.paths, t.links, t.descriptors),
            ) && settled_rows(
                read.descriptors,
                c.descriptors,
                t.descriptors,
                descriptor_settle(
                    t,
                    writer.directory_descriptor_start().unwrap(),
                    writer.info_group_info_start,
                    is_versioned,
                ),
            ) && read.metadatas == in_table_order(
                c.metadatas,
                t.metadatas,
                t.metadatas.len(),
                metadata_read(),
            )
            &&& t.patches.len() == 0
            &&& t.versioned_files.len() == 0
            &&& crate::engines::packaged::directory_buckets(directory.path_buckets)
                == writer.file_lookup.len()
        }),
{
    let t = writer.tables;
    let c = writer.cells;
    crate::engines::packaged::layout::lemma_index_len(
        writer.file_lookup,
        writer.file_lookup.len(),
        true,
    );
    crate::engines::packaged::order::lemma_patches_kept(from, c);
    assert(t.patches =~= Seq::<TableCell>::empty());
    assert(crate::engines::packaged::order::patch_files(c, from.patches, 0) =~= Seq::<
        TableCell,
    >::empty());
    lemma_rebuilt_tables_read_back(from, writer, is_versioned);
    crate::bytes::lemma_le_len();
    let version_info = writer.version_bytes().unwrap();
    assert(version_info =~= writer.version.encoded() + crate::bytes::le32(0u32));
    lemma_version_round_trip(writer.version, crate::bytes::le32(0u32));
    crate::bytes::lemma_u32_round_trip(writer.version.encoded(), 0u32, Seq::empty());
    assert(version_info =~= writer.version.encoded() + crate::bytes::le32(0u32) + Seq::<
        u8,
    >::empty());
    assert(crate::bytes::u32_at(version_info, 4) == 0);
}

} // verus!
