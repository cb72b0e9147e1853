//! The records of the packaged filesystem.
//!
//! Each record is read from a fixed number of little-endian bytes. After
//! reading, the references of a record are indices into the tables of the
//! engine; resolving replaces them by handles to cells.
use vstd::prelude::*;
use std::ops::Range;

use crate::bytes::{read_u32, read_u64, u32_at, u64_at};
use crate::engines::table::{
    span, ReferenceSetView, TableCell, TableContiguousReference, TableReference,
    TableReferenceSet,
};
use crate::engines::{Hash40, HashKey, TableRecord, Version};
use crate::hashing::{hash40_of, hash_of};
use crate::paths::{
    camino_extension, camino_file_name, camino_parent, path_extension, path_file_name,
    path_parent,
};
use crate::{INVALID_INDEX, INVALID_INDEX32};

verus! {

/// Whether bit `bit` of `flags` is set.
pub open spec fn flag_set(flags: u32, bit: u32) -> bool {
    flags & (1u32 << bit) != 0
}

pub fn has_flag(flags: u32, bit: u32) -> (set: bool)
    requires
        bit < 32,
    ensures
        set == flag_set(flags, bit),
{
    flags & (1u32 << bit) != 0
}

/// How many variants a localized, a regional and a plain item has: one for
/// each of the fourteen locales and a default, one for each of the five
/// regions and a default, or just one.
pub open spec fn variant_count(localized: bool, regional: bool) -> usize {
    if localized {
        15
    } else if regional {
        6
    } else {
        1
    }
}

pub fn count_variants(localized: bool, regional: bool) -> (count: usize)
    ensures
        count == variant_count(localized, regional),
{
    if localized {
        15
    } else if regional {
        6
    } else {
        1
    }
}

/// A package: a directory of the packaged filesystem that is loaded as one.
pub struct Package {
    pub full_path: Hash40,
    pub name: Hash40,
    pub parent: Hash40,
    pub lifetime: Hash40,
    pub groups: TableContiguousReference,
    pub infos: TableContiguousReference,
    pub child_packages: TableContiguousReference,
    pub is_localized: bool,
    pub is_regional: bool,
    pub has_sub_package: bool,
    pub sym_link_is_regional: bool,
    pub is_sym_link: bool,
}

/// What a [`Package`] holds.
pub struct PackageView {
    pub full_path: Hash40,
    pub name: Hash40,
    pub parent: Hash40,
    pub lifetime: Hash40,
    pub groups: ReferenceSetView<Range<usize>>,
    pub infos: ReferenceSetView<Range<usize>>,
    pub child_packages: ReferenceSetView<Range<usize>>,
    pub is_localized: bool,
    pub is_regional: bool,
    pub has_sub_package: bool,
    pub sym_link_is_regional: bool,
    pub is_sym_link: bool,
}

impl View for Package {
    type V = PackageView;

    open spec fn view(&self) -> PackageView {
        PackageView {
            full_path: self.full_path,
            name: self.name,
            parent: self.parent,
            lifetime: self.lifetime,
            groups: self.groups@,
            infos: self.infos@,
            child_packages: self.child_packages@,
            is_localized: self.is_localized,
            is_regional: self.is_regional,
            has_sub_package: self.has_sub_package,
            sym_link_is_regional: self.sym_link_is_regional,
            is_sym_link: self.is_sym_link,
        }
    }
}

impl TableRecord for Package {
    open spec fn width() -> nat {
        0x34
    }

    open spec fn decoded(data: Seq<u8>, off: int) -> Option<PackageView> {
        let key = HashKey(u64_at(data, off));
        let flags = u32_at(data, off + 48);
        Some(
            PackageView {
                full_path: key.hash_part(),
                name: Hash40(u64_at(data, off + 8)),
                parent: Hash40(u64_at(data, off + 16)),
                lifetime: Hash40(u64_at(data, off + 24)),
                groups: ReferenceSetView::Unresolved(
                    span(
                        key.index_part(),
                        variant_count(flag_set(flags, 24), flag_set(flags, 25)),
                    ),
                ),
                infos: ReferenceSetView::Unresolved(
                    span(u32_at(data, off + 32) as usize, u32_at(data, off + 36) as usize),
                ),
                child_packages: ReferenceSetView::Unresolved(
                    span(u32_at(data, off + 40) as usize, u32_at(data, off + 44) as usize),
                ),
                is_localized: flag_set(flags, 24),
                is_regional: flag_set(flags, 25),
                has_sub_package: flag_set(flags, 26),
                sym_link_is_regional: flag_set(flags, 27),
                is_sym_link: flag_set(flags, 28),
            },
        )
    }

    fn repr_size() -> (size: usize) {
        0x34
    }

    fn parse(data: &[u8], off: usize) -> (record: Option<Self>) {
        let len: usize = data.len();
        let key = HashKey(read_u64(data, off));
        let name = Hash40(read_u64(data, off + 8));
        let parent = Hash40(read_u64(data, off + 16));
        let lifetime = Hash40(read_u64(data, off + 24));
        let info_start: u32 = read_u32(data, off + 32);
        let info_count: u32 = read_u32(data, off + 36);
        let child_start: u32 = read_u32(data, off + 40);
        let child_count: u32 = read_u32(data, off + 44);
        let flags: u32 = read_u32(data, off + 48);
        let is_localized = has_flag(flags, 24);
        let is_regional = has_flag(flags, 25);
        Some(
            Package {
                full_path: key.hash(),
                name,
                parent,
                lifetime,
                groups: TableContiguousReference::new_from_count(
                    key.index(),
                    count_variants(is_localized, is_regional),
                ),
                infos: TableContiguousReference::new_from_count(
                    info_start as usize,
                    info_count as usize,
                ),
                child_packages: TableContiguousReference::new_from_count(
                    child_start as usize,
                    child_count as usize,
                ),
                is_localized,
                is_regional,
                has_sub_package: has_flag(flags, 26),
                sym_link_is_regional: has_flag(flags, 27),
                is_sym_link: has_flag(flags, 28),
            },
        )
    }
}

/// The entry of a package in the list of children of another package.
#[derive(Debug, Copy, Clone, PartialEq, Eq, Structural)]
pub struct ChildPackage {
    pub full_path: Hash40,
    pub package: TableReference,
}

impl View for ChildPackage {
    type V = ChildPackage;

    open spec fn view(&self) -> ChildPackage {
        *self
    }
}

impl TableRecord for ChildPackage {
    open spec fn width() -> nat {
        0x8
    }

    open spec fn decoded(data: Seq<u8>, off: int) -> Option<ChildPackage> {
        let key = HashKey(u64_at(data, off));
        Some(
            ChildPackage {
                full_path: key.hash_part(),
                package: TableReference::Unresolved(key.index_part()),
            },
        )
    }

    fn repr_size() -> (size: usize) {
        0x8
    }

    fn parse(data: &[u8], off: usize) -> (record: Option<Self>) {
        let key = HashKey(read_u64(data, off));
        Some(
            ChildPackage {
                full_path: key.hash(),
                package: TableReference::Unresolved(key.index()),
            },
        )
    }
}

/// What a group names as its sub-package: nothing, a package or a group.
#[derive(Debug, Copy, Clone, PartialEq, Eq, Structural)]
pub enum GroupSubPackageReference {
    Absent,
    Package(TableCell),
    Group(TableCell),
    Unresolved(usize),
}

/// The files of a group: metadatas for a metadata-group, infos for an
/// info-group.
pub enum GroupFileReference {
    Metadata(TableContiguousReference),
    Info(TableContiguousReference),
    Unresolved(Range<usize>),
}

/// What a [`GroupFileReference`] holds.
pub enum GroupFilesView {
    Metadata(ReferenceSetView<Range<usize>>),
    Info(ReferenceSetView<Range<usize>>),
    Unresolved(Range<usize>),
}

impl View for GroupFileReference {
    type V = GroupFilesView;

    open spec fn view(&self) -> GroupFilesView {
        match *self {
            GroupFileReference::Metadata(set) => GroupFilesView::Metadata(set@),
            GroupFileReference::Info(set) => GroupFilesView::Info(set@),
            GroupFileReference::Unresolved(range) => GroupFilesView::Unresolved(range),
        }
    }
}

/// A contiguous region of the archive blob that backs a set of infos or a set
/// of metadatas.
pub struct Group {
    pub archive_offset: u64,
    pub decompressed_size: u32,
    pub compressed_size: u32,
    pub files: GroupFileReference,
    pub sub_package: GroupSubPackageReference,
}

/// What a [`Group`] holds.
pub struct GroupView {
    pub archive_offset: u64,
    pub decompressed_size: u32,
    pub compressed_size: u32,
    pub files: GroupFilesView,
    pub sub_package: GroupSubPackageReference,
}

impl View for Group {
    type V = GroupView;

    open spec fn view(&self) -> GroupView {
        GroupView {
            archive_offset: self.archive_offset,
            decompressed_size: self.decompressed_size,
            compressed_size: self.compressed_size,
            files: self.files@,
            sub_package: self.sub_package,
        }
    }
}

impl TableRecord for Group {
    open spec fn width() -> nat {
        0x1C
    }

    open spec fn decoded(data: Seq<u8>, off: int) -> Option<GroupView> {
        let sub = u32_at(data, off + 24);
        Some(
            GroupView {
                archive_offset: u64_at(data, off),
                decompressed_size: u32_at(data, off + 8),
                compressed_size: u32_at(data, off + 12),
                files: GroupFilesView::Unresolved(
                    span(u32_at(data, off + 16) as usize, u32_at(data, off + 20) as usize),
                ),
                sub_package: if sub == INVALID_INDEX32 {
                    GroupSubPackageReference::Absent
                } else {
                    GroupSubPackageReference::Unresolved(sub as usize)
                },
            },
        )
    }

    fn repr_size() -> (size: usize) {
        0x1C
    }

    fn parse(data: &[u8], off: usize) -> (record: Option<Self>) {
        let len: usize = data.len();
        let archive_offset: u64 = read_u64(data, off);
        let decompressed_size: u32 = read_u32(data, off + 8);
        let compressed_size: u32 = read_u32(data, off + 12);
        let range_start: u32 = read_u32(data, off + 16);
        let range_count: u32 = read_u32(data, off + 20);
        let sub: u32 = read_u32(data, off + 24);
        let set = TableContiguousReference::new_from_count(
            range_start as usize,
            range_count as usize,
        );
        let range: Range<usize> = match set.0 {
            TableReferenceSet::Unresolved(range) => range,
            TableReferenceSet::Resolved(_) => 0..0,
        };
        Some(
            Group {
                archive_offset,
                decompressed_size,
                compressed_size,
                files: GroupFileReference::Unresolved(range),
                sub_package: if sub == INVALID_INDEX32 {
                    GroupSubPackageReference::Absent
                } else {
                    GroupSubPackageReference::Unresolved(sub as usize)
                },
            },
        )
    }
}

/// The versioned file of a path, if the path has one.
#[derive(Debug, Copy, Clone, PartialEq, Eq, Structural)]
pub enum PathVersionedFileReference {
    Absent,
    VersionedFile(TableCell),
    Unresolved(usize),
}

/// A file path of the packaged filesystem, as the hashes of its parts.
#[derive(Debug, Copy, Clone, PartialEq, Eq, Structural)]
pub struct Path {
    pub full_path: Hash40,
    pub extension: Hash40,
    pub parent: Hash40,
    pub file_name: Hash40,
    pub link: TableReference,
    pub versioned_file: PathVersionedFileReference,
}

impl View for Path {
    type V = Path;

    open spec fn view(&self) -> Path {
        *self
    }
}

impl TableRecord for Path {
    open spec fn width() -> nat {
        0x20
    }

    open spec fn decoded(data: Seq<u8>, off: int) -> Option<Path> {
        let path_key = HashKey(u64_at(data, off));
        let extension_key = HashKey(u64_at(data, off + 8));
        Some(
            Path {
                full_path: path_key.hash_part(),
                extension: extension_key.hash_part(),
                parent: Hash40(u64_at(data, off + 16)),
                file_name: Hash40(u64_at(data, off + 24)),
                link: TableReference::Unresolved(path_key.index_part()),
                versioned_file: if extension_key.index_part() == INVALID_INDEX {
                    PathVersionedFileReference::Absent
                } else {
                    PathVersionedFileReference::Unresolved(extension_key.index_part())
                },
            },
        )
    }

    fn repr_size() -> (size: usize) {
        0x20
    }

    fn parse(data: &[u8], off: usize) -> (record: Option<Self>) {
        let len: usize = data.len();
        let path_key = HashKey(read_u64(data, off));
        let extension_key = HashKey(read_u64(data, off + 8));
        let parent = Hash40(read_u64(data, off + 16));
        let file_name = Hash40(read_u64(data, off + 24));
        let versioned: usize = extension_key.index();
        Some(
            Path {
                full_path: path_key.hash(),
                extension: extension_key.hash(),
                parent,
                file_name,
                link: TableReference::Unresolved(path_key.index()),
                versioned_file: if versioned == INVALID_INDEX {
                    PathVersionedFileReference::Absent
                } else {
                    PathVersionedFileReference::Unresolved(versioned)
                },
            },
        )
    }
}

/// Who owns a link: a package or a group.
#[derive(Debug, Copy, Clone, PartialEq, Eq, Structural)]
pub enum LinkOwnerReference {
    Package(TableCell),
    Group(TableCell),
    Unresolved(usize),
}

/// The link between a path, its owner and its info.
#[derive(Debug, Copy, Clone, PartialEq, Eq, Structural)]
pub struct Link {
    pub owner: LinkOwnerReference,
    pub info: TableReference,
}

impl View for Link {
    type V = Link;

    open spec fn view(&self) -> Link {
        *self
    }
}

impl TableRecord for Link {
    open spec fn width() -> nat {
        0x8
    }

    open spec fn decoded(data: Seq<u8>, off: int) -> Option<Link> {
        Some(
            Link {
                owner: LinkOwnerReference::Unresolved(u32_at(data, off) as usize),
                info: TableReference::Unresolved(u32_at(data, off + 4) as usize),
            },
        )
    }

    fn repr_size() -> (size: usize) {
        0x8
    }

    fn parse(data: &[u8], off: usize) -> (record: Option<Self>) {
        let len: usize = data.len();
        let owner: u32 = read_u32(data, off);
        let info: u32 = read_u32(data, off + 4);
        Some(
            Link {
                owner: LinkOwnerReference::Unresolved(owner as usize),
                info: TableReference::Unresolved(info as usize),
            },
        )
    }
}

/// What the archive knows of one file: its path, its link and one descriptor
/// for each of its variants.
pub struct Info {
    pub path: TableReference,
    pub link: TableReference,
    pub descriptors: TableContiguousReference,
    pub is_regular_file: bool,
    pub is_graphics_archive: bool,
    pub is_localized: bool,
    pub is_regional: bool,
    pub is_shared: bool,
    pub is_unknown_flag: bool,
}

/// What an [`Info`] holds.
pub struct InfoView {
    pub path: TableReference,
    pub link: TableReference,
    pub descriptors: ReferenceSetView<Range<usize>>,
    pub is_regular_file: bool,
    pub is_graphics_archive: bool,
    pub is_localized: bool,
    pub is_regional: bool,
    pub is_shared: bool,
    pub is_unknown_flag: bool,
}

impl View for Info {
    type V = InfoView;

    open spec fn view(&self) -> InfoView {
        InfoView {
            path: self.path,
            link: self.link,
            descriptors: self.descriptors@,
            is_regular_file: self.is_regular_file,
            is_graphics_archive: self.is_graphics_archive,
            is_localized: self.is_localized,
            is_regional: self.is_regional,
            is_shared: self.is_shared,
            is_unknown_flag: self.is_unknown_flag,
        }
    }
}

impl TableRecord for Info {
    open spec fn width() -> nat {
        0x10
    }

    open spec fn decoded(data: Seq<u8>, off: int) -> Option<InfoView> {
        let flags = u32_at(data, off + 12);
        Some(
            InfoView {
                path: TableReference::Unresolved(u32_at(data, off) as usize),
                link: TableReference::Unresolved(u32_at(data, off + 4) as usize),
                descriptors: ReferenceSetView::Unresolved(
                    span(
                        u32_at(data, off + 8) as usize,
                        variant_count(flag_set(flags, 15), flag_set(flags, 16)),
                    ),
                ),
                is_regular_file: flag_set(flags, 4),
                is_graphics_archive: flag_set(flags, 12),
                is_localized: flag_set(flags, 15),
                is_regional: flag_set(flags, 16),
                is_shared: flag_set(flags, 20),
                is_unknown_flag: flag_set(flags, 21),
            },
        )
    }

    fn repr_size() -> (size: usize) {
        0x10
    }

    fn parse(data: &[u8], off: usize) -> (record: Option<Self>) {
        let len: usize = data.len();
        let path: u32 = read_u32(data, off);
        let link: u32 = read_u32(data, off + 4);
        let descriptor: u32 = read_u32(data, off + 8);
        let flags: u32 = read_u32(data, off + 12);
        let is_localized = has_flag(flags, 15);
        let is_regional = has_flag(flags, 16);
        Some(
            Info {
                path: TableReference::Unresolved(path as usize),
                link: TableReference::Unresolved(link as usize),
                descriptors: TableContiguousReference::new_from_count(
                    descriptor as usize,
                    count_variants(is_localized, is_regional),
                ),
                is_regular_file: has_flag(flags, 4),
                is_graphics_archive: has_flag(flags, 12),
                is_localized,
                is_regional,
                is_shared: has_flag(flags, 20),
                is_unknown_flag: has_flag(flags, 21),
            },
        )
    }
}

/// The patch that owns the data of a descriptor, if one does.
#[derive(Debug, Copy, Clone, PartialEq, Eq, Structural)]
pub enum DescriptorLoadArgumentsPatchReference {
    Absent,
    Patch(TableCell),
    Unresolved(usize),
}

/// How the data of a descriptor is to be loaded. The variant is chosen by the
/// top byte of a 32-bit word, whose low 24 bits are the payload.
#[derive(Debug, Copy, Clone, PartialEq, Eq, Structural)]
pub enum DescriptorLoadArguments {
    Unowned { link: TableReference },
    Owned { patch: DescriptorLoadArgumentsPatchReference },
    PackageSkip { info: TableReference },
    Unknown,
    SharedButOwned { link: TableReference },
    UnsupportedRegion { region_locale: i32 },
}

impl DescriptorLoadArguments {
    /// The load arguments that the word `bitfield` stands for, if its top
    /// byte is one of the six tags.
    pub open spec fn decoded(bitfield: u32) -> Option<DescriptorLoadArguments> {
        let tag = bitfield >> 24;
        let payload = (bitfield & 0x00FF_FFFF) as usize;
        if tag == 0x00 {
            Some(DescriptorLoadArguments::Unowned { link: TableReference::Unresolved(payload) })
        } else if tag == 0x01 {
            Some(
                DescriptorLoadArguments::Owned {
                    patch: DescriptorLoadArgumentsPatchReference::Unresolved(payload),
                },
            )
        } else if tag == 0x03 {
            Some(
                DescriptorLoadArguments::PackageSkip { info: TableReference::Unresolved(payload) },
            )
        } else if tag == 0x05 {
            Some(DescriptorLoadArguments::Unknown)
        } else if tag == 0x09 {
            Some(
                DescriptorLoadArguments::SharedButOwned {
                    link: TableReference::Unresolved(payload),
                },
            )
        } else if tag == 0x10 {
            Some(
                DescriptorLoadArguments::UnsupportedRegion {
                    region_locale: (bitfield & 0x00FF_FFFF) as i32,
                },
            )
        } else {
            None
        }
    }

    /// Reads the load arguments from their word.
    pub fn from_bits(bitfield: u32) -> (args: Option<Self>)
        ensures
            args == Self::decoded(bitfield),
    {
        let tag: u32 = bitfield >> 24;
        let low: u32 = bitfield & 0x00FF_FFFF;
        assert(bitfield & 0x00FF_FFFF <= 0x00FF_FFFF) by (bit_vector);
        let payload: usize = low as usize;
        if tag == 0x00 {
            Some(DescriptorLoadArguments::Unowned { link: TableReference::Unresolved(payload) })
        } else if tag == 0x01 {
            Some(
                DescriptorLoadArguments::Owned {
                    patch: DescriptorLoadArgumentsPatchReference::Unresolved(payload),
                },
            )
        } else if tag == 0x03 {
            Some(
                DescriptorLoadArguments::PackageSkip { info: TableReference::Unresolved(payload) },
            )
        } else if tag == 0x05 {
            Some(DescriptorLoadArguments::Unknown)
        } else if tag == 0x09 {
            Some(
                DescriptorLoadArguments::SharedButOwned {
                    link: TableReference::Unresolved(payload),
                },
            )
        } else if tag == 0x10 {
            Some(DescriptorLoadArguments::UnsupportedRegion { region_locale: low as i32 })
        } else {
            None
        }
    }
}

/// The metadata of a descriptor, if it has one.
#[derive(Debug, Copy, Clone, PartialEq, Eq, Structural)]
pub enum DescriptorMetadataReference {
    Absent,
    Metadata(TableCell),
    Unresolved(usize),
}

/// One variant of a file: the group that holds its data, the metadata that
/// locates the data in the group, and how to load it.
#[derive(Debug, Copy, Clone, PartialEq, Eq, Structural)]
pub struct Descriptor {
    pub group: TableReference,
    pub metadata: DescriptorMetadataReference,
    pub load_args: DescriptorLoadArguments,
}

impl View for Descriptor {
    type V = Descriptor;

    open spec fn view(&self) -> Descriptor {
        *self
    }
}

impl TableRecord for Descriptor {
    open spec fn width() -> nat {
        0xC
    }

    open spec fn decoded(data: Seq<u8>, off: int) -> Option<Descriptor> {
        let metadata = u32_at(data, off + 4);
        match DescriptorLoadArguments::decoded(u32_at(data, off + 8)) {
            None => None,
            Some(load_args) => Some(
                Descriptor {
                    group: TableReference::Unresolved(u32_at(data, off) as usize),
                    metadata: if metadata == INVALID_INDEX32 {
                        DescriptorMetadataReference::Absent
                    } else {
                        DescriptorMetadataReference::Unresolved(metadata as usize)
                    },
                    load_args,
                },
            ),
        }
    }

    fn repr_size() -> (size: usize) {
        0xC
    }

    fn parse(data: &[u8], off: usize) -> (record: Option<Self>) {
        let len: usize = data.len();
        let group: u32 = read_u32(data, off);
        let metadata: u32 = read_u32(data, off + 4);
        let bitfield: u32 = read_u32(data, off + 8);
        match DescriptorLoadArguments::from_bits(bitfield) {
            None => None,
            Some(load_args) => Some(
                Descriptor {
                    group: TableReference::Unresolved(group as usize),
                    metadata: if metadata == INVALID_INDEX32 {
                        DescriptorMetadataReference::Absent
                    } else {
                        DescriptorMetadataReference::Unresolved(metadata as usize)
                    },
                    load_args,
                },
            ),
        }
    }
}

/// Where the data of one file variant lies within its group.
#[derive(Debug, Copy, Clone, PartialEq, Eq, Structural)]
pub struct Metadata {
    pub group_offset: u32,
    pub compressed_size: u32,
    pub decompressed_size: u32,
    pub is_standard_zstd: bool,
    pub is_compressed: bool,
    pub is_regional_versioned_data: bool,
    pub is_localized_versioned_data: bool,
}

impl View for Metadata {
    type V = Metadata;

    open spec fn view(&self) -> Metadata {
        *self
    }
}

impl TableRecord for Metadata {
    open spec fn width() -> nat {
        0x10
    }

    open spec fn decoded(data: Seq<u8>, off: int) -> Option<Metadata> {
        let flags = u32_at(data, off + 12);
        Some(
            Metadata {
                group_offset: u32_at(data, off),
                compressed_size: u32_at(data, off + 4),
                decompressed_size: u32_at(data, off + 8),
                is_standard_zstd: flag_set(flags, 0),
                is_compressed: flag_set(flags, 1),
                is_regional_versioned_data: flag_set(flags, 2),
                is_localized_versioned_data: flag_set(flags, 3),
            },
        )
    }

    fn repr_size() -> (size: usize) {
        0x10
    }

    fn parse(data: &[u8], off: usize) -> (record: Option<Self>) {
        let len: usize = data.len();
        let group_offset: u32 = read_u32(data, off);
        let compressed_size: u32 = read_u32(data, off + 4);
        let decompressed_size: u32 = read_u32(data, off + 8);
        let flags: u32 = read_u32(data, off + 12);
        Some(
            Metadata {
                group_offset,
                compressed_size,
                decompressed_size,
                is_standard_zstd: has_flag(flags, 0),
                is_compressed: has_flag(flags, 1),
                is_regional_versioned_data: has_flag(flags, 2),
                is_localized_versioned_data: has_flag(flags, 3),
            },
        )
    }
}

/// A versioned overlay that adds or replaces files.
pub struct Patch {
    pub version: Version,
    pub file_count: u32,
    pub group: TableReference,
    pub lookup_size_in_bytes: u32,
    pub versioned_files: TableContiguousReference,
    pub infos: TableContiguousReference,
    pub num_changed_this_patch: u32,
}

/// What a [`Patch`] holds.
pub struct PatchView {
    pub version: Version,
    pub file_count: u32,
    pub group: TableReference,
    pub lookup_size_in_bytes: u32,
    pub versioned_files: ReferenceSetView<Range<usize>>,
    pub infos: ReferenceSetView<Range<usize>>,
    pub num_changed_this_patch: u32,
}

impl View for Patch {
    type V = PatchView;

    open spec fn view(&self) -> PatchView {
        PatchView {
            version: self.version,
            file_count: self.file_count,
            group: self.group,
            lookup_size_in_bytes: self.lookup_size_in_bytes,
            versioned_files: self.versioned_files@,
            infos: self.infos@,
            num_changed_this_patch: self.num_changed_this_patch,
        }
    }
}

impl TableRecord for Patch {
    open spec fn width() -> nat {
        0x20
    }

    open spec fn decoded(data: Seq<u8>, off: int) -> Option<PatchView> {
        let file_count = u32_at(data, off + 4);
        let file_start = u32_at(data, off + 12);
        Some(
            PatchView {
                version: Version::decoded(data, off),
                file_count,
                group: TableReference::Unresolved(u32_at(data, off + 8) as usize),
                lookup_size_in_bytes: u32_at(data, off + 16),
                versioned_files: ReferenceSetView::Unresolved(
                    span(file_start as usize, file_count as usize),
                ),
                infos: ReferenceSetView::Unresolved(span(file_start as usize, file_count as usize)),
                num_changed_this_patch: u32_at(data, off + 28),
            },
        )
    }

    fn repr_size() -> (size: usize) {
        0x20
    }

    fn parse(data: &[u8], off: usize) -> (record: Option<Self>) {
        let len: usize = data.len();
        let version = Version::parse(data, off);
        let file_count: u32 = read_u32(data, off + 4);
        let group: u32 = read_u32(data, off + 8);
        let file_start: u32 = read_u32(data, off + 12);
        let lookup_size_in_bytes: u32 = read_u32(data, off + 16);
        let num_changed_this_patch: u32 = read_u32(data, off + 28);
        Some(
            Patch {
                version,
                file_count,
                group: TableReference::Unresolved(group as usize),
                lookup_size_in_bytes,
                versioned_files: TableContiguousReference::new_from_count(
                    file_start as usize,
                    file_count as usize,
                ),
                infos: TableContiguousReference::new_from_count(
                    file_start as usize,
                    file_count as usize,
                ),
                num_changed_this_patch,
            },
        )
    }
}

/// A file entry that belongs to one patch.
#[derive(Debug, Copy, Clone, PartialEq, Eq, Structural)]
pub struct VersionedFile {
    pub path: Hash40,
    pub info: TableReference,
    pub link: TableReference,
    pub changed_this_patch: bool,
}

impl View for VersionedFile {
    type V = VersionedFile;

    open spec fn view(&self) -> VersionedFile {
        *self
    }
}

impl TableRecord for VersionedFile {
    open spec fn width() -> nat {
        0x14
    }

    open spec fn decoded(data: Seq<u8>, off: int) -> Option<VersionedFile> {
        let key = HashKey(u64_at(data, off));
        Some(
            VersionedFile {
                path: key.hash_part(),
                info: TableReference::Unresolved(u32_at(data, off + 8) as usize),
                link: TableReference::Unresolved(u32_at(data, off + 16) as usize),
                changed_this_patch: key.index_part() == 0,
            },
        )
    }

    fn repr_size() -> (size: usize) {
        0x14
    }

    fn parse(data: &[u8], off: usize) -> (record: Option<Self>) {
        let len: usize = data.len();
        let key = HashKey(read_u64(data, off));
        let info: u32 = read_u32(data, off + 8);
        let link: u32 = read_u32(data, off + 16);
        Some(
            VersionedFile {
                path: key.hash(),
                info: TableReference::Unresolved(info as usize),
                link: TableReference::Unresolved(link as usize),
                changed_this_patch: key.index() == 0,
            },
        )
    }
}


impl PackageView {
    /// Whether the three ranges of the package lie within tables of the
    /// given lengths.
    pub open spec fn resolvable(self, groups: nat, infos: nat, child_packages: nat) -> bool {
        &&& self.groups.resolvable(groups, 0)
        &&& self.infos.resolvable(infos, 0)
        &&& self.child_packages.resolvable(child_packages, 0)
    }

    /// The package with its three ranges resolved against the tables.
    pub open spec fn resolved(
        self,
        groups: Seq<TableCell>,
        infos: Seq<TableCell>,
        child_packages: Seq<TableCell>,
    ) -> PackageView {
        PackageView {
            groups: self.groups.resolved_with(groups, 0),
            infos: self.infos.resolved_with(infos, 0),
            child_packages: self.child_packages.resolved_with(child_packages, 0),
            ..self
        }
    }

    /// Whether every range of the package is resolved.
    pub open spec fn is_resolved(self) -> bool {
        self.groups is Resolved && self.infos is Resolved && self.child_packages is Resolved
    }
}

impl Package {
    pub fn can_resolve(&self, groups: usize, infos: usize, child_packages: usize) -> (b: bool)
        ensures
            b == self@.resolvable(groups as nat, infos as nat, child_packages as nat),
    {
        self.groups.can_resolve(groups, 0) && self.infos.can_resolve(infos, 0)
            && self.child_packages.can_resolve(child_packages, 0)
    }

    pub fn resolve(
        &mut self,
        groups: &[TableCell],
        infos: &[TableCell],
        child_packages: &[TableCell],
    )
        requires
            old(self)@.resolvable(groups@.len(), infos@.len(), child_packages@.len()),
        ensures
            final(self)@ == old(self)@.resolved(groups@, infos@, child_packages@),
    {
        self.groups.resolve(groups);
        self.infos.resolve(infos);
        self.child_packages.resolve(child_packages);
    }

    pub fn is_resolved(&self) -> (b: bool)
        ensures
            b == self@.is_resolved(),
    {
        self.groups.0.is_resolved() && self.infos.0.is_resolved()
            && self.child_packages.0.is_resolved()
    }
}

impl ChildPackage {
    /// Whether the package index lies within a table of `packages` cells.
    pub open spec fn resolvable(self, packages: nat) -> bool {
        self.package.resolvable(packages, 0)
    }

    /// The entry with its package resolved against the table.
    pub open spec fn resolved(self, packages: Seq<TableCell>) -> ChildPackage {
        ChildPackage { package: self.package.resolved_with(packages, 0), ..self }
    }

    pub fn can_resolve(&self, packages: usize) -> (b: bool)
        ensures
            b == self.resolvable(packages as nat),
    {
        self.package.can_resolve(packages, 0)
    }

    pub fn resolve(&mut self, packages: &[TableCell])
        requires
            old(self).resolvable(packages@.len()),
        ensures
            *final(self) == old(self).resolved(packages@),
    {
        self.package.resolve(packages);
    }

    pub fn is_resolved(&self) -> (b: bool)
        ensures
            b == (self.package is Resolved),
    {
        self.package.is_resolved()
    }
}

impl GroupSubPackageReference {
    /// Whether an unresolved index names a package or a group.
    pub open spec fn resolvable(self, packages: nat, groups: nat) -> bool {
        self matches GroupSubPackageReference::Unresolved(index) ==> index < packages || index
            < groups
    }

    /// The reference after resolving: an index below the number of packages
    /// names a package, any other a group.
    pub open spec fn resolved(self, packages: Seq<TableCell>, groups: Seq<TableCell>) -> Self {
        match self {
            GroupSubPackageReference::Unresolved(index) => if index < packages.len() {
                GroupSubPackageReference::Package(packages[index as int])
            } else {
                GroupSubPackageReference::Group(groups[index as int])
            },
            other => other,
        }
    }

    /// The index that the reference held before it was resolved.
    pub open spec fn pending_index(self) -> Option<usize> {
        match self {
            GroupSubPackageReference::Unresolved(index) => Some(index),
            _ => None,
        }
    }

    pub fn can_resolve(&self, packages: usize, groups: usize) -> (b: bool)
        ensures
            b == self.resolvable(packages as nat, groups as nat),
    {
        match self {
            GroupSubPackageReference::Unresolved(index) => *index < packages || *index < groups,
            _ => true,
        }
    }

    /// Resolves the reference and returns the index it held, if it was
    /// unresolved.
    pub fn resolve(&mut self, packages: &[TableCell], groups: &[TableCell]) -> (sub_index: Option<
        usize,
    >)
        requires
            old(self).resolvable(packages@.len(), groups@.len()),
        ensures
            *final(self) == old(self).resolved(packages@, groups@),
            sub_index == old(self).pending_index(),
    {
        match *self {
            GroupSubPackageReference::Unresolved(index) => {
                if index < packages.len() {
                    *self = GroupSubPackageReference::Package(packages[index]);
                } else {
                    *self = GroupSubPackageReference::Group(groups[index]);
                }
                Some(index)
            },
            _ => None,
        }
    }

    pub fn is_resolved(&self) -> (b: bool)
        ensures
            b == !(*self is Unresolved),
    {
        !matches!(self, GroupSubPackageReference::Unresolved(_))
    }

    pub fn is_none(&self) -> (b: bool)
        ensures
            b == (*self is Absent),
    {
        matches!(self, GroupSubPackageReference::Absent)
    }

    pub fn is_package(&self) -> (b: bool)
        ensures
            b == (*self is Package),
    {
        matches!(self, GroupSubPackageReference::Package(_))
    }

    pub fn is_group(&self) -> (b: bool)
        ensures
            b == (*self is Group),
    {
        matches!(self, GroupSubPackageReference::Group(_))
    }
}

impl GroupFilesView {
    /// Whether an unresolved range lies within the table that the kind of the
    /// group selects.
    pub open spec fn resolvable(self, infos: nat, metadatas: nat, is_info_group: bool) -> bool {
        self matches GroupFilesView::Unresolved(range) ==> range.start <= range.end && range.end
            <= (if is_info_group {
            infos
        } else {
            metadatas
        })
    }

    /// The files after resolving: the cells of the range, taken from the
    /// infos for an info-group and from the metadatas for a metadata-group.
    pub open spec fn resolved(
        self,
        infos: Seq<TableCell>,
        metadatas: Seq<TableCell>,
        is_info_group: bool,
    ) -> Self {
        match self {
            GroupFilesView::Unresolved(range) => if is_info_group {
                GroupFilesView::Info(
                    ReferenceSetView::Resolved(infos.subrange(range.start as int, range.end as int)),
                )
            } else {
                GroupFilesView::Metadata(
                    ReferenceSetView::Resolved(
                        metadatas.subrange(range.start as int, range.end as int),
                    ),
                )
            },
            other => other,
        }
    }
}

impl GroupFileReference {
    pub fn can_resolve(&self, infos: usize, metadatas: usize, is_info_group: bool) -> (b: bool)
        ensures
            b == self@.resolvable(infos as nat, metadatas as nat, is_info_group),
    {
        match self {
            GroupFileReference::Unresolved(range) => range.start <= range.end && range.end <= (
            if is_info_group {
                infos
            } else {
                metadatas
            }),
            _ => true,
        }
    }

    pub fn resolve(&mut self, infos: &[TableCell], metadatas: &[TableCell], is_info_group: bool)
        requires
            old(self)@.resolvable(infos@.len(), metadatas@.len(), is_info_group),
        ensures
            final(self)@ == old(self)@.resolved(infos@, metadatas@, is_info_group),
    {
        let mut pending: Option<Range<usize>> = None;
        match &*self {
            GroupFileReference::Unresolved(range) => {
                pending = Some(range.start..range.end);
            },
            _ => {},
        }
        if let Some(range) = pending {
            let mut set = TableContiguousReference(TableReferenceSet::Unresolved(range));
            if is_info_group {
                set.resolve(infos);
                *self = GroupFileReference::Info(set);
            } else {
                set.resolve(metadatas);
                *self = GroupFileReference::Metadata(set);
            }
        }
    }

    pub fn is_resolved(&self) -> (b: bool)
        ensures
            b == !(self@ is Unresolved),
    {
        !matches!(self, GroupFileReference::Unresolved(_))
    }

    pub fn is_info(&self) -> (b: bool)
        ensures
            b == (self@ is Info),
    {
        matches!(self, GroupFileReference::Info(_))
    }

    pub fn is_metadata(&self) -> (b: bool)
        ensures
            b == (self@ is Metadata),
    {
        matches!(self, GroupFileReference::Metadata(_))
    }
}

impl GroupView {
    /// Whether resolving makes the group an info-group: it has no
    /// sub-package, or its sub-package index is its own index. A group whose
    /// sub-package is resolved already is not made one.
    pub open spec fn becomes_info_group(self, self_index: usize) -> bool {
        match self.sub_package {
            GroupSubPackageReference::Absent => true,
            GroupSubPackageReference::Unresolved(index) => index == self_index,
            _ => false,
        }
    }

    /// Whether the sub-package index names the group itself.
    pub open spec fn names_itself(self, self_index: usize) -> bool {
        self.sub_package matches GroupSubPackageReference::Unresolved(index) && index
            == self_index
    }

    /// The sub-package after resolving: the group itself where the index is
    /// the group's own, else what the index names.
    pub open spec fn sub_package_resolved(
        self,
        packages: Seq<TableCell>,
        groups: Seq<TableCell>,
        self_index: usize,
    ) -> GroupSubPackageReference {
        if self.names_itself(self_index) {
            GroupSubPackageReference::Group(groups[self_index as int])
        } else {
            self.sub_package.resolved(packages, groups)
        }
    }

    pub open spec fn resolvable(
        self,
        packages: nat,
        groups: nat,
        infos: nat,
        metadatas: nat,
        self_index: usize,
    ) -> bool {
        &&& if self.names_itself(self_index) {
            self_index < groups
        } else {
            self.sub_package.resolvable(packages, groups)
        }
        &&& self.files.resolvable(infos, metadatas, self.becomes_info_group(self_index))
    }

    pub open spec fn resolved(
        self,
        packages: Seq<TableCell>,
        groups: Seq<TableCell>,
        infos: Seq<TableCell>,
        metadatas: Seq<TableCell>,
        self_index: usize,
    ) -> GroupView {
        GroupView {
            sub_package: self.sub_package_resolved(packages, groups, self_index),
            files: self.files.resolved(infos, metadatas, self.becomes_info_group(self_index)),
            ..self
        }
    }

    /// A group is an info-group when its files are infos.
    pub open spec fn is_info_group(self) -> bool {
        self.files is Info
    }

    /// A group is a metadata-group when its files are metadatas.
    pub open spec fn is_metadata_group(self) -> bool {
        self.files is Metadata
    }

    /// A group is a version-group when it is an info-group without a
    /// sub-package.
    pub open spec fn is_version_group(self) -> bool {
        self.files is Info && self.sub_package is Absent
    }
}

impl Group {
    pub fn can_resolve(
        &self,
        packages: usize,
        groups: usize,
        infos: usize,
        metadatas: usize,
        self_index: usize,
    ) -> (b: bool)
        ensures
            b == self@.resolvable(
                packages as nat,
                groups as nat,
                infos as nat,
                metadatas as nat,
                self_index,
            ),
    {
        let names_itself = match self.sub_package {
            GroupSubPackageReference::Unresolved(index) => index == self_index,
            _ => false,
        };
        let is_info_group = names_itself || self.sub_package.is_none();
        let sub_package = if names_itself {
            self_index < groups
        } else {
            self.sub_package.can_resolve(packages, groups)
        };
        sub_package && self.files.can_resolve(infos, metadatas, is_info_group)
    }

    pub fn resolve(
        &mut self,
        packages: &[TableCell],
        groups: &[TableCell],
        infos: &[TableCell],
        metadatas: &[TableCell],
        self_index: usize,
    )
        requires
            old(self)@.resolvable(
                packages@.len(),
                groups@.len(),
                infos@.len(),
                metadatas@.len(),
                self_index,
            ),
        ensures
            final(self)@ == old(self)@.resolved(
                packages@,
                groups@,
                infos@,
                metadatas@,
                self_index,
            ),
    {
        let names_itself = match self.sub_package {
            GroupSubPackageReference::Unresolved(index) => index == self_index,
            _ => false,
        };
        let is_info_group = names_itself || self.sub_package.is_none();
        if names_itself {
            self.sub_package = GroupSubPackageReference::Group(groups[self_index]);
        } else {
            let _ = self.sub_package.resolve(packages, groups);
        }
        self.files.resolve(infos, metadatas, is_info_group);
    }

    pub fn is_resolved(&self) -> (b: bool)
        ensures
            b == (!(self@.files is Unresolved) && !(self@.sub_package is Unresolved)),
    {
        self.files.is_resolved() && self.sub_package.is_resolved()
    }

    pub fn is_info_group(&self) -> (b: bool)
        ensures
            b == self@.is_info_group(),
    {
        self.files.is_info()
    }

    pub fn is_metadata_group(&self) -> (b: bool)
        ensures
            b == self@.is_metadata_group(),
    {
        self.files.is_metadata()
    }

    pub fn is_version_group(&self) -> (b: bool)
        ensures
            b == self@.is_version_group(),
    {
        self.files.is_info() && self.sub_package.is_none()
    }

    pub fn infos(&self) -> (set: &TableContiguousReference)
        requires
            self@.is_info_group(),
        ensures
            set@ == self@.files->Info_0,
    {
        match &self.files {
            GroupFileReference::Info(set) => set,
            _ => vstd::pervasive::unreached(),
        }
    }

    pub fn infos_mut(&mut self) -> (set: &mut TableContiguousReference)
        requires
            old(self)@.is_info_group(),
        ensures
            set@ == old(self)@.files->Info_0,
            final(self)@ == (GroupView { files: GroupFilesView::Info(final(set)@), ..old(self)@ }),
    {
        match &mut self.files {
            GroupFileReference::Info(set) => set,
            _ => vstd::pervasive::unreached(),
        }
    }

    pub fn metadatas(&self) -> (set: &TableContiguousReference)
        requires
            self@.is_metadata_group(),
        ensures
            set@ == self@.files->Metadata_0,
    {
        match &self.files {
            GroupFileReference::Metadata(set) => set,
            _ => vstd::pervasive::unreached(),
        }
    }

    pub fn metadatas_mut(&mut self) -> (set: &mut TableContiguousReference)
        requires
            old(self)@.is_metadata_group(),
        ensures
            set@ == old(self)@.files->Metadata_0,
            final(self)@ == (GroupView {
                files: GroupFilesView::Metadata(final(set)@),
                ..old(self)@
            }),
    {
        match &mut self.files {
            GroupFileReference::Metadata(set) => set,
            _ => vstd::pervasive::unreached(),
        }
    }
}


impl PathVersionedFileReference {
    /// Whether an unresolved index, moved by `offset`, lies within a table of
    /// `versioned_files` cells.
    pub open spec fn resolvable(self, versioned_files: nat, offset: int) -> bool {
        self matches PathVersionedFileReference::Unresolved(index) ==> index + offset
            < versioned_files
    }

    /// The reference after resolving: the index counts from `offset`, the
    /// start of the latest patch's files.
    pub open spec fn resolved(self, versioned_files: Seq<TableCell>, offset: int) -> Self {
        match self {
            PathVersionedFileReference::Unresolved(index) => {
                PathVersionedFileReference::VersionedFile(versioned_files[index + offset])
            },
            other => other,
        }
    }

    pub fn can_resolve(&self, versioned_files: usize, offset: usize) -> (b: bool)
        ensures
            b == self.resolvable(versioned_files as nat, offset as int),
    {
        match self {
            PathVersionedFileReference::Unresolved(index) => offset < versioned_files && *index
                < versioned_files - offset,
            _ => true,
        }
    }

    pub fn resolve(&mut self, versioned_files: &[TableCell], versioned_file_offset: usize)
        requires
            old(self).resolvable(versioned_files@.len(), versioned_file_offset as int),
        ensures
            *final(self) == old(self).resolved(versioned_files@, versioned_file_offset as int),
    {
        let len: usize = versioned_files.len();
        match *self {
            PathVersionedFileReference::Unresolved(index) => {
                *self = PathVersionedFileReference::VersionedFile(
                    versioned_files[index + versioned_file_offset],
                );
            },
            _ => {},
        }
    }

    pub fn is_resolved(&self) -> (b: bool)
        ensures
            b == !(*self is Unresolved),
    {
        !matches!(self, PathVersionedFileReference::Unresolved(_))
    }

    pub fn is_none(&self) -> (b: bool)
        ensures
            b == (*self is Absent),
    {
        matches!(self, PathVersionedFileReference::Absent)
    }

    pub fn is_versioned_file(&self) -> (b: bool)
        ensures
            b == (*self is VersionedFile),
    {
        matches!(self, PathVersionedFileReference::VersionedFile(_))
    }
}

impl Path {
    pub open spec fn resolvable(self, links: nat, versioned_files: nat, offset: int) -> bool {
        &&& self.link.resolvable(links, 0)
        &&& self.versioned_file.resolvable(versioned_files, offset)
    }

    pub open spec fn resolved(
        self,
        links: Seq<TableCell>,
        versioned_files: Seq<TableCell>,
        offset: int,
    ) -> Path {
        Path {
            link: self.link.resolved_with(links, 0),
            versioned_file: self.versioned_file.resolved(versioned_files, offset),
            ..self
        }
    }

    pub fn can_resolve(&self, links: usize, versioned_files: usize, offset: usize) -> (b: bool)
        ensures
            b == self.resolvable(links as nat, versioned_files as nat, offset as int),
    {
        self.link.can_resolve(links, 0) && self.versioned_file.can_resolve(versioned_files, offset)
    }

    pub fn resolve(
        &mut self,
        links: &[TableCell],
        versioned_files: &[TableCell],
        versioned_file_offset: usize,
    )
        requires
            old(self).resolvable(links@.len(), versioned_files@.len(), versioned_file_offset as int),
        ensures
            *final(self) == old(self).resolved(
                links@,
                versioned_files@,
                versioned_file_offset as int,
            ),
    {
        self.link.resolve(links);
        self.versioned_file.resolve(versioned_files, versioned_file_offset);
    }

    pub fn is_resolved(&self) -> (b: bool)
        ensures
            b == (self.link is Resolved && !(self.versioned_file is Unresolved)),
    {
        self.link.is_resolved() && self.versioned_file.is_resolved()
    }
}

impl LinkOwnerReference {
    /// Whether an unresolved index names a package or a group.
    pub open spec fn resolvable(self, packages: nat, groups: nat) -> bool {
        self matches LinkOwnerReference::Unresolved(index) ==> index < packages + groups
    }

    /// The owner after resolving: an index below the number of packages
    /// names a package, any other names the group at that index less the
    /// number of packages.
    pub open spec fn resolved(self, packages: Seq<TableCell>, groups: Seq<TableCell>) -> Self {
        match self {
            LinkOwnerReference::Unresolved(index) => if index < packages.len() {
                LinkOwnerReference::Package(packages[index as int])
            } else {
                LinkOwnerReference::Group(groups[index - packages.len()])
            },
            other => other,
        }
    }

    pub fn invalid() -> (r: Self)
        ensures
            r == LinkOwnerReference::Unresolved(INVALID_INDEX),
    {
        LinkOwnerReference::Unresolved(INVALID_INDEX)
    }

    pub fn can_resolve(&self, packages: usize, groups: usize) -> (b: bool)
        ensures
            b == self.resolvable(packages as nat, groups as nat),
    {
        match self {
            LinkOwnerReference::Unresolved(index) => *index < packages || *index - packages
                < groups,
            _ => true,
        }
    }

    pub fn resolve(&mut self, packages: &[TableCell], groups: &[TableCell])
        requires
            old(self).resolvable(packages@.len(), groups@.len()),
        ensures
            *final(self) == old(self).resolved(packages@, groups@),
    {
        match *self {
            LinkOwnerReference::Unresolved(index) => {
                if index < packages.len() {
                    *self = LinkOwnerReference::Package(packages[index]);
                } else {
                    *self = LinkOwnerReference::Group(groups[index - packages.len()]);
                }
            },
            _ => {},
        }
    }

    pub fn is_resolved(&self) -> (b: bool)
        ensures
            b == !(*self is Unresolved),
    {
        !matches!(self, LinkOwnerReference::Unresolved(_))
    }

    pub fn is_package(&self) -> (b: bool)
        ensures
            b == (*self is Package),
    {
        matches!(self, LinkOwnerReference::Package(_))
    }

    pub fn is_group(&self) -> (b: bool)
        ensures
            b == (*self is Group),
    {
        matches!(self, LinkOwnerReference::Group(_))
    }
}

impl Link {
    pub open spec fn resolvable(self, packages: nat, groups: nat, infos: nat) -> bool {
        &&& self.owner.resolvable(packages, groups)
        &&& self.info.resolvable(infos, 0)
    }

    pub open spec fn resolved(
        self,
        packages: Seq<TableCell>,
        groups: Seq<TableCell>,
        infos: Seq<TableCell>,
    ) -> Link {
        Link {
            owner: self.owner.resolved(packages, groups),
            info: self.info.resolved_with(infos, 0),
        }
    }

    pub fn new() -> (link: Self)
        ensures
            link == (Link {
                owner: LinkOwnerReference::Unresolved(INVALID_INDEX),
                info: TableReference::Unresolved(INVALID_INDEX),
            }),
    {
        Link { owner: LinkOwnerReference::invalid(), info: TableReference::invalid() }
    }

    pub fn can_resolve(&self, packages: usize, groups: usize, infos: usize) -> (b: bool)
        ensures
            b == self.resolvable(packages as nat, groups as nat, infos as nat),
    {
        self.owner.can_resolve(packages, groups) && self.info.can_resolve(infos, 0)
    }

    pub fn resolve(&mut self, packages: &[TableCell], groups: &[TableCell], infos: &[TableCell])
        requires
            old(self).resolvable(packages@.len(), groups@.len(), infos@.len()),
        ensures
            *final(self) == old(self).resolved(packages@, groups@, infos@),
    {
        self.owner.resolve(packages, groups);
        self.info.resolve(infos);
    }

    pub fn is_resolved(&self) -> (b: bool)
        ensures
            b == (!(self.owner is Unresolved) && self.info is Resolved),
    {
        self.owner.is_resolved() && self.info.is_resolved()
    }
}

impl InfoView {
    pub open spec fn resolvable(self, paths: nat, links: nat, descriptors: nat) -> bool {
        &&& self.path.resolvable(paths, 0)
        &&& self.link.resolvable(links, 0)
        &&& self.descriptors.resolvable(descriptors, 0)
    }

    pub open spec fn resolved(
        self,
        paths: Seq<TableCell>,
        links: Seq<TableCell>,
        descriptors: Seq<TableCell>,
    ) -> InfoView {
        InfoView {
            path: self.path.resolved_with(paths, 0),
            link: self.link.resolved_with(links, 0),
            descriptors: self.descriptors.resolved_with(descriptors, 0),
            ..self
        }
    }

    pub open spec fn is_resolved(self) -> bool {
        self.path is Resolved && self.link is Resolved && self.descriptors is Resolved
    }
}

impl Info {
    /// An info that refers to nothing yet and describes a regular file.
    pub fn new() -> (info: Self)
        ensures
            info@ == (InfoView {
                path: TableReference::Unresolved(INVALID_INDEX),
                link: TableReference::Unresolved(INVALID_INDEX),
                descriptors: ReferenceSetView::Unresolved(INVALID_INDEX..INVALID_INDEX),
                is_regular_file: true,
                is_graphics_archive: false,
                is_localized: false,
                is_regional: false,
                is_shared: false,
                is_unknown_flag: false,
            }),
    {
        Info {
            path: TableReference::invalid(),
            link: TableReference::invalid(),
            descriptors: TableContiguousReference::invalid(),
            is_regular_file: true,
            is_graphics_archive: false,
            is_localized: false,
            is_regional: false,
            is_shared: false,
            is_unknown_flag: false,
        }
    }

    pub fn can_resolve(&self, paths: usize, links: usize, descriptors: usize) -> (b: bool)
        ensures
            b == self@.resolvable(paths as nat, links as nat, descriptors as nat),
    {
        self.path.can_resolve(paths, 0) && self.link.can_resolve(links, 0)
            && self.descriptors.can_resolve(descriptors, 0)
    }

    pub fn resolve(&mut self, paths: &[TableCell], links: &[TableCell], descriptors: &[TableCell])
        requires
            old(self)@.resolvable(paths@.len(), links@.len(), descriptors@.len()),
        ensures
            final(self)@ == old(self)@.resolved(paths@, links@, descriptors@),
    {
        self.path.resolve(paths);
        self.link.resolve(links);
        self.descriptors.resolve(descriptors);
    }

    pub fn is_resolved(&self) -> (b: bool)
        ensures
            b == self@.is_resolved(),
    {
        self.path.is_resolved() && self.link.is_resolved() && self.descriptors.0.is_resolved()
    }
}

impl DescriptorMetadataReference {
    pub open spec fn resolvable(self, metadatas: nat) -> bool {
        self matches DescriptorMetadataReference::Unresolved(index) ==> index < metadatas
    }

    pub open spec fn resolved(self, metadatas: Seq<TableCell>) -> Self {
        match self {
            DescriptorMetadataReference::Unresolved(index) => DescriptorMetadataReference::Metadata(
                metadatas[index as int],
            ),
            other => other,
        }
    }

    pub fn can_resolve(&self, metadatas: usize) -> (b: bool)
        ensures
            b == self.resolvable(metadatas as nat),
    {
        match self {
            DescriptorMetadataReference::Unresolved(index) => *index < metadatas,
            _ => true,
        }
    }

    pub fn resolve(&mut self, metadatas: &[TableCell])
        requires
            old(self).resolvable(metadatas@.len()),
        ensures
            *final(self) == old(self).resolved(metadatas@),
    {
        match *self {
            DescriptorMetadataReference::Unresolved(index) => {
                *self = DescriptorMetadataReference::Metadata(metadatas[index]);
            },
            _ => {},
        }
    }

    pub fn is_resolved(&self) -> (b: bool)
        ensures
            b == !(*self is Unresolved),
    {
        !matches!(self, DescriptorMetadataReference::Unresolved(_))
    }

    pub fn is_none(&self) -> (b: bool)
        ensures
            b == (*self is Absent),
    {
        matches!(self, DescriptorMetadataReference::Absent)
    }

    pub fn is_metadata(&self) -> (b: bool)
        ensures
            b == (*self is Metadata),
    {
        matches!(self, DescriptorMetadataReference::Metadata(_))
    }
}

impl DescriptorLoadArgumentsPatchReference {
    pub open spec fn resolvable(self, patches: nat, is_versioned_descriptor: bool) -> bool {
        is_versioned_descriptor ==> (self matches DescriptorLoadArgumentsPatchReference::Unresolved(
            index,
        ) ==> index < patches)
    }

    /// The reference after resolving. Only the descriptor of a versioned
    /// file names a patch: any other loses its reference.
    pub open spec fn resolved(self, patches: Seq<TableCell>, is_versioned_descriptor: bool) -> Self {
        if !is_versioned_descriptor {
            DescriptorLoadArgumentsPatchReference::Absent
        } else {
            match self {
                DescriptorLoadArgumentsPatchReference::Unresolved(index) => {
                    DescriptorLoadArgumentsPatchReference::Patch(patches[index as int])
                },
                other => other,
            }
        }
    }

    pub fn can_resolve(&self, patches: usize, is_versioned_descriptor: bool) -> (b: bool)
        ensures
            b == self.resolvable(patches as nat, is_versioned_descriptor),
    {
        match self {
            DescriptorLoadArgumentsPatchReference::Unresolved(index) => !is_versioned_descriptor
                || *index < patches,
            _ => true,
        }
    }

    pub fn resolve(&mut self, patches: &[TableCell], is_versioned_descriptor: bool)
        requires
            old(self).resolvable(patches@.len(), is_versioned_descriptor),
        ensures
            *final(self) == old(self).resolved(patches@, is_versioned_descriptor),
    {
        if !is_versioned_descriptor {
            *self = DescriptorLoadArgumentsPatchReference::Absent;
            return ;
        }
        match *self {
            DescriptorLoadArgumentsPatchReference::Unresolved(index) => {
                *self = DescriptorLoadArgumentsPatchReference::Patch(patches[index]);
            },
            _ => {},
        }
    }

    pub fn is_resolved(&self) -> (b: bool)
        ensures
            b == !(*self is Unresolved),
    {
        !matches!(self, DescriptorLoadArgumentsPatchReference::Unresolved(_))
    }

    pub fn is_none(&self) -> (b: bool)
        ensures
            b == (*self is Absent),
    {
        matches!(self, DescriptorLoadArgumentsPatchReference::Absent)
    }

    pub fn is_patch(&self) -> (b: bool)
        ensures
            b == (*self is Patch),
    {
        matches!(self, DescriptorLoadArgumentsPatchReference::Patch(_))
    }
}

impl DescriptorLoadArguments {
    pub open spec fn resolvable(
        self,
        links: nat,
        infos: nat,
        patches: nat,
        info_offset: int,
        is_versioned_descriptor: bool,
    ) -> bool {
        match self {
            DescriptorLoadArguments::Unowned { link } => link.resolvable(links, 0),
            DescriptorLoadArguments::Owned { patch } => patch.resolvable(
                patches,
                is_versioned_descriptor,
            ),
            DescriptorLoadArguments::PackageSkip { info } => info.resolvable(infos, info_offset),
            DescriptorLoadArguments::SharedButOwned { link } => link.resolvable(links, 0),
            _ => true,
        }
    }

    pub open spec fn resolved(
        self,
        links: Seq<TableCell>,
        infos: Seq<TableCell>,
        patches: Seq<TableCell>,
        info_offset: int,
        is_versioned_descriptor: bool,
    ) -> Self {
        match self {
            DescriptorLoadArguments::Unowned { link } => DescriptorLoadArguments::Unowned {
                link: link.resolved_with(links, 0),
            },
            DescriptorLoadArguments::Owned { patch } => DescriptorLoadArguments::Owned {
                patch: patch.resolved(patches, is_versioned_descriptor),
            },
            DescriptorLoadArguments::PackageSkip { info } => DescriptorLoadArguments::PackageSkip {
                info: info.resolved_with(infos, info_offset),
            },
            DescriptorLoadArguments::SharedButOwned { link } => {
                DescriptorLoadArguments::SharedButOwned { link: link.resolved_with(links, 0) }
            },
            other => other,
        }
    }

    /// Whether every reference of the load arguments is resolved. Shared but
    /// owned data counts as resolved whatever its link is.
    pub open spec fn resolved_state(self) -> bool {
        match self {
            DescriptorLoadArguments::Unowned { link } => link is Resolved,
            DescriptorLoadArguments::Owned { patch } => !(patch is Unresolved),
            DescriptorLoadArguments::PackageSkip { info } => info is Resolved,
            _ => true,
        }
    }

    /// Data that the descriptor owns, of no patch.
    pub fn new() -> (args: Self)
        ensures
            args == (DescriptorLoadArguments::Owned {
                patch: DescriptorLoadArgumentsPatchReference::Absent,
            }),
    {
        DescriptorLoadArguments::Owned { patch: DescriptorLoadArgumentsPatchReference::Absent }
    }

    pub fn can_resolve(
        &self,
        links: usize,
        infos: usize,
        patches: usize,
        info_offset: usize,
        is_versioned_descriptor: bool,
    ) -> (b: bool)
        ensures
            b == self.resolvable(
                links as nat,
                infos as nat,
                patches as nat,
                info_offset as int,
                is_versioned_descriptor,
            ),
    {
        match self {
            DescriptorLoadArguments::Unowned { link } => link.can_resolve(links, 0),
            DescriptorLoadArguments::Owned { patch } => patch.can_resolve(
                patches,
                is_versioned_descriptor,
            ),
            DescriptorLoadArguments::PackageSkip { info } => info.can_resolve(infos, info_offset),
            DescriptorLoadArguments::SharedButOwned { link } => link.can_resolve(links, 0),
            _ => true,
        }
    }

    pub fn resolve(
        &mut self,
        links: &[TableCell],
        infos: &[TableCell],
        patches: &[TableCell],
        info_offset: usize,
        is_versioned_descriptor: bool,
    )
        requires
            old(self).resolvable(
                links@.len(),
                infos@.len(),
                patches@.len(),
                info_offset as int,
                is_versioned_descriptor,
            ),
        ensures
            *final(self) == old(self).resolved(
                links@,
                infos@,
                patches@,
                info_offset as int,
                is_versioned_descriptor,
            ),
    {
        match *self {
            DescriptorLoadArguments::Unowned { link } => {
                let mut link = link;
                link.resolve(links);
                *self = DescriptorLoadArguments::Unowned { link };
            },
            DescriptorLoadArguments::Owned { patch } => {
                let mut patch = patch;
                patch.resolve(patches, is_versioned_descriptor);
                *self = DescriptorLoadArguments::Owned { patch };
            },
            DescriptorLoadArguments::PackageSkip { info } => {
                let mut info = info;
                info.resolve_with_offset(infos, info_offset);
                *self = DescriptorLoadArguments::PackageSkip { info };
            },
            DescriptorLoadArguments::SharedButOwned { link } => {
                let mut link = link;
                link.resolve(links);
                *self = DescriptorLoadArguments::SharedButOwned { link };
            },
            _ => {},
        }
    }

    pub fn is_resolved(&self) -> (b: bool)
        ensures
            b == self.resolved_state(),
    {
        match self {
            DescriptorLoadArguments::Unowned { link } => link.is_resolved(),
            DescriptorLoadArguments::Owned { patch } => patch.is_resolved(),
            DescriptorLoadArguments::PackageSkip { info } => info.is_resolved(),
            _ => true,
        }
    }
}

impl Descriptor {
    pub open spec fn resolvable(
        self,
        groups: nat,
        links: nat,
        infos: nat,
        metadatas: nat,
        patches: nat,
        info_offset: int,
        is_versioned_descriptor: bool,
    ) -> bool {
        &&& self.group.resolvable(groups, 0)
        &&& self.metadata.resolvable(metadatas)
        &&& self.load_args.resolvable(links, infos, patches, info_offset, is_versioned_descriptor)
    }

    pub open spec fn resolved(
        self,
        groups: Seq<TableCell>,
        links: Seq<TableCell>,
        infos: Seq<TableCell>,
        metadatas: Seq<TableCell>,
        patches: Seq<TableCell>,
        info_offset: int,
        is_versioned_descriptor: bool,
    ) -> Descriptor {
        Descriptor {
            group: self.group.resolved_with(groups, 0),
            metadata: self.metadata.resolved(metadatas),
            load_args: self.load_args.resolved(
                links,
                infos,
                patches,
                info_offset,
                is_versioned_descriptor,
            ),
        }
    }

    pub fn new() -> (descriptor: Self)
        ensures
            descriptor == (Descriptor {
                group: TableReference::Unresolved(INVALID_INDEX),
                metadata: DescriptorMetadataReference::Absent,
                load_args: DescriptorLoadArguments::Owned {
                    patch: DescriptorLoadArgumentsPatchReference::Absent,
                },
            }),
    {
        Descriptor {
            group: TableReference::invalid(),
            metadata: DescriptorMetadataReference::Absent,
            load_args: DescriptorLoadArguments::new(),
        }
    }

    pub fn can_resolve(
        &self,
        groups: usize,
        links: usize,
        infos: usize,
        metadatas: usize,
        patches: usize,
        info_offset: usize,
        is_versioned_descriptor: bool,
    ) -> (b: bool)
        ensures
            b == self.resolvable(
                groups as nat,
                links as nat,
                infos as nat,
                metadatas as nat,
                patches as nat,
                info_offset as int,
                is_versioned_descriptor,
            ),
    {
        self.group.can_resolve(groups, 0) && self.metadata.can_resolve(metadatas)
            && self.load_args.can_resolve(
            links,
            infos,
            patches,
            info_offset,
            is_versioned_descriptor,
        )
    }

    pub fn resolve(
        &mut self,
        groups: &[TableCell],
        links: &[TableCell],
        infos: &[TableCell],
        metadatas: &[TableCell],
        patches: &[TableCell],
        info_offset: usize,
        is_versioned_descriptor: bool,
    )
        requires
            old(self).resolvable(
                groups@.len(),
                links@.len(),
                infos@.len(),
                metadatas@.len(),
                patches@.len(),
                info_offset as int,
                is_versioned_descriptor,
            ),
        ensures
            *final(self) == old(self).resolved(
                groups@,
                links@,
                infos@,
                metadatas@,
                patches@,
                info_offset as int,
                is_versioned_descriptor,
            ),
    {
        self.group.resolve(groups);
        self.metadata.resolve(metadatas);
        self.load_args.resolve(links, infos, patches, info_offset, is_versioned_descriptor);
    }

    pub fn is_resolved(&self) -> (b: bool)
        ensures
            b == (self.group is Resolved && !(self.metadata is Unresolved)
                && self.load_args.resolved_state()),
    {
        self.group.is_resolved() && self.metadata.is_resolved() && self.load_args.is_resolved()
    }
}

impl Metadata {
    /// A metadata that locates nothing yet: every size is the largest there
    /// is and no flag is set.
    pub fn new() -> (metadata: Self)
        ensures
            metadata == (Metadata {
                group_offset: u32::MAX,
                compressed_size: u32::MAX,
                decompressed_size: u32::MAX,
                is_standard_zstd: false,
                is_compressed: false,
                is_regional_versioned_data: false,
                is_localized_versioned_data: false,
            }),
    {
        Metadata {
            group_offset: u32::MAX,
            compressed_size: u32::MAX,
            decompressed_size: u32::MAX,
            is_standard_zstd: false,
            is_compressed: false,
            is_regional_versioned_data: false,
            is_localized_versioned_data: false,
        }
    }
}

impl PatchView {
    pub open spec fn resolvable(
        self,
        files: nat,
        infos: nat,
        groups: nat,
        patch_index: int,
        info_offset: int,
    ) -> bool {
        &&& self.versioned_files.resolvable(files, 0)
        &&& self.infos.resolvable(infos, info_offset)
        &&& self.group.resolvable(groups, patch_index)
    }

    /// The patch after resolving: its files as they are numbered, its infos
    /// counted from the first info of the version groups, its group counted
    /// from the patch's own ordinal.
    pub open spec fn resolved(
        self,
        files: Seq<TableCell>,
        infos: Seq<TableCell>,
        groups: Seq<TableCell>,
        patch_index: int,
        info_offset: int,
    ) -> PatchView {
        PatchView {
            versioned_files: self.versioned_files.resolved_with(files, 0),
            infos: self.infos.resolved_with(infos, info_offset),
            group: self.group.resolved_with(groups, patch_index),
            ..self
        }
    }

    pub open spec fn is_resolved(self) -> bool {
        self.versioned_files is Resolved && self.infos is Resolved && self.group is Resolved
    }
}

impl Patch {
    pub fn can_resolve(
        &self,
        files: usize,
        infos: usize,
        groups: usize,
        patch_index: usize,
        info_offset: usize,
    ) -> (b: bool)
        ensures
            b == self@.resolvable(
                files as nat,
                infos as nat,
                groups as nat,
                patch_index as int,
                info_offset as int,
            ),
    {
        self.versioned_files.can_resolve(files, 0) && self.infos.can_resolve(infos, info_offset)
            && self.group.can_resolve(groups, patch_index)
    }

    pub fn resolve(
        &mut self,
        files: &[TableCell],
        infos: &[TableCell],
        groups: &[TableCell],
        patch_index: usize,
        info_offset: usize,
    )
        requires
            old(self)@.resolvable(
                files@.len(),
                infos@.len(),
                groups@.len(),
                patch_index as int,
                info_offset as int,
            ),
        ensures
            final(self)@ == old(self)@.resolved(
                files@,
                infos@,
                groups@,
                patch_index as int,
                info_offset as int,
            ),
    {
        self.versioned_files.resolve(files);
        self.infos.resolve_with_offset(infos, info_offset);
        self.group.resolve_with_offset(groups, patch_index);
    }

    pub fn is_resolved(&self) -> (b: bool)
        ensures
            b == self@.is_resolved(),
    {
        self.versioned_files.0.is_resolved() && self.infos.0.is_resolved()
            && self.group.is_resolved()
    }
}

impl VersionedFile {
    pub open spec fn resolvable(self, links: nat, infos: nat) -> bool {
        &&& self.link.resolvable(links, 0)
        &&& self.info.resolvable(infos, 0)
    }

    pub open spec fn resolved(self, links: Seq<TableCell>, infos: Seq<TableCell>) -> VersionedFile {
        VersionedFile {
            link: self.link.resolved_with(links, 0),
            info: self.info.resolved_with(infos, 0),
            ..self
        }
    }

    pub fn can_resolve(&self, links: usize, infos: usize) -> (b: bool)
        ensures
            b == self.resolvable(links as nat, infos as nat),
    {
        self.link.can_resolve(links, 0) && self.info.can_resolve(infos, 0)
    }

    pub fn resolve(&mut self, links: &[TableCell], infos: &[TableCell])
        requires
            old(self).resolvable(links@.len(), infos@.len()),
        ensures
            *final(self) == old(self).resolved(links@, infos@),
    {
        self.link.resolve(links);
        self.info.resolve(infos);
    }

    pub fn is_resolved(&self) -> (b: bool)
        ensures
            b == (self.link is Resolved && self.info is Resolved),
    {
        self.link.is_resolved() && self.info.is_resolved()
    }
}


/// Why a string is no path of a file.
#[derive(Debug, Copy, Clone, PartialEq, Eq, Structural)]
pub enum PathFromStrError {
    /// The path has no file name.
    MissingFileName,
    /// The path has no extension.
    MissingExtension,
    /// The path has no parent.
    MissingParent,
}

impl PathFromStrError {
    /// What the error says.
    pub fn message(&self) -> (text: &'static str)
        ensures
            text@ == (match *self {
                PathFromStrError::MissingFileName => "Path should have a file-name"@,
                PathFromStrError::MissingExtension => "Path should have an extension"@,
                PathFromStrError::MissingParent => "Path should have a valid parent"@,
            }),
    {
        match self {
            PathFromStrError::MissingFileName => "Path should have a file-name",
            PathFromStrError::MissingExtension => "Path should have an extension",
            PathFromStrError::MissingParent => "Path should have a valid parent",
        }
    }
}

/// The hash of a text that may be missing.
pub open spec fn hashed_text(text: Option<Seq<char>>) -> Option<Hash40> {
    match text {
        Some(text) => Some(Hash40(hash40_of(text))),
        None => None,
    }
}

/// Hashes a string that may be missing.
pub fn hash_text(text: &Option<String>) -> (hash: Option<Hash40>)
    ensures
        hash == hashed_text(
            match *text {
                Some(text) => Some(text@),
                None => None,
            },
        ),
{
    match text {
        Some(text) => Some(hash_of(text.as_str())),
        None => None,
    }
}

impl Path {
    /// The path with the given hashes, bound to no link and no versioned
    /// file. The parent is asked for first, then the file name, then the
    /// extension: the first that is missing is the error.
    pub open spec fn of_hashes(
        full_path: Hash40,
        parent: Option<Hash40>,
        file_name: Option<Hash40>,
        extension: Option<Hash40>,
    ) -> Result<Path, PathFromStrError> {
        match parent {
            None => Err(PathFromStrError::MissingParent),
            Some(parent) => match file_name {
                None => Err(PathFromStrError::MissingFileName),
                Some(file_name) => match extension {
                    None => Err(PathFromStrError::MissingExtension),
                    Some(extension) => Ok(
                        Path {
                            full_path,
                            extension,
                            parent,
                            file_name,
                            link: TableReference::Unresolved(INVALID_INDEX),
                            versioned_file: PathVersionedFileReference::Absent,
                        },
                    ),
                },
            },
        }
    }

    /// The path that a string stands for: the hash of the whole string, and
    /// the hashes of its parent, its file name and its extension as the
    /// path rules cut them out.
    pub open spec fn parsed(text: Seq<char>) -> Result<Path, PathFromStrError> {
        Self::of_hashes(
            Hash40(hash40_of(text)),
            hashed_text(camino_parent(text)),
            hashed_text(camino_file_name(text)),
            hashed_text(camino_extension(text)),
        )
    }

    /// Builds a path from the hashes of its parts.
    pub fn from_hashes(
        full_path: Hash40,
        parent: Option<Hash40>,
        file_name: Option<Hash40>,
        extension: Option<Hash40>,
    ) -> (path: Result<Self, PathFromStrError>)
        ensures
            path == Self::of_hashes(full_path, parent, file_name, extension),
    {
        match parent {
            None => Err(PathFromStrError::MissingParent),
            Some(parent) => match file_name {
                None => Err(PathFromStrError::MissingFileName),
                Some(file_name) => match extension {
                    None => Err(PathFromStrError::MissingExtension),
                    Some(extension) => Ok(
                        Path {
                            full_path,
                            extension,
                            parent,
                            file_name,
                            link: TableReference::invalid(),
                            versioned_file: PathVersionedFileReference::Absent,
                        },
                    ),
                },
            },
        }
    }

    /// Reads a path from its string.
    pub fn from_str(text: &str) -> (path: Result<Self, PathFromStrError>)
        ensures
            path == Self::parsed(text@),
    {
        let parent = path_parent(text);
        let file_name = path_file_name(text);
        let extension = path_extension(text);
        Self::from_hashes(
            hash_of(text),
            hash_text(&parent),
            hash_text(&file_name),
            hash_text(&extension),
        )
    }

    /// Whether the extension is one of a graphics archive.
    pub open spec fn graphics_archive_extension(self) -> bool {
        self.extension.0 == hash40_of("nutexb"@) || self.extension.0 == hash40_of("arc"@)
            || self.extension.0 == hash40_of("bntx"@) || self.extension.0 == hash40_of("eff"@)
    }

    pub fn has_graphics_archive_extension(&self) -> (b: bool)
        ensures
            b == self.graphics_archive_extension(),
    {
        self.extension.0 == hash_of("nutexb").0 || self.extension.0 == hash_of("arc").0
            || self.extension.0 == hash_of("bntx").0 || self.extension.0 == hash_of("eff").0
    }
}


/// A package that was read has fifteen groups where it is localized, six
/// where it is regional and not localized, and one where it is neither; and
/// it keeps that number when its groups are resolved.
pub proof fn lemma_package_group_cardinality(
    data: Seq<u8>,
    off: int,
    groups: Seq<TableCell>,
    infos: Seq<TableCell>,
    child_packages: Seq<TableCell>,
)
    requires
        Package::decoded(data, off).unwrap().resolvable(
            groups.len(),
            infos.len(),
            child_packages.len(),
        ),
    ensures
        ({
            let package = Package::decoded(data, off).unwrap().resolved(
                groups,
                infos,
                child_packages,
            );
            let count = package.groups.cells().len();
            &&& package.groups is Resolved
            &&& count == 1 || count == 6 || count == 15
            &&& package.is_localized <==> count == 15
            &&& !package.is_localized && package.is_regional <==> count == 6
            &&& !package.is_localized && !package.is_regional <==> count == 1
        }),
{
    let word: u64 = u64_at(data, off);
    assert(word >> 40 <= 0x00FF_FFFF) by (bit_vector);
}

/// An info that was read has fifteen descriptors where it is localized, six
/// where it is regional and not localized, and one where it is neither; and
/// it keeps that number when its descriptors are resolved.
pub proof fn lemma_info_descriptor_cardinality(
    data: Seq<u8>,
    off: int,
    paths: Seq<TableCell>,
    links: Seq<TableCell>,
    descriptors: Seq<TableCell>,
)
    requires
        descriptors.len() < usize::MAX,
        Info::decoded(data, off).unwrap().resolvable(paths.len(), links.len(), descriptors.len()),
    ensures
        ({
            let info = Info::decoded(data, off).unwrap().resolved(paths, links, descriptors);
            let count = info.descriptors.cells().len();
            &&& info.descriptors is Resolved
            &&& count == 1 || count == 6 || count == 15
            &&& info.is_localized <==> count == 15
            &&& !info.is_localized && info.is_regional <==> count == 6
            &&& !info.is_localized && !info.is_regional <==> count == 1
        }),
{
}

} // verus!
