//! The bytes of the records of the packaged filesystem.
//!
//! A record is written against the rebuilt tables: every reference becomes
//! the index that its cell has there.
use vstd::prelude::*;
use std::ops::Range;

use crate::bytes::{push_record, record_bytes};
use crate::engines::packaged::types::{
    Descriptor, DescriptorLoadArguments, DescriptorLoadArgumentsPatchReference,
    DescriptorMetadataReference, Group, GroupFileReference, GroupFilesView,
    GroupSubPackageReference, GroupView, Info, InfoView, Link, LinkOwnerReference, Metadata,
    Package, PackageView, Path, PathVersionedFileReference, VersionedFile,
};
use crate::engines::packaged::writer::PackagedMakers;
use crate::engines::packaged::PackagedTables;
use crate::engines::rounds::{find_index, index_in};
use crate::engines::table::{
    ReferenceSetView, TableCell, TableContiguousReference, TableMaker, TableReference,
    TableReferenceSet,
};
use crate::engines::HashKey;
use crate::{INVALID_INDEX, INVALID_INDEX32};

verus! {

/// The index of the cell of a resolved reference.
pub open spec fn reference_index(table: Seq<TableCell>, reference: TableReference) -> Option<
    u32,
> {
    match reference {
        TableReference::Resolved(cell) => index_in(table, cell),
        TableReference::Unresolved(_) => None,
    }
}

/// Where a resolved set starts and how many cells it has. An empty set
/// starts at zero.
pub open spec fn set_span(table: Seq<TableCell>, set: ReferenceSetView<Range<usize>>) -> Option<
    (u32, u32),
> {
    match set {
        ReferenceSetView::Unresolved(_) => None,
        ReferenceSetView::Resolved(cells) => if cells.len() == 0 {
            Some((0u32, 0u32))
        } else {
            match index_in(table, cells[0]) {
                None => None,
                Some(start) => Some((start, cells.len() as u32)),
            }
        },
    }
}

/// The index of the first cell of a resolved set that is not empty.
pub open spec fn set_first(table: Seq<TableCell>, set: ReferenceSetView<Range<usize>>) -> Option<
    u32,
> {
    match set {
        ReferenceSetView::Unresolved(_) => None,
        ReferenceSetView::Resolved(cells) => if cells.len() == 0 {
            None
        } else {
            index_in(table, cells[0])
        },
    }
}

pub fn find_reference(maker: &TableMaker, reference: &TableReference) -> (index: Option<u32>)
    requires
        maker.wf(),
    ensures
        index == reference_index(maker@, *reference),
{
    match reference {
        TableReference::Resolved(cell) => find_index(maker, cell),
        TableReference::Unresolved(_) => None,
    }
}

pub fn find_span(maker: &TableMaker, set: &TableContiguousReference) -> (span: Option<(u32, u32)>)
    requires
        maker.wf(),
    ensures
        span == set_span(maker@, set@),
{
    match &set.0 {
        TableReferenceSet::Unresolved(_) => None,
        TableReferenceSet::Resolved(cells) => {
            if cells.len() == 0 {
                Some((0u32, 0u32))
            } else {
                match find_index(maker, &cells[0]) {
                    None => None,
                    Some(start) => Some((start, #[verifier::truncate] (cells.len() as u32))),
                }
            }
        },
    }
}

pub fn find_first(maker: &TableMaker, set: &TableContiguousReference) -> (first: Option<u32>)
    requires
        maker.wf(),
    ensures
        first == set_first(maker@, set@),
{
    match &set.0 {
        TableReferenceSet::Unresolved(_) => None,
        TableReferenceSet::Resolved(cells) => {
            if cells.len() == 0 {
                None
            } else {
                find_index(maker, &cells[0])
            }
        },
    }
}

/// The word with bit `bit` set where `set` holds, and zero else.
pub open spec fn flag_bit(set: bool, bit: u32) -> u32 {
    if set {
        1u32 << bit
    } else {
        0u32
    }
}

pub fn bit_of(set: bool, bit: u32) -> (word: u32)
    requires
        bit < 32,
    ensures
        word == flag_bit(set, bit),
{
    if set {
        1u32 << bit
    } else {
        0u32
    }
}

impl PackageView {
    /// The flag word of the package.
    pub open spec fn flags(self) -> u32 {
        flag_bit(self.is_localized, 24) | flag_bit(self.is_regional, 25) | flag_bit(
            self.has_sub_package,
            26,
        ) | flag_bit(self.sym_link_is_regional, 27) | flag_bit(self.is_sym_link, 28)
    }

    /// The 0x34 bytes of the package: its path packed with the index of its
    /// first group, three hashes, the span of its infos, the span of its
    /// child-package entries and its flags. A package without a group has no
    /// bytes.
    pub open spec fn encoded(self, t: PackagedTables) -> Option<Seq<u8>> {
        match (
            set_first(t.groups, self.groups),
            set_span(t.infos, self.infos),
            set_span(t.child_packages, self.child_packages),
        ) {
            (Some(group), Some(infos), Some(children)) => Some(
                record_bytes(
                    seq![
                        HashKey::pack(self.full_path, group as usize).0,
                        self.name.0,
                        self.parent.0,
                        self.lifetime.0,
                    ],
                    seq![infos.0, infos.1, children.0, children.1, self.flags()],
                ),
            ),
            _ => None,
        }
    }
}

impl Package {
    /// Appends the bytes of the package to `out`. Writes nothing and returns
    /// false where the package has no bytes.
    pub fn write(&self, out: &mut Vec<u8>, makers: &PackagedMakers) -> (done: bool)
        requires
            makers.wf(),
        ensures
            done == self@.encoded(makers@).is_some(),
            done ==> final(out)@ == old(out)@ + self@.encoded(makers@).unwrap(),
            !done ==> final(out)@ == old(out)@,
    {
        let group = match find_first(&makers.groups, &self.groups) {
            None => {
                return false;
            },
            Some(group) => group,
        };
        let infos = match find_span(&makers.infos, &self.infos) {
            None => {
                return false;
            },
            Some(infos) => infos,
        };
        let children = match find_span(&makers.child_packages, &self.child_packages) {
            None => {
                return false;
            },
            Some(children) => children,
        };
        let flags: u32 = bit_of(self.is_localized, 24) | bit_of(self.is_regional, 25) | bit_of(
            self.has_sub_package,
            26,
        ) | bit_of(self.sym_link_is_regional, 27) | bit_of(self.is_sym_link, 28);
        let quads: Vec<u64> = vec![
            HashKey::new(self.full_path, group as usize).0,
            self.name.0,
            self.parent.0,
            self.lifetime.0,
        ];
        let words: Vec<u32> = vec![infos.0, infos.1, children.0, children.1, flags];
        push_record(out, quads.as_slice(), words.as_slice());
        true
    }
}

impl crate::engines::packaged::types::ChildPackage {
    /// The eight bytes of the entry: its path packed with the index of its
    /// package.
    pub open spec fn encoded(self, t: PackagedTables) -> Option<Seq<u8>> {
        match reference_index(t.packages, self.package) {
            Some(package) => Some(
                record_bytes(seq![HashKey::pack(self.full_path, package as usize).0], seq![]),
            ),
            None => None,
        }
    }

    pub fn write(&self, out: &mut Vec<u8>, makers: &PackagedMakers) -> (done: bool)
        requires
            makers.wf(),
        ensures
            done == self.encoded(makers@).is_some(),
            done ==> final(out)@ == old(out)@ + self.encoded(makers@).unwrap(),
            !done ==> final(out)@ == old(out)@,
    {
        match find_reference(&makers.packages, &self.package) {
            None => false,
            Some(package) => {
                let quads: Vec<u64> = vec![HashKey::new(self.full_path, package as usize).0];
                let words: Vec<u32> = Vec::new();
                assert(quads@ =~= seq![HashKey::pack(self.full_path, package as usize).0]);
                assert(words@ =~= seq![]);
                push_record(out, quads.as_slice(), words.as_slice());
                true
            },
        }
    }
}

impl GroupView {
    /// The index that stands for the sub-package of the group: the invalid
    /// index for a version-group, which has none, and the index of its group
    /// for any other info-group; for a metadata-group the index of its group
    /// or package. A metadata-group without a sub-package has no such index:
    /// it would be read back as a version-group.
    pub open spec fn sub_package_index(self, t: PackagedTables) -> Option<u32> {
        if self.is_info_group() {
            match self.sub_package {
                GroupSubPackageReference::Absent => Some(INVALID_INDEX32),
                GroupSubPackageReference::Group(group) => index_in(t.groups, group),
                _ => None,
            }
        } else {
            match self.sub_package {
                GroupSubPackageReference::Group(group) => index_in(t.groups, group),
                GroupSubPackageReference::Package(package) => index_in(t.packages, package),
                _ => None,
            }
        }
    }

    /// The span of the files of the group.
    pub open spec fn files_span(self, t: PackagedTables) -> Option<(u32, u32)> {
        match self.files {
            GroupFilesView::Info(set) => set_span(t.infos, set),
            GroupFilesView::Metadata(set) => set_span(t.metadatas, set),
            GroupFilesView::Unresolved(_) => None,
        }
    }

    /// The 0x1C bytes of the group: where its data lies, its two sizes, the
    /// span of its files and its sub-package.
    pub open spec fn encoded(self, t: PackagedTables) -> Option<Seq<u8>> {
        match (self.files_span(t), self.sub_package_index(t)) {
            (Some(files), Some(sub_package)) => Some(
                record_bytes(
                    seq![self.archive_offset],
                    seq![
                        self.decompressed_size,
                        self.compressed_size,
                        files.0,
                        files.1,
                        sub_package,
                    ],
                ),
            ),
            _ => None,
        }
    }
}

impl Group {
    pub fn write(&self, out: &mut Vec<u8>, makers: &PackagedMakers) -> (done: bool)
        requires
            makers.wf(),
        ensures
            done == self@.encoded(makers@).is_some(),
            done ==> final(out)@ == old(out)@ + self@.encoded(makers@).unwrap(),
            !done ==> final(out)@ == old(out)@,
    {
        let files = match &self.files {
            GroupFileReference::Info(set) => find_span(&makers.infos, set),
            GroupFileReference::Metadata(set) => find_span(&makers.metadatas, set),
            GroupFileReference::Unresolved(_) => None,
        };
        let files = match files {
            None => {
                return false;
            },
            Some(files) => files,
        };
        let sub_package = if self.is_info_group() {
            match &self.sub_package {
                GroupSubPackageReference::Absent => Some(INVALID_INDEX32),
                GroupSubPackageReference::Group(group) => find_index(&makers.groups, group),
                _ => None,
            }
        } else {
            match &self.sub_package {
                GroupSubPackageReference::Group(group) => find_index(&makers.groups, group),
                GroupSubPackageReference::Package(package) => find_index(
                    &makers.packages,
                    package,
                ),
                _ => None,
            }
        };
        let sub_package = match sub_package {
            None => {
                return false;
            },
            Some(sub_package) => sub_package,
        };
        let quads: Vec<u64> = vec![self.archive_offset];
        assert(quads@ =~= seq![self.archive_offset]);
        let words: Vec<u32> = vec![
            self.decompressed_size,
            self.compressed_size,
            files.0,
            files.1,
            sub_package,
        ];
        push_record(out, quads.as_slice(), words.as_slice());
        true
    }
}

impl Path {
    /// The index that stands for the versioned file of the path: counted
    /// from the first file of the latest patch, and the invalid index where
    /// the path has none.
    pub open spec fn versioned_index(self, t: PackagedTables, last_patch_files_start: usize)
        -> Option<usize> {
        match self.versioned_file {
            PathVersionedFileReference::VersionedFile(file) => match index_in(
                t.versioned_files,
                file,
            ) {
                Some(index) => if index >= last_patch_files_start {
                    Some((index - last_patch_files_start) as usize)
                } else {
                    None
                },
                None => None,
            },
            _ => Some(INVALID_INDEX),
        }
    }

    /// The 0x20 bytes of the path: its hash packed with the index of its
    /// link, its extension packed with the index of its versioned file, the
    /// hash of its parent and the hash of its file name.
    pub open spec fn encoded(self, t: PackagedTables, last_patch_files_start: usize) -> Option<
        Seq<u8>,
    > {
        match (
            reference_index(t.links, self.link),
            self.versioned_index(t, last_patch_files_start),
        ) {
            (Some(link), Some(versioned)) => Some(
                record_bytes(
                    seq![
                        HashKey::pack(self.full_path, link as usize).0,
                        HashKey::pack(self.extension, versioned).0,
                        self.parent.0,
                        self.file_name.0,
                    ],
                    seq![],
                ),
            ),
            _ => None,
        }
    }

    pub fn write(&self, out: &mut Vec<u8>, makers: &PackagedMakers, last_patch_files_start: usize)
        -> (done: bool)
        requires
            makers.wf(),
        ensures
            done == self.encoded(makers@, last_patch_files_start).is_some(),
            done ==> final(out)@ == old(out)@ + self.encoded(
                makers@,
                last_patch_files_start,
            ).unwrap(),
            !done ==> final(out)@ == old(out)@,
    {
        let link = match find_reference(&makers.links, &self.link) {
            None => {
                return false;
            },
            Some(link) => link,
        };
        let versioned: usize = match &self.versioned_file {
            PathVersionedFileReference::VersionedFile(file) => match find_index(
                &makers.versioned_files,
                file,
            ) {
                Some(index) => {
                    if index as usize >= last_patch_files_start {
                        index as usize - last_patch_files_start
                    } else {
                        return false;
                    }
                },
                None => {
                    return false;
                },
            },
            _ => INVALID_INDEX,
        };
        let quads: Vec<u64> = vec![
            HashKey::new(self.full_path, link as usize).0,
            HashKey::new(self.extension, versioned).0,
            self.parent.0,
            self.file_name.0,
        ];
        let words: Vec<u32> = Vec::new();
        push_record(out, quads.as_slice(), words.as_slice());
        true
    }
}

impl Link {
    /// The index that stands for the owner of the link: the index of a
    /// package, or the index of a group counted on from the last package.
    pub open spec fn owner_index(self, t: PackagedTables) -> Option<u32> {
        match self.owner {
            LinkOwnerReference::Package(package) => index_in(t.packages, package),
            LinkOwnerReference::Group(group) => match index_in(t.groups, group) {
                Some(index) => if index + t.packages.len() <= u32::MAX {
                    Some((index + t.packages.len()) as u32)
                } else {
                    None
                },
                None => None,
            },
            LinkOwnerReference::Unresolved(_) => None,
        }
    }

    /// The eight bytes of the link: the index of its owner and the index of
    /// its info.
    pub open spec fn encoded(self, t: PackagedTables) -> Option<Seq<u8>> {
        match (self.owner_index(t), reference_index(t.infos, self.info)) {
            (Some(owner), Some(info)) => Some(record_bytes(seq![], seq![owner, info])),
            _ => None,
        }
    }

    pub fn write(&self, out: &mut Vec<u8>, makers: &PackagedMakers) -> (done: bool)
        requires
            makers.wf(),
        ensures
            done == self.encoded(makers@).is_some(),
            done ==> final(out)@ == old(out)@ + self.encoded(makers@).unwrap(),
            !done ==> final(out)@ == old(out)@,
    {
        let owner = match &self.owner {
            LinkOwnerReference::Package(package) => find_index(&makers.packages, package),
            LinkOwnerReference::Group(group) => match find_index(&makers.groups, group) {
                Some(index) => {
                    let packages: usize = makers.packages.len();
                    if packages <= u32::MAX as usize && index <= u32::MAX - packages as u32 {
                        Some(index + packages as u32)
                    } else {
                        None
                    }
                },
                None => None,
            },
            LinkOwnerReference::Unresolved(_) => None,
        };
        let owner = match owner {
            None => {
                return false;
            },
            Some(owner) => owner,
        };
        let info = match find_reference(&makers.infos, &self.info) {
            None => {
                return false;
            },
            Some(info) => info,
        };
        let quads: Vec<u64> = Vec::new();
        let words: Vec<u32> = vec![owner, info];
        push_record(out, quads.as_slice(), words.as_slice());
        true
    }
}

impl InfoView {
    /// The flag word of the info.
    pub open spec fn flags(self) -> u32 {
        flag_bit(self.is_regular_file, 4) | flag_bit(self.is_graphics_archive, 12) | flag_bit(
            self.is_localized,
            15,
        ) | flag_bit(self.is_regional, 16) | flag_bit(self.is_shared, 20) | flag_bit(
            self.is_unknown_flag,
            21,
        )
    }

    /// The 0x10 bytes of the info: the indices of its path, of its link and
    /// of its first descriptor, and its flags.
    pub open spec fn encoded(self, t: PackagedTables) -> Option<Seq<u8>> {
        match (
            reference_index(t.paths, self.path),
            reference_index(t.links, self.link),
            set_first(t.descriptors, self.descriptors),
        ) {
            (Some(path), Some(link), Some(descriptor)) => Some(
                record_bytes(seq![], seq![path, link, descriptor, self.flags()]),
            ),
            _ => None,
        }
    }
}

impl Info {
    pub fn write(&self, out: &mut Vec<u8>, makers: &PackagedMakers) -> (done: bool)
        requires
            makers.wf(),
        ensures
            done == self@.encoded(makers@).is_some(),
            done ==> final(out)@ == old(out)@ + self@.encoded(makers@).unwrap(),
            !done ==> final(out)@ == old(out)@,
    {
        let path = match find_reference(&makers.paths, &self.path) {
            None => {
                return false;
            },
            Some(path) => path,
        };
        let link = match find_reference(&makers.links, &self.link) {
            None => {
                return false;
            },
            Some(link) => link,
        };
        let descriptor = match find_first(&makers.descriptors, &self.descriptors) {
            None => {
                return false;
            },
            Some(descriptor) => descriptor,
        };
        let flags: u32 = bit_of(self.is_regular_file, 4) | bit_of(self.is_graphics_archive, 12)
            | bit_of(self.is_localized, 15) | bit_of(self.is_regional, 16) | bit_of(
            self.is_shared,
            20,
        ) | bit_of(self.is_unknown_flag, 21);
        let quads: Vec<u64> = Vec::new();
        let words: Vec<u32> = vec![path, link, descriptor, flags];
        push_record(out, quads.as_slice(), words.as_slice());
        true
    }
}

impl DescriptorLoadArguments {
    /// The word that stands for the load arguments: the tag in the top
    /// byte, the payload below it. The info of a package skip is counted
    /// from `info_offset`; owned data of no patch has payload zero.
    pub open spec fn encoded(self, t: PackagedTables, info_offset: usize) -> Option<u32> {
        match self {
            DescriptorLoadArguments::Unowned { link } => match reference_index(t.links, link) {
                Some(index) => Some(index & 0x00FF_FFFF),
                None => None,
            },
            DescriptorLoadArguments::Owned { patch } => match patch {
                DescriptorLoadArgumentsPatchReference::Patch(patch) => match index_in(
                    t.patches,
                    patch,
                ) {
                    Some(index) => Some(0x0100_0000u32 | (index & 0x00FF_FFFF)),
                    None => None,
                },
                _ => Some(0x0100_0000u32),
            },
            DescriptorLoadArguments::PackageSkip { info } => match reference_index(
                t.infos,
                info,
            ) {
                Some(index) => if index >= info_offset {
                    Some(0x0300_0000u32 | ((index - info_offset) as u32))
                } else {
                    None
                },
                None => None,
            },
            DescriptorLoadArguments::Unknown => Some(0x0500_0000u32),
            DescriptorLoadArguments::SharedButOwned { link } => match reference_index(
                t.links,
                link,
            ) {
                Some(index) => Some((index & 0x00FF_FFFF) | 0x0900_0000u32),
                None => None,
            },
            DescriptorLoadArguments::UnsupportedRegion { region_locale } => Some(
                0x1000_0000u32 | (region_locale as u32),
            ),
        }
    }

    /// Computes the word that stands for the load arguments.
    pub fn to_bits(&self, makers: &PackagedMakers, info_offset: usize) -> (word: Option<u32>)
        requires
            makers.wf(),
        ensures
            word == self.encoded(makers@, info_offset),
    {
        match self {
            DescriptorLoadArguments::Unowned { link } => match find_reference(
                &makers.links,
                link,
            ) {
                Some(index) => Some(index & 0x00FF_FFFF),
                None => None,
            },
            DescriptorLoadArguments::Owned { patch } => match patch {
                DescriptorLoadArgumentsPatchReference::Patch(patch) => match find_index(
                    &makers.patches,
                    patch,
                ) {
                    Some(index) => Some(0x0100_0000u32 | (index & 0x00FF_FFFF)),
                    None => None,
                },
                _ => Some(0x0100_0000u32),
            },
            DescriptorLoadArguments::PackageSkip { info } => match find_reference(
                &makers.infos,
                info,
            ) {
                Some(index) => {
                    if index as usize >= info_offset {
                        Some(0x0300_0000u32 | ((index as usize - info_offset) as u32))
                    } else {
                        None
                    }
                },
                None => None,
            },
            DescriptorLoadArguments::Unknown => Some(0x0500_0000u32),
            DescriptorLoadArguments::SharedButOwned { link } => match find_reference(
                &makers.links,
                link,
            ) {
                Some(index) => Some((index & 0x00FF_FFFF) | 0x0900_0000u32),
                None => None,
            },
            DescriptorLoadArguments::UnsupportedRegion { region_locale } => Some(
                0x1000_0000u32 | (#[verifier::truncate] (*region_locale as u32)),
            ),
        }
    }
}

impl Descriptor {
    /// The index that stands for the metadata of the descriptor: the invalid
    /// index where it has none.
    pub open spec fn metadata_index(self, t: PackagedTables) -> Option<u32> {
        match self.metadata {
            DescriptorMetadataReference::Metadata(metadata) => index_in(t.metadatas, metadata),
            _ => Some(INVALID_INDEX32),
        }
    }

    /// The 0xC bytes of the descriptor: the index of its group, the index
    /// of its metadata and the word of its load arguments.
    pub open spec fn encoded(self, t: PackagedTables, info_offset: usize) -> Option<Seq<u8>> {
        match (
            reference_index(t.groups, self.group),
            self.metadata_index(t),
            self.load_args.encoded(t, info_offset),
        ) {
            (Some(group), Some(metadata), Some(load_args)) => Some(
                record_bytes(seq![], seq![group, metadata, load_args]),
            ),
            _ => None,
        }
    }

    pub fn write(&self, out: &mut Vec<u8>, makers: &PackagedMakers, info_offset: usize) -> (done:
        bool)
        requires
            makers.wf(),
        ensures
            done == self.encoded(makers@, info_offset).is_some(),
            done ==> final(out)@ == old(out)@ + self.encoded(makers@, info_offset).unwrap(),
            !done ==> final(out)@ == old(out)@,
    {
        let group = match find_reference(&makers.groups, &self.group) {
            None => {
                return false;
            },
            Some(group) => group,
        };
        let metadata = match &self.metadata {
            DescriptorMetadataReference::Metadata(metadata) => match find_index(
                &makers.metadatas,
                metadata,
            ) {
                None => {
                    return false;
                },
                Some(metadata) => metadata,
            },
            _ => INVALID_INDEX32,
        };
        let load_args = match self.load_args.to_bits(makers, info_offset) {
            None => {
                return false;
            },
            Some(load_args) => load_args,
        };
        let quads: Vec<u64> = Vec::new();
        let words: Vec<u32> = vec![group, metadata, load_args];
        push_record(out, quads.as_slice(), words.as_slice());
        true
    }
}

impl Metadata {
    /// The flag word of the metadata.
    pub open spec fn flags(self) -> u32 {
        flag_bit(self.is_standard_zstd, 0) | flag_bit(self.is_compressed, 1) | flag_bit(
            self.is_regional_versioned_data,
            2,
        ) | flag_bit(self.is_localized_versioned_data, 3)
    }

    /// The 0x10 bytes of the metadata: its offset in the group, its two
    /// sizes and its flags.
    pub open spec fn encoded(self) -> Seq<u8> {
        record_bytes(
            seq![],
            seq![self.group_offset, self.compressed_size, self.decompressed_size, self.flags()],
        )
    }

    pub fn write(&self, out: &mut Vec<u8>)
        ensures
            final(out)@ == old(out)@ + self.encoded(),
    {
        let flags: u32 = bit_of(self.is_standard_zstd, 0) | bit_of(self.is_compressed, 1) | bit_of(
            self.is_regional_versioned_data,
            2,
        ) | bit_of(self.is_localized_versioned_data, 3);
        let quads: Vec<u64> = Vec::new();
        let words: Vec<u32> = vec![
            self.group_offset,
            self.compressed_size,
            self.decompressed_size,
            flags,
        ];
        push_record(out, quads.as_slice(), words.as_slice());
    }
}

impl VersionedFile {
    /// The index that carries whether the file changed in its patch: zero
    /// where it did, and the highest of the 24 bits of an index where it
    /// did not.
    pub open spec fn changed_index(self) -> usize {
        if self.changed_this_patch {
            0
        } else {
            0x0080_0000
        }
    }

    /// The 0x14 bytes of the versioned file: its path packed with the word
    /// that says whether it changed, the index of its info, the index of the
    /// group of its patch and the index of its link.
    pub open spec fn encoded(self, t: PackagedTables, group_index: u32) -> Option<Seq<u8>> {
        match (reference_index(t.infos, self.info), reference_index(t.links, self.link)) {
            (Some(info), Some(link)) => Some(
                record_bytes(
                    seq![HashKey::pack(self.path, self.changed_index()).0],
                    seq![info, group_index, link],
                ),
            ),
            _ => None,
        }
    }

    pub fn write(&self, out: &mut Vec<u8>, makers: &PackagedMakers, group_index: u32) -> (done:
        bool)
        requires
            makers.wf(),
        ensures
            done == self.encoded(makers@, group_index).is_some(),
            done ==> final(out)@ == old(out)@ + self.encoded(makers@, group_index).unwrap(),
            !done ==> final(out)@ == old(out)@,
    {
        let info = match find_reference(&makers.infos, &self.info) {
            None => {
                return false;
            },
            Some(info) => info,
        };
        let link = match find_reference(&makers.links, &self.link) {
            None => {
                return false;
            },
            Some(link) => link,
        };
        let changed: usize = if self.changed_this_patch {
            0
        } else {
            0x0080_0000
        };
        let quads: Vec<u64> = vec![HashKey::new(self.path, changed).0];
        assert(quads@ =~= seq![HashKey::pack(self.path, self.changed_index()).0]);
        let words: Vec<u32> = vec![info, group_index, link];
        push_record(out, quads.as_slice(), words.as_slice());
        true
    }
}

} // verus!
