//! The records of the archive as they lie in its tables, field for field.
use vstd::prelude::*;

use crate::engines::Hash40;

verus! {

/// The flags of a package.
#[derive(Debug, Copy, Clone, PartialEq, Eq, Structural)]
pub struct PackageFlags {
    pub bits: u32,
}

impl PackageFlags {
    pub const IS_LOCALIZED: u32 = 0x0100_0000;

    pub const IS_REGIONAL: u32 = 0x0200_0000;

    pub const HAS_SUB_PACKAGE: u32 = 0x0400_0000;

    pub const SYM_LINK_IS_REGIONAL: u32 = 0x0800_0000;

    pub const IS_SYM_LINK: u32 = 0x1000_0000;

    /// Whether every bit of `flag` is set.
    pub fn contains(&self, flag: u32) -> (b: bool)
        ensures
            b == (self.bits & flag == flag),
    {
        self.bits & flag == flag
    }
}

/// The flags of an info.
#[derive(Debug, Copy, Clone, PartialEq, Eq, Structural)]
pub struct InfoFlags {
    pub bits: u32,
}

impl InfoFlags {
    pub const IS_REGULAR_FILE: u32 = 0x0000_0010;

    pub const IS_GRAPHICS_ARCHIVE: u32 = 0x0000_1000;

    pub const IS_LOCALIZED: u32 = 0x0000_8000;

    pub const IS_REGIONAL: u32 = 0x0001_0000;

    pub const IS_SHARED: u32 = 0x0010_0000;

    pub const UNKNOWN: u32 = 0x0020_0000;

    /// Whether every bit of `flag` is set.
    pub fn contains(&self, flag: u32) -> (b: bool)
        ensures
            b == (self.bits & flag == flag),
    {
        self.bits & flag == flag
    }
}

/// The flags of a metadata.
#[derive(Debug, Copy, Clone, PartialEq, Eq, Structural)]
pub struct MetadataFlags {
    pub bits: u32,
}

impl MetadataFlags {
    pub const IS_REGULAR_ZSTD: u32 = 0x0000_0001;

    pub const IS_COMPRESSED: u32 = 0x0000_0002;

    pub const IS_VERSIONED_REGIONAL_DATA: u32 = 0x0000_0004;

    pub const IS_VERSIONED_LOCALIZED_DATA: u32 = 0x0000_0008;

    /// Whether every bit of `flag` is set.
    pub fn contains(&self, flag: u32) -> (b: bool)
        ensures
            b == (self.bits & flag == flag),
    {
        self.bits & flag == flag
    }
}

/// A hash with an index beside it, as two 32-bit words: the checksum of the
/// hash, and a word whose lowest byte is the length of the hash and whose
/// other bytes are the index.
#[derive(Debug, Copy, Clone, PartialEq, Eq, Structural)]
pub struct RawHashKey {
    pub hash: u32,
    pub len_and_index: u32,
}

impl RawHashKey {
    /// The hash: the checksum in the low 32 bits, and above them the
    /// length, which is the lowest byte of the second word.
    pub fn hash40(self) -> (hash: Hash40)
        ensures
            hash.0 == (self.hash as u64) | (((self.len_and_index & 0xFF) as u64) << 32),
    {
        Hash40((self.hash as u64) | (((self.len_and_index & 0xFF) as u64) << 32))
    }

    /// The index: the second word without its lowest byte.
    pub fn index(self) -> (index: usize)
        ensures
            index == self.len_and_index >> 8,
            index <= 0x00FF_FFFF,
    {
        let word: u32 = self.len_and_index;
        assert(word >> 8 <= 0x00FF_FFFF) by (bit_vector);
        (word >> 8) as usize
    }
}

/// A package as it lies in its table.
#[derive(Debug, Copy, Clone, PartialEq, Eq, Structural)]
pub struct RawPackage {
    pub path_and_group_index: RawHashKey,
    pub name: RawHashKey,
    pub parent: RawHashKey,
    pub lifetime: RawHashKey,
    pub info_start: u32,
    pub info_count: u32,
    pub child_start: u32,
    pub child_count: u32,
    pub flags: PackageFlags,
}

/// A group as it lies in its table.
#[derive(Debug, Copy, Clone, PartialEq, Eq, Structural)]
pub struct RawGroup {
    pub archive_offset_1: u32,
    pub archive_offset_2: u32,
    pub decompressed_size: u32,
    pub compressed_size: u32,
    pub range_start: u32,
    pub range_count: u32,
    pub sub_package: u32,
}

impl RawGroup {
    /// Where the data of the group lies in the archive: the first word is
    /// the low half of the offset, the second its high half.
    pub fn archive_offset(self) -> (offset: u64)
        ensures
            offset == (self.archive_offset_1 as u64) | ((self.archive_offset_2 as u64) << 32),
    {
        (self.archive_offset_1 as u64) | ((self.archive_offset_2 as u64) << 32)
    }
}

/// A path as it lies in its table.
#[derive(Debug, Copy, Clone, PartialEq, Eq, Structural)]
pub struct RawPath {
    pub path_and_link_index: RawHashKey,
    pub extension_and_versioned_file_index: RawHashKey,
    pub parent: Hash40,
    pub file_name: Hash40,
}

/// A link as it lies in its table.
#[derive(Debug, Copy, Clone, PartialEq, Eq, Structural)]
pub struct RawLink {
    pub owner: u32,
    pub info: u32,
}

/// An info as it lies in its table.
#[derive(Debug, Copy, Clone, PartialEq, Eq, Structural)]
pub struct RawInfo {
    pub path: u32,
    pub link: u32,
    pub descriptor: u32,
    pub flags: InfoFlags,
}

/// A descriptor as it lies in its table.
#[derive(Debug, Copy, Clone, PartialEq, Eq, Structural)]
pub struct RawDescriptor {
    pub group: u32,
    pub metadata: u32,
    pub load_args: u32,
}

/// A metadata as it lies in its table.
#[derive(Debug, Copy, Clone, PartialEq, Eq, Structural)]
pub struct RawMetadata {
    pub group_offset: u32,
    pub compressed_size: u32,
    pub decompressed_size: u32,
    pub flags: MetadataFlags,
}

/// A folder of the search filesystem as it lies in its table.
#[derive(Debug, Copy, Clone, PartialEq, Eq, Structural)]
pub struct RawSearchFolder {
    pub path_and_folder_count: RawHashKey,
    pub parent_and_file_count: RawHashKey,
    pub name: Hash40,
    pub first_child_index: u32,
}

/// A path of the search filesystem as it lies in its table.
#[derive(Debug, Copy, Clone, PartialEq, Eq, Structural)]
pub struct RawSearchPath {
    pub path_and_next_index: RawHashKey,
    pub parent_and_is_folder: RawHashKey,
    pub name: RawHashKey,
    pub extension: RawHashKey,
}

} // verus!
