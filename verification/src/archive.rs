//! The archive: the outer container, its two compressed sections, and the
//! three filesystems that they hold.
use vstd::prelude::*;

pub mod framing;

use crate::bytes::{
    le32, le64, push_bytes, push_u32, push_u64, push_u8, push_zeros, read_u32, read_u64, read_u8,
    u32_at, u64_at, zeros,
};
use crate::engines::packaged::serialize::ToMemoryResults;
use crate::engines::packaged::types::{
    ChildPackage, Descriptor, Group, Info, Link, Metadata, Package, Patch, Path, VersionedFile,
};
use crate::engines::packaged::{
    fresh_model, patch_files_decoded, read_patch_files, PackagedCells, PackagedCellsView,
    PackagedEngine, PackagedModel,
};
use crate::engines::search::types::{SearchFolder, SearchPath};
use crate::engines::search::{
    fresh_search_model, SearchCells, SearchCellsView, SearchEngine, SearchModel,
};
use crate::engines::stream::types::{StreamFolder, StreamLink, StreamMetadata, StreamPath};
use crate::engines::stream::{
    fresh_stream_model, StreamCells, StreamCellsView, StreamEngine, StreamModel,
};
use crate::engines::table::{CellIds, CellStore};
use crate::paths::camino_components;
use crate::engines::{
    read_records, records_decoded, records_fit, views, TableRecord, Version,
};
use crate::engines::packaged::writer::{reorganized, PackagedWriter, WriterModel};
use crate::engines::search::{search_reorganized, SearchWriter, SearchWriterModel};
use crate::engines::stream::{stream_reorganized, StreamWriter, StreamWriterModel};
use crate::engines::table::TableCell;
use crate::engines::packaged::serialize::memory_results;
use crate::{compress_data, compressed, ArchiveError, Decompressor};

verus! {

/// The magic that starts an archive.
pub const ARCHIVE_MAGIC: u64 = 0xABCD_EF98_7654_3210;

/// The magic that starts the header of a section of tables.
pub const TABLES_MAGIC: u32 = 0x10;

/// The outer header of an archive: where the file data starts and where the
/// two sections of tables lie.
#[derive(Debug, Copy, Clone, PartialEq, Eq, Structural)]
pub struct ArchiveHeader {
    pub stream_data_start: u64,
    pub file_data_start: u64,
    pub shared_file_data_start: u64,
    pub non_user_tables_ptr: u64,
    pub user_tables_ptr: u64,
}

impl ArchiveHeader {
    /// The header that the first 48 bytes of `data` hold: there is none in
    /// fewer bytes, and none behind a wrong magic.
    pub open spec fn decoded(data: Seq<u8>) -> Result<ArchiveHeader, ArchiveError> {
        if data.len() < 48 {
            Err(ArchiveError::Io)
        } else if u64_at(data, 0) != ARCHIVE_MAGIC {
            Err(ArchiveError::BadMagic)
        } else {
            Ok(
                ArchiveHeader {
                    stream_data_start: u64_at(data, 8),
                    file_data_start: u64_at(data, 16),
                    shared_file_data_start: u64_at(data, 24),
                    non_user_tables_ptr: u64_at(data, 32),
                    user_tables_ptr: u64_at(data, 40),
                },
            )
        }
    }

    pub fn parse(data: &[u8]) -> (header: Result<Self, ArchiveError>)
        ensures
            header == Self::decoded(data@),
    {
        if data.len() < 48 {
            return Err(ArchiveError::Io);
        }
        if read_u64(data, 0) != ARCHIVE_MAGIC {
            return Err(ArchiveError::BadMagic);
        }
        Ok(
            ArchiveHeader {
                stream_data_start: read_u64(data, 8),
                file_data_start: read_u64(data, 16),
                shared_file_data_start: read_u64(data, 24),
                non_user_tables_ptr: read_u64(data, 32),
                user_tables_ptr: read_u64(data, 40),
            },
        )
    }

    /// The 48 bytes of the header.
    pub open spec fn encoded(self) -> Seq<u8> {
        le64(ARCHIVE_MAGIC) + le64(self.stream_data_start) + le64(self.file_data_start) + le64(
            self.shared_file_data_start,
        ) + le64(self.non_user_tables_ptr) + le64(self.user_tables_ptr)
    }

    pub fn write(&self, out: &mut Vec<u8>)
        ensures
            final(out)@ == old(out)@ + self.encoded(),
    {
        let mut part: Vec<u8> = Vec::new();
        push_u64(&mut part, ARCHIVE_MAGIC);
        push_u64(&mut part, self.stream_data_start);
        push_u64(&mut part, self.file_data_start);
        push_u64(&mut part, self.shared_file_data_start);
        push_u64(&mut part, self.non_user_tables_ptr);
        push_u64(&mut part, self.user_tables_ptr);
        assert(part@ =~= self.encoded());
        push_bytes(out, part.as_slice());
    }
}

/// The header of a section of tables: how long the tables are, how long
/// their compressed bytes are, and how long the section is with its padding.
#[derive(Debug, Copy, Clone, PartialEq, Eq, Structural)]
pub struct ArchiveTablesHeader {
    pub decompressed_size: u32,
    pub compressed_size: u32,
    pub compressed_section_size: u32,
}

/// A section of tables as it lies in the archive: its header and where its
/// compressed bytes start and end.
pub struct SectionFrame {
    pub header: ArchiveTablesHeader,
    pub start: int,
    pub end: int,
}

impl ArchiveTablesHeader {
    /// The section that lies at `ptr`: there is none where the header or
    /// the compressed bytes do not lie within the data, and none behind a
    /// wrong magic.
    pub open spec fn framed_at(data: Seq<u8>, ptr: u64) -> Result<SectionFrame, ArchiveError> {
        if ptr + 16 > data.len() {
            Err(ArchiveError::Io)
        } else if u32_at(data, ptr as int) != TABLES_MAGIC {
            Err(ArchiveError::BadMagic)
        } else {
            let header = ArchiveTablesHeader {
                decompressed_size: u32_at(data, ptr + 4),
                compressed_size: u32_at(data, ptr + 8),
                compressed_section_size: u32_at(data, ptr + 12),
            };
            if ptr + 16 + header.compressed_size > data.len() {
                Err(ArchiveError::Io)
            } else {
                Ok(
                    SectionFrame {
                        header,
                        start: ptr + 16,
                        end: ptr + 16 + header.compressed_size,
                    },
                )
            }
        }
    }

    /// The header that the first sixteen bytes of `data` hold: there is
    /// none in fewer bytes, and none behind a wrong magic.
    pub open spec fn decoded(data: Seq<u8>) -> Result<ArchiveTablesHeader, ArchiveError> {
        if data.len() < 16 {
            Err(ArchiveError::Io)
        } else if u32_at(data, 0) != TABLES_MAGIC {
            Err(ArchiveError::BadMagic)
        } else {
            Ok(
                ArchiveTablesHeader {
                    decompressed_size: u32_at(data, 4),
                    compressed_size: u32_at(data, 8),
                    compressed_section_size: u32_at(data, 12),
                },
            )
        }
    }

    /// Reads the header of a section from its first sixteen bytes.
    pub fn parse(data: &[u8]) -> (header: Result<Self, ArchiveError>)
        ensures
            header == Self::decoded(data@),
    {
        let len: usize = data.len();
        if len < 16 {
            return Err(ArchiveError::Io);
        }
        if read_u32(data, 0) != TABLES_MAGIC {
            return Err(ArchiveError::BadMagic);
        }
        Ok(
            ArchiveTablesHeader {
                decompressed_size: read_u32(data, 4),
                compressed_size: read_u32(data, 8),
                compressed_section_size: read_u32(data, 12),
            },
        )
    }

    /// Finds the section that lies at `ptr`. Returns its header and the
    /// range of its compressed bytes.
    pub fn find(data: &[u8], ptr: u64) -> (found: Result<(Self, usize, usize), ArchiveError>)
        ensures
            match found {
                Ok((header, start, end)) => Self::framed_at(data@, ptr) matches Ok(frame)
                    && frame.header == header && frame.start == start && frame.end == end
                    && start <= end <= data@.len(),
                Err(error) => Self::framed_at(data@, ptr) matches Err(other) && other == error,
            },
    {
        let len: usize = data.len();
        if len < 16 || ptr > (len - 16) as u64 {
            return Err(ArchiveError::Io);
        }
        let at: usize = ptr as usize;
        if read_u32(data, at) != TABLES_MAGIC {
            return Err(ArchiveError::BadMagic);
        }
        let header = ArchiveTablesHeader {
            decompressed_size: read_u32(data, at + 4),
            compressed_size: read_u32(data, at + 8),
            compressed_section_size: read_u32(data, at + 12),
        };
        if header.compressed_size as u64 > (len - 16 - at) as u64 {
            return Err(ArchiveError::Io);
        }
        Ok((header, at + 16, at + 16 + header.compressed_size as usize))
    }

    /// The sixteen bytes of the header.
    pub open spec fn encoded(self) -> Seq<u8> {
        le32(TABLES_MAGIC) + le32(self.decompressed_size) + le32(self.compressed_size) + le32(
            self.compressed_section_size,
        )
    }
}

/// The next multiple of eight from `size` on.
pub open spec fn rounded_up(size: nat) -> nat {
    if size % 8 == 0 {
        size
    } else {
        (size + 8 - size % 8) as nat
    }
}

/// A section of tables as it is written: its header, its compressed bytes,
/// and zero bytes up to the next multiple of eight. The sizes in the header
/// are cut to 32 bits.
pub open spec fn framed_section(decompressed_size: nat, compressed: Seq<u8>) -> Seq<u8> {
    (ArchiveTablesHeader {
        decompressed_size: decompressed_size as u32,
        compressed_size: compressed.len() as u32,
        compressed_section_size: rounded_up(compressed.len()) as u32,
    }).encoded() + compressed + zeros((rounded_up(compressed.len()) - compressed.len()) as nat)
}

/// Appends a section of tables: the header, the compressed bytes and the
/// padding.
pub fn write_section(out: &mut Vec<u8>, decompressed_size: usize, compressed: &[u8])
    ensures
        final(out)@ == old(out)@ + framed_section(decompressed_size as nat, compressed@),
        framed_section(decompressed_size as nat, compressed@).len() == 16 + rounded_up(
            compressed@.len(),
        ),
{
    let len: usize = compressed.len();
    let rest: usize = len % 8;
    let padding: usize = if rest == 0 {
        0
    } else {
        8 - rest
    };
    let mut part: Vec<u8> = Vec::new();
    push_u32(&mut part, TABLES_MAGIC);
    push_u32(&mut part, #[verifier::truncate] (decompressed_size as u32));
    push_u32(&mut part, #[verifier::truncate] (len as u32));
    push_u32(&mut part, #[verifier::truncate] ((len as u128 + padding as u128) as u32));
    push_bytes(&mut part, compressed);
    push_zeros(&mut part, padding);
    proof {
        crate::bytes::lemma_le_len();
        assert(part@ =~= framed_section(decompressed_size as nat, compressed@));
    }
    push_bytes(out, part.as_slice());
}

/// The place after `bytes` more bytes, if they lie within `len` bytes.
pub open spec fn skipped(len: nat, pos: int, bytes: int) -> Option<int> {
    if pos + bytes <= len {
        Some(pos + bytes)
    } else {
        None
    }
}

/// Computes [`skipped`] for `count` items of `width` bytes.
pub fn skip(len: usize, pos: usize, count: usize, width: usize) -> (next: Option<usize>)
    requires
        width <= 0x100,
        pos <= len,
    ensures
        match next {
            Some(next) => skipped(len as nat, pos as int, count * width) == Some(next as int)
                && next <= len,
            None => skipped(len as nat, pos as int, count * width) is None,
        },
{
    if width == 0 {
        assert(count * width == 0) by (nonlinear_arith)
            requires
                width == 0,
        ;
        return Some(pos);
    }
    if count > (len - pos) / width {
        assert(count * width > len - pos) by (nonlinear_arith)
            requires
                count > (len - pos) / (width as int),
                width > 0,
                len - pos >= 0,
        ;
        None
    } else {
        assert(count * width <= len - pos) by (nonlinear_arith)
            requires
                count <= (len - pos) / (width as int),
                width > 0,
                len - pos >= 0,
        ;
        Some(pos + count * width)
    }
}

/// The `count` records that start at `pos`, and the place after them.
pub open spec fn taken<T: TableRecord>(data: Seq<u8>, pos: int, count: nat) -> Option<
    (Seq<T::V>, int),
> {
    if records_fit::<T>(data.len(), pos, count) {
        match records_decoded::<T>(data, pos, count) {
            Some(records) => Some((records, pos + count * T::width())),
            None => None,
        }
    } else {
        None
    }
}

/// Reads the `count` records that start at `pos`. Returns them with the
/// place after them.
pub fn take<T: TableRecord>(data: &[u8], pos: usize, count: usize) -> (result: Option<
    (Vec<T>, usize),
>)
    ensures
        match result {
            Some((records, next)) => taken::<T>(data@, pos as int, count as nat) == Some(
                (views(records@), next as int),
            ) && pos <= next <= data@.len(),
            None => taken::<T>(data@, pos as int, count as nat) is None,
        },
{
    let len: usize = data.len();
    let size: usize = T::repr_size();
    match read_records::<T>(data, pos, count) {
        None => None,
        Some(records) => {
            assert(count * size >= 0) by (nonlinear_arith)
                requires
                    count >= 0,
                    size >= 0,
            ;
            Some((records, pos + count * size))
        },
    }
}

/// The `count` triples of 32-bit integers that start at `pos`.
pub open spec fn triples_at(data: Seq<u8>, pos: int, count: nat) -> Seq<(u32, u32, u32)> {
    Seq::new(
        count,
        |i: int|
            (
                u32_at(data, pos + 12 * i),
                u32_at(data, pos + 12 * i + 4),
                u32_at(data, pos + 12 * i + 8),
            ),
    )
}

/// Reads the `count` triples that start at `pos`.
pub fn read_triples(data: &[u8], pos: usize, count: usize) -> (triples: Vec<(u32, u32, u32)>)
    requires
        pos + 12 * count <= data@.len(),
    ensures
        triples@ == triples_at(data@, pos as int, count as nat),
{
    let len: usize = data.len();
    let mut triples: Vec<(u32, u32, u32)> = Vec::new();
    let mut i: usize = 0;
    while i < count
        invariant
            i <= count,
            pos + 12 * count <= len,
            len == data@.len(),
            triples@ == triples_at(data@, pos as int, i as nat),
        decreases count - i,
    {
        let at: usize = pos + 12 * i;
        triples.push((read_u32(data, at), read_u32(data, at + 4), read_u32(data, at + 8)));
        assert(triples@ =~= triples_at(data@, pos as int, (i + 1) as nat));
        i = i + 1;
    }
    triples
}

/// The bytes of the first `upto` triples.
pub open spec fn triples_bytes(triples: Seq<(u32, u32, u32)>, upto: nat) -> Seq<u8>
    decreases upto,
{
    if upto == 0 {
        Seq::empty()
    } else {
        triples_bytes(triples, (upto - 1) as nat) + le32(triples[upto - 1].0) + le32(
            triples[upto - 1].1,
        ) + le32(triples[upto - 1].2)
    }
}

/// Appends the bytes of the triples.
pub fn write_triples(out: &mut Vec<u8>, triples: &[(u32, u32, u32)])
    ensures
        final(out)@ == old(out)@ + triples_bytes(triples@, triples@.len()),
{
    let mut i: usize = 0;
    while i < triples.len()
        invariant
            i <= triples@.len(),
            out@ == old(out)@ + triples_bytes(triples@, i as nat),
        decreases triples@.len() - i,
    {
        let triple = triples[i];
        push_u32(out, triple.0);
        push_u32(out, triple.1);
        push_u32(out, triple.2);
        assert(out@ =~= old(out)@ + triples_bytes(triples@, (i + 1) as nat));
        i = i + 1;
    }
}

/// The header of the packaged filesystem: the sizes of its tables, each in
/// the three parts of the packages, the info-groups and the version-groups.
#[derive(Debug, Copy, Clone, PartialEq, Eq, Structural)]
pub struct PackagedFsHeader {
    pub path_count: u32,
    pub link_count: u32,
    pub package_count: u32,
    pub metadata_group_count: u32,
    pub child_package_count: u32,
    pub package_info_count: u32,
    pub package_descriptor_count: u32,
    pub package_metadata_count: u32,
    pub info_group_count: u32,
    pub group_info_count: u32,
    pub locale_count: u8,
    pub region_count: u8,
    pub version: Version,
    pub version_group_count: u32,
    pub versioned_file_count: u32,
    pub version_info_count: u32,
    pub version_descriptor_count: u32,
    pub version_metadata_count: u32,
}

/// The number of bytes of the header of the packaged filesystem before its
/// table of regions.
pub const PACKAGED_HEADER_SIZE: usize = 84;

impl PackagedFsHeader {
    /// The header that the 84 bytes from `off` on hold.
    pub open spec fn decoded(data: Seq<u8>, off: int) -> PackagedFsHeader {
        PackagedFsHeader {
            path_count: u32_at(data, off),
            link_count: u32_at(data, off + 4),
            package_count: u32_at(data, off + 8),
            metadata_group_count: u32_at(data, off + 12),
            child_package_count: u32_at(data, off + 16),
            package_info_count: u32_at(data, off + 20),
            package_descriptor_count: u32_at(data, off + 24),
            package_metadata_count: u32_at(data, off + 28),
            info_group_count: u32_at(data, off + 32),
            group_info_count: u32_at(data, off + 36),
            locale_count: data[off + 52],
            region_count: data[off + 53],
            version: Version::decoded(data, off + 56),
            version_group_count: u32_at(data, off + 60),
            versioned_file_count: u32_at(data, off + 64),
            version_info_count: u32_at(data, off + 72),
            version_descriptor_count: u32_at(data, off + 76),
            version_metadata_count: u32_at(data, off + 80),
        }
    }

    pub fn parse(data: &[u8], off: usize) -> (header: Self)
        requires
            off + 84 <= data@.len(),
        ensures
            header == Self::decoded(data@, off as int),
    {
        let len: usize = data.len();
        PackagedFsHeader {
            path_count: read_u32(data, off),
            link_count: read_u32(data, off + 4),
            package_count: read_u32(data, off + 8),
            metadata_group_count: read_u32(data, off + 12),
            child_package_count: read_u32(data, off + 16),
            package_info_count: read_u32(data, off + 20),
            package_descriptor_count: read_u32(data, off + 24),
            package_metadata_count: read_u32(data, off + 28),
            info_group_count: read_u32(data, off + 32),
            group_info_count: read_u32(data, off + 36),
            locale_count: read_u8(data, off + 52),
            region_count: read_u8(data, off + 53),
            version: Version::parse(data, off + 56),
            version_group_count: read_u32(data, off + 60),
            versioned_file_count: read_u32(data, off + 64),
            version_info_count: read_u32(data, off + 72),
            version_descriptor_count: read_u32(data, off + 76),
            version_metadata_count: read_u32(data, off + 80),
        }
    }

    /// The number of groups: those of the three parts together.
    pub open spec fn group_count(self) -> nat {
        (self.metadata_group_count + self.info_group_count + self.version_group_count) as nat
    }

    /// The number of infos: those of the three parts together.
    pub open spec fn info_count(self) -> nat {
        (self.package_info_count + self.group_info_count + self.version_info_count) as nat
    }

    /// The number of descriptors. Each info of an info-group has one.
    pub open spec fn descriptor_count(self) -> nat {
        (self.package_descriptor_count + self.group_info_count
            + self.version_descriptor_count) as nat
    }

    /// The number of metadatas. Each info of an info-group has one.
    pub open spec fn metadata_count(self) -> nat {
        (self.package_metadata_count + self.group_info_count + self.version_metadata_count) as nat
    }

    /// The 84 bytes of the header. The number of locales is written as
    /// fourteen and the number of regions as five, whatever the header
    /// holds.
    pub open spec fn encoded(self) -> Seq<u8> {
        le32(self.path_count) + le32(self.link_count) + le32(self.package_count) + le32(
            self.metadata_group_count,
        ) + le32(self.child_package_count) + le32(self.package_info_count) + le32(
            self.package_descriptor_count,
        ) + le32(self.package_metadata_count) + le32(self.info_group_count) + le32(
            self.group_info_count,
        ) + zeros(12) + seq![14u8, 5u8] + zeros(2) + self.version.encoded() + le32(
            self.version_group_count,
        ) + le32(self.versioned_file_count) + zeros(4) + le32(self.version_info_count) + le32(
            self.version_descriptor_count,
        ) + le32(self.version_metadata_count)
    }

    pub fn write(&self, out: &mut Vec<u8>)
        ensures
            final(out)@ == old(out)@ + self.encoded(),
    {
        let mut part: Vec<u8> = Vec::new();
        push_u32(&mut part, self.path_count);
        push_u32(&mut part, self.link_count);
        push_u32(&mut part, self.package_count);
        push_u32(&mut part, self.metadata_group_count);
        push_u32(&mut part, self.child_package_count);
        push_u32(&mut part, self.package_info_count);
        push_u32(&mut part, self.package_descriptor_count);
        push_u32(&mut part, self.package_metadata_count);
        push_u32(&mut part, self.info_group_count);
        push_u32(&mut part, self.group_info_count);
        push_zeros(&mut part, 12);
        push_u8(&mut part, 14);
        push_u8(&mut part, 5);
        push_zeros(&mut part, 2);
        self.version.write(&mut part);
        push_u32(&mut part, self.version_group_count);
        push_u32(&mut part, self.versioned_file_count);
        push_zeros(&mut part, 4);
        push_u32(&mut part, self.version_info_count);
        push_u32(&mut part, self.version_descriptor_count);
        push_u32(&mut part, self.version_metadata_count);
        assert(part@ =~= self.encoded());
        push_bytes(out, part.as_slice());
    }
}

/// The header of the stream filesystem: the sizes of its tables.
#[derive(Debug, Copy, Clone, PartialEq, Eq, Structural)]
pub struct StreamFsHeader {
    pub folder_count: u32,
    pub path_count: u32,
    pub link_count: u32,
    pub metadata_count: u32,
}

impl StreamFsHeader {
    pub open spec fn decoded(data: Seq<u8>, off: int) -> StreamFsHeader {
        StreamFsHeader {
            folder_count: u32_at(data, off),
            path_count: u32_at(data, off + 4),
            link_count: u32_at(data, off + 8),
            metadata_count: u32_at(data, off + 12),
        }
    }

    pub fn parse(data: &[u8], off: usize) -> (header: Self)
        requires
            off + 16 <= data@.len(),
        ensures
            header == Self::decoded(data@, off as int),
    {
        let len: usize = data.len();
        StreamFsHeader {
            folder_count: read_u32(data, off),
            path_count: read_u32(data, off + 4),
            link_count: read_u32(data, off + 8),
            metadata_count: read_u32(data, off + 12),
        }
    }

    pub open spec fn encoded(self) -> Seq<u8> {
        le32(self.folder_count) + le32(self.path_count) + le32(self.link_count) + le32(
            self.metadata_count,
        )
    }

    pub fn write(&self, out: &mut Vec<u8>)
        ensures
            final(out)@ == old(out)@ + self.encoded(),
    {
        let mut part: Vec<u8> = Vec::new();
        push_u32(&mut part, self.folder_count);
        push_u32(&mut part, self.path_count);
        push_u32(&mut part, self.link_count);
        push_u32(&mut part, self.metadata_count);
        assert(part@ =~= self.encoded());
        push_bytes(out, part.as_slice());
    }
}

/// The header of the search filesystem: the sizes of its tables.
#[derive(Debug, Copy, Clone, PartialEq, Eq, Structural)]
pub struct SearchFsHeader {
    pub folder_count: u32,
    pub path_link_count: u32,
    pub path_count: u32,
}

impl SearchFsHeader {
    pub open spec fn decoded(data: Seq<u8>, off: int) -> SearchFsHeader {
        SearchFsHeader {
            folder_count: u32_at(data, off),
            path_link_count: u32_at(data, off + 4),
            path_count: u32_at(data, off + 8),
        }
    }

    pub fn parse(data: &[u8], off: usize) -> (header: Self)
        requires
            off + 12 <= data@.len(),
        ensures
            header == Self::decoded(data@, off as int),
    {
        let len: usize = data.len();
        SearchFsHeader {
            folder_count: read_u32(data, off),
            path_link_count: read_u32(data, off + 4),
            path_count: read_u32(data, off + 8),
        }
    }

    pub open spec fn encoded(self) -> Seq<u8> {
        le32(self.folder_count) + le32(self.path_link_count) + le32(self.path_count)
    }

    pub fn write(&self, out: &mut Vec<u8>)
        ensures
            final(out)@ == old(out)@ + self.encoded(),
    {
        let mut part: Vec<u8> = Vec::new();
        push_u32(&mut part, self.folder_count);
        push_u32(&mut part, self.path_link_count);
        push_u32(&mut part, self.path_count);
        assert(part@ =~= self.encoded());
        push_bytes(out, part.as_slice());
    }
}

/// The tables of the stream filesystem as they lie in the section from
/// `pos` on: the folders, the keys of the paths (which are passed over), the
/// paths, the links and the metadatas. With them comes the place after
/// them.
pub open spec fn stream_tables_decoded(data: Seq<u8>, pos: int, header: StreamFsHeader) -> Option<
    (StreamCellsView, int),
> {
    match taken::<StreamFolder>(data, pos, header.folder_count as nat) {
        None => None,
        Some((folders, pos)) => match skipped(data.len(), pos, header.path_count * 8) {
            None => None,
            Some(pos) => match taken::<StreamPath>(data, pos, header.path_count as nat) {
                None => None,
                Some((paths, pos)) => match taken::<StreamLink>(
                    data,
                    pos,
                    header.link_count as nat,
                ) {
                    None => None,
                    Some((links, pos)) => match taken::<StreamMetadata>(
                        data,
                        pos,
                        header.metadata_count as nat,
                    ) {
                        None => None,
                        Some((metadatas, pos)) => Some(
                            (StreamCellsView { folders, paths, links, metadatas }, pos),
                        ),
                    },
                },
            },
        }
    }
}

/// Reads the tables of the stream filesystem from `pos` on.
pub fn read_stream_tables(data: &[u8], pos: usize, header: &StreamFsHeader) -> (result: Option<
    (StreamCells, usize),
>)
    requires
        pos <= data@.len(),
    ensures
        match result {
            Some((cells, next)) => stream_tables_decoded(data@, pos as int, *header) == Some(
                (cells@, next as int),
            ) && next <= data@.len(),
            None => stream_tables_decoded(data@, pos as int, *header) is None,
        },
{
    let len: usize = data.len();
    let (folders, pos) = match take::<StreamFolder>(data, pos, header.folder_count as usize) {
        None => {
            return None;
        },
        Some(taken) => taken,
    };
    let pos = match skip(len, pos, header.path_count as usize, 8) {
        None => {
            return None;
        },
        Some(pos) => pos,
    };
    let (paths, pos) = match take::<StreamPath>(data, pos, header.path_count as usize) {
        None => {
            return None;
        },
        Some(taken) => taken,
    };
    let (links, pos) = match take::<StreamLink>(data, pos, header.link_count as usize) {
        None => {
            return None;
        },
        Some(taken) => taken,
    };
    let (metadatas, pos) = match take::<StreamMetadata>(data, pos, header.metadata_count as usize) {
        None => {
            return None;
        },
        Some(taken) => taken,
    };
    Some(
        (
            StreamCells {
                folders: CellStore::unnamed(folders),
                paths: CellStore::unnamed(paths),
                links: CellStore::unnamed(links),
                metadatas: CellStore::unnamed(metadatas),
            },
            pos,
        ),
    )
}

/// The tables of records of the packaged filesystem, without its patches.
pub struct PackagedRecords {
    pub packages: Vec<Package>,
    pub child_packages: Vec<ChildPackage>,
    pub groups: Vec<Group>,
    pub paths: Vec<Path>,
    pub links: Vec<Link>,
    pub infos: Vec<Info>,
    pub descriptors: Vec<Descriptor>,
    pub metadatas: Vec<Metadata>,
}

impl PackagedRecords {
    /// The records, with the patches `patches` and their files
    /// `versioned_files`.
    pub open spec fn with_patches(
        self,
        patches: Seq<crate::engines::packaged::types::PatchView>,
        versioned_files: Seq<VersionedFile>,
    ) -> PackagedCellsView {
        PackagedCellsView {
            packages: views(self.packages@),
            child_packages: views(self.child_packages@),
            groups: views(self.groups@),
            paths: views(self.paths@),
            links: views(self.links@),
            infos: views(self.infos@),
            descriptors: views(self.descriptors@),
            metadatas: views(self.metadatas@),
            patches,
            versioned_files,
        }
    }
}

/// The tables of records of the packaged filesystem as they lie in the
/// section from `pos` on: the paths, the links, the keys of the packages
/// (which are passed over), the packages, the groups, the child-package
/// entries, the infos, the descriptors and the metadatas. The patches are
/// still missing. With the tables comes the place after them.
pub open spec fn packaged_tables_decoded(data: Seq<u8>, pos: int, h: PackagedFsHeader) -> Option<
    (PackagedCellsView, int),
> {
    match taken::<Path>(data, pos, h.path_count as nat) {
        None => None,
        Some((paths, pos)) => match taken::<Link>(data, pos, h.link_count as nat) {
            None => None,
            Some((links, pos)) => match skipped(data.len(), pos, h.package_count * 8) {
                None => None,
                Some(pos) => match taken::<Package>(data, pos, h.package_count as nat) {
                    None => None,
                    Some((packages, pos)) => match taken::<Group>(data, pos, h.group_count()) {
                        None => None,
                        Some((groups, pos)) => match taken::<ChildPackage>(
                            data,
                            pos,
                            h.child_package_count as nat,
                        ) {
                            None => None,
                            Some((child_packages, pos)) => match taken::<Info>(
                                data,
                                pos,
                                h.info_count(),
                            ) {
                                None => None,
                                Some((infos, pos)) => match taken::<Descriptor>(
                                    data,
                                    pos,
                                    h.descriptor_count(),
                                ) {
                                    None => None,
                                    Some((descriptors, pos)) => match taken::<Metadata>(
                                        data,
                                        pos,
                                        h.metadata_count(),
                                    ) {
                                        None => None,
                                        Some((metadatas, pos)) => Some(
                                            (
                                                PackagedCellsView {
                                                    packages,
                                                    child_packages,
                                                    groups,
                                                    paths,
                                                    links,
                                                    infos,
                                                    descriptors,
                                                    metadatas,
                                                    patches: Seq::empty(),
                                                    versioned_files: Seq::empty(),
                                                },
                                                pos,
                                            ),
                                        ),
                                    },
                                },
                            },
                        },
                    },
                },
            },
        },
    }
}

/// The sum of three counts, if the machine can count that far.
pub fn sum3(a: u32, b: u32, c: u32) -> (sum: Option<usize>)
    ensures
        match sum {
            Some(sum) => sum == a + b + c,
            None => a + b + c > usize::MAX,
        },
{
    let total: u64 = a as u64 + b as u64 + c as u64;
    if total > usize::MAX as u64 {
        None
    } else {
        Some(total as usize)
    }
}

/// Reads the tables of records of the packaged filesystem from `pos` on.
pub fn read_packaged_tables(data: &[u8], pos: usize, h: &PackagedFsHeader) -> (result: Option<
    (PackagedRecords, usize),
>)
    requires
        pos <= data@.len(),
    ensures
        match result {
            Some((records, next)) => packaged_tables_decoded(data@, pos as int, *h) == Some(
                (records.with_patches(Seq::empty(), Seq::empty()), next as int),
            ) && next <= data@.len(),
            None => packaged_tables_decoded(data@, pos as int, *h) is None,
        },
{
    let len: usize = data.len();
    let (paths, pos) = match take::<Path>(data, pos, h.path_count as usize) {
        None => {
            return None;
        },
        Some(taken) => taken,
    };
    let (links, pos) = match take::<Link>(data, pos, h.link_count as usize) {
        None => {
            return None;
        },
        Some(taken) => taken,
    };
    let pos = match skip(len, pos, h.package_count as usize, 8) {
        None => {
            return None;
        },
        Some(pos) => pos,
    };
    let (packages, pos) = match take::<Package>(data, pos, h.package_count as usize) {
        None => {
            return None;
        },
        Some(taken) => taken,
    };
    let group_count = match sum3(h.metadata_group_count, h.info_group_count, h.version_group_count) {
        None => {
            proof {
                lemma_too_many::<Group>(data@, pos as int, h.group_count());
            }
            return None;
        },
        Some(count) => count,
    };
    let (groups, pos) = match take::<Group>(data, pos, group_count) {
        None => {
            return None;
        },
        Some(taken) => taken,
    };
    let (child_packages, pos) = match take::<ChildPackage>(
        data,
        pos,
        h.child_package_count as usize,
    ) {
        None => {
            return None;
        },
        Some(taken) => taken,
    };
    let info_count = match sum3(h.package_info_count, h.group_info_count, h.version_info_count) {
        None => {
            proof {
                lemma_too_many::<Info>(data@, pos as int, h.info_count());
            }
            return None;
        },
        Some(count) => count,
    };
    let (infos, pos) = match take::<Info>(data, pos, info_count) {
        None => {
            return None;
        },
        Some(taken) => taken,
    };
    let descriptor_count = match sum3(
        h.package_descriptor_count,
        h.group_info_count,
        h.version_descriptor_count,
    ) {
        None => {
            proof {
                lemma_too_many::<Descriptor>(data@, pos as int, h.descriptor_count());
            }
            return None;
        },
        Some(count) => count,
    };
    let (descriptors, pos) = match take::<Descriptor>(data, pos, descriptor_count) {
        None => {
            return None;
        },
        Some(taken) => taken,
    };
    let metadata_count = match sum3(
        h.package_metadata_count,
        h.group_info_count,
        h.version_metadata_count,
    ) {
        None => {
            proof {
                lemma_too_many::<Metadata>(data@, pos as int, h.metadata_count());
            }
            return None;
        },
        Some(count) => count,
    };
    let (metadatas, pos) = match take::<Metadata>(data, pos, metadata_count) {
        None => {
            return None;
        },
        Some(taken) => taken,
    };
    Some(
        (
            PackagedRecords {
                packages,
                child_packages,
                groups,
                paths,
                links,
                infos,
                descriptors,
                metadatas,
            },
            pos,
        ),
    )
}

/// More records than the machine can count do not lie within any data.
pub proof fn lemma_too_many<T: TableRecord>(data: Seq<u8>, pos: int, count: nat)
    requires
        count > usize::MAX,
        pos >= 0,
        data.len() <= usize::MAX,
        T::width() > 0,
    ensures
        taken::<T>(data, pos, count) is None,
{
    assert(count * T::width() >= count) by (nonlinear_arith)
        requires
            T::width() > 0,
            count >= 0,
    ;
}


/// What the non-user section of an archive holds.
pub struct NonUserModel {
    pub packaged: PackagedModel,
    pub stream: StreamModel,
    pub version: Version,
    pub region_lookup_table: Seq<(u32, u32, u32)>,
}

impl NonUserModel {
    /// How many cells the two filesystems hold together.
    pub open spec fn cell_count(self) -> int {
        self.packaged.cells.cell_count() + self.stream.cells.cell_count()
    }
}

/// The non-user section of an archive: the packaged filesystem, the stream
/// filesystem, the version of the archive and its table of regions.
pub struct ArchiveNonUserTables {
    pub packaged: PackagedEngine,
    pub stream: StreamEngine,
    pub version: Version,
    pub region_lookup_table: Vec<(u32, u32, u32)>,
}

impl View for ArchiveNonUserTables {
    type V = NonUserModel;

    open spec fn view(&self) -> NonUserModel {
        NonUserModel {
            packaged: self.packaged@,
            stream: self.stream@,
            version: self.version,
            region_lookup_table: self.region_lookup_table@,
        }
    }
}

/// The version, the patches and their files as they lie in the section from
/// `pos` on: the version, the number of patches, the patches, and for each
/// patch its files followed by its lookup.
pub open spec fn patches_decoded(data: Seq<u8>, pos: int) -> Option<
    (Version, Seq<crate::engines::packaged::types::PatchView>, Seq<VersionedFile>),
> {
    if pos + 8 > data.len() {
        None
    } else {
        match taken::<Patch>(data, pos + 8, u32_at(data, pos + 4) as nat) {
            None => None,
            Some((patches, after)) => match patch_files_decoded(
                data,
                patches,
                patches.len(),
                after,
                true,
            ) {
                None => None,
                Some((files, _)) => Some((Version::decoded(data, pos), patches, files)),
            },
        }
    }
}

/// The non-user section that the decompressed bytes `data` hold: four
/// bytes of length, the header of the packaged filesystem with its table of
/// regions, the header of the stream filesystem, the tables of the stream
/// filesystem, the header of the lookup of the paths with the lookup (which
/// is passed over), the tables of the packaged filesystem and its patches.
pub open spec fn non_user_decoded(data: Seq<u8>) -> Option<NonUserModel> {
    if data.len() < 88 {
        None
    } else {
        let header = PackagedFsHeader::decoded(data, 4);
        let stream_at = 88 + 12 * header.locale_count;
        if stream_at + 16 > data.len() {
            None
        } else {
            match stream_tables_decoded(
                data,
                stream_at + 16,
                StreamFsHeader::decoded(data, stream_at),
            ) {
                None => None,
                Some((stream, pos)) => if pos + 8 > data.len() {
                    None
                } else {
                    let lookup_count = u32_at(data, pos);
                    let bucket_count = u32_at(data, pos + 4);
                    match skipped(data.len(), pos + 8, lookup_count * 8 + bucket_count * 8) {
                        None => None,
                        Some(pos) => match packaged_tables_decoded(data, pos, header) {
                            None => None,
                            Some((tables, pos)) => match patches_decoded(data, pos) {
                                None => None,
                                Some((version, patches, versioned_files)) => if bucket_count == 0 {
                                    None
                                } else {
                                    Some(
                                        NonUserModel {
                                            packaged: fresh_model(
                                                version,
                                                PackagedCellsView {
                                                    patches,
                                                    versioned_files,
                                                    ..tables
                                                },
                                                bucket_count as nat,
                                            ),
                                            stream: fresh_stream_model(stream),
                                            version: header.version,
                                            region_lookup_table: triples_at(
                                                data,
                                                88,
                                                header.locale_count as nat,
                                            ),
                                        },
                                    )
                                },
                            },
                        },
                    }
                },
            }
        }
    }
}

impl ArchiveNonUserTables {
    /// Reads the non-user section from its decompressed bytes. The cells
    /// get the next identifiers of the counter: those of the packaged
    /// filesystem, then those of the stream filesystem, store after store.
    /// Fails with a format error where the bytes do not hold the section,
    /// and with an invariant error where the counter has not as many
    /// identifiers left as there are cells; the counter is then as it was.
    pub fn parse(data: &[u8], ids: &mut CellIds) -> (result: Result<Self, ArchiveError>)
        ensures
            match result {
                Ok(tables) => non_user_decoded(data@) == Some(tables@) && tables.packaged.wf()
                    && tables.numbered_from(old(ids).next as int) && final(ids).next == old(ids).next + tables@.cell_count(),
                Err(error) => final(ids).next == old(ids).next && if error == ArchiveError::Format {
                    non_user_decoded(data@) is None
                } else {
                    non_user_decoded(data@) matches Some(tables) && error
                        == ArchiveError::Invariant && !old(ids).room(tables.cell_count())
                },
            },
    {
        let mut tables = Self::parse_cells(data)?;
        if !tables.name_all(ids) {
            return Err(ArchiveError::Invariant);
        }
        Ok(tables)
    }

    /// Whether the cells have the identifiers from `base` on: those of the
    /// packaged filesystem, then those of the stream filesystem.
    pub open spec fn numbered_from(&self, base: int) -> bool {
        &&& self.packaged.cells.numbered_from(base)
        &&& self.stream.cells.numbered_from(base + self@.packaged.cells.cell_count())
    }

    /// Gives every cell the next identifier of the counter. Does nothing
    /// and returns false where the counter has not that many identifiers
    /// left.
    pub fn name_all(&mut self, ids: &mut CellIds) -> (done: bool)
        requires
            old(self).packaged.wf(),
        ensures
            done == old(ids).room(old(self)@.cell_count()),
            final(self)@ == old(self)@,
            final(self).packaged.wf(),
            done ==> final(self).numbered_from(old(ids).next as int) && final(ids).next == old(ids).next + old(self)@.cell_count(),
            !done ==> final(ids).next == old(ids).next,
    {
        if self.packaged.cells.count() + self.stream.cells.count() > (u64::MAX - ids.next) as u128 {
            return false;
        }
        let first = self.packaged.cells.name_all(ids);
        let second = self.stream.cells.name_all(ids);
        assert(first && second);
        true
    }

    /// Reads the non-user section from its decompressed bytes, with cells
    /// that have yet to get their identifiers.
    pub fn parse_cells(data: &[u8]) -> (result: Result<Self, ArchiveError>)
        ensures
            match result {
                Ok(tables) => non_user_decoded(data@) == Some(tables@) && tables.packaged.wf(),
                Err(error) => error == ArchiveError::Format && non_user_decoded(data@) is None,
            },
    {
        let len: usize = data.len();
        if len < 88 {
            return Err(ArchiveError::Format);
        }
        let header = PackagedFsHeader::parse(data, 4);
        let locale_count: usize = header.locale_count as usize;
        let stream_at: usize = 88 + 12 * locale_count;
        if len < 16 || stream_at > len - 16 {
            return Err(ArchiveError::Format);
        }
        let region_lookup_table = read_triples(data, 88, locale_count);
        let stream_header = StreamFsHeader::parse(data, stream_at);
        let (stream_cells, pos) = match read_stream_tables(data, stream_at + 16, &stream_header) {
            None => {
                return Err(ArchiveError::Format);
            },
            Some(result) => result,
        };
        if len - pos < 8 {
            return Err(ArchiveError::Format);
        }
        let lookup_count: u32 = read_u32(data, pos);
        let bucket_count: u32 = read_u32(data, pos + 4);
        let lookup_bytes: u64 = lookup_count as u64 * 8 + bucket_count as u64 * 8;
        if lookup_bytes > (len - pos - 8) as u64 {
            return Err(ArchiveError::Format);
        }
        let pos: usize = pos + 8 + lookup_bytes as usize;
        let (records, pos) = match read_packaged_tables(data, pos, &header) {
            None => {
                return Err(ArchiveError::Format);
            },
            Some(result) => result,
        };
        if len - pos < 8 {
            return Err(ArchiveError::Format);
        }
        let version = Version::parse(data, pos);
        let patch_count: usize = read_u32(data, pos + 4) as usize;
        let (patches, after) = match take::<Patch>(data, pos + 8, patch_count) {
            None => {
                return Err(ArchiveError::Format);
            },
            Some(result) => result,
        };
        let versioned_files = match read_patch_files(data, &patches, after, true) {
            None => {
                return Err(ArchiveError::Format);
            },
            Some((files, _)) => files,
        };
        let PackagedRecords {
            packages,
            child_packages,
            groups,
            paths,
            links,
            infos,
            descriptors,
            metadatas,
        } = records;
        let cells = PackagedCells {
            packages: CellStore::unnamed(packages),
            child_packages: CellStore::unnamed(child_packages),
            groups: CellStore::unnamed(groups),
            paths: CellStore::unnamed(paths),
            links: CellStore::unnamed(links),
            infos: CellStore::unnamed(infos),
            descriptors: CellStore::unnamed(descriptors),
            metadatas: CellStore::unnamed(metadatas),
            patches: CellStore::unnamed(patches),
            versioned_files: CellStore::unnamed(versioned_files),
        };
        let packaged = PackagedEngine::from_cells(version, cells, bucket_count as usize)?;
        Ok(
            ArchiveNonUserTables {
                packaged,
                stream: StreamEngine::from_cells(stream_cells),
                version: header.version,
                region_lookup_table,
            },
        )
    }
}

/// The search filesystem that the decompressed bytes `data` of the user
/// section hold: eight bytes of length, the header, the keys of the folders
/// (which are passed over), the folders, the keys and the links of the paths
/// (which are passed over) and the paths.
pub open spec fn user_decoded(data: Seq<u8>) -> Option<SearchModel> {
    if data.len() < 20 {
        None
    } else {
        let header = SearchFsHeader::decoded(data, 8);
        match skipped(data.len(), 20, header.folder_count * 8) {
            None => None,
            Some(pos) => match taken::<SearchFolder>(data, pos, header.folder_count as nat) {
                None => None,
                Some((folders, pos)) => match skipped(
                    data.len(),
                    pos,
                    header.path_link_count * 0xC,
                ) {
                    None => None,
                    Some(pos) => match taken::<SearchPath>(data, pos, header.path_count as nat) {
                        None => None,
                        Some((paths, _)) => Some(
                            fresh_search_model(SearchCellsView { folders, paths }),
                        ),
                    },
                },
            },
        }
    }
}

/// Reads the search filesystem from the decompressed bytes of the user
/// section. The cells get the next identifiers of the counter, the folders
/// before the paths. Fails with a format error where the bytes do not hold
/// the filesystem, and with an invariant error where the counter has not as
/// many identifiers left as there are cells; the counter is then as it was.
pub fn parse_user_tables(data: &[u8], ids: &mut CellIds) -> (result: Result<
    SearchEngine,
    ArchiveError,
>)
    ensures
        match result {
            Ok(engine) => user_decoded(data@) == Some(engine@) && engine.cells.numbered_from(
                old(ids).next as int,
            ) && final(ids).next == old(ids).next + engine@.cells.cell_count(),
            Err(error) => final(ids).next == old(ids).next && if error == ArchiveError::Format {
                user_decoded(data@) is None
            } else {
                user_decoded(data@) matches Some(engine) && error == ArchiveError::Invariant
                    && !old(ids).room(engine.cells.cell_count())
            },
        },
{
    let mut engine = parse_user_cells(data)?;
    if !engine.cells.name_all(ids) {
        return Err(ArchiveError::Invariant);
    }
    Ok(engine)
}

/// Reads the search filesystem from the decompressed bytes of the user
/// section, with cells that have yet to get their identifiers.
pub fn parse_user_cells(data: &[u8]) -> (result: Result<SearchEngine, ArchiveError>)
    ensures
        match result {
            Ok(engine) => user_decoded(data@) == Some(engine@),
            Err(error) => error == ArchiveError::Format && user_decoded(data@) is None,
        },
{
    let len: usize = data.len();
    if len < 20 {
        return Err(ArchiveError::Format);
    }
    let header = SearchFsHeader::parse(data, 8);
    let pos = match skip(len, 20, header.folder_count as usize, 8) {
        None => {
            return Err(ArchiveError::Format);
        },
        Some(pos) => pos,
    };
    let (folders, pos) = match take::<SearchFolder>(data, pos, header.folder_count as usize) {
        None => {
            return Err(ArchiveError::Format);
        },
        Some(result) => result,
    };
    let pos = match skip(len, pos, header.path_link_count as usize, 0xC) {
        None => {
            return Err(ArchiveError::Format);
        },
        Some(pos) => pos,
    };
    let (paths, _) = match take::<SearchPath>(data, pos, header.path_count as usize) {
        None => {
            return Err(ArchiveError::Format);
        },
        Some(result) => result,
    };
    proof {
        assert(views(paths@) =~= paths@);
    }
    Ok(
        SearchEngine::from_cells(
            SearchCells { folders: CellStore::unnamed(folders), paths: CellStore::unnamed(paths) },
        ),
    )
}

impl ArchiveModel {
    /// How many cells the three filesystems hold together.
    pub open spec fn cell_count(self) -> int {
        self.packaged_fs.cells.cell_count() + self.stream_fs.cells.cell_count()
            + self.search_fs.cells.cell_count()
    }
}

/// What an [`Archive`] holds.
pub struct ArchiveModel {
    pub file_section_offset: u64,
    pub packaged_fs: PackagedModel,
    pub search_fs: SearchModel,
    pub stream_fs: StreamModel,
    pub version: Version,
    pub region_lookup_table: Seq<(u32, u32, u32)>,
}

/// The manifest of an archive: its three filesystems, its version and its
/// table of regions.
pub struct Archive {
    pub file_section_offset: u64,
    pub packaged_fs: PackagedEngine,
    pub search_fs: SearchEngine,
    pub stream_fs: StreamEngine,
    pub version: Version,
    pub region_lookup_table: Vec<(u32, u32, u32)>,
}

impl View for Archive {
    type V = ArchiveModel;

    open spec fn view(&self) -> ArchiveModel {
        ArchiveModel {
            file_section_offset: self.file_section_offset,
            packaged_fs: self.packaged_fs@,
            search_fs: self.search_fs@,
            stream_fs: self.stream_fs@,
            version: self.version,
            region_lookup_table: self.region_lookup_table@,
        }
    }
}

/// The archive that the two decompressed sections hold.
pub open spec fn archive_of(header: ArchiveHeader, non_user: Seq<u8>, user: Seq<u8>) -> Result<
    ArchiveModel,
    ArchiveError,
> {
    match (non_user_decoded(non_user), user_decoded(user)) {
        (Some(tables), Some(search_fs)) => Ok(
            ArchiveModel {
                file_section_offset: header.file_data_start,
                packaged_fs: tables.packaged,
                search_fs,
                stream_fs: tables.stream,
                version: tables.version,
                region_lookup_table: tables.region_lookup_table,
            },
        ),
        _ => Err(ArchiveError::Format),
    }
}

/// Whether the packaged filesystem cannot take the file with the path text
/// `file` into the package with the path text `package`: the text is no path
/// of a file, the lookup knows the path already, or no package can take the
/// file in.
pub open spec fn packaged_refuses(packaged: PackagedModel, file: Seq<char>, package: Seq<char>)
    -> bool {
    match Path::parsed(file) {
        Err(_) => true,
        Ok(path) => packaged.with_file(
            path,
            crate::engines::Hash40(crate::hashing::hash40_of(package)),
        ) is None,
    }
}

/// The outer header of an archive and the compressed bytes of its two
/// sections. The sections are looked for in the order of their pointers in
/// the header.
pub open spec fn compressed_sections(data: Seq<u8>) -> Result<
    (ArchiveHeader, Seq<u8>, Seq<u8>),
    ArchiveError,
> {
    match ArchiveHeader::decoded(data) {
        Err(error) => Err(error),
        Ok(header) => match ArchiveTablesHeader::framed_at(data, header.non_user_tables_ptr) {
            Err(error) => Err(error),
            Ok(first) => match ArchiveTablesHeader::framed_at(data, header.user_tables_ptr) {
                Err(error) => Err(error),
                Ok(second) => Ok(
                    (
                        header,
                        data.subrange(first.start, first.end),
                        data.subrange(second.start, second.end),
                    ),
                ),
            },
        },
    }
}

/// The archive that the bytes `data` hold, with its sections as zstd
/// frames.
pub open spec fn archive_read(data: Seq<u8>) -> Result<ArchiveModel, ArchiveError> {
    match compressed_sections(data) {
        Err(error) => Err(error),
        Ok((header, first, second)) => match crate::decompressed(first) {
            Err(error) => Err(error),
            Ok(non_user) => match crate::decompressed(second) {
                Err(error) => Err(error),
                Ok(user) => archive_of(header, non_user, user),
            },
        },
    }
}

impl Archive {
    /// The lookup of the paths of the packaged filesystem is well-formed.
    pub open spec fn wf(&self) -> bool {
        self.packaged_fs.wf()
    }

    /// Whether the cells have the identifiers from `base` on: those of the
    /// packaged filesystem, then those of the stream filesystem, then those
    /// of the search filesystem, store after store.
    pub open spec fn numbered_from(&self, base: int) -> bool {
        let a = base + self@.packaged_fs.cells.cell_count();
        let b = a + self@.stream_fs.cells.cell_count();
        &&& self.packaged_fs.cells.numbered_from(base)
        &&& self.stream_fs.cells.numbered_from(a)
        &&& self.search_fs.cells.numbered_from(b)
    }

    /// Builds the archive from its outer header and its two sections, each
    /// decompressed. Every cell gets the next identifier of the counter.
    /// Fails with a format error where a section does not hold its tables,
    /// and with an invariant error where the counter has not as many
    /// identifiers left as there are cells; the counter is then as it was.
    pub fn from_sections(
        header: &ArchiveHeader,
        non_user: &[u8],
        user: &[u8],
        ids: &mut CellIds,
    ) -> (result: Result<Self, ArchiveError>)
        ensures
            match result {
                Ok(archive) => archive.wf() && archive_of(*header, non_user@, user@) == Ok::<
                    ArchiveModel,
                    ArchiveError,
                >(archive@) && archive.numbered_from(old(ids).next as int) && final(ids).next
                    == old(ids).next + archive@.cell_count(),
                Err(error) => final(ids).next == old(ids).next && if error
                    == ArchiveError::Invariant {
                    archive_of(*header, non_user@, user@) matches Ok(archive) && !old(ids).room(
                        archive.cell_count(),
                    )
                } else {
                    archive_of(*header, non_user@, user@) == Err::<ArchiveModel, ArchiveError>(
                        error,
                    )
                },
            },
    {
        let tables = ArchiveNonUserTables::parse_cells(non_user)?;
        let mut search_fs = parse_user_cells(user)?;
        let ArchiveNonUserTables { packaged, stream, version, region_lookup_table } = tables;
        let mut packaged = packaged;
        let mut stream = stream;
        if packaged.cells.count() + stream.cells.count() + search_fs.cells.count() > (u64::MAX
            - ids.next) as u128 {
            return Err(ArchiveError::Invariant);
        }
        let first = packaged.cells.name_all(ids);
        let second = stream.cells.name_all(ids);
        let third = search_fs.cells.name_all(ids);
        assert(first && second && third);
        Ok(
            Archive {
                file_section_offset: header.file_data_start,
                packaged_fs: packaged,
                search_fs,
                stream_fs: stream,
                version,
                region_lookup_table,
            },
        )
    }

    /// Finds the two sections of tables in the bytes of an archive. Returns
    /// the outer header and the compressed bytes of each section, with the
    /// size that its header gives for the decompressed bytes.
    pub fn split(data: &[u8]) -> (result: Result<
        (ArchiveHeader, (&[u8], usize), (&[u8], usize)),
        ArchiveError,
    >)
        ensures
            match result {
                Ok((header, first, second)) => compressed_sections(data@) == Ok::<
                    (ArchiveHeader, Seq<u8>, Seq<u8>),
                    ArchiveError,
                >((header, first.0@, second.0@)),
                Err(error) => compressed_sections(data@) == Err::<
                    (ArchiveHeader, Seq<u8>, Seq<u8>),
                    ArchiveError,
                >(error),
            },
    {
        let header = ArchiveHeader::parse(data)?;
        let (first, first_start, first_end) = ArchiveTablesHeader::find(
            data,
            header.non_user_tables_ptr,
        )?;
        let (second, second_start, second_end) = ArchiveTablesHeader::find(
            data,
            header.user_tables_ptr,
        )?;
        Ok(
            (
                header,
                (
                    vstd::slice::slice_subrange(data, first_start, first_end),
                    first.decompressed_size as usize,
                ),
                (
                    vstd::slice::slice_subrange(data, second_start, second_end),
                    second.decompressed_size as usize,
                ),
            ),
        )
    }

    /// Reads an archive from its bytes, with `decompressor` to decompress
    /// the two sections. Fails with a bad magic where a magic is wrong, with
    /// an input error where the bytes end too soon, with whatever error the
    /// decompressor gives, and with a format error where a decompressed
    /// section does not hold its tables.
    pub fn read<D: Decompressor>(data: &[u8], decompressor: &D, ids: &mut CellIds) -> (result:
        Result<Self, ArchiveError>)
        ensures
            compressed_sections(data@) matches Err(error) ==> result matches Err(other) && other
                == error,
            result matches Ok(archive) ==> archive.wf() && compressed_sections(data@) is Ok
                && exists|non_user: Seq<u8>, user: Seq<u8>| #[trigger]
                archive_of(compressed_sections(data@)->Ok_0.0, non_user, user) == Ok::<
                    ArchiveModel,
                    ArchiveError,
                >(archive@),
            result matches Ok(archive) ==> archive.numbered_from(old(ids).next as int) && final(ids).next == old(ids).next + archive@.cell_count(),
            result is Err ==> final(ids).next == old(ids).next,
    {
        let (header, first, second) = Self::split(data)?;
        let non_user = decompressor.decompress_with_size(first.0, first.1)?;
        let user = decompressor.decompress_with_size(second.0, second.1)?;
        let result = Self::from_sections(&header, non_user.as_slice(), user.as_slice(), ids);
        proof {
            if result is Ok {
                assert(archive_of(compressed_sections(data@)->Ok_0.0, non_user@, user@) == Ok::<
                    ArchiveModel,
                    ArchiveError,
                >(result->Ok_0@));
            }
        }
        result
    }

    /// Reads an archive from its bytes, with the sections as zstd frames.
    /// Every cell gets the next identifier of the counter. Fails with an
    /// invariant error where the counter has not as many identifiers left
    /// as the archive has cells; the counter is then as it was.
    pub fn from_bytes(data: &[u8], ids: &mut CellIds) -> (result: Result<Self, ArchiveError>)
        ensures
            match result {
                Ok(archive) => archive.wf() && archive_read(data@) == Ok::<
                    ArchiveModel,
                    ArchiveError,
                >(archive@) && archive.numbered_from(old(ids).next as int) && final(ids).next
                    == old(ids).next + archive@.cell_count(),
                Err(error) => final(ids).next == old(ids).next && if error
                    == ArchiveError::Invariant {
                    archive_read(data@) matches Ok(archive) && !old(ids).room(archive.cell_count())
                } else {
                    archive_read(data@) == Err::<ArchiveModel, ArchiveError>(error)
                },
            },
    {
        let (header, first, second) = Self::split(data)?;
        let non_user = crate::decompress_data_with_size(first.0, first.1)?;
        let user = crate::decompress_data_with_size(second.0, second.1)?;
        Self::from_sections(&header, non_user.as_slice(), user.as_slice(), ids)
    }

    /// Resolves the three filesystems: the packaged, the search and the
    /// stream filesystem, in that order. Stops at the first that fails.
    pub fn resolve(&mut self) -> (result: Result<(), ArchiveError>)
        requires
            old(self).wf(),
        ensures
            final(self).wf(),
            result is Ok <==> old(self)@.packaged_fs.resolution() is Some
                && old(self)@.search_fs.resolution() is Some && old(self)@.stream_fs.resolution()
                is Some,
            result is Ok ==> final(self)@ == (ArchiveModel {
                packaged_fs: PackagedModel {
                    cells: old(self)@.packaged_fs.resolution().unwrap(),
                    ..old(self)@.packaged_fs
                },
                search_fs: SearchModel {
                    cells: old(self)@.search_fs.resolution().unwrap(),
                    ..old(self)@.search_fs
                },
                stream_fs: StreamModel {
                    cells: old(self)@.stream_fs.resolution().unwrap(),
                    ..old(self)@.stream_fs
                },
                ..old(self)@
            }),
            result matches Err(error) ==> error == ArchiveError::Format,
    {
        self.packaged_fs.resolve()?;
        self.search_fs.resolve()?;
        self.stream_fs.resolve()?;
        Ok(())
    }

    /// Rebuilds the tables of the three filesystems in their canonical
    /// order.
    pub fn reorganize(self) -> (result: Result<Self, ArchiveError>)
        ensures
            match result {
                Ok(archive) => reorganized(self@.packaged_fs.tables, self@.packaged_fs.cells)
                    matches Some(packaged) && search_reorganized(
                    self@.search_fs.tables.folders,
                    self@.search_fs.cells,
                ) matches Some(search) && stream_reorganized(
                    self@.stream_fs.tables.folders,
                    self@.stream_fs.cells,
                ) matches Some(stream) && archive@ == (ArchiveModel {
                    packaged_fs: PackagedModel { tables: packaged.tables, ..self@.packaged_fs },
                    search_fs: SearchModel { tables: search, ..self@.search_fs },
                    stream_fs: StreamModel { tables: stream, ..self@.stream_fs },
                    ..self@
                }),
                Err(error) => error == ArchiveError::Invariant && (reorganized(
                    self@.packaged_fs.tables,
                    self@.packaged_fs.cells,
                ) is None || search_reorganized(
                    self@.search_fs.tables.folders,
                    self@.search_fs.cells,
                ) is None || stream_reorganized(
                    self@.stream_fs.tables.folders,
                    self@.stream_fs.cells,
                ) is None),
            },
    {
        let Archive {
            file_section_offset,
            packaged_fs,
            search_fs,
            stream_fs,
            version,
            region_lookup_table,
        } = self;
        let packaged_fs = packaged_fs.reorganize()?;
        let search_fs = search_fs.reorganize()?;
        let stream_fs = stream_fs.reorganize()?;
        Ok(
            Archive {
                file_section_offset,
                packaged_fs,
                search_fs,
                stream_fs,
                version,
                region_lookup_table,
            },
        )
    }

    /// Adds a file to the search filesystem and to the package with the
    /// path `package` of the packaged filesystem. Returns the cell of the
    /// info of the file. Every cell that is made gets the next identifier of
    /// the counter. Where the packaged filesystem cannot take the file in,
    /// or the counter has not enough identifiers left, nothing changes.
    /// Where the search filesystem cannot, it is left as the way down left
    /// it, and nothing else changes.
    pub fn add_file(&mut self, file: &str, package: &str, ids: &mut CellIds) -> (result: Result<
        TableCell,
        ArchiveError,
    >)
        requires
            old(self).wf(),
        ensures
            final(self).wf(),
            match result {
                Ok(info) => old(self)@.search_fs.with_file(file@) matches Some((search_fs, _))
                    && Path::parsed(file@) matches Ok(path) && old(self)@.packaged_fs.with_file(
                    path,
                    crate::engines::Hash40(crate::hashing::hash40_of(package@)),
                ) matches Some(packaged_fs) && final(self)@ == (ArchiveModel {
                    search_fs,
                    packaged_fs,
                    ..old(self)@
                }) && info == old(self)@.packaged_fs.cells.next_cells().info,
                Err(error) => error == ArchiveError::Invariant && if packaged_refuses(
                    old(self)@.packaged_fs,
                    file@,
                    package@,
                ) || !old(ids).room(2 * camino_components(file@).len() as int + 5) {
                    final(self)@ == old(self)@
                } else {
                    old(self)@.search_fs.with_file(file@) is None && final(self)@ == (ArchiveModel {
                        search_fs: old(self)@.search_fs.left_by(file@),
                        ..old(self)@
                    })
                },
            },
            final(ids).next - old(ids).next == final(self)@.cell_count() - old(self)@.cell_count(),
    {
        let path = match Path::from_str(file) {
            Err(_) => {
                return Err(ArchiveError::Invariant);
            },
            Ok(path) => path,
        };
        if self.packaged_fs.has_file(path.full_path) || self.packaged_fs.find_file_target(
            crate::hashing::hash_of(package),
        ).is_none() {
            return Err(ArchiveError::Invariant);
        }
        let components = crate::paths::path_components(file);
        let need: u128 = 2 * (components.len() as u128) + 5;
        if need > (u64::MAX - ids.next) as u128 {
            return Err(ArchiveError::Invariant);
        }
        self.search_fs.add_file(file, ids)?;
        self.packaged_fs.add_path(path, crate::hashing::hash_of(package), ids)
    }
}

/// The bytes `base` with their first bytes replaced by `top`. Where `top`
/// is the longer, nothing of `base` is left.
pub open spec fn overlaid(top: Seq<u8>, base: Seq<u8>) -> Seq<u8> {
    if top.len() >= base.len() {
        top
    } else {
        top + base.subrange(top.len() as int, base.len() as int)
    }
}

/// Computes [`overlaid`].
pub fn overlay(top: Vec<u8>, base: &[u8]) -> (result: Vec<u8>)
    ensures
        result@ == overlaid(top@, base@),
{
    let mut result = top;
    if result.len() < base.len() {
        let rest = vstd::slice::slice_subrange(base, result.len(), base.len());
        push_bytes(&mut result, rest);
    }
    result
}

/// The header of the packaged filesystem that is written for the rebuilt
/// tables `writer` with the sizes `results`.
pub open spec fn written_packaged_header(
    writer: WriterModel,
    results: ToMemoryResults,
    version: Version,
) -> PackagedFsHeader {
    let t = writer.tables;
    PackagedFsHeader {
        path_count: t.paths.len() as u32,
        link_count: t.links.len() as u32,
        package_count: t.packages.len() as u32,
        metadata_group_count: results.metadata_group_len as u32,
        child_package_count: t.child_packages.len() as u32,
        package_info_count: results.packaged_info_len as u32,
        package_descriptor_count: results.packaged_descriptor_len as u32,
        package_metadata_count: results.packaged_data_len as u32,
        info_group_count: results.info_group_len as u32,
        group_info_count: results.group_info_len as u32,
        locale_count: 14,
        region_count: 5,
        version,
        version_group_count: results.version_group_len as u32,
        versioned_file_count: t.versioned_files.len() as u32,
        version_info_count: results.version_info_len as u32,
        version_descriptor_count: results.version_descriptor_len as u32,
        version_metadata_count: results.version_data_len as u32,
    }
}

/// The non-user section before it is compressed: 0x110 bytes for the
/// headers, the stream filesystem and the packaged filesystem; and over the
/// first bytes the length of all that, the header of the packaged
/// filesystem with the table of regions, and the header of the stream
/// filesystem.
pub open spec fn non_user_section(
    packaged: WriterModel,
    stream: StreamWriterModel,
    version: Version,
    regions: Seq<(u32, u32, u32)>,
) -> Option<Seq<u8>> {
    match (
        stream.memory_bytes(),
        packaged.memory_bytes(),
        memory_results(packaged.tables, packaged.cells),
    ) {
        (Some(stream_bytes), Some(packaged_bytes), Some(results)) => {
            let body = zeros(0x110) + stream_bytes + packaged_bytes;
            let header = le32(body.len() as u32) + written_packaged_header(
                packaged,
                results,
                version,
            ).encoded() + triples_bytes(regions, regions.len()) + (StreamFsHeader {
                folder_count: stream.tables.folders.len() as u32,
                path_count: stream.tables.paths.len() as u32,
                link_count: stream.tables.links.len() as u32,
                metadata_count: stream.tables.metadatas.len() as u32,
            }).encoded();
            Some(overlaid(header, body))
        },
        _ => None,
    }
}

/// The user section before it is compressed: 0x14 bytes for the header and
/// the search filesystem; and over the first bytes the length of all that
/// and the header of the search filesystem.
pub open spec fn user_section(search: SearchWriterModel) -> Option<Seq<u8>> {
    match search.memory_bytes() {
        None => None,
        Some(search_bytes) => {
            let body = zeros(0x14) + search_bytes;
            let header = le64(body.len() as u64) + (SearchFsHeader {
                folder_count: search.tables.folders.len() as u32,
                path_link_count: search.tables.paths.len() as u32,
                path_count: search.tables.paths.len() as u32,
            }).encoded();
            Some(overlaid(header, body))
        },
    }
}

impl ArchiveModel {
    /// The two sections of the archive before they are compressed: the
    /// tables of each filesystem rebuilt in their canonical order and
    /// written out.
    pub open spec fn sections(self) -> Option<(Seq<u8>, Seq<u8>)> {
        match (
            reorganized(self.packaged_fs.tables, self.packaged_fs.cells),
            search_reorganized(self.search_fs.tables.folders, self.search_fs.cells),
            stream_reorganized(self.stream_fs.tables.folders, self.stream_fs.cells),
        ) {
            (Some(packaged), Some(search), Some(stream)) => match (
                non_user_section(
                    WriterModel {
                        version: self.packaged_fs.version,
                        package_lookup: self.packaged_fs.package_lookup,
                        file_lookup: self.packaged_fs.file_lookup,
                        tables: packaged.tables,
                        cells: self.packaged_fs.cells,
                        last_patch_files_start: packaged.last_patch_files_start,
                        info_group_info_start: packaged.info_group_info_start,
                    },
                    StreamWriterModel {
                        path_lookup: self.stream_fs.path_lookup,
                        tables: stream,
                        cells: self.stream_fs.cells,
                    },
                    self.version,
                    self.region_lookup_table,
                ),
                user_section(
                    SearchWriterModel {
                        folder_lookup: self.search_fs.folder_lookup,
                        path_lookup: self.search_fs.path_lookup,
                        tables: search,
                        cells: self.search_fs.cells,
                    },
                ),
            ) {
                (Some(non_user), Some(user)) => Some((non_user, user)),
                _ => None,
            },
            _ => None,
        }
    }

    /// The two sections of tables as they are written into the archive:
    /// each compressed, behind its header and padded to a multiple of eight
    /// bytes, the non-user section first.
    pub open spec fn tables_written(self) -> Result<(Seq<u8>, Seq<u8>), ArchiveError> {
        match self.sections() {
            None => Err(ArchiveError::Invariant),
            Some((non_user, user)) => match (compressed(non_user), compressed(user)) {
                (Ok(first), Ok(second)) => Ok(
                    (framed_section(non_user.len(), first), framed_section(user.len(), second)),
                ),
                _ => Err(ArchiveError::Codec),
            },
        }
    }
}

impl Archive {
    /// Rebuilds the tables and writes the two sections before they are
    /// compressed.
    pub fn build_sections(self) -> (result: Option<(Vec<u8>, Vec<u8>)>)
        ensures
            match result {
                Some((non_user, user)) => self@.sections() == Some((non_user@, user@)),
                None => self@.sections() is None,
            },
    {
        let Archive {
            file_section_offset: _,
            packaged_fs,
            search_fs,
            stream_fs,
            version,
            region_lookup_table,
        } = self;
        let packaged = match PackagedWriter::from_engine(packaged_fs) {
            Err(_) => {
                return None;
            },
            Ok(writer) => writer,
        };
        let search = match SearchWriter::from_engine(search_fs) {
            Err(_) => {
                return None;
            },
            Ok(writer) => writer,
        };
        let stream = match StreamWriter::from_engine(stream_fs) {
            Err(_) => {
                return None;
            },
            Ok(writer) => writer,
        };
        let mut body: Vec<u8> = Vec::new();
        push_zeros(&mut body, 0x110);
        if stream.to_memory(&mut body).is_err() {
            return None;
        }
        let results = match packaged.to_memory(&mut body) {
            Err(_) => {
                return None;
            },
            Ok(results) => results,
        };
        let t = &packaged.tables;
        let header = PackagedFsHeader {
            path_count: #[verifier::truncate] (t.paths.len() as u32),
            link_count: #[verifier::truncate] (t.links.len() as u32),
            package_count: #[verifier::truncate] (t.packages.len() as u32),
            metadata_group_count: #[verifier::truncate] (results.metadata_group_len as u32),
            child_package_count: #[verifier::truncate] (t.child_packages.len() as u32),
            package_info_count: #[verifier::truncate] (results.packaged_info_len as u32),
            package_descriptor_count: #[verifier::truncate] (results.packaged_descriptor_len as u32),
            package_metadata_count: #[verifier::truncate] (results.packaged_data_len as u32),
            info_group_count: #[verifier::truncate] (results.info_group_len as u32),
            group_info_count: #[verifier::truncate] (results.group_info_len as u32),
            locale_count: 14,
            region_count: 5,
            version,
            version_group_count: #[verifier::truncate] (results.version_group_len as u32),
            versioned_file_count: #[verifier::truncate] (t.versioned_files.len() as u32),
            version_info_count: #[verifier::truncate] (results.version_info_len as u32),
            version_descriptor_count: #[verifier::truncate] (results.version_descriptor_len as u32),
            version_metadata_count: #[verifier::truncate] (results.version_data_len as u32),
        };
        let mut top: Vec<u8> = Vec::new();
        push_u32(&mut top, #[verifier::truncate] (body.len() as u32));
        header.write(&mut top);
        write_triples(&mut top, region_lookup_table.as_slice());
        let stream_header = StreamFsHeader {
            folder_count: #[verifier::truncate] (stream.tables.folders.len() as u32),
            path_count: #[verifier::truncate] (stream.tables.paths.len() as u32),
            link_count: #[verifier::truncate] (stream.tables.links.len() as u32),
            metadata_count: #[verifier::truncate] (stream.tables.metadatas.len() as u32),
        };
        stream_header.write(&mut top);
        let non_user = overlay(top, body.as_slice());
        let mut body: Vec<u8> = Vec::new();
        push_zeros(&mut body, 0x14);
        if search.to_memory(&mut body).is_err() {
            return None;
        }
        let mut top: Vec<u8> = Vec::new();
        push_u64(&mut top, body.len() as u64);
        let search_header = SearchFsHeader {
            folder_count: #[verifier::truncate] (search.tables.folders.len() as u32),
            path_link_count: #[verifier::truncate] (search.tables.paths.len() as u32),
            path_count: #[verifier::truncate] (search.tables.paths.len() as u32),
        };
        search_header.write(&mut top);
        let user = overlay(top, body.as_slice());
        Some((non_user, user))
    }

    /// Appends the two sections of tables to `out`: the tables of each
    /// filesystem rebuilt in their canonical order, written out, compressed
    /// and framed. Returns where the non-user section and where the user
    /// section starts. Writes nothing where it fails.
    pub fn write_tables(self, out: &mut Vec<u8>) -> (result: Result<(usize, usize), ArchiveError>)
        ensures
            match result {
                Ok((non_user_start, user_start)) => self@.tables_written() matches Ok(sections)
                    && final(out)@ == old(out)@ + sections.0 + sections.1 && non_user_start
                    == old(out)@.len() && user_start == old(out)@.len() + sections.0.len(),
                Err(error) => self@.tables_written() == Err::<(Seq<u8>, Seq<u8>), ArchiveError>(
                    error,
                ) && final(out)@ == old(out)@,
            },
    {
        let (non_user, user) = match self.build_sections() {
            None => {
                return Err(ArchiveError::Invariant);
            },
            Some(sections) => sections,
        };
        let first = compress_data(non_user.as_slice());
        let second = compress_data(user.as_slice());
        match (first, second) {
            (Ok(first), Ok(second)) => {
                let non_user_start: usize = out.len();
                write_section(out, non_user.len(), first.as_slice());
                let user_start: usize = out.len();
                write_section(out, user.len(), second.as_slice());
                Ok((non_user_start, user_start))
            },
            _ => Err(ArchiveError::Codec),
        }
    }
}

/// The section that follows another starts a multiple of eight bytes after
/// the compressed bytes of the first start, and the size of the section in
/// its header counts its padding.
pub proof fn lemma_section_padding(decompressed_size: nat, compressed: Seq<u8>)
    ensures
        framed_section(decompressed_size, compressed).len() == 16 + rounded_up(compressed.len()),
        rounded_up(compressed.len()) % 8 == 0,
        compressed.len() <= rounded_up(compressed.len()) < compressed.len() + 8,
{
    crate::bytes::lemma_le_len();
}

} // verus!
