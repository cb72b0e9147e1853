//! The records of the stream filesystem.
use vstd::prelude::*;
use std::ops::Range;

use crate::bytes::{read_u32, read_u64, record_bytes, u32_at, u64_at};
use crate::engines::rounds::index_in;
use crate::engines::table::{
    span, ReferenceSetView, TableCell, TableContiguousReference, TableReference,
};
use crate::engines::{Hash40, HashKey, TableRecord};

verus! {

/// How many links a stream path has, by its flag word: one for a plain
/// path, fourteen for a localized and five for a regional one. Any other
/// flag word is no flag word.
pub open spec fn stream_link_count(flags: u32) -> Option<usize> {
    if flags == 0 {
        Some(1)
    } else if flags == 1 {
        Some(14)
    } else if flags == 2 {
        Some(5)
    } else {
        None
    }
}

/// A folder of the stream filesystem: the paths that lie in it.
pub struct StreamFolder {
    pub name: Hash40,
    pub paths: TableContiguousReference,
}

/// What a [`StreamFolder`] holds.
pub struct StreamFolderView {
    pub name: Hash40,
    pub paths: ReferenceSetView<Range<usize>>,
}

impl View for StreamFolder {
    type V = StreamFolderView;

    open spec fn view(&self) -> StreamFolderView {
        StreamFolderView { name: self.name, paths: self.paths@ }
    }
}

impl TableRecord for StreamFolder {
    open spec fn width() -> nat {
        0xC
    }

    open spec fn decoded(data: Seq<u8>, off: int) -> Option<StreamFolderView> {
        let key = HashKey(u64_at(data, off));
        Some(
            StreamFolderView {
                name: key.hash_part(),
                paths: ReferenceSetView::Unresolved(
                    span(u32_at(data, off + 8) as usize, key.index_part()),
                ),
            },
        )
    }

    fn repr_size() -> (size: usize) {
        0xC
    }

    fn parse(data: &[u8], off: usize) -> (record: Option<Self>) {
        let len: usize = data.len();
        let key = HashKey(read_u64(data, off));
        let start: u32 = read_u32(data, off + 8);
        Some(
            StreamFolder {
                name: key.hash(),
                paths: TableContiguousReference::new_from_count(start as usize, key.index()),
            },
        )
    }
}

/// A file of the stream filesystem.
pub struct StreamPath {
    pub full_path: Hash40,
    pub links: TableContiguousReference,
    pub is_localized: bool,
    pub is_regional: bool,
}

/// What a [`StreamPath`] holds.
pub struct StreamPathView {
    pub full_path: Hash40,
    pub links: ReferenceSetView<Range<usize>>,
    pub is_localized: bool,
    pub is_regional: bool,
}

impl View for StreamPath {
    type V = StreamPathView;

    open spec fn view(&self) -> StreamPathView {
        StreamPathView {
            full_path: self.full_path,
            links: self.links@,
            is_localized: self.is_localized,
            is_regional: self.is_regional,
        }
    }
}

impl TableRecord for StreamPath {
    open spec fn width() -> nat {
        0xC
    }

    open spec fn decoded(data: Seq<u8>, off: int) -> Option<StreamPathView> {
        let key = HashKey(u64_at(data, off));
        let flags = u32_at(data, off + 8);
        match stream_link_count(flags) {
            None => None,
            Some(count) => Some(
                StreamPathView {
                    full_path: key.hash_part(),
                    links: ReferenceSetView::Unresolved(span(key.index_part(), count)),
                    is_localized: flags == 1,
                    is_regional: flags == 2,
                },
            ),
        }
    }

    fn repr_size() -> (size: usize) {
        0xC
    }

    fn parse(data: &[u8], off: usize) -> (record: Option<Self>) {
        let len: usize = data.len();
        let key = HashKey(read_u64(data, off));
        let flags: u32 = read_u32(data, off + 8);
        let count: usize = if flags == 0 {
            1
        } else if flags == 1 {
            14
        } else if flags == 2 {
            5
        } else {
            return None;
        };
        Some(
            StreamPath {
                full_path: key.hash(),
                links: TableContiguousReference::new_from_count(key.index(), count),
                is_localized: flags == 1,
                is_regional: flags == 2,
            },
        )
    }
}

/// The link between a stream path and the metadata of one of its variants.
#[derive(Debug, Copy, Clone, PartialEq, Eq, Structural)]
pub struct StreamLink {
    pub metadata: TableReference,
}

impl View for StreamLink {
    type V = StreamLink;

    open spec fn view(&self) -> StreamLink {
        *self
    }
}

impl TableRecord for StreamLink {
    open spec fn width() -> nat {
        0x4
    }

    open spec fn decoded(data: Seq<u8>, off: int) -> Option<StreamLink> {
        Some(StreamLink { metadata: TableReference::Unresolved(u32_at(data, off) as usize) })
    }

    fn repr_size() -> (size: usize) {
        0x4
    }

    fn parse(data: &[u8], off: usize) -> (record: Option<Self>) {
        let metadata: u32 = read_u32(data, off);
        Some(StreamLink { metadata: TableReference::Unresolved(metadata as usize) })
    }
}

/// Where the data of a stream file lies in the archive. Stream files are
/// not compressed.
#[derive(Debug, Copy, Clone, PartialEq, Eq, Structural)]
pub struct StreamMetadata {
    pub size: u64,
    pub offset: u64,
}

impl View for StreamMetadata {
    type V = StreamMetadata;

    open spec fn view(&self) -> StreamMetadata {
        *self
    }
}

impl TableRecord for StreamMetadata {
    open spec fn width() -> nat {
        0x10
    }

    open spec fn decoded(data: Seq<u8>, off: int) -> Option<StreamMetadata> {
        Some(StreamMetadata { size: u64_at(data, off), offset: u64_at(data, off + 8) })
    }

    fn repr_size() -> (size: usize) {
        0x10
    }

    fn parse(data: &[u8], off: usize) -> (record: Option<Self>) {
        let len: usize = data.len();
        let size: u64 = read_u64(data, off);
        let offset: u64 = read_u64(data, off + 8);
        Some(StreamMetadata { size, offset })
    }
}

impl StreamFolderView {
    pub open spec fn resolvable(self, paths: nat) -> bool {
        self.paths.resolvable(paths, 0)
    }

    pub open spec fn resolved(self, paths: Seq<TableCell>) -> StreamFolderView {
        StreamFolderView { paths: self.paths.resolved_with(paths, 0), ..self }
    }

    /// The twelve bytes of the folder: its name packed with the number of
    /// its paths, and the index of its first path. A folder without a path
    /// starts at zero.
    pub open spec fn encoded(self, paths: Seq<TableCell>) -> Option<Seq<u8>> {
        match self.paths {
            ReferenceSetView::Unresolved(_) => None,
            ReferenceSetView::Resolved(cells) => {
                let start = if cells.len() == 0 {
                    Some(0u32)
                } else {
                    index_in(paths, cells[0])
                };
                match start {
                    None => None,
                    Some(start) => Some(
                        record_bytes(
                            seq![HashKey::pack(self.name, cells.len() as usize).0],
                            seq![start],
                        ),
                    ),
                }
            },
        }
    }
}

impl StreamFolder {
    pub fn can_resolve(&self, paths: usize) -> (b: bool)
        ensures
            b == self@.resolvable(paths as nat),
    {
        self.paths.can_resolve(paths, 0)
    }

    pub fn resolve(&mut self, paths: &[TableCell])
        requires
            old(self)@.resolvable(paths@.len()),
        ensures
            final(self)@ == old(self)@.resolved(paths@),
    {
        self.paths.resolve(paths);
    }

    pub fn is_resolved(&self) -> (b: bool)
        ensures
            b == (self@.paths is Resolved),
    {
        self.paths.0.is_resolved()
    }
}

impl StreamPathView {
    pub open spec fn resolvable(self, links: nat) -> bool {
        self.links.resolvable(links, 0)
    }

    pub open spec fn resolved(self, links: Seq<TableCell>) -> StreamPathView {
        StreamPathView { links: self.links.resolved_with(links, 0), ..self }
    }

    /// The flag word of the path: one for a localized path, two for a
    /// regional one, zero for any other.
    pub open spec fn flags(self) -> u32 {
        if self.is_localized {
            1
        } else if self.is_regional {
            2
        } else {
            0
        }
    }

    /// The twelve bytes of the path: its hash packed with the index of its
    /// first link, and its flag word. A path without a link has no bytes.
    pub open spec fn encoded(self, links: Seq<TableCell>) -> Option<Seq<u8>> {
        match self.links {
            ReferenceSetView::Unresolved(_) => None,
            ReferenceSetView::Resolved(cells) => if cells.len() == 0 {
                None
            } else {
                match index_in(links, cells[0]) {
                    None => None,
                    Some(link) => Some(
                        record_bytes(
                            seq![HashKey::pack(self.full_path, link as usize).0],
                            seq![self.flags()],
                        ),
                    ),
                }
            },
        }
    }
}

impl StreamPath {
    pub fn can_resolve(&self, links: usize) -> (b: bool)
        ensures
            b == self@.resolvable(links as nat),
    {
        self.links.can_resolve(links, 0)
    }

    pub fn resolve(&mut self, links: &[TableCell])
        requires
            old(self)@.resolvable(links@.len()),
        ensures
            final(self)@ == old(self)@.resolved(links@),
    {
        self.links.resolve(links);
    }

    pub fn is_resolved(&self) -> (b: bool)
        ensures
            b == (self@.links is Resolved),
    {
        self.links.0.is_resolved()
    }
}

impl StreamLink {
    pub open spec fn resolvable(self, metadatas: nat) -> bool {
        self.metadata.resolvable(metadatas, 0)
    }

    pub open spec fn resolved(self, metadatas: Seq<TableCell>) -> StreamLink {
        StreamLink { metadata: self.metadata.resolved_with(metadatas, 0) }
    }

    /// The four bytes of the link: the index of its metadata.
    pub open spec fn encoded(self, metadatas: Seq<TableCell>) -> Option<Seq<u8>> {
        match self.metadata {
            TableReference::Unresolved(_) => None,
            TableReference::Resolved(cell) => match index_in(metadatas, cell) {
                None => None,
                Some(index) => Some(record_bytes(seq![], seq![index])),
            },
        }
    }

    pub fn can_resolve(&self, metadatas: usize) -> (b: bool)
        ensures
            b == self.resolvable(metadatas as nat),
    {
        self.metadata.can_resolve(metadatas, 0)
    }

    pub fn resolve(&mut self, metadatas: &[TableCell])
        requires
            old(self).resolvable(metadatas@.len()),
        ensures
            *final(self) == old(self).resolved(metadatas@),
    {
        self.metadata.resolve(metadatas);
    }

    pub fn is_resolved(&self) -> (b: bool)
        ensures
            b == (self.metadata is Resolved),
    {
        self.metadata.is_resolved()
    }
}

impl StreamMetadata {
    /// The sixteen bytes of the metadata: the size of the data and where it
    /// lies.
    pub open spec fn encoded(self) -> Seq<u8> {
        record_bytes(seq![self.size, self.offset], seq![])
    }
}

/// A stream path that was read has one link for flag word zero, fourteen
/// for flag word one and five for flag word two, and it keeps that number
/// when its links are resolved.
pub proof fn lemma_stream_link_cardinality(data: Seq<u8>, off: int, links: Seq<TableCell>)
    requires
        StreamPath::decoded(data, off) is Some,
        StreamPath::decoded(data, off).unwrap().resolvable(links.len()),
    ensures
        ({
            let flags = u32_at(data, off + 8);
            let path = StreamPath::decoded(data, off).unwrap().resolved(links);
            &&& path.links is Resolved
            &&& flags == 0 <==> path.links.cells().len() == 1
            &&& flags == 1 <==> path.links.cells().len() == 14
            &&& flags == 2 <==> path.links.cells().len() == 5
            &&& path.is_localized <==> flags == 1
            &&& path.is_regional <==> flags == 2
        }),
{
    let key = HashKey(u64_at(data, off));
    let word: u64 = key.0;
    assert(word >> 40 <= 0x00FF_FFFF) by (bit_vector);
}

} // verus!
