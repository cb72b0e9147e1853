//! The records of the search filesystem.
use vstd::prelude::*;

use crate::bytes::{read_u32, read_u64, record_bytes, u32_at, u64_at};
use crate::engines::rounds::{find_index, index_in};
use crate::engines::table::{
    LinkedReference, ReferenceSetView, TableCell, TableLinkedReference, TableMaker,
    TableReferenceSet,
};
use crate::engines::{Hash40, HashKey, TableRecord};
use crate::{INVALID_INDEX, INVALID_INDEX32};

verus! {

/// The bit of the index beside the parent hash that marks a path as a
/// folder.
pub const IS_FOLDER: usize = 0x0040_0000;

/// A folder of the search filesystem: the paths that lie in it, files and
/// folders alike.
pub struct SearchFolder {
    pub full_path: Hash40,
    pub parent: Hash40,
    pub name: Hash40,
    pub file_count: usize,
    pub folder_count: usize,
    pub children: TableLinkedReference,
}

/// What a [`SearchFolder`] holds.
pub struct SearchFolderView {
    pub full_path: Hash40,
    pub parent: Hash40,
    pub name: Hash40,
    pub file_count: usize,
    pub folder_count: usize,
    pub children: ReferenceSetView<usize>,
}

impl View for SearchFolder {
    type V = SearchFolderView;

    open spec fn view(&self) -> SearchFolderView {
        SearchFolderView {
            full_path: self.full_path,
            parent: self.parent,
            name: self.name,
            file_count: self.file_count,
            folder_count: self.folder_count,
            children: self.children@,
        }
    }
}

impl TableRecord for SearchFolder {
    open spec fn width() -> nat {
        0x20
    }

    open spec fn decoded(data: Seq<u8>, off: int) -> Option<SearchFolderView> {
        let path_key = HashKey(u64_at(data, off));
        let parent_key = HashKey(u64_at(data, off + 8));
        Some(
            SearchFolderView {
                full_path: path_key.hash_part(),
                parent: parent_key.hash_part(),
                name: Hash40(u64_at(data, off + 16)),
                file_count: parent_key.index_part(),
                folder_count: path_key.index_part(),
                children: ReferenceSetView::Unresolved(u32_at(data, off + 24) as usize),
            },
        )
    }

    fn repr_size() -> (size: usize) {
        0x20
    }

    fn parse(data: &[u8], off: usize) -> (record: Option<Self>) {
        let len: usize = data.len();
        let path_key = HashKey(read_u64(data, off));
        let parent_key = HashKey(read_u64(data, off + 8));
        let name = Hash40(read_u64(data, off + 16));
        let first: u32 = read_u32(data, off + 24);
        Some(
            SearchFolder {
                full_path: path_key.hash(),
                parent: parent_key.hash(),
                name,
                file_count: parent_key.index(),
                folder_count: path_key.index(),
                children: TableLinkedReference::new(first as usize),
            },
        )
    }
}

/// The folder that a path stands for, if it stands for one.
#[derive(Debug, Copy, Clone, PartialEq, Eq, Structural)]
pub enum SearchPathFolderReference {
    Absent,
    Folder(TableCell),
    Unresolved(usize),
}

/// The next child of the folder that a path lies in, if there is one.
#[derive(Debug, Copy, Clone, PartialEq, Eq, Structural)]
pub enum SearchPathNextReference {
    Absent,
    Path(TableCell),
    Unresolved(usize),
}

/// A path of the search filesystem: a file or a folder.
#[derive(Debug, Copy, Clone, PartialEq, Eq, Structural)]
pub struct SearchPath {
    pub full_path: Hash40,
    pub parent: Hash40,
    pub name: Hash40,
    pub extension: Hash40,
    pub folder: SearchPathFolderReference,
    pub next: SearchPathNextReference,
}

impl View for SearchPath {
    type V = SearchPath;

    open spec fn view(&self) -> SearchPath {
        *self
    }
}

/// Whether the folder bit is set in an index.
pub open spec fn folder_bit(index: usize) -> bool {
    index & IS_FOLDER != 0
}

impl TableRecord for SearchPath {
    open spec fn width() -> nat {
        0x20
    }

    open spec fn decoded(data: Seq<u8>, off: int) -> Option<SearchPath> {
        let path_key = HashKey(u64_at(data, off));
        let parent_key = HashKey(u64_at(data, off + 8));
        Some(
            SearchPath {
                full_path: path_key.hash_part(),
                parent: parent_key.hash_part(),
                name: Hash40(u64_at(data, off + 16)),
                extension: Hash40(u64_at(data, off + 24)),
                folder: if folder_bit(parent_key.index_part()) {
                    SearchPathFolderReference::Unresolved(INVALID_INDEX)
                } else {
                    SearchPathFolderReference::Absent
                },
                next: if path_key.index_part() == INVALID_INDEX {
                    SearchPathNextReference::Absent
                } else {
                    SearchPathNextReference::Unresolved(path_key.index_part())
                },
            },
        )
    }

    fn repr_size() -> (size: usize) {
        0x20
    }

    fn parse(data: &[u8], off: usize) -> (record: Option<Self>) {
        let len: usize = data.len();
        let path_key = HashKey(read_u64(data, off));
        let parent_key = HashKey(read_u64(data, off + 8));
        let name = Hash40(read_u64(data, off + 16));
        let extension = Hash40(read_u64(data, off + 24));
        let next: usize = path_key.index();
        Some(
            SearchPath {
                full_path: path_key.hash(),
                parent: parent_key.hash(),
                name,
                extension,
                folder: if parent_key.index() & IS_FOLDER != 0 {
                    SearchPathFolderReference::Unresolved(INVALID_INDEX)
                } else {
                    SearchPathFolderReference::Absent
                },
                next: if next == INVALID_INDEX {
                    SearchPathNextReference::Absent
                } else {
                    SearchPathNextReference::Unresolved(next)
                },
            },
        )
    }
}

impl SearchPathFolderReference {
    /// Whether a path that stands for a folder finds its folder in the
    /// lookup under its own hash.
    pub open spec fn resolvable(self, hash: Hash40, lookup: Map<u64, TableCell>) -> bool {
        self is Unresolved ==> lookup.contains_key(hash.0)
    }

    /// The reference after resolving: the folder that shares the hash of the
    /// path.
    pub open spec fn resolved(self, hash: Hash40, lookup: Map<u64, TableCell>) -> Self {
        match self {
            SearchPathFolderReference::Unresolved(_) => SearchPathFolderReference::Folder(
                lookup[hash.0],
            ),
            other => other,
        }
    }

    pub fn is_resolved(&self) -> (b: bool)
        ensures
            b == !(*self is Unresolved),
    {
        !matches!(self, SearchPathFolderReference::Unresolved(_))
    }

    pub fn is_none(&self) -> (b: bool)
        ensures
            b == (*self is Absent),
    {
        matches!(self, SearchPathFolderReference::Absent)
    }

    pub fn is_folder(&self) -> (b: bool)
        ensures
            b == (*self is Folder),
    {
        matches!(self, SearchPathFolderReference::Folder(_))
    }
}

impl SearchPathNextReference {
    pub open spec fn resolvable(self, paths: nat) -> bool {
        self matches SearchPathNextReference::Unresolved(index) ==> index < paths
    }

    pub open spec fn resolved(self, paths: Seq<TableCell>) -> Self {
        match self {
            SearchPathNextReference::Unresolved(index) => SearchPathNextReference::Path(
                paths[index as int],
            ),
            other => other,
        }
    }

    pub fn can_resolve(&self, paths: usize) -> (b: bool)
        ensures
            b == self.resolvable(paths as nat),
    {
        match self {
            SearchPathNextReference::Unresolved(index) => *index < paths,
            _ => true,
        }
    }

    pub fn resolve(&mut self, paths: &[TableCell])
        requires
            old(self).resolvable(paths@.len()),
        ensures
            *final(self) == old(self).resolved(paths@),
    {
        match *self {
            SearchPathNextReference::Unresolved(index) => {
                *self = SearchPathNextReference::Path(paths[index]);
            },
            _ => {},
        }
    }

    pub fn is_resolved(&self) -> (b: bool)
        ensures
            b == !(*self is Unresolved),
    {
        !matches!(self, SearchPathNextReference::Unresolved(_))
    }

    pub fn is_none(&self) -> (b: bool)
        ensures
            b == (*self is Absent),
    {
        matches!(self, SearchPathNextReference::Absent)
    }

    pub fn is_path(&self) -> (b: bool)
        ensures
            b == (*self is Path),
    {
        matches!(self, SearchPathNextReference::Path(_))
    }
}

impl SearchPath {
    pub open spec fn resolvable(self, paths: nat, folder_lookup: Map<u64, TableCell>) -> bool {
        &&& self.folder.resolvable(self.full_path, folder_lookup)
        &&& self.next.resolvable(paths)
    }

    pub open spec fn resolved(self, paths: Seq<TableCell>, folder_lookup: Map<u64, TableCell>)
        -> SearchPath {
        SearchPath {
            folder: self.folder.resolved(self.full_path, folder_lookup),
            next: self.next.resolved(paths),
            ..self
        }
    }

    /// The index that stands for the next child: the invalid index where
    /// there is none.
    pub open spec fn next_index(self, paths: Seq<TableCell>) -> Option<usize> {
        match self.next {
            SearchPathNextReference::Absent => Some(INVALID_INDEX),
            SearchPathNextReference::Path(cell) => match index_in(paths, cell) {
                Some(index) => Some(index as usize),
                None => None,
            },
            SearchPathNextReference::Unresolved(_) => None,
        }
    }

    /// The index beside the parent hash: the folder bit for a path that
    /// stands for a folder, and zero for any other.
    pub open spec fn folder_index(self) -> usize {
        if self.folder is Absent {
            0
        } else {
            IS_FOLDER
        }
    }

    /// The 0x20 bytes of the path: its hash packed with the index of the
    /// next child, the hash of its parent packed with the folder bit, the
    /// hash of its name and the hash of its extension.
    pub open spec fn encoded(self, paths: Seq<TableCell>) -> Option<Seq<u8>> {
        match self.next_index(paths) {
            None => None,
            Some(next) => Some(
                record_bytes(
                    seq![
                        HashKey::pack(self.full_path, next).0,
                        HashKey::pack(self.parent, self.folder_index()).0,
                        self.name.0,
                        self.extension.0,
                    ],
                    seq![],
                ),
            ),
        }
    }

    pub fn is_resolved(&self) -> (b: bool)
        ensures
            b == (!(self.folder is Unresolved) && !(self.next is Unresolved)),
    {
        self.folder.is_resolved() && self.next.is_resolved()
    }

    pub fn is_folder(&self) -> (b: bool)
        ensures
            b == (self.folder is Folder),
    {
        self.folder.is_folder()
    }

    /// Appends the bytes of the path. Writes nothing and returns false
    /// where the path has no bytes.
    pub fn write(&self, out: &mut Vec<u8>, paths: &TableMaker) -> (done: bool)
        requires
            paths.wf(),
        ensures
            done == self.encoded(paths@).is_some(),
            done ==> final(out)@ == old(out)@ + self.encoded(paths@).unwrap(),
            !done ==> final(out)@ == old(out)@,
    {
        let next: usize = match &self.next {
            SearchPathNextReference::Absent => INVALID_INDEX,
            SearchPathNextReference::Path(cell) => match find_index(paths, cell) {
                Some(index) => index as usize,
                None => {
                    return false;
                },
            },
            SearchPathNextReference::Unresolved(_) => {
                return false;
            },
        };
        let folder: usize = if self.folder.is_none() {
            0
        } else {
            IS_FOLDER
        };
        let quads: Vec<u64> = vec![
            HashKey::new(self.full_path, next).0,
            HashKey::new(self.parent, folder).0,
            self.name.0,
            self.extension.0,
        ];
        let words: Vec<u32> = Vec::new();
        assert(words@ =~= seq![]);
        crate::bytes::push_record(out, quads.as_slice(), words.as_slice());
        true
    }
}

impl LinkedReference for SearchPath {
    open spec fn next_cell(&self) -> Option<TableCell> {
        match self.next {
            SearchPathNextReference::Path(cell) => Some(cell),
            _ => None,
        }
    }

    fn next(&self) -> (r: Option<TableCell>) {
        match self.next {
            SearchPathNextReference::Path(cell) => Some(cell),
            _ => None,
        }
    }
}

impl SearchFolderView {
    /// The index that stands for the first child: the invalid index for a
    /// folder without children.
    pub open spec fn first_child_index(self, paths: Seq<TableCell>) -> Option<u32> {
        match self.children {
            ReferenceSetView::Unresolved(_) => None,
            ReferenceSetView::Resolved(cells) => if cells.len() == 0 {
                Some(INVALID_INDEX32)
            } else {
                index_in(paths, cells[0])
            },
        }
    }

    /// The 0x20 bytes of the folder: its hash packed with the number of its
    /// folders, the hash of its parent packed with the number of its files,
    /// the hash of its name, the index of its first child, and four bytes of
    /// padding.
    pub open spec fn encoded(self, paths: Seq<TableCell>) -> Option<Seq<u8>> {
        match self.first_child_index(paths) {
            None => None,
            Some(first) => Some(
                record_bytes(
                    seq![
                        HashKey::pack(self.full_path, self.folder_count).0,
                        HashKey::pack(self.parent, self.file_count).0,
                        self.name.0,
                    ],
                    seq![first, 0u32],
                ),
            ),
        }
    }
}

impl SearchFolder {
    pub fn is_resolved(&self) -> (b: bool)
        ensures
            b == (self@.children is Resolved),
    {
        self.children.0.is_resolved()
    }

    /// Appends the bytes of the folder. Writes nothing and returns false
    /// where the folder has no bytes.
    pub fn write(&self, out: &mut Vec<u8>, paths: &TableMaker) -> (done: bool)
        requires
            paths.wf(),
        ensures
            done == self@.encoded(paths@).is_some(),
            done ==> final(out)@ == old(out)@ + self@.encoded(paths@).unwrap(),
            !done ==> final(out)@ == old(out)@,
    {
        let first: u32 = match &self.children.0 {
            TableReferenceSet::Unresolved(_) => {
                return false;
            },
            TableReferenceSet::Resolved(cells) => {
                if cells.len() == 0 {
                    INVALID_INDEX32
                } else {
                    match find_index(paths, &cells[0]) {
                        Some(index) => index,
                        None => {
                            return false;
                        },
                    }
                }
            },
        };
        let quads: Vec<u64> = vec![
            HashKey::new(self.full_path, self.folder_count).0,
            HashKey::new(self.parent, self.file_count).0,
            self.name.0,
        ];
        let words: Vec<u32> = vec![first, 0u32];
        crate::bytes::push_record(out, quads.as_slice(), words.as_slice());
        true
    }
}

} // verus!
