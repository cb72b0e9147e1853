//! The stream filesystem: the files that are read from the archive as
//! contiguous, uncompressed streams.
use vstd::prelude::*;
use std::collections::BTreeMap;

pub mod canonical;
pub mod round_trip;
pub mod types;

use crate::bytes::push_record;
use crate::engines::packaged::bucket_map::{find_hash, ordered, ordered_entries};
use crate::engines::rounds::{
    find_index, join, key_bytes, lemma_pass_fails, lemma_pass_idempotent, lemma_table_bytes_fails,
    lemma_walk_fails, pass, table_bytes, walk, write_keys,
};
use crate::engines::stream::types::{
    StreamFolder, StreamFolderView, StreamLink, StreamMetadata, StreamPath, StreamPathView,
};
use crate::engines::table::{
    pushed, CellIds, CellStore, ReferenceSetView, TableCell, TableMaker, TableReference,
    TableReferenceSet,
};
use crate::engines::{
    identity_cells, identity_table, read_table, views, whole_table, Hash40, HashKey,
};
use crate::ArchiveError;

verus! {

/// Resolving one stream folder against the table of its paths.
pub open spec fn stream_folder_step(paths: Seq<TableCell>) -> spec_fn(StreamFolderView, int) -> Option<StreamFolderView> {
    |record: StreamFolderView, index: int|
        if record.resolvable(paths.len()) {
            Some(record.resolved(paths))
        } else {
            None
        }
}

/// Resolves every stream folder of `table`. Returns whether all of them could
/// be resolved; the round stops at the first that cannot.
pub fn resolve_stream_folders(
    store: &mut CellStore<StreamFolder>,
    table: &[TableCell],
    paths: &[TableCell],
) -> (done: bool)
    ensures
        final(store)@.len() == old(store)@.len(),
        done == pass(views(old(store)@), table@, table@.len(), stream_folder_step(paths@)).is_some(),
        done ==> Some(views(final(store)@)) == pass(
            views(old(store)@),
            table@,
            table@.len(),
            stream_folder_step(paths@),
        ),
{
    let ghost step = stream_folder_step(paths@);
    let ghost start = views(old(store)@);
    let mut i: usize = 0;
    while i < table.len()
        invariant
            i <= table@.len(),
            store@.len() == old(store)@.len(),
            step == stream_folder_step(paths@),
            start == views(old(store)@),
            pass(start, table@, i as nat, step) == Some(views(store@)),
        decreases table@.len() - i,
    {
        let cell = table[i];
        let ghost before = views(store@);
        if !store.contains(&cell) {
            proof {
                lemma_pass_fails(start, table@, (i + 1) as nat, table@.len(), step);
            }
            return false;
        }
        let record = cell.get_mut(store);
        if !record.can_resolve(paths.len()) {
            proof {
                lemma_pass_fails(start, table@, (i + 1) as nat, table@.len(), step);
            }
            return false;
        }
        record.resolve(paths);
        assert(views(store@) =~= before.update(
            cell.slot as int,
            before[cell.slot as int].resolved(paths@),
        ));
        i = i + 1;
    }
    true
}

/// Resolving one stream path against the table of its links.
pub open spec fn stream_path_step(links: Seq<TableCell>) -> spec_fn(StreamPathView, int) -> Option<StreamPathView> {
    |record: StreamPathView, index: int|
        if record.resolvable(links.len()) {
            Some(record.resolved(links))
        } else {
            None
        }
}

/// Resolves every stream path of `table`. Returns whether all of them could
/// be resolved; the round stops at the first that cannot.
pub fn resolve_stream_paths(
    store: &mut CellStore<StreamPath>,
    table: &[TableCell],
    links: &[TableCell],
) -> (done: bool)
    ensures
        final(store)@.len() == old(store)@.len(),
        done == pass(views(old(store)@), table@, table@.len(), stream_path_step(links@)).is_some(),
        done ==> Some(views(final(store)@)) == pass(
            views(old(store)@),
            table@,
            table@.len(),
            stream_path_step(links@),
        ),
{
    let ghost step = stream_path_step(links@);
    let ghost start = views(old(store)@);
    let mut i: usize = 0;
    while i < table.len()
        invariant
            i <= table@.len(),
            store@.len() == old(store)@.len(),
            step == stream_path_step(links@),
            start == views(old(store)@),
            pass(start, table@, i as nat, step) == Some(views(store@)),
        decreases table@.len() - i,
    {
        let cell = table[i];
        let ghost before = views(store@);
        if !store.contains(&cell) {
            proof {
                lemma_pass_fails(start, table@, (i + 1) as nat, table@.len(), step);
            }
            return false;
        }
        let record = cell.get_mut(store);
        if !record.can_resolve(links.len()) {
            proof {
                lemma_pass_fails(start, table@, (i + 1) as nat, table@.len(), step);
            }
            return false;
        }
        record.resolve(links);
        assert(views(store@) =~= before.update(
            cell.slot as int,
            before[cell.slot as int].resolved(links@),
        ));
        i = i + 1;
    }
    true
}

/// Resolving one stream link against the table of its metadatas.
pub open spec fn stream_link_step(metadatas: Seq<TableCell>) -> spec_fn(StreamLink, int) -> Option<StreamLink> {
    |record: StreamLink, index: int|
        if record.resolvable(metadatas.len()) {
            Some(record.resolved(metadatas))
        } else {
            None
        }
}

/// Resolves every stream link of `table`. Returns whether all of them could
/// be resolved; the round stops at the first that cannot.
pub fn resolve_stream_links(
    store: &mut CellStore<StreamLink>,
    table: &[TableCell],
    metadatas: &[TableCell],
) -> (done: bool)
    ensures
        final(store)@.len() == old(store)@.len(),
        done == pass(views(old(store)@), table@, table@.len(), stream_link_step(metadatas@)).is_some(),
        done ==> Some(views(final(store)@)) == pass(
            views(old(store)@),
            table@,
            table@.len(),
            stream_link_step(metadatas@),
        ),
{
    let ghost step = stream_link_step(metadatas@);
    let ghost start = views(old(store)@);
    let mut i: usize = 0;
    while i < table.len()
        invariant
            i <= table@.len(),
            store@.len() == old(store)@.len(),
            step == stream_link_step(metadatas@),
            start == views(old(store)@),
            pass(start, table@, i as nat, step) == Some(views(store@)),
        decreases table@.len() - i,
    {
        let cell = table[i];
        let ghost before = views(store@);
        if !store.contains(&cell) {
            proof {
                lemma_pass_fails(start, table@, (i + 1) as nat, table@.len(), step);
            }
            return false;
        }
        let record = cell.get_mut(store);
        if !record.can_resolve(metadatas.len()) {
            proof {
                lemma_pass_fails(start, table@, (i + 1) as nat, table@.len(), step);
            }
            return false;
        }
        record.resolve(metadatas);
        assert(views(store@) =~= before.update(
            cell.slot as int,
            before[cell.slot as int].resolved(metadatas@),
        ));
        i = i + 1;
    }
    true
}

/// The records of the stream filesystem, one store for each table.
pub struct StreamCells {
    pub folders: CellStore<StreamFolder>,
    pub paths: CellStore<StreamPath>,
    pub links: CellStore<StreamLink>,
    pub metadatas: CellStore<StreamMetadata>,
}

/// What [`StreamCells`] holds.
pub struct StreamCellsView {
    pub folders: Seq<StreamFolderView>,
    pub paths: Seq<StreamPathView>,
    pub links: Seq<StreamLink>,
    pub metadatas: Seq<StreamMetadata>,
}

impl StreamCellsView {
    /// How many cells the four stores hold together.
    pub open spec fn cell_count(self) -> int {
        (self.folders.len() + self.paths.len() + self.links.len() + self.metadatas.len()) as int
    }
}

impl StreamCells {
    /// Whether the cells of the four stores have the identifiers from
    /// `base` on, store after store: the folders, the paths, the links and
    /// the metadatas.
    pub open spec fn numbered_from(&self, base: int) -> bool {
        let a = base + self.folders@.len();
        let b = a + self.paths@.len();
        let c = b + self.links@.len();
        &&& self.folders.numbered_from(base)
        &&& self.paths.numbered_from(a)
        &&& self.links.numbered_from(b)
        &&& self.metadatas.numbered_from(c)
    }

    /// Counts the cells of the four stores.
    pub fn count(&self) -> (count: u128)
        ensures
            count == self@.cell_count(),
            count <= 4 * 0xFFFF_FFFF_FFFF_FFFFu128,
    {
        self.folders.len() as u128 + self.paths.len() as u128 + self.links.len() as u128
            + self.metadatas.len() as u128
    }

    /// Gives every cell of the four stores the next identifier of the
    /// counter, store after store. Does nothing and returns false where the
    /// counter has not that many identifiers left.
    pub fn name_all(&mut self, ids: &mut CellIds) -> (done: bool)
        ensures
            done == old(ids).room(old(self)@.cell_count()),
            final(self)@ == old(self)@,
            done ==> final(self).numbered_from(old(ids).next as int) && final(ids).next == old(ids).next + old(self)@.cell_count(),
            !done ==> final(ids).next == old(ids).next,
    {
        if self.count() > (u64::MAX - ids.next) as u128 {
            return false;
        }
        self.folders.name_all(ids);
        self.paths.name_all(ids);
        self.links.name_all(ids);
        self.metadatas.name_all(ids);
        true
    }
}

impl View for StreamCells {
    type V = StreamCellsView;

    open spec fn view(&self) -> StreamCellsView {
        StreamCellsView {
            folders: views(self.folders@),
            paths: views(self.paths@),
            links: views(self.links@),
            metadatas: views(self.metadatas@),
        }
    }
}

/// One table of handles for each table of the stream filesystem.
pub struct StreamTables {
    pub folders: Seq<TableCell>,
    pub paths: Seq<TableCell>,
    pub links: Seq<TableCell>,
    pub metadatas: Seq<TableCell>,
}

/// What a [`StreamEngine`] holds.
pub struct StreamModel {
    pub path_lookup: Map<u64, TableCell>,
    pub tables: StreamTables,
    pub cells: StreamCellsView,
}

/// The engine of the stream filesystem.
pub struct StreamEngine {
    pub path_lookup: BTreeMap<u64, TableCell>,
    pub folders: Vec<TableCell>,
    pub paths: Vec<TableCell>,
    pub links: Vec<TableCell>,
    pub metadatas: Vec<TableCell>,
    pub cells: StreamCells,
}

impl View for StreamEngine {
    type V = StreamModel;

    open spec fn view(&self) -> StreamModel {
        StreamModel {
            path_lookup: self.path_lookup@,
            tables: StreamTables {
                folders: self.folders@,
                paths: self.paths@,
                links: self.links@,
                metadatas: self.metadatas@,
            },
            cells: self.cells@,
        }
    }
}

/// The lookup of the stream paths by their hash, built from the first
/// `upto` paths in order.
pub open spec fn stream_lookup_of(paths: Seq<StreamPathView>, upto: nat) -> Map<u64, TableCell>
    decreases upto,
{
    if upto == 0 {
        Map::empty()
    } else {
        stream_lookup_of(paths, (upto - 1) as nat).insert(
            paths[upto - 1].full_path.0,
            TableCell { slot: (upto - 1) as u64 },
        )
    }
}

/// The engine that holds the records `cells` as they were read.
pub open spec fn fresh_stream_model(cells: StreamCellsView) -> StreamModel {
    StreamModel {
        path_lookup: stream_lookup_of(cells.paths, cells.paths.len()),
        tables: StreamTables {
            folders: identity_cells(cells.folders.len()),
            paths: identity_cells(cells.paths.len()),
            links: identity_cells(cells.links.len()),
            metadatas: identity_cells(cells.metadatas.len()),
        },
        cells,
    }
}

/// The four tables of a directory of tables of the stream filesystem, and
/// the keys of its lookup, each as its bytes.
pub struct StreamDirectory {
    pub folders: Vec<u8>,
    pub paths: Vec<u8>,
    pub links: Vec<u8>,
    pub metadatas: Vec<u8>,
    pub path_keys: Vec<u8>,
}

/// What a [`StreamDirectory`] holds.
pub struct StreamDirectoryView {
    pub folders: Seq<u8>,
    pub paths: Seq<u8>,
    pub links: Seq<u8>,
    pub metadatas: Seq<u8>,
    pub path_keys: Seq<u8>,
}

impl View for StreamDirectory {
    type V = StreamDirectoryView;

    open spec fn view(&self) -> StreamDirectoryView {
        StreamDirectoryView {
            folders: self.folders@,
            paths: self.paths@,
            links: self.links@,
            metadatas: self.metadatas@,
            path_keys: self.path_keys@,
        }
    }
}

/// The records that a directory of tables holds.
pub open spec fn stream_directory_cells(directory: StreamDirectoryView) -> Option<StreamCellsView> {
    match (
        whole_table::<StreamFolder>(directory.folders),
        whole_table::<StreamPath>(directory.paths),
        whole_table::<StreamLink>(directory.links),
        whole_table::<StreamMetadata>(directory.metadatas),
    ) {
        (Some(folders), Some(paths), Some(links), Some(metadatas)) => Some(
            StreamCellsView { folders, paths, links, metadatas },
        ),
        _ => None,
    }
}

impl StreamModel {
    /// The records after resolving every reference: the folders against
    /// the paths, the paths against the links, the links against the
    /// metadatas.
    pub open spec fn resolution(self) -> Option<StreamCellsView> {
        let t = self.tables;
        let c = self.cells;
        match (
            pass(c.folders, t.folders, t.folders.len(), stream_folder_step(t.paths)),
            pass(c.paths, t.paths, t.paths.len(), stream_path_step(t.links)),
            pass(c.links, t.links, t.links.len(), stream_link_step(t.metadatas)),
        ) {
            (Some(folders), Some(paths), Some(links)) => Some(
                StreamCellsView { folders, paths, links, metadatas: c.metadatas },
            ),
            _ => None,
        }
    }
}

impl StreamEngine {
    /// Builds the engine that holds the records `cells` as they were read.
    /// The cells keep the identifiers that they have.
    pub fn from_cells(cells: StreamCells) -> (engine: Self)
        ensures
            engine@ == fresh_stream_model(cells@),
            engine.cells == cells,
    {
        let mut path_lookup: BTreeMap<u64, TableCell> = BTreeMap::new();
        let mut i: usize = 0;
        while i < cells.paths.len()
            invariant
                i <= cells.paths@.len(),
                path_lookup@ == stream_lookup_of(views(cells.paths@), i as nat),
            decreases cells.paths@.len() - i,
        {
            let cell = TableCell::from_slot(i as u64);
            path_lookup.insert(cell.get(&cells.paths).full_path.0, cell);
            i = i + 1;
        }
        StreamEngine {
            path_lookup,
            folders: identity_table(cells.folders.len()),
            paths: identity_table(cells.paths.len()),
            links: identity_table(cells.links.len()),
            metadatas: identity_table(cells.metadatas.len()),
            cells,
        }
    }

    /// Reads the engine from the tables of a directory. The lookup is built
    /// from the paths. Every cell gets the next identifier of the counter,
    /// store after store. Fails with a format error where a table does not
    /// parse, and with an invariant error where the counter has not as many
    /// identifiers left as there are cells; the counter is then as it was.
    pub fn from_directory(directory: &StreamDirectory, ids: &mut CellIds) -> (result: Result<
        Self,
        ArchiveError,
    >)
        ensures
            match result {
                Ok(engine) => stream_directory_cells(directory@) matches Some(cells) && engine@
                    == fresh_stream_model(cells) && engine.cells.numbered_from(
                    old(ids).next as int,
                ) && final(ids).next == old(ids).next + cells.cell_count(),
                Err(error) => final(ids).next == old(ids).next && if error == ArchiveError::Format {
                    stream_directory_cells(directory@) is None
                } else {
                    stream_directory_cells(directory@) matches Some(cells) && error
                        == ArchiveError::Invariant && !old(ids).room(cells.cell_count())
                },
            },
    {
        let folders = read_table::<StreamFolder>(directory.folders.as_slice())?;
        let paths = read_table::<StreamPath>(directory.paths.as_slice())?;
        let links = read_table::<StreamLink>(directory.links.as_slice())?;
        let metadatas = read_table::<StreamMetadata>(directory.metadatas.as_slice())?;
        let mut cells = StreamCells {
            folders: CellStore::unnamed(folders),
            paths: CellStore::unnamed(paths),
            links: CellStore::unnamed(links),
            metadatas: CellStore::unnamed(metadatas),
        };
        if !cells.name_all(ids) {
            return Err(ArchiveError::Invariant);
        }
        Ok(Self::from_cells(cells))
    }

    /// Resolves every reference of every table: folders, then paths, then
    /// links. Fails with a format error at the first reference that cannot
    /// be resolved.
    pub fn resolve(&mut self) -> (result: Result<(), ArchiveError>)
        ensures
            result is Ok <==> old(self)@.resolution() is Some,
            result is Ok ==> final(self)@ == (StreamModel {
                cells: old(self)@.resolution().unwrap(),
                ..old(self)@
            }),
            result matches Err(error) ==> error == ArchiveError::Format,
            final(self)@.tables == old(self)@.tables,
            final(self)@.path_lookup == old(self)@.path_lookup,
    {
        if !resolve_stream_folders(
            &mut self.cells.folders,
            self.folders.as_slice(),
            self.paths.as_slice(),
        ) {
            return Err(ArchiveError::Format);
        }
        if !resolve_stream_paths(&mut self.cells.paths, self.paths.as_slice(), self.links.as_slice()) {
            return Err(ArchiveError::Format);
        }
        if !resolve_stream_links(
            &mut self.cells.links,
            self.links.as_slice(),
            self.metadatas.as_slice(),
        ) {
            return Err(ArchiveError::Format);
        }
        Ok(())
    }

    /// The cell of the stream path with the given hash.
    pub open spec fn path_cell(&self, hash: Hash40) -> Option<TableCell> {
        if self@.path_lookup.contains_key(hash.0) {
            Some(self@.path_lookup[hash.0])
        } else {
            None
        }
    }

    /// The stream path with the given hash, if the lookup knows the hash and
    /// its cell has a record.
    pub fn get_path(&self, hash: Hash40) -> (path: Option<&StreamPath>)
        ensures
            match path {
                Some(path) => self.path_cell(hash) matches Some(cell) && self.cells.paths.has(cell)
                    && *path == self.cells.paths.at(cell),
                None => self.path_cell(hash) matches Some(cell) ==> !self.cells.paths.has(cell),
            },
    {
        broadcast use vstd::std_specs::btree::group_btree_axioms;
        broadcast use vstd::laws_cmp::group_laws_cmp;

        match self.path_lookup.get(&hash.0) {
            None => None,
            Some(cell) => self.cells.paths.lookup(cell),
        }
    }
}

impl StreamEngine {
    /// The stream path with the given hash, to be changed in place. What
    /// the caller leaves behind the reference is the record of the path from
    /// then on; nothing else of the engine changes.
    pub fn get_path_mut(&mut self, hash: Hash40) -> (path: Option<&mut StreamPath>)
        ensures
            match path {
                Some(path) => old(self).path_cell(hash) matches Some(cell) && old(self).cells.paths.has(
                    cell,
                ) && *path == old(self).cells.paths.at(cell) && final(self).cells.paths@ == old(
                    self
                ).cells.paths@.update(cell.slot as int, *final(path)),
                None => (old(self).path_cell(hash) matches Some(cell) ==> !old(self).cells.paths.has(
                    cell,
                )) && final(self).cells.paths@ == old(self).cells.paths@,
            },
            final(self)@.tables == old(self)@.tables,
            final(self)@.path_lookup == old(self)@.path_lookup,
            final(self).cells.folders == old(self).cells.folders,
            final(self).cells.links == old(self).cells.links,
            final(self).cells.metadatas == old(self).cells.metadatas,
    {
        let cell = match find_hash(&self.path_lookup, hash.0) {
            None => {
                return None;
            },
            Some(cell) => cell,
        };
        if self.cells.paths.contains(&cell) {
            Some(cell.get_mut(&mut self.cells.paths))
        } else {
            None
        }
    }
}

/// The tables with nothing in them.
pub open spec fn empty_stream_tables() -> StreamTables {
    StreamTables {
        folders: Seq::empty(),
        paths: Seq::empty(),
        links: Seq::empty(),
        metadatas: Seq::empty(),
    }
}

/// Pushing a link: the link, then its metadata where the metadata is new.
/// Several links may share one metadata.
pub open spec fn with_stream_link(t: StreamTables, c: StreamCellsView, cell: TableCell) -> Option<
    StreamTables,
> {
    match pushed(t.links, cell) {
        None => None,
        Some(links) => {
            let t = StreamTables { links, ..t };
            if cell.slot >= c.links.len() {
                None
            } else {
                match c.links[cell.slot as int].metadata {
                    TableReference::Unresolved(_) => None,
                    TableReference::Resolved(metadata) => if t.metadatas.contains(metadata) {
                        Some(t)
                    } else {
                        match pushed(t.metadatas, metadata) {
                            None => None,
                            Some(metadatas) => Some(StreamTables { metadatas, ..t }),
                        }
                    },
                }
            }
        },
    }
}

/// The step of a walk over stream links.
pub open spec fn stream_link_walk(c: StreamCellsView) -> spec_fn(StreamTables, TableCell) -> Option<
    StreamTables,
> {
    |t: StreamTables, cell: TableCell| with_stream_link(t, c, cell)
}

/// Pushing a path: the path, then each of its links.
pub open spec fn with_stream_path(t: StreamTables, c: StreamCellsView, cell: TableCell) -> Option<
    StreamTables,
> {
    match pushed(t.paths, cell) {
        None => None,
        Some(paths) => {
            let t = StreamTables { paths, ..t };
            if cell.slot >= c.paths.len() {
                None
            } else {
                match c.paths[cell.slot as int].links {
                    ReferenceSetView::Unresolved(_) => None,
                    ReferenceSetView::Resolved(links) => walk(
                        t,
                        links,
                        links.len(),
                        stream_link_walk(c),
                    ),
                }
            }
        },
    }
}

/// The step of a walk over stream paths.
pub open spec fn stream_path_walk(c: StreamCellsView) -> spec_fn(StreamTables, TableCell) -> Option<
    StreamTables,
> {
    |t: StreamTables, cell: TableCell| with_stream_path(t, c, cell)
}

/// Pushing a folder: the folder, then each of its paths.
pub open spec fn with_stream_folder(t: StreamTables, c: StreamCellsView, cell: TableCell) -> Option<
    StreamTables,
> {
    match pushed(t.folders, cell) {
        None => None,
        Some(folders) => {
            let t = StreamTables { folders, ..t };
            if cell.slot >= c.folders.len() {
                None
            } else {
                match c.folders[cell.slot as int].paths {
                    ReferenceSetView::Unresolved(_) => None,
                    ReferenceSetView::Resolved(paths) => walk(
                        t,
                        paths,
                        paths.len(),
                        stream_path_walk(c),
                    ),
                }
            }
        },
    }
}

/// The step of a walk over stream folders.
pub open spec fn stream_folder_walk(c: StreamCellsView) -> spec_fn(
    StreamTables,
    TableCell,
) -> Option<StreamTables> {
    |t: StreamTables, cell: TableCell| with_stream_folder(t, c, cell)
}

/// The walk over the folders `folders` of an engine with the records `c`:
/// each folder in order, with its paths, their links and the metadatas that
/// are new.
pub open spec fn stream_reorganized(folders: Seq<TableCell>, c: StreamCellsView) -> Option<
    StreamTables,
> {
    walk(empty_stream_tables(), folders, folders.len(), stream_folder_walk(c))
}

/// One collector for each table of the stream filesystem.
pub struct StreamMakers {
    pub folders: TableMaker,
    pub paths: TableMaker,
    pub links: TableMaker,
    pub metadatas: TableMaker,
}

impl View for StreamMakers {
    type V = StreamTables;

    open spec fn view(&self) -> StreamTables {
        StreamTables {
            folders: self.folders@,
            paths: self.paths@,
            links: self.links@,
            metadatas: self.metadatas@,
        }
    }
}

impl StreamMakers {
    /// Every collector is well-formed.
    pub open spec fn wf(&self) -> bool {
        &&& self.folders.wf()
        &&& self.paths.wf()
        &&& self.links.wf()
        &&& self.metadatas.wf()
    }

    fn push_link(&mut self, cells: &StreamCells, link: TableCell) -> (done: bool)
        requires
            old(self).wf(),
        ensures
            final(self).wf(),
            done == with_stream_link(old(self)@, cells@, link).is_some(),
            done ==> Some(final(self)@) == with_stream_link(old(self)@, cells@, link),
    {
        if !self.links.push_new(link) {
            return false;
        }
        match cells.links.lookup(&link) {
            None => false,
            Some(record) => match &record.metadata {
                TableReference::Unresolved(_) => false,
                TableReference::Resolved(metadata) => {
                    if self.metadatas.has_cell(metadata) {
                        true
                    } else {
                        self.metadatas.push_new(*metadata)
                    }
                },
            },
        }
    }

    #[verifier::loop_isolation(false)]
    fn push_path(&mut self, cells: &StreamCells, path: TableCell) -> (done: bool)
        requires
            old(self).wf(),
        ensures
            final(self).wf(),
            done == with_stream_path(old(self)@, cells@, path).is_some(),
            done ==> Some(final(self)@) == with_stream_path(old(self)@, cells@, path),
    {
        if !self.paths.push_new(path) {
            return false;
        }
        let record = match cells.paths.lookup(&path) {
            None => {
                return false;
            },
            Some(record) => record,
        };
        if !record.links.0.is_resolved() {
            return false;
        }
        let links = record.links.0.cells();
        let ghost start = self@;
        let ghost step = stream_link_walk(cells@);
        let mut i: usize = 0;
        while i < links.len()
            invariant
                i <= links@.len(),
                self.wf(),
                walk(start, links@, i as nat, step) == Some(self@),
            decreases links@.len() - i,
        {
            if !self.push_link(cells, links[i]) {
                proof {
                    lemma_walk_fails(start, links@, (i + 1) as nat, links@.len(), step);
                }
                return false;
            }
            i = i + 1;
        }
        true
    }

    #[verifier::loop_isolation(false)]
    fn push_folder(&mut self, cells: &StreamCells, folder: TableCell) -> (done: bool)
        requires
            old(self).wf(),
        ensures
            final(self).wf(),
            done == with_stream_folder(old(self)@, cells@, folder).is_some(),
            done ==> Some(final(self)@) == with_stream_folder(old(self)@, cells@, folder),
    {
        if !self.folders.push_new(folder) {
            return false;
        }
        let record = match cells.folders.lookup(&folder) {
            None => {
                return false;
            },
            Some(record) => record,
        };
        if !record.paths.0.is_resolved() {
            return false;
        }
        let paths = record.paths.0.cells();
        let ghost start = self@;
        let ghost step = stream_path_walk(cells@);
        let mut i: usize = 0;
        while i < paths.len()
            invariant
                i <= paths@.len(),
                self.wf(),
                walk(start, paths@, i as nat, step) == Some(self@),
            decreases paths@.len() - i,
        {
            if !self.push_path(cells, paths[i]) {
                proof {
                    lemma_walk_fails(start, paths@, (i + 1) as nat, paths@.len(), step);
                }
                return false;
            }
            i = i + 1;
        }
        true
    }
}

/// What a [`StreamWriter`] holds.
pub struct StreamWriterModel {
    pub path_lookup: Map<u64, TableCell>,
    pub tables: StreamTables,
    pub cells: StreamCellsView,
}

/// The rebuilt tables of a stream filesystem, ready to be serialized.
pub struct StreamWriter {
    pub path_lookup: BTreeMap<u64, TableCell>,
    pub tables: StreamMakers,
    pub cells: StreamCells,
}

impl View for StreamWriter {
    type V = StreamWriterModel;

    open spec fn view(&self) -> StreamWriterModel {
        StreamWriterModel {
            path_lookup: self.path_lookup@,
            tables: self.tables@,
            cells: self.cells@,
        }
    }
}

/// How one stream folder is written.
pub open spec fn stream_folder_encoder(t: StreamTables) -> spec_fn(StreamFolderView, int) -> Option<
    Seq<u8>,
> {
    |record: StreamFolderView, index: int| record.encoded(t.paths)
}

/// How one stream path is written.
pub open spec fn stream_path_encoder(t: StreamTables) -> spec_fn(StreamPathView, int) -> Option<
    Seq<u8>,
> {
    |record: StreamPathView, index: int| record.encoded(t.links)
}

/// How one stream link is written.
pub open spec fn stream_link_encoder(t: StreamTables) -> spec_fn(StreamLink, int) -> Option<
    Seq<u8>,
> {
    |record: StreamLink, index: int| record.encoded(t.metadatas)
}

/// How one stream metadata is written.
pub open spec fn stream_metadata_encoder() -> spec_fn(StreamMetadata, int) -> Option<Seq<u8>> {
    |record: StreamMetadata, index: int| Some(record.encoded())
}

impl StreamWriterModel {
    /// The bytes of the folders.
    pub open spec fn folder_bytes(self) -> Option<Seq<u8>> {
        table_bytes(
            self.cells.folders,
            self.tables.folders,
            self.tables.folders.len(),
            stream_folder_encoder(self.tables),
        )
    }

    /// The keys of the lookup of the paths, in the order of their hashes.
    pub open spec fn path_key_bytes(self) -> Option<Seq<u8>> {
        let entries = ordered(self.path_lookup);
        key_bytes(entries, self.tables.paths, entries.len())
    }

    /// The bytes of the paths.
    pub open spec fn path_bytes(self) -> Option<Seq<u8>> {
        table_bytes(
            self.cells.paths,
            self.tables.paths,
            self.tables.paths.len(),
            stream_path_encoder(self.tables),
        )
    }

    /// The bytes of the links.
    pub open spec fn link_bytes(self) -> Option<Seq<u8>> {
        table_bytes(
            self.cells.links,
            self.tables.links,
            self.tables.links.len(),
            stream_link_encoder(self.tables),
        )
    }

    /// The bytes of the metadatas.
    pub open spec fn metadata_bytes(self) -> Option<Seq<u8>> {
        table_bytes(
            self.cells.metadatas,
            self.tables.metadatas,
            self.tables.metadatas.len(),
            stream_metadata_encoder(),
        )
    }

    /// The stream filesystem as it lies in the archive: the folders, the
    /// keys of the lookup of the paths, the paths, the links and the
    /// metadatas.
    pub open spec fn memory_bytes(self) -> Option<Seq<u8>> {
        join(
            join(
                join(join(self.folder_bytes(), self.path_key_bytes()), self.path_bytes()),
                self.link_bytes(),
            ),
            self.metadata_bytes(),
        )
    }

    /// The files of the stream filesystem in a directory of tables.
    pub open spec fn directory(self) -> Option<StreamDirectoryView> {
        match (
            self.folder_bytes(),
            self.path_bytes(),
            self.link_bytes(),
            self.metadata_bytes(),
            self.path_key_bytes(),
        ) {
            (Some(folders), Some(paths), Some(links), Some(metadatas), Some(path_keys)) => Some(
                StreamDirectoryView { folders, paths, links, metadatas, path_keys },
            ),
            _ => None,
        }
    }
}

/// Appends the bytes of a stream folder. Writes nothing and returns false
/// where the folder has no bytes.
pub fn write_stream_folder(out: &mut Vec<u8>, folder: &StreamFolder, paths: &TableMaker) -> (done:
    bool)
    requires
        paths.wf(),
    ensures
        done == folder@.encoded(paths@).is_some(),
        done ==> final(out)@ == old(out)@ + folder@.encoded(paths@).unwrap(),
        !done ==> final(out)@ == old(out)@,
{
    match &folder.paths.0 {
        TableReferenceSet::Unresolved(_) => false,
        TableReferenceSet::Resolved(cells) => {
            let start = if cells.len() == 0 {
                Some(0u32)
            } else {
                find_index(paths, &cells[0])
            };
            match start {
                None => false,
                Some(start) => {
                    let quads: Vec<u64> = vec![HashKey::new(folder.name, cells.len()).0];
                    let words: Vec<u32> = vec![start];
                    assert(quads@ =~= seq![HashKey::pack(folder.name, cells@.len() as usize).0]);
                    assert(words@ =~= seq![start]);
                    push_record(out, quads.as_slice(), words.as_slice());
                    true
                },
            }
        },
    }
}

/// Appends the bytes of a stream path. Writes nothing and returns false
/// where the path has no bytes.
pub fn write_stream_path(out: &mut Vec<u8>, path: &StreamPath, links: &TableMaker) -> (done: bool)
    requires
        links.wf(),
    ensures
        done == path@.encoded(links@).is_some(),
        done ==> final(out)@ == old(out)@ + path@.encoded(links@).unwrap(),
        !done ==> final(out)@ == old(out)@,
{
    match &path.links.0 {
        TableReferenceSet::Unresolved(_) => false,
        TableReferenceSet::Resolved(cells) => {
            if cells.len() == 0 {
                return false;
            }
            match find_index(links, &cells[0]) {
                None => false,
                Some(link) => {
                    let flags: u32 = if path.is_localized {
                        1
                    } else if path.is_regional {
                        2
                    } else {
                        0
                    };
                    let quads: Vec<u64> = vec![HashKey::new(path.full_path, link as usize).0];
                    let words: Vec<u32> = vec![flags];
                    assert(quads@ =~= seq![HashKey::pack(path.full_path, link as usize).0]);
                    assert(words@ =~= seq![flags]);
                    push_record(out, quads.as_slice(), words.as_slice());
                    true
                },
            }
        },
    }
}

/// Appends the bytes of a stream link. Writes nothing and returns false
/// where the link has no bytes.
pub fn write_stream_link(out: &mut Vec<u8>, link: &StreamLink, metadatas: &TableMaker) -> (done:
    bool)
    requires
        metadatas.wf(),
    ensures
        done == link.encoded(metadatas@).is_some(),
        done ==> final(out)@ == old(out)@ + link.encoded(metadatas@).unwrap(),
        !done ==> final(out)@ == old(out)@,
{
    match &link.metadata {
        TableReference::Unresolved(_) => false,
        TableReference::Resolved(cell) => match find_index(metadatas, cell) {
            None => false,
            Some(index) => {
                let quads: Vec<u64> = Vec::new();
                let words: Vec<u32> = vec![index];
                assert(quads@ =~= seq![]);
                assert(words@ =~= seq![index]);
                push_record(out, quads.as_slice(), words.as_slice());
                true
            },
        },
    }
}

/// Appends the bytes of a stream metadata.
pub fn write_stream_metadata(out: &mut Vec<u8>, metadata: &StreamMetadata)
    ensures
        final(out)@ == old(out)@ + metadata.encoded(),
{
    let quads: Vec<u64> = vec![metadata.size, metadata.offset];
    let words: Vec<u32> = Vec::new();
    assert(words@ =~= seq![]);
    push_record(out, quads.as_slice(), words.as_slice());
}

/// Appends the bytes of every stream folder of `table`. Returns false at the
/// first that has no bytes.
pub fn write_stream_folders(
    out: &mut Vec<u8>,
    store: &CellStore<StreamFolder>,
    table: &[TableCell],
    makers: &StreamMakers,
) -> (done: bool)
    requires
        makers.wf(),
    ensures
        done == table_bytes(views(store@), table@, table@.len(), stream_folder_encoder(makers@)).is_some(),
        done ==> final(out)@ == old(out)@ + table_bytes(
            views(store@),
            table@,
            table@.len(),
            stream_folder_encoder(makers@),
        ).unwrap(),
{
    let ghost encode = stream_folder_encoder(makers@);
    let ghost records = views(store@);
    let mut i: usize = 0;
    while i < table.len()
        invariant
            i <= table@.len(),
            makers.wf(),
            encode == stream_folder_encoder(makers@),
            records == views(store@),
            table_bytes(records, table@, i as nat, encode) is Some,
            out@ == old(out)@ + table_bytes(records, table@, i as nat, encode).unwrap(),
        decreases table@.len() - i,
    {
        let mut done = false;
        match store.lookup(&table[i]) {
            None => {},
            Some(record) => {
                done = write_stream_folder(out, record, &makers.paths);
            },
        }
        if !done {
            proof {
                lemma_table_bytes_fails(records, table@, (i + 1) as nat, table@.len(), encode);
            }
            return false;
        }
        proof {
            let bytes = table_bytes(records, table@, (i + 1) as nat, encode).unwrap();
            assert(out@ =~= old(out)@ + bytes);
        }
        i = i + 1;
    }
    true
}

/// Appends the bytes of every stream path of `table`. Returns false at the
/// first that has no bytes.
pub fn write_stream_paths(
    out: &mut Vec<u8>,
    store: &CellStore<StreamPath>,
    table: &[TableCell],
    makers: &StreamMakers,
) -> (done: bool)
    requires
        makers.wf(),
    ensures
        done == table_bytes(views(store@), table@, table@.len(), stream_path_encoder(makers@)).is_some(),
        done ==> final(out)@ == old(out)@ + table_bytes(
            views(store@),
            table@,
            table@.len(),
            stream_path_encoder(makers@),
        ).unwrap(),
{
    let ghost encode = stream_path_encoder(makers@);
    let ghost records = views(store@);
    let mut i: usize = 0;
    while i < table.len()
        invariant
            i <= table@.len(),
            makers.wf(),
            encode == stream_path_encoder(makers@),
            records == views(store@),
            table_bytes(records, table@, i as nat, encode) is Some,
            out@ == old(out)@ + table_bytes(records, table@, i as nat, encode).unwrap(),
        decreases table@.len() - i,
    {
        let mut done = false;
        match store.lookup(&table[i]) {
            None => {},
            Some(record) => {
                done = write_stream_path(out, record, &makers.links);
            },
        }
        if !done {
            proof {
                lemma_table_bytes_fails(records, table@, (i + 1) as nat, table@.len(), encode);
            }
            return false;
        }
        proof {
            let bytes = table_bytes(records, table@, (i + 1) as nat, encode).unwrap();
            assert(out@ =~= old(out)@ + bytes);
        }
        i = i + 1;
    }
    true
}

/// Appends the bytes of every stream link of `table`. Returns false at the
/// first that has no bytes.
pub fn write_stream_links(
    out: &mut Vec<u8>,
    store: &CellStore<StreamLink>,
    table: &[TableCell],
    makers: &StreamMakers,
) -> (done: bool)
    requires
        makers.wf(),
    ensures
        done == table_bytes(views(store@), table@, table@.len(), stream_link_encoder(makers@)).is_some(),
        done ==> final(out)@ == old(out)@ + table_bytes(
            views(store@),
            table@,
            table@.len(),
            stream_link_encoder(makers@),
        ).unwrap(),
{
    let ghost encode = stream_link_encoder(makers@);
    let ghost records = views(store@);
    let mut i: usize = 0;
    while i < table.len()
        invariant
            i <= table@.len(),
            makers.wf(),
            encode == stream_link_encoder(makers@),
            records == views(store@),
            table_bytes(records, table@, i as nat, encode) is Some,
            out@ == old(out)@ + table_bytes(records, table@, i as nat, encode).unwrap(),
        decreases table@.len() - i,
    {
        let mut done = false;
        match store.lookup(&table[i]) {
            None => {},
            Some(record) => {
                done = write_stream_link(out, record, &makers.metadatas);
            },
        }
        if !done {
            proof {
                lemma_table_bytes_fails(records, table@, (i + 1) as nat, table@.len(), encode);
            }
            return false;
        }
        proof {
            let bytes = table_bytes(records, table@, (i + 1) as nat, encode).unwrap();
            assert(out@ =~= old(out)@ + bytes);
        }
        i = i + 1;
    }
    true
}

/// Appends the bytes of every stream metadata of `table`. Returns false at
/// the first cell that has no record.
pub fn write_stream_metadatas(out: &mut Vec<u8>, store: &CellStore<StreamMetadata>, table: &[TableCell]) -> (done:
    bool)
    ensures
        done == table_bytes(views(store@), table@, table@.len(), stream_metadata_encoder()).is_some(),
        done ==> final(out)@ == old(out)@ + table_bytes(
            views(store@),
            table@,
            table@.len(),
            stream_metadata_encoder(),
        ).unwrap(),
{
    let ghost encode = stream_metadata_encoder();
    let ghost records = views(store@);
    let mut i: usize = 0;
    while i < table.len()
        invariant
            i <= table@.len(),
            encode == stream_metadata_encoder(),
            records == views(store@),
            table_bytes(records, table@, i as nat, encode) is Some,
            out@ == old(out)@ + table_bytes(records, table@, i as nat, encode).unwrap(),
        decreases table@.len() - i,
    {
        match store.lookup(&table[i]) {
            None => {
                proof {
                    lemma_table_bytes_fails(records, table@, (i + 1) as nat, table@.len(), encode);
                }
                return false;
            },
            Some(record) => {
                write_stream_metadata(out, record);
            },
        }
        proof {
            let bytes = table_bytes(records, table@, (i + 1) as nat, encode).unwrap();
            assert(out@ =~= old(out)@ + bytes);
        }
        i = i + 1;
    }
    true
}

impl StreamWriter {
    /// The collectors are well-formed.
    pub open spec fn wf(&self) -> bool {
        self.tables.wf()
    }

    /// Walks over the engine and rebuilds its tables in their canonical
    /// order. Fails where a cell would enter a table twice, a handle has no
    /// record, or a reference that the walk follows is not resolved.
    #[verifier::loop_isolation(false)]
    pub fn from_engine(engine: StreamEngine) -> (result: Result<Self, ArchiveError>)
        ensures
            match result {
                Ok(writer) => writer.wf() && stream_reorganized(
                    engine@.tables.folders,
                    engine@.cells,
                ) == Some(writer@.tables) && writer@.cells == engine@.cells && writer@.path_lookup
                    == engine@.path_lookup,
                Err(error) => error == ArchiveError::Invariant && stream_reorganized(
                    engine@.tables.folders,
                    engine@.cells,
                ) is None,
            },
    {
        let StreamEngine { path_lookup, folders, cells, paths: _, links: _, metadatas: _ } = engine;
        let mut makers = StreamMakers {
            folders: TableMaker::new(),
            paths: TableMaker::new(),
            links: TableMaker::new(),
            metadatas: TableMaker::new(),
        };
        let ghost step = stream_folder_walk(cells@);
        let mut i: usize = 0;
        while i < folders.len()
            invariant
                i <= folders@.len(),
                makers.wf(),
                walk(empty_stream_tables(), folders@, i as nat, step) == Some(makers@),
            decreases folders@.len() - i,
        {
            if !makers.push_folder(&cells, folders[i]) {
                proof {
                    lemma_walk_fails(
                        empty_stream_tables(),
                        folders@,
                        (i + 1) as nat,
                        folders@.len(),
                        step,
                    );
                }
                return Err(ArchiveError::Invariant);
            }
            i = i + 1;
        }
        Ok(StreamWriter { path_lookup, tables: makers, cells })
    }

    /// Appends the keys of the lookup of the paths.
    pub fn write_path_keys(&self, out: &mut Vec<u8>) -> (done: bool)
        requires
            self.wf(),
        ensures
            done == self@.path_key_bytes().is_some(),
            done ==> final(out)@ == old(out)@ + self@.path_key_bytes().unwrap(),
    {
        let entries = ordered_entries(&self.path_lookup);
        write_keys(out, entries.as_slice(), &self.tables.paths)
    }

    /// Appends the stream filesystem as it lies in the archive. Writes
    /// nothing and fails where a record has no bytes.
    pub fn to_memory(&self, out: &mut Vec<u8>) -> (result: Result<(), ArchiveError>)
        requires
            self.wf(),
        ensures
            match result {
                Ok(_) => self@.memory_bytes().is_some() && final(out)@ == old(out)@
                    + self@.memory_bytes().unwrap(),
                Err(error) => error == ArchiveError::Invariant && self@.memory_bytes().is_none()
                    && final(out)@ == old(out)@,
            },
    {
        let t = &self.tables;
        let c = &self.cells;
        let mut part: Vec<u8> = Vec::new();
        if !write_stream_folders(&mut part, &c.folders, t.folders.iter(), t) {
            return Err(ArchiveError::Invariant);
        }
        assert(part@ =~= self@.folder_bytes().unwrap());
        if !self.write_path_keys(&mut part) {
            return Err(ArchiveError::Invariant);
        }
        if !write_stream_paths(&mut part, &c.paths, t.paths.iter(), t) {
            return Err(ArchiveError::Invariant);
        }
        if !write_stream_links(&mut part, &c.links, t.links.iter(), t) {
            return Err(ArchiveError::Invariant);
        }
        if !write_stream_metadatas(&mut part, &c.metadatas, t.metadatas.iter()) {
            return Err(ArchiveError::Invariant);
        }
        crate::bytes::push_bytes(out, part.as_slice());
        Ok(())
    }

    /// Serializes the stream filesystem as the files of a directory of
    /// tables. Fails where a record has no bytes.
    pub fn to_directory(&self) -> (result: Result<StreamDirectory, ArchiveError>)
        requires
            self.wf(),
        ensures
            match result {
                Ok(directory) => self@.directory() == Some(directory@),
                Err(error) => error == ArchiveError::Invariant && self@.directory().is_none(),
            },
    {
        let t = &self.tables;
        let c = &self.cells;
        let mut folders: Vec<u8> = Vec::new();
        if !write_stream_folders(&mut folders, &c.folders, t.folders.iter(), t) {
            return Err(ArchiveError::Invariant);
        }
        let mut paths: Vec<u8> = Vec::new();
        if !write_stream_paths(&mut paths, &c.paths, t.paths.iter(), t) {
            return Err(ArchiveError::Invariant);
        }
        let mut links: Vec<u8> = Vec::new();
        if !write_stream_links(&mut links, &c.links, t.links.iter(), t) {
            return Err(ArchiveError::Invariant);
        }
        let mut metadatas: Vec<u8> = Vec::new();
        if !write_stream_metadatas(&mut metadatas, &c.metadatas, t.metadatas.iter()) {
            return Err(ArchiveError::Invariant);
        }
        let mut path_keys: Vec<u8> = Vec::new();
        if !self.write_path_keys(&mut path_keys) {
            return Err(ArchiveError::Invariant);
        }
        proof {
            assert(folders@ =~= self@.folder_bytes().unwrap());
            assert(paths@ =~= self@.path_bytes().unwrap());
            assert(links@ =~= self@.link_bytes().unwrap());
            assert(metadatas@ =~= self@.metadata_bytes().unwrap());
            assert(path_keys@ =~= self@.path_key_bytes().unwrap());
        }
        Ok(StreamDirectory { folders, paths, links, metadatas, path_keys })
    }
}

impl StreamEngine {
    /// Rebuilds the tables of the engine in their canonical order. The
    /// records and the lookup stay as they are; a cell that the walk does
    /// not reach leaves its table.
    pub fn reorganize(self) -> (result: Result<Self, ArchiveError>)
        ensures
            match result {
                Ok(engine) => stream_reorganized(self@.tables.folders, self@.cells) matches Some(
                    tables,
                ) && engine@ == (StreamModel { tables, ..self@ }),
                Err(error) => error == ArchiveError::Invariant && stream_reorganized(
                    self@.tables.folders,
                    self@.cells,
                ) is None,
            },
    {
        match StreamWriter::from_engine(self) {
            Err(error) => Err(error),
            Ok(writer) => {
                let StreamWriter { path_lookup, tables, cells } = writer;
                Ok(
                    StreamEngine {
                        path_lookup,
                        folders: tables.folders.into_inner(),
                        paths: tables.paths.into_inner(),
                        links: tables.links.into_inner(),
                        metadatas: tables.metadatas.into_inner(),
                        cells,
                    },
                )
            },
        }
    }
}


/// Resolving a stream filesystem a second time changes nothing.
pub proof fn lemma_stream_resolve_idempotent(model: StreamModel)
    requires
        model.resolution() is Some,
    ensures
        (StreamModel { cells: model.resolution().unwrap(), ..model }).resolution()
            == model.resolution(),
{
    let t = model.tables;
    let c = model.cells;
    lemma_pass_idempotent(
        c.folders,
        t.folders,
        t.folders.len(),
        stream_folder_step(t.paths),
        |folder: StreamFolderView| folder.paths is Resolved,
    );
    lemma_pass_idempotent(
        c.paths,
        t.paths,
        t.paths.len(),
        stream_path_step(t.links),
        |path: StreamPathView| path.links is Resolved,
    );
    lemma_pass_idempotent(
        c.links,
        t.links,
        t.links.len(),
        stream_link_step(t.metadatas),
        |link: StreamLink| link.metadata is Resolved,
    );
}

} // verus!
