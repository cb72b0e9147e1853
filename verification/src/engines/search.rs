//! The search filesystem: the namespace of the archive as a tree of folders
//! and paths.
use vstd::prelude::*;
use std::collections::BTreeMap;

pub mod canonical;
pub mod round_trip;
pub mod types;

use crate::bytes::{le32, push_bytes, push_u32};
use crate::engines::packaged::bucket_map::{find_hash, ordered, ordered_entries};
use crate::engines::rounds::{
    join, key_bytes, lemma_pass_fails, lemma_pass_idempotent, lemma_table_bytes_fails,
    lemma_walk_fails, pass, table_bytes, walk, write_keys,
};
use crate::engines::search::types::{
    SearchFolder, SearchFolderView, SearchPath, SearchPathFolderReference,
    SearchPathNextReference,
};
use crate::engines::table::{
    pushed, CellIds, CellStore, ReferenceSetView, TableCell, TableLinkedReference, TableMaker,
};
use crate::engines::{identity_cells, identity_table, read_table, views, whole_table, Hash40};
use crate::hashing::{hash40_of, hash_of};
use crate::paths::{
    camino_components, camino_extension, camino_file_name, camino_joined, camino_parent,
    path_components, path_extension, path_file_name, path_join, path_parent, texts,
};
use crate::ArchiveError;

verus! {

broadcast use {vstd::std_specs::btree::group_btree_axioms, vstd::laws_cmp::group_laws_cmp};

/// The records of the search filesystem, one store for each table.
pub struct SearchCells {
    pub folders: CellStore<SearchFolder>,
    pub paths: CellStore<SearchPath>,
}

/// What [`SearchCells`] holds.
pub struct SearchCellsView {
    pub folders: Seq<SearchFolderView>,
    pub paths: Seq<SearchPath>,
}

impl SearchCellsView {
    /// How many cells the two stores hold together.
    pub open spec fn cell_count(self) -> int {
        (self.folders.len() + self.paths.len()) as int
    }
}

impl SearchCells {
    /// Whether the cells of the two stores have the identifiers from `base`
    /// on, the folders before the paths.
    pub open spec fn numbered_from(&self, base: int) -> bool {
        &&& self.folders.numbered_from(base)
        &&& self.paths.numbered_from(base + self.folders@.len())
    }

    /// Counts the cells of the two stores.
    pub fn count(&self) -> (count: u128)
        ensures
            count == self@.cell_count(),
            count <= 2 * 0xFFFF_FFFF_FFFF_FFFFu128,
    {
        self.folders.len() as u128 + self.paths.len() as u128
    }

    /// Gives every cell of the two stores the next identifier of the
    /// counter, the folders before the paths. Does nothing and returns
    /// false where the counter has not that many identifiers left.
    pub fn name_all(&mut self, ids: &mut CellIds) -> (done: bool)
        ensures
            done == old(ids).room(old(self)@.cell_count()),
            final(self)@ == old(self)@,
            done ==> final(self).numbered_from(old(ids).next as int) && final(ids).next == old(ids).next + old(self)@.cell_count(),
            !done ==> final(ids).next == old(ids).next,
    {
        if self.count() > (u64::MAX - ids.next) as u128 {
            return false;
        }
        self.folders.name_all(ids);
        self.paths.name_all(ids);
        true
    }
}

impl View for SearchCells {
    type V = SearchCellsView;

    open spec fn view(&self) -> SearchCellsView {
        SearchCellsView { folders: views(self.folders@), paths: self.paths@ }
    }
}

/// One table of handles for each table of the search filesystem.
pub struct SearchTables {
    pub folders: Seq<TableCell>,
    pub paths: Seq<TableCell>,
}

/// What a [`SearchEngine`] holds.
pub struct SearchModel {
    pub folder_lookup: Map<u64, TableCell>,
    pub path_lookup: Map<u64, TableCell>,
    pub tables: SearchTables,
    pub cells: SearchCellsView,
}

/// The engine of the search filesystem.
pub struct SearchEngine {
    pub folder_lookup: BTreeMap<u64, TableCell>,
    pub path_lookup: BTreeMap<u64, TableCell>,
    pub folders: Vec<TableCell>,
    pub paths: Vec<TableCell>,
    pub cells: SearchCells,
}

impl View for SearchEngine {
    type V = SearchModel;

    open spec fn view(&self) -> SearchModel {
        SearchModel {
            folder_lookup: self.folder_lookup@,
            path_lookup: self.path_lookup@,
            tables: SearchTables { folders: self.folders@, paths: self.paths@ },
            cells: self.cells@,
        }
    }
}

/// The lookup of the folders by their hash, built from the first `upto`
/// folders in order.
pub open spec fn folder_lookup_of(folders: Seq<SearchFolderView>, upto: nat) -> Map<u64, TableCell>
    decreases upto,
{
    if upto == 0 {
        Map::empty()
    } else {
        folder_lookup_of(folders, (upto - 1) as nat).insert(
            folders[upto - 1].full_path.0,
            TableCell { slot: (upto - 1) as u64 },
        )
    }
}

/// The lookup of the paths by their hash, built from the first `upto` paths
/// in order. The path with the hash of the empty string has no entry.
pub open spec fn path_lookup_of(paths: Seq<SearchPath>, upto: nat) -> Map<u64, TableCell>
    decreases upto,
{
    if upto == 0 {
        Map::empty()
    } else {
        let before = path_lookup_of(paths, (upto - 1) as nat);
        if paths[upto - 1].full_path.0 == hash40_of(""@) {
            before
        } else {
            before.insert(paths[upto - 1].full_path.0, TableCell { slot: (upto - 1) as u64 })
        }
    }
}

/// The engine that holds the records `cells` as they were read.
pub open spec fn fresh_search_model(cells: SearchCellsView) -> SearchModel {
    SearchModel {
        folder_lookup: folder_lookup_of(cells.folders, cells.folders.len()),
        path_lookup: path_lookup_of(cells.paths, cells.paths.len()),
        tables: SearchTables {
            folders: identity_cells(cells.folders.len()),
            paths: identity_cells(cells.paths.len()),
        },
        cells,
    }
}

/// The files of the search filesystem in a directory of tables, each as its
/// bytes.
pub struct SearchDirectory {
    pub folders: Vec<u8>,
    pub paths: Vec<u8>,
    pub path_links: Vec<u8>,
    pub folder_keys: Vec<u8>,
    pub path_keys: Vec<u8>,
}

/// What a [`SearchDirectory`] holds.
pub struct SearchDirectoryView {
    pub folders: Seq<u8>,
    pub paths: Seq<u8>,
    pub path_links: Seq<u8>,
    pub folder_keys: Seq<u8>,
    pub path_keys: Seq<u8>,
}

impl View for SearchDirectory {
    type V = SearchDirectoryView;

    open spec fn view(&self) -> SearchDirectoryView {
        SearchDirectoryView {
            folders: self.folders@,
            paths: self.paths@,
            path_links: self.path_links@,
            folder_keys: self.folder_keys@,
            path_keys: self.path_keys@,
        }
    }
}

/// The records that a directory of tables holds.
pub open spec fn search_directory_cells(directory: SearchDirectoryView) -> Option<SearchCellsView> {
    match (whole_table::<SearchFolder>(directory.folders), whole_table::<SearchPath>(directory.paths)) {
        (Some(folders), Some(paths)) => Some(SearchCellsView { folders, paths }),
        _ => None,
    }
}

/// Resolving one path against the table of the paths and the lookup of the
/// folders.
pub open spec fn search_path_step(paths: Seq<TableCell>, folder_lookup: Map<u64, TableCell>)
    -> spec_fn(SearchPath, int) -> Option<SearchPath> {
    |record: SearchPath, index: int|
        if record.resolvable(paths.len(), folder_lookup) {
            Some(record.resolved(paths, folder_lookup))
        } else {
            None
        }
}

/// Resolving one folder: its children are the list that starts at its first
/// child and follows the paths from each to its next.
pub open spec fn search_folder_step(table: Seq<TableCell>, paths: Seq<SearchPath>) -> spec_fn(
    SearchFolderView,
    int,
) -> Option<SearchFolderView> {
    |record: SearchFolderView, index: int|
        match record.children.linked_target(table, paths) {
            None => None,
            Some(cells) => Some(
                SearchFolderView { children: ReferenceSetView::Resolved(cells), ..record },
            ),
        }
}

/// Resolves every path of `table`. Returns whether all of them could be
/// resolved; the round stops at the first that cannot.
pub fn resolve_search_paths(
    store: &mut CellStore<SearchPath>,
    table: &[TableCell],
    folder_lookup: &BTreeMap<u64, TableCell>,
) -> (done: bool)
    ensures
        final(store)@.len() == old(store)@.len(),
        done == pass(
            old(store)@,
            table@,
            table@.len(),
            search_path_step(table@, folder_lookup@),
        ).is_some(),
        done ==> Some(final(store)@) == pass(
            old(store)@,
            table@,
            table@.len(),
            search_path_step(table@, folder_lookup@),
        ),
{
    let ghost step = search_path_step(table@, folder_lookup@);
    let ghost start = old(store)@;
    let mut i: usize = 0;
    while i < table.len()
        invariant
            i <= table@.len(),
            store@.len() == old(store)@.len(),
            step == search_path_step(table@, folder_lookup@),
            start == old(store)@,
            pass(start, table@, i as nat, step) == Some(store@),
        decreases table@.len() - i,
    {
        let cell = table[i];
        let ghost before = store@;
        let mut done = false;
        if store.contains(&cell) {
            let record = cell.get_mut(store);
            if record.next.can_resolve(table.len()) {
                if record.folder.is_resolved() {
                    record.next.resolve(table);
                    done = true;
                } else {
                    match folder_lookup.get(&record.full_path.0) {
                        None => {},
                        Some(folder) => {
                            record.folder = crate::engines::search::types::SearchPathFolderReference::Folder(
                                *folder,
                            );
                            record.next.resolve(table);
                            done = true;
                        },
                    }
                }
            }
        }
        if !done {
            proof {
                lemma_pass_fails(start, table@, (i + 1) as nat, table@.len(), step);
            }
            return false;
        }
        assert(store@ =~= before.update(
            cell.slot as int,
            before[cell.slot as int].resolved(table@, folder_lookup@),
        ));
        i = i + 1;
    }
    true
}

/// Resolves every folder of `table`. Returns whether all of them could be
/// resolved; the round stops at the first that cannot.
pub fn resolve_search_folders(
    store: &mut CellStore<SearchFolder>,
    table: &[TableCell],
    paths: &[TableCell],
    path_store: &CellStore<SearchPath>,
) -> (done: bool)
    ensures
        final(store)@.len() == old(store)@.len(),
        done == pass(
            views(old(store)@),
            table@,
            table@.len(),
            search_folder_step(paths@, path_store@),
        ).is_some(),
        done ==> Some(views(final(store)@)) == pass(
            views(old(store)@),
            table@,
            table@.len(),
            search_folder_step(paths@, path_store@),
        ),
{
    let ghost step = search_folder_step(paths@, path_store@);
    let ghost start = views(old(store)@);
    let mut i: usize = 0;
    while i < table.len()
        invariant
            i <= table@.len(),
            store@.len() == old(store)@.len(),
            step == search_folder_step(paths@, path_store@),
            start == views(old(store)@),
            pass(start, table@, i as nat, step) == Some(views(store@)),
        decreases table@.len() - i,
    {
        let cell = table[i];
        let ghost before = views(store@);
        let mut done = false;
        if store.contains(&cell) {
            let record = cell.get_mut(store);
            done = record.children.resolve(paths, path_store);
        }
        if !done {
            proof {
                lemma_pass_fails(start, table@, (i + 1) as nat, table@.len(), step);
            }
            return false;
        }
        assert(views(store@) =~= before.update(
            cell.slot as int,
            step(before[cell.slot as int], i as int).unwrap(),
        ));
        i = i + 1;
    }
    true
}

impl SearchModel {
    /// The records after resolving every reference: each path finds its
    /// folder and its next path, then each folder collects its children.
    pub open spec fn resolution(self) -> Option<SearchCellsView> {
        let t = self.tables;
        let c = self.cells;
        match pass(c.paths, t.paths, t.paths.len(), search_path_step(t.paths, self.folder_lookup)) {
            None => None,
            Some(paths) => match pass(
                c.folders,
                t.folders,
                t.folders.len(),
                search_folder_step(t.paths, paths),
            ) {
                None => None,
                Some(folders) => Some(SearchCellsView { folders, paths }),
            },
        }
    }
}

impl SearchEngine {
    /// Builds the engine that holds the records `cells` as they were read.
    /// The cells keep the identifiers that they have.
    pub fn from_cells(cells: SearchCells) -> (engine: Self)
        ensures
            engine@ == fresh_search_model(cells@),
            engine.cells == cells,
    {
        let mut folder_lookup: BTreeMap<u64, TableCell> = BTreeMap::new();
        let mut i: usize = 0;
        while i < cells.folders.len()
            invariant
                i <= cells.folders@.len(),
                folder_lookup@ == folder_lookup_of(views(cells.folders@), i as nat),
            decreases cells.folders@.len() - i,
        {
            let cell = TableCell::from_slot(i as u64);
            folder_lookup.insert(cell.get(&cells.folders).full_path.0, cell);
            i = i + 1;
        }
        let blank = hash_of("");
        let mut path_lookup: BTreeMap<u64, TableCell> = BTreeMap::new();
        let mut i: usize = 0;
        while i < cells.paths.len()
            invariant
                i <= cells.paths@.len(),
                blank.0 == hash40_of(""@),
                path_lookup@ == path_lookup_of(cells.paths@, i as nat),
            decreases cells.paths@.len() - i,
        {
            let cell = TableCell::from_slot(i as u64);
            let hash = cell.get(&cells.paths).full_path;
            if hash.0 != blank.0 {
                path_lookup.insert(hash.0, cell);
            }
            i = i + 1;
        }
        SearchEngine {
            folder_lookup,
            path_lookup,
            folders: identity_table(cells.folders.len()),
            paths: identity_table(cells.paths.len()),
            cells,
        }
    }

    /// Reads the engine from the tables of a directory. The lookups are
    /// built from the folders and the paths. Every cell gets the next
    /// identifier of the counter, the folders before the paths. Fails with a
    /// format error where a table does not parse, and with an invariant
    /// error where the counter has not as many identifiers left as there
    /// are cells; the counter is then as it was.
    pub fn from_directory(directory: &SearchDirectory, ids: &mut CellIds) -> (result: Result<
        Self,
        ArchiveError,
    >)
        ensures
            match result {
                Ok(engine) => search_directory_cells(directory@) matches Some(cells) && engine@
                    == fresh_search_model(cells) && engine.cells.numbered_from(
                    old(ids).next as int,
                ) && final(ids).next == old(ids).next + cells.cell_count(),
                Err(error) => final(ids).next == old(ids).next && if error == ArchiveError::Format {
                    search_directory_cells(directory@) is None
                } else {
                    search_directory_cells(directory@) matches Some(cells) && error
                        == ArchiveError::Invariant && !old(ids).room(cells.cell_count())
                },
            },
    {
        let folders = read_table::<SearchFolder>(directory.folders.as_slice())?;
        let paths = read_table::<SearchPath>(directory.paths.as_slice())?;
        proof {
            assert(views(paths@) =~= paths@);
        }
        let mut cells = SearchCells {
            folders: CellStore::unnamed(folders),
            paths: CellStore::unnamed(paths),
        };
        if !cells.name_all(ids) {
            return Err(ArchiveError::Invariant);
        }
        Ok(Self::from_cells(cells))
    }

    /// Resolves every reference of every table: paths first, then folders.
    /// Fails with a format error at the first reference that cannot be
    /// resolved.
    pub fn resolve(&mut self) -> (result: Result<(), ArchiveError>)
        ensures
            result is Ok <==> old(self)@.resolution() is Some,
            result is Ok ==> final(self)@ == (SearchModel {
                cells: old(self)@.resolution().unwrap(),
                ..old(self)@
            }),
            result matches Err(error) ==> error == ArchiveError::Format,
            final(self)@.tables == old(self)@.tables,
            final(self)@.path_lookup == old(self)@.path_lookup,
            final(self)@.folder_lookup == old(self)@.folder_lookup,
    {
        if !resolve_search_paths(&mut self.cells.paths, self.paths.as_slice(), &self.folder_lookup) {
            return Err(ArchiveError::Format);
        }
        if !resolve_search_folders(
            &mut self.cells.folders,
            self.folders.as_slice(),
            self.paths.as_slice(),
            &self.cells.paths,
        ) {
            return Err(ArchiveError::Format);
        }
        Ok(())
    }

    /// The cell of the folder with the given hash.
    pub open spec fn folder_cell(&self, hash: Hash40) -> Option<TableCell> {
        if self@.folder_lookup.contains_key(hash.0) {
            Some(self@.folder_lookup[hash.0])
        } else {
            None
        }
    }

    /// The cell of the path with the given hash.
    pub open spec fn path_cell(&self, hash: Hash40) -> Option<TableCell> {
        if self@.path_lookup.contains_key(hash.0) {
            Some(self@.path_lookup[hash.0])
        } else {
            None
        }
    }

    /// The folder with the given hash, if the lookup knows the hash and its
    /// cell has a record.
    pub fn get_folder(&self, hash: Hash40) -> (folder: Option<&SearchFolder>)
        ensures
            match folder {
                Some(folder) => self.folder_cell(hash) matches Some(cell) && self.cells.folders.has(
                    cell,
                ) && *folder == self.cells.folders.at(cell),
                None => self.folder_cell(hash) matches Some(cell) ==> !self.cells.folders.has(cell),
            },
    {
        match self.folder_lookup.get(&hash.0) {
            None => None,
            Some(cell) => self.cells.folders.lookup(cell),
        }
    }

    /// The path with the given hash, if the lookup knows the hash and its
    /// cell has a record.
    pub fn get_path(&self, hash: Hash40) -> (path: Option<&SearchPath>)
        ensures
            match path {
                Some(path) => self.path_cell(hash) matches Some(cell) && self.cells.paths.has(cell)
                    && *path == self.cells.paths.at(cell),
                None => self.path_cell(hash) matches Some(cell) ==> !self.cells.paths.has(cell),
            },
    {
        match self.path_lookup.get(&hash.0) {
            None => None,
            Some(cell) => self.cells.paths.lookup(cell),
        }
    }
}

impl SearchEngine {
    /// The folder with the given hash, to be changed in place. What the
    /// caller leaves behind the reference is the record of the folder from
    /// then on; nothing else of the engine changes.
    pub fn get_folder_mut(&mut self, hash: Hash40) -> (folder: Option<&mut SearchFolder>)
        ensures
            match folder {
                Some(folder) => old(self).folder_cell(hash) matches Some(cell) && old(
                    self
                ).cells.folders.has(cell) && *folder == old(self).cells.folders.at(cell)
                    && final(self).cells.folders@ == old(self).cells.folders@.update(
                    cell.slot as int,
                    *final(folder),
                ),
                None => (old(self).folder_cell(hash) matches Some(cell) ==> !old(
                    self
                ).cells.folders.has(cell)) && final(self).cells.folders@ == old(
                    self
                ).cells.folders@,
            },
            final(self)@.tables == old(self)@.tables,
            final(self)@.path_lookup == old(self)@.path_lookup,
            final(self)@.folder_lookup == old(self)@.folder_lookup,
            final(self).cells.paths == old(self).cells.paths,
    {
        let cell = match find_hash(&self.folder_lookup, hash.0) {
            None => {
                return None;
            },
            Some(cell) => cell,
        };
        if self.cells.folders.contains(&cell) {
            Some(cell.get_mut(&mut self.cells.folders))
        } else {
            None
        }
    }

    /// The path with the given hash, to be changed in place. What the
    /// caller leaves behind the reference is the record of the path from
    /// then on; nothing else of the engine changes.
    pub fn get_path_mut(&mut self, hash: Hash40) -> (path: Option<&mut SearchPath>)
        ensures
            match path {
                Some(path) => old(self).path_cell(hash) matches Some(cell) && old(self).cells.paths.has(
                    cell,
                ) && *path == old(self).cells.paths.at(cell) && final(self).cells.paths@ == old(
                    self
                ).cells.paths@.update(cell.slot as int, *final(path)),
                None => (old(self).path_cell(hash) matches Some(cell) ==> !old(self).cells.paths.has(
                    cell,
                )) && final(self).cells.paths@ == old(self).cells.paths@,
            },
            final(self)@.tables == old(self)@.tables,
            final(self)@.path_lookup == old(self)@.path_lookup,
            final(self)@.folder_lookup == old(self)@.folder_lookup,
            final(self).cells.folders == old(self).cells.folders,
    {
        let cell = match find_hash(&self.path_lookup, hash.0) {
            None => {
                return None;
            },
            Some(cell) => cell,
        };
        if self.cells.paths.contains(&cell) {
            Some(cell.get_mut(&mut self.cells.paths))
        } else {
            None
        }
    }
}

/// The tables with nothing in them.
pub open spec fn empty_search_tables() -> SearchTables {
    SearchTables { folders: Seq::empty(), paths: Seq::empty() }
}

/// Pushing a path.
pub open spec fn with_search_path(t: SearchTables, cell: TableCell) -> Option<SearchTables> {
    match pushed(t.paths, cell) {
        None => None,
        Some(paths) => Some(SearchTables { paths, ..t }),
    }
}

/// The step of a walk over the children of a folder.
pub open spec fn search_path_walk() -> spec_fn(SearchTables, TableCell) -> Option<SearchTables> {
    |t: SearchTables, cell: TableCell| with_search_path(t, cell)
}

/// Pushing a folder: the folder, then each of its children.
pub open spec fn with_search_folder(t: SearchTables, c: SearchCellsView, cell: TableCell) -> Option<
    SearchTables,
> {
    match pushed(t.folders, cell) {
        None => None,
        Some(folders) => {
            let t = SearchTables { folders, ..t };
            if cell.slot >= c.folders.len() {
                None
            } else {
                match c.folders[cell.slot as int].children {
                    ReferenceSetView::Unresolved(_) => None,
                    ReferenceSetView::Resolved(children) => walk(
                        t,
                        children,
                        children.len(),
                        search_path_walk(),
                    ),
                }
            }
        },
    }
}

/// The step of a walk over folders.
pub open spec fn search_folder_walk(c: SearchCellsView) -> spec_fn(
    SearchTables,
    TableCell,
) -> Option<SearchTables> {
    |t: SearchTables, cell: TableCell| with_search_folder(t, c, cell)
}

/// The walk over the folders `folders` of an engine with the records `c`:
/// each folder in order, with its children.
pub open spec fn search_reorganized(folders: Seq<TableCell>, c: SearchCellsView) -> Option<
    SearchTables,
> {
    walk(empty_search_tables(), folders, folders.len(), search_folder_walk(c))
}

/// One collector for each table of the search filesystem.
pub struct SearchMakers {
    pub folders: TableMaker,
    pub paths: TableMaker,
}

impl View for SearchMakers {
    type V = SearchTables;

    open spec fn view(&self) -> SearchTables {
        SearchTables { folders: self.folders@, paths: self.paths@ }
    }
}

impl SearchMakers {
    /// Every collector is well-formed.
    pub open spec fn wf(&self) -> bool {
        self.folders.wf() && self.paths.wf()
    }

    #[verifier::loop_isolation(false)]
    fn push_folder(&mut self, cells: &SearchCells, folder: TableCell) -> (done: bool)
        requires
            old(self).wf(),
        ensures
            final(self).wf(),
            done == with_search_folder(old(self)@, cells@, folder).is_some(),
            done ==> Some(final(self)@) == with_search_folder(old(self)@, cells@, folder),
    {
        if !self.folders.push_new(folder) {
            return false;
        }
        let record = match cells.folders.lookup(&folder) {
            None => {
                return false;
            },
            Some(record) => record,
        };
        if !record.children.0.is_resolved() {
            return false;
        }
        let children = record.children.0.cells();
        let ghost start = self@;
        let ghost step = search_path_walk();
        let mut i: usize = 0;
        while i < children.len()
            invariant
                i <= children@.len(),
                self.wf(),
                walk(start, children@, i as nat, step) == Some(self@),
            decreases children@.len() - i,
        {
            if !self.paths.push_new(children[i]) {
                proof {
                    lemma_walk_fails(start, children@, (i + 1) as nat, children@.len(), step);
                }
                return false;
            }
            i = i + 1;
        }
        true
    }
}

/// What a [`SearchWriter`] holds.
pub struct SearchWriterModel {
    pub folder_lookup: Map<u64, TableCell>,
    pub path_lookup: Map<u64, TableCell>,
    pub tables: SearchTables,
    pub cells: SearchCellsView,
}

/// The rebuilt tables of a search filesystem, ready to be serialized.
pub struct SearchWriter {
    pub folder_lookup: BTreeMap<u64, TableCell>,
    pub path_lookup: BTreeMap<u64, TableCell>,
    pub tables: SearchMakers,
    pub cells: SearchCells,
}

impl View for SearchWriter {
    type V = SearchWriterModel;

    open spec fn view(&self) -> SearchWriterModel {
        SearchWriterModel {
            folder_lookup: self.folder_lookup@,
            path_lookup: self.path_lookup@,
            tables: self.tables@,
            cells: self.cells@,
        }
    }
}

/// How one folder is written.
pub open spec fn search_folder_encoder(t: SearchTables) -> spec_fn(SearchFolderView, int) -> Option<
    Seq<u8>,
> {
    |record: SearchFolderView, index: int| record.encoded(t.paths)
}

/// How one path is written.
pub open spec fn search_path_encoder(t: SearchTables) -> spec_fn(SearchPath, int) -> Option<
    Seq<u8>,
> {
    |record: SearchPath, index: int| record.encoded(t.paths)
}

/// The links of the paths: for each of the first `upto` paths its own
/// index, cut to 32 bits.
pub open spec fn path_link_bytes(upto: nat) -> Seq<u8>
    decreases upto,
{
    if upto == 0 {
        Seq::empty()
    } else {
        path_link_bytes((upto - 1) as nat) + le32((upto - 1) as u32)
    }
}

impl SearchWriterModel {
    /// The keys of the lookup of the folders, in the order of their hashes.
    pub open spec fn folder_key_bytes(self) -> Option<Seq<u8>> {
        let entries = ordered(self.folder_lookup);
        key_bytes(entries, self.tables.folders, entries.len())
    }

    /// The bytes of the folders.
    pub open spec fn folder_bytes(self) -> Option<Seq<u8>> {
        table_bytes(
            self.cells.folders,
            self.tables.folders,
            self.tables.folders.len(),
            search_folder_encoder(self.tables),
        )
    }

    /// The keys of the lookup of the paths, in the order of their hashes.
    pub open spec fn path_key_bytes(self) -> Option<Seq<u8>> {
        let entries = ordered(self.path_lookup);
        key_bytes(entries, self.tables.paths, entries.len())
    }

    /// The bytes of the paths.
    pub open spec fn path_bytes(self) -> Option<Seq<u8>> {
        table_bytes(
            self.cells.paths,
            self.tables.paths,
            self.tables.paths.len(),
            search_path_encoder(self.tables),
        )
    }

    /// The search filesystem as it lies in the archive: the keys of the
    /// folders, the folders, the keys of the paths, the links of the paths
    /// and the paths.
    pub open spec fn memory_bytes(self) -> Option<Seq<u8>> {
        join(
            join(
                join(join(self.folder_key_bytes(), self.folder_bytes()), self.path_key_bytes()),
                Some(path_link_bytes(self.tables.paths.len())),
            ),
            self.path_bytes(),
        )
    }

    /// The files of the search filesystem in a directory of tables.
    pub open spec fn directory(self) -> Option<SearchDirectoryView> {
        match (
            self.folder_bytes(),
            self.path_bytes(),
            self.folder_key_bytes(),
            self.path_key_bytes(),
        ) {
            (Some(folders), Some(paths), Some(folder_keys), Some(path_keys)) => Some(
                SearchDirectoryView {
                    folders,
                    paths,
                    path_links: path_link_bytes(self.tables.paths.len()),
                    folder_keys,
                    path_keys,
                },
            ),
            _ => None,
        }
    }
}

/// Appends the bytes of every folder of `table`. Returns false at the first
/// that has no bytes.
pub fn write_search_folders(
    out: &mut Vec<u8>,
    store: &CellStore<SearchFolder>,
    table: &[TableCell],
    makers: &SearchMakers,
) -> (done: bool)
    requires
        makers.wf(),
    ensures
        done == table_bytes(
            views(store@),
            table@,
            table@.len(),
            search_folder_encoder(makers@),
        ).is_some(),
        done ==> final(out)@ == old(out)@ + table_bytes(
            views(store@),
            table@,
            table@.len(),
            search_folder_encoder(makers@),
        ).unwrap(),
{
    let ghost encode = search_folder_encoder(makers@);
    let ghost records = views(store@);
    let mut i: usize = 0;
    while i < table.len()
        invariant
            i <= table@.len(),
            makers.wf(),
            encode == search_folder_encoder(makers@),
            records == views(store@),
            table_bytes(records, table@, i as nat, encode) is Some,
            out@ == old(out)@ + table_bytes(records, table@, i as nat, encode).unwrap(),
        decreases table@.len() - i,
    {
        let mut done = false;
        match store.lookup(&table[i]) {
            None => {},
            Some(record) => {
                done = record.write(out, &makers.paths);
            },
        }
        if !done {
            proof {
                lemma_table_bytes_fails(records, table@, (i + 1) as nat, table@.len(), encode);
            }
            return false;
        }
        proof {
            let bytes = table_bytes(records, table@, (i + 1) as nat, encode).unwrap();
            assert(out@ =~= old(out)@ + bytes);
        }
        i = i + 1;
    }
    true
}

/// Appends the bytes of every path of `table`. Returns false at the first
/// that has no bytes.
pub fn write_search_paths(
    out: &mut Vec<u8>,
    store: &CellStore<SearchPath>,
    table: &[TableCell],
    makers: &SearchMakers,
) -> (done: bool)
    requires
        makers.wf(),
    ensures
        done == table_bytes(store@, table@, table@.len(), search_path_encoder(makers@)).is_some(),
        done ==> final(out)@ == old(out)@ + table_bytes(
            store@,
            table@,
            table@.len(),
            search_path_encoder(makers@),
        ).unwrap(),
{
    let ghost encode = search_path_encoder(makers@);
    let ghost records = store@;
    let mut i: usize = 0;
    while i < table.len()
        invariant
            i <= table@.len(),
            makers.wf(),
            encode == search_path_encoder(makers@),
            records == store@,
            table_bytes(records, table@, i as nat, encode) is Some,
            out@ == old(out)@ + table_bytes(records, table@, i as nat, encode).unwrap(),
        decreases table@.len() - i,
    {
        let mut done = false;
        match store.lookup(&table[i]) {
            None => {},
            Some(record) => {
                done = record.write(out, &makers.paths);
            },
        }
        if !done {
            proof {
                lemma_table_bytes_fails(records, table@, (i + 1) as nat, table@.len(), encode);
            }
            return false;
        }
        proof {
            let bytes = table_bytes(records, table@, (i + 1) as nat, encode).unwrap();
            assert(out@ =~= old(out)@ + bytes);
        }
        i = i + 1;
    }
    true
}

/// Appends the links of `count` paths.
pub fn write_path_links(out: &mut Vec<u8>, count: usize)
    ensures
        final(out)@ == old(out)@ + path_link_bytes(count as nat),
{
    let mut i: usize = 0;
    while i < count
        invariant
            i <= count,
            out@ == old(out)@ + path_link_bytes(i as nat),
        decreases count - i,
    {
        push_u32(out, #[verifier::truncate] (i as u32));
        assert(out@ =~= old(out)@ + path_link_bytes((i + 1) as nat));
        i = i + 1;
    }
}

impl SearchWriter {
    /// The collectors are well-formed.
    pub open spec fn wf(&self) -> bool {
        self.tables.wf()
    }

    /// Walks over the engine and rebuilds its tables in their canonical
    /// order. Fails where a cell would enter a table twice, a handle has no
    /// record, or the children of a folder are not resolved.
    #[verifier::loop_isolation(false)]
    pub fn from_engine(engine: SearchEngine) -> (result: Result<Self, ArchiveError>)
        ensures
            match result {
                Ok(writer) => writer.wf() && search_reorganized(
                    engine@.tables.folders,
                    engine@.cells,
                ) == Some(writer@.tables) && writer@.cells == engine@.cells && writer@.path_lookup
                    == engine@.path_lookup && writer@.folder_lookup == engine@.folder_lookup,
                Err(error) => error == ArchiveError::Invariant && search_reorganized(
                    engine@.tables.folders,
                    engine@.cells,
                ) is None,
            },
    {
        let SearchEngine { folder_lookup, path_lookup, folders, cells, paths: _ } = engine;
        let mut makers = SearchMakers { folders: TableMaker::new(), paths: TableMaker::new() };
        let ghost step = search_folder_walk(cells@);
        let mut i: usize = 0;
        while i < folders.len()
            invariant
                i <= folders@.len(),
                makers.wf(),
                walk(empty_search_tables(), folders@, i as nat, step) == Some(makers@),
            decreases folders@.len() - i,
        {
            if !makers.push_folder(&cells, folders[i]) {
                proof {
                    lemma_walk_fails(
                        empty_search_tables(),
                        folders@,
                        (i + 1) as nat,
                        folders@.len(),
                        step,
                    );
                }
                return Err(ArchiveError::Invariant);
            }
            i = i + 1;
        }
        Ok(SearchWriter { folder_lookup, path_lookup, tables: makers, cells })
    }

    /// Appends the keys of the lookup of the folders.
    pub fn write_folder_keys(&self, out: &mut Vec<u8>) -> (done: bool)
        requires
            self.wf(),
        ensures
            done == self@.folder_key_bytes().is_some(),
            done ==> final(out)@ == old(out)@ + self@.folder_key_bytes().unwrap(),
    {
        let entries = ordered_entries(&self.folder_lookup);
        write_keys(out, entries.as_slice(), &self.tables.folders)
    }

    /// Appends the keys of the lookup of the paths.
    pub fn write_path_keys(&self, out: &mut Vec<u8>) -> (done: bool)
        requires
            self.wf(),
        ensures
            done == self@.path_key_bytes().is_some(),
            done ==> final(out)@ == old(out)@ + self@.path_key_bytes().unwrap(),
    {
        let entries = ordered_entries(&self.path_lookup);
        write_keys(out, entries.as_slice(), &self.tables.paths)
    }

    /// Appends the search filesystem as it lies in the archive. Writes
    /// nothing and fails where a record has no bytes.
    pub fn to_memory(&self, out: &mut Vec<u8>) -> (result: Result<(), ArchiveError>)
        requires
            self.wf(),
        ensures
            match result {
                Ok(_) => self@.memory_bytes().is_some() && final(out)@ == old(out)@
                    + self@.memory_bytes().unwrap(),
                Err(error) => error == ArchiveError::Invariant && self@.memory_bytes().is_none()
                    && final(out)@ == old(out)@,
            },
    {
        let t = &self.tables;
        let c = &self.cells;
        let mut part: Vec<u8> = Vec::new();
        if !self.write_folder_keys(&mut part) {
            return Err(ArchiveError::Invariant);
        }
        assert(part@ =~= self@.folder_key_bytes().unwrap());
        if !write_search_folders(&mut part, &c.folders, t.folders.iter(), t) {
            return Err(ArchiveError::Invariant);
        }
        if !self.write_path_keys(&mut part) {
            return Err(ArchiveError::Invariant);
        }
        write_path_links(&mut part, t.paths.len());
        if !write_search_paths(&mut part, &c.paths, t.paths.iter(), t) {
            return Err(ArchiveError::Invariant);
        }
        push_bytes(out, part.as_slice());
        Ok(())
    }

    /// Serializes the search filesystem as the files of a directory of
    /// tables. Fails where a record has no bytes.
    pub fn to_directory(&self) -> (result: Result<SearchDirectory, ArchiveError>)
        requires
            self.wf(),
        ensures
            match result {
                Ok(directory) => self@.directory() == Some(directory@),
                Err(error) => error == ArchiveError::Invariant && self@.directory().is_none(),
            },
    {
        let t = &self.tables;
        let c = &self.cells;
        let mut folders: Vec<u8> = Vec::new();
        if !write_search_folders(&mut folders, &c.folders, t.folders.iter(), t) {
            return Err(ArchiveError::Invariant);
        }
        let mut paths: Vec<u8> = Vec::new();
        if !write_search_paths(&mut paths, &c.paths, t.paths.iter(), t) {
            return Err(ArchiveError::Invariant);
        }
        let mut path_links: Vec<u8> = Vec::new();
        write_path_links(&mut path_links, t.paths.len());
        let mut folder_keys: Vec<u8> = Vec::new();
        if !self.write_folder_keys(&mut folder_keys) {
            return Err(ArchiveError::Invariant);
        }
        let mut path_keys: Vec<u8> = Vec::new();
        if !self.write_path_keys(&mut path_keys) {
            return Err(ArchiveError::Invariant);
        }
        proof {
            assert(folders@ =~= self@.folder_bytes().unwrap());
            assert(paths@ =~= self@.path_bytes().unwrap());
            assert(path_links@ =~= path_link_bytes(self@.tables.paths.len()));
            assert(folder_keys@ =~= self@.folder_key_bytes().unwrap());
            assert(path_keys@ =~= self@.path_key_bytes().unwrap());
        }
        Ok(SearchDirectory { folders, paths, path_links, folder_keys, path_keys })
    }
}

impl SearchEngine {
    /// Rebuilds the tables of the engine in their canonical order. The
    /// records and the lookups stay as they are; a cell that the walk does
    /// not reach leaves its table.
    pub fn reorganize(self) -> (result: Result<Self, ArchiveError>)
        ensures
            match result {
                Ok(engine) => search_reorganized(self@.tables.folders, self@.cells) matches Some(
                    tables,
                ) && engine@ == (SearchModel { tables, ..self@ }),
                Err(error) => error == ArchiveError::Invariant && search_reorganized(
                    self@.tables.folders,
                    self@.cells,
                ) is None,
            },
    {
        match SearchWriter::from_engine(self) {
            Err(error) => Err(error),
            Ok(writer) => {
                let SearchWriter { folder_lookup, path_lookup, tables, cells } = writer;
                Ok(
                    SearchEngine {
                        folder_lookup,
                        path_lookup,
                        folders: tables.folders.into_inner(),
                        paths: tables.paths.into_inner(),
                        cells,
                    },
                )
            },
        }
    }
}


/// The hash of a text, and the hash of the empty string where the text is
/// missing.
pub open spec fn hash_or_blank(text: Option<Seq<char>>) -> Hash40 {
    match text {
        Some(text) => Hash40(hash40_of(text)),
        None => Hash40(hash40_of(""@)),
    }
}

/// Computes [`hash_or_blank`].
pub fn hash_text_or_blank(text: &Option<String>) -> (hash: Hash40)
    ensures
        hash == hash_or_blank(
            match *text {
                Some(text) => Some(text@),
                None => None,
            },
        ),
{
    match text {
        Some(text) => hash_of(text.as_str()),
        None => hash_of(""),
    }
}

/// The folder of the first child, from `from` on, that has the name `name`
/// and stands for a folder.
pub open spec fn child_folder(
    paths: Seq<SearchPath>,
    children: Seq<TableCell>,
    name: Hash40,
    from: nat,
) -> Option<TableCell>
    decreases children.len() - from,
{
    if from >= children.len() {
        None
    } else {
        let cell = children[from as int];
        if cell.slot < paths.len() && paths[cell.slot as int].name == name
            && paths[cell.slot as int].folder is Folder {
            Some(paths[cell.slot as int].folder->Folder_0)
        } else {
            child_folder(paths, children, name, from + 1)
        }
    }
}

/// Computes [`child_folder`] over all children.
pub fn find_child_folder(store: &CellStore<SearchPath>, children: &[TableCell], name: Hash40) -> (found:
    Option<TableCell>)
    ensures
        found == child_folder(store@, children@, name, 0),
{
    let mut i: usize = 0;
    while i < children.len()
        invariant
            i <= children@.len(),
            child_folder(store@, children@, name, 0) == child_folder(
                store@,
                children@,
                name,
                i as nat,
            ),
        decreases children@.len() - i,
    {
        match store.lookup(&children[i]) {
            None => {},
            Some(path) => {
                if path.name.0 == name.0 {
                    match path.folder {
                        SearchPathFolderReference::Folder(folder) => {
                            return Some(folder);
                        },
                        _ => {},
                    }
                }
            },
        }
        i = i + 1;
    }
    None
}

impl SearchCellsView {
    /// The records after `child` became the last child of `folder`: the
    /// child that was last before names it as its next, the folder lists
    /// it, and the folder counts one more folder or one more file. There are
    /// no such records where a cell has no record, the children of the
    /// folder are not resolved, or the count is the largest there is.
    pub open spec fn with_child(self, folder: TableCell, child: TableCell) -> Option<
        SearchCellsView,
    > {
        if folder.slot >= self.folders.len() || child.slot >= self.paths.len() {
            None
        } else {
            let record = self.folders[folder.slot as int];
            match record.children {
                ReferenceSetView::Unresolved(_) => None,
                ReferenceSetView::Resolved(children) => if children.len() > 0
                    && children.last().slot >= self.paths.len() {
                    None
                } else {
                    let is_folder = self.paths[child.slot as int].folder is Folder;
                    if (is_folder && record.folder_count == usize::MAX) || (!is_folder
                        && record.file_count == usize::MAX) {
                        None
                    } else {
                        let paths = if children.len() > 0 {
                            self.paths.update(
                                children.last().slot as int,
                                SearchPath {
                                    next: SearchPathNextReference::Path(child),
                                    ..self.paths[children.last().slot as int]
                                },
                            )
                        } else {
                            self.paths
                        };
                        Some(
                            SearchCellsView {
                                folders: self.folders.update(
                                    folder.slot as int,
                                    SearchFolderView {
                                        children: ReferenceSetView::Resolved(children.push(child)),
                                        folder_count: if is_folder {
                                            (record.folder_count + 1) as usize
                                        } else {
                                            record.folder_count
                                        },
                                        file_count: if is_folder {
                                            record.file_count
                                        } else {
                                            (record.file_count + 1) as usize
                                        },
                                        ..record
                                    },
                                ),
                                paths,
                            },
                        )
                    }
                },
            }
        }
    }
}

impl SearchCells {
    /// Makes `child` the last child of `folder`. Returns whether that could
    /// be done; where it could not, nothing changes.
    pub fn push_child(&mut self, folder: TableCell, child: TableCell) -> (done: bool)
        ensures
            done == old(self)@.with_child(folder, child).is_some(),
            done ==> Some(final(self)@) == old(self)@.with_child(folder, child),
            !done ==> final(self)@ == old(self)@,
            final(self).folders.ids == old(self).folders.ids,
            final(self).paths.ids == old(self).paths.ids,
    {
        if !self.folders.contains(&folder) || !self.paths.contains(&child) {
            return false;
        }
        let is_folder = child.get(&self.paths).is_folder();
        let record = folder.get(&self.folders);
        if !record.children.0.is_resolved() {
            return false;
        }
        let count: usize = record.children.0.len();
        let last: Option<TableCell> = if count > 0 {
            Some(record.children.0.get(count - 1))
        } else {
            None
        };
        if let Some(last) = last {
            if !self.paths.contains(&last) {
                return false;
            }
        }
        if (is_folder && record.folder_count == usize::MAX) || (!is_folder && record.file_count
            == usize::MAX) {
            return false;
        }
        let ghost before = self@;
        if let Some(last) = last {
            last.get_mut(&mut self.paths).next = SearchPathNextReference::Path(child);
        }
        let record = folder.get_mut(&mut self.folders);
        record.children.0.push(child);
        if is_folder {
            record.folder_count = record.folder_count + 1;
        } else {
            record.file_count = record.file_count + 1;
        }
        proof {
            let after = before.with_child(folder, child).unwrap();
            assert(self@.paths =~= after.paths);
            assert(self@.folders =~= after.folders);
        }
        true
    }
}

impl SearchCellsView {
    /// Whether `folder` can take as its last child the path that enters the
    /// store of paths next: the folder has a record, its children are
    /// resolved, the child that is last now has a record, and the folder
    /// can count one more folder, with `as_folder`, or one more file.
    pub open spec fn takes_next(self, folder: TableCell, as_folder: bool) -> bool {
        &&& folder.slot < self.folders.len()
        &&& self.folders[folder.slot as int].children matches ReferenceSetView::Resolved(children)
            && (children.len() > 0 ==> children.last().slot <= self.paths.len())
        &&& if as_folder {
            self.folders[folder.slot as int].folder_count < usize::MAX
        } else {
            self.folders[folder.slot as int].file_count < usize::MAX
        }
    }
}

impl SearchCells {
    /// Computes [`SearchCellsView::takes_next`].
    pub fn can_take_next(&self, folder: TableCell, as_folder: bool) -> (b: bool)
        ensures
            b == self@.takes_next(folder, as_folder),
    {
        match self.folders.lookup(&folder) {
            None => false,
            Some(record) => {
                if !record.children.0.is_resolved() {
                    return false;
                }
                let count: usize = record.children.0.len();
                if count > 0 && record.children.0.get(count - 1).slot > self.paths.len() as u64 {
                    return false;
                }
                if as_folder {
                    record.folder_count < usize::MAX
                } else {
                    record.file_count < usize::MAX
                }
            },
        }
    }
}

/// The three hashes of a folder: of its path, of its parent and of its
/// name.
#[derive(Debug, Copy, Clone, PartialEq, Eq, Structural)]
pub struct FolderHashes {
    pub full_path: Hash40,
    pub parent: Hash40,
    pub name: Hash40,
}

/// The hashes of the folder with the path text `text` and the last
/// component `component`.
pub open spec fn folder_hashes(text: Seq<char>, component: Seq<char>) -> FolderHashes {
    FolderHashes {
        full_path: Hash40(hash40_of(text)),
        parent: hash_or_blank(camino_parent(text)),
        name: Hash40(hash40_of(component)),
    }
}

/// The folder that gets made for the hashes `hashes`: without children.
pub open spec fn folder_record(hashes: FolderHashes) -> SearchFolderView {
    SearchFolderView {
        full_path: hashes.full_path,
        parent: hashes.parent,
        name: hashes.name,
        file_count: 0,
        folder_count: 0,
        children: ReferenceSetView::Resolved(Seq::empty()),
    }
}

/// The path that stands for the folder in the cell `folder`, with the
/// hashes `hashes` and the hash of the empty text as its extension.
pub open spec fn folder_path_record(hashes: FolderHashes, folder: TableCell) -> SearchPath {
    SearchPath {
        full_path: hashes.full_path,
        parent: hashes.parent,
        name: hashes.name,
        extension: Hash40(hash40_of(""@)),
        folder: SearchPathFolderReference::Folder(folder),
        next: SearchPathNextReference::Absent,
    }
}

/// The folder that gets made for a path text and its last component.
pub open spec fn new_folder(text: Seq<char>, component: Seq<char>) -> SearchFolderView {
    folder_record(folder_hashes(text, component))
}

/// The path that stands for the folder in the cell `folder`.
pub open spec fn new_folder_path(text: Seq<char>, component: Seq<char>, folder: TableCell)
    -> SearchPath {
    folder_path_record(folder_hashes(text, component), folder)
}

/// The path of a file with the text `text`.
pub open spec fn new_file_path(text: Seq<char>) -> SearchPath {
    SearchPath {
        full_path: Hash40(hash40_of(text)),
        parent: hash_or_blank(camino_parent(text)),
        name: hash_or_blank(camino_file_name(text)),
        extension: hash_or_blank(camino_extension(text)),
        folder: SearchPathFolderReference::Absent,
        next: SearchPathNextReference::Absent,
    }
}

impl SearchModel {
    /// One step down from the folder `current` into the folder with the
    /// hashes `hashes`. Where `current` has a child of that name that stands
    /// for a folder, that folder is the next. Else a folder and the path
    /// that stands for it are made, both enter their tables and their
    /// lookups, and the path becomes the last child of `current`. There is
    /// no step where `current` has no record, its children are not
    /// resolved, or it cannot take a child more.
    pub open spec fn step_into(self, current: TableCell, hashes: FolderHashes) -> Option<
        (SearchModel, TableCell),
    > {
        let c = self.cells;
        if current.slot >= c.folders.len() {
            None
        } else {
            match c.folders[current.slot as int].children {
                ReferenceSetView::Unresolved(_) => None,
                ReferenceSetView::Resolved(children) => match child_folder(
                    c.paths,
                    children,
                    hashes.name,
                    0,
                ) {
                    Some(folder) => Some((self, folder)),
                    None => {
                        let folder = TableCell { slot: c.folders.len() as u64 };
                        let path = TableCell { slot: c.paths.len() as u64 };
                        let grown = SearchCellsView {
                            folders: c.folders.push(folder_record(hashes)),
                            paths: c.paths.push(folder_path_record(hashes, folder)),
                        };
                        match grown.with_child(current, path) {
                            None => None,
                            Some(cells) => Some(
                                (
                                    SearchModel {
                                        cells,
                                        path_lookup: self.path_lookup.insert(
                                            hashes.full_path.0,
                                            path,
                                        ),
                                        folder_lookup: self.folder_lookup.insert(
                                            hashes.full_path.0,
                                            folder,
                                        ),
                                        tables: SearchTables {
                                            folders: self.tables.folders.push(folder),
                                            paths: self.tables.paths.push(path),
                                        },
                                    },
                                    folder,
                                ),
                            ),
                        }
                    },
                },
            }
        }
    }

    /// Whether a step into the folder with the name `name` makes a folder:
    /// `current` has no child of that name that stands for a folder.
    pub open spec fn step_makes(self, current: TableCell, name: Hash40) -> bool {
        current.slot < self.cells.folders.len() && (
        self.cells.folders[current.slot as int].children matches ReferenceSetView::Resolved(
            children,
        ) && child_folder(self.cells.paths, children, name, 0) is None)
    }

    /// One step down from the folder `current` into the folder named
    /// `component`, whose path text is `text`.
    pub open spec fn descend(self, current: TableCell, text: Seq<char>, component: Seq<char>)
        -> Option<(SearchModel, TableCell)> {
        self.step_into(current, folder_hashes(text, component))
    }

    /// The engine after the path `record` of a file entered the table of
    /// paths and its lookup and became the last child of `folder`, and the
    /// cell of the path. There is none where `folder` cannot take a child
    /// more.
    pub open spec fn with_leaf(self, folder: TableCell, record: SearchPath) -> Option<
        (SearchModel, TableCell),
    > {
        let path = TableCell { slot: self.cells.paths.len() as u64 };
        let grown = SearchCellsView { paths: self.cells.paths.push(record), ..self.cells };
        match grown.with_child(folder, path) {
            None => None,
            Some(cells) => Some(
                (
                    SearchModel {
                        cells,
                        path_lookup: self.path_lookup.insert(record.full_path.0, path),
                        tables: SearchTables {
                            paths: self.tables.paths.push(path),
                            ..self.tables
                        },
                        ..self
                    },
                    path,
                ),
            ),
        }
    }

    /// The engine that the way down from `root` reaches: after as many of
    /// the first `upto` steps as can be taken.
    pub open spec fn reached(self, root: TableCell, components: Seq<Seq<char>>, upto: nat)
        -> SearchModel
        decreases upto,
    {
        if upto == 0 {
            self
        } else {
            match self.descended(root, components, upto) {
                Some((model, _, _)) => model,
                None => self.reached(root, components, (upto - 1) as nat),
            }
        }
    }

    /// The way down from `root` through the first `upto` components: the
    /// engine after it, the folder it ends in, and the path text of that
    /// folder.
    pub open spec fn descended(self, root: TableCell, components: Seq<Seq<char>>, upto: nat)
        -> Option<(SearchModel, TableCell, Seq<char>)>
        decreases upto,
    {
        if upto == 0 {
            Some((self, root, ""@))
        } else {
            match self.descended(root, components, (upto - 1) as nat) {
                None => None,
                Some((model, current, text)) => {
                    let next = camino_joined(text, components[upto - 1]);
                    match model.descend(current, next, components[upto - 1]) {
                        None => None,
                        Some((model, folder)) => Some((model, folder, next)),
                    }
                },
            }
        }
    }

    /// The engine that a failed attempt to add the file with the path text
    /// `file` leaves: the engine itself where there is no root folder or
    /// the path has no component, else the engine that the way down
    /// through every component but the last reaches.
    pub open spec fn left_by(self, file: Seq<char>) -> SearchModel {
        let components = camino_components(file);
        if !self.folder_lookup.contains_key(hash40_of("/"@)) || components.len() == 0 {
            self
        } else {
            self.reached(
                self.folder_lookup[hash40_of("/"@)],
                components,
                (components.len() - 1) as nat,
            )
        }
    }

    /// The engine after the file with the path text `file` was added, and
    /// the cell of its path. The way goes down from the root folder through
    /// every component but the last, and the file enters the table of paths
    /// and becomes the last child of the folder where the way ends. There is
    /// no such engine where there is
    /// no root folder, the path has no component, or the path has the hash of
    /// a folder.
    pub open spec fn with_file(self, file: Seq<char>) -> Option<(SearchModel, TableCell)> {
        let components = camino_components(file);
        if !self.folder_lookup.contains_key(hash40_of("/"@)) || components.len() == 0 {
            None
        } else {
            match self.descended(
                self.folder_lookup[hash40_of("/"@)],
                components,
                (components.len() - 1) as nat,
            ) {
                None => None,
                Some((model, folder, _)) => if model.folder_lookup.contains_key(hash40_of(file)) {
                    None
                } else {
                    model.with_leaf(folder, new_file_path(file))
                },
            }
        }
    }
}

/// A way down that fails for some components fails for more.
pub proof fn lemma_descended_fails(
    model: SearchModel,
    root: TableCell,
    components: Seq<Seq<char>>,
    short: nat,
    long: nat,
)
    requires
        short <= long,
        model.descended(root, components, short) is None,
    ensures
        model.descended(root, components, long) is None,
    decreases long,
{
    if short < long {
        lemma_descended_fails(model, root, components, short, (long - 1) as nat);
    }
}

/// What a step that makes a folder leaves. Both lookups know the hash of
/// the folder: the one of the folders gives the new folder, the one of the
/// paths the path that stands for it. The folder has the hashes it was made
/// with and no child; the path has the same hashes, is bound to the folder
/// and has no next. The path is the last child of the folder that the step
/// started from, which counts one folder more and lists its other children
/// as before; and both new cells are the last of their tables. The child
/// that was last before has a record.
pub proof fn lemma_step_makes_a_folder(model: SearchModel, current: TableCell, hashes: FolderHashes)
    requires
        model.cells.folders.len() < usize::MAX,
        model.cells.paths.len() < usize::MAX,
        model.step_makes(current, hashes.name),
        model.step_into(current, hashes) is Some,
        model.cells.folders[current.slot as int].children.cells().len() > 0
            ==> model.cells.folders[current.slot as int].children.cells().last().slot
            < model.cells.paths.len(),
    ensures
        ({
            let after = model.step_into(current, hashes).unwrap().0;
            let folder = model.step_into(current, hashes).unwrap().1;
            let path = TableCell { slot: model.cells.paths.len() as u64 };
            let before = model.cells.folders[current.slot as int];
            let parent = after.cells.folders[current.slot as int];
            &&& folder == TableCell { slot: model.cells.folders.len() as u64 }
            &&& after.folder_lookup.contains_key(hashes.full_path.0)
                && after.folder_lookup[hashes.full_path.0] == folder
            &&& after.path_lookup.contains_key(hashes.full_path.0)
                && after.path_lookup[hashes.full_path.0] == path
            &&& after.cells.folders.len() == model.cells.folders.len() + 1
            &&& after.cells.paths.len() == model.cells.paths.len() + 1
            &&& after.cells.folders[folder.slot as int] == folder_record(hashes)
            &&& after.cells.paths[path.slot as int] == folder_path_record(hashes, folder)
            &&& parent.children == ReferenceSetView::<usize>::Resolved(
                before.children.cells().push(path),
            )
            &&& parent.folder_count == before.folder_count + 1
            &&& parent.file_count == before.file_count
            &&& after.tables.folders == model.tables.folders.push(folder)
            &&& after.tables.paths == model.tables.paths.push(path)
            &&& before.children.cells().len() > 0 ==> after.cells.paths[before.children.cells().last().slot as int].next
                == SearchPathNextReference::Path(path)
        }),
{
}

/// What adding the path of a file to a folder leaves. The lookup of the
/// paths knows the hash of the path. The path is as it was given and is the
/// last of its table and the last child of the folder, which counts one
/// file more where the path stands for no folder, and lists its other
/// children as before; the child that was last before has a record and
/// names the path as its next.
pub proof fn lemma_leaf_added(model: SearchModel, folder: TableCell, record: SearchPath)
    requires
        model.cells.paths.len() < usize::MAX,
        record.folder is Absent,
        model.with_leaf(folder, record) is Some,
        model.cells.folders[folder.slot as int].children.cells().len() > 0
            ==> model.cells.folders[folder.slot as int].children.cells().last().slot
            < model.cells.paths.len(),
    ensures
        ({
            let after = model.with_leaf(folder, record).unwrap().0;
            let path = model.with_leaf(folder, record).unwrap().1;
            let before = model.cells.folders[folder.slot as int];
            let parent = after.cells.folders[folder.slot as int];
            &&& path == TableCell { slot: model.cells.paths.len() as u64 }
            &&& after.path_lookup.contains_key(record.full_path.0)
                && after.path_lookup[record.full_path.0] == path
            &&& after.folder_lookup == model.folder_lookup
            &&& after.cells.folders.len() == model.cells.folders.len()
            &&& after.cells.paths.len() == model.cells.paths.len() + 1
            &&& after.cells.paths[path.slot as int] == record
            &&& parent.children == ReferenceSetView::<usize>::Resolved(
                before.children.cells().push(path),
            )
            &&& parent.file_count == before.file_count + 1
            &&& parent.folder_count == before.folder_count
            &&& after.tables.paths == model.tables.paths.push(path)
            &&& after.tables.folders == model.tables.folders
            &&& before.children.cells().len() > 0 ==> after.cells.paths[before.children.cells().last().slot as int].next
                == SearchPathNextReference::Path(path)
        }),
{
}

/// Where the way down can take `short` steps and no step more, the engine
/// that it reaches is the engine after those steps.
pub proof fn lemma_reached_stops(
    model: SearchModel,
    root: TableCell,
    components: Seq<Seq<char>>,
    short: nat,
    long: nat,
)
    requires
        short <= long,
        model.descended(root, components, short) is Some,
        short < long ==> model.descended(root, components, short + 1) is None,
    ensures
        model.reached(root, components, long) == model.descended(root, components, short).unwrap().0,
    decreases long,
{
    if short < long {
        lemma_descended_fails(model, root, components, short + 1, long);
        lemma_reached_stops(model, root, components, short, (long - 1) as nat);
    } else if long == 0 {
    }
}

impl SearchEngine {
    /// Takes one step down from the folder `current` into the folder with
    /// the hashes `hashes`. Returns the folder that the step ends in. Where
    /// the step makes a folder, the folder gets the next identifier of the
    /// counter and the path that stands for it the one after. Where there
    /// is no step, nothing changes.
    pub fn step_into(&mut self, current: TableCell, hashes: FolderHashes, ids: &mut CellIds) -> (next:
        Option<TableCell>)
        requires
            old(ids).room(2),
        ensures
            match next {
                Some(folder) => old(self)@.step_into(current, hashes) == Some(
                    (final(self)@, folder),
                ) && if old(self)@.step_makes(current, hashes.name) {
                    final(ids).next == old(ids).next + 2 && final(self).cells.folders.names(folder)
                        && final(self).cells.folders.guid_of(folder) == old(ids).next
                        && final(self)@.cells.cell_count() == old(self)@.cells.cell_count() + 2
                } else {
                    final(ids).next == old(ids).next && final(self)@ == old(self)@
                },
                None => old(self)@.step_into(current, hashes) is None && final(self)@ == old(self)@ && final(ids).next == old(ids).next,
            },
    {
        let found = match self.cells.folders.lookup(&current) {
            None => {
                return None;
            },
            Some(record) => {
                if !record.children.0.is_resolved() {
                    return None;
                }
                find_child_folder(&self.cells.paths, record.children.0.cells(), hashes.name)
            },
        };
        if let Some(folder) = found {
            return Some(folder);
        }
        let folder_count: usize = self.cells.folders.len();
        let path_count: usize = self.cells.paths.len();
        if !self.cells.can_take_next(current, true) {
            proof {
                let c = self@.cells;
                let folder = TableCell { slot: c.folders.len() as u64 };
                let path = TableCell { slot: c.paths.len() as u64 };
                let grown = SearchCellsView {
                    folders: c.folders.push(folder_record(hashes)),
                    paths: c.paths.push(folder_path_record(hashes, folder)),
                };
                assert(grown.folders[current.slot as int] == c.folders[current.slot as int]);
                assert(grown.paths[path.slot as int] == folder_path_record(hashes, folder));
                assert(grown.with_child(current, path) is None);
            }
            return None;
        }
        let ghost before = self@;
        let children: Vec<TableCell> = Vec::new();
        let mut set = TableLinkedReference::invalid();
        set.0.replace(children);
        let folder = TableCell::new(
            SearchFolder {
                full_path: hashes.full_path,
                parent: hashes.parent,
                name: hashes.name,
                file_count: 0,
                folder_count: 0,
                children: set,
            },
            &mut self.cells.folders,
            ids,
        );
        let path = TableCell::new(
            SearchPath {
                full_path: hashes.full_path,
                parent: hashes.parent,
                name: hashes.name,
                extension: hash_of(""),
                folder: SearchPathFolderReference::Folder(folder),
                next: SearchPathNextReference::Absent,
            },
            &mut self.cells.paths,
            ids,
        );
        proof {
            let grown = SearchCellsView {
                folders: before.cells.folders.push(folder_record(hashes)),
                paths: before.cells.paths.push(folder_path_record(hashes, folder)),
            };
            assert(self@.cells.folders =~= grown.folders);
            assert(self@.cells.paths =~= grown.paths);
            assert(grown.folders[current.slot as int] == before.cells.folders[current.slot as int]);
            assert(grown.paths[path.slot as int] == folder_path_record(hashes, folder));
            assert(grown.with_child(current, path) is Some);
        }
        let done = self.cells.push_child(current, path);
        assert(done);
        self.path_lookup.insert(hashes.full_path.0, path);
        self.folder_lookup.insert(hashes.full_path.0, folder);
        self.folders.push(folder);
        self.paths.push(path);
        Some(folder)
    }

    /// Takes one step down from the folder `current` into the folder named
    /// `component`, whose path text is `text`. Returns the folder that the
    /// step ends in. Where there is no step, nothing changes.
    pub fn descend(&mut self, current: TableCell, text: &str, component: &str, ids: &mut CellIds) -> (next:
        Option<TableCell>)
        requires
            old(ids).room(2),
        ensures
            match next {
                Some(folder) => old(self)@.descend(current, text@, component@) == Some(
                    (final(self)@, folder),
                ) && if old(self)@.step_makes(current, Hash40(hash40_of(component@))) {
                    final(ids).next == old(ids).next + 2 && final(self).cells.folders.names(folder)
                        && final(self).cells.folders.guid_of(folder) == old(ids).next
                        && final(self)@.cells.cell_count() == old(self)@.cells.cell_count() + 2
                } else {
                    final(ids).next == old(ids).next && final(self)@ == old(self)@
                },
                None => old(self)@.descend(current, text@, component@) is None && final(self)@
                    == old(self)@ && final(ids).next == old(ids).next,
            },
    {
        let parent_text = path_parent(text);
        let hashes = FolderHashes {
            full_path: hash_of(text),
            parent: hash_text_or_blank(&parent_text),
            name: hash_of(component),
        };
        self.step_into(current, hashes, ids)
    }

    /// Makes the path `record` the last child of `folder`: the path enters
    /// the table of paths and its lookup, and its cell gets the next
    /// identifier of the counter. Returns the cell. Where the folder cannot
    /// take a child more, nothing changes.
    pub fn add_leaf(&mut self, folder: TableCell, record: SearchPath, ids: &mut CellIds) -> (added:
        Option<TableCell>)
        requires
            old(ids).room(1),
        ensures
            match added {
                Some(path) => old(self)@.with_leaf(folder, record) == Some((final(self)@, path))
                    && final(ids).next == old(ids).next + 1 && final(self).cells.paths.names(path)
                    && final(self).cells.paths.guid_of(path) == old(ids).next
                    && final(self)@.cells.cell_count() == old(self)@.cells.cell_count() + 1,
                None => old(self)@.with_leaf(folder, record) is None && final(self)@ == old(self)@
                    && final(ids).next == old(ids).next,
            },
    {
        let path_count: usize = self.cells.paths.len();
        if !self.cells.can_take_next(folder, record.is_folder()) {
            proof {
                let c = self@.cells;
                let path = TableCell { slot: c.paths.len() as u64 };
                let grown = SearchCellsView { paths: c.paths.push(record), ..c };
                assert(grown.paths[path.slot as int] == record);
                assert(grown.with_child(folder, path) is None);
            }
            return None;
        }
        let ghost before = self@;
        let full_path = record.full_path;
        let path = TableCell::new(record, &mut self.cells.paths, ids);
        proof {
            let grown = SearchCellsView {
                paths: before.cells.paths.push(record),
                ..before.cells
            };
            assert(self@.cells.paths =~= grown.paths);
            assert(self@.cells.folders =~= grown.folders);
            assert(grown.paths[path.slot as int] == record);
            assert(grown.with_child(folder, path) is Some);
        }
        let done = self.cells.push_child(folder, path);
        assert(done);
        self.path_lookup.insert(full_path.0, path);
        self.paths.push(path);
        Some(path)
    }

    /// Adds the file with the given path to the tree and returns the cell
    /// of its path. Folders that the path names and the tree does not have
    /// are made on the way. Every cell that is made gets the next identifier
    /// of the counter. Fails where there is no root folder, the path has no
    /// component, the path has the hash of a folder, or the tree cannot take
    /// the file in: the engine is then as the way down left it, with the
    /// folders that were made before. Fails also, and changes nothing,
    /// where the counter has not two identifiers left for each component.
    #[verifier::loop_isolation(false)]
    pub fn add_file(&mut self, file: &str, ids: &mut CellIds) -> (result: Result<
        TableCell,
        ArchiveError,
    >)
        ensures
            match result {
                Ok(path) => old(self)@.with_file(file@) == Some((final(self)@, path))
                    && final(self).cells.paths.names(path) && final(self).cells.paths.guid_of(path)
                    == final(ids).next - 1,
                Err(error) => error == ArchiveError::Invariant && if old(ids).room(
                    2 * camino_components(file@).len() as int,
                ) {
                    old(self)@.with_file(file@) is None && final(self)@ == old(self)@.left_by(file@)
                } else {
                    final(self)@ == old(self)@
                },
            },
            final(ids).next - old(ids).next == final(self)@.cells.cell_count()
                - old(self)@.cells.cell_count(),
            old(ids).next <= final(ids).next <= old(ids).next + 2 * camino_components(
                file@,
            ).len(),
    {
        let root = match self.folder_lookup.get(&hash_of("/").0) {
            None => {
                return Err(ArchiveError::Invariant);
            },
            Some(root) => *root,
        };
        let components = path_components(file);
        if components.len() == 0 {
            return Err(ArchiveError::Invariant);
        }
        let need: u128 = 2 * (components.len() as u128);
        if need > (u64::MAX - ids.next) as u128 {
            return Err(ArchiveError::Invariant);
        }
        let ghost start = self@;
        let ghost first = ids.next;
        let ghost parts = camino_components(file@);
        let mut current = root;
        let mut text = String::new();
        let mut i: usize = 0;
        proof {
            reveal_strlit("");
            assert(text@ =~= ""@);
        }
        while i < components.len() - 1
            invariant
                i <= components@.len() - 1,
                parts == texts(components@),
                parts == camino_components(file@),
                start.descended(root, parts, i as nat) == Some((self@, current, text@)),
                ids.next - first == self@.cells.cell_count() - start.cells.cell_count(),
                ids.next + 2 * (components@.len() - i) <= u64::MAX,
                first <= ids.next <= first + 2 * i,
            decreases components@.len() - i,
        {
            let component = components[i].as_str();
            assert(component@ == parts[i as int]);
            let next = path_join(text.as_str(), component);
            match self.descend(current, next.as_str(), component, ids) {
                None => {
                    proof {
                        lemma_reached_stops(
                            start,
                            root,
                            parts,
                            i as nat,
                            (parts.len() - 1) as nat,
                        );
                        lemma_descended_fails(
                            start,
                            root,
                            parts,
                            (i + 1) as nat,
                            (parts.len() - 1) as nat,
                        );
                    }
                    return Err(ArchiveError::Invariant);
                },
                Some(folder) => {
                    current = folder;
                },
            }
            text = next;
            i = i + 1;
        }
        proof {
            lemma_reached_stops(start, root, parts, i as nat, i as nat);
        }
        let full_path = hash_of(file);
        if self.folder_lookup.contains_key(&full_path.0) {
            return Err(ArchiveError::Invariant);
        }
        let parent_text = path_parent(file);
        let name_text = path_file_name(file);
        let extension_text = path_extension(file);
        let record = SearchPath {
            full_path,
            parent: hash_text_or_blank(&parent_text),
            name: hash_text_or_blank(&name_text),
            extension: hash_text_or_blank(&extension_text),
            folder: SearchPathFolderReference::Absent,
            next: SearchPathNextReference::Absent,
        };
        match self.add_leaf(current, record, ids) {
            None => Err(ArchiveError::Invariant),
            Some(path) => Ok(path),
        }
    }
}


/// Resolving a search filesystem a second time changes nothing.
pub proof fn lemma_search_resolve_idempotent(model: SearchModel)
    requires
        model.resolution() is Some,
    ensures
        (SearchModel { cells: model.resolution().unwrap(), ..model }).resolution()
            == model.resolution(),
{
    let t = model.tables;
    let c = model.cells;
    lemma_pass_idempotent(
        c.paths,
        t.paths,
        t.paths.len(),
        search_path_step(t.paths, model.folder_lookup),
        |path: SearchPath| !(path.folder is Unresolved) && !(path.next is Unresolved),
    );
    let paths = pass(
        c.paths,
        t.paths,
        t.paths.len(),
        search_path_step(t.paths, model.folder_lookup),
    ).unwrap();
    lemma_pass_idempotent(
        c.folders,
        t.folders,
        t.folders.len(),
        search_folder_step(t.paths, paths),
        |folder: SearchFolderView| folder.children is Resolved,
    );
}

} // verus!
