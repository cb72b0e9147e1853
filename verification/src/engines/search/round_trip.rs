//! Writing the search filesystem and reading it back.
//!
//! The tables that the walk rebuilds hold the children of each folder in a
//! row. Where the paths of each folder are chained from each to its next,
//! the list that is read back from the first child is the row, and reading
//! the tables back and resolving them gives the records that were written,
//! with every cell named by its place in its table.
use vstd::prelude::*;

use crate::bytes::{lemma_record_fields, quad_at, word_at};
use crate::engines::round_trip::{
    in_table_order, lemma_index_in, lemma_key_halves, lemma_search_path_round_trip,
    lemma_table_round_trip, lemma_whole_table, reads_back,
};
use crate::engines::rounds::{
    distinct, lemma_pass_in_order, lemma_placed_positions, lemma_placed_prefix, lemma_pushed,
    lemma_table_bytes_cells, place, placed, placed_at, prefix, renumbered, stepped, walk,
};
use crate::engines::search::types::{
    SearchFolder, SearchFolderView, SearchPath, SearchPathFolderReference,
    SearchPathNextReference,
};
use crate::engines::search::{
    empty_search_tables, folder_lookup_of, fresh_search_model, search_directory_cells,
    search_folder_encoder, search_folder_step, search_folder_walk, search_path_encoder,
    search_path_step, search_path_walk, search_reorganized, with_search_folder, SearchCellsView,
    SearchTables, SearchWriterModel,
};
use crate::engines::table::{linked_cells, position, LinkedReference, ReferenceSetView, TableCell};
use crate::engines::{HashKey, TableRecord};
use crate::INVALID_INDEX;

verus! {

/// Whether the folder in `cell` has a record and children that the tables
/// hold in a row.
pub open spec fn folder_settled(t: SearchTables, c: SearchCellsView, cell: TableCell) -> bool {
    &&& cell.slot < c.folders.len()
    &&& c.folders[cell.slot as int].children matches ReferenceSetView::Resolved(children)
        && placed(t.paths, children)
}

/// Whether the tables are in order: no cell twice, no more cells than a
/// 32-bit index can count, and every folder settled.
pub open spec fn search_in_order(t: SearchTables, c: SearchCellsView) -> bool {
    &&& distinct(t.folders)
    &&& distinct(t.paths)
    &&& t.folders.len() <= u32::MAX
    &&& t.paths.len() <= u32::MAX
    &&& forall|i: int| 0 <= i < t.folders.len() ==> folder_settled(t, c, #[trigger] t.folders[i])
}

/// What a walk over the children of a folder does: the paths are extended
/// by the children, and nothing of the folders changes.
pub proof fn lemma_children_walk(t: SearchTables, children: Seq<TableCell>, upto: nat)
    requires
        upto <= children.len(),
        distinct(t.paths),
        t.paths.len() <= u32::MAX,
        walk(t, children, upto, search_path_walk()) is Some,
    ensures
        ({
            let after = walk(t, children, upto, search_path_walk()).unwrap();
            &&& distinct(after.paths)
            &&& after.paths.len() <= u32::MAX
            &&& after.paths == t.paths + children.subrange(0, upto as int)
            &&& after.folders == t.folders
        }),
    decreases upto,
{
    if upto == 0 {
        assert(t.paths + children.subrange(0, 0) =~= t.paths);
    } else {
        lemma_children_walk(t, children, (upto - 1) as nat);
        let before = walk(t, children, (upto - 1) as nat, search_path_walk()).unwrap();
        lemma_pushed(before.paths, children[upto - 1]);
        let after = walk(t, children, upto, search_path_walk()).unwrap();
        assert(after.paths =~= t.paths + children.subrange(0, upto as int));
    }
}

/// What pushing a folder does: the folder is the last of the folders, its
/// children are the last of the paths, and the tables stay in order.
pub proof fn lemma_folder_step(t: SearchTables, c: SearchCellsView, cell: TableCell)
    requires
        search_in_order(t, c),
        with_search_folder(t, c, cell) is Some,
    ensures
        ({
            let after = with_search_folder(t, c, cell).unwrap();
            &&& search_in_order(after, c)
            &&& after.folders == t.folders.push(cell)
            &&& after.paths == t.paths + c.folders[cell.slot as int].children->Resolved_0
        }),
{
    let after = with_search_folder(t, c, cell).unwrap();
    lemma_pushed(t.folders, cell);
    let t1 = SearchTables { folders: t.folders.push(cell), ..t };
    let children = c.folders[cell.slot as int].children->Resolved_0;
    lemma_children_walk(t1, children, children.len());
    assert(children.subrange(0, children.len() as int) =~= children);
    assert(placed_at(after.paths, children, t.paths.len() as int));
    assert(prefix(t.paths, after.paths));
    assert forall|i: int| 0 <= i < after.folders.len() implies folder_settled(
        after,
        c,
        #[trigger] after.folders[i],
    ) by {
        if i < t.folders.len() {
            assert(after.folders[i] == t.folders[i]);
            assert(folder_settled(t, c, t.folders[i]));
            lemma_placed_prefix(
                t.paths,
                after.paths,
                c.folders[t.folders[i].slot as int].children->Resolved_0,
            );
        }
    }
}

/// A walk over folders keeps the tables in order and extends the folders by
/// the folders of the walk.
pub proof fn lemma_folder_walk(
    t: SearchTables,
    c: SearchCellsView,
    folders: Seq<TableCell>,
    upto: nat,
)
    requires
        upto <= folders.len(),
        search_in_order(t, c),
        walk(t, folders, upto, search_folder_walk(c)) is Some,
    ensures
        ({
            let after = walk(t, folders, upto, search_folder_walk(c)).unwrap();
            &&& search_in_order(after, c)
            &&& after.folders == t.folders + folders.subrange(0, upto as int)
            &&& prefix(t.paths, after.paths)
        }),
    decreases upto,
{
    if upto == 0 {
        assert(t.folders + folders.subrange(0, 0) =~= t.folders);
    } else {
        lemma_folder_walk(t, c, folders, (upto - 1) as nat);
        let before = walk(t, folders, (upto - 1) as nat, search_folder_walk(c)).unwrap();
        lemma_folder_step(before, c, folders[upto - 1]);
        let after = walk(t, folders, upto, search_folder_walk(c)).unwrap();
        assert(after.folders =~= t.folders + folders.subrange(0, upto as int));
        assert forall|i: int| 0 <= i < t.paths.len() implies #[trigger] after.paths[i]
            == t.paths[i] by {
            assert(before.paths[i] == t.paths[i]);
        }
    }
}

/// The tables that the walk rebuilds are in order: no cell occurs twice,
/// and the children of each folder stand in a row.
pub proof fn lemma_rebuilt_in_order(folders: Seq<TableCell>, c: SearchCellsView)
    requires
        search_reorganized(folders, c) is Some,
    ensures
        search_in_order(search_reorganized(folders, c).unwrap(), c),
        search_reorganized(folders, c).unwrap().folders == folders,
{
    lemma_folder_walk(empty_search_tables(), c, folders, folders.len());
    assert(Seq::<TableCell>::empty() + folders.subrange(0, folders.len() as int) =~= folders);
}

/// How a folder is read back: with the index of its first child, and with
/// the invalid index where it has none.
pub open spec fn search_folder_read(t: SearchTables) -> spec_fn(
    SearchFolderView,
    int,
) -> SearchFolderView {
    |record: SearchFolderView, i: int|
        SearchFolderView {
            children: ReferenceSetView::Unresolved(
                if record.children.cells().len() == 0 {
                    INVALID_INDEX
                } else {
                    position(t.paths, record.children.cells()[0]) as usize
                },
            ),
            ..record
        }
}

/// How a path is read back: with the index of its next path, and as a path
/// that has yet to find its folder where it stands for one.
pub open spec fn search_path_read(t: SearchTables) -> spec_fn(SearchPath, int) -> SearchPath {
    |record: SearchPath, i: int|
        SearchPath {
            folder: if record.folder is Absent {
                SearchPathFolderReference::Absent
            } else {
                SearchPathFolderReference::Unresolved(INVALID_INDEX)
            },
            next: match record.next {
                SearchPathNextReference::Path(cell) => SearchPathNextReference::Unresolved(
                    position(t.paths, cell) as usize,
                ),
                _ => SearchPathNextReference::Absent,
            },
            ..record
        }
}

/// Whether the records of the tables can be written so that they are read
/// back: every table is shorter than the invalid index, every hash that is
/// packed fits 40 bits, and the two counts of every folder fit 24 bits.
pub open spec fn search_writable(t: SearchTables, c: SearchCellsView) -> bool {
    &&& t.folders.len() < INVALID_INDEX
    &&& t.paths.len() < INVALID_INDEX
    &&& forall|i: int|
        0 <= i < t.folders.len() ==> {
            let record = c.folders[(#[trigger] t.folders[i]).slot as int];
            &&& record.full_path.is_valid()
            &&& record.parent.is_valid()
            &&& record.file_count <= INVALID_INDEX
            &&& record.folder_count <= INVALID_INDEX
        }
    &&& forall|i: int|
        0 <= i < t.paths.len() ==> {
            let record = c.paths[(#[trigger] t.paths[i]).slot as int];
            &&& record.full_path.is_valid()
            &&& record.parent.is_valid()
            &&& !(record.folder is Unresolved)
        }
}

/// A folder that is written against a table of paths that holds its first
/// child is read back with the index of that child.
pub proof fn lemma_search_folder_round_trip(
    record: SearchFolderView,
    t: SearchTables,
    before: Seq<u8>,
    after: Seq<u8>,
)
    requires
        t.paths.len() < INVALID_INDEX,
        record.full_path.is_valid(),
        record.parent.is_valid(),
        record.file_count <= INVALID_INDEX,
        record.folder_count <= INVALID_INDEX,
        record.encoded(t.paths) is Some,
    ensures
        record.encoded(t.paths).unwrap().len() == SearchFolder::width(),
        SearchFolder::decoded(before + record.encoded(t.paths).unwrap() + after, before.len() as int)
            == Some(search_folder_read(t)(record, 0)),
{
    let first = record.first_child_index(t.paths).unwrap();
    let cells = record.children.cells();
    if cells.len() > 0 {
        lemma_index_in(t.paths, cells[0]);
    }
    lemma_key_halves(record.full_path, record.folder_count);
    lemma_key_halves(record.parent, record.file_count);
    lemma_record_fields(
        before,
        seq![
            HashKey::pack(record.full_path, record.folder_count).0,
            HashKey::pack(record.parent, record.file_count).0,
            record.name.0,
        ],
        seq![first, 0u32],
        after,
    );
    let all = before + record.encoded(t.paths).unwrap() + after;
    let base = before.len() as int;
    assert(quad_at(all, base, 0) == HashKey::pack(record.full_path, record.folder_count).0);
    assert(quad_at(all, base, 1) == HashKey::pack(record.parent, record.file_count).0);
    assert(quad_at(all, base, 2) == record.name.0);
    assert(word_at(all, base, 3, 0) == first);
}

/// Every folder of the tables, written anywhere, is read back with the
/// index of its first child.
pub proof fn lemma_folders_read_back(t: SearchTables, c: SearchCellsView)
    requires
        search_writable(t, c),
    ensures
        reads_back::<SearchFolder>(
            c.folders,
            t.folders,
            t.folders.len(),
            search_folder_encoder(t),
            search_folder_read(t),
        ),
{
    let encode = search_folder_encoder(t);
    let read = search_folder_read(t);
    assert forall|i: int, before: Seq<u8>, after: Seq<u8>|
        0 <= i < t.folders.len() && encode(c.folders[t.folders[i].slot as int], i)
            is Some implies encode(c.folders[t.folders[i].slot as int], i).unwrap().len()
        == SearchFolder::width() && #[trigger] SearchFolder::decoded(
        before + encode(c.folders[t.folders[i].slot as int], i).unwrap() + after,
        before.len() as int,
    ) == Some(read(c.folders[t.folders[i].slot as int], i)) by {
        let record = c.folders[t.folders[i].slot as int];
        assert(record.full_path.is_valid());
        lemma_search_folder_round_trip(record, t, before, after);
    }
}

/// Every path of the tables, written anywhere, is read back with the index
/// of its next path.
pub proof fn lemma_paths_read_back(t: SearchTables, c: SearchCellsView)
    requires
        search_writable(t, c),
    ensures
        reads_back::<SearchPath>(
            c.paths,
            t.paths,
            t.paths.len(),
            search_path_encoder(t),
            search_path_read(t),
        ),
{
    let encode = search_path_encoder(t);
    let read = search_path_read(t);
    assert forall|i: int, before: Seq<u8>, after: Seq<u8>|
        0 <= i < t.paths.len() && encode(c.paths[t.paths[i].slot as int], i) is Some implies encode(
        c.paths[t.paths[i].slot as int],
        i,
    ).unwrap().len() == SearchPath::width() && #[trigger] SearchPath::decoded(
        before + encode(c.paths[t.paths[i].slot as int], i).unwrap() + after,
        before.len() as int,
    ) == Some(read(c.paths[t.paths[i].slot as int], i)) by {
        let record = c.paths[t.paths[i].slot as int];
        assert(record.full_path.is_valid());
        lemma_search_path_round_trip(record, t.paths, before, after);
        match record.next {
            SearchPathNextReference::Path(cell) => {
                lemma_index_in(t.paths, cell);
            },
            _ => {},
        }
        lemma_record_fields(
            before,
            seq![
                HashKey::pack(record.full_path, record.next_index(t.paths).unwrap()).0,
                HashKey::pack(record.parent, record.folder_index()).0,
                record.name.0,
                record.extension.0,
            ],
            seq![],
            after,
        );
        lemma_key_halves(record.full_path, record.next_index(t.paths).unwrap());
        let all = before + encode(record, i).unwrap() + after;
        assert(quad_at(all, before.len() as int, 0) == HashKey::pack(
            record.full_path,
            record.next_index(t.paths).unwrap(),
        ).0);
    }
}

/// The records of the tables as they are read back: in the order of the
/// tables, each with the indices that stand for its cells.
pub open spec fn search_read_back(t: SearchTables, c: SearchCellsView) -> SearchCellsView {
    SearchCellsView {
        folders: in_table_order(c.folders, t.folders, t.folders.len(), search_folder_read(t)),
        paths: in_table_order(c.paths, t.paths, t.paths.len(), search_path_read(t)),
    }
}

/// The tables that are written as a directory of tables are read back as
/// the records in the order of the tables, each with the indices that stand
/// for its cells.
pub proof fn lemma_search_directory_read_back(writer: SearchWriterModel)
    requires
        search_writable(writer.tables, writer.cells),
        writer.directory() is Some,
    ensures
        search_directory_cells(writer.directory().unwrap()) == Some(
            search_read_back(writer.tables, writer.cells),
        ),
{
    let t = writer.tables;
    let c = writer.cells;
    lemma_folders_read_back(t, c);
    lemma_table_round_trip::<SearchFolder>(
        c.folders,
        t.folders,
        t.folders.len(),
        search_folder_encoder(t),
        search_folder_read(t),
        Seq::empty(),
    );
    let folder_bytes = writer.folder_bytes().unwrap();
    assert(folder_bytes + Seq::<u8>::empty() =~= folder_bytes);
    lemma_whole_table::<SearchFolder>(folder_bytes, t.folders.len());
    lemma_paths_read_back(t, c);
    lemma_table_round_trip::<SearchPath>(
        c.paths,
        t.paths,
        t.paths.len(),
        search_path_encoder(t),
        search_path_read(t),
        Seq::empty(),
    );
    let path_bytes = writer.path_bytes().unwrap();
    assert(path_bytes + Seq::<u8>::empty() =~= path_bytes);
    lemma_whole_table::<SearchPath>(path_bytes, t.paths.len());
}

/// Whether the paths of `cells` are chained: each names the one after it as
/// its next, and the last names none.
pub open spec fn chained(c: SearchCellsView, cells: Seq<TableCell>) -> bool {
    forall|j: int|
        0 <= j < cells.len() ==> (#[trigger] cells[j]).slot < c.paths.len() && c.paths[cells[j].slot as int].next
            == (if j + 1 < cells.len() {
            SearchPathNextReference::Path(cells[j + 1])
        } else {
            SearchPathNextReference::Absent
        })
}

/// The hash of the folder at a place of the table of folders.
pub open spec fn folder_hash_at(t: SearchTables, c: SearchCellsView, i: int) -> u64 {
    c.folders[t.folders[i].slot as int].full_path.0
}

/// Whether the records agree with each other as reading them back needs
/// it: the children of each folder are chained, no two folders share a
/// hash, and a path that stands for a folder names a folder of the table
/// that shares its hash.
pub open spec fn search_consistent(t: SearchTables, c: SearchCellsView) -> bool {
    &&& forall|i: int|
        0 <= i < t.folders.len() ==> chained(
            c,
            c.folders[(#[trigger] t.folders[i]).slot as int].children.cells(),
        )
    &&& forall|i: int, j: int|
        0 <= i < j < t.folders.len() ==> folder_hash_at(t, c, i) != folder_hash_at(t, c, j)
    &&& forall|i: int|
        0 <= i < t.paths.len() ==> (c.paths[(
        #[trigger] t.paths[i]).slot as int].folder matches SearchPathFolderReference::Folder(folder)
            ==> t.folders.contains(folder) && c.folders[folder.slot as int].full_path
            == c.paths[t.paths[i].slot as int].full_path)
}

/// The records of the rebuilt tables in the order of the tables, with every
/// cell named by its place in its table.
pub open spec fn renumbered_cells(t: SearchTables, c: SearchCellsView) -> SearchCellsView {
    SearchCellsView {
        folders: Seq::new(
            t.folders.len(),
            |i: int|
                {
                    let record = c.folders[t.folders[i].slot as int];
                    SearchFolderView {
                        children: ReferenceSetView::Resolved(
                            renumbered(t.paths, record.children.cells()),
                        ),
                        ..record
                    }
                },
        ),
        paths: Seq::new(
            t.paths.len(),
            |i: int|
                {
                    let record = c.paths[t.paths[i].slot as int];
                    SearchPath {
                        folder: match record.folder {
                            SearchPathFolderReference::Folder(folder) => {
                                SearchPathFolderReference::Folder(place(t.folders, folder))
                            },
                            other => other,
                        },
                        next: match record.next {
                            SearchPathNextReference::Path(cell) => SearchPathNextReference::Path(
                                place(t.paths, cell),
                            ),
                            other => other,
                        },
                        ..record
                    }
                },
        ),
    }
}

/// What the lookup that is built from folders in order holds: each hash of
/// a folder, with the number of the last folder that has it.
pub proof fn lemma_folder_lookup_of(folders: Seq<SearchFolderView>, upto: nat)
    requires
        upto <= folders.len() <= u32::MAX,
    ensures
        forall|hash: u64| #[trigger]
            folder_lookup_of(folders, upto).contains_key(hash) ==> {
                let found = folder_lookup_of(folders, upto)[hash].slot;
                &&& found < upto
                &&& folders[found as int].full_path.0 == hash
                &&& forall|j: int| found < j < upto ==> folders[j].full_path.0 != hash
            },
        forall|i: int|
            0 <= i < upto ==> folder_lookup_of(folders, upto).contains_key(
                #[trigger] folders[i].full_path.0,
            ),
    decreases upto,
{
    if upto > 0 {
        lemma_folder_lookup_of(folders, (upto - 1) as nat);
        let before = folder_lookup_of(folders, (upto - 1) as nat);
        let last = folders[upto - 1].full_path.0;
        assert forall|i: int| 0 <= i < upto implies folder_lookup_of(folders, upto).contains_key(
            #[trigger] folders[i].full_path.0,
        ) by {
            if i < upto - 1 {
                assert(before.contains_key(folders[i].full_path.0));
            }
        }
        assert forall|hash: u64| #[trigger]
            folder_lookup_of(folders, upto).contains_key(hash) implies {
            let found = folder_lookup_of(folders, upto)[hash].slot;
            &&& found < upto
            &&& folders[found as int].full_path.0 == hash
            &&& forall|j: int| found < j < upto ==> folders[j].full_path.0 != hash
        } by {
            if hash != last {
                assert(before.contains_key(hash));
            }
        }
    }
}

/// The cells with the numbers from `start` on, `count` of them.
pub open spec fn numbers_from(start: int, count: nat) -> Seq<TableCell> {
    Seq::new(count, |k: int| TableCell { slot: (start + k) as u64 })
}

/// In a store whose paths from `start` on, `count` of them, each name the
/// path of the next number as their next and the last names none, the list
/// that starts at one of them is the rest of them.
pub proof fn lemma_chain(store: Seq<SearchPath>, start: int, count: nat, from: nat, fuel: nat)
    requires
        0 <= start,
        start + count <= store.len() <= u32::MAX,
        from < count,
        fuel >= count - 1 - from,
        forall|m: int|
            0 <= m < count ==> (#[trigger] store[start + m]).next == (if m + 1 < count {
                SearchPathNextReference::Path(TableCell { slot: (start + m + 1) as u64 })
            } else {
                SearchPathNextReference::Absent
            }),
    ensures
        linked_cells(store, TableCell { slot: (start + from) as u64 }, fuel) == Some(
            numbers_from(start + from, (count - from) as nat),
        ),
    decreases count - from,
{
    let current = TableCell { slot: (start + from) as u64 };
    assert(store[start + from].next == (if from + 1 < count {
        SearchPathNextReference::Path(TableCell { slot: (start + from + 1) as u64 })
    } else {
        SearchPathNextReference::Absent
    }));
    if from + 1 < count {
        lemma_chain(store, start, count, from + 1, (fuel - 1) as nat);
        let rest = numbers_from(start + from + 1, (count - from - 1) as nat);
        assert(seq![current] + rest =~= numbers_from(start + from, (count - from) as nat));
    } else {
        assert(seq![current] =~= numbers_from(start + from, (count - from) as nat));
    }
}

/// Writing and reading back is the identity up to the names of the cells:
/// the tables that the walk rebuilds, written as a directory of tables,
/// read back and resolved, are the records in the order of the tables,
/// with every cell named by its place in its table.
pub proof fn lemma_search_round_trip(writer: SearchWriterModel)
    requires
        search_in_order(writer.tables, writer.cells),
        search_writable(writer.tables, writer.cells),
        search_consistent(writer.tables, writer.cells),
        writer.directory() is Some,
    ensures
        search_directory_cells(writer.directory().unwrap()) matches Some(read)
            && fresh_search_model(read).resolution() == Some(
            renumbered_cells(writer.tables, writer.cells),
        ),
{
    let t = writer.tables;
    let c = writer.cells;
    lemma_search_directory_read_back(writer);
    let read = search_directory_cells(writer.directory().unwrap()).unwrap();
    let model = fresh_search_model(read);
    let want = renumbered_cells(t, c);
    lemma_folder_lookup_of(read.folders, read.folders.len());
    lemma_table_bytes_cells(c.paths, t.paths, t.paths.len(), search_path_encoder(t));
    // Each folder is found in the lookup under its own number.
    assert forall|k: int| 0 <= k < t.folders.len() implies model.folder_lookup.contains_key(
        folder_hash_at(t, c, k),
    ) && model.folder_lookup[folder_hash_at(t, c, k)].slot == k && position(
        t.folders,
        #[trigger] t.folders[k],
    ) == k by {
        let hash = folder_hash_at(t, c, k);
        assert(read.folders[k].full_path.0 == hash);
        let found = model.folder_lookup[hash].slot as int;
        assert(read.folders[found].full_path.0 == folder_hash_at(t, c, found));
        let at = position(t.folders, t.folders[k]);
        assert(0 <= at < t.folders.len() && t.folders[at] == t.folders[k]);
        if at < k {
            assert(t.folders[at] != t.folders[k]);
        } else if at > k {
            assert(t.folders[k] != t.folders[at]);
        }
    }
    // The paths.
    let path_step = search_path_step(model.tables.paths, model.folder_lookup);
    assert forall|i: int| 0 <= i < t.paths.len() implies (#[trigger] path_step(read.paths[i], i))
        == Some(want.paths[i]) by {
        let record = c.paths[t.paths[i].slot as int];
        match record.folder {
            SearchPathFolderReference::Folder(folder) => {
                let k = choose|k: int| 0 <= k < t.folders.len() && t.folders[k] == folder;
                assert(position(t.folders, t.folders[k]) == k);
                assert(folder_hash_at(t, c, k) == record.full_path.0);
            },
            _ => {},
        }
        match record.next {
            SearchPathNextReference::Path(cell) => {
                lemma_index_in(t.paths, cell);
                assert(0 <= position(t.paths, cell) < t.paths.len());
            },
            _ => {},
        }
    }
    lemma_pass_in_order(read.paths, t.paths.len(), path_step);
    assert(stepped(read.paths, t.paths.len(), path_step) =~= want.paths);
    // The folders.
    let folder_step = search_folder_step(model.tables.paths, want.paths);
    assert forall|i: int| 0 <= i < t.folders.len() implies (#[trigger] folder_step(
        read.folders[i],
        i,
    )) == Some(want.folders[i]) by {
        let record = c.folders[t.folders[i].slot as int];
        assert(folder_settled(t, c, t.folders[i]));
        let cells = record.children.cells();
        assert(chained(c, cells));
        if cells.len() > 0 {
            let start = choose|start: int| #[trigger] placed_at(t.paths, cells, start);
            lemma_placed_positions(t.paths, cells, start);
            assert(position(t.paths, cells[0]) == start + 0);
            assert forall|m: int| 0 <= m < cells.len() implies (#[trigger] want.paths[start
                + m]).next == (if m + 1 < cells.len() {
                SearchPathNextReference::Path(TableCell { slot: (start + m + 1) as u64 })
            } else {
                SearchPathNextReference::Absent
            }) by {
                assert(cells[m] == t.paths[start + m]);
                if m + 1 < cells.len() {
                    assert(position(t.paths, cells[m + 1]) == start + (m + 1));
                }
            }
            lemma_chain(want.paths, start, cells.len(), 0, want.paths.len());
            assert(numbers_from(start + 0, cells.len()) =~= renumbered(t.paths, cells)) by {
                assert forall|k: int| 0 <= k < cells.len() implies numbers_from(
                    start + 0,
                    cells.len(),
                )[k] == renumbered(t.paths, cells)[k] by {
                    assert(position(t.paths, cells[k]) == start + k);
                }
            }
            assert(model.tables.paths[start] == TableCell { slot: start as u64 });
        } else {
            assert(renumbered(t.paths, cells) =~= Seq::<TableCell>::empty());
        }
    }
    lemma_pass_in_order(read.folders, t.folders.len(), folder_step);
    assert(stepped(read.folders, t.folders.len(), folder_step) =~= want.folders);
}

} // verus!
