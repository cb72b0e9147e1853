//! The tables that the walk rebuilds are in their canonical order.
//!
//! Reading such tables back names every cell by its place. Rebuilding the
//! tables that were read back changes nothing, and writing them again
//! gives the bytes that were read.
use vstd::prelude::*;

use crate::engines::identity_cells;
use crate::engines::packaged::bucket_map::{lists, ordered};
use crate::engines::rounds::{
    distinct, key_bytes, lemma_index_unique, lemma_numbered_index, lemma_numbered_table,
    lemma_placed_positions, lemma_prefix_chain, lemma_renamed_keys, lemma_table_bytes_cells,
    lemma_table_bytes_same, place, placed_at, prefix, renumbered, walk,
};
use crate::engines::search::round_trip::{
    folder_hash_at, folder_settled, lemma_children_walk, lemma_folder_lookup_of,
    lemma_folder_step, lemma_folder_walk, lemma_rebuilt_in_order,
    lemma_search_directory_read_back, lemma_search_round_trip, renumbered_cells,
    search_consistent, search_in_order, search_writable,
};
use crate::engines::search::types::{SearchPath, SearchPathNextReference};
use crate::engines::search::{
    empty_search_tables, folder_lookup_of, fresh_search_model, path_lookup_of,
    search_directory_cells, search_folder_encoder, search_folder_walk, search_path_encoder,
    search_path_walk, search_reorganized, with_search_folder, SearchCellsView, SearchTables,
    SearchWriterModel,
};
use crate::engines::table::TableCell;
use crate::hashing::hash40_of;

verus! {

/// The tables of the same lengths that list their cells by number.
pub open spec fn numbered(t: SearchTables) -> SearchTables {
    SearchTables {
        folders: identity_cells(t.folders.len()),
        paths: identity_cells(t.paths.len()),
    }
}

/// Whether each table of `all` starts with the table of `t`.
pub open spec fn within(t: SearchTables, all: SearchTables) -> bool {
    &&& prefix(t.folders, all.folders)
    &&& prefix(t.paths, all.paths)
}

/// A walk over the children of a folder, seen on the numbered tables.
pub proof fn lemma_numbered_children_walk(
    t: SearchTables,
    all: SearchTables,
    children: Seq<TableCell>,
    upto: nat,
)
    requires
        upto <= children.len(),
        all.paths.len() <= u32::MAX,
        distinct(all.paths),
        distinct(t.paths),
        within(t, all),
        walk(t, children, upto, search_path_walk()) is Some,
        within(walk(t, children, upto, search_path_walk()).unwrap(), all),
    ensures
        walk(numbered(t), renumbered(all.paths, children), upto, search_path_walk()) == Some(
            numbered(walk(t, children, upto, search_path_walk()).unwrap()),
        ),
    decreases upto,
{
    if upto > 0 {
        let before = walk(t, children, (upto - 1) as nat, search_path_walk()).unwrap();
        let after = walk(t, children, upto, search_path_walk()).unwrap();
        let cell = children[upto - 1];
        lemma_children_walk(t, children, (upto - 1) as nat);
        assert(after.paths == before.paths.push(cell));
        assert(prefix(before.paths, after.paths));
        lemma_prefix_chain(before.paths, after.paths, all.paths);
        lemma_numbered_children_walk(t, all, children, (upto - 1) as nat);
        let at = before.paths.len() as int;
        assert(after.paths[at] == cell);
        assert(all.paths[at] == after.paths[at]);
        lemma_index_unique(all.paths, at);
        lemma_numbered_table(before.paths.len(), place(all.paths, cell));
        assert(renumbered(all.paths, children)[upto - 1] == place(all.paths, cell));
        assert(numbered(after) =~= SearchTables {
            paths: identity_cells(before.paths.len() + 1),
            ..numbered(before)
        });
    }
}

/// Pushing a folder, seen on the numbered tables.
pub proof fn lemma_numbered_folder_step(
    t: SearchTables,
    all: SearchTables,
    c: SearchCellsView,
    cell: TableCell,
)
    requires
        all.folders.len() <= u32::MAX,
        all.paths.len() <= u32::MAX,
        distinct(all.folders),
        distinct(all.paths),
        within(t, all),
        search_in_order(t, c),
        with_search_folder(t, c, cell) is Some,
        within(with_search_folder(t, c, cell).unwrap(), all),
    ensures
        with_search_folder(numbered(t), renumbered_cells(all, c), place(all.folders, cell))
            == Some(numbered(with_search_folder(t, c, cell).unwrap())),
{
    let after = with_search_folder(t, c, cell).unwrap();
    lemma_folder_step(t, c, cell);
    let at = t.folders.len() as int;
    assert(after.folders[at] == cell);
    assert(all.folders[at] == after.folders[at]);
    lemma_index_unique(all.folders, at);
    lemma_numbered_table(t.folders.len(), place(all.folders, cell));
    let t1 = SearchTables { folders: t.folders.push(cell), ..t };
    let children = c.folders[cell.slot as int].children->Resolved_0;
    assert(within(t1, all));
    lemma_numbered_children_walk(t1, all, children, children.len());
    assert(numbered(t1) =~= SearchTables {
        folders: identity_cells(t.folders.len() + 1),
        ..numbered(t)
    });
}

/// A walk over folders, seen on the numbered tables.
pub proof fn lemma_numbered_folder_walk(
    t: SearchTables,
    all: SearchTables,
    c: SearchCellsView,
    folders: Seq<TableCell>,
    upto: nat,
)
    requires
        upto <= folders.len(),
        all.folders.len() <= u32::MAX,
        all.paths.len() <= u32::MAX,
        distinct(all.folders),
        distinct(all.paths),
        within(t, all),
        search_in_order(t, c),
        walk(t, folders, upto, search_folder_walk(c)) is Some,
        within(walk(t, folders, upto, search_folder_walk(c)).unwrap(), all),
    ensures
        walk(
            numbered(t),
            renumbered(all.folders, folders),
            upto,
            search_folder_walk(renumbered_cells(all, c)),
        ) == Some(numbered(walk(t, folders, upto, search_folder_walk(c)).unwrap())),
    decreases upto,
{
    if upto > 0 {
        let before = walk(t, folders, (upto - 1) as nat, search_folder_walk(c)).unwrap();
        let after = walk(t, folders, upto, search_folder_walk(c)).unwrap();
        lemma_folder_walk(t, c, folders, (upto - 1) as nat);
        lemma_folder_step(before, c, folders[upto - 1]);
        assert(prefix(before.folders, after.folders));
        assert(prefix(before.paths, after.paths));
        lemma_prefix_chain(before.folders, after.folders, all.folders);
        lemma_prefix_chain(before.paths, after.paths, all.paths);
        lemma_numbered_folder_walk(t, all, c, folders, (upto - 1) as nat);
        lemma_numbered_folder_step(before, all, c, folders[upto - 1]);
        assert(renumbered(all.folders, folders)[upto - 1] == place(
            all.folders,
            folders[upto - 1],
        ));
    }
}

/// Rebuilding is settled after one turn: for the records of rebuilt tables,
/// named by their places, the walk over the folders in their order gives
/// the tables that list every cell by its number.
pub proof fn lemma_rebuilt_is_canonical(folders: Seq<TableCell>, c: SearchCellsView)
    requires
        search_reorganized(folders, c) is Some,
    ensures
        ({
            let tables = search_reorganized(folders, c).unwrap();
            search_reorganized(identity_cells(folders.len()), renumbered_cells(tables, c)) == Some(
                numbered(tables),
            )
        }),
{
    let tables = search_reorganized(folders, c).unwrap();
    lemma_rebuilt_in_order(folders, c);
    assert(within(empty_search_tables(), tables));
    lemma_numbered_folder_walk(empty_search_tables(), tables, c, folders, folders.len());
    assert(identity_cells(0) =~= Seq::<TableCell>::empty());
    assert(numbered(empty_search_tables()) == empty_search_tables());
    assert(renumbered(tables.folders, folders) =~= identity_cells(folders.len())) by {
        assert(placed_at(tables.folders, folders, 0));
        lemma_placed_positions(tables.folders, folders, 0);
    }
}


/// The renumbered records of tables in order have the bytes of the
/// records themselves, table by table.
pub proof fn lemma_numbered_tables_bytes(
    writer: SearchWriterModel,
    folder_lookup: Map<u64, TableCell>,
    path_lookup: Map<u64, TableCell>,
)
    requires
        search_in_order(writer.tables, writer.cells),
        writer.path_bytes() is Some,
    ensures
        ({
            let other = SearchWriterModel {
                folder_lookup,
                path_lookup,
                tables: numbered(writer.tables),
                cells: renumbered_cells(writer.tables, writer.cells),
            };
            &&& other.folder_bytes() == writer.folder_bytes()
            &&& other.path_bytes() == writer.path_bytes()
        }),
{
    let t = writer.tables;
    let c = writer.cells;
    let renamed = renumbered_cells(t, c);
    let numbers = numbered(t);
    assert forall|i: int| 0 <= i < t.folders.len() implies (#[trigger] t.folders[i]).slot
        < c.folders.len() && numbers.folders[i].slot < renamed.folders.len()
        && search_folder_encoder(t)(c.folders[t.folders[i].slot as int], i)
        == search_folder_encoder(numbers)(renamed.folders[numbers.folders[i].slot as int], i) by {
        assert(folder_settled(t, c, t.folders[i]));
        let cells = c.folders[t.folders[i].slot as int].children.cells();
        if cells.len() > 0 {
            let start = choose|start: int| #[trigger] placed_at(t.paths, cells, start);
            assert(t.paths[start + 0] == cells[0]);
            lemma_numbered_index(t.paths, cells[0]);
            assert(renumbered(t.paths, cells)[0] == place(t.paths, cells[0]));
        }
    }
    lemma_table_bytes_same(
        c.folders,
        t.folders,
        search_folder_encoder(t),
        renamed.folders,
        numbers.folders,
        search_folder_encoder(numbers),
        t.folders.len(),
    );
    lemma_table_bytes_cells(c.paths, t.paths, t.paths.len(), search_path_encoder(t));
    assert forall|i: int| 0 <= i < t.paths.len() implies (#[trigger] t.paths[i]).slot
        < c.paths.len() && numbers.paths[i].slot < renamed.paths.len() && search_path_encoder(t)(
        c.paths[t.paths[i].slot as int],
        i,
    ) == search_path_encoder(numbers)(renamed.paths[numbers.paths[i].slot as int], i) by {
        let record = c.paths[t.paths[i].slot as int];
        match record.next {
            SearchPathNextReference::Path(cell) => {
                lemma_numbered_index(t.paths, cell);
            },
            _ => {},
        }
    }
    lemma_table_bytes_same(
        c.paths,
        t.paths,
        search_path_encoder(t),
        renamed.paths,
        numbers.paths,
        search_path_encoder(numbers),
        t.paths.len(),
    );
}

/// The hash of the path at a place of the table of paths.
pub open spec fn path_hash_at(t: SearchTables, c: SearchCellsView, i: int) -> u64 {
    c.paths[t.paths[i].slot as int].full_path.0
}

/// Whether the two lookups agree with the tables: each has a list of its
/// pairs; every folder of the table is found by its hash, and so is every
/// path but one with the hash of the empty text; and nothing else is
/// found.
pub open spec fn lookups_agree(writer: SearchWriterModel) -> bool {
    let t = writer.tables;
    let c = writer.cells;
    &&& lists(ordered(writer.folder_lookup), writer.folder_lookup)
    &&& lists(ordered(writer.path_lookup), writer.path_lookup)
    &&& forall|i: int|
        0 <= i < t.folders.len() ==> writer.folder_lookup.contains_key(
            #[trigger] folder_hash_at(t, c, i),
        ) && writer.folder_lookup[folder_hash_at(t, c, i)] == t.folders[i]
    &&& forall|hash: u64| #[trigger]
        writer.folder_lookup.contains_key(hash) ==> exists|i: int|
            0 <= i < t.folders.len() && #[trigger] folder_hash_at(t, c, i) == hash
    &&& forall|i: int|
        0 <= i < t.paths.len() && #[trigger] path_hash_at(t, c, i) != hash40_of(""@)
            ==> writer.path_lookup.contains_key(path_hash_at(t, c, i))
            && writer.path_lookup[path_hash_at(t, c, i)] == t.paths[i]
    &&& forall|hash: u64| #[trigger]
        writer.path_lookup.contains_key(hash) ==> hash != hash40_of(""@) && exists|i: int|
            0 <= i < t.paths.len() && #[trigger] path_hash_at(t, c, i) == hash
}

/// What the lookup that is built from paths in order holds: each hash of a
/// path but that of the empty text, with the number of the last path that
/// has it.
pub proof fn lemma_path_lookup_of(paths: Seq<SearchPath>, upto: nat)
    requires
        upto <= paths.len() <= u32::MAX,
    ensures
        forall|hash: u64| #[trigger]
            path_lookup_of(paths, upto).contains_key(hash) ==> {
                let found = path_lookup_of(paths, upto)[hash].slot;
                &&& hash != hash40_of(""@)
                &&& found < upto
                &&& paths[found as int].full_path.0 == hash
                &&& forall|j: int| found < j < upto ==> paths[j].full_path.0 != hash
            },
        forall|i: int|
            0 <= i < upto && (#[trigger] paths[i]).full_path.0 != hash40_of(""@) ==> path_lookup_of(
                paths,
                upto,
            ).contains_key(paths[i].full_path.0),
    decreases upto,
{
    if upto > 0 {
        lemma_path_lookup_of(paths, (upto - 1) as nat);
        let before = path_lookup_of(paths, (upto - 1) as nat);
        let last = paths[upto - 1].full_path.0;
        assert forall|i: int|
            0 <= i < upto && (#[trigger] paths[i]).full_path.0 != hash40_of(
                ""@,
            ) implies path_lookup_of(paths, upto).contains_key(paths[i].full_path.0) by {
            if i < upto - 1 {
                assert(before.contains_key(paths[i].full_path.0));
            }
        }
        assert forall|hash: u64| #[trigger]
            path_lookup_of(paths, upto).contains_key(hash) implies {
            let found = path_lookup_of(paths, upto)[hash].slot;
            &&& hash != hash40_of(""@)
            &&& found < upto
            &&& paths[found as int].full_path.0 == hash
            &&& forall|j: int| found < j < upto ==> paths[j].full_path.0 != hash
        } by {
            if hash != last || last == hash40_of(""@) {
                assert(before.contains_key(hash));
            }
        }
    }
}

/// The lookups that are built from the records as they are read back have
/// the keys of the lookups that were written.
pub proof fn lemma_numbered_keys(writer: SearchWriterModel, read: SearchCellsView)
    requires
        search_in_order(writer.tables, writer.cells),
        lookups_agree(writer),
        read.folders.len() == writer.tables.folders.len(),
        read.paths.len() == writer.tables.paths.len(),
        forall|i: int|
            0 <= i < read.folders.len() ==> (#[trigger] read.folders[i]).full_path.0
                == folder_hash_at(writer.tables, writer.cells, i),
        forall|i: int|
            0 <= i < read.paths.len() ==> (#[trigger] read.paths[i]).full_path.0 == path_hash_at(
                writer.tables,
                writer.cells,
                i,
            ),
    ensures
        ({
            let folder_entries = ordered(folder_lookup_of(read.folders, read.folders.len()));
            let path_entries = ordered(path_lookup_of(read.paths, read.paths.len()));
            &&& key_bytes(
                folder_entries,
                identity_cells(read.folders.len()),
                folder_entries.len(),
            ) == writer.folder_key_bytes()
            &&& key_bytes(path_entries, identity_cells(read.paths.len()), path_entries.len())
                == writer.path_key_bytes()
        }),
{
    let t = writer.tables;
    let c = writer.cells;
    // The folders.
    {
        let lookup = writer.folder_lookup;
        let other = folder_lookup_of(read.folders, read.folders.len());
        lemma_folder_lookup_of(read.folders, read.folders.len());
        assert forall|i: int| 0 <= i < t.folders.len() implies other.contains_key(
            #[trigger] folder_hash_at(t, c, i),
        ) && other[folder_hash_at(t, c, i)].slot == i by {
            let hash = folder_hash_at(t, c, i);
            assert(read.folders[i].full_path.0 == hash);
            let found = other[hash].slot as int;
            assert(read.folders[found].full_path.0 == folder_hash_at(t, c, found));
            assert(lookup[folder_hash_at(t, c, found)] == t.folders[found]);
            assert(lookup[folder_hash_at(t, c, i)] == t.folders[i]);
            lemma_index_unique(t.folders, found);
            lemma_index_unique(t.folders, i);
        }
        assert forall|hash: u64| #[trigger] lookup.contains_key(hash) implies other.contains_key(
            hash,
        ) && t.folders.contains(lookup[hash]) && other[hash] == place(t.folders, lookup[hash]) by {
            let i = choose|i: int|
                0 <= i < t.folders.len() && #[trigger] folder_hash_at(t, c, i) == hash;
            assert(lookup[hash] == t.folders[i]);
            assert(other[folder_hash_at(t, c, i)].slot == i);
            lemma_index_unique(t.folders, i);
        }
        assert forall|hash: u64| #[trigger] other.contains_key(hash) implies lookup.contains_key(
            hash,
        ) by {
            let found = other[hash].slot as int;
            assert(read.folders[found].full_path.0 == folder_hash_at(t, c, found));
            assert(lookup.contains_key(folder_hash_at(t, c, found)));
        }
        lemma_renamed_keys(lookup, other, t.folders);
    }
    // The paths.
    {
        let lookup = writer.path_lookup;
        let other = path_lookup_of(read.paths, read.paths.len());
        lemma_path_lookup_of(read.paths, read.paths.len());
        assert forall|i: int|
            0 <= i < t.paths.len() && #[trigger] path_hash_at(t, c, i) != hash40_of(
                ""@,
            ) implies other.contains_key(path_hash_at(t, c, i)) && other[path_hash_at(
            t,
            c,
            i,
        )].slot == i by {
            let hash = path_hash_at(t, c, i);
            assert(read.paths[i].full_path.0 == hash);
            let found = other[hash].slot as int;
            assert(read.paths[found].full_path.0 == path_hash_at(t, c, found));
            assert(lookup[path_hash_at(t, c, found)] == t.paths[found]);
            assert(lookup[path_hash_at(t, c, i)] == t.paths[i]);
            lemma_index_unique(t.paths, found);
            lemma_index_unique(t.paths, i);
        }
        assert forall|hash: u64| #[trigger] lookup.contains_key(hash) implies other.contains_key(
            hash,
        ) && t.paths.contains(lookup[hash]) && other[hash] == place(t.paths, lookup[hash]) by {
            let i = choose|i: int|
                0 <= i < t.paths.len() && #[trigger] path_hash_at(t, c, i) == hash;
            assert(lookup[hash] == t.paths[i]);
            assert(other[path_hash_at(t, c, i)].slot == i);
            lemma_index_unique(t.paths, i);
        }
        assert forall|hash: u64| #[trigger] other.contains_key(hash) implies lookup.contains_key(
            hash,
        ) by {
            let found = other[hash].slot as int;
            assert(read.paths[found].full_path.0 == path_hash_at(t, c, found));
            assert(lookup.contains_key(path_hash_at(t, c, found)));
        }
        lemma_renamed_keys(lookup, other, t.paths);
    }
}

/// Writing is settled after one turn. Where rebuilt tables are written as
/// a directory of tables, and the directory is read, resolved, rebuilt and
/// written once more, the second directory is the first, byte for byte.
pub proof fn lemma_search_bytes_settle(folders: Seq<TableCell>, writer: SearchWriterModel)
    requires
        search_reorganized(folders, writer.cells) == Some(writer.tables),
        search_writable(writer.tables, writer.cells),
        search_consistent(writer.tables, writer.cells),
        lookups_agree(writer),
        writer.directory() is Some,
    ensures
        ({
            let directory = writer.directory().unwrap();
            &&& search_directory_cells(directory) matches Some(read)
            &&& fresh_search_model(read).resolution() matches Some(resolved)
            &&& search_reorganized(fresh_search_model(read).tables.folders, resolved) matches Some(
                rebuilt,
            )
            &&& (SearchWriterModel {
                folder_lookup: fresh_search_model(read).folder_lookup,
                path_lookup: fresh_search_model(read).path_lookup,
                tables: rebuilt,
                cells: resolved,
            }).directory() == Some(directory)
        }),
{
    let t = writer.tables;
    let c = writer.cells;
    lemma_rebuilt_in_order(folders, c);
    lemma_search_round_trip(writer);
    lemma_rebuilt_is_canonical(folders, c);
    let directory = writer.directory().unwrap();
    let read = search_directory_cells(directory).unwrap();
    let model = fresh_search_model(read);
    lemma_search_directory_read_back(writer);
    assert(model.tables.folders == identity_cells(folders.len()));
    lemma_numbered_tables_bytes(writer, model.folder_lookup, model.path_lookup);
    lemma_table_bytes_cells(c.paths, t.paths, t.paths.len(), search_path_encoder(t));
    lemma_numbered_keys(writer, read);
}

} // verus!
