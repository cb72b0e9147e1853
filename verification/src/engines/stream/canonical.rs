//! The tables that the walk rebuilds are in their canonical order.
//!
//! Reading such tables back names every cell by its place. Rebuilding the
//! tables that were read back changes nothing: the walk reaches the cells
//! in the order in which they already stand.
use vstd::prelude::*;

use crate::engines::identity_cells;
use crate::engines::packaged::bucket_map::{lists, ordered};
use crate::engines::rounds::{
    distinct, key_bytes, lemma_numbered_index, lemma_numbered_table, lemma_placed_positions,
    lemma_prefix_chain, lemma_prefix_places, lemma_renamed_keys, lemma_table_bytes_cells,
    lemma_table_bytes_same, place, placed_at, prefix, renumbered, walk,
};
use crate::engines::stream::round_trip::{
    folder_settled, lemma_stream_round_trip, stream_writable,
};
use crate::engines::stream::types::StreamPathView;
use crate::engines::stream::{
    fresh_stream_model, stream_directory_cells, stream_folder_encoder, stream_link_encoder,
    stream_lookup_of, stream_metadata_encoder, stream_path_encoder, StreamWriterModel,
};
use crate::engines::stream::round_trip::{
    folders_in_order, lemma_folder_step, lemma_folder_walk, lemma_link_step, lemma_link_walk,
    lemma_path_step, lemma_path_walk, lemma_rebuilt_in_order, link_settled, links_in_order,
    path_settled, paths_in_order, renumbered_cells,
};
use crate::engines::stream::{
    empty_stream_tables, stream_folder_walk, stream_link_walk, stream_path_walk,
    stream_reorganized, with_stream_folder, with_stream_link, with_stream_path, StreamCellsView,
    StreamTables,
};
use crate::engines::table::{position, TableCell};

verus! {

/// The tables of the same lengths that list their cells by number.
pub open spec fn numbered(t: StreamTables) -> StreamTables {
    StreamTables {
        folders: identity_cells(t.folders.len()),
        paths: identity_cells(t.paths.len()),
        links: identity_cells(t.links.len()),
        metadatas: identity_cells(t.metadatas.len()),
    }
}

/// Whether each table of `all` starts with the table of `t`.
pub open spec fn within(t: StreamTables, all: StreamTables) -> bool {
    &&& prefix(t.folders, all.folders)
    &&& prefix(t.paths, all.paths)
    &&& prefix(t.links, all.links)
    &&& prefix(t.metadatas, all.metadatas)
}

/// Whether no table has more cells than a 32-bit index can count.
pub open spec fn countable(t: StreamTables) -> bool {
    &&& t.folders.len() <= u32::MAX
    &&& t.paths.len() <= u32::MAX
    &&& t.links.len() <= u32::MAX
    &&& t.metadatas.len() <= u32::MAX
}

/// Pushing a link onto tables that the rebuilt tables start with is, for
/// the renumbered records, pushing the cell of its place onto the numbered
/// tables.
pub proof fn lemma_numbered_link_step(
    t: StreamTables,
    all: StreamTables,
    c: StreamCellsView,
    cell: TableCell,
)
    requires
        countable(all),
        distinct(all.links),
        distinct(all.metadatas),
        within(t, all),
        links_in_order(t, c),
        with_stream_link(t, c, cell) is Some,
        within(with_stream_link(t, c, cell).unwrap(), all),
    ensures
        with_stream_link(numbered(t), renumbered_cells(all, c), place(all.links, cell)) == Some(
            numbered(with_stream_link(t, c, cell).unwrap()),
        ),
{
    let after = with_stream_link(t, c, cell).unwrap();
    let renamed = renumbered_cells(all, c);
    lemma_link_step(t, c, cell);
    let at = t.links.len() as int;
    assert(after.links[at] == cell);
    assert(all.links[at] == after.links[at]);
    lemma_prefix_places(t.links, all.links, cell);
    lemma_prefix_places(after.links, all.links, cell);
    assert(position(all.links, cell) == at) by {
        let found = position(all.links, cell);
        if found < at {
            assert(all.links[found] != all.links[at]);
        } else if found > at {
            assert(all.links[at] != all.links[found]);
        }
    }
    lemma_numbered_table(t.links.len(), place(all.links, cell));
    let metadata = c.links[cell.slot as int].metadata->Resolved_0;
    assert(all.links[at].slot == cell.slot);
    let mid = StreamTables { links: identity_cells(t.links.len() + 1), ..numbered(t) };
    if t.metadatas.contains(metadata) {
        let k = choose|k: int| 0 <= k < t.metadatas.len() && t.metadatas[k] == metadata;
        assert(all.metadatas[k] == t.metadatas[k]);
        lemma_prefix_places(t.metadatas, all.metadatas, metadata);
        lemma_numbered_table(t.metadatas.len(), place(all.metadatas, metadata));
        assert(mid =~= numbered(after));
    } else {
        let last = t.metadatas.len() as int;
        assert(after.metadatas == t.metadatas.push(metadata));
        assert(after.metadatas[last] == metadata);
        assert(all.metadatas[last] == after.metadatas[last]);
        lemma_prefix_places(t.metadatas, all.metadatas, metadata);
        lemma_prefix_places(after.metadatas, all.metadatas, metadata);
        assert(position(all.metadatas, metadata) == last);
        lemma_numbered_table(t.metadatas.len(), place(all.metadatas, metadata));
        assert(StreamTables { metadatas: identity_cells(t.metadatas.len() + 1), ..mid }
            =~= numbered(after));
    }
}


/// A walk over links, seen on the numbered tables.
pub proof fn lemma_numbered_link_walk(
    t: StreamTables,
    all: StreamTables,
    c: StreamCellsView,
    links: Seq<TableCell>,
    upto: nat,
)
    requires
        upto <= links.len(),
        countable(all),
        distinct(all.links),
        distinct(all.metadatas),
        within(t, all),
        links_in_order(t, c),
        walk(t, links, upto, stream_link_walk(c)) is Some,
        within(walk(t, links, upto, stream_link_walk(c)).unwrap(), all),
    ensures
        walk(
            numbered(t),
            renumbered(all.links, links),
            upto,
            stream_link_walk(renumbered_cells(all, c)),
        ) == Some(numbered(walk(t, links, upto, stream_link_walk(c)).unwrap())),
    decreases upto,
{
    if upto > 0 {
        let before = walk(t, links, (upto - 1) as nat, stream_link_walk(c)).unwrap();
        let after = walk(t, links, upto, stream_link_walk(c)).unwrap();
        lemma_link_walk(t, c, links, (upto - 1) as nat);
        lemma_link_step(before, c, links[upto - 1]);
        assert(prefix(before.links, after.links));
        lemma_prefix_chain(before.links, after.links, all.links);
        lemma_prefix_chain(before.metadatas, after.metadatas, all.metadatas);
        lemma_numbered_link_walk(t, all, c, links, (upto - 1) as nat);
        lemma_numbered_link_step(before, all, c, links[upto - 1]);
        assert(renumbered(all.links, links)[upto - 1] == place(all.links, links[upto - 1]));
    }
}

/// Pushing a path, seen on the numbered tables.
pub proof fn lemma_numbered_path_step(
    t: StreamTables,
    all: StreamTables,
    c: StreamCellsView,
    cell: TableCell,
)
    requires
        countable(all),
        distinct(all.paths),
        distinct(all.links),
        distinct(all.metadatas),
        within(t, all),
        paths_in_order(t, c),
        with_stream_path(t, c, cell) is Some,
        within(with_stream_path(t, c, cell).unwrap(), all),
    ensures
        with_stream_path(numbered(t), renumbered_cells(all, c), place(all.paths, cell)) == Some(
            numbered(with_stream_path(t, c, cell).unwrap()),
        ),
{
    let after = with_stream_path(t, c, cell).unwrap();
    lemma_path_step(t, c, cell);
    let at = t.paths.len() as int;
    assert(after.paths[at] == cell);
    assert(all.paths[at] == after.paths[at]);
    lemma_prefix_places(after.paths, all.paths, cell);
    assert(position(all.paths, cell) == at) by {
        let found = position(all.paths, cell);
        if found < at {
            assert(all.paths[found] != all.paths[at]);
        } else if found > at {
            assert(all.paths[at] != all.paths[found]);
        }
    }
    lemma_numbered_table(t.paths.len(), place(all.paths, cell));
    let t1 = StreamTables { paths: t.paths.push(cell), ..t };
    let links = c.paths[cell.slot as int].links->Resolved_0;
    assert(links_in_order(t1, c)) by {
        assert forall|i: int| 0 <= i < t1.links.len() implies link_settled(
            t1,
            c,
            #[trigger] t1.links[i],
        ) by {
            assert(link_settled(t, c, t.links[i]));
        }
    }
    assert(within(t1, all));
    lemma_numbered_link_walk(t1, all, c, links, links.len());
    assert(numbered(t1) =~= StreamTables {
        paths: identity_cells(t.paths.len() + 1),
        ..numbered(t)
    });
}

/// A walk over paths, seen on the numbered tables.
pub proof fn lemma_numbered_path_walk(
    t: StreamTables,
    all: StreamTables,
    c: StreamCellsView,
    paths: Seq<TableCell>,
    upto: nat,
)
    requires
        upto <= paths.len(),
        countable(all),
        distinct(all.paths),
        distinct(all.links),
        distinct(all.metadatas),
        within(t, all),
        paths_in_order(t, c),
        walk(t, paths, upto, stream_path_walk(c)) is Some,
        within(walk(t, paths, upto, stream_path_walk(c)).unwrap(), all),
    ensures
        walk(
            numbered(t),
            renumbered(all.paths, paths),
            upto,
            stream_path_walk(renumbered_cells(all, c)),
        ) == Some(numbered(walk(t, paths, upto, stream_path_walk(c)).unwrap())),
    decreases upto,
{
    if upto > 0 {
        let before = walk(t, paths, (upto - 1) as nat, stream_path_walk(c)).unwrap();
        let after = walk(t, paths, upto, stream_path_walk(c)).unwrap();
        lemma_path_walk(t, c, paths, (upto - 1) as nat);
        lemma_path_step(before, c, paths[upto - 1]);
        assert(prefix(before.paths, after.paths));
        lemma_prefix_chain(before.paths, after.paths, all.paths);
        lemma_prefix_chain(before.links, after.links, all.links);
        lemma_prefix_chain(before.metadatas, after.metadatas, all.metadatas);
        lemma_numbered_path_walk(t, all, c, paths, (upto - 1) as nat);
        lemma_numbered_path_step(before, all, c, paths[upto - 1]);
        assert(renumbered(all.paths, paths)[upto - 1] == place(all.paths, paths[upto - 1]));
    }
}


/// Pushing a folder, seen on the numbered tables.
pub proof fn lemma_numbered_folder_step(
    t: StreamTables,
    all: StreamTables,
    c: StreamCellsView,
    cell: TableCell,
)
    requires
        countable(all),
        distinct(all.folders),
        distinct(all.paths),
        distinct(all.links),
        distinct(all.metadatas),
        within(t, all),
        folders_in_order(t, c),
        with_stream_folder(t, c, cell) is Some,
        within(with_stream_folder(t, c, cell).unwrap(), all),
    ensures
        with_stream_folder(numbered(t), renumbered_cells(all, c), place(all.folders, cell))
            == Some(numbered(with_stream_folder(t, c, cell).unwrap())),
{
    let after = with_stream_folder(t, c, cell).unwrap();
    lemma_folder_step(t, c, cell);
    let at = t.folders.len() as int;
    assert(after.folders[at] == cell);
    assert(all.folders[at] == after.folders[at]);
    lemma_prefix_places(after.folders, all.folders, cell);
    assert(position(all.folders, cell) == at) by {
        let found = position(all.folders, cell);
        if found < at {
            assert(all.folders[found] != all.folders[at]);
        } else if found > at {
            assert(all.folders[at] != all.folders[found]);
        }
    }
    lemma_numbered_table(t.folders.len(), place(all.folders, cell));
    let t1 = StreamTables { folders: t.folders.push(cell), ..t };
    let paths = c.folders[cell.slot as int].paths->Resolved_0;
    assert(paths_in_order(t1, c)) by {
        assert forall|i: int| 0 <= i < t1.links.len() implies link_settled(
            t1,
            c,
            #[trigger] t1.links[i],
        ) by {
            assert(link_settled(t, c, t.links[i]));
        }
        assert forall|i: int| 0 <= i < t1.paths.len() implies path_settled(
            t1,
            c,
            #[trigger] t1.paths[i],
        ) by {
            assert(path_settled(t, c, t.paths[i]));
        }
    }
    assert(within(t1, all));
    lemma_numbered_path_walk(t1, all, c, paths, paths.len());
    assert(numbered(t1) =~= StreamTables {
        folders: identity_cells(t.folders.len() + 1),
        ..numbered(t)
    });
}

/// A walk over folders, seen on the numbered tables.
pub proof fn lemma_numbered_folder_walk(
    t: StreamTables,
    all: StreamTables,
    c: StreamCellsView,
    folders: Seq<TableCell>,
    upto: nat,
)
    requires
        upto <= folders.len(),
        countable(all),
        distinct(all.folders),
        distinct(all.paths),
        distinct(all.links),
        distinct(all.metadatas),
        within(t, all),
        folders_in_order(t, c),
        walk(t, folders, upto, stream_folder_walk(c)) is Some,
        within(walk(t, folders, upto, stream_folder_walk(c)).unwrap(), all),
    ensures
        walk(
            numbered(t),
            renumbered(all.folders, folders),
            upto,
            stream_folder_walk(renumbered_cells(all, c)),
        ) == Some(numbered(walk(t, folders, upto, stream_folder_walk(c)).unwrap())),
    decreases upto,
{
    if upto > 0 {
        let before = walk(t, folders, (upto - 1) as nat, stream_folder_walk(c)).unwrap();
        let after = walk(t, folders, upto, stream_folder_walk(c)).unwrap();
        lemma_folder_walk(t, c, folders, (upto - 1) as nat);
        lemma_folder_step(before, c, folders[upto - 1]);
        assert(prefix(before.folders, after.folders));
        lemma_prefix_chain(before.folders, after.folders, all.folders);
        lemma_prefix_chain(before.paths, after.paths, all.paths);
        lemma_prefix_chain(before.links, after.links, all.links);
        lemma_prefix_chain(before.metadatas, after.metadatas, all.metadatas);
        lemma_numbered_folder_walk(t, all, c, folders, (upto - 1) as nat);
        lemma_numbered_folder_step(before, all, c, folders[upto - 1]);
        assert(renumbered(all.folders, folders)[upto - 1] == place(
            all.folders,
            folders[upto - 1],
        ));
    }
}

/// Rebuilding is settled after one turn: for the records of rebuilt tables,
/// named by their places, the walk over the folders in their order gives
/// the tables that list every cell by its number.
pub proof fn lemma_rebuilt_is_canonical(folders: Seq<TableCell>, c: StreamCellsView)
    requires
        stream_reorganized(folders, c) is Some,
    ensures
        ({
            let tables = stream_reorganized(folders, c).unwrap();
            stream_reorganized(identity_cells(folders.len()), renumbered_cells(tables, c)) == Some(
                numbered(tables),
            )
        }),
{
    let tables = stream_reorganized(folders, c).unwrap();
    lemma_rebuilt_in_order(folders, c);
    assert(within(empty_stream_tables(), tables));
    lemma_numbered_folder_walk(empty_stream_tables(), tables, c, folders, folders.len());
    assert(identity_cells(0) =~= Seq::<TableCell>::empty());
    assert(numbered(empty_stream_tables()) == empty_stream_tables());
    assert(renumbered(tables.folders, folders) =~= identity_cells(folders.len())) by {
        assert(placed_at(tables.folders, folders, 0));
        lemma_placed_positions(tables.folders, folders, 0);
    }
}


/// The renumbered records of tables in order have the bytes of the
/// records themselves, table by table.
pub proof fn lemma_numbered_tables_bytes(writer: StreamWriterModel, lookup: Map<u64, TableCell>)
    requires
        folders_in_order(writer.tables, writer.cells),
        forall|i: int|
            0 <= i < writer.tables.metadatas.len() ==> (#[trigger] writer.tables.metadatas[i]).slot
                < writer.cells.metadatas.len(),
    ensures
        ({
            let other = StreamWriterModel {
                path_lookup: lookup,
                tables: numbered(writer.tables),
                cells: renumbered_cells(writer.tables, writer.cells),
            };
            &&& other.folder_bytes() == writer.folder_bytes()
            &&& other.path_bytes() == writer.path_bytes()
            &&& other.link_bytes() == writer.link_bytes()
            &&& other.metadata_bytes() == writer.metadata_bytes()
        }),
{
    let t = writer.tables;
    let c = writer.cells;
    let renamed = renumbered_cells(t, c);
    let numbers = numbered(t);
    assert forall|i: int| 0 <= i < t.folders.len() implies (#[trigger] t.folders[i]).slot
        < c.folders.len() && numbers.folders[i].slot < renamed.folders.len()
        && stream_folder_encoder(t)(c.folders[t.folders[i].slot as int], i)
        == stream_folder_encoder(numbers)(renamed.folders[numbers.folders[i].slot as int], i) by {
        assert(folder_settled(t, c, t.folders[i]));
        let cells = c.folders[t.folders[i].slot as int].paths.cells();
        if cells.len() > 0 {
            let start = choose|start: int| #[trigger] placed_at(t.paths, cells, start);
            assert(t.paths[start + 0] == cells[0]);
            lemma_numbered_index(t.paths, cells[0]);
            assert(renumbered(t.paths, cells)[0] == place(t.paths, cells[0]));
        }
    }
    lemma_table_bytes_same(
        c.folders,
        t.folders,
        stream_folder_encoder(t),
        renamed.folders,
        numbers.folders,
        stream_folder_encoder(numbers),
        t.folders.len(),
    );
    assert forall|i: int| 0 <= i < t.paths.len() implies (#[trigger] t.paths[i]).slot
        < c.paths.len() && numbers.paths[i].slot < renamed.paths.len() && stream_path_encoder(t)(
        c.paths[t.paths[i].slot as int],
        i,
    ) == stream_path_encoder(numbers)(renamed.paths[numbers.paths[i].slot as int], i) by {
        assert(path_settled(t, c, t.paths[i]));
        let cells = c.paths[t.paths[i].slot as int].links.cells();
        if cells.len() > 0 {
            let start = choose|start: int| #[trigger] placed_at(t.links, cells, start);
            assert(t.links[start + 0] == cells[0]);
            lemma_numbered_index(t.links, cells[0]);
            assert(renumbered(t.links, cells)[0] == place(t.links, cells[0]));
        }
    }
    lemma_table_bytes_same(
        c.paths,
        t.paths,
        stream_path_encoder(t),
        renamed.paths,
        numbers.paths,
        stream_path_encoder(numbers),
        t.paths.len(),
    );
    assert forall|i: int| 0 <= i < t.links.len() implies (#[trigger] t.links[i]).slot
        < c.links.len() && numbers.links[i].slot < renamed.links.len() && stream_link_encoder(t)(
        c.links[t.links[i].slot as int],
        i,
    ) == stream_link_encoder(numbers)(renamed.links[numbers.links[i].slot as int], i) by {
        assert(link_settled(t, c, t.links[i]));
        let metadata = c.links[t.links[i].slot as int].metadata->Resolved_0;
        lemma_numbered_index(t.metadatas, metadata);
    }
    lemma_table_bytes_same(
        c.links,
        t.links,
        stream_link_encoder(t),
        renamed.links,
        numbers.links,
        stream_link_encoder(numbers),
        t.links.len(),
    );
    assert forall|i: int| 0 <= i < t.metadatas.len() implies (#[trigger] t.metadatas[i]).slot
        < c.metadatas.len() && numbers.metadatas[i].slot < renamed.metadatas.len()
        && stream_metadata_encoder()(c.metadatas[t.metadatas[i].slot as int], i)
        == stream_metadata_encoder()(renamed.metadatas[numbers.metadatas[i].slot as int], i) by {}
    lemma_table_bytes_same(
        c.metadatas,
        t.metadatas,
        stream_metadata_encoder(),
        renamed.metadatas,
        numbers.metadatas,
        stream_metadata_encoder(),
        t.metadatas.len(),
    );
}


/// The hash of the path at a place of the table of paths.
pub open spec fn hash_at(t: StreamTables, c: StreamCellsView, i: int) -> u64 {
    c.paths[t.paths[i].slot as int].full_path.0
}

/// Whether the lookup of the paths agrees with the table of paths: it has
/// a list of its pairs, every path of the table is found by its hash, and
/// nothing else is found.
pub open spec fn lookup_agrees(writer: StreamWriterModel) -> bool {
    let t = writer.tables;
    let c = writer.cells;
    &&& lists(ordered(writer.path_lookup), writer.path_lookup)
    &&& forall|i: int|
        0 <= i < t.paths.len() ==> writer.path_lookup.contains_key(#[trigger] hash_at(t, c, i))
            && writer.path_lookup[hash_at(t, c, i)] == t.paths[i]
    &&& forall|hash: u64| #[trigger]
        writer.path_lookup.contains_key(hash) ==> exists|i: int|
            0 <= i < t.paths.len() && #[trigger] hash_at(t, c, i) == hash
}

/// What the lookup that is built from paths in order holds: each hash of a
/// path, with the number of the last path that has it.
pub proof fn lemma_lookup_of(paths: Seq<StreamPathView>, upto: nat)
    requires
        upto <= paths.len() <= u32::MAX,
    ensures
        forall|hash: u64| #[trigger]
            stream_lookup_of(paths, upto).contains_key(hash) ==> {
                let found = stream_lookup_of(paths, upto)[hash].slot;
                &&& found < upto
                &&& paths[found as int].full_path.0 == hash
                &&& forall|j: int| found < j < upto ==> paths[j].full_path.0 != hash
            },
        forall|i: int|
            0 <= i < upto ==> stream_lookup_of(paths, upto).contains_key(
                #[trigger] paths[i].full_path.0,
            ),
    decreases upto,
{
    if upto > 0 {
        lemma_lookup_of(paths, (upto - 1) as nat);
        let before = stream_lookup_of(paths, (upto - 1) as nat);
        let last = paths[upto - 1].full_path.0;
        assert forall|i: int| 0 <= i < upto implies stream_lookup_of(paths, upto).contains_key(
            #[trigger] paths[i].full_path.0,
        ) by {
            if i < upto - 1 {
                assert(before.contains_key(paths[i].full_path.0));
            }
        }
        assert forall|hash: u64| #[trigger]
            stream_lookup_of(paths, upto).contains_key(hash) implies {
            let found = stream_lookup_of(paths, upto)[hash].slot;
            &&& found < upto
            &&& paths[found as int].full_path.0 == hash
            &&& forall|j: int| found < j < upto ==> paths[j].full_path.0 != hash
        } by {
            if hash != last {
                assert(before.contains_key(hash));
            }
        }
    }
}


/// The lookup that is built from the paths as they are read back has the
/// keys of the lookup that was written.
pub proof fn lemma_numbered_keys(writer: StreamWriterModel, read: Seq<StreamPathView>)
    requires
        paths_in_order(writer.tables, writer.cells),
        lookup_agrees(writer),
        read.len() == writer.tables.paths.len(),
        forall|i: int|
            0 <= i < read.len() ==> (#[trigger] read[i]).full_path.0 == hash_at(
                writer.tables,
                writer.cells,
                i,
            ),
    ensures
        ({
            let entries = ordered(stream_lookup_of(read, read.len()));
            key_bytes(entries, identity_cells(read.len()), entries.len())
                == writer.path_key_bytes()
        }),
{
    let t = writer.tables;
    let c = writer.cells;
    let lookup = writer.path_lookup;
    let other = stream_lookup_of(read, read.len());
    lemma_lookup_of(read, read.len());
    // Each path is found in the new lookup under its own number.
    assert forall|i: int| 0 <= i < t.paths.len() implies other.contains_key(hash_at(t, c, i))
        && other[hash_at(t, c, i)].slot == i && position(t.paths, #[trigger] t.paths[i]) == i by {
        let hash = hash_at(t, c, i);
        assert(read[i].full_path.0 == hash);
        assert(other.contains_key(hash));
        let found = other[hash].slot as int;
        assert(read[found].full_path.0 == hash_at(t, c, found));
        assert(lookup[hash_at(t, c, found)] == t.paths[found]);
        assert(lookup[hash_at(t, c, i)] == t.paths[i]);
        if found < i {
            assert(t.paths[found] != t.paths[i]);
        } else if found > i {
            assert(t.paths[i] != t.paths[found]);
        }
        let at = position(t.paths, t.paths[i]);
        assert(0 <= at < t.paths.len() && t.paths[at] == t.paths[i]);
        if at < i {
            assert(t.paths[at] != t.paths[i]);
        } else if at > i {
            assert(t.paths[i] != t.paths[at]);
        }
    }
    assert forall|hash: u64| #[trigger] lookup.contains_key(hash) implies other.contains_key(hash)
        && t.paths.contains(lookup[hash]) && other[hash] == place(t.paths, lookup[hash]) by {
        let i = choose|i: int| 0 <= i < t.paths.len() && #[trigger] hash_at(t, c, i) == hash;
        assert(lookup[hash] == t.paths[i]);
        assert(other[hash_at(t, c, i)].slot == i);
        assert(position(t.paths, t.paths[i]) == i);
    }
    assert forall|hash: u64| #[trigger] other.contains_key(hash) implies lookup.contains_key(
        hash,
    ) by {
        let found = other[hash].slot as int;
        assert(read[found].full_path.0 == hash_at(t, c, found));
        assert(lookup.contains_key(hash_at(t, c, found)));
    }
    lemma_renamed_keys(lookup, other, t.paths);
}

/// Writing is settled after one turn. Where rebuilt tables are written as
/// a directory of tables, and the directory is read, resolved, rebuilt and
/// written once more, the second directory is the first, byte for byte.
pub proof fn lemma_stream_bytes_settle(folders: Seq<TableCell>, writer: StreamWriterModel)
    requires
        stream_reorganized(folders, writer.cells) == Some(writer.tables),
        stream_writable(writer.tables, writer.cells),
        lookup_agrees(writer),
        writer.directory() is Some,
    ensures
        ({
            let directory = writer.directory().unwrap();
            &&& stream_directory_cells(directory) matches Some(read)
            &&& fresh_stream_model(read).resolution() matches Some(resolved)
            &&& stream_reorganized(fresh_stream_model(read).tables.folders, resolved) matches Some(
                rebuilt,
            )
            &&& (StreamWriterModel {
                path_lookup: fresh_stream_model(read).path_lookup,
                tables: rebuilt,
                cells: resolved,
            }).directory() == Some(directory)
        }),
{
    let t = writer.tables;
    let c = writer.cells;
    lemma_rebuilt_in_order(folders, c);
    lemma_stream_round_trip(writer);
    lemma_rebuilt_is_canonical(folders, c);
    let directory = writer.directory().unwrap();
    let read = stream_directory_cells(directory).unwrap();
    let model = fresh_stream_model(read);
    crate::engines::stream::round_trip::lemma_stream_directory_read_back(writer);
    assert(model.tables.folders == identity_cells(folders.len()));
    lemma_table_bytes_cells(c.metadatas, t.metadatas, t.metadatas.len(), stream_metadata_encoder());
    lemma_numbered_tables_bytes(writer, model.path_lookup);
    lemma_numbered_keys(writer, read.paths);
}

} // verus!
