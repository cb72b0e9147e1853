//! Writing the stream filesystem and reading it back.
//!
//! The tables that the walk rebuilds hold the paths of each folder in a row
//! and the links of each path in a row. So the ranges that are written for
//! them name exactly the cells that they had, and reading the tables back
//! and resolving them gives the records that were written, with every cell
//! named by its place in its table.
use vstd::prelude::*;

use crate::bytes::{lemma_record_fields, quad_at, word_at};
use crate::engines::round_trip::{
    in_table_order, lemma_index_in, lemma_key_halves, lemma_stream_metadata_round_trip,
    lemma_stream_path_round_trip, lemma_table_round_trip, lemma_whole_table, reads_back,
    stream_link_read,
};
use crate::engines::rounds::{
    distinct, index_in, lemma_pass_in_order, lemma_placed_positions, lemma_placed_prefix,
    lemma_pushed, placed, placed_at, prefix, renumbered, stepped, table_bytes, walk,
};
use crate::engines::stream::types::{
    StreamFolder, StreamFolderView, StreamLink, StreamMetadata, StreamPath, StreamPathView,
};
use crate::engines::stream::{
    fresh_stream_model, stream_directory_cells, stream_folder_encoder, stream_folder_step,
    stream_link_encoder, stream_link_step, stream_metadata_encoder, stream_path_encoder,
    stream_path_step, StreamWriterModel,
};
use crate::engines::table::span;
use crate::engines::{identity_cells, whole_table, HashKey, TableRecord};
use crate::INVALID_INDEX;
use crate::engines::stream::{
    empty_stream_tables, stream_folder_walk, stream_link_walk, stream_path_walk,
    stream_reorganized, with_stream_folder, with_stream_link, with_stream_path, StreamCellsView,
    StreamTables,
};
use crate::engines::table::{position, ReferenceSetView, TableCell, TableReference};

verus! {

/// Whether the link in `cell` has a record and a metadata that the tables
/// hold.
pub open spec fn link_settled(t: StreamTables, c: StreamCellsView, cell: TableCell) -> bool {
    &&& cell.slot < c.links.len()
    &&& c.links[cell.slot as int].metadata matches TableReference::Resolved(metadata)
        && t.metadatas.contains(metadata)
}

/// Whether the path in `cell` has a record and links that the tables hold in
/// a row.
pub open spec fn path_settled(t: StreamTables, c: StreamCellsView, cell: TableCell) -> bool {
    &&& cell.slot < c.paths.len()
    &&& c.paths[cell.slot as int].links matches ReferenceSetView::Resolved(links) && placed(
        t.links,
        links,
    )
}

/// Whether the folder in `cell` has a record and paths that the tables hold
/// in a row.
pub open spec fn folder_settled(t: StreamTables, c: StreamCellsView, cell: TableCell) -> bool {
    &&& cell.slot < c.folders.len()
    &&& c.folders[cell.slot as int].paths matches ReferenceSetView::Resolved(paths) && placed(
        t.paths,
        paths,
    )
}

/// Whether the links and the metadatas of the tables are in order: no cell
/// twice, no more cells than a 32-bit index can count, and every link
/// settled.
pub open spec fn links_in_order(t: StreamTables, c: StreamCellsView) -> bool {
    &&& distinct(t.links)
    &&& distinct(t.metadatas)
    &&& t.links.len() <= u32::MAX
    &&& t.metadatas.len() <= u32::MAX
    &&& forall|i: int| 0 <= i < t.links.len() ==> link_settled(t, c, #[trigger] t.links[i])
}

/// Whether the paths of the tables are in order as well.
pub open spec fn paths_in_order(t: StreamTables, c: StreamCellsView) -> bool {
    &&& links_in_order(t, c)
    &&& distinct(t.paths)
    &&& t.paths.len() <= u32::MAX
    &&& forall|i: int| 0 <= i < t.paths.len() ==> path_settled(t, c, #[trigger] t.paths[i])
}

/// Whether the folders of the tables are in order as well.
pub open spec fn folders_in_order(t: StreamTables, c: StreamCellsView) -> bool {
    &&& paths_in_order(t, c)
    &&& distinct(t.folders)
    &&& t.folders.len() <= u32::MAX
    &&& forall|i: int| 0 <= i < t.folders.len() ==> folder_settled(t, c, #[trigger] t.folders[i])
}

/// What pushing a link does: the link is the last of the links, the
/// metadatas are extended, nothing else changes, and the tables stay in
/// order.
pub proof fn lemma_link_step(t: StreamTables, c: StreamCellsView, cell: TableCell)
    requires
        links_in_order(t, c),
        with_stream_link(t, c, cell) is Some,
    ensures
        ({
            let after = with_stream_link(t, c, cell).unwrap();
            &&& links_in_order(after, c)
            &&& after.links == t.links.push(cell)
            &&& prefix(t.metadatas, after.metadatas)
            &&& after.paths == t.paths
            &&& after.folders == t.folders
        }),
{
    let after = with_stream_link(t, c, cell).unwrap();
    lemma_pushed(t.links, cell);
    let metadata = c.links[cell.slot as int].metadata->Resolved_0;
    if !t.metadatas.contains(metadata) {
        lemma_pushed(t.metadatas, metadata);
        assert(after.metadatas == t.metadatas.push(metadata));
        assert(after.metadatas[t.metadatas.len() as int] == metadata);
    }
    assert forall|i: int| 0 <= i < after.links.len() implies link_settled(
        after,
        c,
        #[trigger] after.links[i],
    ) by {
        if i < t.links.len() {
            assert(after.links[i] == t.links[i]);
            assert(link_settled(t, c, t.links[i]));
            let m = c.links[t.links[i].slot as int].metadata->Resolved_0;
            let at = choose|at: int| 0 <= at < t.metadatas.len() && t.metadatas[at] == m;
            assert(after.metadatas[at] == m);
        }
    }
}

/// What a walk over links does: the links are extended by the links of the
/// walk, the metadatas are extended, nothing else changes, and the tables
/// stay in order.
pub proof fn lemma_link_walk(t: StreamTables, c: StreamCellsView, links: Seq<TableCell>, upto: nat)
    requires
        upto <= links.len(),
        links_in_order(t, c),
        walk(t, links, upto, stream_link_walk(c)) is Some,
    ensures
        ({
            let after = walk(t, links, upto, stream_link_walk(c)).unwrap();
            &&& links_in_order(after, c)
            &&& after.links == t.links + links.subrange(0, upto as int)
            &&& prefix(t.metadatas, after.metadatas)
            &&& after.paths == t.paths
            &&& after.folders == t.folders
        }),
    decreases upto,
{
    if upto == 0 {
        assert(t.links + links.subrange(0, 0) =~= t.links);
    } else {
        lemma_link_walk(t, c, links, (upto - 1) as nat);
        let before = walk(t, links, (upto - 1) as nat, stream_link_walk(c)).unwrap();
        lemma_link_step(before, c, links[upto - 1]);
        let after = walk(t, links, upto, stream_link_walk(c)).unwrap();
        assert(after.links =~= t.links + links.subrange(0, upto as int));
    }
}

/// What pushing a path does: the path is the last of the paths, its links
/// are the last of the links, nothing of the folders changes, and the tables
/// stay in order.
pub proof fn lemma_path_step(t: StreamTables, c: StreamCellsView, cell: TableCell)
    requires
        paths_in_order(t, c),
        with_stream_path(t, c, cell) is Some,
    ensures
        ({
            let after = with_stream_path(t, c, cell).unwrap();
            &&& paths_in_order(after, c)
            &&& after.paths == t.paths.push(cell)
            &&& prefix(t.links, after.links)
            &&& prefix(t.metadatas, after.metadatas)
            &&& after.folders == t.folders
        }),
{
    let after = with_stream_path(t, c, cell).unwrap();
    lemma_pushed(t.paths, cell);
    let t1 = StreamTables { paths: t.paths.push(cell), ..t };
    let links = c.paths[cell.slot as int].links->Resolved_0;
    assert(links_in_order(t1, c)) by {
        assert forall|i: int| 0 <= i < t1.links.len() implies link_settled(
            t1,
            c,
            #[trigger] t1.links[i],
        ) by {
            assert(link_settled(t, c, t.links[i]));
        }
    }
    lemma_link_walk(t1, c, links, links.len());
    assert(links.subrange(0, links.len() as int) =~= links);
    assert(after.links == t.links + links);
    assert(placed_at(after.links, links, t.links.len() as int));
    assert forall|i: int| 0 <= i < after.paths.len() implies path_settled(
        after,
        c,
        #[trigger] after.paths[i],
    ) by {
        if i < t.paths.len() {
            assert(after.paths[i] == t.paths[i]);
            assert(path_settled(t, c, t.paths[i]));
            lemma_placed_prefix(
                t.links,
                after.links,
                c.paths[t.paths[i].slot as int].links->Resolved_0,
            );
        }
    }
}

/// What a walk over paths does: the paths are extended by the paths of the
/// walk, nothing of the folders changes, and the tables stay in order.
pub proof fn lemma_path_walk(t: StreamTables, c: StreamCellsView, paths: Seq<TableCell>, upto: nat)
    requires
        upto <= paths.len(),
        paths_in_order(t, c),
        walk(t, paths, upto, stream_path_walk(c)) is Some,
    ensures
        ({
            let after = walk(t, paths, upto, stream_path_walk(c)).unwrap();
            &&& paths_in_order(after, c)
            &&& after.paths == t.paths + paths.subrange(0, upto as int)
            &&& prefix(t.links, after.links)
            &&& prefix(t.metadatas, after.metadatas)
            &&& after.folders == t.folders
        }),
    decreases upto,
{
    if upto == 0 {
        assert(t.paths + paths.subrange(0, 0) =~= t.paths);
    } else {
        lemma_path_walk(t, c, paths, (upto - 1) as nat);
        let before = walk(t, paths, (upto - 1) as nat, stream_path_walk(c)).unwrap();
        lemma_path_step(before, c, paths[upto - 1]);
        let after = walk(t, paths, upto, stream_path_walk(c)).unwrap();
        assert(after.paths =~= t.paths + paths.subrange(0, upto as int));
        assert forall|i: int| 0 <= i < t.metadatas.len() implies #[trigger] after.metadatas[i]
            == t.metadatas[i] by {
            assert(before.metadatas[i] == t.metadatas[i]);
        }
    }
}

/// What pushing a folder does: the folder is the last of the folders, its
/// paths are the last of the paths, and the tables stay in order.
pub proof fn lemma_folder_step(t: StreamTables, c: StreamCellsView, cell: TableCell)
    requires
        folders_in_order(t, c),
        with_stream_folder(t, c, cell) is Some,
    ensures
        ({
            let after = with_stream_folder(t, c, cell).unwrap();
            &&& folders_in_order(after, c)
            &&& after.folders == t.folders.push(cell)
            &&& prefix(t.paths, after.paths)
            &&& prefix(t.links, after.links)
            &&& prefix(t.metadatas, after.metadatas)
        }),
{
    let after = with_stream_folder(t, c, cell).unwrap();
    lemma_pushed(t.folders, cell);
    let t1 = StreamTables { folders: t.folders.push(cell), ..t };
    let paths = c.folders[cell.slot as int].paths->Resolved_0;
    assert(paths_in_order(t1, c)) by {
        assert forall|i: int| 0 <= i < t1.links.len() implies link_settled(
            t1,
            c,
            #[trigger] t1.links[i],
        ) by {
            assert(link_settled(t, c, t.links[i]));
        }
        assert forall|i: int| 0 <= i < t1.paths.len() implies path_settled(
            t1,
            c,
            #[trigger] t1.paths[i],
        ) by {
            assert(path_settled(t, c, t.paths[i]));
        }
    }
    lemma_path_walk(t1, c, paths, paths.len());
    assert(paths.subrange(0, paths.len() as int) =~= paths);
    assert(after.paths == t.paths + paths);
    assert(placed_at(after.paths, paths, t.paths.len() as int));
    assert forall|i: int| 0 <= i < after.folders.len() implies folder_settled(
        after,
        c,
        #[trigger] after.folders[i],
    ) by {
        if i < t.folders.len() {
            assert(after.folders[i] == t.folders[i]);
            assert(folder_settled(t, c, t.folders[i]));
            lemma_placed_prefix(
                t.paths,
                after.paths,
                c.folders[t.folders[i].slot as int].paths->Resolved_0,
            );
        }
    }
}

/// A walk over folders keeps the tables in order.
pub proof fn lemma_folder_walk(
    t: StreamTables,
    c: StreamCellsView,
    folders: Seq<TableCell>,
    upto: nat,
)
    requires
        upto <= folders.len(),
        folders_in_order(t, c),
        walk(t, folders, upto, stream_folder_walk(c)) is Some,
    ensures
        ({
            let after = walk(t, folders, upto, stream_folder_walk(c)).unwrap();
            &&& folders_in_order(after, c)
            &&& after.folders == t.folders + folders.subrange(0, upto as int)
        }),
    decreases upto,
{
    if upto == 0 {
        assert(t.folders + folders.subrange(0, 0) =~= t.folders);
    } else {
        lemma_folder_walk(t, c, folders, (upto - 1) as nat);
        let before = walk(t, folders, (upto - 1) as nat, stream_folder_walk(c)).unwrap();
        lemma_folder_step(before, c, folders[upto - 1]);
        let after = walk(t, folders, upto, stream_folder_walk(c)).unwrap();
        assert(after.folders =~= t.folders + folders.subrange(0, upto as int));
    }
}

/// The tables that the walk rebuilds are in order: no cell occurs twice,
/// the paths of each folder and the links of each path stand in a row, and
/// the metadata of each link is in its table.
pub proof fn lemma_rebuilt_in_order(folders: Seq<TableCell>, c: StreamCellsView)
    requires
        stream_reorganized(folders, c) is Some,
    ensures
        folders_in_order(stream_reorganized(folders, c).unwrap(), c),
        stream_reorganized(folders, c).unwrap().folders == folders,
{
    lemma_folder_walk(empty_stream_tables(), c, folders, folders.len());
    assert(Seq::<TableCell>::empty() + folders.subrange(0, folders.len() as int) =~= folders);
}


/// Where a set of cells starts in a table: at the place of its first cell,
/// and at zero where it has none.
pub open spec fn start_of(table: Seq<TableCell>, cells: Seq<TableCell>) -> usize {
    if cells.len() == 0 {
        0
    } else {
        position(table, cells[0]) as usize
    }
}

/// How many links a path has by its flags.
pub open spec fn links_by_flags(path: StreamPathView) -> usize {
    if path.is_localized {
        14
    } else if path.is_regional {
        5
    } else {
        1
    }
}

/// How a folder is read back: with the range of its paths.
pub open spec fn stream_folder_read(t: StreamTables) -> spec_fn(
    StreamFolderView,
    int,
) -> StreamFolderView {
    |record: StreamFolderView, i: int|
        StreamFolderView {
            name: record.name,
            paths: ReferenceSetView::Unresolved(
                span(
                    start_of(t.paths, record.paths.cells()),
                    record.paths.cells().len() as usize,
                ),
            ),
        }
}

/// How a path is read back: with the range of its links, whose length its
/// flags give.
pub open spec fn stream_path_read(t: StreamTables) -> spec_fn(StreamPathView, int) -> StreamPathView {
    |record: StreamPathView, i: int|
        StreamPathView {
            links: ReferenceSetView::Unresolved(
                span(start_of(t.links, record.links.cells()), links_by_flags(record)),
            ),
            ..record
        }
}

/// The records of the rebuilt tables in the order of the tables, with every
/// cell named by its place in its table.
pub open spec fn renumbered_cells(t: StreamTables, c: StreamCellsView) -> StreamCellsView {
    StreamCellsView {
        folders: Seq::new(
            t.folders.len(),
            |i: int|
                {
                    let record = c.folders[t.folders[i].slot as int];
                    StreamFolderView {
                        name: record.name,
                        paths: ReferenceSetView::Resolved(
                            renumbered(t.paths, record.paths.cells()),
                        ),
                    }
                },
        ),
        paths: Seq::new(
            t.paths.len(),
            |i: int|
                {
                    let record = c.paths[t.paths[i].slot as int];
                    StreamPathView {
                        links: ReferenceSetView::Resolved(renumbered(t.links, record.links.cells())),
                        ..record
                    }
                },
        ),
        links: Seq::new(
            t.links.len(),
            |i: int|
                StreamLink {
                    metadata: TableReference::Resolved(
                        TableCell {
                            slot: position(
                                t.metadatas,
                                c.links[t.links[i].slot as int].metadata->Resolved_0,
                            ) as u64,
                        },
                    ),
                },
        ),
        metadatas: Seq::new(t.metadatas.len(), |i: int| c.metadatas[t.metadatas[i].slot as int]),
    }
}

/// Whether the records of the tables can be written so that they are read
/// back: every table is shorter than the invalid index, every hash fits 40
/// bits, and every path has as many links as its flags say and is not both
/// localized and regional.
pub open spec fn stream_writable(t: StreamTables, c: StreamCellsView) -> bool {
    &&& t.folders.len() < INVALID_INDEX
    &&& t.paths.len() < INVALID_INDEX
    &&& t.links.len() < INVALID_INDEX
    &&& t.metadatas.len() < INVALID_INDEX
    &&& forall|i: int|
        0 <= i < t.folders.len() ==> c.folders[(#[trigger] t.folders[i]).slot as int].name.is_valid()
    &&& forall|i: int|
        0 <= i < t.paths.len() ==> {
            let record = c.paths[(#[trigger] t.paths[i]).slot as int];
            &&& record.full_path.is_valid()
            &&& !(record.is_localized && record.is_regional)
            &&& record.links.cells().len() == links_by_flags(record)
        }
}

/// A folder that is written against a table of paths that holds its paths
/// in a row is read back with the range of its paths.
pub proof fn lemma_stream_folder_round_trip(
    record: StreamFolderView,
    t: StreamTables,
    before: Seq<u8>,
    after: Seq<u8>,
)
    requires
        t.paths.len() < INVALID_INDEX,
        record.name.is_valid(),
        record.paths is Resolved,
        record.paths.cells().len() <= t.paths.len(),
        record.encoded(t.paths) is Some,
    ensures
        record.encoded(t.paths).unwrap().len() == StreamFolder::width(),
        StreamFolder::decoded(before + record.encoded(t.paths).unwrap() + after, before.len() as int)
            == Some(stream_folder_read(t)(record, 0)),
{
    let cells = record.paths.cells();
    let start: u32 = if cells.len() == 0 {
        0
    } else {
        index_in(t.paths, cells[0]).unwrap()
    };
    if cells.len() > 0 {
        lemma_index_in(t.paths, cells[0]);
    }
    lemma_key_halves(record.name, cells.len() as usize);
    lemma_record_fields(before, seq![HashKey::pack(record.name, cells.len() as usize).0], seq![start], after);
    let all = before + record.encoded(t.paths).unwrap() + after;
    assert(quad_at(all, before.len() as int, 0) == HashKey::pack(record.name, cells.len() as usize).0);
    assert(word_at(all, before.len() as int, 1, 0) == start);
}

/// How a metadata is read back: as it is.
pub open spec fn stream_metadata_read() -> spec_fn(StreamMetadata, int) -> StreamMetadata {
    |record: StreamMetadata, i: int| record
}

/// Every folder of the tables, written anywhere, is read back with the
/// range of its paths.
pub proof fn lemma_folders_read_back(t: StreamTables, c: StreamCellsView)
    requires
        folders_in_order(t, c),
        stream_writable(t, c),
    ensures
        reads_back::<StreamFolder>(
            c.folders,
            t.folders,
            t.folders.len(),
            stream_folder_encoder(t),
            stream_folder_read(t),
        ),
{
    let encode = stream_folder_encoder(t);
    let read = stream_folder_read(t);
    assert forall|i: int, before: Seq<u8>, after: Seq<u8>|
        0 <= i < t.folders.len() && encode(c.folders[t.folders[i].slot as int], i)
            is Some implies encode(c.folders[t.folders[i].slot as int], i).unwrap().len()
        == StreamFolder::width() && #[trigger] StreamFolder::decoded(
        before + encode(c.folders[t.folders[i].slot as int], i).unwrap() + after,
        before.len() as int,
    ) == Some(read(c.folders[t.folders[i].slot as int], i)) by {
        let record = c.folders[t.folders[i].slot as int];
        assert(folder_settled(t, c, t.folders[i]));
        let cells = record.paths.cells();
        let start = choose|start: int| #[trigger] placed_at(t.paths, cells, start);
        lemma_stream_folder_round_trip(record, t, before, after);
    }
}

/// Every path of the tables, written anywhere, is read back with the range
/// of its links.
pub proof fn lemma_paths_read_back(t: StreamTables, c: StreamCellsView)
    requires
        folders_in_order(t, c),
        stream_writable(t, c),
    ensures
        reads_back::<StreamPath>(
            c.paths,
            t.paths,
            t.paths.len(),
            stream_path_encoder(t),
            stream_path_read(t),
        ),
{
    let encode = stream_path_encoder(t);
    let read = stream_path_read(t);
    assert forall|i: int, before: Seq<u8>, after: Seq<u8>|
        0 <= i < t.paths.len() && encode(c.paths[t.paths[i].slot as int], i) is Some implies encode(
        c.paths[t.paths[i].slot as int],
        i,
    ).unwrap().len() == StreamPath::width() && #[trigger] StreamPath::decoded(
        before + encode(c.paths[t.paths[i].slot as int], i).unwrap() + after,
        before.len() as int,
    ) == Some(read(c.paths[t.paths[i].slot as int], i)) by {
        let record = c.paths[t.paths[i].slot as int];
        assert(path_settled(t, c, t.paths[i]));
        lemma_stream_path_round_trip(record, t.links, before, after);
        lemma_index_in(t.links, record.links.cells()[0]);
        lemma_record_fields(
            before,
            seq![
                HashKey::pack(
                    record.full_path,
                    index_in(t.links, record.links.cells()[0]).unwrap() as usize,
                ).0,
            ],
            seq![record.flags()],
            after,
        );
    }
}

/// Every link of the tables, written anywhere, is read back with the index
/// of its metadata.
pub proof fn lemma_links_read_back(t: StreamTables, c: StreamCellsView)
    requires
        t.metadatas.len() <= u32::MAX,
    ensures
        reads_back::<StreamLink>(
            c.links,
            t.links,
            t.links.len(),
            stream_link_encoder(t),
            stream_link_read(t),
        ),
{
    let encode = stream_link_encoder(t);
    let read = stream_link_read(t);
    assert forall|i: int, before: Seq<u8>, after: Seq<u8>|
        0 <= i < t.links.len() && encode(c.links[t.links[i].slot as int], i) is Some implies encode(
        c.links[t.links[i].slot as int],
        i,
    ).unwrap().len() == StreamLink::width() && #[trigger] StreamLink::decoded(
        before + encode(c.links[t.links[i].slot as int], i).unwrap() + after,
        before.len() as int,
    ) == Some(read(c.links[t.links[i].slot as int], i)) by {
        let record = c.links[t.links[i].slot as int];
        let index = index_in(t.metadatas, record.metadata->Resolved_0).unwrap();
        lemma_index_in(t.metadatas, record.metadata->Resolved_0);
        lemma_record_fields(before, seq![], seq![index], after);
        let all = before + record.encoded(t.metadatas).unwrap() + after;
        assert(word_at(all, before.len() as int, 0, 0) == index);
    }
}

/// Every metadata of the tables, written anywhere, is read back as it is.
pub proof fn lemma_metadatas_read_back(t: StreamTables, c: StreamCellsView)
    ensures
        reads_back::<StreamMetadata>(
            c.metadatas,
            t.metadatas,
            t.metadatas.len(),
            stream_metadata_encoder(),
            stream_metadata_read(),
        ),
{
    let encode = stream_metadata_encoder();
    let read = stream_metadata_read();
    assert forall|i: int, before: Seq<u8>, after: Seq<u8>|
        0 <= i < t.metadatas.len() && encode(c.metadatas[t.metadatas[i].slot as int], i)
            is Some implies encode(c.metadatas[t.metadatas[i].slot as int], i).unwrap().len()
        == StreamMetadata::width() && #[trigger] StreamMetadata::decoded(
        before + encode(c.metadatas[t.metadatas[i].slot as int], i).unwrap() + after,
        before.len() as int,
    ) == Some(read(c.metadatas[t.metadatas[i].slot as int], i)) by {
        let record = c.metadatas[t.metadatas[i].slot as int];
        lemma_stream_metadata_round_trip(record, before, after);
        lemma_record_fields(before, seq![record.size, record.offset], seq![], after);
    }
}

/// The records of the tables as they are read back: in the order of the
/// tables, each with the ranges and indices that stand for its cells.
pub open spec fn stream_read_back(t: StreamTables, c: StreamCellsView) -> StreamCellsView {
    StreamCellsView {
        folders: in_table_order(c.folders, t.folders, t.folders.len(), stream_folder_read(t)),
        paths: in_table_order(c.paths, t.paths, t.paths.len(), stream_path_read(t)),
        links: in_table_order(c.links, t.links, t.links.len(), stream_link_read(t)),
        metadatas: in_table_order(
            c.metadatas,
            t.metadatas,
            t.metadatas.len(),
            stream_metadata_read(),
        ),
    }
}

/// A whole table that is written is read back as its records in the order
/// of the table, each as it is read back.
pub proof fn lemma_whole_table_round_trip<T: TableRecord>(
    records: Seq<T::V>,
    table: Seq<TableCell>,
    encode: spec_fn(T::V, int) -> Option<Seq<u8>>,
    read: spec_fn(T::V, int) -> T::V,
)
    requires
        T::width() > 0,
        table_bytes(records, table, table.len(), encode) is Some,
        reads_back::<T>(records, table, table.len(), encode, read),
    ensures
        whole_table::<T>(table_bytes(records, table, table.len(), encode).unwrap()) == Some(
            in_table_order(records, table, table.len(), read),
        ),
{
    let bytes = table_bytes(records, table, table.len(), encode).unwrap();
    lemma_table_round_trip::<T>(records, table, table.len(), encode, read, Seq::empty());
    assert(bytes + Seq::<u8>::empty() =~= bytes);
    lemma_whole_table::<T>(bytes, table.len());
}

/// The tables that the walk rebuilds, written as a directory of tables, are
/// read back as the records in the order of the tables, each with the
/// ranges and indices that stand for its cells.
pub proof fn lemma_stream_directory_read_back(writer: StreamWriterModel)
    requires
        folders_in_order(writer.tables, writer.cells),
        stream_writable(writer.tables, writer.cells),
        writer.directory() is Some,
    ensures
        stream_directory_cells(writer.directory().unwrap()) == Some(
            stream_read_back(writer.tables, writer.cells),
        ),
{
    let t = writer.tables;
    let c = writer.cells;
    lemma_folders_read_back(t, c);
    lemma_paths_read_back(t, c);
    lemma_links_read_back(t, c);
    lemma_metadatas_read_back(t, c);
    lemma_whole_table_round_trip::<StreamFolder>(
        c.folders,
        t.folders,
        stream_folder_encoder(t),
        stream_folder_read(t),
    );
    lemma_whole_table_round_trip::<StreamPath>(
        c.paths,
        t.paths,
        stream_path_encoder(t),
        stream_path_read(t),
    );
    lemma_whole_table_round_trip::<StreamLink>(
        c.links,
        t.links,
        stream_link_encoder(t),
        stream_link_read(t),
    );
    lemma_whole_table_round_trip::<StreamMetadata>(
        c.metadatas,
        t.metadatas,
        stream_metadata_encoder(),
        stream_metadata_read(),
    );
}


/// The cells of a table of `len` cells in its own order, from `start` on,
/// are the renumbered cells of a set that the table holds from `start` on.
proof fn lemma_renumbered(table: Seq<TableCell>, cells: Seq<TableCell>)
    requires
        distinct(table),
        placed(table, cells),
        table.len() < INVALID_INDEX,
    ensures
        start_of(table, cells) + cells.len() <= table.len(),
        identity_cells(table.len()).subrange(
            start_of(table, cells) as int,
            start_of(table, cells) + cells.len(),
        ) == renumbered(table, cells),
{
    let start = choose|start: int| #[trigger] placed_at(table, cells, start);
    lemma_placed_positions(table, cells, start);
    if cells.len() > 0 {
        assert(position(table, cells[0]) == start + 0);
    }
    let first = start_of(table, cells) as int;
    let row = identity_cells(table.len()).subrange(first, first + cells.len());
    assert forall|k: int| 0 <= k < cells.len() implies row[k] == renumbered(table, cells)[k] by {
        assert(position(table, cells[k]) == start + k);
    }
    assert(row =~= renumbered(table, cells));
}

/// Writing and reading back is the identity up to the names of the cells:
/// the tables that the walk rebuilds, written as a directory of tables,
/// read back and resolved, are the records in the order of the tables,
/// with every cell named by its place in its table.
pub proof fn lemma_stream_round_trip(writer: StreamWriterModel)
    requires
        folders_in_order(writer.tables, writer.cells),
        stream_writable(writer.tables, writer.cells),
        writer.directory() is Some,
    ensures
        stream_directory_cells(writer.directory().unwrap()) matches Some(read)
            && fresh_stream_model(read).resolution() == Some(
            renumbered_cells(writer.tables, writer.cells),
        ),
{
    let t = writer.tables;
    let c = writer.cells;
    lemma_stream_directory_read_back(writer);
    let read = stream_directory_cells(writer.directory().unwrap()).unwrap();
    let model = fresh_stream_model(read);
    let want = renumbered_cells(t, c);
    // The folders.
    let folder_step = stream_folder_step(model.tables.paths);
    assert forall|i: int| 0 <= i < t.folders.len() implies (#[trigger] folder_step(
        read.folders[i],
        i,
    )) == Some(want.folders[i]) by {
        let record = c.folders[t.folders[i].slot as int];
        assert(folder_settled(t, c, t.folders[i]));
        lemma_renumbered(t.paths, record.paths.cells());
    }
    lemma_pass_in_order(read.folders, t.folders.len(), folder_step);
    assert(stepped(read.folders, t.folders.len(), folder_step) =~= want.folders);
    // The paths.
    let path_step = stream_path_step(model.tables.links);
    assert forall|i: int| 0 <= i < t.paths.len() implies (#[trigger] path_step(read.paths[i], i))
        == Some(want.paths[i]) by {
        let record = c.paths[t.paths[i].slot as int];
        assert(path_settled(t, c, t.paths[i]));
        lemma_renumbered(t.links, record.links.cells());
    }
    lemma_pass_in_order(read.paths, t.paths.len(), path_step);
    assert(stepped(read.paths, t.paths.len(), path_step) =~= want.paths);
    // The links.
    let link_step = stream_link_step(model.tables.metadatas);
    assert forall|i: int| 0 <= i < t.links.len() implies (#[trigger] link_step(read.links[i], i))
        == Some(want.links[i]) by {
        let record = c.links[t.links[i].slot as int];
        assert(link_settled(t, c, t.links[i]));
        let metadata = record.metadata->Resolved_0;
        lemma_index_in(t.metadatas, metadata);
        assert(0 <= position(t.metadatas, metadata) < t.metadatas.len() && t.metadatas[position(
            t.metadatas,
            metadata,
        )] == metadata);
    }
    lemma_pass_in_order(read.links, t.links.len(), link_step);
    assert(stepped(read.links, t.links.len(), link_step) =~= want.links);
    assert(read.metadatas =~= want.metadatas);
}

/// The law for an engine: where its tables can be rebuilt and written, the
/// directory of tables that is written is read back and resolved as the
/// records of the engine in the order of the rebuilt tables.
pub proof fn lemma_stream_engine_round_trip(
    folders: Seq<TableCell>,
    writer: StreamWriterModel,
)
    requires
        stream_reorganized(folders, writer.cells) == Some(writer.tables),
        stream_writable(writer.tables, writer.cells),
        writer.directory() is Some,
    ensures
        stream_directory_cells(writer.directory().unwrap()) matches Some(read)
            && fresh_stream_model(read).resolution() == Some(
            renumbered_cells(writer.tables, writer.cells),
        ),
{
    lemma_rebuilt_in_order(folders, writer.cells);
    lemma_stream_round_trip(writer);
}

} // verus!
