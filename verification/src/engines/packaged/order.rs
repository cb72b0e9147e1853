//! The rows of the rebuilt tables.
//!
//! The walk pushes what belongs together one after the other. So the
//! rebuilt tables hold no cell twice, and they hold in a row the groups,
//! the infos and the child-package entries of each package, the
//! descriptors of each info, the infos of each info-group and the files of
//! each patch.
use vstd::prelude::*;

use crate::engines::packaged::types::GroupFilesView;
use crate::engines::packaged::writer::{
    child_package_walk, descriptor_walk, empty_tables, group_walk, info_walk, infos_beyond,
    metadata_walk, package_walk, patch_walk, reorganized, versioned_file_walk,
    with_child_package, with_descriptor, with_group, with_info, with_info_groups,
    with_metadata_once, with_package, with_patch, with_versioned_file,
};
use crate::engines::packaged::{PackagedCellsView, PackagedTables};
use crate::engines::rounds::{
    distinct, lemma_placed_prefix, lemma_pushed, placed, placed_at, prefix, walk,
};
use crate::engines::table::{pushed, ReferenceSetView, TableCell, TableReference};

verus! {

/// Whether no table holds a cell twice or more cells than a 32-bit index
/// can count.
pub open spec fn all_distinct(t: PackagedTables) -> bool {
    &&& distinct(t.packages) && t.packages.len() <= u32::MAX
    &&& distinct(t.child_packages) && t.child_packages.len() <= u32::MAX
    &&& distinct(t.groups) && t.groups.len() <= u32::MAX
    &&& distinct(t.paths) && t.paths.len() <= u32::MAX
    &&& distinct(t.links) && t.links.len() <= u32::MAX
    &&& distinct(t.infos) && t.infos.len() <= u32::MAX
    &&& distinct(t.descriptors) && t.descriptors.len() <= u32::MAX
    &&& distinct(t.metadatas) && t.metadatas.len() <= u32::MAX
    &&& distinct(t.patches) && t.patches.len() <= u32::MAX
    &&& distinct(t.versioned_files) && t.versioned_files.len() <= u32::MAX
}

/// Whether each table of `after` starts with the table of `t`.
pub open spec fn within(t: PackagedTables, after: PackagedTables) -> bool {
    &&& prefix(t.packages, after.packages)
    &&& prefix(t.child_packages, after.child_packages)
    &&& prefix(t.groups, after.groups)
    &&& prefix(t.paths, after.paths)
    &&& prefix(t.links, after.links)
    &&& prefix(t.infos, after.infos)
    &&& prefix(t.descriptors, after.descriptors)
    &&& prefix(t.metadatas, after.metadatas)
    &&& prefix(t.patches, after.patches)
    &&& prefix(t.versioned_files, after.versioned_files)
}

/// Whether the tables of packages, child-package entries, groups, patches
/// and versioned files are the same in both.
pub open spec fn upper_same(t: PackagedTables, after: PackagedTables) -> bool {
    &&& after.packages == t.packages
    &&& after.child_packages == t.child_packages
    &&& after.groups == t.groups
    &&& after.patches == t.patches
    &&& after.versioned_files == t.versioned_files
}

/// Whether the package in `cell` has a record whose groups, infos and
/// child-package entries the tables hold in rows.
pub open spec fn package_rows(t: PackagedTables, c: PackagedCellsView, cell: TableCell) -> bool {
    &&& cell.slot < c.packages.len()
    &&& c.packages[cell.slot as int].groups matches ReferenceSetView::Resolved(cells) && placed(
        t.groups,
        cells,
    )
    &&& c.packages[cell.slot as int].infos matches ReferenceSetView::Resolved(cells) && placed(
        t.infos,
        cells,
    )
    &&& c.packages[cell.slot as int].child_packages matches ReferenceSetView::Resolved(cells)
        && placed(t.child_packages, cells)
}

/// Whether the info in `cell` has a record whose descriptors the tables
/// hold in a row.
pub open spec fn info_rows(t: PackagedTables, c: PackagedCellsView, cell: TableCell) -> bool {
    &&& cell.slot < c.infos.len()
    &&& c.infos[cell.slot as int].descriptors matches ReferenceSetView::Resolved(cells) && placed(
        t.descriptors,
        cells,
    )
}

/// Whether the group in `cell` has a record, and the tables hold its infos
/// in a row where it is an info-group.
pub open spec fn group_rows(t: PackagedTables, c: PackagedCellsView, cell: TableCell) -> bool {
    &&& cell.slot < c.groups.len()
    &&& c.groups[cell.slot as int].files matches GroupFilesView::Info(
        ReferenceSetView::Resolved(cells),
    ) ==> placed(t.infos, cells)
}

/// Whether the patch in `cell` has a record whose files the tables hold in
/// a row.
pub open spec fn patch_rows(t: PackagedTables, c: PackagedCellsView, cell: TableCell) -> bool {
    &&& cell.slot < c.patches.len()
    &&& c.patches[cell.slot as int].versioned_files matches ReferenceSetView::Resolved(cells)
        && placed(t.versioned_files, cells)
}

/// Whether the tables hold the descriptors of each info in a row.
pub open spec fn infos_in_rows(t: PackagedTables, c: PackagedCellsView) -> bool {
    forall|i: int| 0 <= i < t.infos.len() ==> info_rows(t, c, #[trigger] t.infos[i])
}

/// Whether the tables hold the infos of each info-group in a row.
pub open spec fn groups_in_rows(t: PackagedTables, c: PackagedCellsView) -> bool {
    forall|i: int| 0 <= i < t.groups.len() ==> group_rows(t, c, #[trigger] t.groups[i])
}

/// Whether the tables hold what belongs to each package in rows.
pub open spec fn packages_in_rows(t: PackagedTables, c: PackagedCellsView) -> bool {
    forall|i: int| 0 <= i < t.packages.len() ==> package_rows(t, c, #[trigger] t.packages[i])
}

/// Whether the tables hold the files of each patch in a row.
pub open spec fn patches_in_rows(t: PackagedTables, c: PackagedCellsView) -> bool {
    forall|i: int| 0 <= i < t.patches.len() ==> patch_rows(t, c, #[trigger] t.patches[i])
}

/// Whether the tables are in rows: no cell twice, and what belongs to a
/// package, an info, an info-group or a patch in a row.
pub open spec fn in_rows(t: PackagedTables, c: PackagedCellsView) -> bool {
    &&& all_distinct(t)
    &&& infos_in_rows(t, c)
    &&& groups_in_rows(t, c)
    &&& packages_in_rows(t, c)
    &&& patches_in_rows(t, c)
}

/// Tables that grow keep the rows of their infos, where the infos that are
/// new have theirs.
pub proof fn lemma_info_rows_kept(t: PackagedTables, after: PackagedTables, c: PackagedCellsView)
    requires
        infos_in_rows(t, c),
        within(t, after),
        forall|i: int|
            t.infos.len() <= i < after.infos.len() ==> info_rows(after, c, #[trigger] after.infos[i]),
    ensures
        infos_in_rows(after, c),
{
    assert forall|i: int| 0 <= i < after.infos.len() implies info_rows(
        after,
        c,
        #[trigger] after.infos[i],
    ) by {
        if i < t.infos.len() {
            assert(after.infos[i] == t.infos[i]);
            assert(info_rows(t, c, t.infos[i]));
            lemma_placed_prefix(
                t.descriptors,
                after.descriptors,
                c.infos[t.infos[i].slot as int].descriptors->Resolved_0,
            );
        }
    }
}

/// Tables that grow keep the rows of their groups, where the groups that
/// are new have theirs.
pub proof fn lemma_group_rows_kept(t: PackagedTables, after: PackagedTables, c: PackagedCellsView)
    requires
        groups_in_rows(t, c),
        within(t, after),
        forall|i: int|
            t.groups.len() <= i < after.groups.len() ==> group_rows(
                after,
                c,
                #[trigger] after.groups[i],
            ),
    ensures
        groups_in_rows(after, c),
{
    assert forall|i: int| 0 <= i < after.groups.len() implies group_rows(
        after,
        c,
        #[trigger] after.groups[i],
    ) by {
        if i < t.groups.len() {
            assert(after.groups[i] == t.groups[i]);
            assert(group_rows(t, c, t.groups[i]));
            match c.groups[t.groups[i].slot as int].files {
                GroupFilesView::Info(ReferenceSetView::Resolved(cells)) => {
                    lemma_placed_prefix(t.infos, after.infos, cells);
                },
                _ => {},
            }
        }
    }
}

/// Tables that grow keep the rows of their packages, where the packages
/// that are new have theirs.
pub proof fn lemma_package_rows_kept(
    t: PackagedTables,
    after: PackagedTables,
    c: PackagedCellsView,
)
    requires
        packages_in_rows(t, c),
        within(t, after),
        forall|i: int|
            t.packages.len() <= i < after.packages.len() ==> package_rows(
                after,
                c,
                #[trigger] after.packages[i],
            ),
    ensures
        packages_in_rows(after, c),
{
    assert forall|i: int| 0 <= i < after.packages.len() implies package_rows(
        after,
        c,
        #[trigger] after.packages[i],
    ) by {
        if i < t.packages.len() {
            assert(after.packages[i] == t.packages[i]);
            assert(package_rows(t, c, t.packages[i]));
            let package = c.packages[t.packages[i].slot as int];
            lemma_placed_prefix(t.groups, after.groups, package.groups->Resolved_0);
            lemma_placed_prefix(t.infos, after.infos, package.infos->Resolved_0);
            lemma_placed_prefix(
                t.child_packages,
                after.child_packages,
                package.child_packages->Resolved_0,
            );
        }
    }
}

/// Tables that grow keep the rows of their patches, where the patches that
/// are new have theirs.
pub proof fn lemma_patch_rows_kept(t: PackagedTables, after: PackagedTables, c: PackagedCellsView)
    requires
        patches_in_rows(t, c),
        within(t, after),
        forall|i: int|
            t.patches.len() <= i < after.patches.len() ==> patch_rows(
                after,
                c,
                #[trigger] after.patches[i],
            ),
    ensures
        patches_in_rows(after, c),
{
    assert forall|i: int| 0 <= i < after.patches.len() implies patch_rows(
        after,
        c,
        #[trigger] after.patches[i],
    ) by {
        if i < t.patches.len() {
            assert(after.patches[i] == t.patches[i]);
            assert(patch_rows(t, c, t.patches[i]));
            lemma_placed_prefix(
                t.versioned_files,
                after.versioned_files,
                c.patches[t.patches[i].slot as int].versioned_files->Resolved_0,
            );
        }
    }
}

/// What pushing a descriptor does to the tables: the descriptor is the
/// last of the descriptors, the metadatas are extended, and nothing else
/// changes.
pub proof fn lemma_descriptor_step(
    t: PackagedTables,
    c: PackagedCellsView,
    cell: TableCell,
    info_group: bool,
    version_group: bool,
)
    requires
        all_distinct(t),
        with_descriptor(t, c, cell, info_group, version_group) is Some,
    ensures
        ({
            let after = with_descriptor(t, c, cell, info_group, version_group).unwrap();
            &&& all_distinct(after)
            &&& within(t, after)
            &&& upper_same(t, after)
            &&& after.infos == t.infos
            &&& after.links == t.links
            &&& after.paths == t.paths
            &&& after.descriptors == t.descriptors.push(cell)
        }),
{
    let after = with_descriptor(t, c, cell, info_group, version_group).unwrap();
    lemma_pushed(t.descriptors, cell);
    if after.metadatas != t.metadatas {
        let metadata = c.descriptors[cell.slot as int].metadata->Metadata_0;
        lemma_pushed(t.metadatas, metadata);
    }
}

/// What a walk over descriptors does to the tables: the descriptors are
/// extended by the descriptors of the walk, the metadatas are extended,
/// and nothing else changes.
pub proof fn lemma_descriptor_walk(
    t: PackagedTables,
    c: PackagedCellsView,
    cells: Seq<TableCell>,
    upto: nat,
    info_group: bool,
    version_group: bool,
)
    requires
        upto <= cells.len(),
        all_distinct(t),
        walk(t, cells, upto, descriptor_walk(c, info_group, version_group)) is Some,
    ensures
        ({
            let after = walk(t, cells, upto, descriptor_walk(c, info_group, version_group)).unwrap();
            &&& all_distinct(after)
            &&& within(t, after)
            &&& upper_same(t, after)
            &&& after.infos == t.infos
            &&& after.links == t.links
            &&& after.paths == t.paths
            &&& after.descriptors == t.descriptors + cells.subrange(0, upto as int)
        }),
    decreases upto,
{
    let step = descriptor_walk(c, info_group, version_group);
    if upto == 0 {
        assert(t.descriptors + cells.subrange(0, 0) =~= t.descriptors);
    } else {
        lemma_descriptor_walk(t, c, cells, (upto - 1) as nat, info_group, version_group);
        let before = walk(t, cells, (upto - 1) as nat, step).unwrap();
        lemma_descriptor_step(before, c, cells[upto - 1], info_group, version_group);
        let after = walk(t, cells, upto, step).unwrap();
        assert(after.descriptors =~= t.descriptors + cells.subrange(0, upto as int));
        lemma_within_twice(t, before, after);
    }
}

/// What starts a table starts every table that this one starts, table by
/// table.
pub proof fn lemma_within_twice(t: PackagedTables, between: PackagedTables, after: PackagedTables)
    requires
        within(t, between),
        within(between, after),
    ensures
        within(t, after),
{
    crate::engines::rounds::lemma_prefix_chain(t.packages, between.packages, after.packages);
    crate::engines::rounds::lemma_prefix_chain(
        t.child_packages,
        between.child_packages,
        after.child_packages,
    );
    crate::engines::rounds::lemma_prefix_chain(t.groups, between.groups, after.groups);
    crate::engines::rounds::lemma_prefix_chain(t.paths, between.paths, after.paths);
    crate::engines::rounds::lemma_prefix_chain(t.links, between.links, after.links);
    crate::engines::rounds::lemma_prefix_chain(t.infos, between.infos, after.infos);
    crate::engines::rounds::lemma_prefix_chain(t.descriptors, between.descriptors, after.descriptors);
    crate::engines::rounds::lemma_prefix_chain(t.metadatas, between.metadatas, after.metadatas);
    crate::engines::rounds::lemma_prefix_chain(t.patches, between.patches, after.patches);
    crate::engines::rounds::lemma_prefix_chain(
        t.versioned_files,
        between.versioned_files,
        after.versioned_files,
    );
}


/// What pushing an info does to the tables: the info is the last of the
/// infos, its descriptors are the last of the descriptors, and the infos
/// keep their rows.
pub proof fn lemma_info_step(
    t: PackagedTables,
    c: PackagedCellsView,
    cell: TableCell,
    info_group: bool,
    version_group: bool,
)
    requires
        all_distinct(t),
        infos_in_rows(t, c),
        with_info(t, c, cell, info_group, version_group) is Some,
    ensures
        ({
            let after = with_info(t, c, cell, info_group, version_group).unwrap();
            &&& all_distinct(after)
            &&& infos_in_rows(after, c)
            &&& within(t, after)
            &&& upper_same(t, after)
            &&& after.infos == t.infos.push(cell)
        }),
{
    let after = with_info(t, c, cell, info_group, version_group).unwrap();
    lemma_pushed(t.infos, cell);
    let t1 = PackagedTables { infos: t.infos.push(cell), ..t };
    let info = c.infos[cell.slot as int];
    let descriptors = info.descriptors->Resolved_0;
    let step = descriptor_walk(c, info_group, version_group);
    lemma_descriptor_walk(t1, c, descriptors, descriptors.len(), info_group, version_group);
    let t2 = walk(t1, descriptors, descriptors.len(), step).unwrap();
    assert(descriptors.subrange(0, descriptors.len() as int) =~= descriptors);
    assert(placed_at(t2.descriptors, descriptors, t.descriptors.len() as int));
    if after.links != t2.links {
        lemma_pushed(t2.links, info.link->Resolved_0);
    }
    if after.paths != t2.paths {
        lemma_pushed(t2.paths, info.path->Resolved_0);
    }
    assert(after.descriptors == t2.descriptors);
    assert(within(t, after));
    assert(info_rows(after, c, cell));
    lemma_info_rows_kept(t, after, c);
}

/// What a walk over infos does to the tables: the infos are extended by
/// the infos of the walk, and the infos keep their rows.
pub proof fn lemma_info_walk(
    t: PackagedTables,
    c: PackagedCellsView,
    cells: Seq<TableCell>,
    upto: nat,
    info_group: bool,
    version_group: bool,
)
    requires
        upto <= cells.len(),
        all_distinct(t),
        infos_in_rows(t, c),
        walk(t, cells, upto, info_walk(c, info_group, version_group)) is Some,
    ensures
        ({
            let after = walk(t, cells, upto, info_walk(c, info_group, version_group)).unwrap();
            &&& all_distinct(after)
            &&& infos_in_rows(after, c)
            &&& within(t, after)
            &&& upper_same(t, after)
            &&& after.infos == t.infos + cells.subrange(0, upto as int)
        }),
    decreases upto,
{
    let step = info_walk(c, info_group, version_group);
    if upto == 0 {
        assert(t.infos + cells.subrange(0, 0) =~= t.infos);
    } else {
        lemma_info_walk(t, c, cells, (upto - 1) as nat, info_group, version_group);
        let before = walk(t, cells, (upto - 1) as nat, step).unwrap();
        lemma_info_step(before, c, cells[upto - 1], info_group, version_group);
        let after = walk(t, cells, upto, step).unwrap();
        assert(after.infos =~= t.infos + cells.subrange(0, upto as int));
        lemma_within_twice(t, before, after);
    }
}

/// What a walk over the metadatas of a metadata-group does to the tables:
/// the metadatas are extended, and nothing else changes.
pub proof fn lemma_metadata_walk(t: PackagedTables, cells: Seq<TableCell>, upto: nat)
    requires
        upto <= cells.len(),
        all_distinct(t),
        walk(t, cells, upto, metadata_walk()) is Some,
    ensures
        ({
            let after = walk(t, cells, upto, metadata_walk()).unwrap();
            &&& all_distinct(after)
            &&& prefix(t.metadatas, after.metadatas)
            &&& after == (PackagedTables { metadatas: after.metadatas, ..t })
        }),
    decreases upto,
{
    if upto > 0 {
        lemma_metadata_walk(t, cells, (upto - 1) as nat);
        let before = walk(t, cells, (upto - 1) as nat, metadata_walk()).unwrap();
        let after = walk(t, cells, upto, metadata_walk()).unwrap();
        if after.metadatas != before.metadatas {
            lemma_pushed(before.metadatas, cells[upto - 1]);
        }
        crate::engines::rounds::lemma_prefix_chain(t.metadatas, before.metadatas, after.metadatas);
    }
}

/// What pushing a group does to the tables: the group is the last of the
/// groups, the infos of an info-group are the last of the infos, and the
/// infos and the groups keep their rows.
pub proof fn lemma_group_step(t: PackagedTables, c: PackagedCellsView, cell: TableCell)
    requires
        all_distinct(t),
        infos_in_rows(t, c),
        groups_in_rows(t, c),
        with_group(t, c, cell) is Some,
    ensures
        ({
            let after = with_group(t, c, cell).unwrap();
            &&& all_distinct(after)
            &&& infos_in_rows(after, c)
            &&& groups_in_rows(after, c)
            &&& within(t, after)
            &&& after.groups == t.groups.push(cell)
            &&& after.packages == t.packages
            &&& after.child_packages == t.child_packages
            &&& after.patches == t.patches
            &&& after.versioned_files == t.versioned_files
        }),
{
    let after = with_group(t, c, cell).unwrap();
    lemma_pushed(t.groups, cell);
    let t1 = PackagedTables { groups: t.groups.push(cell), ..t };
    let group = c.groups[cell.slot as int];
    match group.files {
        GroupFilesView::Metadata(ReferenceSetView::Resolved(metadatas)) => {
            lemma_metadata_walk(t1, metadatas, metadatas.len());
            assert(within(t, after));
            assert(group_rows(after, c, cell));
            lemma_info_rows_kept(t, after, c);
            lemma_group_rows_kept(t, after, c);
        },
        GroupFilesView::Info(ReferenceSetView::Resolved(infos)) => {
            assert(within(t, t1));
            lemma_info_rows_kept(t, t1, c);
            lemma_info_walk(t1, c, infos, infos.len(), true, group.is_version_group());
            lemma_within_twice(t, t1, after);
            assert(infos.subrange(0, infos.len() as int) =~= infos);
            assert(placed_at(after.infos, infos, t.infos.len() as int));
            assert(group_rows(after, c, cell));
            lemma_group_rows_kept(t, after, c);
        },
        _ => {},
    }
}

/// What a walk over groups does to the tables: the groups are extended by
/// the groups of the walk, and the infos and the groups keep their rows.
pub proof fn lemma_group_walk(
    t: PackagedTables,
    c: PackagedCellsView,
    cells: Seq<TableCell>,
    upto: nat,
)
    requires
        upto <= cells.len(),
        all_distinct(t),
        infos_in_rows(t, c),
        groups_in_rows(t, c),
        walk(t, cells, upto, group_walk(c)) is Some,
    ensures
        ({
            let after = walk(t, cells, upto, group_walk(c)).unwrap();
            &&& all_distinct(after)
            &&& infos_in_rows(after, c)
            &&& groups_in_rows(after, c)
            &&& within(t, after)
            &&& after.groups == t.groups + cells.subrange(0, upto as int)
            &&& after.packages == t.packages
            &&& after.child_packages == t.child_packages
            &&& after.patches == t.patches
            &&& after.versioned_files == t.versioned_files
        }),
    decreases upto,
{
    if upto == 0 {
        assert(t.groups + cells.subrange(0, 0) =~= t.groups);
    } else {
        lemma_group_walk(t, c, cells, (upto - 1) as nat);
        let before = walk(t, cells, (upto - 1) as nat, group_walk(c)).unwrap();
        lemma_group_step(before, c, cells[upto - 1]);
        let after = walk(t, cells, upto, group_walk(c)).unwrap();
        assert(after.groups =~= t.groups + cells.subrange(0, upto as int));
        lemma_within_twice(t, before, after);
    }
}

/// What a walk over child-package entries does to the tables: the entries
/// are extended by the entries of the walk, and nothing else changes.
pub proof fn lemma_child_package_walk(t: PackagedTables, cells: Seq<TableCell>, upto: nat)
    requires
        upto <= cells.len(),
        all_distinct(t),
        walk(t, cells, upto, child_package_walk()) is Some,
    ensures
        ({
            let after = walk(t, cells, upto, child_package_walk()).unwrap();
            &&& all_distinct(after)
            &&& after.child_packages == t.child_packages + cells.subrange(0, upto as int)
            &&& after == (PackagedTables { child_packages: after.child_packages, ..t })
        }),
    decreases upto,
{
    if upto == 0 {
        assert(t.child_packages + cells.subrange(0, 0) =~= t.child_packages);
    } else {
        lemma_child_package_walk(t, cells, (upto - 1) as nat);
        let before = walk(t, cells, (upto - 1) as nat, child_package_walk()).unwrap();
        lemma_pushed(before.child_packages, cells[upto - 1]);
        let after = walk(t, cells, upto, child_package_walk()).unwrap();
        assert(after.child_packages =~= t.child_packages + cells.subrange(0, upto as int));
    }
}

/// What a walk over versioned files does to the tables: the files are
/// extended by the files of the walk, and nothing else changes.
pub proof fn lemma_versioned_file_walk(t: PackagedTables, cells: Seq<TableCell>, upto: nat)
    requires
        upto <= cells.len(),
        all_distinct(t),
        walk(t, cells, upto, versioned_file_walk()) is Some,
    ensures
        ({
            let after = walk(t, cells, upto, versioned_file_walk()).unwrap();
            &&& all_distinct(after)
            &&& after.versioned_files == t.versioned_files + cells.subrange(0, upto as int)
            &&& after == (PackagedTables { versioned_files: after.versioned_files, ..t })
        }),
    decreases upto,
{
    if upto == 0 {
        assert(t.versioned_files + cells.subrange(0, 0) =~= t.versioned_files);
    } else {
        lemma_versioned_file_walk(t, cells, (upto - 1) as nat);
        let before = walk(t, cells, (upto - 1) as nat, versioned_file_walk()).unwrap();
        lemma_pushed(before.versioned_files, cells[upto - 1]);
        let after = walk(t, cells, upto, versioned_file_walk()).unwrap();
        assert(after.versioned_files =~= t.versioned_files + cells.subrange(0, upto as int));
    }
}


/// What pushing a package does to the tables: the package is the last of
/// the packages, and the tables stay in rows.
pub proof fn lemma_package_step(t: PackagedTables, c: PackagedCellsView, cell: TableCell)
    requires
        in_rows(t, c),
        with_package(t, c, cell) is Some,
    ensures
        ({
            let after = with_package(t, c, cell).unwrap();
            &&& in_rows(after, c)
            &&& within(t, after)
            &&& after.packages == t.packages.push(cell)
            &&& after.patches == t.patches
            &&& after.versioned_files == t.versioned_files
        }),
{
    let after = with_package(t, c, cell).unwrap();
    lemma_pushed(t.packages, cell);
    let t1 = PackagedTables { packages: t.packages.push(cell), ..t };
    let package = c.packages[cell.slot as int];
    let groups = package.groups->Resolved_0;
    let children = package.child_packages->Resolved_0;
    let infos = package.infos->Resolved_0;
    assert(within(t, t1));
    lemma_info_rows_kept(t, t1, c);
    lemma_group_rows_kept(t, t1, c);
    lemma_group_walk(t1, c, groups, groups.len());
    let t2 = walk(t1, groups, groups.len(), group_walk(c)).unwrap();
    assert(groups.subrange(0, groups.len() as int) =~= groups);
    lemma_child_package_walk(t2, children, children.len());
    let t3 = walk(t2, children, children.len(), child_package_walk()).unwrap();
    assert(children.subrange(0, children.len() as int) =~= children);
    assert(within(t2, t3));
    lemma_info_rows_kept(t2, t3, c);
    lemma_group_rows_kept(t2, t3, c);
    lemma_info_walk(t3, c, infos, infos.len(), false, false);
    assert(infos.subrange(0, infos.len() as int) =~= infos);
    lemma_within_twice(t, t1, t2);
    lemma_within_twice(t, t2, t3);
    lemma_within_twice(t, t3, after);
    lemma_group_rows_kept(t3, after, c);
    assert(placed_at(after.groups, groups, t.groups.len() as int));
    assert(placed_at(after.child_packages, children, t.child_packages.len() as int));
    assert(placed_at(after.infos, infos, t3.infos.len() as int));
    assert(package_rows(after, c, cell));
    lemma_package_rows_kept(t, after, c);
    lemma_patch_rows_kept(t, after, c);
}

/// A walk over packages keeps the tables in rows.
pub proof fn lemma_package_walk(
    t: PackagedTables,
    c: PackagedCellsView,
    cells: Seq<TableCell>,
    upto: nat,
)
    requires
        upto <= cells.len(),
        in_rows(t, c),
        walk(t, cells, upto, package_walk(c)) is Some,
    ensures
        in_rows(walk(t, cells, upto, package_walk(c)).unwrap(), c),
        walk(t, cells, upto, package_walk(c)).unwrap().patches == t.patches,
        walk(t, cells, upto, package_walk(c)).unwrap().versioned_files == t.versioned_files,
    decreases upto,
{
    if upto > 0 {
        lemma_package_walk(t, c, cells, (upto - 1) as nat);
        let before = walk(t, cells, (upto - 1) as nat, package_walk(c)).unwrap();
        lemma_package_step(before, c, cells[upto - 1]);
    }
}

/// The round over the info-groups keeps the tables in rows.
pub proof fn lemma_info_groups_rows(
    t: PackagedTables,
    c: PackagedCellsView,
    groups: Seq<TableCell>,
    upto: nat,
)
    requires
        upto <= groups.len(),
        in_rows(t, c),
        with_info_groups(t, c, groups, upto) is Some,
    ensures
        in_rows(with_info_groups(t, c, groups, upto).unwrap().0, c),
        with_info_groups(t, c, groups, upto).unwrap().0.patches == t.patches,
        with_info_groups(t, c, groups, upto).unwrap().0.versioned_files == t.versioned_files,
    decreases upto,
{
    if upto > 0 {
        lemma_info_groups_rows(t, c, groups, (upto - 1) as nat);
        let before = with_info_groups(t, c, groups, (upto - 1) as nat).unwrap().0;
        let after = with_info_groups(t, c, groups, upto).unwrap().0;
        let cell = groups[upto - 1];
        let group = c.groups[cell.slot as int];
        if group.is_info_group() && !group.is_version_group() {
            lemma_group_step(before, c, cell);
            assert(after == with_group(before, c, cell).unwrap());
            lemma_package_rows_kept(before, after, c);
            lemma_patch_rows_kept(before, after, c);
        }
    }
}

/// What pushing a patch does to the tables: the patch is the last of the
/// patches, its files are the last of the versioned files, and the tables
/// stay in rows.
pub proof fn lemma_patch_step(t: PackagedTables, c: PackagedCellsView, cell: TableCell)
    requires
        in_rows(t, c),
        with_patch(t, c, cell) is Some,
    ensures
        ({
            let after = with_patch(t, c, cell).unwrap();
            &&& in_rows(after, c)
            &&& cell.slot < c.patches.len()
            &&& after.patches == t.patches.push(cell)
            &&& c.patches[cell.slot as int].versioned_files matches ReferenceSetView::Resolved(
                files,
            ) && after.versioned_files == t.versioned_files + files
            &&& c.patches[cell.slot as int].group matches TableReference::Resolved(group)
                && after.groups.contains(group)
        }),
{
    let after = with_patch(t, c, cell).unwrap();
    lemma_pushed(t.patches, cell);
    let t1 = PackagedTables { patches: t.patches.push(cell), ..t };
    let patch = c.patches[cell.slot as int];
    let files = patch.versioned_files->Resolved_0;
    let group = patch.group->Resolved_0;
    let infos = patch.infos->Resolved_0;
    lemma_versioned_file_walk(t1, files, files.len());
    let t2 = walk(t1, files, files.len(), versioned_file_walk()).unwrap();
    assert(files.subrange(0, files.len() as int) =~= files);
    assert(within(t, t2));
    lemma_info_rows_kept(t, t2, c);
    lemma_group_rows_kept(t, t2, c);
    lemma_group_step(t2, c, group);
    let t3 = with_group(t2, c, group).unwrap();
    let held = c.groups[group.slot as int].files->Info_0->Resolved_0;
    let beyond = infos_beyond(infos, held.len());
    lemma_info_walk(t3, c, beyond, beyond.len(), true, true);
    lemma_within_twice(t, t2, t3);
    lemma_within_twice(t, t3, after);
    lemma_group_rows_kept(t3, after, c);
    assert(placed_at(after.versioned_files, files, t.versioned_files.len() as int));
    assert(patch_rows(after, c, cell));
    assert(t3.groups[t2.groups.len() as int] == group);
    assert(after.groups[t2.groups.len() as int] == group);
    lemma_package_rows_kept(t, after, c);
    lemma_patch_rows_kept(t, after, c);
}

/// Whether the patch in `cell` has a record whose group is among
/// `groups`.
pub open spec fn patch_group_held(c: PackagedCellsView, groups: Seq<TableCell>, cell: TableCell)
    -> bool {
    &&& cell.slot < c.patches.len()
    &&& c.patches[cell.slot as int].group matches TableReference::Resolved(group)
        && groups.contains(group)
}

/// The files of the first `upto` patches of `patches`, one patch after
/// the other.
pub open spec fn patch_files(c: PackagedCellsView, patches: Seq<TableCell>, upto: nat) -> Seq<
    TableCell,
>
    decreases upto,
{
    if upto == 0 {
        Seq::empty()
    } else {
        patch_files(c, patches, (upto - 1) as nat) + c.patches[patches[upto
            - 1].slot as int].versioned_files.cells()
    }
}

/// A walk over patches keeps the tables in rows, extends the patches by
/// the patches of the walk and the versioned files by their files, and has
/// the group of each of them among the groups.
pub proof fn lemma_patch_walk(
    t: PackagedTables,
    c: PackagedCellsView,
    cells: Seq<TableCell>,
    upto: nat,
)
    requires
        upto <= cells.len(),
        in_rows(t, c),
        walk(t, cells, upto, patch_walk(c)) is Some,
    ensures
        ({
            let after = walk(t, cells, upto, patch_walk(c)).unwrap();
            &&& in_rows(after, c)
            &&& after.patches == t.patches + cells.subrange(0, upto as int)
            &&& after.versioned_files == t.versioned_files + patch_files(c, cells, upto)
            &&& prefix(t.groups, after.groups)
            &&& forall|i: int|
                0 <= i < upto ==> patch_group_held(c, after.groups, #[trigger] cells[i])
        }),
    decreases upto,
{
    if upto == 0 {
        assert(t.patches + cells.subrange(0, 0) =~= t.patches);
        assert(t.versioned_files + patch_files(c, cells, 0) =~= t.versioned_files);
    } else {
        lemma_patch_walk(t, c, cells, (upto - 1) as nat);
        let before = walk(t, cells, (upto - 1) as nat, patch_walk(c)).unwrap();
        lemma_patch_step(before, c, cells[upto - 1]);
        let after = walk(t, cells, upto, patch_walk(c)).unwrap();
        lemma_patch_groups(before, c, cells[upto - 1]);
        assert(after.patches =~= t.patches + cells.subrange(0, upto as int));
        assert(after.versioned_files =~= t.versioned_files + patch_files(c, cells, upto));
        crate::engines::rounds::lemma_prefix_chain(t.groups, before.groups, after.groups);
        assert forall|i: int| 0 <= i < upto implies patch_group_held(
            c,
            after.groups,
            #[trigger] cells[i],
        ) by {
            if i < upto - 1 {
                assert(patch_group_held(c, before.groups, cells[i]));
                let group = c.patches[cells[i].slot as int].group->Resolved_0;
                let at = choose|at: int| 0 <= at < before.groups.len() && before.groups[at] == group;
                assert(after.groups[at] == group);
            }
        }
    }
}

/// Pushing a patch extends the groups.
pub proof fn lemma_patch_groups(t: PackagedTables, c: PackagedCellsView, cell: TableCell)
    requires
        in_rows(t, c),
        with_patch(t, c, cell) is Some,
    ensures
        prefix(t.groups, with_patch(t, c, cell).unwrap().groups),
{
    let after = with_patch(t, c, cell).unwrap();
    lemma_pushed(t.patches, cell);
    let t1 = PackagedTables { patches: t.patches.push(cell), ..t };
    let patch = c.patches[cell.slot as int];
    let files = patch.versioned_files->Resolved_0;
    let group = patch.group->Resolved_0;
    let infos = patch.infos->Resolved_0;
    lemma_versioned_file_walk(t1, files, files.len());
    let t2 = walk(t1, files, files.len(), versioned_file_walk()).unwrap();
    assert(within(t, t2));
    lemma_info_rows_kept(t, t2, c);
    lemma_group_rows_kept(t, t2, c);
    lemma_group_step(t2, c, group);
    let t3 = with_group(t2, c, group).unwrap();
    let held = c.groups[group.slot as int].files->Info_0->Resolved_0;
    let beyond = infos_beyond(infos, held.len());
    lemma_info_walk(t3, c, beyond, beyond.len(), true, true);
    lemma_within_twice(t, t2, t3);
    lemma_within_twice(t, t3, after);
}

/// The tables that the walk rebuilds are in rows: no table holds a cell
/// twice, and what belongs to a package, an info, an info-group or a patch
/// stands in a row.
pub proof fn lemma_rebuilt_in_rows(from: PackagedTables, c: PackagedCellsView)
    requires
        reorganized(from, c) is Some,
    ensures
        in_rows(reorganized(from, c).unwrap().tables, c),
{
    let first = walk(empty_tables(), from.packages, from.packages.len(), package_walk(c)).unwrap();
    lemma_package_walk(empty_tables(), c, from.packages, from.packages.len());
    lemma_info_groups_rows(first, c, from.groups, from.groups.len());
    let second = with_info_groups(first, c, from.groups, from.groups.len()).unwrap().0;
    lemma_patch_walk(second, c, from.patches, from.patches.len());
}


/// The walk keeps the patches as they are listed, and lists their files
/// patch after patch. So the files of the last patch start where the files
/// of the patches before it end: at the sum of the numbers of their files,
/// and at zero for a single patch. The group of each patch is among the
/// groups.
pub proof fn lemma_patches_kept(from: PackagedTables, c: PackagedCellsView)
    requires
        reorganized(from, c) is Some,
    ensures
        ({
            let rebuilt = reorganized(from, c).unwrap();
            let earlier = patch_files(c, from.patches, (from.patches.len() - 1) as nat);
            &&& rebuilt.tables.patches == from.patches
            &&& rebuilt.tables.versioned_files == patch_files(c, from.patches, from.patches.len())
            &&& from.patches.len() == 0 ==> rebuilt.last_patch_files_start == 0
            &&& from.patches.len() > 0 ==> rebuilt.last_patch_files_start == earlier.len()
                && rebuilt.tables.versioned_files[earlier.len() as int]
                == c.patches[from.patches.last().slot as int].versioned_files.cells()[0]
            &&& from.patches.len() == 1 ==> rebuilt.last_patch_files_start == 0
                && rebuilt.tables.versioned_files
                == c.patches[from.patches[0].slot as int].versioned_files.cells()
            &&& forall|i: int|
                0 <= i < from.patches.len() ==> patch_group_held(
                    c,
                    rebuilt.tables.groups,
                    #[trigger] from.patches[i],
                )
        }),
{
    let first = walk(empty_tables(), from.packages, from.packages.len(), package_walk(c)).unwrap();
    lemma_package_walk(empty_tables(), c, from.packages, from.packages.len());
    lemma_info_groups_rows(first, c, from.groups, from.groups.len());
    let second = with_info_groups(first, c, from.groups, from.groups.len()).unwrap().0;
    lemma_patch_walk(second, c, from.patches, from.patches.len());
    let tables = reorganized(from, c).unwrap().tables;
    assert(from.patches.subrange(0, from.patches.len() as int) =~= from.patches);
    assert(Seq::<TableCell>::empty() + from.patches =~= from.patches);
    assert(Seq::<TableCell>::empty() + patch_files(c, from.patches, from.patches.len())
        =~= patch_files(c, from.patches, from.patches.len()));
    if from.patches.len() > 0 {
        let earlier = patch_files(c, from.patches, (from.patches.len() - 1) as nat);
        let files = c.patches[from.patches.last().slot as int].versioned_files.cells();
        assert(tables.versioned_files == earlier + files);
        assert(files.len() > 0);
        assert(tables.versioned_files[earlier.len() as int] == files[0]);
        crate::engines::rounds::lemma_index_unique(tables.versioned_files, earlier.len() as int);
        if from.patches.len() == 1 {
            assert(patch_files(c, from.patches, 0) =~= Seq::<TableCell>::empty());
            assert(earlier + files =~= files);
        }
    }
}

} // verus!
