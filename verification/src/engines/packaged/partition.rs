//! The order of the groups in the rebuilt tables.
//!
//! The walk pushes the groups of the packages first, then the info-groups
//! that are no version-groups, then the groups of the patches. Where the
//! groups of the packages are metadata-groups and the groups of the patches
//! are version-groups, the table of groups falls into three parts: all
//! metadata-groups, then all other info-groups, then all version-groups.
use vstd::prelude::*;

use crate::engines::packaged::types::GroupFilesView;
use crate::engines::packaged::writer::{
    child_package_walk, descriptor_walk, empty_tables, group_walk, info_walk, infos_beyond,
    metadata_walk, package_walk, patch_walk, reorganized, versioned_file_walk, with_descriptor,
    with_group, with_info, with_info_groups, with_package, with_patch,
};
use crate::engines::packaged::{PackagedCellsView, PackagedTables};
use crate::engines::rounds::walk;
use crate::engines::table::{ReferenceSetView, TableCell, TableReference};

verus! {

/// Whether `after` is `before` with cells pushed onto it that are all
/// `good`.
pub open spec fn extends(
    before: Seq<TableCell>,
    after: Seq<TableCell>,
    good: spec_fn(TableCell) -> bool,
) -> bool {
    &&& before.len() <= after.len()
    &&& forall|i: int| 0 <= i < before.len() ==> #[trigger] after[i] == before[i]
    &&& forall|i: int| before.len() <= i < after.len() ==> good(#[trigger] after[i])
}

/// The predicate that holds of no cell.
pub open spec fn no_cell() -> spec_fn(TableCell) -> bool {
    |cell: TableCell| false
}

/// A table that is extended by cells of which there are none is not
/// extended.
pub proof fn lemma_extends_by_none(before: Seq<TableCell>, after: Seq<TableCell>)
    requires
        extends(before, after, no_cell()),
    ensures
        after == before,
{
    if after.len() > before.len() {
        assert(no_cell()(after[before.len() as int]));
    }
    assert(after =~= before);
}

/// A walk extends the table of groups by good cells, where each of its
/// steps does.
pub proof fn lemma_walk_extends(
    state: PackagedTables,
    cells: Seq<TableCell>,
    upto: nat,
    step: spec_fn(PackagedTables, TableCell) -> Option<PackagedTables>,
    good: spec_fn(TableCell) -> bool,
)
    requires
        upto <= cells.len(),
        forall|t: PackagedTables, i: int|
            0 <= i < upto && (#[trigger] step(t, cells[i])) is Some ==> extends(
                t.groups,
                step(t, cells[i]).unwrap().groups,
                good,
            ),
        walk(state, cells, upto, step) is Some,
    ensures
        extends(state.groups, walk(state, cells, upto, step).unwrap().groups, good),
    decreases upto,
{
    if upto > 0 {
        lemma_walk_extends(state, cells, (upto - 1) as nat, step, good);
        let before = walk(state, cells, (upto - 1) as nat, step).unwrap();
        assert(step(before, cells[upto - 1]) is Some);
    }
}

/// Pushing a descriptor leaves the groups as they are.
pub proof fn lemma_descriptor_keeps_groups(
    t: PackagedTables,
    c: PackagedCellsView,
    cell: TableCell,
    info_group: bool,
    version_group: bool,
)
    requires
        with_descriptor(t, c, cell, info_group, version_group) is Some,
    ensures
        with_descriptor(t, c, cell, info_group, version_group).unwrap().groups == t.groups,
{
}

/// Pushing an info leaves the groups as they are.
pub proof fn lemma_info_keeps_groups(
    t: PackagedTables,
    c: PackagedCellsView,
    cell: TableCell,
    info_group: bool,
    version_group: bool,
)
    requires
        with_info(t, c, cell, info_group, version_group) is Some,
    ensures
        with_info(t, c, cell, info_group, version_group).unwrap().groups == t.groups,
{
    let infos = crate::engines::table::pushed(t.infos, cell).unwrap();
    let t1 = PackagedTables { infos, ..t };
    let info = c.infos[cell.slot as int];
    let descriptors = info.descriptors.cells();
    let step = descriptor_walk(c, info_group, version_group);
    assert forall|s: PackagedTables, i: int|
        0 <= i < descriptors.len() && (#[trigger] step(s, descriptors[i])) is Some implies extends(
        s.groups,
        step(s, descriptors[i]).unwrap().groups,
        no_cell(),
    ) by {
        lemma_descriptor_keeps_groups(s, c, descriptors[i], info_group, version_group);
    }
    lemma_walk_extends(t1, descriptors, descriptors.len(), step, no_cell());
    let t2 = walk(t1, descriptors, descriptors.len(), step).unwrap();
    lemma_extends_by_none(t1.groups, t2.groups);
}

/// A walk over infos leaves the groups as they are.
pub proof fn lemma_infos_keep_groups(
    t: PackagedTables,
    c: PackagedCellsView,
    infos: Seq<TableCell>,
    info_group: bool,
    version_group: bool,
)
    requires
        walk(t, infos, infos.len(), info_walk(c, info_group, version_group)) is Some,
    ensures
        walk(t, infos, infos.len(), info_walk(c, info_group, version_group)).unwrap().groups
            == t.groups,
{
    let step = info_walk(c, info_group, version_group);
    assert forall|s: PackagedTables, i: int|
        0 <= i < infos.len() && (#[trigger] step(s, infos[i])) is Some implies extends(
        s.groups,
        step(s, infos[i]).unwrap().groups,
        no_cell(),
    ) by {
        lemma_info_keeps_groups(s, c, infos[i], info_group, version_group);
    }
    lemma_walk_extends(t, infos, infos.len(), step, no_cell());
    lemma_extends_by_none(t.groups, walk(t, infos, infos.len(), step).unwrap().groups);
}

/// Pushing a group pushes that group onto the table of groups and no
/// other.
pub proof fn lemma_group_pushes_itself(t: PackagedTables, c: PackagedCellsView, cell: TableCell)
    requires
        with_group(t, c, cell) is Some,
    ensures
        with_group(t, c, cell).unwrap().groups == t.groups.push(cell),
{
    let groups = crate::engines::table::pushed(t.groups, cell).unwrap();
    let t1 = PackagedTables { groups, ..t };
    let group = c.groups[cell.slot as int];
    match group.files {
        GroupFilesView::Metadata(ReferenceSetView::Resolved(metadatas)) => {
            let step = metadata_walk();
            assert forall|s: PackagedTables, i: int|
                0 <= i < metadatas.len() && (#[trigger] step(s, metadatas[i]))
                    is Some implies extends(
                s.groups,
                step(s, metadatas[i]).unwrap().groups,
                no_cell(),
            ) by {}
            lemma_walk_extends(t1, metadatas, metadatas.len(), step, no_cell());
            lemma_extends_by_none(
                t1.groups,
                walk(t1, metadatas, metadatas.len(), step).unwrap().groups,
            );
        },
        GroupFilesView::Info(ReferenceSetView::Resolved(infos)) => {
            lemma_infos_keep_groups(t1, c, infos, true, group.is_version_group());
        },
        _ => {},
    }
}

/// Whether the record of a cell is a metadata-group.
pub open spec fn metadata_group_cell(c: PackagedCellsView) -> spec_fn(TableCell) -> bool {
    |cell: TableCell| cell.slot < c.groups.len() && c.groups[cell.slot as int].is_metadata_group()
}

/// Whether the record of a cell is an info-group and no version-group.
pub open spec fn plain_info_group_cell(c: PackagedCellsView) -> spec_fn(TableCell) -> bool {
    |cell: TableCell|
        cell.slot < c.groups.len() && c.groups[cell.slot as int].is_info_group()
            && !c.groups[cell.slot as int].is_version_group()
}

/// Whether the record of a cell is a version-group.
pub open spec fn version_group_cell(c: PackagedCellsView) -> spec_fn(TableCell) -> bool {
    |cell: TableCell| cell.slot < c.groups.len() && c.groups[cell.slot as int].is_version_group()
}

/// Whether every group of the package in `cell` is a metadata-group.
pub open spec fn package_of_metadata_groups(c: PackagedCellsView, cell: TableCell) -> bool {
    cell.slot < c.packages.len() ==> (c.packages[cell.slot as int].groups matches ReferenceSetView::Resolved(
        groups,
    ) ==> forall|i: int| 0 <= i < groups.len() ==> metadata_group_cell(c)(#[trigger] groups[i]))
}

/// Whether the group of the patch in `cell` is a version-group.
pub open spec fn patch_of_version_group(c: PackagedCellsView, cell: TableCell) -> bool {
    cell.slot < c.patches.len() ==> (c.patches[cell.slot as int].group matches TableReference::Resolved(
        group,
    ) ==> version_group_cell(c)(group))
}

/// Pushing a package whose groups are all metadata-groups extends the table
/// of groups by metadata-groups.
pub proof fn lemma_package_extends(t: PackagedTables, c: PackagedCellsView, cell: TableCell)
    requires
        package_of_metadata_groups(c, cell),
        with_package(t, c, cell) is Some,
    ensures
        extends(t.groups, with_package(t, c, cell).unwrap().groups, metadata_group_cell(c)),
{
    let packages = crate::engines::table::pushed(t.packages, cell).unwrap();
    let t1 = PackagedTables { packages, ..t };
    let package = c.packages[cell.slot as int];
    let groups = package.groups.cells();
    let children = package.child_packages.cells();
    let infos = package.infos.cells();
    let step = group_walk(c);
    assert forall|s: PackagedTables, i: int|
        0 <= i < groups.len() && (#[trigger] step(s, groups[i])) is Some implies extends(
        s.groups,
        step(s, groups[i]).unwrap().groups,
        metadata_group_cell(c),
    ) by {
        lemma_group_pushes_itself(s, c, groups[i]);
    }
    lemma_walk_extends(t1, groups, groups.len(), step, metadata_group_cell(c));
    let t2 = walk(t1, groups, groups.len(), step).unwrap();
    let child_step = child_package_walk();
    assert forall|s: PackagedTables, i: int|
        0 <= i < children.len() && (#[trigger] child_step(s, children[i])) is Some implies extends(
        s.groups,
        child_step(s, children[i]).unwrap().groups,
        no_cell(),
    ) by {}
    lemma_walk_extends(t2, children, children.len(), child_step, no_cell());
    let t3 = walk(t2, children, children.len(), child_step).unwrap();
    lemma_extends_by_none(t2.groups, t3.groups);
    lemma_infos_keep_groups(t3, c, infos, false, false);
}

/// Pushing a patch whose group is a version-group extends the table of
/// groups by that version-group.
pub proof fn lemma_patch_extends(t: PackagedTables, c: PackagedCellsView, cell: TableCell)
    requires
        patch_of_version_group(c, cell),
        with_patch(t, c, cell) is Some,
    ensures
        extends(t.groups, with_patch(t, c, cell).unwrap().groups, version_group_cell(c)),
{
    let patches = crate::engines::table::pushed(t.patches, cell).unwrap();
    let t1 = PackagedTables { patches, ..t };
    let patch = c.patches[cell.slot as int];
    let files = patch.versioned_files.cells();
    let group = patch.group->Resolved_0;
    let infos = patch.infos.cells();
    let file_step = versioned_file_walk();
    assert forall|s: PackagedTables, i: int|
        0 <= i < files.len() && (#[trigger] file_step(s, files[i])) is Some implies extends(
        s.groups,
        file_step(s, files[i]).unwrap().groups,
        no_cell(),
    ) by {}
    lemma_walk_extends(t1, files, files.len(), file_step, no_cell());
    let t2 = walk(t1, files, files.len(), file_step).unwrap();
    lemma_extends_by_none(t1.groups, t2.groups);
    lemma_group_pushes_itself(t2, c, group);
    let t3 = with_group(t2, c, group).unwrap();
    let held = c.groups[group.slot as int].files->Info_0.cells();
    let beyond = infos_beyond(infos, held.len());
    lemma_infos_keep_groups(t3, c, beyond, true, true);
}

/// The round over the info-groups extends the table of groups by
/// info-groups that are no version-groups.
pub proof fn lemma_info_groups_extend(
    t: PackagedTables,
    c: PackagedCellsView,
    groups: Seq<TableCell>,
    upto: nat,
)
    requires
        with_info_groups(t, c, groups, upto) is Some,
    ensures
        extends(
            t.groups,
            with_info_groups(t, c, groups, upto).unwrap().0.groups,
            plain_info_group_cell(c),
        ),
    decreases upto,
{
    if upto > 0 {
        lemma_info_groups_extend(t, c, groups, (upto - 1) as nat);
        let before = with_info_groups(t, c, groups, (upto - 1) as nat).unwrap().0;
        let cell = groups[upto - 1];
        let group = c.groups[cell.slot as int];
        if group.is_info_group() && !group.is_version_group() {
            lemma_group_pushes_itself(before, c, cell);
        }
    }
}

/// Whether the table of groups falls into three parts that follow each
/// other: metadata-groups up to `first`, then info-groups that are no
/// version-groups up to `second`, then version-groups.
pub open spec fn partitioned(
    groups: Seq<TableCell>,
    c: PackagedCellsView,
    first: int,
    second: int,
) -> bool {
    &&& 0 <= first <= second <= groups.len()
    &&& forall|i: int| 0 <= i < first ==> metadata_group_cell(c)(#[trigger] groups[i])
    &&& forall|i: int| first <= i < second ==> plain_info_group_cell(c)(#[trigger] groups[i])
    &&& forall|i: int| second <= i < groups.len() ==> version_group_cell(c)(#[trigger] groups[i])
}

/// How many groups the walk has pushed when it is through with the
/// packages.
pub open spec fn groups_after_packages(from: PackagedTables, c: PackagedCellsView) -> int {
    walk(empty_tables(), from.packages, from.packages.len(), package_walk(c)).unwrap().groups.len() as int
}

/// How many groups the walk has pushed when it is through with the
/// info-groups that are no version-groups.
pub open spec fn groups_after_info_groups(from: PackagedTables, c: PackagedCellsView) -> int {
    with_info_groups(
        walk(empty_tables(), from.packages, from.packages.len(), package_walk(c)).unwrap(),
        c,
        from.groups,
        from.groups.len(),
    ).unwrap().0.groups.len() as int
}

/// Where the groups of every package are metadata-groups and the group of
/// every patch is a version-group, the rebuilt table of groups falls into
/// three parts that follow each other: the metadata-groups, then the
/// info-groups that are no version-groups, then the version-groups.
pub proof fn lemma_group_partition(from: PackagedTables, c: PackagedCellsView)
    requires
        reorganized(from, c) is Some,
        forall|i: int|
            0 <= i < from.packages.len() ==> package_of_metadata_groups(
                c,
                #[trigger] from.packages[i],
            ),
        forall|i: int|
            0 <= i < from.patches.len() ==> patch_of_version_group(c, #[trigger] from.patches[i]),
    ensures
        partitioned(
            reorganized(from, c).unwrap().tables.groups,
            c,
            groups_after_packages(from, c),
            groups_after_info_groups(from, c),
        ),
{
    let step = package_walk(c);
    assert forall|s: PackagedTables, i: int|
        0 <= i < from.packages.len() && (#[trigger] step(s, from.packages[i]))
            is Some implies extends(
        s.groups,
        step(s, from.packages[i]).unwrap().groups,
        metadata_group_cell(c),
    ) by {
        lemma_package_extends(s, c, from.packages[i]);
    }
    lemma_walk_extends(
        empty_tables(),
        from.packages,
        from.packages.len(),
        step,
        metadata_group_cell(c),
    );
    let t1 = walk(empty_tables(), from.packages, from.packages.len(), step).unwrap();
    lemma_info_groups_extend(t1, c, from.groups, from.groups.len());
    let t2 = with_info_groups(t1, c, from.groups, from.groups.len()).unwrap().0;
    let patch_step = patch_walk(c);
    assert forall|s: PackagedTables, i: int|
        0 <= i < from.patches.len() && (#[trigger] patch_step(s, from.patches[i]))
            is Some implies extends(
        s.groups,
        patch_step(s, from.patches[i]).unwrap().groups,
        version_group_cell(c),
    ) by {
        lemma_patch_extends(s, c, from.patches[i]);
    }
    lemma_walk_extends(t2, from.patches, from.patches.len(), patch_step, version_group_cell(c));
    let t3 = walk(t2, from.patches, from.patches.len(), patch_step).unwrap();
    let groups = reorganized(from, c).unwrap().tables.groups;
    assert(groups == t3.groups);
    let first = t1.groups.len() as int;
    let second = t2.groups.len() as int;
    assert forall|i: int| 0 <= i < first implies metadata_group_cell(c)(#[trigger] groups[i]) by {
        assert(t2.groups[i] == t1.groups[i]);
        assert(t3.groups[i] == t2.groups[i]);
    }
    assert forall|i: int| first <= i < second implies plain_info_group_cell(c)(
        #[trigger] groups[i],
    ) by {
        assert(t3.groups[i] == t2.groups[i]);
    }
}

} // verus!
