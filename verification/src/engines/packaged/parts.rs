//! The three parts of the rebuilt tables of infos, descriptors and
//! metadatas.
//!
//! The walk only ever pushes onto a table. What it pushes while it goes
//! over the packages comes first, what it pushes for the info-groups that
//! are no version-groups follows, and what it pushes for the patches is
//! last. Each part holds what belongs to its owners: the infos of the
//! packages, of the info-groups and of the patches, the descriptors of
//! those infos, and the metadatas of the groups of the packages and of
//! those descriptors.
use vstd::prelude::*;

use crate::engines::packaged::partition::{
    extends, lemma_extends_by_none, no_cell, package_of_metadata_groups, patch_of_version_group,
};
use crate::engines::packaged::types::{DescriptorMetadataReference, GroupFilesView};
use crate::engines::packaged::writer::{
    child_package_walk, descriptor_walk, empty_tables, group_walk, info_walk, infos_beyond,
    metadata_walk, package_walk, patch_walk, reorganized, versioned_file_walk, with_descriptor,
    with_group, with_info, with_info_groups, with_package, with_patch,
};
use crate::engines::packaged::{PackagedCellsView, PackagedTables};
use crate::engines::rounds::walk;
use crate::engines::table::{pushed, ReferenceSetView, TableCell, TableReference};

verus! {

/// The table of infos.
pub open spec fn infos_of() -> spec_fn(PackagedTables) -> Seq<TableCell> {
    |t: PackagedTables| t.infos
}

/// The table of descriptors.
pub open spec fn descriptors_of() -> spec_fn(PackagedTables) -> Seq<TableCell> {
    |t: PackagedTables| t.descriptors
}

/// The table of metadatas.
pub open spec fn metadatas_of() -> spec_fn(PackagedTables) -> Seq<TableCell> {
    |t: PackagedTables| t.metadatas
}

/// The cells of `cells`.
pub open spec fn among(cells: Seq<TableCell>) -> spec_fn(TableCell) -> bool {
    |cell: TableCell| cells.contains(cell)
}

/// Whether the info in `info` has the descriptor `descriptor`.
pub open spec fn info_holds(c: PackagedCellsView, info: TableCell, descriptor: TableCell) -> bool {
    &&& info.slot < c.infos.len()
    &&& c.infos[info.slot as int].descriptors matches ReferenceSetView::Resolved(descriptors)
        && descriptors.contains(descriptor)
}

/// Whether the descriptor in `descriptor` has the metadata `metadata`.
pub open spec fn descriptor_holds(
    c: PackagedCellsView,
    descriptor: TableCell,
    metadata: TableCell,
) -> bool {
    &&& descriptor.slot < c.descriptors.len()
    &&& c.descriptors[descriptor.slot as int].metadata == DescriptorMetadataReference::Metadata(
        metadata,
    )
}

/// The descriptors of the infos of which `infos` holds.
pub open spec fn descriptors_under(c: PackagedCellsView, infos: spec_fn(TableCell) -> bool)
    -> spec_fn(TableCell) -> bool {
    |descriptor: TableCell|
        exists|info: TableCell| infos(info) && #[trigger] info_holds(c, info, descriptor)
}

/// The metadatas of the descriptors of which `descriptors` holds.
pub open spec fn metadatas_under(c: PackagedCellsView, descriptors: spec_fn(TableCell) -> bool)
    -> spec_fn(TableCell) -> bool {
    |metadata: TableCell|
        exists|descriptor: TableCell|
            descriptors(descriptor) && #[trigger] descriptor_holds(c, descriptor, metadata)
}

/// The one cell `cell`.
pub open spec fn only(cell: TableCell) -> spec_fn(TableCell) -> bool {
    |other: TableCell| other == cell
}

/// A table that is extended by some cells is extended by cells of any
/// kind that those cells are of.
pub proof fn lemma_extends_wider(
    before: Seq<TableCell>,
    after: Seq<TableCell>,
    good: spec_fn(TableCell) -> bool,
    wider: spec_fn(TableCell) -> bool,
)
    requires
        extends(before, after, good),
        forall|cell: TableCell| #[trigger] good(cell) ==> wider(cell),
    ensures
        extends(before, after, wider),
{
}

/// A table that is extended twice is extended.
pub proof fn lemma_extends_twice(
    before: Seq<TableCell>,
    between: Seq<TableCell>,
    after: Seq<TableCell>,
    good: spec_fn(TableCell) -> bool,
)
    requires
        extends(before, between, good),
        extends(between, after, good),
    ensures
        extends(before, after, good),
{
    assert forall|i: int| 0 <= i < before.len() implies #[trigger] after[i] == before[i] by {
        assert(between[i] == before[i]);
    }
}

/// A walk extends a table by good cells, where each of its steps does.
pub proof fn lemma_walk_grows(
    table: spec_fn(PackagedTables) -> Seq<TableCell>,
    state: PackagedTables,
    cells: Seq<TableCell>,
    upto: nat,
    step: spec_fn(PackagedTables, TableCell) -> Option<PackagedTables>,
    good: spec_fn(TableCell) -> bool,
)
    requires
        upto <= cells.len(),
        forall|t: PackagedTables, i: int|
            0 <= i < upto && (#[trigger] step(t, cells[i])) is Some ==> extends(
                table(t),
                table(step(t, cells[i]).unwrap()),
                good,
            ),
        walk(state, cells, upto, step) is Some,
    ensures
        extends(table(state), table(walk(state, cells, upto, step).unwrap()), good),
    decreases upto,
{
    if upto > 0 {
        lemma_walk_grows(table, state, cells, (upto - 1) as nat, step, good);
        let before = walk(state, cells, (upto - 1) as nat, step).unwrap();
        assert(step(before, cells[upto - 1]) is Some);
        lemma_extends_twice(
            table(state),
            table(before),
            table(step(before, cells[upto - 1]).unwrap()),
            good,
        );
    }
}

/// What pushing a descriptor does to the three tables: nothing to the
/// infos, the descriptor onto the descriptors, and at most its own
/// metadata onto the metadatas, none outside the info-groups.
pub proof fn lemma_descriptor_grows(
    t: PackagedTables,
    c: PackagedCellsView,
    cell: TableCell,
    info_group: bool,
    version_group: bool,
)
    requires
        with_descriptor(t, c, cell, info_group, version_group) is Some,
    ensures
        ({
            let after = with_descriptor(t, c, cell, info_group, version_group).unwrap();
            &&& after.infos == t.infos
            &&& extends(t.descriptors, after.descriptors, only(cell))
            &&& extends(t.metadatas, after.metadatas, metadatas_under(c, only(cell)))
            &&& !info_group && !version_group ==> after.metadatas == t.metadatas
        }),
{
    let after = with_descriptor(t, c, cell, info_group, version_group).unwrap();
    assert(after.descriptors == t.descriptors.push(cell));
    if after.metadatas != t.metadatas {
        let metadata = c.descriptors[cell.slot as int].metadata->Metadata_0;
        assert(after.metadatas == t.metadatas.push(metadata));
        assert(descriptor_holds(c, cell, metadata));
        assert(metadatas_under(c, only(cell))(metadata));
    }
}

/// What pushing an info does to the three tables: the info onto the infos,
/// its descriptors onto the descriptors, and metadatas of its descriptors
/// onto the metadatas, none outside the info-groups.
pub proof fn lemma_info_grows(
    t: PackagedTables,
    c: PackagedCellsView,
    cell: TableCell,
    info_group: bool,
    version_group: bool,
)
    requires
        with_info(t, c, cell, info_group, version_group) is Some,
    ensures
        ({
            let after = with_info(t, c, cell, info_group, version_group).unwrap();
            &&& extends(t.infos, after.infos, only(cell))
            &&& extends(t.descriptors, after.descriptors, descriptors_under(c, only(cell)))
            &&& extends(
                t.metadatas,
                after.metadatas,
                metadatas_under(c, descriptors_under(c, only(cell))),
            )
            &&& !info_group && !version_group ==> after.metadatas == t.metadatas
        }),
{
    let after = with_info(t, c, cell, info_group, version_group).unwrap();
    let t1 = PackagedTables { infos: pushed(t.infos, cell).unwrap(), ..t };
    let descriptors = c.infos[cell.slot as int].descriptors.cells();
    let step = descriptor_walk(c, info_group, version_group);
    let t2 = walk(t1, descriptors, descriptors.len(), step).unwrap();
    assert(after.infos == t2.infos && after.descriptors == t2.descriptors && after.metadatas
        == t2.metadatas);
    let good = descriptors_under(c, only(cell));
    assert forall|s: PackagedTables, i: int|
        0 <= i < descriptors.len() && (#[trigger] step(s, descriptors[i])) is Some implies extends(
        infos_of()(s),
        infos_of()(step(s, descriptors[i]).unwrap()),
        no_cell(),
    ) && extends(
        descriptors_of()(s),
        descriptors_of()(step(s, descriptors[i]).unwrap()),
        good,
    ) && extends(
        metadatas_of()(s),
        metadatas_of()(step(s, descriptors[i]).unwrap()),
        metadatas_under(c, good),
    ) && (!info_group && !version_group ==> extends(
        metadatas_of()(s),
        metadatas_of()(step(s, descriptors[i]).unwrap()),
        no_cell(),
    )) by {
        lemma_descriptor_grows(s, c, descriptors[i], info_group, version_group);
        let next = step(s, descriptors[i]).unwrap();
        assert(info_holds(c, cell, descriptors[i]));
        assert(good(descriptors[i]));
        lemma_extends_wider(s.descriptors, next.descriptors, only(descriptors[i]), good);
        assert forall|m: TableCell| #[trigger]
            metadatas_under(c, only(descriptors[i]))(m) implies metadatas_under(c, good)(m) by {
            assert(descriptor_holds(c, descriptors[i], m));
        }
        lemma_extends_wider(
            s.metadatas,
            next.metadatas,
            metadatas_under(c, only(descriptors[i])),
            metadatas_under(c, good),
        );
    }
    lemma_walk_grows(infos_of(), t1, descriptors, descriptors.len(), step, no_cell());
    lemma_extends_by_none(t1.infos, t2.infos);
    lemma_walk_grows(descriptors_of(), t1, descriptors, descriptors.len(), step, good);
    lemma_walk_grows(metadatas_of(), t1, descriptors, descriptors.len(), step, metadatas_under(c, good));
    if !info_group && !version_group {
        lemma_walk_grows(metadatas_of(), t1, descriptors, descriptors.len(), step, no_cell());
        lemma_extends_by_none(t1.metadatas, t2.metadatas);
    }
}


/// What a walk over infos does to the three tables: the infos of the walk
/// onto the infos, descriptors of theirs onto the descriptors, and
/// metadatas of those onto the metadatas, none outside the info-groups.
pub proof fn lemma_infos_grow(
    t: PackagedTables,
    c: PackagedCellsView,
    infos: Seq<TableCell>,
    info_group: bool,
    version_group: bool,
)
    requires
        walk(t, infos, infos.len(), info_walk(c, info_group, version_group)) is Some,
    ensures
        ({
            let after = walk(
                t,
                infos,
                infos.len(),
                info_walk(c, info_group, version_group),
            ).unwrap();
            &&& extends(t.infos, after.infos, among(infos))
            &&& extends(t.descriptors, after.descriptors, descriptors_under(c, among(infos)))
            &&& extends(
                t.metadatas,
                after.metadatas,
                metadatas_under(c, descriptors_under(c, among(infos))),
            )
            &&& !info_group && !version_group ==> after.metadatas == t.metadatas
        }),
{
    let step = info_walk(c, info_group, version_group);
    let after = walk(t, infos, infos.len(), step).unwrap();
    let good = among(infos);
    assert forall|s: PackagedTables, i: int|
        0 <= i < infos.len() && (#[trigger] step(s, infos[i])) is Some implies extends(
        infos_of()(s),
        infos_of()(step(s, infos[i]).unwrap()),
        good,
    ) && extends(
        descriptors_of()(s),
        descriptors_of()(step(s, infos[i]).unwrap()),
        descriptors_under(c, good),
    ) && extends(
        metadatas_of()(s),
        metadatas_of()(step(s, infos[i]).unwrap()),
        metadatas_under(c, descriptors_under(c, good)),
    ) && (!info_group && !version_group ==> extends(
        metadatas_of()(s),
        metadatas_of()(step(s, infos[i]).unwrap()),
        no_cell(),
    )) by {
        lemma_info_grows(s, c, infos[i], info_group, version_group);
        let next = step(s, infos[i]).unwrap();
        assert(good(infos[i]));
        lemma_extends_wider(s.infos, next.infos, only(infos[i]), good);
        lemma_under_wider(c, only(infos[i]), good);
        lemma_extends_wider(
            s.descriptors,
            next.descriptors,
            descriptors_under(c, only(infos[i])),
            descriptors_under(c, good),
        );
        lemma_extends_wider(
            s.metadatas,
            next.metadatas,
            metadatas_under(c, descriptors_under(c, only(infos[i]))),
            metadatas_under(c, descriptors_under(c, good)),
        );
    }
    lemma_walk_grows(infos_of(), t, infos, infos.len(), step, good);
    lemma_walk_grows(descriptors_of(), t, infos, infos.len(), step, descriptors_under(c, good));
    lemma_walk_grows(
        metadatas_of(),
        t,
        infos,
        infos.len(),
        step,
        metadatas_under(c, descriptors_under(c, good)),
    );
    if !info_group && !version_group {
        lemma_walk_grows(metadatas_of(), t, infos, infos.len(), step, no_cell());
        lemma_extends_by_none(t.metadatas, after.metadatas);
    }
}

/// The descriptors and the metadatas under more infos are more.
pub proof fn lemma_under_wider(
    c: PackagedCellsView,
    infos: spec_fn(TableCell) -> bool,
    wider: spec_fn(TableCell) -> bool,
)
    requires
        forall|cell: TableCell| #[trigger] infos(cell) ==> wider(cell),
    ensures
        forall|cell: TableCell| #[trigger]
            descriptors_under(c, infos)(cell) ==> descriptors_under(c, wider)(cell),
        forall|cell: TableCell| #[trigger]
            metadatas_under(c, descriptors_under(c, infos))(cell) ==> metadatas_under(
                c,
                descriptors_under(c, wider),
            )(cell),
{
    assert forall|cell: TableCell| #[trigger]
        descriptors_under(c, infos)(cell) implies descriptors_under(c, wider)(cell) by {
        let info = choose|info: TableCell| infos(info) && #[trigger] info_holds(c, info, cell);
        assert(wider(info) && info_holds(c, info, cell));
    }
    assert forall|cell: TableCell| #[trigger]
        metadatas_under(c, descriptors_under(c, infos))(cell) implies metadatas_under(
        c,
        descriptors_under(c, wider),
    )(cell) by {
        let descriptor = choose|descriptor: TableCell|
            descriptors_under(c, infos)(descriptor) && #[trigger] descriptor_holds(
                c,
                descriptor,
                cell,
            );
        assert(descriptors_under(c, wider)(descriptor) && descriptor_holds(c, descriptor, cell));
    }
}

/// Whether the group in `group` is an info-group that holds the info
/// `info`.
pub open spec fn group_has_info(c: PackagedCellsView, group: TableCell, info: TableCell) -> bool {
    group.slot < c.groups.len() && (c.groups[group.slot as int].files matches GroupFilesView::Info(
        ReferenceSetView::Resolved(infos),
    ) && infos.contains(info))
}

/// The infos of the group in `group`, where it is an info-group.
pub open spec fn group_infos(c: PackagedCellsView, group: TableCell) -> spec_fn(TableCell) -> bool {
    |cell: TableCell| group_has_info(c, group, cell)
}

/// The metadatas of the group in `group`, where it is a metadata-group.
pub open spec fn group_metadatas(c: PackagedCellsView, group: TableCell) -> spec_fn(
    TableCell,
) -> bool {
    |cell: TableCell|
        group.slot < c.groups.len() && (c.groups[group.slot as int].files matches GroupFilesView::Metadata(
            ReferenceSetView::Resolved(metadatas),
        ) && metadatas.contains(cell))
}

/// What pushing a group does to the three tables. A metadata-group leaves
/// the infos and the descriptors as they are and pushes metadatas of its
/// own. An info-group pushes its infos, descriptors of theirs and
/// metadatas of those.
pub proof fn lemma_group_grows(t: PackagedTables, c: PackagedCellsView, cell: TableCell)
    requires
        with_group(t, c, cell) is Some,
    ensures
        ({
            let after = with_group(t, c, cell).unwrap();
            let group = c.groups[cell.slot as int];
            &&& cell.slot < c.groups.len()
            &&& group.is_metadata_group() ==> after.infos == t.infos && after.descriptors
                == t.descriptors && extends(t.metadatas, after.metadatas, group_metadatas(c, cell))
            &&& extends(t.infos, after.infos, group_infos(c, cell))
            &&& extends(t.descriptors, after.descriptors, descriptors_under(c, group_infos(c, cell)))
            &&& group.is_info_group() ==> extends(
                t.metadatas,
                after.metadatas,
                metadatas_under(c, descriptors_under(c, group_infos(c, cell))),
            )
        }),
{
    let after = with_group(t, c, cell).unwrap();
    let t1 = PackagedTables { groups: pushed(t.groups, cell).unwrap(), ..t };
    let group = c.groups[cell.slot as int];
    match group.files {
        GroupFilesView::Metadata(ReferenceSetView::Resolved(metadatas)) => {
            let step = metadata_walk();
            assert forall|s: PackagedTables, i: int|
                0 <= i < metadatas.len() && (#[trigger] step(s, metadatas[i]))
                    is Some implies extends(
                infos_of()(s),
                infos_of()(step(s, metadatas[i]).unwrap()),
                no_cell(),
            ) && extends(
                descriptors_of()(s),
                descriptors_of()(step(s, metadatas[i]).unwrap()),
                no_cell(),
            ) && extends(
                metadatas_of()(s),
                metadatas_of()(step(s, metadatas[i]).unwrap()),
                group_metadatas(c, cell),
            ) by {
                let next = step(s, metadatas[i]).unwrap();
                if next.metadatas != s.metadatas {
                    assert(next.metadatas == s.metadatas.push(metadatas[i]));
                    assert(group_metadatas(c, cell)(metadatas[i]));
                }
            }
            lemma_walk_grows(infos_of(), t1, metadatas, metadatas.len(), step, no_cell());
            lemma_walk_grows(descriptors_of(), t1, metadatas, metadatas.len(), step, no_cell());
            lemma_walk_grows(
                metadatas_of(),
                t1,
                metadatas,
                metadatas.len(),
                step,
                group_metadatas(c, cell),
            );
            lemma_extends_by_none(t1.infos, after.infos);
            lemma_extends_by_none(t1.descriptors, after.descriptors);
        },
        GroupFilesView::Info(ReferenceSetView::Resolved(infos)) => {
            lemma_infos_grow(t1, c, infos, true, group.is_version_group());
            assert forall|x: TableCell| #[trigger] among(infos)(x) implies group_infos(c, cell)(
                x,
            ) by {}
            lemma_under_wider(c, among(infos), group_infos(c, cell));
            lemma_extends_wider(t.infos, after.infos, among(infos), group_infos(c, cell));
            lemma_extends_wider(
                t.descriptors,
                after.descriptors,
                descriptors_under(c, among(infos)),
                descriptors_under(c, group_infos(c, cell)),
            );
            lemma_extends_wider(
                t.metadatas,
                after.metadatas,
                metadatas_under(c, descriptors_under(c, among(infos))),
                metadatas_under(c, descriptors_under(c, group_infos(c, cell))),
            );
        },
        _ => {},
    }
}


/// Whether the package in `package` holds the info `info`.
pub open spec fn package_holds(c: PackagedCellsView, package: TableCell, info: TableCell) -> bool {
    &&& package.slot < c.packages.len()
    &&& c.packages[package.slot as int].infos matches ReferenceSetView::Resolved(infos)
        && infos.contains(info)
}

/// Whether the package in `package` has the group `group`, and that group
/// holds the metadata `metadata`.
pub open spec fn package_group_holds(
    c: PackagedCellsView,
    package: TableCell,
    group: TableCell,
    metadata: TableCell,
) -> bool {
    &&& package.slot < c.packages.len()
    &&& c.packages[package.slot as int].groups matches ReferenceSetView::Resolved(groups)
        && groups.contains(group)
    &&& group_metadatas(c, group)(metadata)
}

/// Whether the patch in `patch` holds the info `info`, itself or in its
/// group.
pub open spec fn patch_holds(c: PackagedCellsView, patch: TableCell, info: TableCell) -> bool {
    &&& patch.slot < c.patches.len()
    &&& {
        ||| c.patches[patch.slot as int].group matches TableReference::Resolved(group)
            && group_has_info(c, group, info)
        ||| c.patches[patch.slot as int].infos matches ReferenceSetView::Resolved(infos)
            && infos.contains(info)
    }
}

/// The infos of the packages of `packages`.
pub open spec fn package_infos(c: PackagedCellsView, packages: Seq<TableCell>) -> spec_fn(
    TableCell,
) -> bool {
    |info: TableCell|
        exists|package: TableCell|
            packages.contains(package) && #[trigger] package_holds(c, package, info)
}

/// The metadatas of the groups of the packages of `packages`.
pub open spec fn package_metadatas(c: PackagedCellsView, packages: Seq<TableCell>) -> spec_fn(
    TableCell,
) -> bool {
    |metadata: TableCell|
        exists|package: TableCell, group: TableCell|
            packages.contains(package) && #[trigger] package_group_holds(
                c,
                package,
                group,
                metadata,
            )
}

/// The infos of those groups of `groups` that are info-groups and no
/// version-groups.
pub open spec fn info_group_infos(c: PackagedCellsView, groups: Seq<TableCell>) -> spec_fn(
    TableCell,
) -> bool {
    |info: TableCell|
        exists|group: TableCell|
            groups.contains(group) && !c.groups[group.slot as int].is_version_group()
                && #[trigger] group_has_info(c, group, info)
}

/// The infos of the patches of `patches` and of their groups.
pub open spec fn patch_infos(c: PackagedCellsView, patches: Seq<TableCell>) -> spec_fn(
    TableCell,
) -> bool {
    |info: TableCell|
        exists|patch: TableCell| patches.contains(patch) && #[trigger] patch_holds(c, patch, info)
}

/// What pushing a package does to the three tables, where its groups are
/// metadata-groups: its infos onto the infos, descriptors of theirs onto
/// the descriptors, and metadatas of its groups onto the metadatas.
pub proof fn lemma_package_grows(
    t: PackagedTables,
    c: PackagedCellsView,
    packages: Seq<TableCell>,
    cell: TableCell,
)
    requires
        packages.contains(cell),
        package_of_metadata_groups(c, cell),
        with_package(t, c, cell) is Some,
    ensures
        ({
            let after = with_package(t, c, cell).unwrap();
            &&& extends(t.infos, after.infos, package_infos(c, packages))
            &&& extends(
                t.descriptors,
                after.descriptors,
                descriptors_under(c, package_infos(c, packages)),
            )
            &&& extends(t.metadatas, after.metadatas, package_metadatas(c, packages))
        }),
{
    let after = with_package(t, c, cell).unwrap();
    let t1 = PackagedTables { packages: pushed(t.packages, cell).unwrap(), ..t };
    let package = c.packages[cell.slot as int];
    let groups = package.groups.cells();
    let children = package.child_packages.cells();
    let infos = package.infos.cells();
    let step = group_walk(c);
    assert forall|s: PackagedTables, i: int|
        0 <= i < groups.len() && (#[trigger] step(s, groups[i])) is Some implies extends(
        infos_of()(s),
        infos_of()(step(s, groups[i]).unwrap()),
        no_cell(),
    ) && extends(
        descriptors_of()(s),
        descriptors_of()(step(s, groups[i]).unwrap()),
        no_cell(),
    ) && extends(
        metadatas_of()(s),
        metadatas_of()(step(s, groups[i]).unwrap()),
        package_metadatas(c, packages),
    ) by {
        lemma_group_grows(s, c, groups[i]);
        let next = step(s, groups[i]).unwrap();
        assert forall|m: TableCell| #[trigger]
            group_metadatas(c, groups[i])(m) implies package_metadatas(c, packages)(m) by {
            assert(package_group_holds(c, cell, groups[i], m));
        }
        lemma_extends_wider(
            s.metadatas,
            next.metadatas,
            group_metadatas(c, groups[i]),
            package_metadatas(c, packages),
        );
    }
    lemma_walk_grows(infos_of(), t1, groups, groups.len(), step, no_cell());
    lemma_walk_grows(descriptors_of(), t1, groups, groups.len(), step, no_cell());
    lemma_walk_grows(metadatas_of(), t1, groups, groups.len(), step, package_metadatas(c, packages));
    let t2 = walk(t1, groups, groups.len(), step).unwrap();
    lemma_extends_by_none(t1.infos, t2.infos);
    lemma_extends_by_none(t1.descriptors, t2.descriptors);
    let child_step = child_package_walk();
    assert forall|s: PackagedTables, i: int|
        0 <= i < children.len() && (#[trigger] child_step(s, children[i])) is Some implies extends(
        infos_of()(s),
        infos_of()(child_step(s, children[i]).unwrap()),
        no_cell(),
    ) && extends(
        descriptors_of()(s),
        descriptors_of()(child_step(s, children[i]).unwrap()),
        no_cell(),
    ) && extends(
        metadatas_of()(s),
        metadatas_of()(child_step(s, children[i]).unwrap()),
        no_cell(),
    ) by {}
    lemma_walk_grows(infos_of(), t2, children, children.len(), child_step, no_cell());
    lemma_walk_grows(descriptors_of(), t2, children, children.len(), child_step, no_cell());
    lemma_walk_grows(metadatas_of(), t2, children, children.len(), child_step, no_cell());
    let t3 = walk(t2, children, children.len(), child_step).unwrap();
    lemma_extends_by_none(t2.infos, t3.infos);
    lemma_extends_by_none(t2.descriptors, t3.descriptors);
    lemma_extends_by_none(t2.metadatas, t3.metadatas);
    lemma_infos_grow(t3, c, infos, false, false);
    assert forall|x: TableCell| #[trigger] among(infos)(x) implies package_infos(c, packages)(
        x,
    ) by {
        assert(package_holds(c, cell, x));
    }
    lemma_under_wider(c, among(infos), package_infos(c, packages));
    lemma_extends_wider(t.infos, after.infos, among(infos), package_infos(c, packages));
    lemma_extends_wider(
        t.descriptors,
        after.descriptors,
        descriptors_under(c, among(infos)),
        descriptors_under(c, package_infos(c, packages)),
    );
}

/// What pushing a patch does to the three tables, where its group is a
/// version-group: infos of the patch and of its group onto the infos,
/// descriptors of theirs onto the descriptors, and metadatas of those onto
/// the metadatas.
pub proof fn lemma_patch_grows(
    t: PackagedTables,
    c: PackagedCellsView,
    patches: Seq<TableCell>,
    cell: TableCell,
)
    requires
        patches.contains(cell),
        patch_of_version_group(c, cell),
        with_patch(t, c, cell) is Some,
    ensures
        ({
            let after = with_patch(t, c, cell).unwrap();
            let good = patch_infos(c, patches);
            &&& extends(t.infos, after.infos, good)
            &&& extends(t.descriptors, after.descriptors, descriptors_under(c, good))
            &&& extends(
                t.metadatas,
                after.metadatas,
                metadatas_under(c, descriptors_under(c, good)),
            )
        }),
{
    let after = with_patch(t, c, cell).unwrap();
    let good = patch_infos(c, patches);
    let t1 = PackagedTables { patches: pushed(t.patches, cell).unwrap(), ..t };
    let patch = c.patches[cell.slot as int];
    let files = patch.versioned_files.cells();
    let group = patch.group->Resolved_0;
    let infos = patch.infos.cells();
    let file_step = versioned_file_walk();
    assert forall|s: PackagedTables, i: int|
        0 <= i < files.len() && (#[trigger] file_step(s, files[i])) is Some implies extends(
        infos_of()(s),
        infos_of()(file_step(s, files[i]).unwrap()),
        no_cell(),
    ) && extends(
        descriptors_of()(s),
        descriptors_of()(file_step(s, files[i]).unwrap()),
        no_cell(),
    ) && extends(
        metadatas_of()(s),
        metadatas_of()(file_step(s, files[i]).unwrap()),
        no_cell(),
    ) by {}
    lemma_walk_grows(infos_of(), t1, files, files.len(), file_step, no_cell());
    lemma_walk_grows(descriptors_of(), t1, files, files.len(), file_step, no_cell());
    lemma_walk_grows(metadatas_of(), t1, files, files.len(), file_step, no_cell());
    let t2 = walk(t1, files, files.len(), file_step).unwrap();
    lemma_extends_by_none(t1.infos, t2.infos);
    lemma_extends_by_none(t1.descriptors, t2.descriptors);
    lemma_extends_by_none(t1.metadatas, t2.metadatas);
    lemma_group_grows(t2, c, group);
    let t3 = with_group(t2, c, group).unwrap();
    assert forall|x: TableCell| #[trigger] group_infos(c, group)(x) implies good(x) by {
        assert(patch_holds(c, cell, x));
    }
    lemma_under_wider(c, group_infos(c, group), good);
    lemma_extends_wider(t2.infos, t3.infos, group_infos(c, group), good);
    lemma_extends_wider(
        t2.descriptors,
        t3.descriptors,
        descriptors_under(c, group_infos(c, group)),
        descriptors_under(c, good),
    );
    lemma_extends_wider(
        t2.metadatas,
        t3.metadatas,
        metadatas_under(c, descriptors_under(c, group_infos(c, group))),
        metadatas_under(c, descriptors_under(c, good)),
    );
    let held = c.groups[group.slot as int].files->Info_0.cells();
    let beyond = infos_beyond(infos, held.len());
    lemma_infos_grow(t3, c, beyond, true, true);
    assert forall|x: TableCell| #[trigger] among(beyond)(x) implies good(x) by {
        let k = choose|k: int| 0 <= k < beyond.len() && beyond[k] == x;
        assert(infos[held.len() + k] == x);
        assert(patch_holds(c, cell, x));
    }
    lemma_under_wider(c, among(beyond), good);
    lemma_extends_wider(t3.infos, after.infos, among(beyond), good);
    lemma_extends_wider(
        t3.descriptors,
        after.descriptors,
        descriptors_under(c, among(beyond)),
        descriptors_under(c, good),
    );
    lemma_extends_wider(
        t3.metadatas,
        after.metadatas,
        metadatas_under(c, descriptors_under(c, among(beyond))),
        metadatas_under(c, descriptors_under(c, good)),
    );
    lemma_extends_twice(t.infos, t3.infos, after.infos, good);
    lemma_extends_twice(t.descriptors, t3.descriptors, after.descriptors, descriptors_under(c, good));
    lemma_extends_twice(
        t.metadatas,
        t3.metadatas,
        after.metadatas,
        metadatas_under(c, descriptors_under(c, good)),
    );
}


/// What the round over the info-groups does to the three tables: infos of
/// the info-groups that are no version-groups onto the infos, descriptors
/// of theirs onto the descriptors, and metadatas of those onto the
/// metadatas.
pub proof fn lemma_info_groups_grow(
    t: PackagedTables,
    c: PackagedCellsView,
    groups: Seq<TableCell>,
    upto: nat,
)
    requires
        upto <= groups.len(),
        with_info_groups(t, c, groups, upto) is Some,
    ensures
        ({
            let after = with_info_groups(t, c, groups, upto).unwrap().0;
            let good = info_group_infos(c, groups);
            &&& extends(t.infos, after.infos, good)
            &&& extends(t.descriptors, after.descriptors, descriptors_under(c, good))
            &&& extends(
                t.metadatas,
                after.metadatas,
                metadatas_under(c, descriptors_under(c, good)),
            )
        }),
    decreases upto,
{
    if upto > 0 {
        lemma_info_groups_grow(t, c, groups, (upto - 1) as nat);
        let good = info_group_infos(c, groups);
        let before = with_info_groups(t, c, groups, (upto - 1) as nat).unwrap().0;
        let after = with_info_groups(t, c, groups, upto).unwrap().0;
        let cell = groups[upto - 1];
        let group = c.groups[cell.slot as int];
        if group.is_info_group() && !group.is_version_group() {
            lemma_group_grows(before, c, cell);
            assert(after == with_group(before, c, cell).unwrap());
            assert forall|x: TableCell| #[trigger] group_infos(c, cell)(x) implies good(x) by {
                assert(groups.contains(cell));
                assert(group_has_info(c, cell, x));
            }
            lemma_under_wider(c, group_infos(c, cell), good);
            lemma_extends_wider(before.infos, after.infos, group_infos(c, cell), good);
            lemma_extends_wider(
                before.descriptors,
                after.descriptors,
                descriptors_under(c, group_infos(c, cell)),
                descriptors_under(c, good),
            );
            lemma_extends_wider(
                before.metadatas,
                after.metadatas,
                metadatas_under(c, descriptors_under(c, group_infos(c, cell))),
                metadatas_under(c, descriptors_under(c, good)),
            );
            lemma_extends_twice(t.infos, before.infos, after.infos, good);
            lemma_extends_twice(
                t.descriptors,
                before.descriptors,
                after.descriptors,
                descriptors_under(c, good),
            );
            lemma_extends_twice(
                t.metadatas,
                before.metadatas,
                after.metadatas,
                metadatas_under(c, descriptors_under(c, good)),
            );
        }
    }
}

/// Whether a table falls into three parts that follow each other: cells of
/// the first kind up to `first`, then cells of the second kind up to
/// `second`, then cells of the third kind.
pub open spec fn in_three_parts(
    table: Seq<TableCell>,
    first: int,
    second: int,
    first_kind: spec_fn(TableCell) -> bool,
    second_kind: spec_fn(TableCell) -> bool,
    third_kind: spec_fn(TableCell) -> bool,
) -> bool {
    &&& 0 <= first <= second <= table.len()
    &&& forall|i: int| 0 <= i < first ==> first_kind(#[trigger] table[i])
    &&& forall|i: int| first <= i < second ==> second_kind(#[trigger] table[i])
    &&& forall|i: int| second <= i < table.len() ==> third_kind(#[trigger] table[i])
}

/// The tables when the walk is through with the packages.
pub open spec fn after_packages(from: PackagedTables, c: PackagedCellsView) -> PackagedTables {
    walk(empty_tables(), from.packages, from.packages.len(), package_walk(c)).unwrap()
}

/// The tables when the walk is through with the info-groups that are no
/// version-groups.
pub open spec fn after_info_groups(from: PackagedTables, c: PackagedCellsView) -> PackagedTables {
    with_info_groups(after_packages(from, c), c, from.groups, from.groups.len()).unwrap().0
}

/// Three tables that grow one from the other, each by cells of its kind,
/// make a table in three parts.
pub proof fn lemma_three_parts(
    first: Seq<TableCell>,
    second: Seq<TableCell>,
    third: Seq<TableCell>,
    first_kind: spec_fn(TableCell) -> bool,
    second_kind: spec_fn(TableCell) -> bool,
    third_kind: spec_fn(TableCell) -> bool,
)
    requires
        extends(Seq::empty(), first, first_kind),
        extends(first, second, second_kind),
        extends(second, third, third_kind),
    ensures
        in_three_parts(
            third,
            first.len() as int,
            second.len() as int,
            first_kind,
            second_kind,
            third_kind,
        ),
{
    assert forall|i: int| 0 <= i < first.len() implies first_kind(#[trigger] third[i]) by {
        assert(second[i] == first[i]);
        assert(third[i] == second[i]);
    }
    assert forall|i: int| first.len() <= i < second.len() implies second_kind(
        #[trigger] third[i],
    ) by {
        assert(third[i] == second[i]);
    }
}

/// Where the groups of every package are metadata-groups and the group of
/// every patch is a version-group, the rebuilt tables of infos, of
/// descriptors and of metadatas fall into three parts each, in the order of
/// the groups. The infos: those of the packages, those of the info-groups
/// that are no version-groups, those of the patches. The descriptors: those
/// of the infos of each part. The metadatas: those of the groups of the
/// packages, then those of the descriptors of the second and of the third
/// part.
pub proof fn lemma_table_parts(from: PackagedTables, c: PackagedCellsView)
    requires
        reorganized(from, c) is Some,
        forall|i: int|
            0 <= i < from.packages.len() ==> package_of_metadata_groups(
                c,
                #[trigger] from.packages[i],
            ),
        forall|i: int|
            0 <= i < from.patches.len() ==> patch_of_version_group(c, #[trigger] from.patches[i]),
    ensures
        ({
            let tables = reorganized(from, c).unwrap().tables;
            let first = after_packages(from, c);
            let second = after_info_groups(from, c);
            let of_packages = package_infos(c, from.packages);
            let of_groups = info_group_infos(c, from.groups);
            let of_patches = patch_infos(c, from.patches);
            &&& in_three_parts(
                tables.infos,
                first.infos.len() as int,
                second.infos.len() as int,
                of_packages,
                of_groups,
                of_patches,
            )
            &&& in_three_parts(
                tables.descriptors,
                first.descriptors.len() as int,
                second.descriptors.len() as int,
                descriptors_under(c, of_packages),
                descriptors_under(c, of_groups),
                descriptors_under(c, of_patches),
            )
            &&& in_three_parts(
                tables.metadatas,
                first.metadatas.len() as int,
                second.metadatas.len() as int,
                package_metadatas(c, from.packages),
                metadatas_under(c, descriptors_under(c, of_groups)),
                metadatas_under(c, descriptors_under(c, of_patches)),
            )
        }),
{
    let tables = reorganized(from, c).unwrap().tables;
    let first = after_packages(from, c);
    let second = after_info_groups(from, c);
    let of_packages = package_infos(c, from.packages);
    let of_groups = info_group_infos(c, from.groups);
    let of_patches = patch_infos(c, from.patches);
    let step = package_walk(c);
    assert forall|s: PackagedTables, i: int|
        0 <= i < from.packages.len() && (#[trigger] step(s, from.packages[i]))
            is Some implies extends(
        infos_of()(s),
        infos_of()(step(s, from.packages[i]).unwrap()),
        of_packages,
    ) && extends(
        descriptors_of()(s),
        descriptors_of()(step(s, from.packages[i]).unwrap()),
        descriptors_under(c, of_packages),
    ) && extends(
        metadatas_of()(s),
        metadatas_of()(step(s, from.packages[i]).unwrap()),
        package_metadatas(c, from.packages),
    ) by {
        lemma_package_grows(s, c, from.packages, from.packages[i]);
    }
    lemma_walk_grows(
        infos_of(),
        empty_tables(),
        from.packages,
        from.packages.len(),
        step,
        of_packages,
    );
    lemma_walk_grows(
        descriptors_of(),
        empty_tables(),
        from.packages,
        from.packages.len(),
        step,
        descriptors_under(c, of_packages),
    );
    lemma_walk_grows(
        metadatas_of(),
        empty_tables(),
        from.packages,
        from.packages.len(),
        step,
        package_metadatas(c, from.packages),
    );
    lemma_info_groups_grow(first, c, from.groups, from.groups.len());
    let patch_step = patch_walk(c);
    assert forall|s: PackagedTables, i: int|
        0 <= i < from.patches.len() && (#[trigger] patch_step(s, from.patches[i]))
            is Some implies extends(
        infos_of()(s),
        infos_of()(patch_step(s, from.patches[i]).unwrap()),
        of_patches,
    ) && extends(
        descriptors_of()(s),
        descriptors_of()(patch_step(s, from.patches[i]).unwrap()),
        descriptors_under(c, of_patches),
    ) && extends(
        metadatas_of()(s),
        metadatas_of()(patch_step(s, from.patches[i]).unwrap()),
        metadatas_under(c, descriptors_under(c, of_patches)),
    ) by {
        lemma_patch_grows(s, c, from.patches, from.patches[i]);
    }
    lemma_walk_grows(
        infos_of(),
        second,
        from.patches,
        from.patches.len(),
        patch_step,
        of_patches,
    );
    lemma_walk_grows(
        descriptors_of(),
        second,
        from.patches,
        from.patches.len(),
        patch_step,
        descriptors_under(c, of_patches),
    );
    lemma_walk_grows(
        metadatas_of(),
        second,
        from.patches,
        from.patches.len(),
        patch_step,
        metadatas_under(c, descriptors_under(c, of_patches)),
    );
    let third = walk(second, from.patches, from.patches.len(), patch_step).unwrap();
    assert(tables == third);
    lemma_three_parts(
        first.infos,
        second.infos,
        tables.infos,
        of_packages,
        of_groups,
        of_patches,
    );
    lemma_three_parts(
        first.descriptors,
        second.descriptors,
        tables.descriptors,
        descriptors_under(c, of_packages),
        descriptors_under(c, of_groups),
        descriptors_under(c, of_patches),
    );
    lemma_three_parts(
        first.metadatas,
        second.metadatas,
        tables.metadatas,
        package_metadatas(c, from.packages),
        metadatas_under(c, descriptors_under(c, of_groups)),
        metadatas_under(c, descriptors_under(c, of_patches)),
    );
}

} // verus!
