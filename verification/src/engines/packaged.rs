//! The packaged filesystem: packages, groups, paths, links, infos,
//! descriptors and metadatas, with the patches laid over them.
use vstd::prelude::*;
use std::collections::BTreeMap;

pub mod bucket_map;
pub mod encode;
pub mod layout;
pub mod order;
pub mod partition;
pub mod parts;
pub mod records;
pub mod serialize;
pub mod types;
pub mod writer;

use crate::engines::packaged::bucket_map::{
    all_listed, bucket_entries, bucket_insert, bucket_lookup, bucket_of, find_hash,
    lemma_bucket_insert_grows, well_bucketed, BucketMap,
};
use crate::engines::packaged::types::{
    ChildPackage, Descriptor, DescriptorLoadArguments, DescriptorLoadArgumentsPatchReference,
    DescriptorMetadataReference, Group, GroupFileReference, GroupFilesView, GroupView, Info,
    InfoView, Link, LinkOwnerReference, Metadata, Package, PackageView, Patch, PatchView, Path,
    VersionedFile,
};
use crate::engines::rounds::{
    lemma_pass_fails, lemma_pass_fixed, lemma_pass_idempotent, lemma_pass_keeps, lemma_pass_settles,
    pass,
};
use crate::engines::table::{
    CellIds, CellStore, ReferenceSetView, TableCell, TableReference, TableReferenceSet,
};
use crate::bytes::{read_u32, u32_at};
use crate::engines::packaged::serialize::{PackagedDirectory, PackagedDirectoryView};
use crate::engines::{
    identity_cells, identity_table, read_records_at, read_table, records_at, views, whole_table,
    Hash40, TableRecord, Version,
};
use crate::ArchiveError;

verus! {

/// Resolving one package against the tables.
pub open spec fn package_step(
    groups: Seq<TableCell>,
    infos: Seq<TableCell>,
    child_packages: Seq<TableCell>,
) -> spec_fn(PackageView, int) -> Option<PackageView> {
    |package: PackageView, index: int|
        if package.resolvable(groups.len(), infos.len(), child_packages.len()) {
            Some(package.resolved(groups, infos, child_packages))
        } else {
            None
        }
}

/// Resolves every package of `table`. Returns whether all of them could be
/// resolved; the round stops at the first that cannot.
pub fn resolve_packages(
    store: &mut CellStore<Package>,
    table: &[TableCell],
    groups: &[TableCell],
    infos: &[TableCell],
    child_packages: &[TableCell],
) -> (done: bool)
    ensures
        final(store)@.len() == old(store)@.len(),
        done == pass(
            views(old(store)@),
            table@,
            table@.len(),
            package_step(groups@, infos@, child_packages@),
        ).is_some(),
        done ==> Some(views(final(store)@)) == pass(
            views(old(store)@),
            table@,
            table@.len(),
            package_step(groups@, infos@, child_packages@),
        ),
{
    let ghost step = package_step(groups@, infos@, child_packages@);
    let ghost start = views(old(store)@);
    let mut i: usize = 0;
    while i < table.len()
        invariant
            i <= table@.len(),
            store@.len() == old(store)@.len(),
            step == package_step(groups@, infos@, child_packages@),
            start == views(old(store)@),
            pass(start, table@, i as nat, step) == Some(views(store@)),
        decreases table@.len() - i,
    {
        let cell = table[i];
        let ghost before = views(store@);
        if !store.contains(&cell) {
            proof {
                lemma_pass_fails(start, table@, (i + 1) as nat, table@.len(), step);
            }
            return false;
        }
        let record = cell.get_mut(store);
        if !record.can_resolve(groups.len(), infos.len(), child_packages.len()) {
            proof {
                lemma_pass_fails(start, table@, (i + 1) as nat, table@.len(), step);
            }
            return false;
        }
        record.resolve(groups, infos, child_packages);
        assert(views(store@) =~= before.update(
            cell.slot as int,
            before[cell.slot as int].resolved(groups@, infos@, child_packages@),
        ));
        i = i + 1;
    }
    true
}


/// Resolving one child-package entry against the tables.
pub open spec fn child_package_step(packages: Seq<TableCell>) -> spec_fn(ChildPackage, int) -> Option<ChildPackage> {
    |record: ChildPackage, index: int|
        if record.resolvable(packages.len()) {
            Some(record.resolved(packages))
        } else {
            None
        }
}

/// Resolves every child-package entry of `table`. Returns whether all of them could
/// be resolved; the round stops at the first that cannot.
pub fn resolve_child_packages(
    store: &mut CellStore<ChildPackage>,
    table: &[TableCell],
    packages: &[TableCell],
) -> (done: bool)
    ensures
        final(store)@.len() == old(store)@.len(),
        done == pass(views(old(store)@), table@, table@.len(), child_package_step(packages@)).is_some(),
        done ==> Some(views(final(store)@)) == pass(
            views(old(store)@),
            table@,
            table@.len(),
            child_package_step(packages@),
        ),
{
    let ghost step = child_package_step(packages@);
    let ghost start = views(old(store)@);
    let mut i: usize = 0;
    while i < table.len()
        invariant
            i <= table@.len(),
            store@.len() == old(store)@.len(),
            step == child_package_step(packages@),
            start == views(old(store)@),
            pass(start, table@, i as nat, step) == Some(views(store@)),
        decreases table@.len() - i,
    {
        let cell = table[i];
        let ghost before = views(store@);
        if !store.contains(&cell) {
            proof {
                lemma_pass_fails(start, table@, (i + 1) as nat, table@.len(), step);
            }
            return false;
        }
        let record = cell.get_mut(store);
        if !record.can_resolve(packages.len()) {
            proof {
                lemma_pass_fails(start, table@, (i + 1) as nat, table@.len(), step);
            }
            return false;
        }
        record.resolve(packages);
        assert(views(store@) =~= before.update(
            cell.slot as int,
            before[cell.slot as int].resolved(packages@),
        ));
        i = i + 1;
    }
    true
}

/// Resolving one group against the tables.
pub open spec fn group_step(packages: Seq<TableCell>, groups: Seq<TableCell>, infos: Seq<TableCell>, metadatas: Seq<TableCell>) -> spec_fn(GroupView, int) -> Option<GroupView> {
    |record: GroupView, index: int|
        if record.resolvable(packages.len(), groups.len(), infos.len(), metadatas.len(), index as usize) {
            Some(record.resolved(packages, groups, infos, metadatas, index as usize))
        } else {
            None
        }
}

/// Resolves every group of `table`. Returns whether all of them could
/// be resolved; the round stops at the first that cannot.
pub fn resolve_groups(
    store: &mut CellStore<Group>,
    table: &[TableCell],
    packages: &[TableCell],
    groups: &[TableCell],
    infos: &[TableCell],
    metadatas: &[TableCell],
) -> (done: bool)
    ensures
        final(store)@.len() == old(store)@.len(),
        done == pass(views(old(store)@), table@, table@.len(), group_step(packages@, groups@, infos@, metadatas@)).is_some(),
        done ==> Some(views(final(store)@)) == pass(
            views(old(store)@),
            table@,
            table@.len(),
            group_step(packages@, groups@, infos@, metadatas@),
        ),
{
    let ghost step = group_step(packages@, groups@, infos@, metadatas@);
    let ghost start = views(old(store)@);
    let mut i: usize = 0;
    while i < table.len()
        invariant
            i <= table@.len(),
            store@.len() == old(store)@.len(),
            step == group_step(packages@, groups@, infos@, metadatas@),
            start == views(old(store)@),
            pass(start, table@, i as nat, step) == Some(views(store@)),
        decreases table@.len() - i,
    {
        let cell = table[i];
        let ghost before = views(store@);
        if !store.contains(&cell) {
            proof {
                lemma_pass_fails(start, table@, (i + 1) as nat, table@.len(), step);
            }
            return false;
        }
        let record = cell.get_mut(store);
        if !record.can_resolve(packages.len(), groups.len(), infos.len(), metadatas.len(), i) {
            proof {
                lemma_pass_fails(start, table@, (i + 1) as nat, table@.len(), step);
            }
            return false;
        }
        record.resolve(packages, groups, infos, metadatas, i);
        assert(views(store@) =~= before.update(
            cell.slot as int,
            before[cell.slot as int].resolved(packages@, groups@, infos@, metadatas@, i),
        ));
        i = i + 1;
    }
    true
}

/// Resolving one path against the tables.
pub open spec fn path_step(links: Seq<TableCell>, versioned_files: Seq<TableCell>, versioned_file_offset: usize) -> spec_fn(Path, int) -> Option<Path> {
    |record: Path, index: int|
        if record.resolvable(links.len(), versioned_files.len(), versioned_file_offset as int) {
            Some(record.resolved(links, versioned_files, versioned_file_offset as int))
        } else {
            None
        }
}

/// Resolves every path of `table`. Returns whether all of them could
/// be resolved; the round stops at the first that cannot.
pub fn resolve_paths(
    store: &mut CellStore<Path>,
    table: &[TableCell],
    links: &[TableCell],
    versioned_files: &[TableCell],
    versioned_file_offset: usize,
) -> (done: bool)
    ensures
        final(store)@.len() == old(store)@.len(),
        done == pass(views(old(store)@), table@, table@.len(), path_step(links@, versioned_files@, versioned_file_offset)).is_some(),
        done ==> Some(views(final(store)@)) == pass(
            views(old(store)@),
            table@,
            table@.len(),
            path_step(links@, versioned_files@, versioned_file_offset),
        ),
{
    let ghost step = path_step(links@, versioned_files@, versioned_file_offset);
    let ghost start = views(old(store)@);
    let mut i: usize = 0;
    while i < table.len()
        invariant
            i <= table@.len(),
            store@.len() == old(store)@.len(),
            step == path_step(links@, versioned_files@, versioned_file_offset),
            start == views(old(store)@),
            pass(start, table@, i as nat, step) == Some(views(store@)),
        decreases table@.len() - i,
    {
        let cell = table[i];
        let ghost before = views(store@);
        if !store.contains(&cell) {
            proof {
                lemma_pass_fails(start, table@, (i + 1) as nat, table@.len(), step);
            }
            return false;
        }
        let record = cell.get_mut(store);
        if !record.can_resolve(links.len(), versioned_files.len(), versioned_file_offset) {
            proof {
                lemma_pass_fails(start, table@, (i + 1) as nat, table@.len(), step);
            }
            return false;
        }
        record.resolve(links, versioned_files, versioned_file_offset);
        assert(views(store@) =~= before.update(
            cell.slot as int,
            before[cell.slot as int].resolved(links@, versioned_files@, versioned_file_offset as int),
        ));
        i = i + 1;
    }
    true
}

/// Resolving one link against the tables.
pub open spec fn link_step(packages: Seq<TableCell>, groups: Seq<TableCell>, infos: Seq<TableCell>) -> spec_fn(Link, int) -> Option<Link> {
    |record: Link, index: int|
        if record.resolvable(packages.len(), groups.len(), infos.len()) {
            Some(record.resolved(packages, groups, infos))
        } else {
            None
        }
}

/// Resolves every link of `table`. Returns whether all of them could
/// be resolved; the round stops at the first that cannot.
pub fn resolve_links(
    store: &mut CellStore<Link>,
    table: &[TableCell],
    packages: &[TableCell],
    groups: &[TableCell],
    infos: &[TableCell],
) -> (done: bool)
    ensures
        final(store)@.len() == old(store)@.len(),
        done == pass(views(old(store)@), table@, table@.len(), link_step(packages@, groups@, infos@)).is_some(),
        done ==> Some(views(final(store)@)) == pass(
            views(old(store)@),
            table@,
            table@.len(),
            link_step(packages@, groups@, infos@),
        ),
{
    let ghost step = link_step(packages@, groups@, infos@);
    let ghost start = views(old(store)@);
    let mut i: usize = 0;
    while i < table.len()
        invariant
            i <= table@.len(),
            store@.len() == old(store)@.len(),
            step == link_step(packages@, groups@, infos@),
            start == views(old(store)@),
            pass(start, table@, i as nat, step) == Some(views(store@)),
        decreases table@.len() - i,
    {
        let cell = table[i];
        let ghost before = views(store@);
        if !store.contains(&cell) {
            proof {
                lemma_pass_fails(start, table@, (i + 1) as nat, table@.len(), step);
            }
            return false;
        }
        let record = cell.get_mut(store);
        if !record.can_resolve(packages.len(), groups.len(), infos.len()) {
            proof {
                lemma_pass_fails(start, table@, (i + 1) as nat, table@.len(), step);
            }
            return false;
        }
        record.resolve(packages, groups, infos);
        assert(views(store@) =~= before.update(
            cell.slot as int,
            before[cell.slot as int].resolved(packages@, groups@, infos@),
        ));
        i = i + 1;
    }
    true
}

/// Resolving one info against the tables.
pub open spec fn info_step(paths: Seq<TableCell>, links: Seq<TableCell>, descriptors: Seq<TableCell>) -> spec_fn(InfoView, int) -> Option<InfoView> {
    |record: InfoView, index: int|
        if record.resolvable(paths.len(), links.len(), descriptors.len()) {
            Some(record.resolved(paths, links, descriptors))
        } else {
            None
        }
}

/// Resolves every info of `table`. Returns whether all of them could
/// be resolved; the round stops at the first that cannot.
pub fn resolve_infos(
    store: &mut CellStore<Info>,
    table: &[TableCell],
    paths: &[TableCell],
    links: &[TableCell],
    descriptors: &[TableCell],
) -> (done: bool)
    ensures
        final(store)@.len() == old(store)@.len(),
        done == pass(views(old(store)@), table@, table@.len(), info_step(paths@, links@, descriptors@)).is_some(),
        done ==> Some(views(final(store)@)) == pass(
            views(old(store)@),
            table@,
            table@.len(),
            info_step(paths@, links@, descriptors@),
        ),
{
    let ghost step = info_step(paths@, links@, descriptors@);
    let ghost start = views(old(store)@);
    let mut i: usize = 0;
    while i < table.len()
        invariant
            i <= table@.len(),
            store@.len() == old(store)@.len(),
            step == info_step(paths@, links@, descriptors@),
            start == views(old(store)@),
            pass(start, table@, i as nat, step) == Some(views(store@)),
        decreases table@.len() - i,
    {
        let cell = table[i];
        let ghost before = views(store@);
        if !store.contains(&cell) {
            proof {
                lemma_pass_fails(start, table@, (i + 1) as nat, table@.len(), step);
            }
            return false;
        }
        let record = cell.get_mut(store);
        if !record.can_resolve(paths.len(), links.len(), descriptors.len()) {
            proof {
                lemma_pass_fails(start, table@, (i + 1) as nat, table@.len(), step);
            }
            return false;
        }
        record.resolve(paths, links, descriptors);
        assert(views(store@) =~= before.update(
            cell.slot as int,
            before[cell.slot as int].resolved(paths@, links@, descriptors@),
        ));
        i = i + 1;
    }
    true
}

/// Resolving one descriptor against the tables.
pub open spec fn descriptor_step(groups: Seq<TableCell>, links: Seq<TableCell>, infos: Seq<TableCell>, metadatas: Seq<TableCell>, patches: Seq<TableCell>, info_offset: usize, is_versioned: bool) -> spec_fn(Descriptor, int) -> Option<Descriptor> {
    |record: Descriptor, index: int|
        if record.resolvable(groups.len(), links.len(), infos.len(), metadatas.len(), patches.len(), info_offset as int, is_versioned) {
            Some(record.resolved(groups, links, infos, metadatas, patches, info_offset as int, is_versioned))
        } else {
            None
        }
}

/// Resolves every descriptor of `table`. Returns whether all of them could
/// be resolved; the round stops at the first that cannot.
pub fn resolve_descriptors(
    store: &mut CellStore<Descriptor>,
    table: &[TableCell],
    groups: &[TableCell],
    links: &[TableCell],
    infos: &[TableCell],
    metadatas: &[TableCell],
    patches: &[TableCell],
    info_offset: usize,
    is_versioned: bool,
) -> (done: bool)
    ensures
        final(store)@.len() == old(store)@.len(),
        done == pass(views(old(store)@), table@, table@.len(), descriptor_step(groups@, links@, infos@, metadatas@, patches@, info_offset, is_versioned)).is_some(),
        done ==> Some(views(final(store)@)) == pass(
            views(old(store)@),
            table@,
            table@.len(),
            descriptor_step(groups@, links@, infos@, metadatas@, patches@, info_offset, is_versioned),
        ),
{
    let ghost step = descriptor_step(groups@, links@, infos@, metadatas@, patches@, info_offset, is_versioned);
    let ghost start = views(old(store)@);
    let mut i: usize = 0;
    while i < table.len()
        invariant
            i <= table@.len(),
            store@.len() == old(store)@.len(),
            step == descriptor_step(groups@, links@, infos@, metadatas@, patches@, info_offset, is_versioned),
            start == views(old(store)@),
            pass(start, table@, i as nat, step) == Some(views(store@)),
        decreases table@.len() - i,
    {
        let cell = table[i];
        let ghost before = views(store@);
        if !store.contains(&cell) {
            proof {
                lemma_pass_fails(start, table@, (i + 1) as nat, table@.len(), step);
            }
            return false;
        }
        let record = cell.get_mut(store);
        if !record.can_resolve(groups.len(), links.len(), infos.len(), metadatas.len(), patches.len(), info_offset, is_versioned) {
            proof {
                lemma_pass_fails(start, table@, (i + 1) as nat, table@.len(), step);
            }
            return false;
        }
        record.resolve(groups, links, infos, metadatas, patches, info_offset, is_versioned);
        assert(views(store@) =~= before.update(
            cell.slot as int,
            before[cell.slot as int].resolved(groups@, links@, infos@, metadatas@, patches@, info_offset as int, is_versioned),
        ));
        i = i + 1;
    }
    true
}

/// Resolving one patch against the tables.
pub open spec fn patch_step(versioned_files: Seq<TableCell>, infos: Seq<TableCell>, groups: Seq<TableCell>, info_offset: usize) -> spec_fn(PatchView, int) -> Option<PatchView> {
    |record: PatchView, index: int|
        if record.resolvable(versioned_files.len(), infos.len(), groups.len(), index, info_offset as int) {
            Some(record.resolved(versioned_files, infos, groups, index, info_offset as int))
        } else {
            None
        }
}

/// Resolves every patch of `table`. Returns whether all of them could
/// be resolved; the round stops at the first that cannot.
pub fn resolve_patches(
    store: &mut CellStore<Patch>,
    table: &[TableCell],
    versioned_files: &[TableCell],
    infos: &[TableCell],
    groups: &[TableCell],
    info_offset: usize,
) -> (done: bool)
    ensures
        final(store)@.len() == old(store)@.len(),
        done == pass(views(old(store)@), table@, table@.len(), patch_step(versioned_files@, infos@, groups@, info_offset)).is_some(),
        done ==> Some(views(final(store)@)) == pass(
            views(old(store)@),
            table@,
            table@.len(),
            patch_step(versioned_files@, infos@, groups@, info_offset),
        ),
{
    let ghost step = patch_step(versioned_files@, infos@, groups@, info_offset);
    let ghost start = views(old(store)@);
    let mut i: usize = 0;
    while i < table.len()
        invariant
            i <= table@.len(),
            store@.len() == old(store)@.len(),
            step == patch_step(versioned_files@, infos@, groups@, info_offset),
            start == views(old(store)@),
            pass(start, table@, i as nat, step) == Some(views(store@)),
        decreases table@.len() - i,
    {
        let cell = table[i];
        let ghost before = views(store@);
        if !store.contains(&cell) {
            proof {
                lemma_pass_fails(start, table@, (i + 1) as nat, table@.len(), step);
            }
            return false;
        }
        let record = cell.get_mut(store);
        if !record.can_resolve(versioned_files.len(), infos.len(), groups.len(), i, info_offset) {
            proof {
                lemma_pass_fails(start, table@, (i + 1) as nat, table@.len(), step);
            }
            return false;
        }
        record.resolve(versioned_files, infos, groups, i, info_offset);
        assert(views(store@) =~= before.update(
            cell.slot as int,
            before[cell.slot as int].resolved(versioned_files@, infos@, groups@, i as int, info_offset as int),
        ));
        i = i + 1;
    }
    true
}

/// Resolving one versioned file against the tables.
pub open spec fn versioned_file_step(links: Seq<TableCell>, infos: Seq<TableCell>) -> spec_fn(VersionedFile, int) -> Option<VersionedFile> {
    |record: VersionedFile, index: int|
        if record.resolvable(links.len(), infos.len()) {
            Some(record.resolved(links, infos))
        } else {
            None
        }
}

/// Resolves every versioned file of `table`. Returns whether all of them could
/// be resolved; the round stops at the first that cannot.
pub fn resolve_versioned_files(
    store: &mut CellStore<VersionedFile>,
    table: &[TableCell],
    links: &[TableCell],
    infos: &[TableCell],
) -> (done: bool)
    ensures
        final(store)@.len() == old(store)@.len(),
        done == pass(views(old(store)@), table@, table@.len(), versioned_file_step(links@, infos@)).is_some(),
        done ==> Some(views(final(store)@)) == pass(
            views(old(store)@),
            table@,
            table@.len(),
            versioned_file_step(links@, infos@),
        ),
{
    let ghost step = versioned_file_step(links@, infos@);
    let ghost start = views(old(store)@);
    let mut i: usize = 0;
    while i < table.len()
        invariant
            i <= table@.len(),
            store@.len() == old(store)@.len(),
            step == versioned_file_step(links@, infos@),
            start == views(old(store)@),
            pass(start, table@, i as nat, step) == Some(views(store@)),
        decreases table@.len() - i,
    {
        let cell = table[i];
        let ghost before = views(store@);
        if !store.contains(&cell) {
            proof {
                lemma_pass_fails(start, table@, (i + 1) as nat, table@.len(), step);
            }
            return false;
        }
        let record = cell.get_mut(store);
        if !record.can_resolve(links.len(), infos.len()) {
            proof {
                lemma_pass_fails(start, table@, (i + 1) as nat, table@.len(), step);
            }
            return false;
        }
        record.resolve(links, infos);
        assert(views(store@) =~= before.update(
            cell.slot as int,
            before[cell.slot as int].resolved(links@, infos@),
        ));
        i = i + 1;
    }
    true
}


/// How far the first info of `group` lies behind the first info of the
/// table, counted in slots of the store; for cells that got their
/// identifiers store after store this is the difference of their
/// identifiers. There is no such number where the
/// group is not an info-group, has no info, or the table has none.
pub open spec fn first_info_delta(group: GroupView, infos: Seq<TableCell>) -> Option<usize> {
    match group.files {
        GroupFilesView::Info(ReferenceSetView::Resolved(cells)) => if cells.len() > 0
            && infos.len() > 0 && cells[0].slot >= infos[0].slot && cells[0].slot - infos[0].slot
            <= usize::MAX {
            Some((cells[0].slot - infos[0].slot) as usize)
        } else {
            None
        },
        _ => None,
    }
}

/// Where the infos of the info-groups start (or, with `version_only`, the
/// infos of the version-groups): the [`first_info_delta`] of the first such
/// group among the first `upto` cells of `table` for which it is not zero,
/// and zero where there is none.
pub open spec fn group_info_start(
    groups: Seq<GroupView>,
    table: Seq<TableCell>,
    infos: Seq<TableCell>,
    upto: nat,
    version_only: bool,
) -> Option<usize>
    decreases upto,
{
    if upto == 0 {
        Some(0)
    } else {
        match group_info_start(groups, table, infos, (upto - 1) as nat, version_only) {
            None => None,
            Some(found) => {
                let cell = table[upto - 1];
                if cell.slot >= groups.len() {
                    None
                } else {
                    let group = groups[cell.slot as int];
                    let counts = if version_only {
                        group.is_version_group()
                    } else {
                        group.is_info_group()
                    };
                    if counts && found == 0 {
                        first_info_delta(group, infos)
                    } else {
                        Some(found)
                    }
                }
            },
        }
    }
}

/// Where the infos of the last group of `table` start: the place from which
/// the files of the latest patch are counted.
pub open spec fn latest_info_start(
    groups: Seq<GroupView>,
    table: Seq<TableCell>,
    infos: Seq<TableCell>,
) -> Option<usize> {
    if table.len() == 0 || table.last().slot >= groups.len() {
        None
    } else {
        first_info_delta(groups[table.last().slot as int], infos)
    }
}

/// Computes [`first_info_delta`].
pub fn info_delta_of(group: &Group, infos: &[TableCell]) -> (delta: Option<usize>)
    ensures
        delta == first_info_delta(group@, infos@),
{
    match &group.files {
        GroupFileReference::Info(set) => match &set.0 {
            TableReferenceSet::Resolved(cells) => {
                if cells.len() > 0 && infos.len() > 0 && cells[0].slot >= infos[0].slot
                    && cells[0].slot - infos[0].slot <= usize::MAX as u64 {
                    Some((cells[0].slot - infos[0].slot) as usize)
                } else {
                    None
                }
            },
            TableReferenceSet::Unresolved(_) => None,
        },
        _ => None,
    }
}

/// Computes [`group_info_start`] over the whole table.
pub fn find_group_info_start(
    store: &CellStore<Group>,
    table: &[TableCell],
    infos: &[TableCell],
    version_only: bool,
) -> (start: Option<usize>)
    ensures
        start == group_info_start(views(store@), table@, infos@, table@.len(), version_only),
{
    let mut found: usize = 0;
    let mut i: usize = 0;
    while i < table.len()
        invariant
            i <= table@.len(),
            group_info_start(views(store@), table@, infos@, i as nat, version_only) == Some(found),
        decreases table@.len() - i,
    {
        let cell = table[i];
        match store.lookup(&cell) {
            None => {
                proof {
                    lemma_group_info_start_fails(
                        views(store@),
                        table@,
                        infos@,
                        (i + 1) as nat,
                        table@.len(),
                        version_only,
                    );
                }
                return None;
            },
            Some(group) => {
                let counts = if version_only {
                    group.is_version_group()
                } else {
                    group.is_info_group()
                };
                if counts && found == 0 {
                    match info_delta_of(group, infos) {
                        None => {
                            proof {
                                lemma_group_info_start_fails(
                                    views(store@),
                                    table@,
                                    infos@,
                                    (i + 1) as nat,
                                    table@.len(),
                                    version_only,
                                );
                            }
                            return None;
                        },
                        Some(delta) => {
                            found = delta;
                        },
                    }
                }
            },
        }
        i = i + 1;
    }
    Some(found)
}

/// Where the start is not found among some cells, it is not found among
/// more cells either.
pub proof fn lemma_group_info_start_fails(
    groups: Seq<GroupView>,
    table: Seq<TableCell>,
    infos: Seq<TableCell>,
    short: nat,
    long: nat,
    version_only: bool,
)
    requires
        short <= long,
        group_info_start(groups, table, infos, short, version_only) is None,
    ensures
        group_info_start(groups, table, infos, long, version_only) is None,
    decreases long,
{
    if short < long {
        lemma_group_info_start_fails(groups, table, infos, short, (long - 1) as nat, version_only);
    }
}

/// Whether the last group of `table` is an info-group. Only then is there
/// a latest patch whose files a path can name.
pub open spec fn ends_with_info_group(groups: Seq<GroupView>, table: Seq<TableCell>) -> bool {
    table.len() > 0 && table.last().slot < groups.len() && groups[table.last().slot as int].is_info_group()
}

/// Computes [`ends_with_info_group`].
pub fn last_is_info_group(store: &CellStore<Group>, table: &[TableCell]) -> (b: bool)
    ensures
        b == ends_with_info_group(views(store@), table@),
{
    if table.len() == 0 {
        return false;
    }
    let cell = table[table.len() - 1];
    match store.lookup(&cell) {
        None => false,
        Some(group) => group.is_info_group(),
    }
}

/// Computes [`latest_info_start`].
pub fn find_latest_info_start(store: &CellStore<Group>, table: &[TableCell], infos: &[TableCell]) -> (start:
    Option<usize>)
    ensures
        start == latest_info_start(views(store@), table@, infos@),
{
    if table.len() == 0 {
        return None;
    }
    let cell = table[table.len() - 1];
    match store.lookup(&cell) {
        None => None,
        Some(group) => info_delta_of(group, infos),
    }
}

/// The handle tables that a descriptor is resolved against.
pub struct DescriptorTables {
    pub groups: Seq<TableCell>,
    pub links: Seq<TableCell>,
    pub infos: Seq<TableCell>,
    pub metadatas: Seq<TableCell>,
    pub patches: Seq<TableCell>,
}

/// By how much the info index of a package skip is moved: the descriptors of
/// the infos before the info-groups count from the start of the info-groups.
pub open spec fn info_offset_at(index: int, info_group_info_start: usize) -> usize {
    if index >= info_group_info_start {
        0
    } else {
        info_group_info_start
    }
}

/// The round over the descriptors: for each of the first `upto` infos of
/// `table`, in order, each descriptor of the info is resolved. The index of
/// the info decides by how much a package skip is moved and whether the
/// descriptor belongs to a versioned file.
pub open spec fn info_descriptors(
    descriptors: Seq<Descriptor>,
    infos: Seq<InfoView>,
    table: Seq<TableCell>,
    upto: nat,
    tables: DescriptorTables,
    info_group_info_start: usize,
    version_group_info_start: usize,
) -> Option<Seq<Descriptor>>
    decreases upto,
{
    if upto == 0 {
        Some(descriptors)
    } else {
        match info_descriptors(
            descriptors,
            infos,
            table,
            (upto - 1) as nat,
            tables,
            info_group_info_start,
            version_group_info_start,
        ) {
            None => None,
            Some(records) => {
                let cell = table[upto - 1];
                if cell.slot >= infos.len() {
                    None
                } else {
                    match infos[cell.slot as int].descriptors {
                        ReferenceSetView::Unresolved(_) => None,
                        ReferenceSetView::Resolved(cells) => pass(
                            records,
                            cells,
                            cells.len(),
                            descriptor_step(
                                tables.groups,
                                tables.links,
                                tables.infos,
                                tables.metadatas,
                                tables.patches,
                                info_offset_at(upto - 1, info_group_info_start),
                                upto - 1 >= version_group_info_start,
                            ),
                        ),
                    }
                }
            },
        }
    }
}

/// The round over the descriptors fails for more infos where it fails for
/// some.
pub proof fn lemma_info_descriptors_fails(
    descriptors: Seq<Descriptor>,
    infos: Seq<InfoView>,
    table: Seq<TableCell>,
    short: nat,
    long: nat,
    tables: DescriptorTables,
    info_group_info_start: usize,
    version_group_info_start: usize,
)
    requires
        short <= long,
        info_descriptors(
            descriptors,
            infos,
            table,
            short,
            tables,
            info_group_info_start,
            version_group_info_start,
        ) is None,
    ensures
        info_descriptors(
            descriptors,
            infos,
            table,
            long,
            tables,
            info_group_info_start,
            version_group_info_start,
        ) is None,
    decreases long,
{
    if short < long {
        lemma_info_descriptors_fails(
            descriptors,
            infos,
            table,
            short,
            (long - 1) as nat,
            tables,
            info_group_info_start,
            version_group_info_start,
        );
    }
}

/// Resolves the descriptors of every info of `table`. Returns whether all of
/// them could be resolved; the round stops at the first that cannot.
pub fn resolve_info_descriptors(
    store: &mut CellStore<Descriptor>,
    info_store: &CellStore<Info>,
    table: &[TableCell],
    groups: &[TableCell],
    links: &[TableCell],
    metadatas: &[TableCell],
    patches: &[TableCell],
    info_group_info_start: usize,
    version_group_info_start: usize,
) -> (done: bool)
    ensures
        final(store)@.len() == old(store)@.len(),
        done == info_descriptors(
            views(old(store)@),
            views(info_store@),
            table@,
            table@.len(),
            DescriptorTables {
                groups: groups@,
                links: links@,
                infos: table@,
                metadatas: metadatas@,
                patches: patches@,
            },
            info_group_info_start,
            version_group_info_start,
        ).is_some(),
        done ==> Some(views(final(store)@)) == info_descriptors(
            views(old(store)@),
            views(info_store@),
            table@,
            table@.len(),
            DescriptorTables {
                groups: groups@,
                links: links@,
                infos: table@,
                metadatas: metadatas@,
                patches: patches@,
            },
            info_group_info_start,
            version_group_info_start,
        ),
{
    let ghost tables = DescriptorTables {
        groups: groups@,
        links: links@,
        infos: table@,
        metadatas: metadatas@,
        patches: patches@,
    };
    let ghost start = views(old(store)@);
    let ghost infos = views(info_store@);
    let mut i: usize = 0;
    while i < table.len()
        invariant
            i <= table@.len(),
            store@.len() == old(store)@.len(),
            start == views(old(store)@),
            infos == views(info_store@),
            tables == (DescriptorTables {
                groups: groups@,
                links: links@,
                infos: table@,
                metadatas: metadatas@,
                patches: patches@,
            }),
            info_descriptors(
                start,
                infos,
                table@,
                i as nat,
                tables,
                info_group_info_start,
                version_group_info_start,
            ) == Some(views(store@)),
        decreases table@.len() - i,
    {
        let cell = table[i];
        let info_offset: usize = if i >= info_group_info_start {
            0
        } else {
            info_group_info_start
        };
        let is_versioned = i >= version_group_info_start;
        let mut done = false;
        match info_store.lookup(&cell) {
            None => {},
            Some(info) => {
                if info.descriptors.0.is_resolved() {
                    done =
                    resolve_descriptors(
                        store,
                        info.descriptors.0.cells(),
                        groups,
                        links,
                        table,
                        metadatas,
                        patches,
                        info_offset,
                        is_versioned,
                    );
                }
            },
        }
        if !done {
            proof {
                lemma_info_descriptors_fails(
                    start,
                    infos,
                    table@,
                    (i + 1) as nat,
                    table@.len(),
                    tables,
                    info_group_info_start,
                    version_group_info_start,
                );
            }
            return false;
        }
        i = i + 1;
    }
    true
}

/// The records of the packaged filesystem, one store for each table.
pub struct PackagedCells {
    pub packages: CellStore<Package>,
    pub child_packages: CellStore<ChildPackage>,
    pub groups: CellStore<Group>,
    pub paths: CellStore<Path>,
    pub links: CellStore<Link>,
    pub infos: CellStore<Info>,
    pub descriptors: CellStore<Descriptor>,
    pub metadatas: CellStore<Metadata>,
    pub patches: CellStore<Patch>,
    pub versioned_files: CellStore<VersionedFile>,
}

/// What [`PackagedCells`] holds.
pub struct PackagedCellsView {
    pub packages: Seq<PackageView>,
    pub child_packages: Seq<ChildPackage>,
    pub groups: Seq<GroupView>,
    pub paths: Seq<Path>,
    pub links: Seq<Link>,
    pub infos: Seq<InfoView>,
    pub descriptors: Seq<Descriptor>,
    pub metadatas: Seq<Metadata>,
    pub patches: Seq<PatchView>,
    pub versioned_files: Seq<VersionedFile>,
}

impl PackagedCells {
    /// Whether the five cells of an added file have the identifiers from
    /// `base` on: the metadata, the descriptor, the link, the path and the
    /// info, in this order.
    pub open spec fn added_from(&self, new: AddedCells, base: int) -> bool {
        &&& self.metadatas.names(new.metadata) && self.metadatas.guid_of(new.metadata) == base
        &&& self.descriptors.names(new.descriptor) && self.descriptors.guid_of(new.descriptor)
            == base + 1
        &&& self.links.names(new.link) && self.links.guid_of(new.link) == base + 2
        &&& self.paths.names(new.path) && self.paths.guid_of(new.path) == base + 3
        &&& self.infos.names(new.info) && self.infos.guid_of(new.info) == base + 4
    }

    /// Whether the cells of the ten stores have the identifiers from `base`
    /// on, store after store: the packages, the child-package entries, the
    /// groups, the paths, the links, the infos, the descriptors, the
    /// metadatas, the patches and the versioned files.
    pub open spec fn numbered_from(&self, base: int) -> bool {
        let a = base + self.packages@.len();
        let b = a + self.child_packages@.len();
        let c = b + self.groups@.len();
        let d = c + self.paths@.len();
        let e = d + self.links@.len();
        let f = e + self.infos@.len();
        let g = f + self.descriptors@.len();
        let h = g + self.metadatas@.len();
        let i = h + self.patches@.len();
        &&& self.packages.numbered_from(base)
        &&& self.child_packages.numbered_from(a)
        &&& self.groups.numbered_from(b)
        &&& self.paths.numbered_from(c)
        &&& self.links.numbered_from(d)
        &&& self.infos.numbered_from(e)
        &&& self.descriptors.numbered_from(f)
        &&& self.metadatas.numbered_from(g)
        &&& self.patches.numbered_from(h)
        &&& self.versioned_files.numbered_from(i)
    }

    /// Counts the cells of the ten stores.
    pub fn count(&self) -> (count: u128)
        ensures
            count == self@.cell_count(),
            count <= 10 * 0xFFFF_FFFF_FFFF_FFFFu128,
    {
        self.packages.len() as u128 + self.child_packages.len() as u128 + self.groups.len() as u128
            + self.paths.len() as u128 + self.links.len() as u128 + self.infos.len() as u128
            + self.descriptors.len() as u128 + self.metadatas.len() as u128
            + self.patches.len() as u128 + self.versioned_files.len() as u128
    }

    /// Gives every cell of the ten stores the next identifier of the
    /// counter, store after store. Does nothing and returns false where the
    /// counter has not that many identifiers left.
    pub fn name_all(&mut self, ids: &mut CellIds) -> (done: bool)
        ensures
            done == old(ids).room(old(self)@.cell_count()),
            final(self)@ == old(self)@,
            done ==> final(self).numbered_from(old(ids).next as int) && final(ids).next == old(ids).next + old(self)@.cell_count(),
            !done ==> final(ids).next == old(ids).next,
    {
        if self.count() > (u64::MAX - ids.next) as u128 {
            return false;
        }
        self.packages.name_all(ids);
        self.child_packages.name_all(ids);
        self.groups.name_all(ids);
        self.paths.name_all(ids);
        self.links.name_all(ids);
        self.infos.name_all(ids);
        self.descriptors.name_all(ids);
        self.metadatas.name_all(ids);
        self.patches.name_all(ids);
        self.versioned_files.name_all(ids);
        true
    }
}

impl View for PackagedCells {
    type V = PackagedCellsView;

    open spec fn view(&self) -> PackagedCellsView {
        PackagedCellsView {
            packages: views(self.packages@),
            child_packages: views(self.child_packages@),
            groups: views(self.groups@),
            paths: views(self.paths@),
            links: views(self.links@),
            infos: views(self.infos@),
            descriptors: views(self.descriptors@),
            metadatas: views(self.metadatas@),
            patches: views(self.patches@),
            versioned_files: views(self.versioned_files@),
        }
    }
}

/// One table of handles for each table of the packaged filesystem.
pub struct PackagedTables {
    pub packages: Seq<TableCell>,
    pub child_packages: Seq<TableCell>,
    pub groups: Seq<TableCell>,
    pub paths: Seq<TableCell>,
    pub links: Seq<TableCell>,
    pub infos: Seq<TableCell>,
    pub descriptors: Seq<TableCell>,
    pub metadatas: Seq<TableCell>,
    pub patches: Seq<TableCell>,
    pub versioned_files: Seq<TableCell>,
}

/// What a [`PackagedEngine`] holds.
pub struct PackagedModel {
    pub version: Version,
    pub package_lookup: Map<u64, TableCell>,
    pub file_lookup: Seq<Map<u64, TableCell>>,
    pub tables: PackagedTables,
    pub cells: PackagedCellsView,
}

/// The engine of the packaged filesystem: its tables, the records behind
/// them and the lookups by hash.
pub struct PackagedEngine {
    pub version: Version,
    pub package_lookup: BTreeMap<u64, TableCell>,
    pub file_lookup: BucketMap<TableCell>,
    pub packages: Vec<TableCell>,
    pub child_packages: Vec<TableCell>,
    pub groups: Vec<TableCell>,
    pub paths: Vec<TableCell>,
    pub links: Vec<TableCell>,
    pub infos: Vec<TableCell>,
    pub descriptors: Vec<TableCell>,
    pub metadatas: Vec<TableCell>,
    pub patches: Vec<TableCell>,
    pub versioned_files: Vec<TableCell>,
    pub cells: PackagedCells,
}

impl View for PackagedEngine {
    type V = PackagedModel;

    open spec fn view(&self) -> PackagedModel {
        PackagedModel {
            version: self.version,
            package_lookup: self.package_lookup@,
            file_lookup: self.file_lookup@,
            tables: PackagedTables {
                packages: self.packages@,
                child_packages: self.child_packages@,
                groups: self.groups@,
                paths: self.paths@,
                links: self.links@,
                infos: self.infos@,
                descriptors: self.descriptors@,
                metadatas: self.metadatas@,
                patches: self.patches@,
                versioned_files: self.versioned_files@,
            },
            cells: self.cells@,
        }
    }
}

impl PackagedModel {
    /// The records after resolving every reference of every table, in the
    /// fixed order of the rounds: packages, child-packages, groups, paths,
    /// links, infos with their descriptors, patches, versioned files. There
    /// is no result where an index lies outside its table, a cell has no
    /// record, or the groups do not say where the infos of the info-groups,
    /// of the version-groups and of the latest patch start.
    pub open spec fn resolution(self) -> Option<PackagedCellsView> {
        let t = self.tables;
        let c = self.cells;
        match pass(
            c.packages,
            t.packages,
            t.packages.len(),
            package_step(t.groups, t.infos, t.child_packages),
        ) {
            None => None,
            Some(packages) => match pass(
                c.child_packages,
                t.child_packages,
                t.child_packages.len(),
                child_package_step(t.packages),
            ) {
                None => None,
                Some(child_packages) => match pass(
                    c.groups,
                    t.groups,
                    t.groups.len(),
                    group_step(t.packages, t.groups, t.infos, t.metadatas),
                ) {
                    None => None,
                    Some(groups) => match self.starts(groups) {
                        None => None,
                        Some(starts) => self.resolution_after_groups(
                            packages,
                            child_packages,
                            groups,
                            starts,
                        ),
                    },
                },
            },
        }
    }

    /// The versioned files that a path can name: those of the tables where
    /// the last group is an info-group, and none where it is not, for then
    /// there is no latest patch.
    pub open spec fn latest_files(self, groups: Seq<GroupView>) -> Seq<TableCell> {
        if ends_with_info_group(groups, self.tables.groups) {
            self.tables.versioned_files
        } else {
            Seq::empty()
        }
    }

    /// The three places that the resolved groups give: where the infos of
    /// the info-groups start, where those of the version-groups start, and
    /// from where the files of the latest patch are counted. Where the last
    /// group is no info-group, the files are counted from zero.
    pub open spec fn starts(self, groups: Seq<GroupView>) -> Option<(usize, usize, usize)> {
        let t = self.tables;
        match group_info_start(groups, t.groups, t.infos, t.groups.len(), false) {
            None => None,
            Some(info_group_info_start) => match group_info_start(
                groups,
                t.groups,
                t.infos,
                t.groups.len(),
                true,
            ) {
                None => None,
                Some(version_group_info_start) => if !ends_with_info_group(groups, t.groups) {
                    Some((info_group_info_start, version_group_info_start, 0usize))
                } else {
                    match latest_info_start(groups, t.groups, t.infos) {
                    None => None,
                    Some(latest) => if latest < version_group_info_start {
                        None
                    } else {
                        Some(
                            (
                                info_group_info_start,
                                version_group_info_start,
                                (latest - version_group_info_start) as usize,
                            ),
                        )
                    },
                    }
                },
            },
        }
    }

    /// The rounds that follow the groups.
    pub open spec fn resolution_after_groups(
        self,
        packages: Seq<PackageView>,
        child_packages: Seq<ChildPackage>,
        groups: Seq<GroupView>,
        starts: (usize, usize, usize),
    ) -> Option<PackagedCellsView> {
        let t = self.tables;
        let c = self.cells;
        match pass(
            c.paths,
            t.paths,
            t.paths.len(),
            path_step(t.links, self.latest_files(groups), starts.2),
        ) {
            None => None,
            Some(paths) => match pass(
                c.links,
                t.links,
                t.links.len(),
                link_step(t.packages, t.groups, t.infos),
            ) {
                None => None,
                Some(links) => match pass(
                    c.infos,
                    t.infos,
                    t.infos.len(),
                    info_step(t.paths, t.links, t.descriptors),
                ) {
                    None => None,
                    Some(infos) => match info_descriptors(
                        c.descriptors,
                        infos,
                        t.infos,
                        t.infos.len(),
                        DescriptorTables {
                            groups: t.groups,
                            links: t.links,
                            infos: t.infos,
                            metadatas: t.metadatas,
                            patches: t.patches,
                        },
                        starts.0,
                        starts.1,
                    ) {
                        None => None,
                        Some(descriptors) => match pass(
                            c.patches,
                            t.patches,
                            t.patches.len(),
                            patch_step(t.versioned_files, t.infos, t.groups, starts.1),
                        ) {
                            None => None,
                            Some(patches) => match pass(
                                c.versioned_files,
                                t.versioned_files,
                                t.versioned_files.len(),
                                versioned_file_step(t.links, t.infos),
                            ) {
                                None => None,
                                Some(versioned_files) => Some(
                                    PackagedCellsView {
                                        packages,
                                        child_packages,
                                        groups,
                                        paths,
                                        links,
                                        infos,
                                        descriptors,
                                        metadatas: c.metadatas,
                                        patches,
                                        versioned_files,
                                    },
                                ),
                            },
                        },
                    },
                },
            },
        }
    }
}

impl PackagedEngine {
    /// Resolves every reference of every table, in the fixed order of the
    /// rounds. Fails with a format error at the first reference that cannot
    /// be resolved.
    pub fn resolve(&mut self) -> (result: Result<(), ArchiveError>)
        ensures
            result is Ok <==> old(self)@.resolution() is Some,
            result is Ok ==> final(self)@ == (PackagedModel {
                cells: old(self)@.resolution().unwrap(),
                ..old(self)@
            }),
            result matches Err(error) ==> error == ArchiveError::Format,
            final(self)@.tables == old(self)@.tables,
            final(self)@.package_lookup == old(self)@.package_lookup,
            final(self)@.file_lookup == old(self)@.file_lookup,
            final(self)@.version == old(self)@.version,
    {
        if !resolve_packages(
            &mut self.cells.packages,
            self.packages.as_slice(),
            self.groups.as_slice(),
            self.infos.as_slice(),
            self.child_packages.as_slice(),
        ) {
            return Err(ArchiveError::Format);
        }
        if !resolve_child_packages(
            &mut self.cells.child_packages,
            self.child_packages.as_slice(),
            self.packages.as_slice(),
        ) {
            return Err(ArchiveError::Format);
        }
        if !resolve_groups(
            &mut self.cells.groups,
            self.groups.as_slice(),
            self.packages.as_slice(),
            self.groups.as_slice(),
            self.infos.as_slice(),
            self.metadatas.as_slice(),
        ) {
            return Err(ArchiveError::Format);
        }
        let info_group_info_start = match find_group_info_start(
            &self.cells.groups,
            self.groups.as_slice(),
            self.infos.as_slice(),
            false,
        ) {
            Some(start) => start,
            None => {
                return Err(ArchiveError::Format);
            },
        };
        let version_group_info_start = match find_group_info_start(
            &self.cells.groups,
            self.groups.as_slice(),
            self.infos.as_slice(),
            true,
        ) {
            Some(start) => start,
            None => {
                return Err(ArchiveError::Format);
            },
        };
        let has_latest = last_is_info_group(&self.cells.groups, self.groups.as_slice());
        let no_files: Vec<TableCell> = Vec::new();
        let mut latest_patch_file_start: usize = 0;
        if has_latest {
            let latest = match find_latest_info_start(
                &self.cells.groups,
                self.groups.as_slice(),
                self.infos.as_slice(),
            ) {
                Some(start) => start,
                None => {
                    return Err(ArchiveError::Format);
                },
            };
            if latest < version_group_info_start {
                return Err(ArchiveError::Format);
            }
            latest_patch_file_start = latest - version_group_info_start;
        }
        let latest_files: &[TableCell] = if has_latest {
            self.versioned_files.as_slice()
        } else {
            no_files.as_slice()
        };
        if !resolve_paths(
            &mut self.cells.paths,
            self.paths.as_slice(),
            self.links.as_slice(),
            latest_files,
            latest_patch_file_start,
        ) {
            return Err(ArchiveError::Format);
        }
        if !resolve_links(
            &mut self.cells.links,
            self.links.as_slice(),
            self.packages.as_slice(),
            self.groups.as_slice(),
            self.infos.as_slice(),
        ) {
            return Err(ArchiveError::Format);
        }
        if !resolve_infos(
            &mut self.cells.infos,
            self.infos.as_slice(),
            self.paths.as_slice(),
            self.links.as_slice(),
            self.descriptors.as_slice(),
        ) {
            return Err(ArchiveError::Format);
        }
        if !resolve_info_descriptors(
            &mut self.cells.descriptors,
            &self.cells.infos,
            self.infos.as_slice(),
            self.groups.as_slice(),
            self.links.as_slice(),
            self.metadatas.as_slice(),
            self.patches.as_slice(),
            info_group_info_start,
            version_group_info_start,
        ) {
            return Err(ArchiveError::Format);
        }
        if !resolve_patches(
            &mut self.cells.patches,
            self.patches.as_slice(),
            self.versioned_files.as_slice(),
            self.infos.as_slice(),
            self.groups.as_slice(),
            version_group_info_start,
        ) {
            return Err(ArchiveError::Format);
        }
        if !resolve_versioned_files(
            &mut self.cells.versioned_files,
            self.versioned_files.as_slice(),
            self.links.as_slice(),
            self.infos.as_slice(),
        ) {
            return Err(ArchiveError::Format);
        }
        Ok(())
    }
}


/// The lookup of the packages by the hash of their path, built from the
/// first `upto` packages in order: a later package takes the place of an
/// earlier one with the same hash.
pub open spec fn package_lookup_of(packages: Seq<PackageView>, upto: nat) -> Map<u64, TableCell>
    decreases upto,
{
    if upto == 0 {
        Map::empty()
    } else {
        package_lookup_of(packages, (upto - 1) as nat).insert(
            packages[upto - 1].full_path.0,
            TableCell { slot: (upto - 1) as u64 },
        )
    }
}

/// The lookup of the paths by their hash, built from the first `upto` paths
/// in order over `buckets` buckets.
pub open spec fn file_lookup_of(paths: Seq<Path>, buckets: nat, upto: nat) -> Seq<
    Map<u64, TableCell>,
>
    decreases upto,
{
    if upto == 0 {
        Seq::new(buckets, |i: int| Map::<u64, TableCell>::empty())
    } else {
        bucket_insert(
            file_lookup_of(paths, buckets, (upto - 1) as nat),
            paths[upto - 1].full_path.0,
            TableCell { slot: (upto - 1) as u64 },
        )
    }
}

/// The engine that holds the records `cells` as they were read: each table
/// lists the cells of its store in order, and the lookups are built from
/// the packages and the paths.
pub open spec fn fresh_model(version: Version, cells: PackagedCellsView, buckets: nat)
    -> PackagedModel {
    PackagedModel {
        version,
        package_lookup: package_lookup_of(cells.packages, cells.packages.len()),
        file_lookup: file_lookup_of(cells.paths, buckets, cells.paths.len()),
        tables: PackagedTables {
            packages: identity_cells(cells.packages.len()),
            child_packages: identity_cells(cells.child_packages.len()),
            groups: identity_cells(cells.groups.len()),
            paths: identity_cells(cells.paths.len()),
            links: identity_cells(cells.links.len()),
            infos: identity_cells(cells.infos.len()),
            descriptors: identity_cells(cells.descriptors.len()),
            metadatas: identity_cells(cells.metadatas.len()),
            patches: identity_cells(cells.patches.len()),
            versioned_files: identity_cells(cells.versioned_files.len()),
        },
        cells,
    }
}

impl PackagedEngine {
    /// The lookup of the paths has a bucket, and each of its hashes lies in
    /// the bucket that it selects.
    pub open spec fn wf(&self) -> bool {
        self.file_lookup.wf()
    }

    /// Builds the engine that holds the records `cells` as they were read.
    /// The lookup of the paths gets `bucket_count` buckets; there is no
    /// engine without a bucket. The cells keep the identifiers that they
    /// have.
    pub fn from_cells(version: Version, cells: PackagedCells, bucket_count: usize) -> (result:
        Result<Self, ArchiveError>)
        ensures
            match result {
                Ok(engine) => bucket_count > 0 && engine.wf() && engine@ == fresh_model(
                    version,
                    cells@,
                    bucket_count as nat,
                ) && engine.cells == cells,
                Err(error) => error == ArchiveError::Format && bucket_count == 0,
            },
    {
        if bucket_count == 0 {
            return Err(ArchiveError::Format);
        }
        let mut package_lookup: BTreeMap<u64, TableCell> = BTreeMap::new();
        let mut i: usize = 0;
        while i < cells.packages.len()
            invariant
                i <= cells.packages@.len(),
                package_lookup@ == package_lookup_of(views(cells.packages@), i as nat),
            decreases cells.packages@.len() - i,
        {
            let cell = TableCell::from_slot(i as u64);
            package_lookup.insert(cell.get(&cells.packages).full_path.0, cell);
            i = i + 1;
        }
        let mut file_lookup: BucketMap<TableCell> = BucketMap::new(bucket_count);
        assert(file_lookup@ =~= file_lookup_of(views(cells.paths@), bucket_count as nat, 0));
        let mut i: usize = 0;
        while i < cells.paths.len()
            invariant
                i <= cells.paths@.len(),
                file_lookup.wf(),
                file_lookup@ == file_lookup_of(views(cells.paths@), bucket_count as nat, i as nat),
            decreases cells.paths@.len() - i,
        {
            let cell = TableCell::from_slot(i as u64);
            file_lookup.insert(cell.get(&cells.paths).full_path, cell);
            i = i + 1;
        }
        Ok(
            PackagedEngine {
                version,
                package_lookup,
                file_lookup,
                packages: identity_table(cells.packages.len()),
                child_packages: identity_table(cells.child_packages.len()),
                groups: identity_table(cells.groups.len()),
                paths: identity_table(cells.paths.len()),
                links: identity_table(cells.links.len()),
                infos: identity_table(cells.infos.len()),
                descriptors: identity_table(cells.descriptors.len()),
                metadatas: identity_table(cells.metadatas.len()),
                patches: identity_table(cells.patches.len()),
                versioned_files: identity_table(cells.versioned_files.len()),
                cells,
            },
        )
    }

    /// The cell of the package with the given hash.
    pub open spec fn package_cell(&self, hash: Hash40) -> Option<TableCell> {
        if self@.package_lookup.contains_key(hash.0) {
            Some(self@.package_lookup[hash.0])
        } else {
            None
        }
    }

    /// The cell of the path with the given hash.
    pub open spec fn file_cell(&self, hash: Hash40) -> Option<TableCell> {
        bucket_lookup(self@.file_lookup, hash.0)
    }

    /// The package with the given hash, if the lookup knows the hash and
    /// its cell has a record.
    pub fn get_package(&self, hash: Hash40) -> (package: Option<&Package>)
        ensures
            match package {
                Some(package) => self.package_cell(hash) matches Some(cell) && self.cells.packages.has(
                    cell,
                ) && *package == self.cells.packages.at(cell),
                None => self.package_cell(hash) matches Some(cell) ==> !self.cells.packages.has(
                    cell,
                ),
            },
    {
        broadcast use vstd::std_specs::btree::group_btree_axioms;
        broadcast use vstd::laws_cmp::group_laws_cmp;

        match self.package_lookup.get(&hash.0) {
            None => None,
            Some(cell) => self.cells.packages.lookup(cell),
        }
    }

    /// The path with the given hash, if the lookup knows the hash and its
    /// cell has a record.
    pub fn get_file(&self, hash: Hash40) -> (path: Option<&Path>)
        requires
            self.wf(),
        ensures
            match path {
                Some(path) => self.file_cell(hash) matches Some(cell) && self.cells.paths.has(cell)
                    && *path == self.cells.paths.at(cell),
                None => self.file_cell(hash) matches Some(cell) ==> !self.cells.paths.has(cell),
            },
    {
        match self.file_lookup.get(hash) {
            None => None,
            Some(cell) => self.cells.paths.lookup(cell),
        }
    }

    /// The package with the given hash, to be changed in place. What the
    /// caller leaves behind the reference is the record of the package from
    /// then on; nothing else of the engine changes.
    pub fn get_package_mut(&mut self, hash: Hash40) -> (package: Option<&mut Package>)
        ensures
            match package {
                Some(package) => old(self).package_cell(hash) matches Some(cell) && old(self).cells.packages.has(cell) && *package == old(self).cells.packages.at(cell)
                    && final(self).cells.packages@ == old(self).cells.packages@.update(
                    cell.slot as int,
                    *final(package),
                ),
                None => (old(self).package_cell(hash) matches Some(cell) ==> !old(self).cells.packages.has(cell)) && final(self).cells.packages@ == old(self).cells.packages@,
            },
            final(self)@.tables == old(self)@.tables,
            final(self)@.package_lookup == old(self)@.package_lookup,
            final(self)@.file_lookup == old(self)@.file_lookup,
            final(self)@.version == old(self)@.version,
            final(self).cells.child_packages == old(self).cells.child_packages,
            final(self).cells.groups == old(self).cells.groups,
            final(self).cells.paths == old(self).cells.paths,
            final(self).cells.links == old(self).cells.links,
            final(self).cells.infos == old(self).cells.infos,
            final(self).cells.descriptors == old(self).cells.descriptors,
            final(self).cells.metadatas == old(self).cells.metadatas,
            final(self).cells.patches == old(self).cells.patches,
            final(self).cells.versioned_files == old(self).cells.versioned_files,
    {
        let cell = match find_hash(&self.package_lookup, hash.0) {
            None => {
                return None;
            },
            Some(cell) => cell,
        };
        if self.cells.packages.contains(&cell) {
            Some(cell.get_mut(&mut self.cells.packages))
        } else {
            None
        }
    }

    /// The path with the given hash, to be changed in place. What the
    /// caller leaves behind the reference is the record of the path from
    /// then on; nothing else of the engine changes.
    pub fn get_file_mut(&mut self, hash: Hash40) -> (path: Option<&mut Path>)
        requires
            old(self).wf(),
        ensures
            match path {
                Some(path) => old(self).file_cell(hash) matches Some(cell) && old(self).cells.paths.has(cell) && *path == old(self).cells.paths.at(cell) && final(self).cells.paths@ == old(self).cells.paths@.update(cell.slot as int, *final(path)),
                None => (old(self).file_cell(hash) matches Some(cell) ==> !old(self).cells.paths.has(cell)) && final(self).cells.paths@ == old(self).cells.paths@,
            },
            final(self)@.tables == old(self)@.tables,
            final(self)@.package_lookup == old(self)@.package_lookup,
            final(self)@.file_lookup == old(self)@.file_lookup,
            final(self)@.version == old(self)@.version,
            final(self).cells.packages == old(self).cells.packages,
            final(self).cells.child_packages == old(self).cells.child_packages,
            final(self).cells.groups == old(self).cells.groups,
            final(self).cells.links == old(self).cells.links,
            final(self).cells.infos == old(self).cells.infos,
            final(self).cells.descriptors == old(self).cells.descriptors,
            final(self).cells.metadatas == old(self).cells.metadatas,
            final(self).cells.patches == old(self).cells.patches,
            final(self).cells.versioned_files == old(self).cells.versioned_files,
    {
        let cell = match self.file_lookup.get(hash) {
            None => {
                return None;
            },
            Some(cell) => *cell,
        };
        if self.cells.paths.contains(&cell) {
            Some(cell.get_mut(&mut self.cells.paths))
        } else {
            None
        }
    }

    /// Whether the lookup knows a path with the given hash.
    pub fn has_file(&self, hash: Hash40) -> (b: bool)
        requires
            self.wf(),
        ensures
            b == self.file_cell(hash).is_some(),
    {
        self.file_lookup.contains_key(hash)
    }

    /// Whether the lookup knows a package with the given hash.
    pub fn has_package(&self, hash: Hash40) -> (b: bool)
        ensures
            b == self.package_cell(hash).is_some(),
    {
        broadcast use vstd::std_specs::btree::group_btree_axioms;
        broadcast use vstd::laws_cmp::group_laws_cmp;

        self.package_lookup.contains_key(&hash.0)
    }
}


/// The metadata of a file that was just added.
pub open spec fn fresh_metadata() -> Metadata {
    Metadata {
        group_offset: u32::MAX,
        compressed_size: u32::MAX,
        decompressed_size: u32::MAX,
        is_standard_zstd: false,
        is_compressed: false,
        is_regional_versioned_data: false,
        is_localized_versioned_data: false,
    }
}

/// The cells that adding a file creates.
pub struct AddedCells {
    pub metadata: TableCell,
    pub descriptor: TableCell,
    pub link: TableCell,
    pub path: TableCell,
    pub info: TableCell,
}

impl PackagedCellsView {
    /// How many cells the ten stores hold together.
    pub open spec fn cell_count(self) -> int {
        (self.packages.len() + self.child_packages.len() + self.groups.len() + self.paths.len()
            + self.links.len() + self.infos.len() + self.descriptors.len() + self.metadatas.len()
            + self.patches.len() + self.versioned_files.len()) as int
    }

    /// The cells that the next added file gets: the next free cell of each
    /// store.
    pub open spec fn next_cells(self) -> AddedCells {
        AddedCells {
            metadata: TableCell { slot: self.metadatas.len() as u64 },
            descriptor: TableCell { slot: self.descriptors.len() as u64 },
            link: TableCell { slot: self.links.len() as u64 },
            path: TableCell { slot: self.paths.len() as u64 },
            info: TableCell { slot: self.infos.len() as u64 },
        }
    }

    /// The records after the file `path` was added to the package in the
    /// cell `package`, whose first group is `group`: a new metadata that the
    /// group takes in, a new descriptor bound to the group and the metadata,
    /// a new link owned by the package, the path bound to the link, and a new
    /// info that the package takes in. The info is that of a graphics
    /// archive or of a regular file, as the extension of the path says.
    pub open spec fn with_file(self, path: Path, package: TableCell, group: TableCell)
        -> PackagedCellsView {
        let new = self.next_cells();
        let graphics = path.graphics_archive_extension();
        let old_group = self.groups[group.slot as int];
        let old_package = self.packages[package.slot as int];
        PackagedCellsView {
            metadatas: self.metadatas.push(fresh_metadata()),
            descriptors: self.descriptors.push(
                Descriptor {
                    group: TableReference::Resolved(group),
                    metadata: DescriptorMetadataReference::Metadata(new.metadata),
                    load_args: DescriptorLoadArguments::Owned {
                        patch: DescriptorLoadArgumentsPatchReference::Absent,
                    },
                },
            ),
            groups: self.groups.update(
                group.slot as int,
                GroupView {
                    files: GroupFilesView::Metadata(
                        ReferenceSetView::Resolved(
                            old_group.files->Metadata_0.cells().push(new.metadata),
                        ),
                    ),
                    ..old_group
                },
            ),
            links: self.links.push(
                Link {
                    owner: LinkOwnerReference::Package(package),
                    info: TableReference::Resolved(new.info),
                },
            ),
            paths: self.paths.push(Path { link: TableReference::Resolved(new.link), ..path }),
            infos: self.infos.push(
                InfoView {
                    path: TableReference::Resolved(new.path),
                    link: TableReference::Resolved(new.link),
                    descriptors: ReferenceSetView::Resolved(seq![new.descriptor]),
                    is_regular_file: !graphics,
                    is_graphics_archive: graphics,
                    is_localized: false,
                    is_regional: false,
                    is_shared: false,
                    is_unknown_flag: false,
                },
            ),
            packages: self.packages.update(
                package.slot as int,
                PackageView {
                    infos: ReferenceSetView::Resolved(old_package.infos.cells().push(new.info)),
                    ..old_package
                },
            ),
            ..self
        }
    }
}

impl PackagedModel {
    /// The package that takes a new file in and its first group: the package
    /// that the lookup gives for `package`, with its groups and its infos
    /// resolved, whose first group is a metadata-group with resolved
    /// metadatas.
    pub open spec fn file_target(self, package: Hash40) -> Option<(TableCell, TableCell)> {
        let c = self.cells;
        if !self.package_lookup.contains_key(package.0) {
            None
        } else {
            let cell = self.package_lookup[package.0];
            if cell.slot >= c.packages.len() {
                None
            } else {
                match (c.packages[cell.slot as int].groups, c.packages[cell.slot as int].infos) {
                    (
                        ReferenceSetView::Resolved(groups),
                        ReferenceSetView::Resolved(_),
                    ) => if groups.len() == 0 || groups[0].slot >= c.groups.len() {
                        None
                    } else {
                        match c.groups[groups[0].slot as int].files {
                            GroupFilesView::Metadata(ReferenceSetView::Resolved(_)) => Some(
                                (cell, groups[0]),
                            ),
                            _ => None,
                        }
                    },
                    _ => None,
                }
            }
        }
    }

    /// The engine after the file `path` was added to the package with the
    /// hash `package`. There is none where the lookup knows the path
    /// already or no package can take the file in.
    pub open spec fn with_file(self, path: Path, package: Hash40) -> Option<PackagedModel> {
        if bucket_lookup(self.file_lookup, path.full_path.0) is Some {
            None
        } else {
            match self.file_target(package) {
                None => None,
                Some((cell, group)) => Some(
                    PackagedModel {
                        file_lookup: bucket_insert(
                            self.file_lookup,
                            path.full_path.0,
                            self.cells.next_cells().path,
                        ),
                        cells: self.cells.with_file(path, cell, group),
                        ..self
                    },
                ),
            }
        }
    }
}

impl PackagedEngine {
    /// Finds the package that takes a new file in and its first group.
    pub fn find_file_target(&self, package: Hash40) -> (target: Option<(TableCell, TableCell)>)
        ensures
            target == self@.file_target(package),
    {
        broadcast use vstd::std_specs::btree::group_btree_axioms;
        broadcast use vstd::laws_cmp::group_laws_cmp;

        let cell = match self.package_lookup.get(&package.0) {
            None => {
                return None;
            },
            Some(cell) => *cell,
        };
        let record = match self.cells.packages.lookup(&cell) {
            None => {
                return None;
            },
            Some(record) => record,
        };
        if !record.groups.0.is_resolved() || !record.infos.0.is_resolved() {
            return None;
        }
        if record.groups.0.len() == 0 {
            return None;
        }
        let group = record.groups.0.get(0);
        match self.cells.groups.lookup(&group) {
            None => None,
            Some(group_record) => match &group_record.files {
                GroupFileReference::Metadata(set) => {
                    if set.0.is_resolved() {
                        Some((cell, group))
                    } else {
                        None
                    }
                },
                _ => None,
            },
        }
    }

    /// Adds a file to the package with the hash `package` and returns the
    /// cell of its info. Fails, and leaves the engine and the counter as
    /// they were, where the string is no path of a file, the lookup knows
    /// the path already, or no package can take the file in. The five cells
    /// that are made get the next five identifiers of the counter.
    pub fn add_file(&mut self, file: &str, package: Hash40, ids: &mut CellIds) -> (result: Result<
        TableCell,
        ArchiveError,
    >)
        requires
            old(self).wf(),
            old(ids).room(5),
        ensures
            final(self).wf(),
            match result {
                Ok(info) => Path::parsed(file@) matches Ok(path) && old(self)@.with_file(
                    path,
                    package,
                ) == Some(final(self)@) && info == old(self)@.cells.next_cells().info
                    && final(self).cells.added_from(
                    old(self)@.cells.next_cells(),
                    old(ids).next as int,
                ) && final(ids).next == old(ids).next + 5 && final(self)@.file_lookup.len() == old(self)@.file_lookup.len() && bucket_entries(
                    final(self)@.file_lookup,
                    final(self)@.file_lookup.len(),
                ).len() == bucket_entries(
                    old(self)@.file_lookup,
                    old(self)@.file_lookup.len(),
                ).len() + 1,
                Err(error) => error == ArchiveError::Invariant && final(self)@ == old(self)@
                    && final(ids).next == old(ids).next && (Path::parsed(file@) matches Ok(path)
                    ==> old(self)@.with_file(path, package) is None),
            },
    {
        match Path::from_str(file) {
            Err(_) => Err(ArchiveError::Invariant),
            Ok(path) => self.add_path(path, package, ids),
        }
    }

    /// Adds the file with the path `path`, whose link is yet to be made, to
    /// the package with the hash `package`, and returns the cell of its
    /// info. Fails, and leaves the engine and the counter as they were,
    /// where the lookup knows the path already or no package can take the
    /// file in. The five cells that are made get the next five identifiers
    /// of the counter: the metadata, the descriptor, the link, the path and
    /// the info, in this order.
    pub fn add_path(&mut self, path: Path, package: Hash40, ids: &mut CellIds) -> (result: Result<
        TableCell,
        ArchiveError,
    >)
        requires
            old(self).wf(),
            old(ids).room(5),
        ensures
            final(self).wf(),
            match result {
                Ok(info) => old(self)@.with_file(path, package) == Some(final(self)@) && info
                    == old(self)@.cells.next_cells().info && final(self).cells.added_from(
                    old(self)@.cells.next_cells(),
                    old(ids).next as int,
                ) && final(ids).next == old(ids).next + 5 && final(self)@.file_lookup.len() == old(self)@.file_lookup.len() && bucket_entries(
                    final(self)@.file_lookup,
                    final(self)@.file_lookup.len(),
                ).len() == bucket_entries(
                    old(self)@.file_lookup,
                    old(self)@.file_lookup.len(),
                ).len() + 1,
                Err(error) => error == ArchiveError::Invariant && final(self)@ == old(self)@
                    && final(ids).next == old(ids).next && old(self)@.with_file(path, package)
                    is None,
            },
    {
        let mut path = path;
        proof {
            self.file_lookup.lemma_listed();
        }
        if self.has_file(path.full_path) {
            return Err(ArchiveError::Invariant);
        }
        let (package_cell, group) = match self.find_file_target(package) {
            None => {
                return Err(ArchiveError::Invariant);
            },
            Some(target) => target,
        };
        let ghost before = self@;
        let ghost parsed = path;
        let graphics = path.has_graphics_archive_extension();
        let metadata = TableCell::new(Metadata::new(), &mut self.cells.metadatas, ids);
        let descriptor = TableCell::new(
            Descriptor {
                group: TableReference::Resolved(group),
                metadata: DescriptorMetadataReference::Metadata(metadata),
                load_args: DescriptorLoadArguments::new(),
            },
            &mut self.cells.descriptors,
            ids,
        );
        group.get_mut(&mut self.cells.groups).metadatas_mut().0.push(metadata);
        let info_slot: u64 = self.cells.infos.len() as u64;
        let link = TableCell::new(
            Link {
                owner: LinkOwnerReference::Package(package_cell),
                info: TableReference::Resolved(TableCell::from_slot(info_slot)),
            },
            &mut self.cells.links,
            ids,
        );
        path.link = TableReference::Resolved(link);
        let full_path = path.full_path;
        let path_cell = TableCell::new(path, &mut self.cells.paths, ids);
        let mut info = Info::new();
        let list: Vec<TableCell> = vec![descriptor];
        assert(list@ =~= seq![descriptor]);
        info.descriptors.0.replace(list);
        info.link = TableReference::Resolved(link);
        info.path = TableReference::Resolved(path_cell);
        info.is_graphics_archive = graphics;
        info.is_regular_file = !graphics;
        self.file_lookup.insert(full_path, path_cell);
        let info_cell = TableCell::new(info, &mut self.cells.infos, ids);
        package_cell.get_mut(&mut self.cells.packages).infos.0.push(info_cell);
        proof {
            let after = before.cells.with_file(parsed, package_cell, group);
            assert(self@.cells.metadatas =~= after.metadatas);
            assert(self@.cells.descriptors =~= after.descriptors);
            assert(self@.cells.groups =~= after.groups);
            assert(self@.cells.links =~= after.links);
            assert(self@.cells.paths =~= after.paths);
            assert(self@.cells.infos =~= after.infos);
            assert(self@.cells.packages =~= after.packages);
            assert(self@.cells.child_packages =~= after.child_packages);
            assert(self@.cells.patches =~= after.patches);
            assert(self@.cells.versioned_files =~= after.versioned_files);
            lemma_add_file_grows_lookup(before, parsed, package);
        }
        Ok(info_cell)
    }
}


/// Where reading goes on after the versioned files of one patch, which end
/// at `after`. In a directory of tables the patch says how many bytes of
/// lookup follow its files. In the archive the lookup starts with its number
/// of buckets and its number of keys, and eight bytes follow for each of
/// them. There is no such place beyond what the machine can count.
pub open spec fn after_patch_lookup(data: Seq<u8>, after: int, patch: PatchView, framed: bool)
    -> Option<int> {
    let next = if framed {
        after + 8 + 8 * u32_at(data, after) + 8 * u32_at(data, after + 4)
    } else {
        after + patch.lookup_size_in_bytes
    };
    if (framed && after + 8 > data.len()) || next > usize::MAX {
        None
    } else {
        Some(next)
    }
}

/// The versioned files of the first `upto` patches, read from `start` on,
/// and the place where reading goes on after them.
pub open spec fn patch_files_decoded(
    data: Seq<u8>,
    patches: Seq<PatchView>,
    upto: nat,
    start: int,
    framed: bool,
) -> Option<(Seq<VersionedFile>, int)>
    decreases upto,
{
    if upto == 0 {
        Some((Seq::empty(), start))
    } else {
        match patch_files_decoded(data, patches, (upto - 1) as nat, start, framed) {
            None => None,
            Some((files, pos)) => {
                let patch = patches[upto - 1];
                match records_at::<VersionedFile>(data, pos, patch.file_count as nat) {
                    None => None,
                    Some(more) => match after_patch_lookup(
                        data,
                        pos + patch.file_count * 0x14,
                        patch,
                        framed,
                    ) {
                        None => None,
                        Some(next) => Some((files + more, next)),
                    },
                }
            },
        }
    }
}

/// Files that cannot be read for some patches cannot be read for more.
pub proof fn lemma_patch_files_fails(
    data: Seq<u8>,
    patches: Seq<PatchView>,
    short: nat,
    long: nat,
    start: int,
    framed: bool,
)
    requires
        short <= long,
        patch_files_decoded(data, patches, short, start, framed) is None,
    ensures
        patch_files_decoded(data, patches, long, start, framed) is None,
    decreases long,
{
    if short < long {
        lemma_patch_files_fails(data, patches, short, (long - 1) as nat, start, framed);
    }
}

/// Computes [`after_patch_lookup`].
pub fn skip_patch_lookup(data: &[u8], after: usize, patch: &Patch, framed: bool) -> (next: Option<
    usize,
>)
    ensures
        match next {
            Some(next) => after_patch_lookup(data@, after as int, patch@, framed) == Some(
                next as int,
            ),
            None => after_patch_lookup(data@, after as int, patch@, framed) is None,
        },
{
    let len: usize = data.len();
    let skip: u64 = if framed {
        if after > len || len - after < 8 {
            return None;
        }
        let bucket_count: u32 = read_u32(data, after);
        let lookup_count: u32 = read_u32(data, after + 4);
        8 + 8 * (bucket_count as u64) + 8 * (lookup_count as u64)
    } else {
        patch.lookup_size_in_bytes as u64
    };
    if skip > usize::MAX as u64 || after > usize::MAX - skip as usize {
        None
    } else {
        Some(after + skip as usize)
    }
}

/// Reads the versioned files of all patches from `start` on. Returns them
/// with the place where reading goes on.
pub fn read_patch_files(data: &[u8], patches: &Vec<Patch>, start: usize, framed: bool) -> (result:
    Option<(Vec<VersionedFile>, usize)>)
    ensures
        match result {
            Some((files, next)) => patch_files_decoded(
                data@,
                views(patches@),
                patches@.len(),
                start as int,
                framed,
            ) == Some((views(files@), next as int)),
            None => patch_files_decoded(
                data@,
                views(patches@),
                patches@.len(),
                start as int,
                framed,
            ) is None,
        },
{
    let mut files: Vec<VersionedFile> = Vec::new();
    let mut pos: usize = start;
    let mut i: usize = 0;
    assert(views(files@) =~= Seq::<VersionedFile>::empty());
    while i < patches.len()
        invariant
            i <= patches@.len(),
            patch_files_decoded(data@, views(patches@), i as nat, start as int, framed) == Some(
                (views(files@), pos as int),
            ),
        decreases patches@.len() - i,
    {
        let patch = &patches[i];
        let count: usize = patch.file_count as usize;
        let len: usize = data.len();
        let ghost before = views(files@);
        let mut next: Option<usize> = None;
        match read_records_at::<VersionedFile>(data, pos, count) {
            None => {},
            Some(mut more) => {
                let ghost added = views(more@);
                assert(count * 0x14 <= usize::MAX - pos || count == 0) by {
                    if count > 0 {
                        assert(VersionedFile::width() == 0x14);
                        assert(crate::engines::records_fit::<VersionedFile>(
                            data@.len(),
                            pos as int,
                            count as nat,
                        ));
                        assert(pos + count * 0x14 <= data@.len());
                    }
                }
                if count == 0 {
                    next = skip_patch_lookup(data, pos, patch, framed);
                } else {
                    next = skip_patch_lookup(data, pos + count * 0x14, patch, framed);
                }
                files.append(&mut more);
                assert(views(files@) =~= before + added);
            },
        }
        match next {
            None => {
                proof {
                    lemma_patch_files_fails(
                        data@,
                        views(patches@),
                        (i + 1) as nat,
                        patches@.len(),
                        start as int,
                        framed,
                    );
                }
                return None;
            },
            Some(next) => {
                pos = next;
            },
        }
        i = i + 1;
    }
    Some((files, pos))
}

/// The version, the patches and the versioned files that the file of the
/// version holds: the version, the number of patches, the patches, and for
/// each patch its files followed by its lookup.
pub open spec fn version_info_decoded(data: Seq<u8>) -> Option<
    (Version, Seq<PatchView>, Seq<VersionedFile>),
> {
    if data.len() < 8 {
        None
    } else {
        let count = u32_at(data, 4) as nat;
        match records_at::<Patch>(data, 8, count) {
            None => None,
            Some(patches) => match patch_files_decoded(
                data,
                patches,
                patches.len(),
                (8 + count * 0x20) as int,
                false,
            ) {
                None => None,
                Some((files, _)) => Some((Version::decoded(data, 0), patches, files)),
            },
        }
    }
}

/// The number of buckets that the file of the buckets says the lookup of
/// the paths has: one for each eight bytes.
pub open spec fn directory_buckets(path_buckets: Seq<u8>) -> nat {
    path_buckets.len() / 8
}

/// The records that a directory of tables holds.
pub open spec fn directory_cells(directory: PackagedDirectoryView) -> Option<
    (Version, PackagedCellsView),
> {
    match version_info_decoded(directory.version_info) {
        None => None,
        Some((version, patches, versioned_files)) => match (
            whole_table::<Package>(directory.packages),
            whole_table::<ChildPackage>(directory.child_packages),
            whole_table::<Group>(directory.groups),
            whole_table::<Path>(directory.paths),
        ) {
            (Some(packages), Some(child_packages), Some(groups), Some(paths)) => match (
                whole_table::<Link>(directory.links),
                whole_table::<Info>(directory.infos),
                whole_table::<Descriptor>(directory.descriptors),
                whole_table::<Metadata>(directory.metadatas),
            ) {
                (Some(links), Some(infos), Some(descriptors), Some(metadatas)) => Some(
                    (
                        version,
                        PackagedCellsView {
                            packages,
                            child_packages,
                            groups,
                            paths,
                            links,
                            infos,
                            descriptors,
                            metadatas,
                            patches,
                            versioned_files,
                        },
                    ),
                ),
                _ => None,
            },
            _ => None,
        },
    }
}

impl PackagedEngine {
    /// Reads the engine from the files of a directory of tables. The lookups
    /// are built from the packages and the paths; the file of the buckets
    /// only says how many buckets there are. Every cell gets the next
    /// identifier of the counter, store after store. Fails with a format
    /// error where a table does not parse or there is no bucket, and with an
    /// invariant error where the counter has not as many identifiers left
    /// as there are cells; the counter is then as it was.
    pub fn from_directory(directory: &PackagedDirectory, ids: &mut CellIds) -> (result: Result<
        Self,
        ArchiveError,
    >)
        ensures
            match result {
                Ok(engine) => directory_cells(directory@) matches Some((version, cells))
                    && directory_buckets(directory@.path_buckets) > 0 && engine.wf() && engine@
                    == fresh_model(version, cells, directory_buckets(directory@.path_buckets))
                    && engine.cells.numbered_from(old(ids).next as int) && final(ids).next == old(ids).next + cells.cell_count(),
                Err(error) => final(ids).next == old(ids).next && if error == ArchiveError::Format {
                    directory_cells(directory@) is None || directory_buckets(
                        directory@.path_buckets,
                    ) == 0
                } else {
                    directory_cells(directory@) matches Some((version, cells)) && error
                        == ArchiveError::Invariant && directory_buckets(directory@.path_buckets)
                        > 0 && !old(ids).room(cells.cell_count())
                },
            },
    {
        let data = directory.version_info.as_slice();
        if data.len() < 8 {
            return Err(ArchiveError::Format);
        }
        let version = Version::parse(data, 0);
        let count: usize = read_u32(data, 4) as usize;
        let patches = match read_records_at::<Patch>(data, 8, count) {
            None => {
                return Err(ArchiveError::Format);
            },
            Some(patches) => patches,
        };
        assert(count * 0x20 <= usize::MAX - 8 || count == 0) by {
            if count > 0 {
                assert(8 + count * 0x20 <= data@.len());
            }
        }
        let start: usize = if count == 0 {
            8
        } else {
            8 + count * 0x20
        };
        let versioned_files = match read_patch_files(data, &patches, start, false) {
            None => {
                return Err(ArchiveError::Format);
            },
            Some((files, _)) => files,
        };
        let packages = read_table::<Package>(directory.packages.as_slice())?;
        let child_packages = read_table::<ChildPackage>(directory.child_packages.as_slice())?;
        let groups = read_table::<Group>(directory.groups.as_slice())?;
        let paths = read_table::<Path>(directory.paths.as_slice())?;
        let links = read_table::<Link>(directory.links.as_slice())?;
        let infos = read_table::<Info>(directory.infos.as_slice())?;
        let descriptors = read_table::<Descriptor>(directory.descriptors.as_slice())?;
        let metadatas = read_table::<Metadata>(directory.metadatas.as_slice())?;
        let bucket_count: usize = directory.path_buckets.len() / 8;
        if bucket_count == 0 {
            return Err(ArchiveError::Format);
        }
        let mut cells = PackagedCells {
            packages: CellStore::unnamed(packages),
            child_packages: CellStore::unnamed(child_packages),
            groups: CellStore::unnamed(groups),
            paths: CellStore::unnamed(paths),
            links: CellStore::unnamed(links),
            infos: CellStore::unnamed(infos),
            descriptors: CellStore::unnamed(descriptors),
            metadatas: CellStore::unnamed(metadatas),
            patches: CellStore::unnamed(patches),
            versioned_files: CellStore::unnamed(versioned_files),
        };
        if !cells.name_all(ids) {
            return Err(ArchiveError::Invariant);
        }
        Self::from_cells(version, cells, bucket_count)
    }
}


/// After a file was added, the lookup of the paths knows the path of the
/// file; the path has the hashes that it was added with and is bound to its
/// link; the info of the file is bound to the path and is that of a graphics
/// archive exactly where the extension of the path is one of a graphics
/// archive, and that of a regular file exactly where it is not; the link is
/// owned by the package and bound to the info; and the info is the last of
/// the infos of the package.
pub proof fn lemma_add_file_surface(model: PackagedModel, path: Path, package: Hash40)
    requires
        well_bucketed(model.file_lookup),
        model.cells.paths.len() <= usize::MAX,
        model.cells.infos.len() <= usize::MAX,
        model.cells.links.len() <= usize::MAX,
        model.with_file(path, package) is Some,
    ensures
        ({
            let after = model.with_file(path, package).unwrap();
            let new = model.cells.next_cells();
            let target = model.file_target(package).unwrap();
            let added_path = after.cells.paths[new.path.slot as int];
            let info = after.cells.infos[new.info.slot as int];
            let link = after.cells.links[new.link.slot as int];
            let owner = after.cells.packages[target.0.slot as int];
            &&& bucket_lookup(after.file_lookup, path.full_path.0) == Some(new.path)
            &&& added_path.full_path == path.full_path
            &&& added_path.extension == path.extension
            &&& added_path.parent == path.parent
            &&& added_path.file_name == path.file_name
            &&& added_path.link == TableReference::Resolved(new.link)
            &&& info.path == TableReference::Resolved(new.path)
            &&& info.link == TableReference::Resolved(new.link)
            &&& info.is_graphics_archive == path.graphics_archive_extension()
            &&& info.is_regular_file == !path.graphics_archive_extension()
            &&& link.owner == LinkOwnerReference::Package(target.0)
            &&& link.info == TableReference::Resolved(new.info)
            &&& owner.infos is Resolved
            &&& owner.infos.cells().len() > 0
            &&& owner.infos.cells().last() == new.info
            &&& model.package_lookup[package.0] == target.0
        }),
{
}


/// After a file was added, the lookup of the paths has the buckets that it
/// had and one pair more: the hash of the new path, with the cell of the
/// path. The lookup of the packages, the tables and the version stay as
/// they are.
pub proof fn lemma_add_file_grows_lookup(model: PackagedModel, path: Path, package: Hash40)
    requires
        well_bucketed(model.file_lookup),
        all_listed(model.file_lookup),
        model.with_file(path, package) is Some,
    ensures
        ({
            let after = model.with_file(path, package).unwrap();
            let buckets = model.file_lookup.len();
            &&& after.file_lookup.len() == buckets
            &&& well_bucketed(after.file_lookup)
            &&& all_listed(after.file_lookup)
            &&& bucket_entries(after.file_lookup, buckets).len() == bucket_entries(
                model.file_lookup,
                buckets,
            ).len() + 1
            &&& bucket_lookup(after.file_lookup, path.full_path.0) == Some(
                model.cells.next_cells().path,
            )
            &&& forall|hash: u64|
                hash != path.full_path.0 ==> #[trigger] bucket_lookup(after.file_lookup, hash)
                    == bucket_lookup(model.file_lookup, hash)
            &&& after.package_lookup == model.package_lookup
            &&& after.tables == model.tables
            &&& after.version == model.version
        }),
{
    let after = model.with_file(path, package).unwrap();
    lemma_bucket_insert_grows(
        model.file_lookup,
        path.full_path.0,
        model.cells.next_cells().path,
    );
    let at = bucket_of(path.full_path.0, model.file_lookup.len());
    assert forall|bucket: int, key: u64|
        0 <= bucket < after.file_lookup.len() && #[trigger] after.file_lookup[bucket].contains_key(
            key,
        ) implies bucket_of(key, after.file_lookup.len()) == bucket by {
        if key != path.full_path.0 || bucket != at {
            assert(model.file_lookup[bucket].contains_key(key));
        }
    }
}

/// Whether every reference of a descriptor is resolved, and, for a
/// descriptor that is not of a versioned file, whether it names no patch.
pub open spec fn descriptor_settled(descriptor: Descriptor, versioned: bool) -> bool {
    &&& descriptor.group is Resolved
    &&& !(descriptor.metadata is Unresolved)
    &&& match descriptor.load_args {
        DescriptorLoadArguments::Unowned { link } => link is Resolved,
        DescriptorLoadArguments::Owned { patch } => !(patch is Unresolved) && (!versioned
            ==> patch is Absent),
        DescriptorLoadArguments::PackageSkip { info } => info is Resolved,
        DescriptorLoadArguments::SharedButOwned { link } => link is Resolved,
        _ => true,
    }
}

/// The descriptor `j` of the info `k` of the table.
pub open spec fn visited_descriptor(
    infos: Seq<InfoView>,
    table: Seq<TableCell>,
    k: int,
    j: int,
) -> TableCell {
    infos[table[k].slot as int].descriptors.cells()[j]
}

/// Whether each of the first `upto` infos of the table has a record with
/// resolved descriptors, and each of those descriptors is settled for the
/// kind of its info.
pub open spec fn descriptors_settled(
    descriptors: Seq<Descriptor>,
    infos: Seq<InfoView>,
    table: Seq<TableCell>,
    upto: nat,
    version_group_info_start: usize,
) -> bool {
    &&& forall|k: int|
        0 <= k < upto ==> (#[trigger] table[k]).slot < infos.len()
            && infos[table[k].slot as int].descriptors is Resolved
    &&& forall|k: int, j: int|
        0 <= k < upto && 0 <= j < infos[table[k].slot as int].descriptors.cells().len() ==> (
        #[trigger] visited_descriptor(infos, table, k, j)).slot < descriptors.len()
            && descriptor_settled(
            descriptors[visited_descriptor(infos, table, k, j).slot as int],
            k >= version_group_info_start,
        )
}

/// After the round over the descriptors, every descriptor that the round
/// went over is settled for the kind of each info that names it.
pub proof fn lemma_info_descriptors_settle(
    descriptors: Seq<Descriptor>,
    infos: Seq<InfoView>,
    table: Seq<TableCell>,
    upto: nat,
    tables: DescriptorTables,
    info_group_info_start: usize,
    version_group_info_start: usize,
)
    requires
        info_descriptors(
            descriptors,
            infos,
            table,
            upto,
            tables,
            info_group_info_start,
            version_group_info_start,
        ) is Some,
    ensures
        info_descriptors(
            descriptors,
            infos,
            table,
            upto,
            tables,
            info_group_info_start,
            version_group_info_start,
        ).unwrap().len() == descriptors.len(),
        descriptors_settled(
            info_descriptors(
                descriptors,
                infos,
                table,
                upto,
                tables,
                info_group_info_start,
                version_group_info_start,
            ).unwrap(),
            infos,
            table,
            upto,
            version_group_info_start,
        ),
    decreases upto,
{
    if upto > 0 {
        let a = info_group_info_start;
        let b = version_group_info_start;
        lemma_info_descriptors_settle(descriptors, infos, table, (upto - 1) as nat, tables, a, b);
        let before = info_descriptors(
            descriptors,
            infos,
            table,
            (upto - 1) as nat,
            tables,
            a,
            b,
        ).unwrap();
        let after = info_descriptors(descriptors, infos, table, upto, tables, a, b).unwrap();
        let cells = infos[table[upto - 1].slot as int].descriptors.cells();
        let versioned = upto - 1 >= b;
        let step = descriptor_step(
            tables.groups,
            tables.links,
            tables.infos,
            tables.metadatas,
            tables.patches,
            info_offset_at(upto - 1, a),
            versioned,
        );
        assert(pass(before, cells, cells.len(), step) == Some(after));
        lemma_pass_keeps(before, cells, cells.len(), step, |d: Descriptor| descriptor_settled(d, true));
        lemma_pass_keeps(
            before,
            cells,
            cells.len(),
            step,
            |d: Descriptor| descriptor_settled(d, false),
        );
        lemma_pass_settles(
            before,
            cells,
            cells.len(),
            step,
            |d: Descriptor| descriptor_settled(d, versioned),
        );
        assert forall|k: int, j: int|
            0 <= k < upto && 0 <= j < infos[table[k].slot as int].descriptors.cells().len()
            implies (#[trigger] visited_descriptor(infos, table, k, j)).slot < after.len()
            && descriptor_settled(
            after[visited_descriptor(infos, table, k, j).slot as int],
            k >= b,
        ) by {
            let cell = visited_descriptor(infos, table, k, j);
            if k < upto - 1 {
                assert(descriptor_settled(before[cell.slot as int], k >= b));
                if k >= b {
                    assert(descriptor_settled(after[cell.slot as int], true));
                } else {
                    assert(descriptor_settled(after[cell.slot as int], false));
                }
            } else {
                assert(cells[j] == cell);
            }
        }
    }
}

/// The round over descriptors that are all settled changes nothing.
pub proof fn lemma_info_descriptors_fixed(
    descriptors: Seq<Descriptor>,
    infos: Seq<InfoView>,
    table: Seq<TableCell>,
    upto: nat,
    tables: DescriptorTables,
    info_group_info_start: usize,
    version_group_info_start: usize,
)
    requires
        descriptors_settled(descriptors, infos, table, upto, version_group_info_start),
    ensures
        info_descriptors(
            descriptors,
            infos,
            table,
            upto,
            tables,
            info_group_info_start,
            version_group_info_start,
        ) == Some(descriptors),
    decreases upto,
{
    if upto > 0 {
        let a = info_group_info_start;
        let b = version_group_info_start;
        lemma_info_descriptors_fixed(descriptors, infos, table, (upto - 1) as nat, tables, a, b);
        assert(table[upto - 1].slot < infos.len());
        let cells = infos[table[upto - 1].slot as int].descriptors.cells();
        let versioned = upto - 1 >= b;
        let step = descriptor_step(
            tables.groups,
            tables.links,
            tables.infos,
            tables.metadatas,
            tables.patches,
            info_offset_at(upto - 1, a),
            versioned,
        );
        assert forall|j: int| 0 <= j < cells.len() implies (#[trigger] cells[j]).slot
            < descriptors.len() && descriptor_settled(descriptors[cells[j].slot as int], versioned) by {
            assert(visited_descriptor(infos, table, upto - 1, j) == cells[j]);
        }
        lemma_pass_fixed(
            descriptors,
            cells,
            cells.len(),
            step,
            |d: Descriptor| descriptor_settled(d, versioned),
        );
    }
}

/// Where the last group is no info-group there is no latest patch: the
/// files of the latest patch are counted from zero, no versioned file can
/// be named, and a path that names one cannot be resolved.
pub proof fn lemma_starts_without_latest_patch(
    model: PackagedModel,
    groups: Seq<GroupView>,
    path: Path,
    index: int,
)
    requires
        !ends_with_info_group(groups, model.tables.groups),
    ensures
        model.starts(groups) matches Some(starts) ==> starts.2 == 0,
        model.starts(groups) is Some <==> group_info_start(
            groups,
            model.tables.groups,
            model.tables.infos,
            model.tables.groups.len(),
            false,
        ) is Some && group_info_start(
            groups,
            model.tables.groups,
            model.tables.infos,
            model.tables.groups.len(),
            true,
        ) is Some,
        model.latest_files(groups).len() == 0,
        path.versioned_file is Unresolved ==> path_step(
            model.tables.links,
            model.latest_files(groups),
            0,
        )(path, index) is None,
{
}

/// Whether the path is settled: its link is bound, and its versioned
/// file is bound or there is none.
pub open spec fn path_settled() -> spec_fn(Path) -> bool {
    |path: Path| path.link is Resolved && !(path.versioned_file is Unresolved)
}

/// After resolving, every record that a table lists is resolved: every
/// package, child-package entry, group, path, link, info, patch and
/// versioned file.
pub proof fn lemma_resolution_settles(model: PackagedModel)
    requires
        model.resolution() is Some,
    ensures
        ({
            let t = model.tables;
            let c = model.cells;
            let r = model.resolution().unwrap();
            &&& forall|i: int|
                0 <= i < t.packages.len() ==> r.packages[(
                #[trigger] t.packages[i]).slot as int].is_resolved()
            &&& forall|i: int|
                0 <= i < t.child_packages.len() ==> r.child_packages[(
                #[trigger] t.child_packages[i]).slot as int].package is Resolved
            &&& forall|i: int|
                0 <= i < t.groups.len() ==> !(r.groups[(
                #[trigger] t.groups[i]).slot as int].files is Unresolved) && !(
                r.groups[t.groups[i].slot as int].sub_package is Unresolved)
            &&& forall|i: int|
                0 <= i < t.paths.len() ==> path_settled()(r.paths[(#[trigger] t.paths[i]).slot as int])
            &&& forall|i: int|
                0 <= i < t.links.len() ==> !(r.links[(#[trigger] t.links[i]).slot as int].owner
                    is Unresolved) && r.links[t.links[i].slot as int].info is Resolved
            &&& forall|i: int|
                0 <= i < t.infos.len() ==> r.infos[(#[trigger] t.infos[i]).slot as int].is_resolved()
            &&& forall|i: int|
                0 <= i < t.patches.len() ==> r.patches[(
                #[trigger] t.patches[i]).slot as int].is_resolved()
            &&& forall|i: int|
                0 <= i < t.versioned_files.len() ==> r.versioned_files[(
                #[trigger] t.versioned_files[i]).slot as int].link is Resolved
                    && r.versioned_files[t.versioned_files[i].slot as int].info is Resolved
        }),
{
    let t = model.tables;
    let c = model.cells;
    lemma_pass_settles(
        c.packages,
        t.packages,
        t.packages.len(),
        package_step(t.groups, t.infos, t.child_packages),
        |package: PackageView| package.is_resolved(),
    );
    lemma_pass_settles(
        c.child_packages,
        t.child_packages,
        t.child_packages.len(),
        child_package_step(t.packages),
        |entry: ChildPackage| entry.package is Resolved,
    );
    lemma_pass_settles(
        c.groups,
        t.groups,
        t.groups.len(),
        group_step(t.packages, t.groups, t.infos, t.metadatas),
        |group: GroupView| !(group.files is Unresolved) && !(group.sub_package is Unresolved),
    );
    let groups = pass(
        c.groups,
        t.groups,
        t.groups.len(),
        group_step(t.packages, t.groups, t.infos, t.metadatas),
    ).unwrap();
    let starts = model.starts(groups).unwrap();
    lemma_pass_settles(
        c.paths,
        t.paths,
        t.paths.len(),
        path_step(t.links, model.latest_files(groups), starts.2),
        path_settled(),
    );
    lemma_pass_settles(
        c.links,
        t.links,
        t.links.len(),
        link_step(t.packages, t.groups, t.infos),
        |link: Link| !(link.owner is Unresolved) && link.info is Resolved,
    );
    lemma_pass_settles(
        c.infos,
        t.infos,
        t.infos.len(),
        info_step(t.paths, t.links, t.descriptors),
        |info: InfoView| info.is_resolved(),
    );
    lemma_pass_settles(
        c.patches,
        t.patches,
        t.patches.len(),
        patch_step(t.versioned_files, t.infos, t.groups, starts.1),
        |patch: PatchView| patch.is_resolved(),
    );
    lemma_pass_settles(
        c.versioned_files,
        t.versioned_files,
        t.versioned_files.len(),
        versioned_file_step(t.links, t.infos),
        |file: VersionedFile| file.link is Resolved && file.info is Resolved,
    );
}

/// Resolving a packaged filesystem a second time changes nothing.
pub proof fn lemma_packaged_resolve_idempotent(model: PackagedModel)
    requires
        model.resolution() is Some,
    ensures
        (PackagedModel { cells: model.resolution().unwrap(), ..model }).resolution()
            == model.resolution(),
{
    let t = model.tables;
    let c = model.cells;
    lemma_pass_idempotent(
        c.packages,
        t.packages,
        t.packages.len(),
        package_step(t.groups, t.infos, t.child_packages),
        |package: PackageView| package.is_resolved(),
    );
    lemma_pass_idempotent(
        c.child_packages,
        t.child_packages,
        t.child_packages.len(),
        child_package_step(t.packages),
        |entry: ChildPackage| entry.package is Resolved,
    );
    lemma_pass_idempotent(
        c.groups,
        t.groups,
        t.groups.len(),
        group_step(t.packages, t.groups, t.infos, t.metadatas),
        |group: GroupView| !(group.files is Unresolved) && !(group.sub_package is Unresolved),
    );
    let groups = pass(
        c.groups,
        t.groups,
        t.groups.len(),
        group_step(t.packages, t.groups, t.infos, t.metadatas),
    ).unwrap();
    let starts = model.starts(groups).unwrap();
    lemma_pass_idempotent(
        c.paths,
        t.paths,
        t.paths.len(),
        path_step(t.links, model.latest_files(groups), starts.2),
        |path: Path| path.link is Resolved && !(path.versioned_file is Unresolved),
    );
    lemma_pass_idempotent(
        c.links,
        t.links,
        t.links.len(),
        link_step(t.packages, t.groups, t.infos),
        |link: Link| !(link.owner is Unresolved) && link.info is Resolved,
    );
    lemma_pass_idempotent(
        c.infos,
        t.infos,
        t.infos.len(),
        info_step(t.paths, t.links, t.descriptors),
        |info: InfoView| info.is_resolved(),
    );
    let infos = pass(c.infos, t.infos, t.infos.len(), info_step(t.paths, t.links, t.descriptors)).unwrap();
    let tables = DescriptorTables {
        groups: t.groups,
        links: t.links,
        infos: t.infos,
        metadatas: t.metadatas,
        patches: t.patches,
    };
    lemma_info_descriptors_settle(
        c.descriptors,
        infos,
        t.infos,
        t.infos.len(),
        tables,
        starts.0,
        starts.1,
    );
    let descriptors = info_descriptors(
        c.descriptors,
        infos,
        t.infos,
        t.infos.len(),
        tables,
        starts.0,
        starts.1,
    ).unwrap();
    lemma_info_descriptors_fixed(
        descriptors,
        infos,
        t.infos,
        t.infos.len(),
        tables,
        starts.0,
        starts.1,
    );
    lemma_pass_idempotent(
        c.patches,
        t.patches,
        t.patches.len(),
        patch_step(t.versioned_files, t.infos, t.groups, starts.1),
        |patch: PatchView| patch.is_resolved(),
    );
    lemma_pass_idempotent(
        c.versioned_files,
        t.versioned_files,
        t.versioned_files.len(),
        versioned_file_step(t.links, t.infos),
        |file: VersionedFile| file.link is Resolved && file.info is Resolved,
    );
}

} // verus!
