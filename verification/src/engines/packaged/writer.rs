//! Rebuilding the tables of the packaged filesystem in their canonical order.
//!
//! The walk starts from the packages, goes on with the info-groups that are
//! no version-groups and ends with the patches. Each cell enters its table
//! when the walk first reaches it, and that gives the cell its index.
use vstd::prelude::*;
use std::collections::BTreeMap;

use crate::engines::packaged::bucket_map::BucketMap;
use crate::engines::packaged::types::{
    DescriptorLoadArguments, DescriptorLoadArgumentsPatchReference, DescriptorMetadataReference,
    GroupFileReference, GroupFilesView,
};
use crate::engines::packaged::{PackagedCells, PackagedCellsView, PackagedEngine, PackagedTables};
use crate::engines::rounds::{lemma_walk_fails, walk};
use crate::engines::table::{
    position, pushed, ReferenceSetView, TableCell, TableMaker, TableReference,
};
use crate::engines::Version;
use crate::ArchiveError;

verus! {

/// The tables with nothing in them.
pub open spec fn empty_tables() -> PackagedTables {
    PackagedTables {
        packages: Seq::empty(),
        child_packages: Seq::empty(),
        groups: Seq::empty(),
        paths: Seq::empty(),
        links: Seq::empty(),
        infos: Seq::empty(),
        descriptors: Seq::empty(),
        metadatas: Seq::empty(),
        patches: Seq::empty(),
        versioned_files: Seq::empty(),
    }
}

/// Pushing a metadata that is new to its table.
pub open spec fn with_metadata(t: PackagedTables, cell: TableCell) -> Option<PackagedTables> {
    match pushed(t.metadatas, cell) {
        None => None,
        Some(metadatas) => Some(PackagedTables { metadatas, ..t }),
    }
}

/// Pushing a metadata unless its table holds it already.
pub open spec fn with_metadata_once(t: PackagedTables, cell: TableCell) -> Option<PackagedTables> {
    if t.metadatas.contains(cell) {
        Some(t)
    } else {
        with_metadata(t, cell)
    }
}

/// Pushing a link unless its table holds it already.
pub open spec fn with_link_once(t: PackagedTables, link: TableReference) -> Option<
    PackagedTables,
> {
    match link {
        TableReference::Unresolved(_) => None,
        TableReference::Resolved(cell) => if t.links.contains(cell) {
            Some(t)
        } else {
            match pushed(t.links, cell) {
                None => None,
                Some(links) => Some(PackagedTables { links, ..t }),
            }
        },
    }
}

/// Pushing a path unless its table holds it already.
pub open spec fn with_path_once(t: PackagedTables, path: TableReference) -> Option<
    PackagedTables,
> {
    match path {
        TableReference::Unresolved(_) => None,
        TableReference::Resolved(cell) => if t.paths.contains(cell) {
            Some(t)
        } else {
            match pushed(t.paths, cell) {
                None => None,
                Some(paths) => Some(PackagedTables { paths, ..t }),
            }
        },
    }
}

/// Pushing a child-package entry.
pub open spec fn with_child_package(t: PackagedTables, cell: TableCell) -> Option<
    PackagedTables,
> {
    match pushed(t.child_packages, cell) {
        None => None,
        Some(child_packages) => Some(PackagedTables { child_packages, ..t }),
    }
}

/// Pushing a versioned file.
pub open spec fn with_versioned_file(t: PackagedTables, cell: TableCell) -> Option<
    PackagedTables,
> {
    match pushed(t.versioned_files, cell) {
        None => None,
        Some(versioned_files) => Some(PackagedTables { versioned_files, ..t }),
    }
}

/// Pushing a descriptor. The descriptor of an info-group brings its metadata
/// with it. The descriptor of a version-group brings its metadata only where
/// it owns data of a patch that is in the tables already and the metadata is
/// new.
pub open spec fn with_descriptor(
    t: PackagedTables,
    c: PackagedCellsView,
    cell: TableCell,
    info_group: bool,
    version_group: bool,
) -> Option<PackagedTables> {
    match pushed(t.descriptors, cell) {
        None => None,
        Some(descriptors) => {
            let t = PackagedTables { descriptors, ..t };
            if cell.slot >= c.descriptors.len() {
                None
            } else {
                let descriptor = c.descriptors[cell.slot as int];
                if version_group {
                    match descriptor.load_args {
                        DescriptorLoadArguments::Owned { patch } => match patch {
                            DescriptorLoadArgumentsPatchReference::Patch(patch) => {
                                match descriptor.metadata {
                                    DescriptorMetadataReference::Metadata(metadata) => {
                                        if t.patches.contains(patch) && !t.metadatas.contains(
                                            metadata,
                                        ) {
                                            with_metadata(t, metadata)
                                        } else {
                                            Some(t)
                                        }
                                    },
                                    _ => Some(t),
                                }
                            },
                            _ => None,
                        },
                        _ => Some(t),
                    }
                } else if info_group {
                    match descriptor.metadata {
                        DescriptorMetadataReference::Metadata(metadata) => with_metadata(
                            t,
                            metadata,
                        ),
                        _ => None,
                    }
                } else {
                    Some(t)
                }
            }
        },
    }
}

/// The step of a walk over descriptors.
pub open spec fn descriptor_walk(c: PackagedCellsView, info_group: bool, version_group: bool)
    -> spec_fn(PackagedTables, TableCell) -> Option<PackagedTables> {
    |t: PackagedTables, cell: TableCell| with_descriptor(t, c, cell, info_group, version_group)
}

/// Whether pushing an info brings its link: not for a shared info, and
/// outside the info-groups not for an info whose first descriptor skips to
/// another package. There is no answer where the first descriptor is asked
/// for and is missing.
pub open spec fn brings_link(
    c: PackagedCellsView,
    is_shared: bool,
    descriptors: Seq<TableCell>,
    info_group: bool,
) -> Option<bool> {
    if is_shared {
        Some(false)
    } else if info_group {
        Some(true)
    } else if descriptors.len() == 0 || descriptors[0].slot >= c.descriptors.len() {
        None
    } else {
        Some(!(c.descriptors[descriptors[0].slot as int].load_args is PackageSkip))
    }
}

/// Pushing an info: the info, then its descriptors, then its link where it
/// brings one and the link is new, then (outside the info-groups) its path
/// where the path is new.
pub open spec fn with_info(
    t: PackagedTables,
    c: PackagedCellsView,
    cell: TableCell,
    info_group: bool,
    version_group: bool,
) -> Option<PackagedTables> {
    match pushed(t.infos, cell) {
        None => None,
        Some(infos) => {
            let t = PackagedTables { infos, ..t };
            if cell.slot >= c.infos.len() {
                None
            } else {
                let info = c.infos[cell.slot as int];
                match info.descriptors {
                    ReferenceSetView::Unresolved(_) => None,
                    ReferenceSetView::Resolved(descriptors) => match walk(
                        t,
                        descriptors,
                        descriptors.len(),
                        descriptor_walk(c, info_group, version_group),
                    ) {
                        None => None,
                        Some(t) => match brings_link(c, info.is_shared, descriptors, info_group) {
                            None => None,
                            Some(brings) => {
                                let linked = if brings {
                                    with_link_once(t, info.link)
                                } else {
                                    Some(t)
                                };
                                match linked {
                                    None => None,
                                    Some(t) => if info_group {
                                        Some(t)
                                    } else {
                                        with_path_once(t, info.path)
                                    },
                                }
                            },
                        },
                    },
                }
            }
        },
    }
}

/// The step of a walk over infos.
pub open spec fn info_walk(c: PackagedCellsView, info_group: bool, version_group: bool)
    -> spec_fn(PackagedTables, TableCell) -> Option<PackagedTables> {
    |t: PackagedTables, cell: TableCell| with_info(t, c, cell, info_group, version_group)
}

/// The step of a walk over the metadatas of a metadata-group.
pub open spec fn metadata_walk() -> spec_fn(PackagedTables, TableCell) -> Option<PackagedTables> {
    |t: PackagedTables, cell: TableCell| with_metadata_once(t, cell)
}

/// Pushing a group: the group, then for a metadata-group its metadatas that
/// are new, for an info-group its infos.
pub open spec fn with_group(t: PackagedTables, c: PackagedCellsView, cell: TableCell) -> Option<
    PackagedTables,
> {
    match pushed(t.groups, cell) {
        None => None,
        Some(groups) => {
            let t = PackagedTables { groups, ..t };
            if cell.slot >= c.groups.len() {
                None
            } else {
                let group = c.groups[cell.slot as int];
                match group.files {
                    GroupFilesView::Metadata(ReferenceSetView::Resolved(metadatas)) => walk(
                        t,
                        metadatas,
                        metadatas.len(),
                        metadata_walk(),
                    ),
                    GroupFilesView::Info(ReferenceSetView::Resolved(infos)) => walk(
                        t,
                        infos,
                        infos.len(),
                        info_walk(c, true, group.is_version_group()),
                    ),
                    _ => None,
                }
            }
        },
    }
}

/// The step of a walk over groups.
pub open spec fn group_walk(c: PackagedCellsView) -> spec_fn(PackagedTables, TableCell) -> Option<
    PackagedTables,
> {
    |t: PackagedTables, cell: TableCell| with_group(t, c, cell)
}

/// The step of a walk over child-package entries.
pub open spec fn child_package_walk() -> spec_fn(PackagedTables, TableCell) -> Option<
    PackagedTables,
> {
    |t: PackagedTables, cell: TableCell| with_child_package(t, cell)
}

/// The step of a walk over versioned files.
pub open spec fn versioned_file_walk() -> spec_fn(PackagedTables, TableCell) -> Option<
    PackagedTables,
> {
    |t: PackagedTables, cell: TableCell| with_versioned_file(t, cell)
}

/// Pushing a package: the package, then its groups, its child-package
/// entries and its infos.
pub open spec fn with_package(t: PackagedTables, c: PackagedCellsView, cell: TableCell) -> Option<
    PackagedTables,
> {
    match pushed(t.packages, cell) {
        None => None,
        Some(packages) => {
            let t = PackagedTables { packages, ..t };
            if cell.slot >= c.packages.len() {
                None
            } else {
                let package = c.packages[cell.slot as int];
                match (package.groups, package.child_packages, package.infos) {
                    (
                        ReferenceSetView::Resolved(groups),
                        ReferenceSetView::Resolved(child_packages),
                        ReferenceSetView::Resolved(infos),
                    ) => match walk(t, groups, groups.len(), group_walk(c)) {
                        None => None,
                        Some(t) => match walk(
                            t,
                            child_packages,
                            child_packages.len(),
                            child_package_walk(),
                        ) {
                            None => None,
                            Some(t) => walk(t, infos, infos.len(), info_walk(c, false, false)),
                        },
                    },
                    _ => None,
                }
            }
        },
    }
}

/// The step of a walk over packages.
pub open spec fn package_walk(c: PackagedCellsView) -> spec_fn(PackagedTables, TableCell) -> Option<
    PackagedTables,
> {
    |t: PackagedTables, cell: TableCell| with_package(t, c, cell)
}

/// The infos of a patch that its group does not hold: those after the first
/// `held` of them.
pub open spec fn infos_beyond(infos: Seq<TableCell>, held: nat) -> Seq<TableCell> {
    if held >= infos.len() {
        Seq::empty()
    } else {
        infos.subrange(held as int, infos.len() as int)
    }
}

/// Pushing a patch: the patch, then its versioned files, its group, and
/// those of its infos that the group does not hold.
pub open spec fn with_patch(t: PackagedTables, c: PackagedCellsView, cell: TableCell) -> Option<
    PackagedTables,
> {
    match pushed(t.patches, cell) {
        None => None,
        Some(patches) => {
            let t = PackagedTables { patches, ..t };
            if cell.slot >= c.patches.len() {
                None
            } else {
                let patch = c.patches[cell.slot as int];
                match (patch.versioned_files, patch.group, patch.infos) {
                    (
                        ReferenceSetView::Resolved(files),
                        TableReference::Resolved(group),
                        ReferenceSetView::Resolved(infos),
                    ) => match walk(t, files, files.len(), versioned_file_walk()) {
                        None => None,
                        Some(t) => match with_group(t, c, group) {
                            None => None,
                            Some(t) => match c.groups[group.slot as int].files {
                                GroupFilesView::Info(ReferenceSetView::Resolved(held)) => {
                                    let beyond = infos_beyond(infos, held.len());
                                    walk(t, beyond, beyond.len(), info_walk(c, true, true))
                                },
                                _ => None,
                            },
                        },
                    },
                    _ => None,
                }
            }
        },
    }
}

/// The step of a walk over patches.
pub open spec fn patch_walk(c: PackagedCellsView) -> spec_fn(PackagedTables, TableCell) -> Option<
    PackagedTables,
> {
    |t: PackagedTables, cell: TableCell| with_patch(t, c, cell)
}

/// The tables and the start of the infos of the info-groups after the first
/// `upto` groups of `groups` were looked at: each info-group that is no
/// version-group is pushed, and the start is the index of the first info of
/// the first such group for which that index is not zero.
pub open spec fn with_info_groups(
    t: PackagedTables,
    c: PackagedCellsView,
    groups: Seq<TableCell>,
    upto: nat,
) -> Option<(PackagedTables, usize)>
    decreases upto,
{
    if upto == 0 {
        Some((t, 0))
    } else {
        match with_info_groups(t, c, groups, (upto - 1) as nat) {
            None => None,
            Some((t, start)) => {
                let cell = groups[upto - 1];
                if cell.slot >= c.groups.len() {
                    None
                } else {
                    let group = c.groups[cell.slot as int];
                    if group.is_info_group() && !group.is_version_group() {
                        match with_group(t, c, cell) {
                            None => None,
                            Some(t) => if start != 0 {
                                Some((t, start))
                            } else {
                                match group.files {
                                    GroupFilesView::Info(ReferenceSetView::Resolved(infos)) => {
                                        if infos.len() == 0 || !t.infos.contains(infos[0]) {
                                            None
                                        } else {
                                            Some((t, position(t.infos, infos[0]) as usize))
                                        }
                                    },
                                    _ => None,
                                }
                            },
                        }
                    } else {
                        Some((t, start))
                    }
                }
            },
        }
    }
}

/// Where the versioned files of the last patch start in the rebuilt table:
/// zero without a patch.
pub open spec fn last_patch_start(
    t: PackagedTables,
    c: PackagedCellsView,
    patches: Seq<TableCell>,
) -> Option<usize> {
    if patches.len() == 0 {
        Some(0)
    } else if patches.last().slot >= c.patches.len() {
        None
    } else {
        match c.patches[patches.last().slot as int].versioned_files {
            ReferenceSetView::Resolved(files) => if files.len() == 0 || !t.versioned_files.contains(
                files[0],
            ) {
                None
            } else {
                Some(position(t.versioned_files, files[0]) as usize)
            },
            _ => None,
        }
    }
}

/// What the walk over an engine gives: the rebuilt tables and the two
/// starts that the writer needs.
pub struct Reorganized {
    pub tables: PackagedTables,
    pub info_group_info_start: usize,
    pub last_patch_files_start: usize,
}

/// The walk over the tables `from` of an engine with the records `c`: every
/// package, then every info-group that is no version-group, then every
/// patch. There is no result where a cell would enter a table twice, a
/// handle has no record, or a reference that the walk follows is not
/// resolved.
pub open spec fn reorganized(from: PackagedTables, c: PackagedCellsView) -> Option<Reorganized> {
    match walk(empty_tables(), from.packages, from.packages.len(), package_walk(c)) {
        None => None,
        Some(t) => match with_info_groups(t, c, from.groups, from.groups.len()) {
            None => None,
            Some((t, info_group_info_start)) => match walk(
                t,
                from.patches,
                from.patches.len(),
                patch_walk(c),
            ) {
                None => None,
                Some(t) => match last_patch_start(t, c, from.patches) {
                    None => None,
                    Some(last_patch_files_start) => Some(
                        Reorganized { tables: t, info_group_info_start, last_patch_files_start },
                    ),
                },
            },
        },
    }
}

/// One collector for each table of the packaged filesystem.
pub struct PackagedMakers {
    pub packages: TableMaker,
    pub child_packages: TableMaker,
    pub groups: TableMaker,
    pub paths: TableMaker,
    pub links: TableMaker,
    pub infos: TableMaker,
    pub descriptors: TableMaker,
    pub metadatas: TableMaker,
    pub patches: TableMaker,
    pub versioned_files: TableMaker,
}

impl View for PackagedMakers {
    type V = PackagedTables;

    open spec fn view(&self) -> PackagedTables {
        PackagedTables {
            packages: self.packages@,
            child_packages: self.child_packages@,
            groups: self.groups@,
            paths: self.paths@,
            links: self.links@,
            infos: self.infos@,
            descriptors: self.descriptors@,
            metadatas: self.metadatas@,
            patches: self.patches@,
            versioned_files: self.versioned_files@,
        }
    }
}

impl PackagedMakers {
    /// Every collector is well-formed.
    pub open spec fn wf(&self) -> bool {
        &&& self.packages.wf()
        &&& self.child_packages.wf()
        &&& self.groups.wf()
        &&& self.paths.wf()
        &&& self.links.wf()
        &&& self.infos.wf()
        &&& self.descriptors.wf()
        &&& self.metadatas.wf()
        &&& self.patches.wf()
        &&& self.versioned_files.wf()
    }

    pub fn new() -> (makers: Self)
        ensures
            makers.wf(),
            makers@ == empty_tables(),
    {
        PackagedMakers {
            packages: TableMaker::new(),
            child_packages: TableMaker::new(),
            groups: TableMaker::new(),
            paths: TableMaker::new(),
            links: TableMaker::new(),
            infos: TableMaker::new(),
            descriptors: TableMaker::new(),
            metadatas: TableMaker::new(),
            patches: TableMaker::new(),
            versioned_files: TableMaker::new(),
        }
    }

    fn push_metadata_once(&mut self, cell: TableCell) -> (done: bool)
        requires
            old(self).wf(),
        ensures
            final(self).wf(),
            done == with_metadata_once(old(self)@, cell).is_some(),
            done ==> Some(final(self)@) == with_metadata_once(old(self)@, cell),
    {
        if self.metadatas.has_cell(&cell) {
            true
        } else {
            self.metadatas.push_new(cell)
        }
    }

    fn push_link_once(&mut self, link: &TableReference) -> (done: bool)
        requires
            old(self).wf(),
        ensures
            final(self).wf(),
            done == with_link_once(old(self)@, *link).is_some(),
            done ==> Some(final(self)@) == with_link_once(old(self)@, *link),
    {
        match link {
            TableReference::Unresolved(_) => false,
            TableReference::Resolved(cell) => {
                if self.links.has_cell(cell) {
                    true
                } else {
                    self.links.push_new(*cell)
                }
            },
        }
    }

    fn push_path_once(&mut self, path: &TableReference) -> (done: bool)
        requires
            old(self).wf(),
        ensures
            final(self).wf(),
            done == with_path_once(old(self)@, *path).is_some(),
            done ==> Some(final(self)@) == with_path_once(old(self)@, *path),
    {
        match path {
            TableReference::Unresolved(_) => false,
            TableReference::Resolved(cell) => {
                if self.paths.has_cell(cell) {
                    true
                } else {
                    self.paths.push_new(*cell)
                }
            },
        }
    }

    fn push_descriptor(
        &mut self,
        cells: &PackagedCells,
        descriptor: TableCell,
        is_info_group_descriptor: bool,
        is_version_group_descriptor: bool,
    ) -> (done: bool)
        requires
            old(self).wf(),
        ensures
            final(self).wf(),
            done == with_descriptor(
                old(self)@,
                cells@,
                descriptor,
                is_info_group_descriptor,
                is_version_group_descriptor,
            ).is_some(),
            done ==> Some(final(self)@) == with_descriptor(
                old(self)@,
                cells@,
                descriptor,
                is_info_group_descriptor,
                is_version_group_descriptor,
            ),
    {
        if !self.descriptors.push_new(descriptor) {
            return false;
        }
        let record = match cells.descriptors.lookup(&descriptor) {
            None => {
                return false;
            },
            Some(record) => record,
        };
        if is_version_group_descriptor {
            match record.load_args {
                DescriptorLoadArguments::Owned { patch } => match patch {
                    DescriptorLoadArgumentsPatchReference::Patch(patch) => {
                        match record.metadata {
                            DescriptorMetadataReference::Metadata(metadata) => {
                                if self.patches.has_cell(&patch) && !self.metadatas.has_cell(
                                    &metadata,
                                ) {
                                    self.metadatas.push_new(metadata)
                                } else {
                                    true
                                }
                            },
                            _ => true,
                        }
                    },
                    _ => false,
                },
                _ => true,
            }
        } else if is_info_group_descriptor {
            match record.metadata {
                DescriptorMetadataReference::Metadata(metadata) => self.metadatas.push_new(
                    metadata,
                ),
                _ => false,
            }
        } else {
            true
        }
    }

    #[verifier::loop_isolation(false)]
    fn push_info(
        &mut self,
        cells: &PackagedCells,
        info: TableCell,
        is_info_group_info: bool,
        is_version_group_info: bool,
    ) -> (done: bool)
        requires
            old(self).wf(),
        ensures
            final(self).wf(),
            done == with_info(
                old(self)@,
                cells@,
                info,
                is_info_group_info,
                is_version_group_info,
            ).is_some(),
            done ==> Some(final(self)@) == with_info(
                old(self)@,
                cells@,
                info,
                is_info_group_info,
                is_version_group_info,
            ),
    {
        if !self.infos.push_new(info) {
            return false;
        }
        let record = match cells.infos.lookup(&info) {
            None => {
                return false;
            },
            Some(record) => record,
        };
        if !record.descriptors.0.is_resolved() {
            return false;
        }
        let descriptors = record.descriptors.0.cells();
        let ghost start = self@;
        let ghost step = descriptor_walk(cells@, is_info_group_info, is_version_group_info);
        let mut i: usize = 0;
        while i < descriptors.len()
            invariant
                i <= descriptors@.len(),
                self.wf(),
                step == descriptor_walk(cells@, is_info_group_info, is_version_group_info),
                walk(start, descriptors@, i as nat, step) == Some(self@),
            decreases descriptors@.len() - i,
        {
            if !self.push_descriptor(
                cells,
                descriptors[i],
                is_info_group_info,
                is_version_group_info,
            ) {
                proof {
                    lemma_walk_fails(start, descriptors@, (i + 1) as nat, descriptors@.len(), step);
                }
                return false;
            }
            i = i + 1;
        }
        let brings: bool = if record.is_shared {
            false
        } else if is_info_group_info {
            true
        } else {
            if descriptors.len() == 0 {
                return false;
            }
            match cells.descriptors.lookup(&descriptors[0]) {
                None => {
                    return false;
                },
                Some(first) => !matches!(
                    first.load_args,
                    DescriptorLoadArguments::PackageSkip { .. }
                ),
            }
        };
        if brings {
            if !self.push_link_once(&record.link) {
                return false;
            }
        }
        if is_info_group_info {
            true
        } else {
            self.push_path_once(&record.path)
        }
    }

    #[verifier::loop_isolation(false)]
    fn push_group(&mut self, cells: &PackagedCells, group: TableCell) -> (done: bool)
        requires
            old(self).wf(),
        ensures
            final(self).wf(),
            done == with_group(old(self)@, cells@, group).is_some(),
            done ==> Some(final(self)@) == with_group(old(self)@, cells@, group),
    {
        if !self.groups.push_new(group) {
            return false;
        }
        let record = match cells.groups.lookup(&group) {
            None => {
                return false;
            },
            Some(record) => record,
        };
        let ghost start = self@;
        match &record.files {
            GroupFileReference::Metadata(set) => {
                if !set.0.is_resolved() {
                    return false;
                }
                let metadatas = set.0.cells();
                let ghost step = metadata_walk();
                let mut i: usize = 0;
                while i < metadatas.len()
                    invariant
                        i <= metadatas@.len(),
                        self.wf(),
                        step == metadata_walk(),
                        walk(start, metadatas@, i as nat, step) == Some(self@),
                    decreases metadatas@.len() - i,
                {
                    if !self.push_metadata_once(metadatas[i]) {
                        proof {
                            lemma_walk_fails(
                                start,
                                metadatas@,
                                (i + 1) as nat,
                                metadatas@.len(),
                                step,
                            );
                        }
                        return false;
                    }
                    i = i + 1;
                }
                true
            },
            GroupFileReference::Info(set) => {
                if !set.0.is_resolved() {
                    return false;
                }
                let is_versioned = record.is_version_group();
                let infos = set.0.cells();
                let ghost step = info_walk(cells@, true, is_versioned);
                let mut i: usize = 0;
                while i < infos.len()
                    invariant
                        i <= infos@.len(),
                        self.wf(),
                        step == info_walk(cells@, true, is_versioned),
                        walk(start, infos@, i as nat, step) == Some(self@),
                    decreases infos@.len() - i,
                {
                    if !self.push_info(cells, infos[i], true, is_versioned) {
                        proof {
                            lemma_walk_fails(start, infos@, (i + 1) as nat, infos@.len(), step);
                        }
                        return false;
                    }
                    i = i + 1;
                }
                true
            },
            GroupFileReference::Unresolved(_) => false,
        }
    }

    #[verifier::loop_isolation(false)]
    fn push_infos(
        &mut self,
        cells: &PackagedCells,
        infos: &[TableCell],
        is_info_group_info: bool,
        is_version_group_info: bool,
    ) -> (done: bool)
        requires
            old(self).wf(),
        ensures
            final(self).wf(),
            done == walk(
                old(self)@,
                infos@,
                infos@.len(),
                info_walk(cells@, is_info_group_info, is_version_group_info),
            ).is_some(),
            done ==> Some(final(self)@) == walk(
                old(self)@,
                infos@,
                infos@.len(),
                info_walk(cells@, is_info_group_info, is_version_group_info),
            ),
    {
        let ghost start = self@;
        let ghost step = info_walk(cells@, is_info_group_info, is_version_group_info);
        let mut i: usize = 0;
        while i < infos.len()
            invariant
                i <= infos@.len(),
                self.wf(),
                step == info_walk(cells@, is_info_group_info, is_version_group_info),
                walk(start, infos@, i as nat, step) == Some(self@),
            decreases infos@.len() - i,
        {
            if !self.push_info(cells, infos[i], is_info_group_info, is_version_group_info) {
                proof {
                    lemma_walk_fails(start, infos@, (i + 1) as nat, infos@.len(), step);
                }
                return false;
            }
            i = i + 1;
        }
        true
    }

    #[verifier::loop_isolation(false)]
    fn push_package(&mut self, cells: &PackagedCells, package: TableCell) -> (done: bool)
        requires
            old(self).wf(),
        ensures
            final(self).wf(),
            done == with_package(old(self)@, cells@, package).is_some(),
            done ==> Some(final(self)@) == with_package(old(self)@, cells@, package),
    {
        if !self.packages.push_new(package) {
            return false;
        }
        let record = match cells.packages.lookup(&package) {
            None => {
                return false;
            },
            Some(record) => record,
        };
        if !record.is_resolved() {
            return false;
        }
        let groups = record.groups.0.cells();
        let ghost start = self@;
        let ghost step = group_walk(cells@);
        let mut i: usize = 0;
        while i < groups.len()
            invariant
                i <= groups@.len(),
                self.wf(),
                step == group_walk(cells@),
                walk(start, groups@, i as nat, step) == Some(self@),
            decreases groups@.len() - i,
        {
            if !self.push_group(cells, groups[i]) {
                proof {
                    lemma_walk_fails(start, groups@, (i + 1) as nat, groups@.len(), step);
                }
                return false;
            }
            i = i + 1;
        }
        let child_packages = record.child_packages.0.cells();
        let ghost start = self@;
        let ghost step = child_package_walk();
        let mut i: usize = 0;
        while i < child_packages.len()
            invariant
                i <= child_packages@.len(),
                self.wf(),
                step == child_package_walk(),
                walk(start, child_packages@, i as nat, step) == Some(self@),
            decreases child_packages@.len() - i,
        {
            if !self.child_packages.push_new(child_packages[i]) {
                proof {
                    lemma_walk_fails(
                        start,
                        child_packages@,
                        (i + 1) as nat,
                        child_packages@.len(),
                        step,
                    );
                }
                return false;
            }
            i = i + 1;
        }
        self.push_infos(cells, record.infos.0.cells(), false, false)
    }

    #[verifier::loop_isolation(false)]
    fn push_patch(&mut self, cells: &PackagedCells, patch: TableCell) -> (done: bool)
        requires
            old(self).wf(),
        ensures
            final(self).wf(),
            done == with_patch(old(self)@, cells@, patch).is_some(),
            done ==> Some(final(self)@) == with_patch(old(self)@, cells@, patch),
    {
        if !self.patches.push_new(patch) {
            return false;
        }
        let record = match cells.patches.lookup(&patch) {
            None => {
                return false;
            },
            Some(record) => record,
        };
        if !record.is_resolved() {
            return false;
        }
        let files = record.versioned_files.0.cells();
        let ghost start = self@;
        let ghost step = versioned_file_walk();
        let mut i: usize = 0;
        while i < files.len()
            invariant
                i <= files@.len(),
                self.wf(),
                step == versioned_file_walk(),
                walk(start, files@, i as nat, step) == Some(self@),
            decreases files@.len() - i,
        {
            if !self.versioned_files.push_new(files[i]) {
                proof {
                    lemma_walk_fails(start, files@, (i + 1) as nat, files@.len(), step);
                }
                return false;
            }
            i = i + 1;
        }
        let group = *record.group.cell();
        if !self.push_group(cells, group) {
            return false;
        }
        let held: usize = match cells.groups.lookup(&group) {
            None => {
                return false;
            },
            Some(group) => match &group.files {
                GroupFileReference::Info(set) => {
                    if !set.0.is_resolved() {
                        return false;
                    }
                    set.0.len()
                },
                _ => {
                    return false;
                },
            },
        };
        let infos = record.infos.0.cells();
        if held >= infos.len() {
            assert(infos_beyond(infos@, held as nat) =~= Seq::<TableCell>::empty());
            true
        } else {
            let beyond = vstd::slice::slice_subrange(infos, held, infos.len());
            self.push_infos(cells, beyond, true, true)
        }
    }
}


/// What a [`PackagedWriter`] holds.
pub struct WriterModel {
    pub version: Version,
    pub package_lookup: Map<u64, TableCell>,
    pub file_lookup: Seq<Map<u64, TableCell>>,
    pub tables: PackagedTables,
    pub cells: PackagedCellsView,
    pub last_patch_files_start: usize,
    pub info_group_info_start: usize,
}

/// The rebuilt tables of a packaged filesystem, ready to be serialized.
pub struct PackagedWriter {
    pub version: Version,
    pub package_lookup: BTreeMap<u64, TableCell>,
    pub file_lookup: BucketMap<TableCell>,
    pub tables: PackagedMakers,
    pub cells: PackagedCells,
    pub last_patch_files_start: usize,
    pub info_group_info_start: usize,
}

impl View for PackagedWriter {
    type V = WriterModel;

    open spec fn view(&self) -> WriterModel {
        WriterModel {
            version: self.version,
            package_lookup: self.package_lookup@,
            file_lookup: self.file_lookup@,
            tables: self.tables@,
            cells: self.cells@,
            last_patch_files_start: self.last_patch_files_start,
            info_group_info_start: self.info_group_info_start,
        }
    }
}

/// Where a round over the groups fails after some groups, it fails after
/// more groups too.
pub proof fn lemma_with_info_groups_fails(
    t: PackagedTables,
    c: PackagedCellsView,
    groups: Seq<TableCell>,
    short: nat,
    long: nat,
)
    requires
        short <= long,
        with_info_groups(t, c, groups, short) is None,
    ensures
        with_info_groups(t, c, groups, long) is None,
    decreases long,
{
    if short < long {
        lemma_with_info_groups_fails(t, c, groups, short, (long - 1) as nat);
    }
}

impl PackagedWriter {
    /// The collectors are well-formed.
    pub open spec fn wf(&self) -> bool {
        self.tables.wf()
    }

    /// Walks over the engine and rebuilds its tables in their canonical
    /// order. Fails where a cell would enter a table twice, a handle has no
    /// record, or a reference that the walk follows is not resolved.
    #[verifier::loop_isolation(false)]
    pub fn from_engine(engine: PackagedEngine) -> (result: Result<Self, ArchiveError>)
        ensures
            match result {
                Ok(writer) => writer.wf() && reorganized(engine@.tables, engine@.cells) == Some(
                    Reorganized {
                        tables: writer@.tables,
                        info_group_info_start: writer@.info_group_info_start,
                        last_patch_files_start: writer@.last_patch_files_start,
                    },
                ) && writer@.cells == engine@.cells && writer@.version == engine@.version
                    && writer@.package_lookup == engine@.package_lookup && writer@.file_lookup
                    == engine@.file_lookup,
                Err(error) => error == ArchiveError::Invariant && reorganized(
                    engine@.tables,
                    engine@.cells,
                ) is None,
            },
    {
        let PackagedEngine {
            version,
            package_lookup,
            file_lookup,
            packages,
            groups,
            patches,
            cells,
            child_packages: _,
            paths: _,
            links: _,
            infos: _,
            descriptors: _,
            metadatas: _,
            versioned_files: _,
        } = engine;
        let mut makers = PackagedMakers::new();
        let ghost c = cells@;
        let ghost step = package_walk(c);
        let mut i: usize = 0;
        while i < packages.len()
            invariant
                i <= packages@.len(),
                makers.wf(),
                walk(empty_tables(), packages@, i as nat, step) == Some(makers@),
            decreases packages@.len() - i,
        {
            if !makers.push_package(&cells, packages[i]) {
                proof {
                    lemma_walk_fails(
                        empty_tables(),
                        packages@,
                        (i + 1) as nat,
                        packages@.len(),
                        step,
                    );
                }
                return Err(ArchiveError::Invariant);
            }
            i = i + 1;
        }
        let ghost after_packages = makers@;
        let mut info_group_info_start: usize = 0;
        let mut i: usize = 0;
        while i < groups.len()
            invariant
                i <= groups@.len(),
                makers.wf(),
                with_info_groups(after_packages, c, groups@, i as nat) == Some(
                    (makers@, info_group_info_start),
                ),
            decreases groups@.len() - i,
        {
            let cell = groups[i];
            let mut done = false;
            match cells.groups.lookup(&cell) {
                None => {},
                Some(group) => {
                    if group.is_info_group() && !group.is_version_group() {
                        if makers.push_group(&cells, cell) {
                            if info_group_info_start != 0 {
                                done = true;
                            } else {
                                let infos = group.infos();
                                if infos.0.is_resolved() && infos.0.len() > 0 {
                                    let first = infos.0.get(0);
                                    if makers.infos.has_cell(&first) {
                                        info_group_info_start =
                                        makers.infos.get_index(&first) as usize;
                                        done = true;
                                    }
                                }
                            }
                        }
                    } else {
                        done = true;
                    }
                },
            }
            if !done {
                proof {
                    lemma_with_info_groups_fails(
                        after_packages,
                        c,
                        groups@,
                        (i + 1) as nat,
                        groups@.len(),
                    );
                }
                return Err(ArchiveError::Invariant);
            }
            i = i + 1;
        }
        let ghost after_groups = makers@;
        let ghost step = patch_walk(c);
        let mut i: usize = 0;
        while i < patches.len()
            invariant
                i <= patches@.len(),
                makers.wf(),
                walk(after_groups, patches@, i as nat, step) == Some(makers@),
            decreases patches@.len() - i,
        {
            if !makers.push_patch(&cells, patches[i]) {
                proof {
                    lemma_walk_fails(after_groups, patches@, (i + 1) as nat, patches@.len(), step);
                }
                return Err(ArchiveError::Invariant);
            }
            i = i + 1;
        }
        let mut last_patch_files_start: usize = 0;
        if patches.len() > 0 {
            let last = patches[patches.len() - 1];
            let mut found = false;
            match cells.patches.lookup(&last) {
                None => {},
                Some(patch) => {
                    if patch.versioned_files.0.is_resolved() && patch.versioned_files.0.len() > 0 {
                        let first = patch.versioned_files.0.get(0);
                        if makers.versioned_files.has_cell(&first) {
                            last_patch_files_start =
                            makers.versioned_files.get_index(&first) as usize;
                            found = true;
                        }
                    }
                },
            }
            if !found {
                return Err(ArchiveError::Invariant);
            }
        }
        Ok(
            PackagedWriter {
                version,
                package_lookup,
                file_lookup,
                tables: makers,
                cells,
                last_patch_files_start,
                info_group_info_start,
            },
        )
    }
}

impl PackagedEngine {
    /// Rebuilds the tables of the engine in their canonical order. The
    /// records and the lookups stay as they are; a cell that the walk does
    /// not reach leaves its table.
    pub fn reorganize(self) -> (result: Result<Self, ArchiveError>)
        ensures
            match result {
                Ok(engine) => reorganized(self@.tables, self@.cells) matches Some(rebuilt)
                    && engine@ == (crate::engines::packaged::PackagedModel {
                    tables: rebuilt.tables,
                    ..self@
                }),
                Err(error) => error == ArchiveError::Invariant && reorganized(
                    self@.tables,
                    self@.cells,
                ) is None,
            },
    {
        match PackagedWriter::from_engine(self) {
            Err(error) => Err(error),
            Ok(writer) => {
                let PackagedWriter {
                    version,
                    package_lookup,
                    file_lookup,
                    tables,
                    cells,
                    last_patch_files_start: _,
                    info_group_info_start: _,
                } = writer;
                Ok(
                    PackagedEngine {
                        version,
                        package_lookup,
                        file_lookup,
                        packages: tables.packages.into_inner(),
                        child_packages: tables.child_packages.into_inner(),
                        groups: tables.groups.into_inner(),
                        paths: tables.paths.into_inner(),
                        links: tables.links.into_inner(),
                        infos: tables.infos.into_inner(),
                        descriptors: tables.descriptors.into_inner(),
                        metadatas: tables.metadatas.into_inner(),
                        patches: tables.patches.into_inner(),
                        versioned_files: tables.versioned_files.into_inner(),
                        cells,
                    },
                )
            },
        }
    }
}

} // verus!
