//! Serializing the rebuilt tables of the packaged filesystem.
use vstd::prelude::*;
use std::collections::BTreeMap;

use crate::bytes::{le32, le64, push_bytes, push_record, push_u32, push_u64, record_bytes};
use crate::engines::packaged::bucket_map::{
    bucket_entries, bucket_insert, ordered, ordered_entries, BucketMap,
};
use crate::engines::packaged::encode::{find_first, find_reference, reference_index, set_first};
use crate::engines::rounds::{find_index, index_in};
use crate::engines::packaged::types::{
    ChildPackage, Descriptor, DescriptorMetadataReference, Group, GroupFileReference,
    GroupFilesView, GroupView, Info, InfoView, Link, Metadata, Package, PackageView, Patch,
    PatchView, Path, VersionedFile,
};
use crate::engines::packaged::writer::{PackagedMakers, PackagedWriter, WriterModel};
use crate::engines::packaged::{PackagedCells, PackagedCellsView, PackagedTables};
use crate::engines::rounds::{
    join, key_bytes, lemma_table_bytes_fails, table_bytes, write_keys,
};
use crate::engines::table::{CellStore, ReferenceSetView, TableCell, TableReferenceSet};
use crate::engines::{views, Hash40, HashKey};
use crate::ArchiveError;

verus! {

/// By how much the info index of a package skip is moved when the
/// descriptor at `index` is written: the descriptors before `boundary`
/// count from `offset`.
pub open spec fn write_offset_at(index: int, boundary: usize, offset: usize) -> usize {
    if index >= boundary {
        0
    } else {
        offset
    }
}

/// How one package is written.
pub open spec fn package_encoder(t: PackagedTables) -> spec_fn(PackageView, int) -> Option<Seq<u8>> {
    |record: PackageView, index: int| record.encoded(t)
}

/// Appends the bytes of every package of `table`. Returns false at
/// the first that has no bytes.
pub fn write_packages(
    out: &mut Vec<u8>,
    store: &CellStore<Package>,
    table: &[TableCell],
    makers: &PackagedMakers,
) -> (done: bool)
    requires
        makers.wf(),
    ensures
        done == table_bytes(views(store@), table@, table@.len(), package_encoder(makers@)).is_some(),
        done ==> final(out)@ == old(out)@ + table_bytes(
            views(store@),
            table@,
            table@.len(),
            package_encoder(makers@),
        ).unwrap(),
{
    let ghost encode = package_encoder(makers@);
    let ghost records = views(store@);
    let mut i: usize = 0;
    while i < table.len()
        invariant
            i <= table@.len(),
            makers.wf(),
            encode == package_encoder(makers@),
            records == views(store@),
            table_bytes(records, table@, i as nat, encode) is Some,
            out@ == old(out)@ + table_bytes(records, table@, i as nat, encode).unwrap(),
        decreases table@.len() - i,
    {
        let ghost head = table_bytes(records, table@, i as nat, encode).unwrap();
        let ghost before = out@;
        let mut done = false;
        match store.lookup(&table[i]) {
            None => {},
            Some(record) => {
                done = record.write(out, makers);
            },
        }
        if !done {
            proof {
                lemma_table_bytes_fails(records, table@, (i + 1) as nat, table@.len(), encode);
            }
            return false;
        }
        proof {
            let bytes = table_bytes(records, table@, (i + 1) as nat, encode).unwrap();
            assert(out@ =~= old(out)@ + bytes);
        }
        i = i + 1;
    }
    true
}

/// How one child-package is written.
pub open spec fn child_package_encoder(t: PackagedTables) -> spec_fn(ChildPackage, int) -> Option<Seq<u8>> {
    |record: ChildPackage, index: int| record.encoded(t)
}

/// Appends the bytes of every child-package of `table`. Returns false at
/// the first that has no bytes.
pub fn write_child_packages(
    out: &mut Vec<u8>,
    store: &CellStore<ChildPackage>,
    table: &[TableCell],
    makers: &PackagedMakers,
) -> (done: bool)
    requires
        makers.wf(),
    ensures
        done == table_bytes(views(store@), table@, table@.len(), child_package_encoder(makers@)).is_some(),
        done ==> final(out)@ == old(out)@ + table_bytes(
            views(store@),
            table@,
            table@.len(),
            child_package_encoder(makers@),
        ).unwrap(),
{
    let ghost encode = child_package_encoder(makers@);
    let ghost records = views(store@);
    let mut i: usize = 0;
    while i < table.len()
        invariant
            i <= table@.len(),
            makers.wf(),
            encode == child_package_encoder(makers@),
            records == views(store@),
            table_bytes(records, table@, i as nat, encode) is Some,
            out@ == old(out)@ + table_bytes(records, table@, i as nat, encode).unwrap(),
        decreases table@.len() - i,
    {
        let ghost head = table_bytes(records, table@, i as nat, encode).unwrap();
        let ghost before = out@;
        let mut done = false;
        match store.lookup(&table[i]) {
            None => {},
            Some(record) => {
                done = record.write(out, makers);
            },
        }
        if !done {
            proof {
                lemma_table_bytes_fails(records, table@, (i + 1) as nat, table@.len(), encode);
            }
            return false;
        }
        proof {
            let bytes = table_bytes(records, table@, (i + 1) as nat, encode).unwrap();
            assert(out@ =~= old(out)@ + bytes);
        }
        i = i + 1;
    }
    true
}

/// How one group is written.
pub open spec fn group_encoder(t: PackagedTables) -> spec_fn(GroupView, int) -> Option<Seq<u8>> {
    |record: GroupView, index: int| record.encoded(t)
}

/// Appends the bytes of every group of `table`. Returns false at
/// the first that has no bytes.
pub fn write_groups(
    out: &mut Vec<u8>,
    store: &CellStore<Group>,
    table: &[TableCell],
    makers: &PackagedMakers,
) -> (done: bool)
    requires
        makers.wf(),
    ensures
        done == table_bytes(views(store@), table@, table@.len(), group_encoder(makers@)).is_some(),
        done ==> final(out)@ == old(out)@ + table_bytes(
            views(store@),
            table@,
            table@.len(),
            group_encoder(makers@),
        ).unwrap(),
{
    let ghost encode = group_encoder(makers@);
    let ghost records = views(store@);
    let mut i: usize = 0;
    while i < table.len()
        invariant
            i <= table@.len(),
            makers.wf(),
            encode == group_encoder(makers@),
            records == views(store@),
            table_bytes(records, table@, i as nat, encode) is Some,
            out@ == old(out)@ + table_bytes(records, table@, i as nat, encode).unwrap(),
        decreases table@.len() - i,
    {
        let ghost head = table_bytes(records, table@, i as nat, encode).unwrap();
        let ghost before = out@;
        let mut done = false;
        match store.lookup(&table[i]) {
            None => {},
            Some(record) => {
                done = record.write(out, makers);
            },
        }
        if !done {
            proof {
                lemma_table_bytes_fails(records, table@, (i + 1) as nat, table@.len(), encode);
            }
            return false;
        }
        proof {
            let bytes = table_bytes(records, table@, (i + 1) as nat, encode).unwrap();
            assert(out@ =~= old(out)@ + bytes);
        }
        i = i + 1;
    }
    true
}

/// How one path is written.
pub open spec fn path_encoder(t: PackagedTables, last_patch_files_start: usize) -> spec_fn(Path, int) -> Option<Seq<u8>> {
    |record: Path, index: int| record.encoded(t, last_patch_files_start)
}

/// Appends the bytes of every path of `table`. Returns false at
/// the first that has no bytes.
pub fn write_paths(
    out: &mut Vec<u8>,
    store: &CellStore<Path>,
    table: &[TableCell],
    makers: &PackagedMakers,
    last_patch_files_start: usize,
) -> (done: bool)
    requires
        makers.wf(),
    ensures
        done == table_bytes(views(store@), table@, table@.len(), path_encoder(makers@, last_patch_files_start)).is_some(),
        done ==> final(out)@ == old(out)@ + table_bytes(
            views(store@),
            table@,
            table@.len(),
            path_encoder(makers@, last_patch_files_start),
        ).unwrap(),
{
    let ghost encode = path_encoder(makers@, last_patch_files_start);
    let ghost records = views(store@);
    let mut i: usize = 0;
    while i < table.len()
        invariant
            i <= table@.len(),
            makers.wf(),
            encode == path_encoder(makers@, last_patch_files_start),
            records == views(store@),
            table_bytes(records, table@, i as nat, encode) is Some,
            out@ == old(out)@ + table_bytes(records, table@, i as nat, encode).unwrap(),
        decreases table@.len() - i,
    {
        let ghost head = table_bytes(records, table@, i as nat, encode).unwrap();
        let ghost before = out@;
        let mut done = false;
        match store.lookup(&table[i]) {
            None => {},
            Some(record) => {
                done = record.write(out, makers, last_patch_files_start);
            },
        }
        if !done {
            proof {
                lemma_table_bytes_fails(records, table@, (i + 1) as nat, table@.len(), encode);
            }
            return false;
        }
        proof {
            let bytes = table_bytes(records, table@, (i + 1) as nat, encode).unwrap();
            assert(out@ =~= old(out)@ + bytes);
        }
        i = i + 1;
    }
    true
}

/// How one link is written.
pub open spec fn link_encoder(t: PackagedTables) -> spec_fn(Link, int) -> Option<Seq<u8>> {
    |record: Link, index: int| record.encoded(t)
}

/// Appends the bytes of every link of `table`. Returns false at
/// the first that has no bytes.
pub fn write_links(
    out: &mut Vec<u8>,
    store: &CellStore<Link>,
    table: &[TableCell],
    makers: &PackagedMakers,
) -> (done: bool)
    requires
        makers.wf(),
    ensures
        done == table_bytes(views(store@), table@, table@.len(), link_encoder(makers@)).is_some(),
        done ==> final(out)@ == old(out)@ + table_bytes(
            views(store@),
            table@,
            table@.len(),
            link_encoder(makers@),
        ).unwrap(),
{
    let ghost encode = link_encoder(makers@);
    let ghost records = views(store@);
    let mut i: usize = 0;
    while i < table.len()
        invariant
            i <= table@.len(),
            makers.wf(),
            encode == link_encoder(makers@),
            records == views(store@),
            table_bytes(records, table@, i as nat, encode) is Some,
            out@ == old(out)@ + table_bytes(records, table@, i as nat, encode).unwrap(),
        decreases table@.len() - i,
    {
        let ghost head = table_bytes(records, table@, i as nat, encode).unwrap();
        let ghost before = out@;
        let mut done = false;
        match store.lookup(&table[i]) {
            None => {},
            Some(record) => {
                done = record.write(out, makers);
            },
        }
        if !done {
            proof {
                lemma_table_bytes_fails(records, table@, (i + 1) as nat, table@.len(), encode);
            }
            return false;
        }
        proof {
            let bytes = table_bytes(records, table@, (i + 1) as nat, encode).unwrap();
            assert(out@ =~= old(out)@ + bytes);
        }
        i = i + 1;
    }
    true
}

/// How one info is written.
pub open spec fn info_encoder(t: PackagedTables) -> spec_fn(InfoView, int) -> Option<Seq<u8>> {
    |record: InfoView, index: int| record.encoded(t)
}

/// Appends the bytes of every info of `table`. Returns false at
/// the first that has no bytes.
pub fn write_infos(
    out: &mut Vec<u8>,
    store: &CellStore<Info>,
    table: &[TableCell],
    makers: &PackagedMakers,
) -> (done: bool)
    requires
        makers.wf(),
    ensures
        done == table_bytes(views(store@), table@, table@.len(), info_encoder(makers@)).is_some(),
        done ==> final(out)@ == old(out)@ + table_bytes(
            views(store@),
            table@,
            table@.len(),
            info_encoder(makers@),
        ).unwrap(),
{
    let ghost encode = info_encoder(makers@);
    let ghost records = views(store@);
    let mut i: usize = 0;
    while i < table.len()
        invariant
            i <= table@.len(),
            makers.wf(),
            encode == info_encoder(makers@),
            records == views(store@),
            table_bytes(records, table@, i as nat, encode) is Some,
            out@ == old(out)@ + table_bytes(records, table@, i as nat, encode).unwrap(),
        decreases table@.len() - i,
    {
        let ghost head = table_bytes(records, table@, i as nat, encode).unwrap();
        let ghost before = out@;
        let mut done = false;
        match store.lookup(&table[i]) {
            None => {},
            Some(record) => {
                done = record.write(out, makers);
            },
        }
        if !done {
            proof {
                lemma_table_bytes_fails(records, table@, (i + 1) as nat, table@.len(), encode);
            }
            return false;
        }
        proof {
            let bytes = table_bytes(records, table@, (i + 1) as nat, encode).unwrap();
            assert(out@ =~= old(out)@ + bytes);
        }
        i = i + 1;
    }
    true
}

/// How one descriptor is written.
pub open spec fn descriptor_encoder(t: PackagedTables, boundary: usize, offset: usize) -> spec_fn(Descriptor, int) -> Option<Seq<u8>> {
    |record: Descriptor, index: int| record.encoded(t, write_offset_at(index, boundary, offset))
}

/// Appends the bytes of every descriptor of `table`. Returns false at
/// the first that has no bytes.
pub fn write_descriptors(
    out: &mut Vec<u8>,
    store: &CellStore<Descriptor>,
    table: &[TableCell],
    makers: &PackagedMakers,
    boundary: usize,
    offset: usize,
) -> (done: bool)
    requires
        makers.wf(),
    ensures
        done == table_bytes(views(store@), table@, table@.len(), descriptor_encoder(makers@, boundary, offset)).is_some(),
        done ==> final(out)@ == old(out)@ + table_bytes(
            views(store@),
            table@,
            table@.len(),
            descriptor_encoder(makers@, boundary, offset),
        ).unwrap(),
{
    let ghost encode = descriptor_encoder(makers@, boundary, offset);
    let ghost records = views(store@);
    let mut i: usize = 0;
    while i < table.len()
        invariant
            i <= table@.len(),
            makers.wf(),
            encode == descriptor_encoder(makers@, boundary, offset),
            records == views(store@),
            table_bytes(records, table@, i as nat, encode) is Some,
            out@ == old(out)@ + table_bytes(records, table@, i as nat, encode).unwrap(),
        decreases table@.len() - i,
    {
        let ghost head = table_bytes(records, table@, i as nat, encode).unwrap();
        let ghost before = out@;
        let mut done = false;
        match store.lookup(&table[i]) {
            None => {},
            Some(record) => {
                done = record.write(out, makers, if i >= boundary { 0 } else { offset });
            },
        }
        if !done {
            proof {
                lemma_table_bytes_fails(records, table@, (i + 1) as nat, table@.len(), encode);
            }
            return false;
        }
        proof {
            let bytes = table_bytes(records, table@, (i + 1) as nat, encode).unwrap();
            assert(out@ =~= old(out)@ + bytes);
        }
        i = i + 1;
    }
    true
}

/// The bytes of a table of metadatas.
pub open spec fn metadata_encoder() -> spec_fn(Metadata, int) -> Option<Seq<u8>> {
    |record: Metadata, index: int| Some(record.encoded())
}

/// Appends the bytes of every metadata of `table`. Returns false at the
/// first cell that has no record.
pub fn write_metadatas(out: &mut Vec<u8>, store: &CellStore<Metadata>, table: &[TableCell]) -> (done:
    bool)
    ensures
        done == table_bytes(views(store@), table@, table@.len(), metadata_encoder()).is_some(),
        done ==> final(out)@ == old(out)@ + table_bytes(
            views(store@),
            table@,
            table@.len(),
            metadata_encoder(),
        ).unwrap(),
{
    let ghost encode = metadata_encoder();
    let ghost records = views(store@);
    let mut i: usize = 0;
    while i < table.len()
        invariant
            i <= table@.len(),
            encode == metadata_encoder(),
            records == views(store@),
            table_bytes(records, table@, i as nat, encode) is Some,
            out@ == old(out)@ + table_bytes(records, table@, i as nat, encode).unwrap(),
        decreases table@.len() - i,
    {
        match store.lookup(&table[i]) {
            None => {
                proof {
                    lemma_table_bytes_fails(records, table@, (i + 1) as nat, table@.len(), encode);
                }
                return false;
            },
            Some(record) => {
                record.write(out);
            },
        }
        proof {
            let bytes = table_bytes(records, table@, (i + 1) as nat, encode).unwrap();
            assert(out@ =~= old(out)@ + bytes);
        }
        i = i + 1;
    }
    true
}

/// The index of a bucketed lookup: for each of the first `upto` buckets, the
/// number of pairs before the bucket and then, with `with_end`, the number of
/// pairs up to its end, else the number of pairs in it. Each number is cut
/// to 32 bits.
pub open spec fn bucket_index_bytes<V>(buckets: Seq<Map<u64, V>>, upto: nat, with_end: bool)
    -> Seq<u8>
    decreases upto,
{
    if upto == 0 {
        Seq::empty()
    } else {
        bucket_index_bytes(buckets, (upto - 1) as nat, with_end) + le32(
            bucket_entries(buckets, (upto - 1) as nat).len() as u32,
        ) + le32(
            if with_end {
                bucket_entries(buckets, upto).len() as u32
            } else {
                ordered(buckets[upto - 1]).len() as u32
            },
        )
    }
}

/// Collects the pairs of a bucketed lookup, bucket after bucket, and the
/// bytes of its index.
pub fn bucket_index<V: Copy>(lookup: &BucketMap<V>, with_end: bool) -> (result: (
    Vec<(u64, V)>,
    Vec<u8>,
))
    ensures
        result.0@ == bucket_entries(lookup@, lookup@.len()),
        result.1@ == bucket_index_bytes(lookup@, lookup@.len(), with_end),
{
    let buckets = lookup.buckets();
    let mut entries: Vec<(u64, V)> = Vec::new();
    let mut index: Vec<u8> = Vec::new();
    let mut i: usize = 0;
    while i < buckets.len()
        invariant
            i <= buckets@.len(),
            buckets@.map_values(|bucket: BTreeMap<u64, V>| bucket@) == lookup@,
            entries@ == bucket_entries(lookup@, i as nat),
            index@ == bucket_index_bytes(lookup@, i as nat, with_end),
        decreases buckets@.len() - i,
    {
        let mut bucket = ordered_entries(&buckets[i]);
        let start: usize = entries.len();
        let count: usize = bucket.len();
        entries.append(&mut bucket);
        let end: usize = entries.len();
        push_u32(&mut index, #[verifier::truncate] (start as u32));
        if with_end {
            push_u32(&mut index, #[verifier::truncate] (end as u32));
        } else {
            push_u32(&mut index, #[verifier::truncate] (count as u32));
        }
        i = i + 1;
    }
    (entries, index)
}


/// How many descriptors the first `upto` infos of `infos` have together.
/// There is no number where an info has no record, its descriptors are not
/// resolved, or the number does not fit 32 bits.
pub open spec fn descriptor_total(c: PackagedCellsView, infos: Seq<TableCell>, upto: nat) -> Option<
    u32,
>
    decreases upto,
{
    if upto == 0 {
        Some(0u32)
    } else {
        match descriptor_total(c, infos, (upto - 1) as nat) {
            None => None,
            Some(total) => {
                let cell = infos[upto - 1];
                if cell.slot >= c.infos.len() {
                    None
                } else {
                    match c.infos[cell.slot as int].descriptors {
                        ReferenceSetView::Resolved(descriptors) => if total + descriptors.len()
                            <= u32::MAX {
                            Some((total + descriptors.len()) as u32)
                        } else {
                            None
                        },
                        ReferenceSetView::Unresolved(_) => None,
                    }
                }
            },
        }
    }
}

/// A total that is missing after some infos is missing after more.
pub proof fn lemma_descriptor_total_fails(
    c: PackagedCellsView,
    infos: Seq<TableCell>,
    short: nat,
    long: nat,
)
    requires
        short <= long,
        descriptor_total(c, infos, short) is None,
    ensures
        descriptor_total(c, infos, long) is None,
    decreases long,
{
    if short < long {
        lemma_descriptor_total_fails(c, infos, short, (long - 1) as nat);
    }
}

/// Computes [`descriptor_total`] over all of `infos`.
pub fn count_descriptors(cells: &PackagedCells, infos: &[TableCell]) -> (total: Option<u32>)
    ensures
        total == descriptor_total(cells@, infos@, infos@.len()),
{
    let mut total: u32 = 0;
    let mut i: usize = 0;
    while i < infos.len()
        invariant
            i <= infos@.len(),
            descriptor_total(cells@, infos@, i as nat) == Some(total),
        decreases infos@.len() - i,
    {
        let mut next: Option<u32> = None;
        match cells.infos.lookup(&infos[i]) {
            None => {},
            Some(info) => {
                if info.descriptors.0.is_resolved() {
                    let count: usize = info.descriptors.0.len();
                    if count <= u32::MAX as usize && count as u32 <= u32::MAX - total {
                        next = Some(total + count as u32);
                    }
                }
            },
        }
        match next {
            None => {
                proof {
                    lemma_descriptor_total_fails(cells@, infos@, (i + 1) as nat, infos@.len());
                }
                return None;
            },
            Some(next) => {
                total = next;
            },
        }
        i = i + 1;
    }
    Some(total)
}

/// How many infos the group of a patch holds.
pub open spec fn held_infos(c: PackagedCellsView, group: TableCell) -> Option<nat> {
    if group.slot >= c.groups.len() {
        None
    } else {
        match c.groups[group.slot as int].files {
            GroupFilesView::Info(ReferenceSetView::Resolved(infos)) => Some(infos.len()),
            _ => None,
        }
    }
}

/// The seven words that follow the version in the header of a patch.
pub struct PatchWords {
    pub file_count: u32,
    pub group: u32,
    pub file_start: u32,
    pub lookup_size: u32,
    pub info_count: u32,
    pub descriptor_count: u32,
    pub changed_count: u32,
}

impl PatchView {
    /// The words of the header of the patch with ordinal `patch_id`: the
    /// number of its files, the index of its group counted from the ordinal,
    /// the index of its first file, the size of its lookup in bytes, the
    /// number of its infos, the number of their descriptors and the number of
    /// infos that its group holds. A patch without a file has no header.
    pub open spec fn header_words(
        self,
        t: PackagedTables,
        c: PackagedCellsView,
        patch_id: usize,
    ) -> Option<PatchWords> {
        match (self.versioned_files, self.infos, self.group) {
            (
                ReferenceSetView::Resolved(files),
                ReferenceSetView::Resolved(infos),
                crate::engines::table::TableReference::Resolved(group),
            ) => match (
                index_in(t.groups, group),
                set_first(t.versioned_files, self.versioned_files),
                descriptor_total(c, infos, infos.len()),
                held_infos(c, group),
            ) {
                (Some(group_index), Some(file_start), Some(descriptor_count), Some(held)) => {
                    if group_index >= patch_id && files.len() <= 0x0FFF_FFFF {
                        Some(
                            PatchWords {
                                file_count: files.len() as u32,
                                group: (group_index - patch_id) as u32,
                                file_start,
                                lookup_size: (8 * (files.len() + 0x401)) as u32,
                                info_count: infos.len() as u32,
                                descriptor_count,
                                changed_count: held as u32,
                            },
                        )
                    } else {
                        None
                    }
                },
                _ => None,
            },
            _ => None,
        }
    }

    /// The 0x20 bytes of the header of the patch.
    pub open spec fn header(self, t: PackagedTables, c: PackagedCellsView, patch_id: usize)
        -> Option<Seq<u8>> {
        match self.header_words(t, c, patch_id) {
            None => None,
            Some(words) => Some(
                self.version.encoded() + record_bytes(
                    seq![],
                    seq![
                        words.file_count,
                        words.group,
                        words.file_start,
                        words.lookup_size,
                        words.info_count,
                        words.descriptor_count,
                        words.changed_count,
                    ],
                ),
            ),
        }
    }
}

impl Patch {
    /// Computes the words of the header.
    pub fn compute_header_words(&self, makers: &PackagedMakers, cells: &PackagedCells, patch_id: usize)
        -> (words: Option<PatchWords>)
        requires
            makers.wf(),
        ensures
            words == self@.header_words(makers@, cells@, patch_id),
    {
        if !self.is_resolved() {
            return None;
        }
        let group = *self.group.cell();
        let group_index = match find_index(&makers.groups, &group) {
            None => {
                return None;
            },
            Some(index) => index,
        };
        let file_start = match find_first(&makers.versioned_files, &self.versioned_files) {
            None => {
                return None;
            },
            Some(index) => index,
        };
        let descriptor_count = match count_descriptors(cells, self.infos.0.cells()) {
            None => {
                return None;
            },
            Some(count) => count,
        };
        let held: usize = match cells.groups.lookup(&group) {
            None => {
                return None;
            },
            Some(record) => match &record.files {
                GroupFileReference::Info(set) => {
                    if !set.0.is_resolved() {
                        return None;
                    }
                    set.0.len()
                },
                _ => {
                    return None;
                },
            },
        };
        let files: usize = self.versioned_files.0.len();
        if group_index as usize >= patch_id && files <= 0x0FFF_FFFF {
            Some(
                PatchWords {
                    file_count: files as u32,
                    group: (group_index as usize - patch_id) as u32,
                    file_start,
                    lookup_size: (8 * (files + 0x401)) as u32,
                    info_count: #[verifier::truncate] (self.infos.0.len() as u32),
                    descriptor_count,
                    changed_count: #[verifier::truncate] (held as u32),
                },
            )
        } else {
            None
        }
    }

    /// Appends the header of the patch with ordinal `patch_id`. Writes
    /// nothing and returns false where the patch has no header.
    pub fn write_header(
        &self,
        out: &mut Vec<u8>,
        makers: &PackagedMakers,
        cells: &PackagedCells,
        patch_id: usize,
    ) -> (done: bool)
        requires
            makers.wf(),
        ensures
            done == self@.header(makers@, cells@, patch_id).is_some(),
            done ==> final(out)@ == old(out)@ + self@.header(makers@, cells@, patch_id).unwrap(),
            !done ==> final(out)@ == old(out)@,
    {
        match self.compute_header_words(makers, cells, patch_id) {
            None => false,
            Some(words) => {
                let mut header: Vec<u8> = Vec::new();
                self.version.write(&mut header);
                let quads: Vec<u64> = Vec::new();
                let list: Vec<u32> = vec![
                    words.file_count,
                    words.group,
                    words.file_start,
                    words.lookup_size,
                    words.info_count,
                    words.descriptor_count,
                    words.changed_count,
                ];
                assert(quads@ =~= seq![]);
                push_record(&mut header, quads.as_slice(), list.as_slice());
                assert(header@ =~= self@.header(makers@, cells@, patch_id).unwrap());
                push_bytes(out, header.as_slice());
                true
            },
        }
    }
}

/// How one versioned file of a patch is written.
pub open spec fn versioned_file_encoder(t: PackagedTables, group_index: u32) -> spec_fn(
    VersionedFile,
    int,
) -> Option<Seq<u8>> {
    |record: VersionedFile, index: int| record.encoded(t, group_index)
}

/// Appends the bytes of every versioned file of `table`. Returns false at
/// the first that has no bytes.
pub fn write_versioned_files(
    out: &mut Vec<u8>,
    store: &CellStore<VersionedFile>,
    table: &[TableCell],
    makers: &PackagedMakers,
    group_index: u32,
) -> (done: bool)
    requires
        makers.wf(),
    ensures
        done == table_bytes(
            views(store@),
            table@,
            table@.len(),
            versioned_file_encoder(makers@, group_index),
        ).is_some(),
        done ==> final(out)@ == old(out)@ + table_bytes(
            views(store@),
            table@,
            table@.len(),
            versioned_file_encoder(makers@, group_index),
        ).unwrap(),
{
    let ghost encode = versioned_file_encoder(makers@, group_index);
    let ghost records = views(store@);
    let mut i: usize = 0;
    while i < table.len()
        invariant
            i <= table@.len(),
            makers.wf(),
            encode == versioned_file_encoder(makers@, group_index),
            records == views(store@),
            table_bytes(records, table@, i as nat, encode) is Some,
            out@ == old(out)@ + table_bytes(records, table@, i as nat, encode).unwrap(),
        decreases table@.len() - i,
    {
        let mut done = false;
        match store.lookup(&table[i]) {
            None => {},
            Some(record) => {
                done = record.write(out, makers, group_index);
            },
        }
        if !done {
            proof {
                lemma_table_bytes_fails(records, table@, (i + 1) as nat, table@.len(), encode);
            }
            return false;
        }
        proof {
            let bytes = table_bytes(records, table@, (i + 1) as nat, encode).unwrap();
            assert(out@ =~= old(out)@ + bytes);
        }
        i = i + 1;
    }
    true
}

/// The number of buckets in the lookup of a patch.
pub const PATCH_BUCKETS: usize = 0x400;

/// The lookup of a patch over the first `upto` of its files: each path
/// hash leads to the ordinal of the file in the patch. There is no lookup
/// where a file has no record.
pub open spec fn patch_lookup(files: Seq<VersionedFile>, cells: Seq<TableCell>, upto: nat) -> Option<
    Seq<Map<u64, usize>>,
>
    decreases upto,
{
    if upto == 0 {
        Some(Seq::new(PATCH_BUCKETS as nat, |i: int| Map::<u64, usize>::empty()))
    } else {
        match patch_lookup(files, cells, (upto - 1) as nat) {
            None => None,
            Some(lookup) => {
                let cell = cells[upto - 1];
                if cell.slot >= files.len() {
                    None
                } else {
                    Some(bucket_insert(lookup, files[cell.slot as int].path.0, (upto - 1) as usize))
                }
            },
        }
    }
}

/// A lookup that is missing after some files is missing after more.
pub proof fn lemma_patch_lookup_fails(
    files: Seq<VersionedFile>,
    cells: Seq<TableCell>,
    short: nat,
    long: nat,
)
    requires
        short <= long,
        patch_lookup(files, cells, short) is None,
    ensures
        patch_lookup(files, cells, long) is None,
    decreases long,
{
    if short < long {
        lemma_patch_lookup_fails(files, cells, short, (long - 1) as nat);
    }
}

/// Builds the lookup of a patch.
pub fn build_patch_lookup(store: &CellStore<VersionedFile>, cells: &[TableCell]) -> (lookup: Option<
    BucketMap<usize>,
>)
    ensures
        match lookup {
            Some(lookup) => patch_lookup(views(store@), cells@, cells@.len()) == Some(lookup@),
            None => patch_lookup(views(store@), cells@, cells@.len()) is None,
        },
{
    let mut lookup: BucketMap<usize> = BucketMap::new(PATCH_BUCKETS);
    assert(lookup@ =~= Seq::new(PATCH_BUCKETS as nat, |i: int| Map::<u64, usize>::empty()));
    let mut i: usize = 0;
    while i < cells.len()
        invariant
            i <= cells@.len(),
            lookup.wf(),
            patch_lookup(views(store@), cells@, i as nat) == Some(lookup@),
        decreases cells@.len() - i,
    {
        match store.lookup(&cells[i]) {
            None => {
                proof {
                    lemma_patch_lookup_fails(views(store@), cells@, (i + 1) as nat, cells@.len());
                }
                return None;
            },
            Some(file) => {
                lookup.insert(file.path, i);
            },
        }
        i = i + 1;
    }
    Some(lookup)
}

/// The keys of the lookup of a patch: for each of the first `upto` pairs,
/// the hash packed with the ordinal of the file.
pub open spec fn ordinal_key_bytes(entries: Seq<(u64, usize)>, upto: nat) -> Seq<u8>
    decreases upto,
{
    if upto == 0 {
        Seq::empty()
    } else {
        ordinal_key_bytes(entries, (upto - 1) as nat) + le64(
            HashKey::pack(Hash40(entries[upto - 1].0), entries[upto - 1].1).0,
        )
    }
}

/// Appends the keys of the lookup of a patch.
pub fn write_ordinal_keys(out: &mut Vec<u8>, entries: &[(u64, usize)])
    ensures
        final(out)@ == old(out)@ + ordinal_key_bytes(entries@, entries@.len()),
{
    let mut i: usize = 0;
    while i < entries.len()
        invariant
            i <= entries@.len(),
            out@ == old(out)@ + ordinal_key_bytes(entries@, i as nat),
        decreases entries@.len() - i,
    {
        let pair = entries[i];
        push_u64(out, HashKey::new(Hash40(pair.0), pair.1).0);
        assert(out@ =~= old(out)@ + ordinal_key_bytes(entries@, (i + 1) as nat));
        i = i + 1;
    }
}

/// The bytes of a lookup of a patch: the number of buckets, the number of
/// pairs, for each bucket where it starts and where it ends, and the keys.
pub open spec fn patch_lookup_bytes(lookup: Seq<Map<u64, usize>>) -> Seq<u8> {
    let entries = bucket_entries(lookup, lookup.len());
    le32(lookup.len() as u32) + le32(entries.len() as u32) + bucket_index_bytes(
        lookup,
        lookup.len(),
        true,
    ) + ordinal_key_bytes(entries, entries.len())
}

impl PatchView {
    /// The body of the patch: its versioned files, each with the index of
    /// the group of the patch, and then the lookup from their path hashes to
    /// their ordinals.
    pub open spec fn body(self, t: PackagedTables, c: PackagedCellsView) -> Option<Seq<u8>> {
        match (self.versioned_files, reference_index(t.groups, self.group)) {
            (ReferenceSetView::Resolved(files), Some(group_index)) => match (
                table_bytes(
                    c.versioned_files,
                    files,
                    files.len(),
                    versioned_file_encoder(t, group_index),
                ),
                patch_lookup(c.versioned_files, files, files.len()),
            ) {
                (Some(records), Some(lookup)) => Some(records + patch_lookup_bytes(lookup)),
                _ => None,
            },
            _ => None,
        }
    }
}

impl Patch {
    /// Appends the body of the patch. Returns false where the patch has no
    /// body.
    pub fn write_body(&self, out: &mut Vec<u8>, makers: &PackagedMakers, cells: &PackagedCells) -> (done:
        bool)
        requires
            makers.wf(),
        ensures
            done == self@.body(makers@, cells@).is_some(),
            done ==> final(out)@ == old(out)@ + self@.body(makers@, cells@).unwrap(),
    {
        if !self.versioned_files.0.is_resolved() {
            return false;
        }
        let group_index = match find_reference(&makers.groups, &self.group) {
            None => {
                return false;
            },
            Some(index) => index,
        };
        let files = self.versioned_files.0.cells();
        let mut body: Vec<u8> = Vec::new();
        if !write_versioned_files(&mut body, &cells.versioned_files, files, makers, group_index) {
            return false;
        }
        let lookup = match build_patch_lookup(&cells.versioned_files, files) {
            None => {
                return false;
            },
            Some(lookup) => lookup,
        };
        let (entries, index) = bucket_index(&lookup, true);
        push_u32(&mut body, #[verifier::truncate] (lookup.bucket_count() as u32));
        push_u32(&mut body, #[verifier::truncate] (entries.len() as u32));
        push_bytes(&mut body, index.as_slice());
        write_ordinal_keys(&mut body, entries.as_slice());
        assert(body@ =~= self@.body(makers@, cells@).unwrap());
        push_bytes(out, body.as_slice());
        true
    }
}

/// How the header of one patch is written.
pub open spec fn patch_header_encoder(t: PackagedTables, c: PackagedCellsView) -> spec_fn(
    PatchView,
    int,
) -> Option<Seq<u8>> {
    |record: PatchView, index: int| record.header(t, c, index as usize)
}

/// How the body of one patch is written.
pub open spec fn patch_body_encoder(t: PackagedTables, c: PackagedCellsView) -> spec_fn(
    PatchView,
    int,
) -> Option<Seq<u8>> {
    |record: PatchView, index: int| record.body(t, c)
}

/// Appends the header of every patch of `table`, or with `bodies` the body
/// of every patch. Returns false at the first patch that has none.
pub fn write_patches(
    out: &mut Vec<u8>,
    table: &[TableCell],
    makers: &PackagedMakers,
    cells: &PackagedCells,
    bodies: bool,
) -> (done: bool)
    requires
        makers.wf(),
    ensures
        done == table_bytes(
            cells@.patches,
            table@,
            table@.len(),
            if bodies {
                patch_body_encoder(makers@, cells@)
            } else {
                patch_header_encoder(makers@, cells@)
            },
        ).is_some(),
        done ==> final(out)@ == old(out)@ + table_bytes(
            cells@.patches,
            table@,
            table@.len(),
            if bodies {
                patch_body_encoder(makers@, cells@)
            } else {
                patch_header_encoder(makers@, cells@)
            },
        ).unwrap(),
{
    let ghost encode = if bodies {
        patch_body_encoder(makers@, cells@)
    } else {
        patch_header_encoder(makers@, cells@)
    };
    let ghost records = cells@.patches;
    let mut i: usize = 0;
    while i < table.len()
        invariant
            i <= table@.len(),
            makers.wf(),
            encode == (if bodies {
                patch_body_encoder(makers@, cells@)
            } else {
                patch_header_encoder(makers@, cells@)
            }),
            records == cells@.patches,
            table_bytes(records, table@, i as nat, encode) is Some,
            out@ == old(out)@ + table_bytes(records, table@, i as nat, encode).unwrap(),
        decreases table@.len() - i,
    {
        let mut done = false;
        match cells.patches.lookup(&table[i]) {
            None => {},
            Some(record) => {
                if bodies {
                    done = record.write_body(out, makers, cells);
                } else {
                    done = record.write_header(out, makers, cells, i);
                }
            },
        }
        if !done {
            proof {
                lemma_table_bytes_fails(records, table@, (i + 1) as nat, table@.len(), encode);
            }
            return false;
        }
        proof {
            let bytes = table_bytes(records, table@, (i + 1) as nat, encode).unwrap();
            assert(out@ =~= old(out)@ + bytes);
        }
        i = i + 1;
    }
    true
}


/// The sizes of the three parts of the info, descriptor, metadata and group
/// tables: the part of the packages, the part of the info-groups and the
/// part of the version-groups.
#[derive(Debug, Copy, Clone, PartialEq, Eq, Structural)]
pub struct ToMemoryResults {
    pub packaged_info_len: usize,
    pub group_info_len: usize,
    pub version_info_len: usize,
    pub packaged_descriptor_len: usize,
    pub group_descriptor_len: usize,
    pub version_descriptor_len: usize,
    pub packaged_data_len: usize,
    pub group_data_len: usize,
    pub version_data_len: usize,
    pub metadata_group_len: usize,
    pub info_group_len: usize,
    pub version_group_len: usize,
}

/// The indices of the first info of an info-group, of the first descriptor
/// of that info and of the metadata of that descriptor.
pub open spec fn first_indices(t: PackagedTables, c: PackagedCellsView, group: GroupView) -> Option<
    (usize, usize, usize),
> {
    match group.files {
        GroupFilesView::Info(ReferenceSetView::Resolved(infos)) => if infos.len() == 0
            || infos[0].slot >= c.infos.len() {
            None
        } else {
            match c.infos[infos[0].slot as int].descriptors {
                ReferenceSetView::Resolved(descriptors) => if descriptors.len() == 0
                    || descriptors[0].slot >= c.descriptors.len() {
                    None
                } else {
                    match c.descriptors[descriptors[0].slot as int].metadata {
                        DescriptorMetadataReference::Metadata(metadata) => match (
                            index_in(t.infos, infos[0]),
                            index_in(t.descriptors, descriptors[0]),
                            index_in(t.metadatas, metadata),
                        ) {
                            (Some(info), Some(descriptor), Some(data)) => Some(
                                (info as usize, descriptor as usize, data as usize),
                            ),
                            _ => None,
                        },
                        _ => None,
                    }
                },
                ReferenceSetView::Unresolved(_) => None,
            }
        },
        _ => None,
    }
}

/// Computes [`first_indices`].
pub fn find_first_indices(makers: &PackagedMakers, cells: &PackagedCells, group: &Group) -> (found:
    Option<(usize, usize, usize)>)
    requires
        makers.wf(),
    ensures
        found == first_indices(makers@, cells@, group@),
{
    let infos = match &group.files {
        GroupFileReference::Info(set) => match &set.0 {
            TableReferenceSet::Resolved(infos) => infos,
            TableReferenceSet::Unresolved(_) => {
                return None;
            },
        },
        _ => {
            return None;
        },
    };
    if infos.len() == 0 {
        return None;
    }
    let info = match cells.infos.lookup(&infos[0]) {
        None => {
            return None;
        },
        Some(info) => info,
    };
    let descriptors = match &info.descriptors.0 {
        TableReferenceSet::Resolved(descriptors) => descriptors,
        TableReferenceSet::Unresolved(_) => {
            return None;
        },
    };
    if descriptors.len() == 0 {
        return None;
    }
    let descriptor = match cells.descriptors.lookup(&descriptors[0]) {
        None => {
            return None;
        },
        Some(descriptor) => descriptor,
    };
    let metadata = match &descriptor.metadata {
        DescriptorMetadataReference::Metadata(metadata) => metadata,
        _ => {
            return None;
        },
    };
    match (
        find_index(&makers.infos, &infos[0]),
        find_index(&makers.descriptors, &descriptors[0]),
        find_index(&makers.metadatas, metadata),
    ) {
        (Some(info), Some(descriptor), Some(data)) => Some(
            (info as usize, descriptor as usize, data as usize),
        ),
        _ => None,
    }
}

/// No part has a size yet.
pub open spec fn no_marks() -> ToMemoryResults {
    ToMemoryResults {
        packaged_info_len: 0,
        group_info_len: 0,
        version_info_len: 0,
        packaged_descriptor_len: 0,
        group_descriptor_len: 0,
        version_descriptor_len: 0,
        packaged_data_len: 0,
        group_data_len: 0,
        version_data_len: 0,
        metadata_group_len: 0,
        info_group_len: 0,
        version_group_len: 0,
    }
}

/// The marks after one more group, the one at `index` of the table. The
/// first info-group ends the part of the packages; the first version-group
/// after that ends the part of the info-groups.
pub open spec fn marks_with(
    marks: ToMemoryResults,
    t: PackagedTables,
    c: PackagedCellsView,
    group: GroupView,
    index: usize,
) -> Option<ToMemoryResults> {
    if marks.packaged_info_len == 0 && group.is_info_group() {
        match first_indices(t, c, group) {
            None => None,
            Some((info, descriptor, data)) => Some(
                ToMemoryResults {
                    packaged_info_len: info,
                    packaged_descriptor_len: descriptor,
                    packaged_data_len: data,
                    metadata_group_len: index,
                    ..marks
                },
            ),
        }
    } else if marks.group_info_len == 0 && group.is_version_group() {
        match first_indices(t, c, group) {
            None => None,
            Some((info, descriptor, data)) => if info >= marks.packaged_info_len && descriptor
                >= marks.packaged_descriptor_len && data >= marks.packaged_data_len && index
                >= marks.metadata_group_len {
                Some(
                    ToMemoryResults {
                        group_info_len: (info - marks.packaged_info_len) as usize,
                        group_descriptor_len: (descriptor - marks.packaged_descriptor_len) as usize,
                        group_data_len: (data - marks.packaged_data_len) as usize,
                        info_group_len: (index - marks.metadata_group_len) as usize,
                        ..marks
                    },
                )
            } else {
                None
            },
        }
    } else {
        Some(marks)
    }
}

/// The marks after the first `upto` groups of the table.
pub open spec fn group_marks(t: PackagedTables, c: PackagedCellsView, upto: nat) -> Option<
    ToMemoryResults,
>
    decreases upto,
{
    if upto == 0 {
        Some(no_marks())
    } else {
        match group_marks(t, c, (upto - 1) as nat) {
            None => None,
            Some(marks) => {
                let cell = t.groups[upto - 1];
                if cell.slot >= c.groups.len() {
                    None
                } else {
                    marks_with(marks, t, c, c.groups[cell.slot as int], (upto - 1) as usize)
                }
            },
        }
    }
}

/// Marks that are missing after some groups are missing after more.
pub proof fn lemma_group_marks_fails(t: PackagedTables, c: PackagedCellsView, short: nat, long: nat)
    requires
        short <= long,
        group_marks(t, c, short) is None,
    ensures
        group_marks(t, c, long) is None,
    decreases long,
{
    if short < long {
        lemma_group_marks_fails(t, c, short, (long - 1) as nat);
    }
}

/// The sizes of all parts: the marks of the groups, and for the part of the
/// version-groups what is left of each table.
pub open spec fn memory_results(t: PackagedTables, c: PackagedCellsView) -> Option<
    ToMemoryResults,
> {
    match group_marks(t, c, t.groups.len()) {
        None => None,
        Some(marks) => if t.infos.len() >= marks.group_info_len + marks.packaged_info_len
            && t.descriptors.len() >= marks.group_descriptor_len + marks.packaged_descriptor_len
            && t.metadatas.len() >= marks.group_data_len + marks.packaged_data_len
            && t.groups.len() >= marks.info_group_len + marks.metadata_group_len {
            Some(
                ToMemoryResults {
                    version_info_len: (t.infos.len() - marks.group_info_len
                        - marks.packaged_info_len) as usize,
                    version_descriptor_len: (t.descriptors.len() - marks.group_descriptor_len
                        - marks.packaged_descriptor_len) as usize,
                    version_data_len: (t.metadatas.len() - marks.group_data_len
                        - marks.packaged_data_len) as usize,
                    version_group_len: (t.groups.len() - marks.info_group_len
                        - marks.metadata_group_len) as usize,
                    ..marks
                },
            )
        } else {
            None
        },
    }
}

/// Computes [`memory_results`].
pub fn compute_memory_results(makers: &PackagedMakers, cells: &PackagedCells) -> (results: Option<
    ToMemoryResults,
>)
    requires
        makers.wf(),
    ensures
        results == memory_results(makers@, cells@),
{
    let mut marks = ToMemoryResults {
        packaged_info_len: 0,
        group_info_len: 0,
        version_info_len: 0,
        packaged_descriptor_len: 0,
        group_descriptor_len: 0,
        version_descriptor_len: 0,
        packaged_data_len: 0,
        group_data_len: 0,
        version_data_len: 0,
        metadata_group_len: 0,
        info_group_len: 0,
        version_group_len: 0,
    };
    let groups = makers.groups.iter();
    let mut i: usize = 0;
    while i < groups.len()
        invariant
            i <= groups@.len(),
            groups@ == makers@.groups,
            makers.wf(),
            group_marks(makers@, cells@, i as nat) == Some(marks),
        decreases groups@.len() - i,
    {
        let mut next: Option<ToMemoryResults> = None;
        match cells.groups.lookup(&groups[i]) {
            None => {},
            Some(group) => {
                if marks.packaged_info_len == 0 && group.is_info_group() {
                    match find_first_indices(makers, cells, group) {
                        None => {},
                        Some((info, descriptor, data)) => {
                            next =
                            Some(
                                ToMemoryResults {
                                    packaged_info_len: info,
                                    packaged_descriptor_len: descriptor,
                                    packaged_data_len: data,
                                    metadata_group_len: i,
                                    ..marks
                                },
                            );
                        },
                    }
                } else if marks.group_info_len == 0 && group.is_version_group() {
                    match find_first_indices(makers, cells, group) {
                        None => {},
                        Some((info, descriptor, data)) => {
                            if info >= marks.packaged_info_len && descriptor
                                >= marks.packaged_descriptor_len && data
                                >= marks.packaged_data_len && i >= marks.metadata_group_len {
                                next =
                                Some(
                                    ToMemoryResults {
                                        group_info_len: info - marks.packaged_info_len,
                                        group_descriptor_len: descriptor
                                            - marks.packaged_descriptor_len,
                                        group_data_len: data - marks.packaged_data_len,
                                        info_group_len: i - marks.metadata_group_len,
                                        ..marks
                                    },
                                );
                            }
                        },
                    }
                } else {
                    next = Some(marks);
                }
            },
        }
        match next {
            None => {
                proof {
                    lemma_group_marks_fails(makers@, cells@, (i + 1) as nat, groups@.len());
                }
                return None;
            },
            Some(next) => {
                marks = next;
            },
        }
        i = i + 1;
    }
    let infos: usize = makers.infos.len();
    let descriptors: usize = makers.descriptors.len();
    let metadatas: usize = makers.metadatas.len();
    let all_groups: usize = makers.groups.len();
    if infos >= marks.group_info_len && infos - marks.group_info_len >= marks.packaged_info_len
        && descriptors >= marks.group_descriptor_len && descriptors - marks.group_descriptor_len
        >= marks.packaged_descriptor_len && metadatas >= marks.group_data_len && metadatas
        - marks.group_data_len >= marks.packaged_data_len && all_groups >= marks.info_group_len
        && all_groups - marks.info_group_len >= marks.metadata_group_len {
        Some(
            ToMemoryResults {
                version_info_len: infos - marks.group_info_len - marks.packaged_info_len,
                version_descriptor_len: descriptors - marks.group_descriptor_len
                    - marks.packaged_descriptor_len,
                version_data_len: metadatas - marks.group_data_len - marks.packaged_data_len,
                version_group_len: all_groups - marks.info_group_len - marks.metadata_group_len,
                ..marks
            },
        )
    } else {
        None
    }
}

impl WriterModel {
    /// The lookup of the paths: the number of pairs, the number of buckets,
    /// where each bucket starts and how many pairs it has, and the keys in
    /// the order of the buckets.
    pub open spec fn path_lookup_bytes(self) -> Option<Seq<u8>> {
        let entries = bucket_entries(self.file_lookup, self.file_lookup.len());
        join(
            Some(
                le32(entries.len() as u32) + le32(self.file_lookup.len() as u32)
                    + bucket_index_bytes(self.file_lookup, self.file_lookup.len(), false),
            ),
            key_bytes(entries, self.tables.paths, entries.len()),
        )
    }

    /// The keys of the lookup of the packages, in the order of their hashes.
    pub open spec fn package_key_bytes(self) -> Option<Seq<u8>> {
        let entries = ordered(self.package_lookup);
        key_bytes(entries, self.tables.packages, entries.len())
    }

    /// The version and the patches: the version, the number of patches, the
    /// header of each patch and the body of each patch.
    pub open spec fn version_bytes(self) -> Option<Seq<u8>> {
        let t = self.tables;
        let c = self.cells;
        join(
            join(
                Some(self.version.encoded() + le32(t.patches.len() as u32)),
                table_bytes(c.patches, t.patches, t.patches.len(), patch_header_encoder(t, c)),
            ),
            table_bytes(c.patches, t.patches, t.patches.len(), patch_body_encoder(t, c)),
        )
    }

    /// The packaged filesystem as it lies in the archive: the lookup of the
    /// paths, the paths, the links, the keys of the packages, the packages,
    /// the groups, the child-package entries, the infos, the descriptors,
    /// the metadatas, and the version with the patches. The descriptors of
    /// the part of the packages count a package skip from the end of that
    /// part of the infos.
    pub open spec fn memory_bytes(self) -> Option<Seq<u8>> {
        let t = self.tables;
        let c = self.cells;
        match memory_results(t, c) {
            None => None,
            Some(results) => join(
                join(
                    join(
                        join(
                            join(
                                join(
                                    join(
                                        join(
                                            join(
                                                join(
                                                    self.path_lookup_bytes(),
                                                    table_bytes(
                                                        c.paths,
                                                        t.paths,
                                                        t.paths.len(),
                                                        path_encoder(t, self.last_patch_files_start),
                                                    ),
                                                ),
                                                table_bytes(
                                                    c.links,
                                                    t.links,
                                                    t.links.len(),
                                                    link_encoder(t),
                                                ),
                                            ),
                                            self.package_key_bytes(),
                                        ),
                                        table_bytes(
                                            c.packages,
                                            t.packages,
                                            t.packages.len(),
                                            package_encoder(t),
                                        ),
                                    ),
                                    table_bytes(c.groups, t.groups, t.groups.len(), group_encoder(t)),
                                ),
                                table_bytes(
                                    c.child_packages,
                                    t.child_packages,
                                    t.child_packages.len(),
                                    child_package_encoder(t),
                                ),
                            ),
                            table_bytes(c.infos, t.infos, t.infos.len(), info_encoder(t)),
                        ),
                        table_bytes(
                            c.descriptors,
                            t.descriptors,
                            t.descriptors.len(),
                            descriptor_encoder(
                                t,
                                results.packaged_descriptor_len,
                                results.packaged_info_len,
                            ),
                        ),
                    ),
                    table_bytes(c.metadatas, t.metadatas, t.metadatas.len(), metadata_encoder()),
                ),
                self.version_bytes(),
            ),
        }
    }
}

impl PackagedWriter {
    /// Appends the lookup of the paths.
    pub fn write_path_lookup(&self, out: &mut Vec<u8>) -> (done: bool)
        requires
            self.wf(),
        ensures
            done == self@.path_lookup_bytes().is_some(),
            done ==> final(out)@ == old(out)@ + self@.path_lookup_bytes().unwrap(),
            !done ==> final(out)@ == old(out)@,
    {
        let (entries, index) = bucket_index(&self.file_lookup, false);
        let mut part: Vec<u8> = Vec::new();
        push_u32(&mut part, #[verifier::truncate] (entries.len() as u32));
        push_u32(&mut part, #[verifier::truncate] (self.file_lookup.bucket_count() as u32));
        push_bytes(&mut part, index.as_slice());
        if !write_keys(&mut part, entries.as_slice(), &self.tables.paths) {
            return false;
        }
        assert(part@ =~= self@.path_lookup_bytes().unwrap());
        push_bytes(out, part.as_slice());
        true
    }

    /// Appends the keys of the lookup of the packages.
    pub fn write_package_keys(&self, out: &mut Vec<u8>) -> (done: bool)
        requires
            self.wf(),
        ensures
            done == self@.package_key_bytes().is_some(),
            done ==> final(out)@ == old(out)@ + self@.package_key_bytes().unwrap(),
            !done ==> final(out)@ == old(out)@,
    {
        let entries = ordered_entries(&self.package_lookup);
        let mut part: Vec<u8> = Vec::new();
        if !write_keys(&mut part, entries.as_slice(), &self.tables.packages) {
            return false;
        }
        assert(part@ =~= self@.package_key_bytes().unwrap());
        push_bytes(out, part.as_slice());
        true
    }

    /// Appends the version, the number of patches, and the header and the
    /// body of each patch.
    pub fn write_version(&self, out: &mut Vec<u8>) -> (done: bool)
        requires
            self.wf(),
        ensures
            done == self@.version_bytes().is_some(),
            done ==> final(out)@ == old(out)@ + self@.version_bytes().unwrap(),
            !done ==> final(out)@ == old(out)@,
    {
        let mut part: Vec<u8> = Vec::new();
        self.version.write(&mut part);
        push_u32(&mut part, #[verifier::truncate] (self.tables.patches.len() as u32));
        assert(part@ =~= self.version.encoded() + le32(self@.tables.patches.len() as u32));
        let patches = self.tables.patches.iter();
        if !write_patches(&mut part, patches, &self.tables, &self.cells, false) {
            return false;
        }
        if !write_patches(&mut part, patches, &self.tables, &self.cells, true) {
            return false;
        }
        push_bytes(out, part.as_slice());
        true
    }

    /// Appends the packaged filesystem as it lies in the archive and returns
    /// the sizes of the parts of its tables. Writes nothing and fails where
    /// a record has no bytes.
    pub fn to_memory(&self, out: &mut Vec<u8>) -> (result: Result<ToMemoryResults, ArchiveError>)
        requires
            self.wf(),
        ensures
            match result {
                Ok(results) => self@.memory_bytes().is_some() && final(out)@ == old(out)@
                    + self@.memory_bytes().unwrap() && memory_results(self@.tables, self@.cells)
                    == Some(results),
                Err(error) => error == ArchiveError::Invariant && self@.memory_bytes().is_none()
                    && final(out)@ == old(out)@,
            },
    {
        let results = match compute_memory_results(&self.tables, &self.cells) {
            None => {
                return Err(ArchiveError::Invariant);
            },
            Some(results) => results,
        };
        let t = &self.tables;
        let c = &self.cells;
        let mut part: Vec<u8> = Vec::new();
        if !self.write_path_lookup(&mut part) {
            return Err(ArchiveError::Invariant);
        }
        assert(part@ =~= self@.path_lookup_bytes().unwrap());
        if !write_paths(&mut part, &c.paths, t.paths.iter(), t, self.last_patch_files_start) {
            return Err(ArchiveError::Invariant);
        }
        if !write_links(&mut part, &c.links, t.links.iter(), t) {
            return Err(ArchiveError::Invariant);
        }
        if !self.write_package_keys(&mut part) {
            return Err(ArchiveError::Invariant);
        }
        if !write_packages(&mut part, &c.packages, t.packages.iter(), t) {
            return Err(ArchiveError::Invariant);
        }
        if !write_groups(&mut part, &c.groups, t.groups.iter(), t) {
            return Err(ArchiveError::Invariant);
        }
        if !write_child_packages(&mut part, &c.child_packages, t.child_packages.iter(), t) {
            return Err(ArchiveError::Invariant);
        }
        if !write_infos(&mut part, &c.infos, t.infos.iter(), t) {
            return Err(ArchiveError::Invariant);
        }
        if !write_descriptors(
            &mut part,
            &c.descriptors,
            t.descriptors.iter(),
            t,
            results.packaged_descriptor_len,
            results.packaged_info_len,
        ) {
            return Err(ArchiveError::Invariant);
        }
        if !write_metadatas(&mut part, &c.metadatas, t.metadatas.iter()) {
            return Err(ArchiveError::Invariant);
        }
        if !self.write_version(&mut part) {
            return Err(ArchiveError::Invariant);
        }
        push_bytes(out, part.as_slice());
        Ok(results)
    }
}


/// The files of the packaged filesystem in a directory of tables, each as
/// its bytes.
pub struct PackagedDirectory {
    pub packages: Vec<u8>,
    pub child_packages: Vec<u8>,
    pub groups: Vec<u8>,
    pub paths: Vec<u8>,
    pub links: Vec<u8>,
    pub infos: Vec<u8>,
    pub descriptors: Vec<u8>,
    pub metadatas: Vec<u8>,
    pub version_info: Vec<u8>,
    pub package_keys: Vec<u8>,
    pub path_buckets: Vec<u8>,
    pub path_keys: Vec<u8>,
}

/// What a [`PackagedDirectory`] holds.
pub struct PackagedDirectoryView {
    pub packages: Seq<u8>,
    pub child_packages: Seq<u8>,
    pub groups: Seq<u8>,
    pub paths: Seq<u8>,
    pub links: Seq<u8>,
    pub infos: Seq<u8>,
    pub descriptors: Seq<u8>,
    pub metadatas: Seq<u8>,
    pub version_info: Seq<u8>,
    pub package_keys: Seq<u8>,
    pub path_buckets: Seq<u8>,
    pub path_keys: Seq<u8>,
}

impl View for PackagedDirectory {
    type V = PackagedDirectoryView;

    open spec fn view(&self) -> PackagedDirectoryView {
        PackagedDirectoryView {
            packages: self.packages@,
            child_packages: self.child_packages@,
            groups: self.groups@,
            paths: self.paths@,
            links: self.links@,
            infos: self.infos@,
            descriptors: self.descriptors@,
            metadatas: self.metadatas@,
            version_info: self.version_info@,
            package_keys: self.package_keys@,
            path_buckets: self.path_buckets@,
            path_keys: self.path_keys@,
        }
    }
}

/// The parts of a directory of tables that are tables of records.
pub struct DirectoryTables {
    pub packages: Seq<u8>,
    pub child_packages: Seq<u8>,
    pub groups: Seq<u8>,
    pub paths: Seq<u8>,
    pub links: Seq<u8>,
    pub infos: Seq<u8>,
    pub descriptors: Seq<u8>,
    pub metadatas: Seq<u8>,
}

impl WriterModel {
    /// Where the descriptors of the info-groups start: at the first
    /// descriptor of the info with which the infos of the info-groups start,
    /// and at zero where there is no such info.
    pub open spec fn directory_descriptor_start(self) -> Option<usize> {
        let t = self.tables;
        let c = self.cells;
        if self.info_group_info_start >= t.infos.len() {
            Some(0)
        } else {
            let cell = t.infos[self.info_group_info_start as int];
            if cell.slot >= c.infos.len() {
                None
            } else {
                match set_first(t.descriptors, c.infos[cell.slot as int].descriptors) {
                    Some(index) => Some(index as usize),
                    None => None,
                }
            }
        }
    }

    /// The tables of records as they are written to a directory. The
    /// descriptors before those of the info-groups count a package skip from
    /// the start of the infos of the info-groups.
    pub open spec fn directory_tables(self) -> Option<DirectoryTables> {
        let t = self.tables;
        let c = self.cells;
        match self.directory_descriptor_start() {
            None => None,
            Some(start) => match (
                table_bytes(c.packages, t.packages, t.packages.len(), package_encoder(t)),
                table_bytes(
                    c.child_packages,
                    t.child_packages,
                    t.child_packages.len(),
                    child_package_encoder(t),
                ),
                table_bytes(c.groups, t.groups, t.groups.len(), group_encoder(t)),
                table_bytes(
                    c.paths,
                    t.paths,
                    t.paths.len(),
                    path_encoder(t, self.last_patch_files_start),
                ),
            ) {
                (Some(packages), Some(child_packages), Some(groups), Some(paths)) => match (
                    table_bytes(c.links, t.links, t.links.len(), link_encoder(t)),
                    table_bytes(c.infos, t.infos, t.infos.len(), info_encoder(t)),
                    table_bytes(
                        c.descriptors,
                        t.descriptors,
                        t.descriptors.len(),
                        descriptor_encoder(t, start, self.info_group_info_start),
                    ),
                    table_bytes(c.metadatas, t.metadatas, t.metadatas.len(), metadata_encoder()),
                ) {
                    (Some(links), Some(infos), Some(descriptors), Some(metadatas)) => Some(
                        DirectoryTables {
                            packages,
                            child_packages,
                            groups,
                            paths,
                            links,
                            infos,
                            descriptors,
                            metadatas,
                        },
                    ),
                    _ => None,
                },
                _ => None,
            },
        }
    }

    /// The files of the packaged filesystem in a directory of tables: the
    /// tables of records, the version with the patches, the keys of the
    /// packages, for each bucket of the lookup of the paths where it starts
    /// and where it ends, and the keys of the paths.
    pub open spec fn directory(self) -> Option<PackagedDirectoryView> {
        let entries = bucket_entries(self.file_lookup, self.file_lookup.len());
        match (
            self.directory_tables(),
            self.version_bytes(),
            self.package_key_bytes(),
            key_bytes(entries, self.tables.paths, entries.len()),
        ) {
            (Some(tables), Some(version_info), Some(package_keys), Some(path_keys)) => Some(
                PackagedDirectoryView {
                    packages: tables.packages,
                    child_packages: tables.child_packages,
                    groups: tables.groups,
                    paths: tables.paths,
                    links: tables.links,
                    infos: tables.infos,
                    descriptors: tables.descriptors,
                    metadatas: tables.metadatas,
                    version_info,
                    package_keys,
                    path_buckets: bucket_index_bytes(
                        self.file_lookup,
                        self.file_lookup.len(),
                        true,
                    ),
                    path_keys,
                },
            ),
            _ => None,
        }
    }
}

impl PackagedWriter {
    /// Computes where the descriptors of the info-groups start.
    pub fn find_descriptor_start(&self) -> (start: Option<usize>)
        requires
            self.wf(),
        ensures
            start == self@.directory_descriptor_start(),
    {
        let infos = self.tables.infos.iter();
        if self.info_group_info_start >= infos.len() {
            return Some(0);
        }
        match self.cells.infos.lookup(&infos[self.info_group_info_start]) {
            None => None,
            Some(info) => match find_first(&self.tables.descriptors, &info.descriptors) {
                Some(index) => Some(index as usize),
                None => None,
            },
        }
    }

    /// Serializes the packaged filesystem as the files of a directory of
    /// tables. Fails where a record has no bytes.
    pub fn to_directory(&self) -> (result: Result<PackagedDirectory, ArchiveError>)
        requires
            self.wf(),
        ensures
            match result {
                Ok(directory) => self@.directory() == Some(directory@),
                Err(error) => error == ArchiveError::Invariant && self@.directory().is_none(),
            },
    {
        let t = &self.tables;
        let c = &self.cells;
        let start = match self.find_descriptor_start() {
            None => {
                return Err(ArchiveError::Invariant);
            },
            Some(start) => start,
        };
        let mut packages: Vec<u8> = Vec::new();
        if !write_packages(&mut packages, &c.packages, t.packages.iter(), t) {
            return Err(ArchiveError::Invariant);
        }
        let mut child_packages: Vec<u8> = Vec::new();
        if !write_child_packages(&mut child_packages, &c.child_packages, t.child_packages.iter(), t) {
            return Err(ArchiveError::Invariant);
        }
        let mut groups: Vec<u8> = Vec::new();
        if !write_groups(&mut groups, &c.groups, t.groups.iter(), t) {
            return Err(ArchiveError::Invariant);
        }
        let mut paths: Vec<u8> = Vec::new();
        if !write_paths(&mut paths, &c.paths, t.paths.iter(), t, self.last_patch_files_start) {
            return Err(ArchiveError::Invariant);
        }
        let mut links: Vec<u8> = Vec::new();
        if !write_links(&mut links, &c.links, t.links.iter(), t) {
            return Err(ArchiveError::Invariant);
        }
        let mut infos: Vec<u8> = Vec::new();
        if !write_infos(&mut infos, &c.infos, t.infos.iter(), t) {
            return Err(ArchiveError::Invariant);
        }
        let mut descriptors: Vec<u8> = Vec::new();
        if !write_descriptors(
            &mut descriptors,
            &c.descriptors,
            t.descriptors.iter(),
            t,
            start,
            self.info_group_info_start,
        ) {
            return Err(ArchiveError::Invariant);
        }
        let mut metadatas: Vec<u8> = Vec::new();
        if !write_metadatas(&mut metadatas, &c.metadatas, t.metadatas.iter()) {
            return Err(ArchiveError::Invariant);
        }
        let mut version_info: Vec<u8> = Vec::new();
        if !self.write_version(&mut version_info) {
            return Err(ArchiveError::Invariant);
        }
        let mut package_keys: Vec<u8> = Vec::new();
        if !self.write_package_keys(&mut package_keys) {
            return Err(ArchiveError::Invariant);
        }
        let (entries, path_buckets) = bucket_index(&self.file_lookup, true);
        let mut path_keys: Vec<u8> = Vec::new();
        if !write_keys(&mut path_keys, entries.as_slice(), &t.paths) {
            return Err(ArchiveError::Invariant);
        }
        proof {
            assert(packages@ =~= self@.directory_tables().unwrap().packages);
            assert(child_packages@ =~= self@.directory_tables().unwrap().child_packages);
            assert(groups@ =~= self@.directory_tables().unwrap().groups);
            assert(paths@ =~= self@.directory_tables().unwrap().paths);
            assert(links@ =~= self@.directory_tables().unwrap().links);
            assert(infos@ =~= self@.directory_tables().unwrap().infos);
            assert(descriptors@ =~= self@.directory_tables().unwrap().descriptors);
            assert(metadatas@ =~= self@.directory_tables().unwrap().metadatas);
            assert(version_info@ =~= self@.version_bytes().unwrap());
            assert(package_keys@ =~= self@.package_key_bytes().unwrap());
            assert(path_keys@ =~= key_bytes(entries@, t@.paths, entries@.len()).unwrap());
        }
        Ok(
            PackagedDirectory {
                packages,
                child_packages,
                groups,
                paths,
                links,
                infos,
                descriptors,
                metadatas,
                version_info,
                package_keys,
                path_buckets,
                path_keys,
            },
        )
    }
}

} // verus!
