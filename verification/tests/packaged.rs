use archive_manifest::engines::packaged::encode::{find_reference, find_span};
use archive_manifest::engines::packaged::serialize::{PackagedDirectory, ToMemoryResults};
use archive_manifest::engines::packaged::types::{
    Descriptor, DescriptorLoadArguments, DescriptorLoadArgumentsPatchReference,
    DescriptorMetadataReference, Group, GroupSubPackageReference, Info, Link, LinkOwnerReference,
    Metadata, Package, Path, PathFromStrError, PathVersionedFileReference, VersionedFile,
};
use archive_manifest::engines::packaged::writer::{PackagedMakers, PackagedWriter};
use archive_manifest::engines::packaged::PackagedEngine;
use archive_manifest::engines::table::{
    CellIds, TableCell, TableContiguousReference, TableReference, TableReferenceSet,
};
use archive_manifest::engines::{read_table, Hash40, TableRecord, Version};
use archive_manifest::hashing::hash_of;
use archive_manifest::archive::{
    overlay, parse_user_tables, write_section, Archive, ArchiveHeader, ArchiveNonUserTables,
    ArchiveTablesHeader, PackagedFsHeader, SearchFsHeader, StreamFsHeader,
};
use archive_manifest::engines::search::types::{
    SearchFolder, SearchPath, SearchPathFolderReference, SearchPathNextReference,
};
use archive_manifest::engines::search::{FolderHashes, SearchDirectory, SearchEngine, SearchWriter};
use archive_manifest::engines::stream::types::{StreamLink, StreamMetadata, StreamPath};
use archive_manifest::engines::stream::{StreamDirectory, StreamEngine, StreamWriter};
use archive_manifest::{
    compress_data, decompress_data, ArchiveError, Decompressor, DefaultDecompressor, INVALID_INDEX,
};

fn le32(out: &mut Vec<u8>, words: &[u32]) {
    for word in words {
        out.extend_from_slice(&word.to_le_bytes());
    }
}

fn le64(out: &mut Vec<u8>, quads: &[u64]) {
    for quad in quads {
        out.extend_from_slice(&quad.to_le_bytes());
    }
}

fn key(hash: Hash40, index: u64) -> u64 {
    hash.0 | (index << 40)
}

fn file_name(i: usize) -> String {
    format!("data/file{}.bin", i)
}

fn bucketed(hashes: &[(u64, u64)], buckets: u64) -> (Vec<u8>, Vec<u8>) {
    let mut sorted: Vec<(u64, u64)> = hashes.to_vec();
    sorted.sort_by_key(|pair| (pair.0 % buckets, pair.0));
    let mut index = Vec::new();
    let mut keys = Vec::new();
    let mut total = 0u32;
    for bucket in 0..buckets {
        let count = sorted.iter().filter(|pair| pair.0 % buckets == bucket).count() as u32;
        le32(&mut index, &[total, total + count]);
        total += count;
    }
    for pair in &sorted {
        le64(&mut keys, &[pair.0 | (pair.1 << 40)]);
    }
    (index, keys)
}

/// One package with three infos, one info-group with one info, and, with
/// `patched`, one patch of two files over a version-group of two infos.
fn sample(patched: bool) -> PackagedDirectory {
    let package = hash_of("data");
    let mut packages = Vec::new();
    le64(&mut packages, &[key(package, 0), hash_of("data").0, hash_of("").0, hash_of("lifetime").0]);
    le32(&mut packages, &[0, 3, 0, 0, 0]);

    let mut groups = Vec::new();
    le64(&mut groups, &[0x1000]);
    le32(&mut groups, &[0x300, 0x200, 0, 3, 1]);
    le64(&mut groups, &[0x2000]);
    le32(&mut groups, &[0x100, 0x80, 3, 1, 1]);
    if patched {
        le64(&mut groups, &[0x3000]);
        le32(&mut groups, &[0x50, 0x40, 4, 2, 0x00FF_FFFF]);
    }

    let mut paths = Vec::new();
    for i in 0..3usize {
        let versioned = if patched && i < 2 { i as u64 } else { 0x00FF_FFFF };
        le64(
            &mut paths,
            &[
                key(hash_of(&file_name(i)), i as u64),
                key(hash_of("bin"), versioned),
                hash_of("data").0,
                hash_of(&format!("file{}.bin", i)).0,
            ],
        );
    }

    let mut links = Vec::new();
    le32(&mut links, &[0, 0, 0, 1, 0, 2, 2, 3]);
    let mut infos = Vec::new();
    le32(&mut infos, &[0, 0, 0, 0x10, 1, 1, 1, 0x10, 2, 2, 2, 0x10, 0, 3, 3, 0x10]);
    let mut descriptors = Vec::new();
    le32(&mut descriptors, &[0, 0, 0, 0, 1, 1, 0, 2, 2, 1, 3, 3]);
    let mut metadatas = Vec::new();
    let count = if patched { 6 } else { 4 };
    for i in 0..count as u32 {
        le32(&mut metadatas, &[0x10 * i, 0x20 + i, 0x40 + i, 3]);
    }

    let mut version_info = vec![3, 2, 13, 0];
    if patched {
        le32(&mut links, &[3, 4, 3, 5]);
        le32(&mut infos, &[0, 4, 4, 0x10, 1, 5, 5, 0x10]);
        le32(&mut descriptors, &[2, 4, 0x0100_0000, 2, 5, 0x0100_0000]);
        le32(&mut version_info, &[1]);
        version_info.extend_from_slice(&[1, 0, 13, 0]);
        le32(&mut version_info, &[2, 2, 0, 8 * (2 + 0x401), 2, 2, 2]);
        let hashes = [(hash_of(&file_name(0)).0, 0u64), (hash_of(&file_name(1)).0, 1u64)];
        for (i, pair) in hashes.iter().enumerate() {
            le64(&mut version_info, &[pair.0]);
            le32(&mut version_info, &[4 + i as u32, 2, 4 + i as u32]);
        }
        let (index, keys) = bucketed(&hashes, 0x400);
        le32(&mut version_info, &[0x400, 2]);
        version_info.extend_from_slice(&index);
        version_info.extend_from_slice(&keys);
    } else {
        le32(&mut version_info, &[0]);
    }

    let mut package_keys = Vec::new();
    le64(&mut package_keys, &[key(package, 0)]);
    let path_hashes: Vec<(u64, u64)> =
        (0..3usize).map(|i| (hash_of(&file_name(i)).0, i as u64)).collect();
    let (path_buckets, path_keys) = bucketed(&path_hashes, 2);

    PackagedDirectory {
        packages,
        child_packages: Vec::new(),
        groups,
        paths,
        links,
        infos,
        descriptors,
        metadatas,
        version_info,
        package_keys,
        path_buckets,
        path_keys,
    }
}

fn resolved(patched: bool) -> PackagedEngine {
    let mut engine = PackagedEngine::from_directory(&sample(patched), &mut CellIds::new()).unwrap();
    engine.resolve().unwrap();
    engine
}

fn same_directory(a: &PackagedDirectory, b: &PackagedDirectory) {
    assert_eq!(a.packages, b.packages);
    assert_eq!(a.child_packages, b.child_packages);
    assert_eq!(a.groups, b.groups);
    assert_eq!(a.paths, b.paths);
    assert_eq!(a.links, b.links);
    assert_eq!(a.infos, b.infos);
    assert_eq!(a.descriptors, b.descriptors);
    assert_eq!(a.metadatas, b.metadatas);
    assert_eq!(a.version_info, b.version_info);
    assert_eq!(a.package_keys, b.package_keys);
    assert_eq!(a.path_buckets, b.path_buckets);
    assert_eq!(a.path_keys, b.path_keys);
}

#[test]
fn directory_round_trip_of_one_package_with_three_infos() {
    let first = plain_sample();
    let mut engine = PackagedEngine::from_directory(&first, &mut CellIds::new()).unwrap();
    engine.resolve().unwrap();
    assert_eq!(engine.packages.len(), 1);
    assert_eq!(engine.patches.len(), 0);
    assert_eq!(engine.infos.len(), 3);
    let package = engine.get_package(hash_of("data")).unwrap();
    assert_eq!(package.infos.0.len(), 3);
    assert_eq!(package.groups.0.len(), 6);
    let writer = PackagedWriter::from_engine(engine).unwrap();
    let second = writer.to_directory().unwrap();
    same_directory(&first, &second);
    let mut again = PackagedEngine::from_directory(&second, &mut CellIds::new()).unwrap();
    again.resolve().unwrap();
    let mut expected = PackagedEngine::from_directory(&first, &mut CellIds::new()).unwrap();
    expected.resolve().unwrap();
    assert_eq!(again.packages, expected.packages);
    assert_eq!(again.infos, expected.infos);
    assert_eq!(again.patches.len(), 0);
    assert_eq!(again.versioned_files.len(), 0);
    assert_eq!(again.cells.paths.cells, expected.cells.paths.cells);
    assert_eq!(again.cells.links.cells, expected.cells.links.cells);
    assert_eq!(again.cells.descriptors.cells, expected.cells.descriptors.cells);
    assert_eq!(again.cells.metadatas.cells, expected.cells.metadatas.cells);
    assert_eq!(again.version, Version::new(13, 2, 3));
}

#[test]
fn directory_round_trip_with_an_info_group() {
    let first = sample(false);
    let engine = resolved(false);
    assert_eq!(engine.packages.len(), 1);
    assert_eq!(engine.patches.len(), 0);
    let writer = PackagedWriter::from_engine(engine).unwrap();
    let second = writer.to_directory().unwrap();
    same_directory(&first, &second);
    let mut again = PackagedEngine::from_directory(&second, &mut CellIds::new()).unwrap();
    again.resolve().unwrap();
    let expected = resolved(false);
    assert_eq!(again.packages, expected.packages);
    assert_eq!(again.infos, expected.infos);
    assert_eq!(again.cells.descriptors.cells, expected.cells.descriptors.cells);
}

#[test]
fn directory_round_trip_with_a_patch() {
    let first = sample(true);
    let writer = PackagedWriter::from_engine(resolved(true)).unwrap();
    let second = writer.to_directory().unwrap();
    same_directory(&first, &second);
}

#[test]
fn reorganize_preserves_the_patch_of_two_files() {
    let engine = resolved(true);
    assert_eq!(engine.cells.patches.cells[0].file_count, 2);
    let engine = engine.reorganize().unwrap();
    assert_eq!(engine.patches, vec![TableCell::from_slot(0)]);
    assert_eq!(engine.versioned_files, vec![TableCell::from_slot(0), TableCell::from_slot(1)]);
    let patch = engine.patches[0].get(&engine.cells.patches);
    assert_eq!(patch.versioned_files.0.iter(), engine.versioned_files);
    let first = patch.versioned_files.0.get(0);
    let writer = PackagedWriter::from_engine(engine).unwrap();
    assert_eq!(writer.last_patch_files_start, writer.tables.versioned_files.get_index(&first) as usize);
    assert_eq!(writer.last_patch_files_start, 0);
    assert_eq!(writer.info_group_info_start, 3);
}

#[test]
fn resolve_binds_every_reference() {
    let engine = resolved(true);
    let cells = &engine.cells;
    assert!(cells.packages.cells.iter().all(|record| record.is_resolved()));
    assert!(cells.groups.cells.iter().all(|record| record.is_resolved()));
    assert!(cells.paths.cells.iter().all(|record| record.is_resolved()));
    assert!(cells.links.cells.iter().all(|record| record.is_resolved()));
    assert!(cells.infos.cells.iter().all(|record| record.is_resolved()));
    assert!(cells.descriptors.cells.iter().all(|record| record.is_resolved()));
    assert!(cells.patches.cells.iter().all(|record| record.is_resolved()));
    assert!(cells.versioned_files.cells.iter().all(|record| record.is_resolved()));
    assert!(cells.groups.cells[0].is_metadata_group());
    assert!(!cells.groups.cells[0].is_info_group());
    assert!(cells.groups.cells[1].is_info_group());
    assert!(!cells.groups.cells[1].is_version_group());
    assert!(cells.groups.cells[2].is_version_group());
    assert_eq!(cells.groups.cells[1].sub_package, GroupSubPackageReference::Group(TableCell::from_slot(1)));
    assert_eq!(cells.groups.cells[2].sub_package, GroupSubPackageReference::Absent);
    assert_eq!(cells.groups.cells[0].metadatas().0.len(), 3);
    assert_eq!(cells.groups.cells[2].infos().0.iter(), vec![TableCell::from_slot(4), TableCell::from_slot(5)]);
    assert_eq!(cells.links.cells[0].owner, LinkOwnerReference::Package(TableCell::from_slot(0)));
    assert_eq!(cells.links.cells[3].owner, LinkOwnerReference::Group(TableCell::from_slot(1)));
    assert_eq!(cells.links.cells[4].owner, LinkOwnerReference::Group(TableCell::from_slot(2)));
    assert_eq!(
        cells.paths.cells[1].versioned_file,
        PathVersionedFileReference::VersionedFile(TableCell::from_slot(1))
    );
    assert_eq!(cells.paths.cells[2].versioned_file, PathVersionedFileReference::Absent);
    assert_eq!(
        cells.descriptors.cells[4].load_args,
        DescriptorLoadArguments::Owned {
            patch: DescriptorLoadArgumentsPatchReference::Patch(TableCell::from_slot(0))
        }
    );
    assert_eq!(
        cells.descriptors.cells[0].load_args,
        DescriptorLoadArguments::Unowned { link: TableReference::Resolved(TableCell::from_slot(0)) }
    );
    assert_eq!(cells.patches.cells[0].group, TableReference::Resolved(TableCell::from_slot(2)));
    assert_eq!(cells.patches.cells[0].infos.0.iter(), vec![TableCell::from_slot(4), TableCell::from_slot(5)]);
}

#[test]
fn resolve_twice_changes_nothing() {
    let mut engine = resolved(true);
    let before = PackagedWriter::from_engine(resolved(true)).unwrap().to_directory().unwrap();
    assert_eq!(engine.resolve(), Ok(()));
    let descriptors = engine.cells.descriptors.cells.clone();
    assert_eq!(engine.resolve(), Ok(()));
    assert_eq!(engine.cells.descriptors.cells, descriptors);
    let after = PackagedWriter::from_engine(engine).unwrap().to_directory().unwrap();
    same_directory(&before, &after);
}

#[test]
fn resolve_rejects_an_index_out_of_bounds() {
    let mut directory = sample(false);
    directory.links[4..8].copy_from_slice(&99u32.to_le_bytes());
    let mut engine = PackagedEngine::from_directory(&directory, &mut CellIds::new()).unwrap();
    assert_eq!(engine.resolve(), Err(ArchiveError::Format));
    let mut directory = sample(false);
    directory.packages[32..36].copy_from_slice(&2u32.to_le_bytes());
    let mut engine = PackagedEngine::from_directory(&directory, &mut CellIds::new()).unwrap();
    assert_eq!(engine.resolve(), Err(ArchiveError::Format));
}

/// One regional package with its six metadata-groups and three infos: no
/// info-group, no patch.
fn plain_sample() -> PackagedDirectory {
    let package = hash_of("data");
    let mut packages = Vec::new();
    le64(&mut packages, &[key(package, 0), hash_of("data").0, hash_of("").0, hash_of("lifetime").0]);
    le32(&mut packages, &[0, 3, 0, 0, 1 << 25]);
    let mut groups = Vec::new();
    // The first group names the second as its sub-package, the others the package.
    le64(&mut groups, &[0x1000]);
    le32(&mut groups, &[0x300, 0x200, 0, 3, 1]);
    for i in 1..6u64 {
        le64(&mut groups, &[0x1000 * (i + 1)]);
        le32(&mut groups, &[0, 0, 0, 0, 0]);
    }
    let mut paths = Vec::new();
    let mut links = Vec::new();
    let mut infos = Vec::new();
    let mut descriptors = Vec::new();
    let mut metadatas = Vec::new();
    for i in 0..3usize {
        le64(
            &mut paths,
            &[
                key(hash_of(&file_name(i)), i as u64),
                key(hash_of("bin"), 0x00FF_FFFF),
                hash_of("data").0,
                hash_of(&format!("file{}.bin", i)).0,
            ],
        );
        le32(&mut links, &[0, i as u32]);
        le32(&mut infos, &[i as u32, i as u32, i as u32, 0x10]);
        le32(&mut descriptors, &[0, i as u32, i as u32]);
        le32(&mut metadatas, &[0x10 * i as u32, 0x20 + i as u32, 0x40 + i as u32, 3]);
    }
    let mut version_info = vec![3, 2, 13, 0];
    le32(&mut version_info, &[0]);
    let mut package_keys = Vec::new();
    le64(&mut package_keys, &[key(package, 0)]);
    let path_hashes: Vec<(u64, u64)> =
        (0..3usize).map(|i| (hash_of(&file_name(i)).0, i as u64)).collect();
    let (path_buckets, path_keys) = bucketed(&path_hashes, 2);
    PackagedDirectory {
        packages,
        child_packages: Vec::new(),
        groups,
        paths,
        links,
        infos,
        descriptors,
        metadatas,
        version_info,
        package_keys,
        path_buckets,
        path_keys,
    }
}

#[test]
fn resolve_works_without_an_info_group_at_the_end() {
    let first = plain_sample();
    let mut engine = PackagedEngine::from_directory(&first, &mut CellIds::new()).unwrap();
    assert_eq!(engine.resolve(), Ok(()));
    assert_eq!(engine.patches.len(), 0);
    assert_eq!(engine.versioned_files.len(), 0);
    assert!(engine.cells.packages.cells.iter().all(|package| package.is_resolved()));
    assert!(engine.cells.groups.cells.iter().all(|group| group.is_resolved() && group.is_metadata_group()));
    assert!(engine.cells.paths.cells.iter().all(|path| {
        path.link.is_resolved() && path.versioned_file == PathVersionedFileReference::Absent
    }));
    assert!(engine.cells.links.cells.iter().all(|link| matches!(link.owner, LinkOwnerReference::Package(_))
        && link.info.is_resolved()));
    assert!(engine.cells.infos.cells.iter().all(|info| info.is_resolved()));
    assert!(engine.cells.descriptors.cells.iter().all(|descriptor| {
        descriptor.group.is_resolved() && descriptor.load_args.is_resolved()
    }));
    let package = engine.get_package(hash_of("data")).unwrap();
    assert_eq!(package.infos.0.len(), 3);
    assert_eq!(package.groups.0.len(), 6);
    // Written, read and resolved again, the engine is the same.
    let writer = PackagedWriter::from_engine(engine).unwrap();
    assert_eq!(writer.last_patch_files_start, 0);
    let second = writer.to_directory().unwrap();
    same_directory(&first, &second);
    let mut again = PackagedEngine::from_directory(&second, &mut CellIds::new()).unwrap();
    again.resolve().unwrap();
    let mut expected = PackagedEngine::from_directory(&first, &mut CellIds::new()).unwrap();
    expected.resolve().unwrap();
    assert_eq!(again.packages, expected.packages);
    assert_eq!(again.groups, expected.groups);
    assert_eq!(again.cells.paths.cells, expected.cells.paths.cells);
    assert_eq!(again.cells.links.cells, expected.cells.links.cells);
    assert_eq!(again.cells.descriptors.cells, expected.cells.descriptors.cells);
    assert_eq!(again.version, Version::new(13, 2, 3));
}

#[test]
fn resolve_without_a_latest_patch_rejects_a_path_with_a_versioned_file() {
    let mut directory = plain_sample();
    directory.paths[8..16].copy_from_slice(&key(hash_of("bin"), 0).to_le_bytes());
    let mut engine = PackagedEngine::from_directory(&directory, &mut CellIds::new()).unwrap();
    assert_eq!(engine.resolve(), Err(ArchiveError::Format));
}

#[test]
fn group_is_classified_by_its_sub_package() {
    let table: Vec<TableCell> = (0..8).map(TableCell::from_slot).collect();
    let packages: Vec<TableCell> = (0..2).map(TableCell::from_slot).collect();
    // (field, own index) and what the group becomes: info-group, version-group.
    for (field, own, info, version) in [
        (0x00FF_FFFFu32, 3usize, true, true),
        (3, 3, true, false),
        (0, 0, true, false),
        (0, 3, false, false),
        (1, 3, false, false),
        (4, 3, false, false),
    ] {
        let mut bytes = Vec::new();
        le64(&mut bytes, &[0x1000]);
        le32(&mut bytes, &[0x20, 0x10, 1, 2, field]);
        let mut group = Group::parse(&bytes, 0).unwrap();
        assert!(group.can_resolve(packages.len(), table.len(), table.len(), table.len(), own));
        group.resolve(&packages, &table, &table, &table, own);
        assert_eq!(group.is_info_group(), info, "field {:#x} at {}", field, own);
        assert_eq!(group.is_metadata_group(), !info);
        assert_eq!(group.is_version_group(), version);
        let expected = if field == 0x00FF_FFFF {
            GroupSubPackageReference::Absent
        } else if field as usize == own {
            GroupSubPackageReference::Group(TableCell::from_slot(own as u64))
        } else if (field as usize) < packages.len() {
            GroupSubPackageReference::Package(TableCell::from_slot(field as u64))
        } else {
            GroupSubPackageReference::Group(TableCell::from_slot(field as u64))
        };
        assert_eq!(group.sub_package, expected);
        if info {
            assert_eq!(group.infos().0.iter(), vec![TableCell::from_slot(1), TableCell::from_slot(2)]);
        } else {
            assert_eq!(group.metadatas().0.iter(), vec![TableCell::from_slot(1), TableCell::from_slot(2)]);
        }
    }
}

#[test]
fn group_writes_what_classifies_it() {
    let mut makers = PackagedMakers::new();
    for slot in 0..4 {
        makers.groups.push(TableCell::from_slot(slot));
        makers.infos.push(TableCell::from_slot(slot));
        makers.metadatas.push(TableCell::from_slot(slot));
    }
    makers.packages.push(TableCell::from_slot(0));
    let table: Vec<TableCell> = (0..4).map(TableCell::from_slot).collect();
    for (field, own) in [(0x00FF_FFFFu32, 2usize), (2, 2), (3, 2), (0, 2)] {
        let mut bytes = Vec::new();
        le64(&mut bytes, &[0x1000]);
        le32(&mut bytes, &[0x20, 0x10, 1, 2, field]);
        let mut group = Group::parse(&bytes, 0).unwrap();
        group.resolve(&table[..1], &table, &table, &table, own);
        let mut out = Vec::new();
        assert!(group.write(&mut out, &makers));
        assert_eq!(out, bytes);
    }
    // A metadata-group without a sub-package would be read as a version-group.
    let mut bytes = Vec::new();
    le64(&mut bytes, &[0x1000]);
    le32(&mut bytes, &[0x20, 0x10, 1, 2, 3]);
    let mut group = Group::parse(&bytes, 0).unwrap();
    group.resolve(&table[..1], &table, &table, &table, 2);
    group.sub_package = GroupSubPackageReference::Absent;
    let mut out = Vec::new();
    assert!(!group.write(&mut out, &makers));
    assert!(out.is_empty());
}

#[test]
fn versioned_file_keeps_whether_it_changed() {
    let mut makers = PackagedMakers::new();
    makers.infos.push(TableCell::from_slot(7));
    makers.links.push(TableCell::from_slot(9));
    for changed in [true, false] {
        let file = VersionedFile {
            path: hash_of("data/file0.bin"),
            info: TableReference::Resolved(TableCell::from_slot(7)),
            link: TableReference::Resolved(TableCell::from_slot(9)),
            changed_this_patch: changed,
        };
        let mut out = Vec::new();
        assert!(file.write(&mut out, &makers, 5));
        assert_eq!(out.len(), 0x14);
        let index = u64::from_le_bytes(out[0..8].try_into().unwrap()) >> 40;
        assert_eq!(index, if changed { 0 } else { 0x0080_0000 });
        assert_eq!(u64::from_le_bytes(out[0..8].try_into().unwrap()) & 0xFF_FFFF_FFFF, file.path.0);
        let mut read = VersionedFile::parse(&out, 0).unwrap();
        assert_eq!(read.changed_this_patch, changed);
        read.resolve(&[TableCell::from_slot(9)], &[TableCell::from_slot(7)]);
        assert_eq!(read, file);
    }
}

#[test]
fn from_directory_rejects_broken_tables() {
    let mut directory = sample(false);
    directory.infos.pop();
    assert!(matches!(PackagedEngine::from_directory(&directory, &mut CellIds::new()), Err(ArchiveError::Format)));
    let mut directory = sample(false);
    directory.descriptors[8..12].copy_from_slice(&0x0200_0000u32.to_le_bytes());
    assert!(matches!(PackagedEngine::from_directory(&directory, &mut CellIds::new()), Err(ArchiveError::Format)));
    let mut directory = sample(false);
    directory.path_buckets.clear();
    assert!(matches!(PackagedEngine::from_directory(&directory, &mut CellIds::new()), Err(ArchiveError::Format)));
    let mut directory = sample(true);
    directory.version_info.truncate(50);
    assert!(matches!(PackagedEngine::from_directory(&directory, &mut CellIds::new()), Err(ArchiveError::Format)));
    let mut directory = sample(false);
    directory.version_info.truncate(7);
    assert!(matches!(PackagedEngine::from_directory(&directory, &mut CellIds::new()), Err(ArchiveError::Format)));
}

#[test]
fn lookups_find_packages_and_files() {
    let engine = resolved(false);
    assert!(engine.has_package(hash_of("data")));
    assert!(!engine.has_package(hash_of("other")));
    assert!(engine.get_package(hash_of("other")).is_none());
    assert!(engine.has_file(hash_of("data/file1.bin")));
    assert!(!engine.has_file(hash_of("data/file9.bin")));
    let path = engine.get_file(hash_of("data/file2.bin")).unwrap();
    assert_eq!(path.file_name, hash_of("file2.bin"));
    assert_eq!(path.extension, hash_of("bin"));
    assert_eq!(path.parent, hash_of("data"));
    assert_eq!(engine.file_lookup.bucket_count(), 2);
    assert_eq!(engine.file_lookup.len(), 3);
}

#[test]
fn mutable_lookups_change_the_record() {
    let mut engine = resolved(false);
    engine.get_package_mut(hash_of("data")).unwrap().is_sym_link = true;
    assert!(engine.get_package(hash_of("data")).unwrap().is_sym_link);
    engine.get_file_mut(hash_of("data/file0.bin")).unwrap().parent = Hash40(42);
    assert_eq!(engine.get_file(hash_of("data/file0.bin")).unwrap().parent, Hash40(42));
    assert!(engine.get_file_mut(hash_of("nothing")).is_none());
    assert!(engine.get_package_mut(hash_of("nothing")).is_none());
}

#[test]
fn add_file_surface() {
    let mut engine = resolved(true);
    let info = engine.add_file("foo/bar.nutexb", hash_of("data"), &mut CellIds::new()).unwrap();
    assert!(engine.has_file(hash_of("foo/bar.nutexb")));
    let path = engine.get_file(hash_of("foo/bar.nutexb")).unwrap();
    assert_eq!(path.extension, hash_of("nutexb"));
    assert_eq!(path.parent, hash_of("foo"));
    assert_eq!(path.file_name, hash_of("bar.nutexb"));
    assert_eq!(path.full_path, hash_of("foo/bar.nutexb"));
    let record = info.get(&engine.cells.infos);
    assert!(record.is_graphics_archive);
    assert!(!record.is_regular_file);
    assert_eq!(record.descriptors.0.len(), 1);
    let package = engine.get_package(hash_of("data")).unwrap();
    assert_eq!(package.infos.0.len(), 4);
    assert!(package.infos.0.cells().contains(&info));
    let link = record.link.cell().get(&engine.cells.links);
    assert_eq!(link.owner, LinkOwnerReference::Package(TableCell::from_slot(0)));
    assert_eq!(link.info, TableReference::Resolved(info));
    assert_eq!(path.link, record.link);
    let descriptor = record.descriptors.0.get(0).get(&engine.cells.descriptors);
    assert_eq!(descriptor.group, TableReference::Resolved(TableCell::from_slot(0)));
    assert_eq!(descriptor.load_args, DescriptorLoadArguments::new());
    let metadata = match descriptor.metadata {
        DescriptorMetadataReference::Metadata(cell) => cell,
        _ => panic!("the descriptor of an added file has a metadata"),
    };
    assert_eq!(*metadata.get(&engine.cells.metadatas), Metadata::new());
    assert_eq!(engine.cells.groups.cells[0].metadatas().0.cells().last(), Some(&metadata));
    assert_eq!(engine.infos.len(), 6);
}

#[test]
fn add_file_of_a_regular_file() {
    let mut engine = resolved(false);
    let info = engine.add_file("sound/bank.nus3bank", hash_of("data"), &mut CellIds::new()).unwrap();
    let record = info.get(&engine.cells.infos);
    assert!(record.is_regular_file);
    assert!(!record.is_graphics_archive);
    for name in ["a/b.arc", "a/b.bntx", "a/b.eff"] {
        let info = engine.add_file(name, hash_of("data"), &mut CellIds::new()).unwrap();
        assert!(info.get(&engine.cells.infos).is_graphics_archive);
    }
}

#[test]
fn add_file_rejects_what_it_cannot_add() {
    let mut engine = resolved(false);
    assert_eq!(engine.add_file("data/file0.bin", hash_of("data"), &mut CellIds::new()), Err(ArchiveError::Invariant));
    assert_eq!(engine.add_file("new/file.bin", hash_of("missing"), &mut CellIds::new()), Err(ArchiveError::Invariant));
    assert_eq!(engine.add_file("no_extension", hash_of("data"), &mut CellIds::new()), Err(ArchiveError::Invariant));
    assert_eq!(engine.infos.len(), 4);
    assert_eq!(engine.cells.infos.len(), 4);
    let mut unresolved = PackagedEngine::from_directory(&sample(false), &mut CellIds::new()).unwrap();
    assert_eq!(unresolved.add_file("new/file.bin", hash_of("data"), &mut CellIds::new()), Err(ArchiveError::Invariant));
}

#[test]
fn added_file_is_written_after_reorganize() {
    let mut engine = resolved(true);
    let info = engine.add_file("foo/bar.nutexb", hash_of("data"), &mut CellIds::new()).unwrap();
    let writer = PackagedWriter::from_engine(engine).unwrap();
    assert_eq!(writer.tables.infos.get_index(&info), 3);
    assert_eq!(writer.tables.infos.len(), 7);
    assert_eq!(writer.tables.paths.len(), 4);
    assert_eq!(writer.tables.metadatas.len(), 7);
    let directory = writer.to_directory().unwrap();
    assert_eq!(directory.infos.len(), 7 * 0x10);
    assert_eq!(&directory.infos[3 * 0x10..4 * 0x10], &[3, 0, 0, 0, 3, 0, 0, 0, 3, 0, 0, 0, 0, 0x10, 0, 0]);
    assert_eq!(&directory.packages[32..40], &[0, 0, 0, 0, 4, 0, 0, 0]);
    let mut again = PackagedEngine::from_directory(&directory, &mut CellIds::new()).unwrap();
    again.resolve().unwrap();
    assert!(again.has_file(hash_of("foo/bar.nutexb")));
    assert_eq!(again.get_file(hash_of("foo/bar.nutexb")).unwrap().extension, hash_of("nutexb"));
    assert_eq!(again.get_package(hash_of("data")).unwrap().infos.0.len(), 4);
}

#[test]
fn reorganize_orders_groups_by_kind() {
    let mut engine = resolved(true);
    // The tables of a resolved engine may list their cells in any order.
    engine.groups.swap(1, 2);
    engine.groups.swap(0, 1);
    engine.infos.reverse();
    engine.metadatas.reverse();
    let engine = engine.reorganize().unwrap();
    let kinds: Vec<(bool, bool, bool)> = engine
        .groups
        .iter()
        .map(|cell| {
            let group = cell.get(&engine.cells.groups);
            (group.is_metadata_group(), group.is_info_group() && !group.is_version_group(), group.is_version_group())
        })
        .collect();
    assert_eq!(kinds, vec![(true, false, false), (false, true, false), (false, false, true)]);
    assert_eq!(engine.groups, vec![TableCell::from_slot(0), TableCell::from_slot(1), TableCell::from_slot(2)]);
    assert_eq!(engine.infos, (0..6).map(TableCell::from_slot).collect::<Vec<_>>());
    assert_eq!(engine.metadatas, (0..6).map(TableCell::from_slot).collect::<Vec<_>>());
}

#[test]
fn resolve_rejects_a_version_group_before_the_last_info_group() {
    let mut directory = sample(true);
    let second: Vec<u8> = directory.groups[0x1C..0x38].to_vec();
    let third: Vec<u8> = directory.groups[0x38..0x54].to_vec();
    directory.groups[0x1C..0x38].copy_from_slice(&third);
    directory.groups[0x38..0x54].copy_from_slice(&second);
    directory.groups[0x38 + 24..0x38 + 28].copy_from_slice(&2u32.to_le_bytes());
    let mut engine = PackagedEngine::from_directory(&directory, &mut CellIds::new()).unwrap();
    assert_eq!(engine.resolve(), Err(ArchiveError::Format));
}

#[test]
fn reorganize_rejects_a_cell_that_enters_twice() {
    let mut directory = sample(false);
    // The second info of the package names the descriptor of the first.
    directory.infos[0x10 + 8..0x10 + 12].copy_from_slice(&0u32.to_le_bytes());
    let mut engine = PackagedEngine::from_directory(&directory, &mut CellIds::new()).unwrap();
    engine.resolve().unwrap();
    assert!(matches!(engine.reorganize(), Err(ArchiveError::Invariant)));
    let unresolved = PackagedEngine::from_directory(&sample(false), &mut CellIds::new()).unwrap();
    assert!(matches!(PackagedWriter::from_engine(unresolved), Err(ArchiveError::Invariant)));
}

#[test]
fn to_memory_counts_the_parts() {
    let writer = PackagedWriter::from_engine(resolved(true)).unwrap();
    let mut out = vec![0xAA];
    let results = writer.to_memory(&mut out).unwrap();
    assert_eq!(
        results,
        ToMemoryResults {
            packaged_info_len: 3,
            group_info_len: 1,
            version_info_len: 2,
            packaged_descriptor_len: 3,
            group_descriptor_len: 1,
            version_descriptor_len: 2,
            packaged_data_len: 3,
            group_data_len: 1,
            version_data_len: 2,
            metadata_group_len: 1,
            info_group_len: 1,
            version_group_len: 1,
        }
    );
    assert_eq!(out[0], 0xAA);
    // The lookup of the paths: three keys in two buckets.
    assert_eq!(&out[1..9], &[3, 0, 0, 0, 2, 0, 0, 0]);
    let directory = sample(true);
    let mut expected = Vec::new();
    le32(&mut expected, &[3, 2]);
    let hashes: Vec<u64> = (0..3usize).map(|i| hash_of(&file_name(i)).0).collect();
    let even = hashes.iter().filter(|hash| *hash % 2 == 0).count() as u32;
    le32(&mut expected, &[0, even, even, 3 - even]);
    expected.extend_from_slice(&directory.path_keys);
    expected.extend_from_slice(&directory.paths);
    expected.extend_from_slice(&directory.links);
    expected.extend_from_slice(&directory.package_keys);
    expected.extend_from_slice(&directory.packages);
    expected.extend_from_slice(&directory.groups);
    expected.extend_from_slice(&directory.child_packages);
    expected.extend_from_slice(&directory.infos);
    expected.extend_from_slice(&directory.descriptors);
    expected.extend_from_slice(&directory.metadatas);
    expected.extend_from_slice(&directory.version_info);
    assert_eq!(&out[1..], &expected[..]);
}

#[test]
fn package_skip_is_written_from_the_start_of_the_info_groups() {
    let mut makers = PackagedMakers::new();
    for slot in 0..6 {
        makers.infos.push(TableCell::from_slot(10 + slot));
    }
    let args = DescriptorLoadArguments::PackageSkip {
        info: TableReference::Resolved(TableCell::from_slot(15)),
    };
    assert_eq!(args.to_bits(&makers, 3), Some((0x03 << 24) | (5 - 3)));
    assert_eq!(args.to_bits(&makers, 0), Some((0x03 << 24) | 5));
    assert_eq!(args.to_bits(&makers, 6), None);
    assert_eq!(
        DescriptorLoadArguments::from_bits(0x0300_0002),
        Some(DescriptorLoadArguments::PackageSkip { info: TableReference::Unresolved(2) })
    );
    let missing = DescriptorLoadArguments::PackageSkip {
        info: TableReference::Resolved(TableCell::from_slot(99)),
    };
    assert_eq!(missing.to_bits(&makers, 0), None);
}

#[test]
fn package_skip_in_a_package_info_round_trips() {
    let mut directory = sample(true);
    // The second info of the package shares the link of the first and skips to the info 5.
    directory.infos[0x10 + 4..0x10 + 8].copy_from_slice(&0u32.to_le_bytes());
    directory.paths[0x20..0x28].copy_from_slice(&key(hash_of(&file_name(1)), 0).to_le_bytes());
    directory.descriptors[12 + 8..12 + 12].copy_from_slice(&0x0300_0002u32.to_le_bytes());
    let mut engine = PackagedEngine::from_directory(&directory, &mut CellIds::new()).unwrap();
    engine.resolve().unwrap();
    assert_eq!(
        engine.cells.descriptors.cells[1].load_args,
        DescriptorLoadArguments::PackageSkip { info: TableReference::Resolved(TableCell::from_slot(5)) }
    );
    let writer = PackagedWriter::from_engine(engine).unwrap();
    let info = writer.tables.infos.get_index(&TableCell::from_slot(5)) as usize;
    assert_eq!(info, 5);
    assert_eq!(writer.info_group_info_start, 3);
    let written = writer.to_directory().unwrap();
    let word = u32::from_le_bytes(written.descriptors[12 + 8..12 + 12].try_into().unwrap());
    assert_eq!(word, (0x03 << 24) | (info - writer.info_group_info_start) as u32);
    let mut out = Vec::new();
    writer.to_memory(&mut out).unwrap();
}

#[test]
fn load_arguments_by_tag() {
    let unresolved = TableReference::Unresolved(0x12_3456);
    assert_eq!(
        DescriptorLoadArguments::from_bits(0x0012_3456),
        Some(DescriptorLoadArguments::Unowned { link: unresolved })
    );
    assert_eq!(
        DescriptorLoadArguments::from_bits(0x0112_3456),
        Some(DescriptorLoadArguments::Owned {
            patch: DescriptorLoadArgumentsPatchReference::Unresolved(0x12_3456)
        })
    );
    assert_eq!(DescriptorLoadArguments::from_bits(0x0500_0000), Some(DescriptorLoadArguments::Unknown));
    assert_eq!(
        DescriptorLoadArguments::from_bits(0x0912_3456),
        Some(DescriptorLoadArguments::SharedButOwned { link: unresolved })
    );
    assert_eq!(
        DescriptorLoadArguments::from_bits(0x1000_0007),
        Some(DescriptorLoadArguments::UnsupportedRegion { region_locale: 7 })
    );
    for tag in [0x02u32, 0x04, 0x06, 0x08, 0x0A, 0x11, 0xFF] {
        assert_eq!(DescriptorLoadArguments::from_bits(tag << 24), None);
    }
    let makers = PackagedMakers::new();
    assert_eq!(DescriptorLoadArguments::Unknown.to_bits(&makers, 0), Some(0x0500_0000));
    assert_eq!(DescriptorLoadArguments::new().to_bits(&makers, 0), Some(0x0100_0000));
    assert_eq!(
        DescriptorLoadArguments::UnsupportedRegion { region_locale: 7 }.to_bits(&makers, 0),
        Some(0x1000_0007)
    );
    assert_eq!(DescriptorLoadArguments::Unowned { link: unresolved }.to_bits(&makers, 0), None);
}

#[test]
fn package_group_count_follows_the_flags() {
    for (flags, count) in [(0u32, 1usize), (1 << 25, 6), (1 << 24, 15), ((1 << 24) | (1 << 25), 15), (1 << 26, 1)] {
        let mut bytes = Vec::new();
        le64(&mut bytes, &[key(Hash40(1), 7), 2, 3, 4]);
        le32(&mut bytes, &[10, 2, 20, 3, flags]);
        let package = Package::parse(&bytes, 0).unwrap();
        match &package.groups.0 {
            TableReferenceSet::Unresolved(range) => assert_eq!(range.clone(), 7..7 + count),
            TableReferenceSet::Resolved(_) => panic!("a package that was read is not resolved"),
        }
        assert_eq!(package.is_localized, flags & (1 << 24) != 0);
        assert_eq!(package.is_regional, flags & (1 << 25) != 0);
        assert_eq!(package.has_sub_package, flags & (1 << 26) != 0);
        let mut package = package;
        let table: Vec<TableCell> = (0..40).map(TableCell::from_slot).collect();
        assert!(package.can_resolve(40, 40, 40));
        package.resolve(&table, &table, &table);
        assert_eq!(package.groups.0.len(), count);
        assert_eq!(package.infos.0.len(), 2);
        assert_eq!(package.child_packages.0.len(), 3);
    }
}

#[test]
fn info_descriptor_count_follows_the_flags() {
    for (flags, count) in [(0x10u32, 1usize), (1 << 16, 6), (1 << 15, 15), ((1 << 15) | (1 << 16), 15)] {
        let mut bytes = vec![0xFF; 3];
        le32(&mut bytes, &[1, 2, 5, flags]);
        let mut info = Info::parse(&bytes, 3).unwrap();
        let table: Vec<TableCell> = (0..20).map(TableCell::from_slot).collect();
        assert!(info.can_resolve(20, 20, 20));
        assert!(!info.can_resolve(20, 20, 5));
        info.resolve(&table, &table, &table);
        assert_eq!(info.descriptors.0.len(), count);
        assert_eq!(info.descriptors.0.get(0), TableCell::from_slot(5));
        assert_eq!(info.is_regular_file, flags & 0x10 != 0);
    }
    assert_eq!(Info::repr_size(), 0x10);
    assert_eq!(Package::repr_size(), 0x34);
    assert_eq!(Group::repr_size(), 0x1C);
    assert_eq!(Path::repr_size(), 0x20);
    assert_eq!(Link::repr_size(), 0x8);
    assert_eq!(Descriptor::repr_size(), 0xC);
    assert_eq!(Metadata::repr_size(), 0x10);
}

#[test]
fn invalid_index_reads_as_no_reference() {
    let mut bytes = Vec::new();
    le64(&mut bytes, &[key(Hash40(1), 2), key(Hash40(3), 0x00FF_FFFF), 4, 5]);
    let path = Path::parse(&bytes, 0).unwrap();
    assert_eq!(path.versioned_file, PathVersionedFileReference::Absent);
    assert_eq!(path.link, TableReference::Unresolved(2));
    let mut makers = PackagedMakers::new();
    makers.links.push(TableCell::from_slot(0));
    let mut resolved = path;
    resolved.link = TableReference::Resolved(TableCell::from_slot(0));
    let mut out = Vec::new();
    assert!(resolved.write(&mut out, &makers, 0));
    assert_eq!(&out[8..16], &key(Hash40(3), 0x00FF_FFFF).to_le_bytes());
    assert_eq!(Path::parse(&out, 0).unwrap().versioned_file, PathVersionedFileReference::Absent);

    let mut bytes = Vec::new();
    le32(&mut bytes, &[1, 0x00FF_FFFF, 0x0500_0000]);
    let descriptor = Descriptor::parse(&bytes, 0).unwrap();
    assert_eq!(descriptor.metadata, DescriptorMetadataReference::Absent);
    makers.groups.push(TableCell::from_slot(0));
    let mut resolved = descriptor;
    resolved.group = TableReference::Resolved(TableCell::from_slot(0));
    let mut out = Vec::new();
    assert!(resolved.write(&mut out, &makers, 0));
    assert_eq!(out, vec![0, 0, 0, 0, 0xFF, 0xFF, 0xFF, 0, 0, 0, 0, 5]);

    let mut bytes = Vec::new();
    le64(&mut bytes, &[0]);
    le32(&mut bytes, &[0, 0, 0, 0, 0x00FF_FFFF]);
    assert_eq!(Group::parse(&bytes, 0).unwrap().sub_package, GroupSubPackageReference::Absent);
    assert_eq!(INVALID_INDEX, 0x00FF_FFFF);
}

#[test]
fn metadata_flags_round_trip() {
    for flags in 0..16u32 {
        let mut bytes = Vec::new();
        le32(&mut bytes, &[1, 2, 3, flags]);
        let metadata = Metadata::parse(&bytes, 0).unwrap();
        assert_eq!(metadata.is_standard_zstd, flags & 1 != 0);
        assert_eq!(metadata.is_compressed, flags & 2 != 0);
        assert_eq!(metadata.is_regional_versioned_data, flags & 4 != 0);
        assert_eq!(metadata.is_localized_versioned_data, flags & 8 != 0);
        let mut out = Vec::new();
        metadata.write(&mut out);
        assert_eq!(out, bytes);
    }
}

#[test]
fn path_from_str_hashes_the_parts() {
    let path = Path::from_str("fighter/mario/model.nutexb").unwrap();
    assert_eq!(path.full_path, hash_of("fighter/mario/model.nutexb"));
    assert_eq!(path.parent, hash_of("fighter/mario"));
    assert_eq!(path.file_name, hash_of("model.nutexb"));
    assert_eq!(path.extension, hash_of("nutexb"));
    assert_eq!(path.link, TableReference::invalid());
    assert_eq!(path.versioned_file, PathVersionedFileReference::Absent);
    assert!(path.has_graphics_archive_extension());
    assert!(!Path::from_str("a/b.bin").unwrap().has_graphics_archive_extension());
    assert_eq!(Path::from_str("top.arc").unwrap().parent, hash_of(""));
}

#[test]
fn path_from_str_names_the_missing_part() {
    assert_eq!(Path::from_str("/"), Err(PathFromStrError::MissingParent));
    assert_eq!(Path::from_str(""), Err(PathFromStrError::MissingParent));
    assert_eq!(Path::from_str("a/.."), Err(PathFromStrError::MissingFileName));
    assert_eq!(Path::from_str("a/b"), Err(PathFromStrError::MissingExtension));
    assert_eq!(Path::from_str("a/.hidden"), Err(PathFromStrError::MissingExtension));
    assert_eq!(PathFromStrError::MissingParent.message(), "Path should have a valid parent");
    assert_eq!(PathFromStrError::MissingFileName.message(), "Path should have a file-name");
    assert_eq!(PathFromStrError::MissingExtension.message(), "Path should have an extension");
    assert_eq!(
        Path::from_hashes(Hash40(1), None, None, None),
        Err(PathFromStrError::MissingParent)
    );
    assert_eq!(
        Path::from_hashes(Hash40(1), Some(Hash40(2)), None, None),
        Err(PathFromStrError::MissingFileName)
    );
    assert_eq!(
        Path::from_hashes(Hash40(1), Some(Hash40(2)), Some(Hash40(3)), None),
        Err(PathFromStrError::MissingExtension)
    );
}

#[test]
fn read_table_wants_whole_records() {
    let mut bytes = Vec::new();
    le32(&mut bytes, &[1, 2, 3, 4]);
    let links: Vec<Link> = read_table(&bytes).unwrap();
    assert_eq!(links.len(), 2);
    assert_eq!(links[1].owner, LinkOwnerReference::Unresolved(3));
    assert_eq!(links[1].info, TableReference::Unresolved(4));
    bytes.push(0);
    assert!(matches!(read_table::<Link>(&bytes), Err(ArchiveError::Format)));
    assert_eq!(read_table::<Link>(&[]).unwrap().len(), 0);
}

#[test]
fn spans_and_references_find_their_index() {
    let mut makers = PackagedMakers::new();
    makers.infos.push(TableCell::from_slot(5));
    makers.infos.push(TableCell::from_slot(6));
    let mut set = TableContiguousReference::invalid();
    assert_eq!(find_span(&makers.infos, &set), None);
    set.0.replace(vec![TableCell::from_slot(6), TableCell::from_slot(5)]);
    assert_eq!(find_span(&makers.infos, &set), Some((1, 2)));
    set.0.clear();
    assert_eq!(find_span(&makers.infos, &set), Some((0, 0)));
    assert_eq!(find_reference(&makers.infos, &TableReference::Resolved(TableCell::from_slot(6))), Some(1));
    assert_eq!(find_reference(&makers.infos, &TableReference::Resolved(TableCell::from_slot(7))), None);
    assert_eq!(find_reference(&makers.infos, &TableReference::Unresolved(0)), None);
}

fn stream_sample() -> StreamDirectory {
    let regional = hash_of("stream:/sound/bgm.nus3audio");
    let plain = hash_of("stream:/movie/intro.webm");
    let mut folders = Vec::new();
    le64(&mut folders, &[key(hash_of("stream:"), 2)]);
    le32(&mut folders, &[0]);
    let mut paths = Vec::new();
    le64(&mut paths, &[key(regional, 0)]);
    le32(&mut paths, &[2]);
    le64(&mut paths, &[key(plain, 5)]);
    le32(&mut paths, &[0]);
    let mut links = Vec::new();
    le32(&mut links, &[0, 1, 0, 2, 1, 3]);
    let mut metadatas = Vec::new();
    le64(&mut metadatas, &[0x100, 0x1000, 0x200, 0x2000, 0x300, 0x3000, 0x400, 0x4000]);
    let mut sorted = vec![(regional.0, 0u64), (plain.0, 1u64)];
    sorted.sort();
    let mut path_keys = Vec::new();
    for pair in sorted {
        le64(&mut path_keys, &[pair.0 | (pair.1 << 40)]);
    }
    StreamDirectory { folders, paths, links, metadatas, path_keys }
}

fn stream_resolved() -> StreamEngine {
    let mut engine = StreamEngine::from_directory(&stream_sample(), &mut CellIds::new()).unwrap();
    engine.resolve().unwrap();
    engine
}

#[test]
fn stream_path_with_flag_two_and_five_links_round_trips() {
    let first = stream_sample();
    let engine = stream_resolved();
    let path = engine.get_path(hash_of("stream:/sound/bgm.nus3audio")).unwrap();
    assert!(path.is_regional);
    assert!(!path.is_localized);
    assert_eq!(path.links.0.len(), 5);
    assert_eq!(path.links.0.iter(), (0..5).map(TableCell::from_slot).collect::<Vec<_>>());
    let writer = StreamWriter::from_engine(engine).unwrap();
    let second = writer.to_directory().unwrap();
    assert_eq!(second.folders, first.folders);
    assert_eq!(second.paths, first.paths);
    assert_eq!(second.links, first.links);
    assert_eq!(second.metadatas, first.metadatas);
    assert_eq!(second.path_keys, first.path_keys);
    assert_eq!(&second.paths[8..12], &[2, 0, 0, 0]);
    let mut memory = Vec::new();
    writer.to_memory(&mut memory).unwrap();
    let mut expected = first.folders.clone();
    expected.extend_from_slice(&first.path_keys);
    expected.extend_from_slice(&first.paths);
    expected.extend_from_slice(&first.links);
    expected.extend_from_slice(&first.metadatas);
    assert_eq!(memory, expected);
}

#[test]
fn stream_link_count_follows_the_flag() {
    for (flags, count) in [(0u32, Some(1usize)), (1, Some(14)), (2, Some(5)), (3, None), (4, None), (0xFFFF_FFFF, None)] {
        let mut bytes = Vec::new();
        le64(&mut bytes, &[key(Hash40(9), 3)]);
        le32(&mut bytes, &[flags]);
        match (StreamPath::parse(&bytes, 0), count) {
            (Some(mut path), Some(count)) => {
                let table: Vec<TableCell> = (0..20).map(TableCell::from_slot).collect();
                assert!(path.can_resolve(20));
                path.resolve(&table);
                assert_eq!(path.links.0.len(), count);
                assert_eq!(path.links.0.get(0), TableCell::from_slot(3));
                assert_eq!(path.is_localized, flags == 1);
                assert_eq!(path.is_regional, flags == 2);
            },
            (None, None) => {},
            _ => panic!("the flag word {} was read wrongly", flags),
        }
    }
    let mut directory = stream_sample();
    directory.paths[8] = 3;
    assert!(matches!(StreamEngine::from_directory(&directory, &mut CellIds::new()), Err(ArchiveError::Format)));
}

#[test]
fn stream_metadata_is_shared_between_links() {
    let engine = stream_resolved();
    assert_eq!(engine.cells.links.cells[2], StreamLink { metadata: TableReference::Resolved(TableCell::from_slot(0)) });
    assert_eq!(engine.cells.metadatas.cells[3], StreamMetadata { size: 0x400, offset: 0x4000 });
    let mut shuffled = stream_resolved();
    shuffled.metadatas.reverse();
    shuffled.links.reverse();
    let engine = shuffled.reorganize().unwrap();
    assert_eq!(engine.metadatas, (0..4).map(TableCell::from_slot).collect::<Vec<_>>());
    assert_eq!(engine.links, (0..6).map(TableCell::from_slot).collect::<Vec<_>>());
}

#[test]
fn stream_resolve_and_reorganize_fail_on_broken_tables() {
    let mut directory = stream_sample();
    directory.links[0] = 9;
    let mut engine = StreamEngine::from_directory(&directory, &mut CellIds::new()).unwrap();
    assert_eq!(engine.resolve(), Err(ArchiveError::Format));
    let unresolved = StreamEngine::from_directory(&stream_sample(), &mut CellIds::new()).unwrap();
    assert!(matches!(unresolved.reorganize(), Err(ArchiveError::Invariant)));
    let mut twice = stream_resolved();
    twice.folders.push(TableCell::from_slot(0));
    assert!(matches!(twice.reorganize(), Err(ArchiveError::Invariant)));
    let mut again = stream_resolved();
    assert_eq!(again.resolve(), Ok(()));
    assert_eq!(again.cells.paths.cells[0].links.0.len(), 5);
    again.get_path_mut(hash_of("stream:/movie/intro.webm")).unwrap().is_localized = true;
    assert!(again.get_path(hash_of("stream:/movie/intro.webm")).unwrap().is_localized);
    assert!(again.get_path(hash_of("stream:/nothing")).is_none());
}

fn search_sample() -> SearchDirectory {
    let mut folders = Vec::new();
    le64(&mut folders, &[key(hash_of("/"), 1), key(hash_of(""), 1), hash_of("/").0]);
    le32(&mut folders, &[0, 0]);
    le64(&mut folders, &[key(hash_of("a"), 0), key(hash_of(""), 1), hash_of("a").0]);
    le32(&mut folders, &[2, 0]);
    let mut paths = Vec::new();
    le64(&mut paths, &[key(hash_of("a"), 1), key(hash_of(""), 0x40_0000), hash_of("a").0, hash_of("").0]);
    le64(
        &mut paths,
        &[key(hash_of("top.txt"), 0x00FF_FFFF), key(hash_of(""), 0), hash_of("top.txt").0, hash_of("txt").0],
    );
    le64(
        &mut paths,
        &[key(hash_of("a/x.bin"), 0x00FF_FFFF), key(hash_of("a"), 0), hash_of("x.bin").0, hash_of("bin").0],
    );
    let mut path_links = Vec::new();
    le32(&mut path_links, &[0, 1, 2]);
    let mut folder_list = vec![(hash_of("/").0, 0u64), (hash_of("a").0, 1u64)];
    folder_list.sort();
    let mut folder_keys = Vec::new();
    for pair in folder_list {
        le64(&mut folder_keys, &[pair.0 | (pair.1 << 40)]);
    }
    let mut path_list = vec![(hash_of("a").0, 0u64), (hash_of("top.txt").0, 1), (hash_of("a/x.bin").0, 2)];
    path_list.sort();
    let mut path_keys = Vec::new();
    for pair in path_list {
        le64(&mut path_keys, &[pair.0 | (pair.1 << 40)]);
    }
    SearchDirectory { folders, paths, path_links, folder_keys, path_keys }
}

fn search_resolved() -> SearchEngine {
    let mut engine = SearchEngine::from_directory(&search_sample(), &mut CellIds::new()).unwrap();
    engine.resolve().unwrap();
    engine
}

#[test]
fn search_round_trips_through_a_directory() {
    let first = search_sample();
    let engine = search_resolved();
    let root = engine.get_folder(hash_of("/")).unwrap();
    assert_eq!(root.children.0.iter(), vec![TableCell::from_slot(0), TableCell::from_slot(1)]);
    assert_eq!(root.file_count, 1);
    assert_eq!(root.folder_count, 1);
    let folder = engine.get_path(hash_of("a")).unwrap();
    assert!(folder.is_folder());
    assert_eq!(folder.folder, SearchPathFolderReference::Folder(TableCell::from_slot(1)));
    assert_eq!(folder.next, SearchPathNextReference::Path(TableCell::from_slot(1)));
    let file = engine.get_path(hash_of("a/x.bin")).unwrap();
    assert!(!file.is_folder());
    assert_eq!(file.next, SearchPathNextReference::Absent);
    assert_eq!(file.parent, hash_of("a"));
    let writer = SearchWriter::from_engine(engine).unwrap();
    let second = writer.to_directory().unwrap();
    assert_eq!(second.folders, first.folders);
    assert_eq!(second.paths, first.paths);
    assert_eq!(second.path_links, first.path_links);
    assert_eq!(second.folder_keys, first.folder_keys);
    assert_eq!(second.path_keys, first.path_keys);
    let mut memory = Vec::new();
    writer.to_memory(&mut memory).unwrap();
    let mut expected = first.folder_keys.clone();
    expected.extend_from_slice(&first.folders);
    expected.extend_from_slice(&first.path_keys);
    expected.extend_from_slice(&first.path_links);
    expected.extend_from_slice(&first.paths);
    assert_eq!(memory, expected);
}

#[test]
fn search_folder_without_children_is_written_with_the_invalid_index() {
    let mut directory = search_sample();
    directory.folders[0x20 + 24..0x20 + 28].copy_from_slice(&0x00FF_FFFFu32.to_le_bytes());
    directory.folders[0x20 + 8..0x20 + 16].copy_from_slice(&key(hash_of(""), 0).to_le_bytes());
    directory.paths.truncate(2 * 0x20);
    let mut engine = SearchEngine::from_directory(&directory, &mut CellIds::new()).unwrap();
    engine.resolve().unwrap();
    assert!(engine.get_folder(hash_of("a")).unwrap().children.0.is_empty());
    let written = SearchWriter::from_engine(engine).unwrap().to_directory().unwrap();
    assert_eq!(&written.folders[0x20 + 24..0x20 + 28], &[0xFF, 0xFF, 0xFF, 0x00]);
    assert_eq!(written.paths.len(), 2 * 0x20);
    let record = SearchPath::parse(&written.paths, 0x20).unwrap();
    assert_eq!(record.next, SearchPathNextReference::Absent);
    assert_eq!(record.folder, SearchPathFolderReference::Absent);
    assert_eq!(SearchFolder::repr_size(), 0x20);
}

#[test]
fn search_resolve_rejects_broken_lists() {
    let mut directory = search_sample();
    // The second path names the first as its next: the list of the root never ends.
    directory.paths[0x20..0x28].copy_from_slice(&key(hash_of("top.txt"), 0).to_le_bytes());
    let mut engine = SearchEngine::from_directory(&directory, &mut CellIds::new()).unwrap();
    assert_eq!(engine.resolve(), Err(ArchiveError::Format));
    let mut directory = search_sample();
    directory.paths[0..8].copy_from_slice(&key(hash_of("b"), 1).to_le_bytes());
    let mut engine = SearchEngine::from_directory(&directory, &mut CellIds::new()).unwrap();
    assert_eq!(engine.resolve(), Err(ArchiveError::Format));
    let mut directory = search_sample();
    directory.paths.pop();
    assert!(matches!(SearchEngine::from_directory(&directory, &mut CellIds::new()), Err(ArchiveError::Format)));
    let mut again = search_resolved();
    assert_eq!(again.resolve(), Ok(()));
    assert_eq!(again.get_folder(hash_of("/")).unwrap().children.0.len(), 2);
}

#[test]
fn search_add_file_makes_the_folders_on_the_way() {
    let mut engine = search_resolved();
    let path = engine.add_file("a/b/c.bin", &mut CellIds::new()).unwrap();
    let record = path.get(&engine.cells.paths);
    assert_eq!(record.full_path, hash_of("a/b/c.bin"));
    assert_eq!(record.parent, hash_of("a/b"));
    assert_eq!(record.name, hash_of("c.bin"));
    assert_eq!(record.extension, hash_of("bin"));
    assert!(!record.is_folder());
    assert_eq!(engine.cells.folders.len(), 3);
    let made = engine.get_folder(hash_of("a/b")).unwrap();
    assert_eq!(made.name, hash_of("b"));
    assert_eq!(made.parent, hash_of("a"));
    assert_eq!(made.children.0.iter(), vec![path]);
    assert_eq!(made.file_count, 1);
    assert_eq!(made.folder_count, 0);
    let made_path = engine.get_path(hash_of("a/b")).unwrap();
    assert!(made_path.is_folder());
    assert_eq!(made_path.extension, hash_of(""));
    assert_eq!(made_path.name, hash_of("b"));
    let outer = engine.get_folder(hash_of("a")).unwrap();
    assert_eq!(outer.children.0.len(), 2);
    assert_eq!(outer.folder_count, 1);
    assert_eq!(outer.file_count, 1);
    assert_eq!(
        engine.get_path(hash_of("a/x.bin")).unwrap().next,
        SearchPathNextReference::Path(outer.children.0.get(1))
    );
    assert!(engine.get_path(hash_of("a/b/c.bin")).is_some());

    let second = engine.add_file("fresh/dir/file.bin", &mut CellIds::new()).unwrap();
    assert!(engine.get_folder(hash_of("fresh")).is_some());
    assert!(engine.get_folder(hash_of("fresh/dir")).is_some());
    assert!(engine.get_path(hash_of("fresh")).unwrap().is_folder());
    assert!(engine.get_path(hash_of("fresh/dir")).unwrap().is_folder());
    assert_eq!(engine.get_folder(hash_of("fresh/dir")).unwrap().children.0.iter(), vec![second]);
    assert_eq!(engine.get_folder(hash_of("/")).unwrap().children.0.len(), 3);
    assert_eq!(engine.get_folder(hash_of("/")).unwrap().folder_count, 2);

    let engine = engine.reorganize().unwrap();
    let writer = SearchWriter::from_engine(engine).unwrap();
    assert_eq!(writer.tables.folders.len(), 5);
    assert_eq!(writer.tables.paths.len(), 8);
    let written = writer.to_directory().unwrap();
    let mut again = SearchEngine::from_directory(&written, &mut CellIds::new()).unwrap();
    again.resolve().unwrap();
    assert_eq!(again.get_folder(hash_of("a/b")).unwrap().children.0.len(), 1);
    assert_eq!(again.get_path(hash_of("a/b/c.bin")).unwrap().parent, hash_of("a/b"));
}

#[test]
fn search_add_file_rejects_a_folder_and_a_missing_root() {
    let mut engine = search_resolved();
    assert_eq!(engine.add_file("a", &mut CellIds::new()), Err(ArchiveError::Invariant));
    assert_eq!(engine.add_file("", &mut CellIds::new()), Err(ArchiveError::Invariant));
    let mut rootless = SearchEngine::from_directory(&SearchDirectory {
        folders: Vec::new(),
        paths: Vec::new(),
        path_links: Vec::new(),
        folder_keys: Vec::new(),
        path_keys: Vec::new(),
    }, &mut CellIds::new())
    .unwrap();
    assert_eq!(rootless.add_file("a/b.bin", &mut CellIds::new()), Err(ArchiveError::Invariant));
    let mut changed = search_resolved();
    changed.get_folder_mut(hash_of("a")).unwrap().file_count = 9;
    assert_eq!(changed.get_folder(hash_of("a")).unwrap().file_count, 9);
    changed.get_path_mut(hash_of("top.txt")).unwrap().extension = Hash40(1);
    assert_eq!(changed.get_path(hash_of("top.txt")).unwrap().extension, Hash40(1));
}

fn regions() -> Vec<(u32, u32, u32)> {
    (0..14u32).map(|i| (0x1000 + i, 0x2000 + i, i % 5)).collect()
}

fn archive_sample(patched: bool) -> Archive {
    Archive {
        file_section_offset: 0x0123_4567_89AB,
        packaged_fs: resolved(patched),
        search_fs: search_resolved(),
        stream_fs: stream_resolved(),
        version: Version::new(13, 0, 2),
        region_lookup_table: regions(),
    }
}

fn archive_bytes(patched: bool) -> (Vec<u8>, usize, usize) {
    let mut bytes = Vec::new();
    ArchiveHeader {
        stream_data_start: 0x100,
        file_data_start: 0x0123_4567_89AB,
        shared_file_data_start: 0x300,
        non_user_tables_ptr: 0,
        user_tables_ptr: 0,
    }
    .write(&mut bytes);
    bytes.extend_from_slice(&[0xEE; 5]);
    let (non_user, user) = archive_sample(patched).write_tables(&mut bytes).unwrap();
    bytes[32..40].copy_from_slice(&(non_user as u64).to_le_bytes());
    bytes[40..48].copy_from_slice(&(user as u64).to_le_bytes());
    (bytes, non_user, user)
}

#[test]
fn archive_round_trips_through_its_bytes() {
    for patched in [false, true] {
        let (bytes, non_user, user) = archive_bytes(patched);
        assert_eq!(non_user, 53);
        let mut archive = Archive::from_bytes(&bytes, &mut CellIds::new()).unwrap();
        assert_eq!(archive.file_section_offset, 0x0123_4567_89AB);
        assert_eq!(archive.version, Version::new(13, 0, 2));
        assert_eq!(archive.region_lookup_table, regions());
        assert_eq!(archive.packaged_fs.version, Version::new(13, 2, 3));
        assert_eq!(archive.packaged_fs.file_lookup.bucket_count(), 2);
        archive.resolve().unwrap();
        let expected = archive_sample(patched);
        assert_eq!(archive.packaged_fs.packages, expected.packaged_fs.packages);
        assert_eq!(archive.packaged_fs.groups, expected.packaged_fs.groups);
        assert_eq!(archive.packaged_fs.cells.paths.cells, expected.packaged_fs.cells.paths.cells);
        assert_eq!(archive.packaged_fs.cells.links.cells, expected.packaged_fs.cells.links.cells);
        assert_eq!(
            archive.packaged_fs.cells.descriptors.cells,
            expected.packaged_fs.cells.descriptors.cells
        );
        assert_eq!(
            archive.packaged_fs.cells.versioned_files.cells,
            expected.packaged_fs.cells.versioned_files.cells
        );
        assert_eq!(archive.search_fs.cells.paths.cells, expected.search_fs.cells.paths.cells);
        assert_eq!(archive.stream_fs.cells.links.cells, expected.stream_fs.cells.links.cells);
        assert_eq!(archive.stream_fs.cells.metadatas.cells, expected.stream_fs.cells.metadatas.cells);
        let archive = archive.reorganize().unwrap();
        let mut again = bytes[..53].to_vec();
        assert_eq!(archive.write_tables(&mut again), Ok((non_user, user)));
        assert_eq!(again, bytes);
    }
}

#[test]
fn archive_sections_hold_the_tables_of_the_directories() {
    let (bytes, non_user, user) = archive_bytes(true);
    let (header, first, second) = Archive::split(&bytes).unwrap();
    assert_eq!(header.non_user_tables_ptr, non_user as u64);
    assert_eq!(header.user_tables_ptr, user as u64);
    let section = decompress_data(first.0).unwrap();
    assert_eq!(section.len(), first.1);
    assert_eq!(&section[..4], &(section.len() as u32).to_le_bytes());
    let packaged = PackagedFsHeader::parse(&section, 4);
    assert_eq!(packaged.path_count, 3);
    assert_eq!(packaged.link_count, 6);
    assert_eq!(packaged.package_count, 1);
    assert_eq!(packaged.metadata_group_count, 1);
    assert_eq!(packaged.info_group_count, 1);
    assert_eq!(packaged.version_group_count, 1);
    assert_eq!(packaged.package_info_count, 3);
    assert_eq!(packaged.group_info_count, 1);
    assert_eq!(packaged.version_info_count, 2);
    assert_eq!(packaged.versioned_file_count, 2);
    assert_eq!(packaged.locale_count, 14);
    assert_eq!(packaged.region_count, 5);
    assert_eq!(packaged.version, Version::new(13, 0, 2));
    let stream = StreamFsHeader::parse(&section, 88 + 12 * 14);
    assert_eq!(stream, StreamFsHeader { folder_count: 1, path_count: 2, link_count: 6, metadata_count: 4 });
    let directory = stream_sample();
    assert_eq!(&section[0x110..0x110 + directory.folders.len()], &directory.folders[..]);
    let tables = ArchiveNonUserTables::parse(&section, &mut CellIds::new()).unwrap();
    assert_eq!(tables.region_lookup_table, regions());
    assert_eq!(tables.packaged.infos.len(), 6);
    assert_eq!(tables.stream.paths.len(), 2);

    let section = decompress_data(second.0).unwrap();
    assert_eq!(section.len(), second.1);
    assert_eq!(&section[..8], &(section.len() as u64).to_le_bytes());
    let search = SearchFsHeader::parse(&section, 8);
    assert_eq!(search, SearchFsHeader { folder_count: 2, path_link_count: 3, path_count: 3 });
    assert_eq!(&section[0x14..0x14 + 16], &search_sample().folder_keys[..]);
    let engine = parse_user_tables(&section, &mut CellIds::new()).unwrap();
    assert_eq!(engine.folders.len(), 2);
    assert_eq!(engine.paths.len(), 3);
}

#[test]
fn compressed_section_is_padded_to_eight_bytes() {
    let mut out = vec![1, 2, 3];
    write_section(&mut out, 1000, &[7u8; 13]);
    assert_eq!(out.len(), 3 + 16 + 16);
    assert_eq!(&out[3..7], &[0x10, 0, 0, 0]);
    assert_eq!(&out[7..11], &1000u32.to_le_bytes());
    assert_eq!(&out[11..15], &13u32.to_le_bytes());
    assert_eq!(&out[15..19], &16u32.to_le_bytes());
    assert_eq!(&out[19..32], &[7u8; 13]);
    assert_eq!(&out[32..35], &[0, 0, 0]);
    for (len, padded) in [(0usize, 0usize), (1, 8), (7, 8), (8, 8), (9, 16), (16, 16)] {
        let mut out = Vec::new();
        write_section(&mut out, 0, &vec![1u8; len]);
        assert_eq!(out.len(), 16 + padded);
        assert_eq!(&out[12..16], &(padded as u32).to_le_bytes());
    }

    let (bytes, non_user, user) = archive_bytes(true);
    let (header, start, end) = ArchiveTablesHeader::find(&bytes, non_user as u64).unwrap();
    assert_eq!(start, non_user + 16);
    assert_eq!(end - start, header.compressed_size as usize);
    let rounded = (header.compressed_size as usize + 7) / 8 * 8;
    assert_eq!(header.compressed_section_size as usize, rounded);
    assert_eq!(user, non_user + 16 + rounded);
    assert_eq!(&bytes[user..user + 4], &[0x10, 0, 0, 0]);
    assert!(bytes[end..user].iter().all(|byte| *byte == 0));
    let (second, _, second_end) = ArchiveTablesHeader::find(&bytes, user as u64).unwrap();
    assert_eq!(second.compressed_section_size as usize % 8, 0);
    assert_eq!(bytes.len(), user + 16 + second.compressed_section_size as usize);
    assert!(second_end <= bytes.len());
}

#[test]
fn archive_errors_by_kind() {
    let (bytes, non_user, user) = archive_bytes(false);
    let mut wrong = bytes.clone();
    wrong[0] ^= 1;
    assert!(matches!(Archive::from_bytes(&wrong, &mut CellIds::new()), Err(ArchiveError::BadMagic)));
    let mut wrong = bytes.clone();
    wrong[non_user] = 0x11;
    assert!(matches!(Archive::from_bytes(&wrong, &mut CellIds::new()), Err(ArchiveError::BadMagic)));
    let mut wrong = bytes.clone();
    wrong[user] = 0x11;
    assert!(matches!(Archive::from_bytes(&wrong, &mut CellIds::new()), Err(ArchiveError::BadMagic)));
    assert!(matches!(Archive::from_bytes(&bytes[..40], &mut CellIds::new()), Err(ArchiveError::Io)));
    assert!(matches!(Archive::from_bytes(&bytes[..non_user + 20], &mut CellIds::new()), Err(ArchiveError::Io)));
    assert!(matches!(Archive::from_bytes(&bytes[..user + 8], &mut CellIds::new()), Err(ArchiveError::Io)));
    let mut wrong = bytes.clone();
    wrong[32..40].copy_from_slice(&u64::MAX.to_le_bytes());
    assert!(matches!(Archive::from_bytes(&wrong, &mut CellIds::new()), Err(ArchiveError::Io)));
    let mut wrong = bytes.clone();
    for byte in &mut wrong[non_user + 16..non_user + 24] {
        *byte = 0x55;
    }
    assert!(matches!(Archive::from_bytes(&wrong, &mut CellIds::new()), Err(ArchiveError::Codec)));

    let mut garbage = bytes[..53].to_vec();
    let packed = compress_data(&[0u8; 40]).unwrap();
    write_section(&mut garbage, 40, &packed);
    let second = garbage.len();
    write_section(&mut garbage, 40, &packed);
    garbage[32..40].copy_from_slice(&53u64.to_le_bytes());
    garbage[40..48].copy_from_slice(&(second as u64).to_le_bytes());
    assert!(matches!(Archive::from_bytes(&garbage, &mut CellIds::new()), Err(ArchiveError::Format)));
    assert!(matches!(ArchiveNonUserTables::parse(&[0u8; 40], &mut CellIds::new()), Err(ArchiveError::Format)));
    assert!(matches!(parse_user_tables(&[0u8; 10], &mut CellIds::new()), Err(ArchiveError::Format)));
    assert!(matches!(parse_user_tables(&[0xFFu8; 40], &mut CellIds::new()), Err(ArchiveError::Format)));

    let mut broken = archive_sample(false);
    broken.stream_fs.folders.push(TableCell::from_slot(0));
    let mut out = vec![1, 2, 3];
    assert_eq!(broken.write_tables(&mut out), Err(ArchiveError::Invariant));
    assert_eq!(out, vec![1, 2, 3]);
}

struct Plain;

impl Decompressor for Plain {
    fn decompress(&self, data: &[u8]) -> Result<Vec<u8>, ArchiveError> {
        DefaultDecompressor.decompress(data)
    }

    fn decompress_with_size(&self, data: &[u8], size: usize) -> Result<Vec<u8>, ArchiveError> {
        if size == 0 {
            Err(ArchiveError::Codec)
        } else {
            DefaultDecompressor.decompress_with_size(data, size)
        }
    }
}

struct Failing;

impl Decompressor for Failing {
    fn decompress(&self, _data: &[u8]) -> Result<Vec<u8>, ArchiveError> {
        Err(ArchiveError::Io)
    }

    fn decompress_with_size(&self, _data: &[u8], _size: usize) -> Result<Vec<u8>, ArchiveError> {
        Err(ArchiveError::Io)
    }
}

#[test]
fn archive_reads_with_any_decompressor() {
    let (bytes, _, _) = archive_bytes(true);
    let archive = Archive::read(&bytes, &Plain, &mut CellIds::new()).unwrap();
    assert_eq!(archive.packaged_fs.patches.len(), 1);
    assert_eq!(archive.search_fs.folders.len(), 2);
    assert!(matches!(Archive::read(&bytes, &Failing, &mut CellIds::new()), Err(ArchiveError::Io)));
}

#[test]
fn archive_add_file_reaches_both_filesystems() {
    let mut archive = archive_sample(true);
    let info = archive.add_file("a/b/c.bin", "data", &mut CellIds::new()).unwrap();
    assert!(archive.search_fs.get_folder(hash_of("a")).is_some());
    assert!(archive.search_fs.get_folder(hash_of("a/b")).is_some());
    assert!(archive.search_fs.get_path(hash_of("a/b")).unwrap().is_folder());
    assert!(archive.search_fs.get_path(hash_of("a/b/c.bin")).is_some());
    assert!(archive.packaged_fs.has_file(hash_of("a/b/c.bin")));
    assert_eq!(archive.packaged_fs.file_lookup.get(hash_of("a/b/c.bin")), Some(&TableCell::from_slot(3)));
    assert!(info.get(&archive.packaged_fs.cells.infos).is_regular_file);
    assert_eq!(archive.add_file("a/b/c.bin", "data", &mut CellIds::new()), Err(ArchiveError::Invariant));
    assert_eq!(archive.add_file("z/y.bin", "nothing", &mut CellIds::new()), Err(ArchiveError::Invariant));

    let archive = archive.reorganize().unwrap();
    let mut bytes = Vec::new();
    ArchiveHeader {
        stream_data_start: 0,
        file_data_start: 7,
        shared_file_data_start: 0,
        non_user_tables_ptr: 48,
        user_tables_ptr: 0,
    }
    .write(&mut bytes);
    let (_, user) = archive.write_tables(&mut bytes).unwrap();
    bytes[40..48].copy_from_slice(&(user as u64).to_le_bytes());
    let mut again = Archive::from_bytes(&bytes, &mut CellIds::new()).unwrap();
    again.resolve().unwrap();
    assert!(again.packaged_fs.has_file(hash_of("a/b/c.bin")));
    assert_eq!(again.packaged_fs.get_package(hash_of("data")).unwrap().infos.0.len(), 4);
    assert_eq!(again.search_fs.get_folder(hash_of("a/b")).unwrap().children.0.len(), 1);
    assert_eq!(again.file_section_offset, 7);
}

#[test]
fn overlay_replaces_the_first_bytes() {
    assert_eq!(overlay(vec![1, 2], &[9, 9, 9, 9]), vec![1, 2, 9, 9]);
    assert_eq!(overlay(vec![1, 2, 3], &[9]), vec![1, 2, 3]);
    assert_eq!(overlay(vec![], &[9]), vec![9]);
    let mut header = Vec::new();
    ArchiveHeader {
        stream_data_start: 1,
        file_data_start: 2,
        shared_file_data_start: 3,
        non_user_tables_ptr: 4,
        user_tables_ptr: 5,
    }
    .write(&mut header);
    assert_eq!(header.len(), 48);
    assert_eq!(&header[..8], &0xABCD_EF98_7654_3210u64.to_le_bytes());
    let parsed = ArchiveHeader::parse(&header).unwrap();
    assert_eq!(parsed.file_data_start, 2);
    assert_eq!(parsed.user_tables_ptr, 5);
}

#[test]
fn stream_written_twice_is_the_same() {
    let mut engine = stream_resolved();
    // A table order that the walk has to mend: the links back to front.
    engine.links.reverse();
    let first = StreamWriter::from_engine(engine).unwrap().to_directory().unwrap();
    let mut again = StreamEngine::from_directory(&first, &mut CellIds::new()).unwrap();
    again.resolve().unwrap();
    let second = StreamWriter::from_engine(again.reorganize().unwrap()).unwrap().to_directory().unwrap();
    assert_eq!(second.folders, first.folders);
    assert_eq!(second.paths, first.paths);
    assert_eq!(second.links, first.links);
    assert_eq!(second.metadatas, first.metadatas);
    assert_eq!(second.path_keys, first.path_keys);
}

#[test]
fn search_written_twice_is_the_same() {
    let mut engine = search_resolved();
    engine.add_file("a/b/c.bin", &mut CellIds::new()).unwrap();
    let first = SearchWriter::from_engine(engine).unwrap().to_directory().unwrap();
    let mut again = SearchEngine::from_directory(&first, &mut CellIds::new()).unwrap();
    again.resolve().unwrap();
    let second = SearchWriter::from_engine(again.reorganize().unwrap()).unwrap().to_directory().unwrap();
    assert_eq!(second.folders, first.folders);
    assert_eq!(second.paths, first.paths);
    assert_eq!(second.path_links, first.path_links);
    assert_eq!(second.folder_keys, first.folder_keys);
    assert_eq!(second.path_keys, first.path_keys);
}

#[test]
fn packaged_written_twice_is_the_same() {
    for patched in [false, true] {
        let first = PackagedWriter::from_engine(resolved(patched)).unwrap().to_directory().unwrap();
        let mut again = PackagedEngine::from_directory(&first, &mut CellIds::new()).unwrap();
        again.resolve().unwrap();
        let second = PackagedWriter::from_engine(again.reorganize().unwrap()).unwrap().to_directory().unwrap();
        same_directory(&first, &second);
    }
}

#[test]
fn engines_share_the_counter_of_identifiers() {
    let mut ids = CellIds::new();
    let stream = StreamEngine::from_directory(&stream_sample(), &mut ids).unwrap();
    let after_stream = ids.next;
    assert_eq!(
        after_stream as usize,
        stream.cells.folders.len() + stream.cells.paths.len() + stream.cells.links.len()
            + stream.cells.metadatas.len()
    );
    let mut search = SearchEngine::from_directory(&search_sample(), &mut ids).unwrap();
    search.resolve().unwrap();
    let after_search = ids.next;
    assert_eq!(
        (after_search - after_stream) as usize,
        search.cells.folders.len() + search.cells.paths.len()
    );
    // The first folder of the search filesystem comes after every stream cell.
    assert_eq!(TableCell::from_slot(0).guid(&stream.cells.folders), 0);
    assert_eq!(TableCell::from_slot(0).guid(&search.cells.folders), after_stream);
    // Adding a file makes two folders with their paths and the path of the file.
    let path = search.add_file("x/y/z.bin", &mut ids).unwrap();
    assert_eq!(ids.next, after_search + 5);
    assert_eq!(path.guid(&search.cells.paths), after_search + 4);
    let folder = search.folder_lookup.get(&hash_of("x").0).copied().unwrap();
    assert_eq!(folder.guid(&search.cells.folders), after_search);
    // A counter that is used up is an error, and nothing changes.
    let mut full = CellIds { next: u64::MAX - 1 };
    assert!(matches!(
        StreamEngine::from_directory(&stream_sample(), &mut full),
        Err(ArchiveError::Invariant)
    ));
    assert_eq!(full.next, u64::MAX - 1);
    let folders = search.cells.folders.len();
    assert_eq!(search.add_file("p/q.bin", &mut full), Err(ArchiveError::Invariant));
    assert_eq!(search.cells.folders.len(), folders);
}

#[test]
fn search_add_file_that_fails_keeps_what_the_way_down_made() {
    let mut ids = CellIds::new();
    let mut engine = SearchEngine::from_directory(&search_sample(), &mut ids).unwrap();
    engine.resolve().unwrap();
    engine.add_file("m/n.bin", &mut ids).unwrap();
    let folders = engine.cells.folders.len();
    let paths = engine.cells.paths.len();
    let before = ids.next;
    // The path of the folder "m" cannot be added as a file: nothing is made.
    assert_eq!(engine.add_file("m", &mut ids), Err(ArchiveError::Invariant));
    assert_eq!((engine.cells.folders.len(), engine.cells.paths.len(), ids.next), (folders, paths, before));
    // The text "k/m" goes down into a new folder "k" and then names a file; adding
    // "k" as a file afterwards fails and leaves the folder that was made.
    engine.add_file("k/f.bin", &mut ids).unwrap();
    assert_eq!(engine.cells.folders.len(), folders + 1);
    assert_eq!(engine.add_file("k", &mut ids), Err(ArchiveError::Invariant));
    assert_eq!(engine.cells.folders.len(), folders + 1);
    assert!(engine.get_folder(hash_of("k")).is_some());
}

#[test]
fn add_path_takes_the_parsed_path() {
    let mut ids = CellIds::new();
    let mut engine = PackagedEngine::from_directory(&sample(false), &mut ids).unwrap();
    engine.resolve().unwrap();
    let before = ids.next;
    let path = Path::from_str("foo/bar.nutexb").unwrap();
    let info = engine.add_path(path, hash_of("data"), &mut ids).unwrap();
    assert_eq!(ids.next, before + 5);
    assert_eq!(info.guid(&engine.cells.infos), before + 4);
    assert!(engine.has_file(hash_of("foo/bar.nutexb")));
    assert_eq!(engine.add_path(path, hash_of("data"), &mut ids), Err(ArchiveError::Invariant));
    assert_eq!(ids.next, before + 5);
}

#[test]
fn step_into_takes_the_hashes() {
    let mut ids = CellIds::new();
    let mut engine = SearchEngine::from_directory(&search_sample(), &mut ids).unwrap();
    engine.resolve().unwrap();
    let root = engine.folder_lookup.get(&hash_of("/").0).copied().unwrap();
    let hashes = FolderHashes { full_path: hash_of("new"), parent: hash_of(""), name: hash_of("new") };
    let before = ids.next;
    let folder = engine.step_into(root, hashes, &mut ids).unwrap();
    assert_eq!(ids.next, before + 2);
    assert_eq!(engine.get_folder(hash_of("new")).unwrap().name, hash_of("new"));
    // A second step into the same name finds the folder and makes nothing.
    assert_eq!(engine.step_into(root, hashes, &mut ids), Some(folder));
    assert_eq!(ids.next, before + 2);
    let record = SearchPath {
        full_path: hash_of("new/leaf.bin"),
        parent: hash_of("new"),
        name: hash_of("leaf.bin"),
        extension: hash_of("bin"),
        folder: SearchPathFolderReference::Absent,
        next: SearchPathNextReference::Absent,
    };
    let leaf = engine.add_leaf(folder, record, &mut ids).unwrap();
    assert_eq!(engine.get_folder(hash_of("new")).unwrap().children.0.iter(), vec![leaf]);
    assert_eq!(engine.get_folder(hash_of("new")).unwrap().file_count, 1);
    assert_eq!(engine.add_leaf(TableCell::from_slot(999), record, &mut ids), None);
}
