//! The filesystems as they lie in the sections of the archive, written and
//! read back.
//!
//! The user section holds the search filesystem behind its header. What is read
//! from the section that was written is what is read from the tables of
//! the filesystem; so a section that is read, resolved, rebuilt and written
//! once more is the section that was read, byte for byte.
use vstd::prelude::*;

use crate::archive::{
    archive_of, archive_read, compressed_sections, framed_section, lemma_section_padding,
    rounded_up, skipped, stream_tables_decoded, taken, user_decoded, user_section,
    ArchiveHeader, ArchiveTablesHeader, SearchFsHeader, StreamFsHeader, ARCHIVE_MAGIC,
    TABLES_MAGIC,
};
use crate::bytes::{
    le32, le64, lemma_le_len, lemma_u32_round_trip, lemma_u64_round_trip, u32_at, zeros,
};
use crate::decompressed;
use crate::engines::identity_cells;
use crate::engines::packaged::bucket_map::ordered;
use crate::engines::round_trip::lemma_table_round_trip_at;
use crate::engines::rounds::lemma_key_bytes_len;
use crate::engines::search::canonical::{
    lemma_rebuilt_is_canonical, lemma_search_bytes_settle, lookups_agree, numbered,
};
use crate::engines::search::round_trip::{
    lemma_folders_read_back, lemma_paths_read_back, lemma_rebuilt_in_order,
    lemma_search_directory_read_back, lemma_search_round_trip, search_consistent,
    search_folder_read, search_path_read, search_read_back, search_writable,
};
use crate::engines::search::types::{SearchFolder, SearchPath};
use crate::engines::search::{
    fresh_search_model, path_link_bytes, search_directory_cells, search_folder_encoder,
    search_path_encoder, search_reorganized, SearchWriterModel,
};
use crate::engines::stream::round_trip::{
    folders_in_order, stream_folder_read, stream_metadata_read, stream_path_read,
    stream_read_back, stream_writable,
};
use crate::engines::round_trip::stream_link_read;
use crate::engines::stream::types::{StreamFolder, StreamLink, StreamMetadata, StreamPath};
use crate::engines::stream::{
    stream_folder_encoder, stream_link_encoder, stream_metadata_encoder, stream_path_encoder,
    StreamWriterModel,
};
use crate::engines::table::TableCell;
use crate::engines::TableRecord;
use crate::ArchiveError;

verus! {

/// Whether each lookup has one pair for each cell of its table.
pub open spec fn keys_cover(writer: SearchWriterModel) -> bool {
    &&& ordered(writer.folder_lookup).len() == writer.tables.folders.len()
    &&& ordered(writer.path_lookup).len() == writer.tables.paths.len()
}

/// Each link of a path takes four bytes.
pub proof fn lemma_path_link_bytes_len(upto: nat)
    ensures
        path_link_bytes(upto).len() == 4 * upto,
    decreases upto,
{
    if upto > 0 {
        lemma_path_link_bytes_len((upto - 1) as nat);
        lemma_le_len();
    }
}

/// The user section that is written for rebuilt tables is read back as the
/// engine of the records in the order of the tables, each with the indices
/// that stand for its cells.
pub proof fn lemma_user_section_read_back(writer: SearchWriterModel)
    requires
        search_writable(writer.tables, writer.cells),
        keys_cover(writer),
        writer.memory_bytes() is Some,
    ensures
        user_section(writer) matches Some(section) && user_decoded(section) == Some(
            fresh_search_model(search_read_back(writer.tables, writer.cells)),
        ),
{
    let t = writer.tables;
    let c = writer.cells;
    let folders = t.folders.len();
    let paths = t.paths.len();
    let folder_keys = writer.folder_key_bytes().unwrap();
    let folder_bytes = writer.folder_bytes().unwrap();
    let path_keys = writer.path_key_bytes().unwrap();
    let path_links = path_link_bytes(paths);
    let path_bytes = writer.path_bytes().unwrap();
    let search_bytes = writer.memory_bytes().unwrap();
    assert(search_bytes == folder_keys + folder_bytes + path_keys + path_links + path_bytes);
    let body = zeros(0x14) + search_bytes;
    let length = le64(body.len() as u64);
    let counts = SearchFsHeader {
        folder_count: folders as u32,
        path_link_count: paths as u32,
        path_count: paths as u32,
    };
    let section = user_section(writer).unwrap();
    lemma_le_len();
    assert(section =~= length + counts.encoded() + search_bytes);
    // The header.
    lemma_u32_round_trip(
        length,
        counts.folder_count,
        le32(counts.path_link_count) + le32(counts.path_count) + search_bytes,
    );
    assert(section =~= length + le32(counts.folder_count) + (le32(counts.path_link_count) + le32(
        counts.path_count,
    ) + search_bytes));
    lemma_u32_round_trip(
        length + le32(counts.folder_count),
        counts.path_link_count,
        le32(counts.path_count) + search_bytes,
    );
    assert(section =~= (length + le32(counts.folder_count)) + le32(counts.path_link_count) + (le32(
        counts.path_count,
    ) + search_bytes));
    lemma_u32_round_trip(
        length + le32(counts.folder_count) + le32(counts.path_link_count),
        counts.path_count,
        search_bytes,
    );
    assert(section =~= (length + le32(counts.folder_count) + le32(counts.path_link_count)) + le32(
        counts.path_count,
    ) + search_bytes);
    assert(SearchFsHeader::decoded(section, 8) == counts);
    // The parts.
    lemma_key_bytes_len(ordered(writer.folder_lookup), t.folders, ordered(writer.folder_lookup).len());
    lemma_key_bytes_len(ordered(writer.path_lookup), t.paths, ordered(writer.path_lookup).len());
    lemma_path_link_bytes_len(paths);
    let head = length + counts.encoded();
    lemma_folders_read_back(t, c);
    lemma_table_round_trip_at::<SearchFolder>(
        c.folders,
        t.folders,
        folders,
        search_folder_encoder(t),
        search_folder_read(t),
        head + folder_keys,
        path_keys + path_links + path_bytes,
    );
    assert(section =~= (head + folder_keys) + folder_bytes + (path_keys + path_links + path_bytes));
    lemma_paths_read_back(t, c);
    lemma_table_round_trip_at::<SearchPath>(
        c.paths,
        t.paths,
        paths,
        search_path_encoder(t),
        search_path_read(t),
        head + folder_keys + folder_bytes + path_keys + path_links,
        Seq::empty(),
    );
    assert(section =~= (head + folder_keys + folder_bytes + path_keys + path_links) + path_bytes
        + Seq::<u8>::empty());
    let first = 20 + 8 * folders;
    assert(skipped(section.len(), 20, counts.folder_count * 8) == Some(first as int));
    assert(folders * SearchFolder::width() == 0x20 * folders);
    let second = first + 0x20 * folders;
    assert(taken::<SearchFolder>(section, first as int, folders) == Some(
        (search_read_back(t, c).folders, second as int),
    ));
    let third = second + 12 * paths;
    assert(skipped(section.len(), second as int, counts.path_link_count * 0xC) == Some(
        third as int,
    ));
    assert(paths * SearchPath::width() == 0x20 * paths);
    assert(taken::<SearchPath>(section, third as int, paths) == Some(
        (search_read_back(t, c).paths, (third + 0x20 * paths) as int),
    ));
}

/// The user section is settled after one turn. Where the section that is
/// written for rebuilt tables is read, resolved, rebuilt and written once
/// more, the second section is the first, byte for byte.
pub proof fn lemma_user_section_settles(folders: Seq<TableCell>, writer: SearchWriterModel)
    requires
        search_reorganized(folders, writer.cells) == Some(writer.tables),
        search_writable(writer.tables, writer.cells),
        search_consistent(writer.tables, writer.cells),
        lookups_agree(writer),
        keys_cover(writer),
        writer.memory_bytes() is Some,
    ensures
        ({
            &&& user_section(writer) matches Some(section)
            &&& user_decoded(section) matches Some(read)
            &&& read.resolution() matches Some(resolved)
            &&& search_reorganized(read.tables.folders, resolved) matches Some(rebuilt)
            &&& user_section(
                SearchWriterModel {
                    folder_lookup: read.folder_lookup,
                    path_lookup: read.path_lookup,
                    tables: rebuilt,
                    cells: resolved,
                },
            ) == Some(section)
        }),
{
    let t = writer.tables;
    let c = writer.cells;
    lemma_user_section_read_back(writer);
    lemma_search_directory_read_back(writer);
    lemma_rebuilt_in_order(folders, c);
    lemma_search_round_trip(writer);
    lemma_rebuilt_is_canonical(folders, c);
    lemma_search_bytes_settle(folders, writer);
    let read = fresh_search_model(search_read_back(t, c));
    assert(read.tables.folders == identity_cells(folders.len()));
    let resolved = read.resolution().unwrap();
    let rebuilt = search_reorganized(read.tables.folders, resolved).unwrap();
    assert(rebuilt == numbered(t));
    let again = SearchWriterModel {
        folder_lookup: read.folder_lookup,
        path_lookup: read.path_lookup,
        tables: rebuilt,
        cells: resolved,
    };
    assert(again.directory() == writer.directory());
    assert(again.memory_bytes() == writer.memory_bytes());
}


/// The header that is written for the tables of a stream filesystem: the
/// number of cells of each.
pub open spec fn stream_counts(writer: StreamWriterModel) -> StreamFsHeader {
    StreamFsHeader {
        folder_count: writer.tables.folders.len() as u32,
        path_count: writer.tables.paths.len() as u32,
        link_count: writer.tables.links.len() as u32,
        metadata_count: writer.tables.metadatas.len() as u32,
    }
}

/// The stream filesystem that is written into a section is read back from
/// the place where it starts as the records in the order of the tables,
/// each with the ranges and indices that stand for its cells; what follows
/// it is read from the place where it ends.
pub proof fn lemma_stream_tables_read_back(
    writer: StreamWriterModel,
    before: Seq<u8>,
    after: Seq<u8>,
)
    requires
        folders_in_order(writer.tables, writer.cells),
        stream_writable(writer.tables, writer.cells),
        ordered(writer.path_lookup).len() == writer.tables.paths.len(),
        writer.memory_bytes() is Some,
    ensures
        stream_tables_decoded(
            before + writer.memory_bytes().unwrap() + after,
            before.len() as int,
            stream_counts(writer),
        ) == Some(
            (
                stream_read_back(writer.tables, writer.cells),
                (before.len() + writer.memory_bytes().unwrap().len()) as int,
            ),
        ),
{
    let t = writer.tables;
    let c = writer.cells;
    let folders = t.folders.len();
    let paths = t.paths.len();
    let links = t.links.len();
    let metadatas = t.metadatas.len();
    let folder_bytes = writer.folder_bytes().unwrap();
    let path_keys = writer.path_key_bytes().unwrap();
    let path_bytes = writer.path_bytes().unwrap();
    let link_bytes = writer.link_bytes().unwrap();
    let metadata_bytes = writer.metadata_bytes().unwrap();
    let memory = writer.memory_bytes().unwrap();
    assert(memory == folder_bytes + path_keys + path_bytes + link_bytes + metadata_bytes);
    let all = before + memory + after;
    lemma_key_bytes_len(ordered(writer.path_lookup), t.paths, ordered(writer.path_lookup).len());
    crate::engines::stream::round_trip::lemma_folders_read_back(t, c);
    lemma_table_round_trip_at::<StreamFolder>(
        c.folders,
        t.folders,
        folders,
        stream_folder_encoder(t),
        stream_folder_read(t),
        before,
        path_keys + path_bytes + link_bytes + metadata_bytes + after,
    );
    assert(all =~= before + folder_bytes + (path_keys + path_bytes + link_bytes + metadata_bytes
        + after));
    crate::engines::stream::round_trip::lemma_paths_read_back(t, c);
    lemma_table_round_trip_at::<StreamPath>(
        c.paths,
        t.paths,
        paths,
        stream_path_encoder(t),
        stream_path_read(t),
        before + folder_bytes + path_keys,
        link_bytes + metadata_bytes + after,
    );
    assert(all =~= (before + folder_bytes + path_keys) + path_bytes + (link_bytes + metadata_bytes
        + after));
    crate::engines::stream::round_trip::lemma_links_read_back(t, c);
    lemma_table_round_trip_at::<StreamLink>(
        c.links,
        t.links,
        links,
        stream_link_encoder(t),
        stream_link_read(t),
        before + folder_bytes + path_keys + path_bytes,
        metadata_bytes + after,
    );
    assert(all =~= (before + folder_bytes + path_keys + path_bytes) + link_bytes + (metadata_bytes
        + after));
    crate::engines::stream::round_trip::lemma_metadatas_read_back(t, c);
    lemma_table_round_trip_at::<StreamMetadata>(
        c.metadatas,
        t.metadatas,
        metadatas,
        stream_metadata_encoder(),
        stream_metadata_read(),
        before + folder_bytes + path_keys + path_bytes + link_bytes,
        after,
    );
    assert(all =~= (before + folder_bytes + path_keys + path_bytes + link_bytes) + metadata_bytes
        + after);
    let start = before.len() as int;
    assert(folders * StreamFolder::width() == 12 * folders);
    assert(paths * StreamPath::width() == 12 * paths);
    assert(links * StreamLink::width() == 4 * links);
    assert(metadatas * StreamMetadata::width() == 16 * metadatas);
    let first = start + 12 * folders;
    assert(taken::<StreamFolder>(all, start, folders) == Some(
        (stream_read_back(t, c).folders, first),
    ));
    let second = first + 8 * paths;
    assert(skipped(all.len(), first, stream_counts(writer).path_count * 8) == Some(second));
    let third = second + 12 * paths;
    assert(taken::<StreamPath>(all, second, paths) == Some((stream_read_back(t, c).paths, third)));
    let fourth = third + 4 * links;
    assert(taken::<StreamLink>(all, third, links) == Some((stream_read_back(t, c).links, fourth)));
    assert(taken::<StreamMetadata>(all, fourth, metadatas) == Some(
        (stream_read_back(t, c).metadatas, fourth + 16 * metadatas),
    ));
}


/// The outer header that is written at the start of an archive is read
/// back from it.
pub proof fn lemma_header_read_back(header: ArchiveHeader, after: Seq<u8>)
    ensures
        header.encoded().len() == 48,
        ArchiveHeader::decoded(header.encoded() + after) == Ok::<ArchiveHeader, ArchiveError>(
            header,
        ),
{
    lemma_le_len();
    let data = header.encoded() + after;
    let a = le64(ARCHIVE_MAGIC);
    let b = le64(header.stream_data_start);
    let c = le64(header.file_data_start);
    let d = le64(header.shared_file_data_start);
    let e = le64(header.non_user_tables_ptr);
    let f = le64(header.user_tables_ptr);
    lemma_u64_round_trip(Seq::empty(), ARCHIVE_MAGIC, b + c + d + e + f + after);
    assert(data =~= Seq::<u8>::empty() + a + (b + c + d + e + f + after));
    lemma_u64_round_trip(a, header.stream_data_start, c + d + e + f + after);
    assert(data =~= a + b + (c + d + e + f + after));
    lemma_u64_round_trip(a + b, header.file_data_start, d + e + f + after);
    assert(data =~= (a + b) + c + (d + e + f + after));
    lemma_u64_round_trip(a + b + c, header.shared_file_data_start, e + f + after);
    assert(data =~= (a + b + c) + d + (e + f + after));
    lemma_u64_round_trip(a + b + c + d, header.non_user_tables_ptr, f + after);
    assert(data =~= (a + b + c + d) + e + (f + after));
    lemma_u64_round_trip(a + b + c + d + e, header.user_tables_ptr, after);
    assert(data =~= (a + b + c + d + e) + f + after);
}

/// A section of tables that is written behind other bytes is found at the
/// place where it starts: its header is read back, and the bytes between
/// the header and the padding are the compressed bytes that were written.
pub proof fn lemma_section_found(
    before: Seq<u8>,
    decompressed_size: nat,
    compressed: Seq<u8>,
    after: Seq<u8>,
)
    requires
        before.len() + 16 + compressed.len() + 8 <= u64::MAX,
        compressed.len() + 8 <= u32::MAX,
    ensures
        ({
            let data = before + framed_section(decompressed_size, compressed) + after;
            &&& ArchiveTablesHeader::framed_at(data, before.len() as u64) matches Ok(frame)
                && frame.header.decompressed_size == decompressed_size as u32
                && frame.header.compressed_size == compressed.len()
                && frame.header.compressed_section_size == rounded_up(compressed.len())
                && data.subrange(frame.start, frame.end) == compressed
        }),
{
    lemma_le_len();
    lemma_section_padding(decompressed_size, compressed);
    let header = ArchiveTablesHeader {
        decompressed_size: decompressed_size as u32,
        compressed_size: compressed.len() as u32,
        compressed_section_size: rounded_up(compressed.len()) as u32,
    };
    let padding = zeros((rounded_up(compressed.len()) - compressed.len()) as nat);
    let data = before + framed_section(decompressed_size, compressed) + after;
    let a = le32(TABLES_MAGIC);
    let b = le32(header.decompressed_size);
    let c = le32(header.compressed_size);
    let d = le32(header.compressed_section_size);
    let tail = compressed + padding + after;
    lemma_u32_round_trip(before, TABLES_MAGIC, b + c + d + tail);
    assert(data =~= before + a + (b + c + d + tail));
    lemma_u32_round_trip(before + a, header.decompressed_size, c + d + tail);
    assert(data =~= (before + a) + b + (c + d + tail));
    lemma_u32_round_trip(before + a + b, header.compressed_size, d + tail);
    assert(data =~= (before + a + b) + c + (d + tail));
    lemma_u32_round_trip(before + a + b + c, header.compressed_section_size, tail);
    assert(data =~= (before + a + b + c) + d + tail);
    let start = before.len() + 16;
    assert(data.subrange(start as int, (start + compressed.len()) as int) =~= compressed);
}

/// What is written is what is read, for the archive as a whole. Where the
/// outer header points at the two sections as they are written one after
/// the other, each with its compressed bytes, reading the archive finds the
/// header and these compressed bytes; and where the decoder gives back for
/// them the sections that were compressed, the archive that is read is the
/// archive that those sections hold.
pub proof fn lemma_written_archive_read_back(
    header: ArchiveHeader,
    gap: Seq<u8>,
    non_user: Seq<u8>,
    user: Seq<u8>,
    first: Seq<u8>,
    second: Seq<u8>,
    rest: Seq<u8>,
)
    requires
        header.non_user_tables_ptr == 48 + gap.len(),
        header.user_tables_ptr == 48 + gap.len() + framed_section(non_user.len(), first).len(),
        first.len() + 8 <= u32::MAX,
        second.len() + 8 <= u32::MAX,
        48 + gap.len() + first.len() + second.len() + 64 <= u64::MAX,
    ensures
        ({
            let data = header.encoded() + gap + framed_section(non_user.len(), first)
                + framed_section(user.len(), second) + rest;
            &&& compressed_sections(data) == Ok::<(ArchiveHeader, Seq<u8>, Seq<u8>), ArchiveError>(
                (header, first, second),
            )
            &&& decompressed(first) == Ok::<Seq<u8>, ArchiveError>(non_user) && decompressed(second)
                == Ok::<Seq<u8>, ArchiveError>(user) ==> archive_read(data) == archive_of(
                header,
                non_user,
                user,
            )
        }),
{
    let one = framed_section(non_user.len(), first);
    let two = framed_section(user.len(), second);
    let data = header.encoded() + gap + one + two + rest;
    lemma_section_padding(non_user.len(), first);
    lemma_section_padding(user.len(), second);
    lemma_header_read_back(header, gap + one + two + rest);
    assert(data =~= header.encoded() + (gap + one + two + rest));
    lemma_section_found(header.encoded() + gap, non_user.len(), first, two + rest);
    assert(data =~= (header.encoded() + gap) + one + (two + rest));
    lemma_section_found(header.encoded() + gap + one, user.len(), second, rest);
    assert(data =~= (header.encoded() + gap + one) + two + rest);
}

} // verus!
