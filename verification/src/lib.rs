//! In-memory model of a game archive's filesystem manifest.
//!
//! The manifest describes three interlocking table graphs: the packaged
//! filesystem, the stream filesystem and the search filesystem. This crate
//! parses the tables from bytes, resolves their cross-table indices into cell
//! handles, lets the graph be changed, re-emits the tables in their canonical
//! order and serializes them again.
use vstd::prelude::*;

pub mod archive;
pub mod bytes;
pub mod engines;
pub mod hashing;
pub mod paths;
pub mod raw;

verus! {

/// The invalid index for any archive table.
///
/// Most indices found in the archive are 24-bit integers, and the value with
/// all 24 bits set marks a reference that is absent.
pub const INVALID_INDEX: usize = 0x00FF_FFFF;

/// [`INVALID_INDEX`] as it is stored in a 32-bit field.
pub const INVALID_INDEX32: u32 = 0x00FF_FFFF;

/// The low 40 bits of a packed key: the part that holds the hash.
pub const HASH_MASK: u64 = 0x0000_00FF_FFFF_FFFF;

/// Why an archive could not be read, changed or written.
#[derive(Debug, Copy, Clone, PartialEq, Eq, Structural)]
pub enum ArchiveError {
    /// The outer header or a tables header does not start with its magic.
    BadMagic,
    /// The bytes do not describe tables: a flag outside its set of values, a
    /// range out of bounds, a size that does not match.
    Format,
    /// The underlying byte stream failed.
    Io,
    /// Compressing or decompressing a section failed.
    Codec,
    /// The graph of cells is not one that the operation can work on: a
    /// handle without a record, a reference that is not resolved, a cell
    /// that would enter a table twice.
    Invariant,
}


/// What `ruzstd::decoding::StreamingDecoder` reads out of the frame `data`,
/// and nothing where it does not decode.
pub uninterp spec fn zstd_decoded(data: Seq<u8>) -> Option<Seq<u8>>;

/// Makes a `ruzstd::decoding::StreamingDecoder` over the bytes with
/// `StreamingDecoder::new` and reads it to its end with
/// `std::io::Read::read_to_end`. There is no result where the decoder
/// rejects the frame header or a block. The contract only names the result.
#[verifier::external_body]
fn zstd_decode(data: &[u8], capacity: usize) -> (decoded: Option<Vec<u8>>)
    ensures
        match decoded {
            Some(bytes) => zstd_decoded(data@) == Some(bytes@),
            None => zstd_decoded(data@) is None,
        },
{
    let mut decoder = match ruzstd::decoding::StreamingDecoder::new(std::io::Cursor::new(data)) {
        Ok(decoder) => decoder,
        Err(_) => return None,
    };
    let mut bytes = Vec::with_capacity(capacity);
    match std::io::Read::read_to_end(&mut decoder, &mut bytes) {
        Ok(_) => Some(bytes),
        Err(_) => None,
    }
}

/// What `zstd::encode_all` makes of `data` at level zero, and nothing where
/// it fails.
pub uninterp spec fn zstd_encoded(data: Seq<u8>) -> Option<Seq<u8>>;

/// Calls `zstd::encode_all` at level zero, which stands for the default
/// level of the encoder. There is no result where the encoder fails. The
/// contract only names the result.
#[verifier::external_body]
fn zstd_encode(data: &[u8]) -> (encoded: Option<Vec<u8>>)
    ensures
        match encoded {
            Some(bytes) => zstd_encoded(data@) == Some(bytes@),
            None => zstd_encoded(data@) is None,
        },
{
    match zstd::encode_all(std::io::Cursor::new(data), 0) {
        Ok(bytes) => Some(bytes),
        Err(_) => None,
    }
}

/// Something that decompresses the sections of an archive.
pub trait Decompressor {
    fn decompress(&self, data: &[u8]) -> (decoded: Result<Vec<u8>, ArchiveError>);

    fn decompress_with_size(&self, data: &[u8], size: usize) -> (decoded: Result<
        Vec<u8>,
        ArchiveError,
    >);
}

/// The decompressor that reads zstd frames.
pub struct DefaultDecompressor;

/// What the default decompressor returns for `data`.
pub open spec fn decompressed(data: Seq<u8>) -> Result<Seq<u8>, ArchiveError> {
    match zstd_decoded(data) {
        Some(bytes) => Ok(bytes),
        None => Err(ArchiveError::Codec),
    }
}

/// The bytes of a result that holds bytes.
pub open spec fn result_bytes(result: Result<Vec<u8>, ArchiveError>) -> Result<
    Seq<u8>,
    ArchiveError,
> {
    match result {
        Ok(bytes) => Ok(bytes@),
        Err(error) => Err(error),
    }
}

impl Decompressor for DefaultDecompressor {
    fn decompress(&self, data: &[u8]) -> (decoded: Result<Vec<u8>, ArchiveError>)
        ensures
            result_bytes(decoded) == decompressed(data@),
    {
        match zstd_decode(data, 0) {
            Some(bytes) => Ok(bytes),
            None => Err(ArchiveError::Codec),
        }
    }

    fn decompress_with_size(&self, data: &[u8], size: usize) -> (decoded: Result<
        Vec<u8>,
        ArchiveError,
    >)
        ensures
            result_bytes(decoded) == decompressed(data@),
    {
        match zstd_decode(data, size) {
            Some(bytes) => Ok(bytes),
            None => Err(ArchiveError::Codec),
        }
    }
}

/// Decompresses a zstd frame. Fails with a codec error where the frame does
/// not decode.
pub fn decompress_data(data: &[u8]) -> (decoded: Result<Vec<u8>, ArchiveError>)
    ensures
        result_bytes(decoded) == decompressed(data@),
{
    DefaultDecompressor.decompress(data)
}

/// Decompresses a zstd frame into a buffer that is made for
/// `decompressed_size` bytes. The size is a hint: the result is the same
/// for any size.
pub fn decompress_data_with_size(data: &[u8], decompressed_size: usize) -> (decoded: Result<
    Vec<u8>,
    ArchiveError,
>)
    ensures
        result_bytes(decoded) == decompressed(data@),
{
    DefaultDecompressor.decompress_with_size(data, decompressed_size)
}

/// What [`compress_data`] returns for `data`.
pub open spec fn compressed(data: Seq<u8>) -> Result<Seq<u8>, ArchiveError> {
    match zstd_encoded(data) {
        Some(bytes) => Ok(bytes),
        None => Err(ArchiveError::Codec),
    }
}

/// Compresses bytes into a zstd frame. Fails with a codec error where the
/// encoder fails.
pub fn compress_data(data: &[u8]) -> (encoded: Result<Vec<u8>, ArchiveError>)
    ensures
        result_bytes(encoded) == compressed(data@),
{
    match zstd_encode(data) {
        Some(bytes) => Ok(bytes),
        None => Err(ArchiveError::Codec),
    }
}

} // verus!
