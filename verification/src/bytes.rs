//! Little-endian reading and writing of the integers that make up the tables.
//!
//! Every multi-byte field of the archive is little-endian. Readers take a byte
//! slice and an offset; writers append to a growing buffer.
use vstd::prelude::*;
use vstd::bytes::*;
use vstd::slice::slice_subrange;

verus! {

/// The two bytes that encode `v`.
pub open spec fn le16(v: u16) -> Seq<u8> {
    spec_u16_to_le_bytes(v)
}

/// The four bytes that encode `v`.
pub open spec fn le32(v: u32) -> Seq<u8> {
    spec_u32_to_le_bytes(v)
}

/// The eight bytes that encode `v`.
pub open spec fn le64(v: u64) -> Seq<u8> {
    spec_u64_to_le_bytes(v)
}

/// `n` zero bytes.
pub open spec fn zeros(n: nat) -> Seq<u8> {
    Seq::new(n, |i: int| 0u8)
}

/// The 16-bit integer stored at `off`.
pub open spec fn u16_at(data: Seq<u8>, off: int) -> u16 {
    spec_u16_from_le_bytes(data.subrange(off, off + 2))
}

/// The 32-bit integer stored at `off`.
pub open spec fn u32_at(data: Seq<u8>, off: int) -> u32 {
    spec_u32_from_le_bytes(data.subrange(off, off + 4))
}

/// The 64-bit integer stored at `off`.
pub open spec fn u64_at(data: Seq<u8>, off: int) -> u64 {
    spec_u64_from_le_bytes(data.subrange(off, off + 8))
}

pub fn read_u8(data: &[u8], off: usize) -> (v: u8)
    requires
        off < data@.len(),
    ensures
        v == data@[off as int],
{
    data[off]
}

pub fn read_u16(data: &[u8], off: usize) -> (v: u16)
    requires
        off + 2 <= data@.len(),
    ensures
        v == u16_at(data@, off as int),
{
    let len: usize = data.len();
    assert(off + 2 <= len);
    u16_from_le_bytes(slice_subrange(data, off, off + 2))
}

pub fn read_u32(data: &[u8], off: usize) -> (v: u32)
    requires
        off + 4 <= data@.len(),
    ensures
        v == u32_at(data@, off as int),
{
    let len: usize = data.len();
    assert(off + 4 <= len);
    u32_from_le_bytes(slice_subrange(data, off, off + 4))
}

pub fn read_u64(data: &[u8], off: usize) -> (v: u64)
    requires
        off + 8 <= data@.len(),
    ensures
        v == u64_at(data@, off as int),
{
    let len: usize = data.len();
    assert(off + 8 <= len);
    u64_from_le_bytes(slice_subrange(data, off, off + 8))
}

pub fn push_u8(out: &mut Vec<u8>, v: u8)
    ensures
        final(out)@ == old(out)@ + seq![v],
{
    out.push(v);
    assert(out@ =~= old(out)@ + seq![v]);
}

pub fn push_u16(out: &mut Vec<u8>, v: u16)
    ensures
        final(out)@ == old(out)@ + le16(v),
{
    let encoded = u16_to_le_bytes(v);
    out.extend_from_slice(encoded.as_slice());
}

pub fn push_u32(out: &mut Vec<u8>, v: u32)
    ensures
        final(out)@ == old(out)@ + le32(v),
{
    let encoded = u32_to_le_bytes(v);
    out.extend_from_slice(encoded.as_slice());
}

pub fn push_u64(out: &mut Vec<u8>, v: u64)
    ensures
        final(out)@ == old(out)@ + le64(v),
{
    let encoded = u64_to_le_bytes(v);
    out.extend_from_slice(encoded.as_slice());
}

pub fn push_bytes(out: &mut Vec<u8>, src: &[u8])
    ensures
        final(out)@ == old(out)@ + src@,
{
    out.extend_from_slice(src);
}

pub fn push_zeros(out: &mut Vec<u8>, n: usize)
    ensures
        final(out)@ == old(out)@ + zeros(n as nat),
{
    let mut i: usize = 0;
    while i < n
        invariant
            i <= n,
            out@ == old(out)@ + zeros(i as nat),
        decreases n - i,
    {
        out.push(0u8);
        i = i + 1;
        assert(out@ =~= old(out)@ + zeros(i as nat));
    }
}

/// Masking keeps a word within its mask.
pub proof fn lemma_low_bits(x: u64)
    ensures
        x & 0xFF <= 0xFF,
        x & 0xFFFF <= 0xFFFF,
        x & 0x00FF_FFFF <= 0x00FF_FFFF,
        x & 0xFFFF_FFFF <= 0xFFFF_FFFF,
{
    assert(x & 0xFF <= 0xFF && x & 0xFFFF <= 0xFFFF && x & 0x00FF_FFFF <= 0x00FF_FFFF && x
        & 0xFFFF_FFFF <= 0xFFFF_FFFF) by (bit_vector);
}

/// Every encoding has the width of its integer.
pub proof fn lemma_le_len()
    ensures
        forall|v: u16| #[trigger] le16(v).len() == 2,
        forall|v: u32| #[trigger] le32(v).len() == 4,
        forall|v: u64| #[trigger] le64(v).len() == 8,
{
    lemma_auto_spec_u16_to_from_le_bytes();
    lemma_auto_spec_u32_to_from_le_bytes();
    lemma_auto_spec_u64_to_from_le_bytes();
}

/// A 32-bit integer written between any two byte strings is read back at the
/// offset where it was written.
pub proof fn lemma_u32_round_trip(before: Seq<u8>, v: u32, after: Seq<u8>)
    ensures
        u32_at(before + le32(v) + after, before.len() as int) == v,
{
    lemma_auto_spec_u32_to_from_le_bytes();
    let all = before + le32(v) + after;
    assert(all.subrange(before.len() as int, before.len() as int + 4) =~= le32(v));
}

/// A 64-bit integer written between any two byte strings is read back at the
/// offset where it was written.
pub proof fn lemma_u64_round_trip(before: Seq<u8>, v: u64, after: Seq<u8>)
    ensures
        u64_at(before + le64(v) + after, before.len() as int) == v,
{
    lemma_auto_spec_u64_to_from_le_bytes();
    let all = before + le64(v) + after;
    assert(all.subrange(before.len() as int, before.len() as int + 8) =~= le64(v));
}

/// The bytes of a list of 64-bit integers, one after the other.
pub open spec fn quads_bytes(quads: Seq<u64>) -> Seq<u8>
    decreases quads.len(),
{
    if quads.len() == 0 {
        Seq::empty()
    } else {
        quads_bytes(quads.drop_last()) + le64(quads.last())
    }
}

/// The bytes of a list of 32-bit integers, one after the other.
pub open spec fn words_bytes(words: Seq<u32>) -> Seq<u8>
    decreases words.len(),
{
    if words.len() == 0 {
        Seq::empty()
    } else {
        words_bytes(words.drop_last()) + le32(words.last())
    }
}

/// The bytes of a record that is made of 64-bit fields followed by 32-bit
/// fields.
pub open spec fn record_bytes(quads: Seq<u64>, words: Seq<u32>) -> Seq<u8> {
    quads_bytes(quads) + words_bytes(words)
}

/// Appends a record of 64-bit fields followed by 32-bit fields.
pub fn push_record(out: &mut Vec<u8>, quads: &[u64], words: &[u32])
    ensures
        final(out)@ == old(out)@ + record_bytes(quads@, words@),
{
    let mut i: usize = 0;
    while i < quads.len()
        invariant
            i <= quads@.len(),
            out@ == old(out)@ + quads_bytes(quads@.subrange(0, i as int)),
        decreases quads@.len() - i,
    {
        push_u64(out, quads[i]);
        proof {
            let done = quads@.subrange(0, i + 1);
            assert(done.drop_last() =~= quads@.subrange(0, i as int));
            assert(out@ =~= old(out)@ + quads_bytes(done));
        }
        i = i + 1;
    }
    assert(quads@.subrange(0, i as int) =~= quads@);
    let ghost middle = out@;
    let mut j: usize = 0;
    while j < words.len()
        invariant
            j <= words@.len(),
            middle == old(out)@ + quads_bytes(quads@),
            out@ == middle + words_bytes(words@.subrange(0, j as int)),
        decreases words@.len() - j,
    {
        push_u32(out, words[j]);
        proof {
            let done = words@.subrange(0, j + 1);
            assert(done.drop_last() =~= words@.subrange(0, j as int));
            assert(out@ =~= middle + words_bytes(done));
        }
        j = j + 1;
    }
    assert(words@.subrange(0, j as int) =~= words@);
    assert(out@ =~= old(out)@ + record_bytes(quads@, words@));
}


/// The bytes of a list of 64-bit integers are eight for each, and each
/// integer is read back at its place.
pub proof fn lemma_quads_bytes(quads: Seq<u64>)
    ensures
        quads_bytes(quads).len() == 8 * quads.len(),
        forall|i: int|
            0 <= i < quads.len() ==> #[trigger] u64_at(quads_bytes(quads), 8 * i) == quads[i],
    decreases quads.len(),
{
    lemma_le_len();
    if quads.len() > 0 {
        let head = quads.drop_last();
        lemma_quads_bytes(head);
        let all = quads_bytes(quads);
        assert forall|i: int| 0 <= i < quads.len() implies #[trigger] u64_at(all, 8 * i)
            == quads[i] by {
            if i < head.len() {
                assert(all.subrange(8 * i, 8 * i + 8) =~= quads_bytes(head).subrange(
                    8 * i,
                    8 * i + 8,
                ));
                assert(u64_at(quads_bytes(head), 8 * i) == head[i]);
            } else {
                lemma_u64_round_trip(quads_bytes(head), quads.last(), Seq::empty());
                assert(quads_bytes(head) + le64(quads.last()) + Seq::<u8>::empty() =~= all);
            }
        }
    }
}

/// The bytes of a list of 32-bit integers are four for each, and each
/// integer is read back at its place.
pub proof fn lemma_words_bytes(words: Seq<u32>)
    ensures
        words_bytes(words).len() == 4 * words.len(),
        forall|i: int|
            0 <= i < words.len() ==> #[trigger] u32_at(words_bytes(words), 4 * i) == words[i],
    decreases words.len(),
{
    lemma_le_len();
    if words.len() > 0 {
        let head = words.drop_last();
        lemma_words_bytes(head);
        let all = words_bytes(words);
        assert forall|i: int| 0 <= i < words.len() implies #[trigger] u32_at(all, 4 * i)
            == words[i] by {
            if i < head.len() {
                assert(all.subrange(4 * i, 4 * i + 4) =~= words_bytes(head).subrange(
                    4 * i,
                    4 * i + 4,
                ));
                assert(u32_at(words_bytes(head), 4 * i) == head[i]);
            } else {
                lemma_u32_round_trip(words_bytes(head), words.last(), Seq::empty());
                assert(words_bytes(head) + le32(words.last()) + Seq::<u8>::empty() =~= all);
            }
        }
    }
}

/// The 64-bit field `i` of the record that starts at `base`.
pub open spec fn quad_at(data: Seq<u8>, base: int, i: int) -> u64 {
    u64_at(data, base + 8 * i)
}

/// The 32-bit field `j` of the record that starts at `base` and has `quads`
/// 64-bit fields before its 32-bit fields.
pub open spec fn word_at(data: Seq<u8>, base: int, quads: int, j: int) -> u32 {
    u32_at(data, base + 8 * quads + 4 * j)
}

/// A record that lies at `before.len()` within other bytes gives each of its
/// fields back: the 64-bit field `i` eight bytes after the one before it,
/// and the 32-bit field `j` four bytes after the one before it, behind the
/// 64-bit fields.
pub proof fn lemma_record_fields(
    before: Seq<u8>,
    quads: Seq<u64>,
    words: Seq<u32>,
    after: Seq<u8>,
)
    ensures
        record_bytes(quads, words).len() == 8 * quads.len() + 4 * words.len(),
        forall|i: int|
            0 <= i < quads.len() ==> #[trigger] quad_at(
                before + record_bytes(quads, words) + after,
                before.len() as int,
                i,
            ) == quads[i],
        forall|j: int|
            0 <= j < words.len() ==> #[trigger] word_at(
                before + record_bytes(quads, words) + after,
                before.len() as int,
                quads.len() as int,
                j,
            ) == words[j],
{
    lemma_quads_bytes(quads);
    lemma_words_bytes(words);
    let record = record_bytes(quads, words);
    let all = before + record + after;
    assert forall|i: int| 0 <= i < quads.len() implies #[trigger] quad_at(
        all,
        before.len() as int,
        i,
    ) == quads[i] by {
        assert(all.subrange(before.len() + 8 * i, before.len() + 8 * i + 8) =~= quads_bytes(
            quads,
        ).subrange(8 * i, 8 * i + 8));
        assert(u64_at(quads_bytes(quads), 8 * i) == quads[i]);
    }
    assert forall|j: int| 0 <= j < words.len() implies #[trigger] word_at(
        all,
        before.len() as int,
        quads.len() as int,
        j,
    ) == words[j] by {
        assert(all.subrange(
            before.len() + 8 * quads.len() + 4 * j,
            before.len() + 8 * quads.len() + 4 * j + 4,
        ) =~= words_bytes(words).subrange(4 * j, 4 * j + 4));
        assert(u32_at(words_bytes(words), 4 * j) == words[j]);
    }
}

} // verus!
