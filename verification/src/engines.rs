//! The three filesystem engines and the primitives they share.
use vstd::prelude::*;

use crate::bytes::{le16, lemma_low_bits, push_u16, push_u8, read_u16, read_u8, u16_at};
use crate::engines::table::TableCell;
use crate::ArchiveError;
use crate::HASH_MASK;

pub mod packaged;
pub mod round_trip;
pub mod rounds;
pub mod search;
pub mod stream;
pub mod table;

verus! {

/// A 40-bit hash of a path string.
///
/// The low 32 bits are a checksum of the string, the next 8 bits its length.
#[derive(Debug, Copy, Clone, PartialEq, Eq, Structural)]
pub struct Hash40(pub u64);

impl Hash40 {
    /// Whether the hash fits into the 40 bits that a packed key leaves for it.
    pub open spec fn is_valid(self) -> bool {
        self.0 <= HASH_MASK
    }
}

/// A 64-bit word that packs a 40-bit hash (bits 0..40) together with a 24-bit
/// index (bits 40..64).
#[derive(Debug, Copy, Clone, PartialEq, Eq, Structural)]
pub struct HashKey(pub u64);

impl HashKey {
    /// The key that [`HashKey::new`] builds: the hash in the low bits, the
    /// index shifted above it.
    pub open spec fn pack(hash: Hash40, index: usize) -> HashKey {
        HashKey(hash.0 | ((index as u64) << 40))
    }

    /// The hash half of the key.
    pub open spec fn hash_part(self) -> Hash40 {
        Hash40(self.0 & HASH_MASK)
    }

    /// The index half of the key.
    pub open spec fn index_part(self) -> usize {
        (self.0 >> 40) as usize
    }

    pub fn new(hash: Hash40, index: usize) -> (key: Self)
        ensures
            key == Self::pack(hash, index),
    {
        HashKey(hash.0 | ((index as u64) << 40))
    }

    pub fn hash(self) -> (hash: Hash40)
        ensures
            hash == self.hash_part(),
            hash.is_valid(),
    {
        let word: u64 = self.0;
        assert(word & 0x0000_00FF_FFFF_FFFF <= 0x0000_00FF_FFFF_FFFF) by (bit_vector);
        Hash40(word & HASH_MASK)
    }

    pub fn index(self) -> (index: usize)
        ensures
            index == self.index_part(),
            index <= 0x00FF_FFFF,
    {
        let word: u64 = self.0;
        assert(word >> 40 <= 0x00FF_FFFF) by (bit_vector);
        (word >> 40) as usize
    }

    pub fn set_hash(&mut self, hash: Hash40)
        ensures
            final(self).0 == (old(self).0 & !HASH_MASK) | hash.0,
    {
        self.0 = (self.0 & !HASH_MASK) | hash.0;
    }

    pub fn set_index(&mut self, index: usize)
        ensures
            final(self).0 == (old(self).0 & HASH_MASK) | ((index as u64) << 40),
    {
        self.0 = (self.0 & HASH_MASK) | ((index as u64) << 40);
    }

    /// Packing a 40-bit hash with a 24-bit index and unpacking the key gives
    /// both halves back.
    pub proof fn lemma_pack_unpack(hash: Hash40, index: usize)
        requires
            hash.is_valid(),
            index <= 0x00FF_FFFF,
        ensures
            Self::pack(hash, index).hash_part() == hash,
            Self::pack(hash, index).index_part() == index,
    {
        let h: u64 = hash.0;
        let i: u64 = index as u64;
        assert(h <= 0x0000_00FF_FFFF_FFFF && i <= 0x00FF_FFFF ==> (h | (i << 40))
            & 0x0000_00FF_FFFF_FFFF == h && (h | (i << 40)) >> 40 == i) by (bit_vector);
    }

    /// Replacing the hash of a key leaves its index as it was, and the new
    /// hash is the one that was set.
    pub proof fn lemma_set_hash_keeps_index(key: HashKey, hash: Hash40)
        requires
            hash.is_valid(),
        ensures
            HashKey((key.0 & !HASH_MASK) | hash.0).index_part() == key.index_part(),
            HashKey((key.0 & !HASH_MASK) | hash.0).hash_part() == hash,
    {
        let k: u64 = key.0;
        let h: u64 = hash.0;
        assert(h <= 0x0000_00FF_FFFF_FFFF ==> ((k & !0x0000_00FF_FFFF_FFFFu64) | h) >> 40 == k >> 40
            && ((k & !0x0000_00FF_FFFF_FFFFu64) | h) & 0x0000_00FF_FFFF_FFFF == h)
            by (bit_vector);
    }

    /// Replacing the index of a key leaves its hash as it was, and the new
    /// index is the one that was set.
    pub proof fn lemma_set_index_keeps_hash(key: HashKey, index: usize)
        requires
            index <= 0x00FF_FFFF,
        ensures
            HashKey((key.0 & HASH_MASK) | ((index as u64) << 40)).hash_part() == key.hash_part(),
            HashKey((key.0 & HASH_MASK) | ((index as u64) << 40)).index_part() == index,
    {
        let k: u64 = key.0;
        let i: u64 = index as u64;
        assert(i <= 0x00FF_FFFF ==> ((k & 0x0000_00FF_FFFF_FFFF) | (i << 40))
            & 0x0000_00FF_FFFF_FFFF == k & 0x0000_00FF_FFFF_FFFF && ((k & 0x0000_00FF_FFFF_FFFF) | (i
            << 40)) >> 40 == i) by (bit_vector);
    }
}

} // verus!

verus! {

/// The `(major, minor, patch)` triple that the archive embeds.
#[derive(Debug, Copy, Clone, PartialEq, Eq, Structural)]
pub struct Version {
    pub major: u64,
    pub minor: u64,
    pub patch: u64,
}

impl Version {
    pub fn new(major: u64, minor: u64, patch: u64) -> (version: Self)
        ensures
            version == (Version { major, minor, patch }),
    {
        Version { major, minor, patch }
    }

    /// The version stored at `off`: one byte of patch, one byte of minor and
    /// sixteen bits of major.
    pub open spec fn decoded(data: Seq<u8>, off: int) -> Version {
        Version {
            major: u16_at(data, off + 2) as u64,
            minor: data[off + 1] as u64,
            patch: data[off] as u64,
        }
    }

    /// The four bytes that store the version. Each part is cut to the width
    /// of its field.
    pub open spec fn encoded(self) -> Seq<u8> {
        seq![(self.patch & 0xFF) as u8, (self.minor & 0xFF) as u8] + le16(
            (self.major & 0xFFFF) as u16,
        )
    }

    pub fn parse(data: &[u8], off: usize) -> (version: Self)
        requires
            off + 4 <= data@.len(),
        ensures
            version == Self::decoded(data@, off as int),
    {
        let len: usize = data.len();
        let patch: u8 = read_u8(data, off);
        let minor: u8 = read_u8(data, off + 1);
        let major: u16 = read_u16(data, off + 2);
        Version { major: major as u64, minor: minor as u64, patch: patch as u64 }
    }

    pub fn write(&self, out: &mut Vec<u8>)
        ensures
            final(out)@ == old(out)@ + self.encoded(),
    {
        let patch: u64 = self.patch & 0xFF;
        let minor: u64 = self.minor & 0xFF;
        let major: u64 = self.major & 0xFFFF;
        proof {
            lemma_low_bits(self.patch);
            lemma_low_bits(self.minor);
            lemma_low_bits(self.major);
        }
        push_u8(out, patch as u8);
        push_u8(out, minor as u8);
        push_u16(out, major as u16);
        assert(out@ =~= old(out)@ + self.encoded());
    }
}

/// The abstract values of a list of records.
pub open spec fn views<T: View>(records: Seq<T>) -> Seq<T::V> {
    records.map_values(|record: T| record@)
}

/// A record of fixed width in one of the archive's tables.
pub trait TableRecord: Sized + View {
    /// The number of bytes that one record takes in its table.
    spec fn width() -> nat;

    /// The record stored at `off`, if those bytes are a record.
    spec fn decoded(data: Seq<u8>, off: int) -> Option<Self::V>;

    fn repr_size() -> (size: usize)
        ensures
            size == Self::width(),
            size > 0,
    ;

    fn parse(data: &[u8], off: usize) -> (record: Option<Self>)
        requires
            off + Self::width() <= data@.len(),
        ensures
            match record {
                Some(record) => Self::decoded(data@, off as int) == Some(record@),
                None => Self::decoded(data@, off as int) is None,
            },
    ;
}

/// The first `count` records of the table that starts at `off`, if all of
/// them are records.
pub open spec fn records_decoded<T: TableRecord>(data: Seq<u8>, off: int, count: nat) -> Option<
    Seq<T::V>,
>
    decreases count,
{
    if count == 0 {
        Some(Seq::empty())
    } else {
        match records_decoded::<T>(data, off, (count - 1) as nat) {
            None => None,
            Some(head) => match T::decoded(data, off + (count - 1) * T::width()) {
                None => None,
                Some(record) => Some(head.push(record)),
            },
        }
    }
}

/// Whether `count` records from `off` on lie within `len` bytes.
pub open spec fn records_fit<T: TableRecord>(len: nat, off: int, count: nat) -> bool {
    off + count * T::width() <= len
}

/// Reads `count` records that start at `off`. There is a result exactly when
/// the records lie within `data` and each of them parses.
pub fn read_records<T: TableRecord>(data: &[u8], off: usize, count: usize) -> (records: Option<
    Vec<T>,
>)
    ensures
        match records {
            Some(records) => records_fit::<T>(data@.len(), off as int, count as nat)
                && records_decoded::<T>(data@, off as int, count as nat) == Some(views(records@)),
            None => !records_fit::<T>(data@.len(), off as int, count as nat) || records_decoded::<
                T,
            >(data@, off as int, count as nat) is None,
        },
{
    let size: usize = T::repr_size();
    let len: usize = data.len();
    if off > len {
        assert(count * T::width() >= 0) by (nonlinear_arith)
            requires
                count >= 0,
                T::width() >= 0,
        ;
        return None;
    }
    if count > (len - off) / size {
        assert(count * size > len - off) by (nonlinear_arith)
            requires
                count > (len - off) / (size as int),
                size > 0,
                len - off >= 0,
        ;
        return None;
    }
    assert(count * size <= len - off) by (nonlinear_arith)
        requires
            count <= (len - off) / (size as int),
            size > 0,
            len - off >= 0,
    ;
    let mut records: Vec<T> = Vec::new();
    let mut i: usize = 0;
    let mut pos: usize = off;
    while i < count
        invariant
            i <= count,
            size == T::width(),
            size > 0,
            pos == off + i * size,
            off + count * size <= len,
            len == data@.len(),
            records_decoded::<T>(data@, off as int, i as nat) == Some(views(records@)),
        decreases count - i,
    {
        assert(pos + size <= len) by (nonlinear_arith)
            requires
                pos == off + i * size,
                off + count * size <= len,
                i < count,
                size > 0,
        ;
        let record = T::parse(data, pos);
        let ghost head = views(records@);
        match record {
            None => {
                proof {
                    lemma_records_decoded_prefix::<T>(data@, off as int, (i + 1) as nat, count as nat);
                }
                return None;
            },
            Some(record) => {
                records.push(record);
                assert(views(records@) =~= head.push(record@));
            },
        }
        assert((i + 1) * size == i * size + size) by (nonlinear_arith);
        i = i + 1;
        pos = pos + size;
    }
    Some(records)
}

/// Where a prefix of a table does not parse, the table does not parse.
pub proof fn lemma_records_decoded_prefix<T: TableRecord>(
    data: Seq<u8>,
    off: int,
    short: nat,
    long: nat,
)
    requires
        short <= long,
        records_decoded::<T>(data, off, short) is None,
    ensures
        records_decoded::<T>(data, off, long) is None,
    decreases long,
{
    if short < long {
        lemma_records_decoded_prefix::<T>(data, off, short, (long - 1) as nat);
    }
}

/// A table that parses has as many records as were asked for.
pub proof fn lemma_records_decoded_len<T: TableRecord>(data: Seq<u8>, off: int, count: nat)
    ensures
        records_decoded::<T>(data, off, count) matches Some(records) ==> records.len() == count,
    decreases count,
{
    if count > 0 {
        lemma_records_decoded_len::<T>(data, off, (count - 1) as nat);
    }
}

/// The records of a table that fills `data` from its first byte to its last.
/// The byte length of a table is a multiple of the width of its records.
pub open spec fn whole_table<T: TableRecord>(data: Seq<u8>) -> Option<Seq<T::V>> {
    if data.len() % T::width() == 0 {
        records_decoded::<T>(data, 0, data.len() / T::width())
    } else {
        None
    }
}

/// The records that start at `pos`, if there are `count` of them. No records
/// are read at any position.
pub open spec fn records_at<T: TableRecord>(data: Seq<u8>, pos: int, count: nat) -> Option<
    Seq<T::V>,
> {
    if count == 0 {
        Some(Seq::empty())
    } else if records_fit::<T>(data.len(), pos, count) {
        records_decoded::<T>(data, pos, count)
    } else {
        None
    }
}

/// Reads the `count` records that start at `pos`.
pub fn read_records_at<T: TableRecord>(data: &[u8], pos: usize, count: usize) -> (records: Option<
    Vec<T>,
>)
    ensures
        match records {
            Some(records) => records_at::<T>(data@, pos as int, count as nat) == Some(
                views(records@),
            ) && records@.len() == count,
            None => records_at::<T>(data@, pos as int, count as nat) is None,
        },
{
    if count == 0 {
        let records: Vec<T> = Vec::new();
        assert(views(records@) =~= Seq::<T::V>::empty());
        Some(records)
    } else {
        let records = read_records::<T>(data, pos, count);
        proof {
            lemma_records_decoded_len::<T>(data@, pos as int, count as nat);
        }
        records
    }
}

/// Reads a table that fills `data` from its first byte to its last.
pub fn read_table<T: TableRecord>(data: &[u8]) -> (table: Result<Vec<T>, ArchiveError>)
    ensures
        match table {
            Ok(records) => whole_table::<T>(data@) == Some(views(records@)),
            Err(error) => error == ArchiveError::Format && whole_table::<T>(data@) is None,
        },
{
    let size: usize = T::repr_size();
    if data.len() % size != 0 {
        return Err(ArchiveError::Format);
    }
    let count: usize = data.len() / size;
    assert(count * size == data@.len()) by (nonlinear_arith)
        requires
            count == data@.len() / (size as nat),
            data@.len() % (size as nat) == 0,
            size > 0,
    ;
    match read_records::<T>(data, 0, count) {
        Some(records) => Ok(records),
        None => Err(ArchiveError::Format),
    }
}

/// One handle for each of the first `count` cells of a store, in order.
pub open spec fn identity_cells(count: nat) -> Seq<TableCell> {
    Seq::new(count, |i: int| TableCell { slot: i as u64 })
}

/// One handle for each of the first `count` cells of a store, in order: the
/// table of a store that was just read.
pub fn identity_table(count: usize) -> (table: Vec<TableCell>)
    ensures
        table@ == identity_cells(count as nat),
{
    let mut table: Vec<TableCell> = Vec::new();
    let mut i: usize = 0;
    while i < count
        invariant
            i <= count,
            table@.len() == i,
            forall|j: int| 0 <= j < i ==> (#[trigger] table@[j]).slot == j,
        decreases count - i,
    {
        table.push(TableCell::from_slot(i as u64));
        i = i + 1;
    }
    assert(table@ =~= identity_cells(count as nat));
    table
}

} // verus!

verus! {

/// The language and region of a localized file.
#[derive(Debug, Copy, Clone, PartialEq, Eq, Structural)]
pub enum Locale {
    Invalid,
    Japanese,
    UsEnglish,
    UsFrench,
    UsSpanish,
    EuEnglish,
    EuFrench,
    EuSpanish,
    German,
    Dutch,
    Italian,
    Russian,
    Korean,
    Chinese,
    Taiwanese,
}

/// Whether two strings hold the same bytes.
pub fn same_text(a: &str, b: &str) -> (same: bool)
    ensures
        same == (a@ == b@),
{
    let left = a.to_owned();
    let right = b.to_owned();
    left == right
}

impl Locale {
    /// The number that stands for the locale in the archive: minus one for
    /// the invalid locale, and the place of any other in the list of
    /// locales.
    pub open spec fn number(self) -> int {
        match self {
            Locale::Invalid => -1,
            Locale::Japanese => 0,
            Locale::UsEnglish => 1,
            Locale::UsFrench => 2,
            Locale::UsSpanish => 3,
            Locale::EuEnglish => 4,
            Locale::EuFrench => 5,
            Locale::EuSpanish => 6,
            Locale::German => 7,
            Locale::Dutch => 8,
            Locale::Italian => 9,
            Locale::Russian => 10,
            Locale::Korean => 11,
            Locale::Chinese => 12,
            Locale::Taiwanese => 13,
        }
    }

    /// The code of the locale: its region and its language.
    pub open spec fn code(self) -> Seq<char> {
        match self {
            Locale::Japanese => "jp_ja"@,
            Locale::UsEnglish => "us_en"@,
            Locale::UsFrench => "us_fr"@,
            Locale::UsSpanish => "us_es"@,
            Locale::EuEnglish => "eu_en"@,
            Locale::EuFrench => "eu_fr"@,
            Locale::EuSpanish => "eu_es"@,
            Locale::German => "eu_de"@,
            Locale::Dutch => "eu_nl"@,
            Locale::Italian => "eu_it"@,
            Locale::Russian => "eu_ru"@,
            Locale::Korean => "kr_ko"@,
            Locale::Chinese => "zh_cn"@,
            Locale::Taiwanese => "zh_tw"@,
            Locale::Invalid => ""@,
        }
    }

    pub fn as_str(self) -> (code: &'static str)
        ensures
            code@ == self.code(),
    {
        match self {
            Locale::Japanese => "jp_ja",
            Locale::UsEnglish => "us_en",
            Locale::UsFrench => "us_fr",
            Locale::UsSpanish => "us_es",
            Locale::EuEnglish => "eu_en",
            Locale::EuFrench => "eu_fr",
            Locale::EuSpanish => "eu_es",
            Locale::German => "eu_de",
            Locale::Dutch => "eu_nl",
            Locale::Italian => "eu_it",
            Locale::Russian => "eu_ru",
            Locale::Korean => "kr_ko",
            Locale::Chinese => "zh_cn",
            Locale::Taiwanese => "zh_tw",
            Locale::Invalid => "",
        }
    }

    /// The name of the locale as it is shown to a reader.
    pub open spec fn pretty(self) -> Seq<char> {
        match self {
            Locale::Japanese => "Japanese"@,
            Locale::UsEnglish => "US English"@,
            Locale::UsFrench => "US French"@,
            Locale::UsSpanish => "US Spanish"@,
            Locale::EuEnglish => "EU English"@,
            Locale::EuFrench => "EU French"@,
            Locale::EuSpanish => "EU Spanish"@,
            Locale::German => "German"@,
            Locale::Dutch => "Dutch"@,
            Locale::Italian => "Italian"@,
            Locale::Russian => "Russian"@,
            Locale::Korean => "Korean"@,
            Locale::Chinese => "Chinese"@,
            Locale::Taiwanese => "Taiwanese"@,
            Locale::Invalid => ""@,
        }
    }

    pub fn as_pretty_str(self) -> (name: &'static str)
        ensures
            name@ == self.pretty(),
    {
        match self {
            Locale::Japanese => "Japanese",
            Locale::UsEnglish => "US English",
            Locale::UsFrench => "US French",
            Locale::UsSpanish => "US Spanish",
            Locale::EuEnglish => "EU English",
            Locale::EuFrench => "EU French",
            Locale::EuSpanish => "EU Spanish",
            Locale::German => "German",
            Locale::Dutch => "Dutch",
            Locale::Italian => "Italian",
            Locale::Russian => "Russian",
            Locale::Korean => "Korean",
            Locale::Chinese => "Chinese",
            Locale::Taiwanese => "Taiwanese",
            Locale::Invalid => "",
        }
    }

    /// The locale that a code stands for. The three European codes of
    /// English, French and Spanish stand for the American locales; a string
    /// that is no code stands for the invalid locale.
    pub open spec fn of_code(code: Seq<char>) -> Locale {
        if code == "jp_ja"@ {
            Locale::Japanese
        } else if code == "us_en"@ {
            Locale::UsEnglish
        } else if code == "us_fr"@ {
            Locale::UsFrench
        } else if code == "us_es"@ {
            Locale::UsSpanish
        } else if code == "eu_en"@ {
            Locale::UsEnglish
        } else if code == "eu_fr"@ {
            Locale::UsFrench
        } else if code == "eu_es"@ {
            Locale::UsSpanish
        } else if code == "eu_de"@ {
            Locale::German
        } else if code == "eu_nl"@ {
            Locale::Dutch
        } else if code == "eu_it"@ {
            Locale::Italian
        } else if code == "eu_ru"@ {
            Locale::Russian
        } else if code == "kr_ko"@ {
            Locale::Korean
        } else if code == "zh_cn"@ {
            Locale::Chinese
        } else if code == "zh_tw"@ {
            Locale::Taiwanese
        } else {
            Locale::Invalid
        }
    }

    pub fn from_str(code: &str) -> (locale: Self)
        ensures
            locale == Self::of_code(code@),
    {
        if same_text(code, "jp_ja") {
            Locale::Japanese
        } else if same_text(code, "us_en") {
            Locale::UsEnglish
        } else if same_text(code, "us_fr") {
            Locale::UsFrench
        } else if same_text(code, "us_es") {
            Locale::UsSpanish
        } else if same_text(code, "eu_en") {
            Locale::UsEnglish
        } else if same_text(code, "eu_fr") {
            Locale::UsFrench
        } else if same_text(code, "eu_es") {
            Locale::UsSpanish
        } else if same_text(code, "eu_de") {
            Locale::German
        } else if same_text(code, "eu_nl") {
            Locale::Dutch
        } else if same_text(code, "eu_it") {
            Locale::Italian
        } else if same_text(code, "eu_ru") {
            Locale::Russian
        } else if same_text(code, "kr_ko") {
            Locale::Korean
        } else if same_text(code, "zh_cn") {
            Locale::Chinese
        } else if same_text(code, "zh_tw") {
            Locale::Taiwanese
        } else {
            Locale::Invalid
        }
    }

    /// The locale with the given number: the invalid locale for a number
    /// that no locale has.
    pub fn from_number(value: i32) -> (locale: Self)
        ensures
            0 <= value <= 13 ==> locale.number() == value,
            !(0 <= value <= 13) ==> locale == Locale::Invalid,
    {
        match value {
            0 => Locale::Japanese,
            1 => Locale::UsEnglish,
            2 => Locale::UsFrench,
            3 => Locale::UsSpanish,
            4 => Locale::EuEnglish,
            5 => Locale::EuFrench,
            6 => Locale::EuSpanish,
            7 => Locale::German,
            8 => Locale::Dutch,
            9 => Locale::Italian,
            10 => Locale::Russian,
            11 => Locale::Korean,
            12 => Locale::Chinese,
            13 => Locale::Taiwanese,
            _ => Locale::Invalid,
        }
    }
}

/// The region of a regional file.
#[derive(Debug, Copy, Clone, PartialEq, Eq, Structural)]
pub enum Region {
    Invalid,
    Japan,
    NorthAmerica,
    Europe,
    Korea,
    China,
}

impl Region {
    /// The number that stands for the region in the archive: minus one for
    /// the invalid region, and the place of any other in the list of
    /// regions.
    pub open spec fn number(self) -> int {
        match self {
            Region::Invalid => -1,
            Region::Japan => 0,
            Region::NorthAmerica => 1,
            Region::Europe => 2,
            Region::Korea => 3,
            Region::China => 4,
        }
    }

    /// The code of the region.
    pub open spec fn code(self) -> Seq<char> {
        match self {
            Region::Japan => "jp"@,
            Region::NorthAmerica => "us"@,
            Region::Europe => "eu"@,
            Region::Korea => "kr"@,
            Region::China => "zh"@,
            Region::Invalid => ""@,
        }
    }

    pub fn as_str(self) -> (code: &'static str)
        ensures
            code@ == self.code(),
    {
        match self {
            Region::Japan => "jp",
            Region::NorthAmerica => "us",
            Region::Europe => "eu",
            Region::Korea => "kr",
            Region::China => "zh",
            Region::Invalid => "",
        }
    }

    /// The name of the region as it is shown to a reader.
    pub open spec fn pretty(self) -> Seq<char> {
        match self {
            Region::Japan => "Japan"@,
            Region::NorthAmerica => "North America"@,
            Region::Europe => "Europe"@,
            Region::Korea => "Korea"@,
            Region::China => "China"@,
            Region::Invalid => ""@,
        }
    }

    pub fn as_pretty_str(self) -> (name: &'static str)
        ensures
            name@ == self.pretty(),
    {
        match self {
            Region::Japan => "Japan",
            Region::NorthAmerica => "North America",
            Region::Europe => "Europe",
            Region::Korea => "Korea",
            Region::China => "China",
            Region::Invalid => "",
        }
    }

    /// The region that a code stands for: the invalid region for a string
    /// that is no code.
    pub open spec fn of_code(code: Seq<char>) -> Region {
        if code == "jp"@ {
            Region::Japan
        } else if code == "us"@ {
            Region::NorthAmerica
        } else if code == "eu"@ {
            Region::Europe
        } else if code == "kr"@ {
            Region::Korea
        } else if code == "zh"@ {
            Region::China
        } else {
            Region::Invalid
        }
    }

    pub fn from_str(code: &str) -> (region: Self)
        ensures
            region == Self::of_code(code@),
    {
        if same_text(code, "jp") {
            Region::Japan
        } else if same_text(code, "us") {
            Region::NorthAmerica
        } else if same_text(code, "eu") {
            Region::Europe
        } else if same_text(code, "kr") {
            Region::Korea
        } else if same_text(code, "zh") {
            Region::China
        } else {
            Region::Invalid
        }
    }

    /// The region with the given number: the invalid region for a number
    /// that no region has.
    pub fn from_number(value: i32) -> (region: Self)
        ensures
            0 <= value <= 4 ==> region.number() == value,
            !(0 <= value <= 4) ==> region == Region::Invalid,
    {
        match value {
            0 => Region::Japan,
            1 => Region::NorthAmerica,
            2 => Region::Europe,
            3 => Region::Korea,
            4 => Region::China,
            _ => Region::Invalid,
        }
    }

    /// The region that a locale belongs to.
    pub open spec fn of_locale(locale: Locale) -> Region {
        match locale {
            Locale::Japanese => Region::Japan,
            Locale::UsEnglish | Locale::UsFrench | Locale::UsSpanish => Region::NorthAmerica,
            Locale::EuEnglish
            | Locale::EuFrench
            | Locale::EuSpanish
            | Locale::German
            | Locale::Dutch
            | Locale::Italian
            | Locale::Russian => Region::Europe,
            Locale::Korean => Region::Korea,
            Locale::Chinese | Locale::Taiwanese => Region::China,
            Locale::Invalid => Region::Invalid,
        }
    }

    pub fn from_locale(locale: Locale) -> (region: Self)
        ensures
            region == Self::of_locale(locale),
    {
        match locale {
            Locale::Japanese => Region::Japan,
            Locale::UsEnglish | Locale::UsFrench | Locale::UsSpanish => Region::NorthAmerica,
            Locale::EuEnglish
            | Locale::EuFrench
            | Locale::EuSpanish
            | Locale::German
            | Locale::Dutch
            | Locale::Italian
            | Locale::Russian => Region::Europe,
            Locale::Korean => Region::Korea,
            Locale::Chinese | Locale::Taiwanese => Region::China,
            Locale::Invalid => Region::Invalid,
        }
    }
}

} // verus!
