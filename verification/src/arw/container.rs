//! What the bytes of a TIFF file say, whoever reads them: numbers, directories and
//! their entries.
use crate::arw::error::Fault;
use crate::arw::source::ByteSource;
use crate::arw::tiff::Endian;
use vstd::prelude::*;

verus! {

/// Whether a source gives the bytes of a file, wherever it is read.
pub open spec fn serves<R: ByteSource>(source: R, file: Seq<u8>) -> bool {
    forall|offset: u64, length: nat|
        offset + length <= file.len() ==> #[trigger] source.outcome(offset, length) == Ok::<
            Seq<u8>,
            Fault,
        >(file.subrange(offset as int, offset + length))
}

/// The number in the two bytes at `at`.
#[verifier::opaque]
pub open spec fn short(file: Seq<u8>, at: int, little: bool) -> int {
    if little {
        file[at] + 256 * file[at + 1]
    } else {
        256 * file[at] + file[at + 1]
    }
}

/// The number in the four bytes at `at`.
#[verifier::opaque]
pub open spec fn long(file: Seq<u8>, at: int, little: bool) -> int {
    if little {
        short(file, at, little) + 65536 * short(file, at + 2, little)
    } else {
        65536 * short(file, at, little) + short(file, at + 2, little)
    }
}

/// Whether the file begins as a TIFF file does: the letters of a byte order, the
/// number forty-two, and the offset of the first directory.
pub open spec fn begins(file: Seq<u8>, little: bool) -> bool {
    &&& file.len() >= 8
    &&& little ==> file[0] == 'I' as int && file[1] == 'I' as int
    &&& !little ==> file[0] == 'M' as int && file[1] == 'M' as int
    &&& short(file, 2, little) == 42
    &&& long(file, 4, little) >= 8
}

/// How many entries the directory at `d` has.
pub open spec fn entries(file: Seq<u8>, d: int, little: bool) -> int {
    short(file, d, little)
}

/// Where the entry `k` of the directory at `d` starts.
pub open spec fn entry(d: int, k: int) -> int {
    d + 2 + 12 * k
}

pub open spec fn tag(file: Seq<u8>, d: int, k: int, little: bool) -> int {
    short(file, entry(d, k), little)
}

pub open spec fn kind(file: Seq<u8>, d: int, k: int, little: bool) -> int {
    short(file, entry(d, k) + 2, little)
}

/// How many values the entry has.
pub open spec fn amount(file: Seq<u8>, d: int, k: int, little: bool) -> int {
    long(file, entry(d, k) + 4, little)
}

/// The number in the last four bytes of the entry: its value, or where it is.
pub open spec fn value(file: Seq<u8>, d: int, k: int, little: bool) -> int {
    long(file, entry(d, k) + 8, little)
}

/// The single number of sixteen or thirty-two bits that the entry holds itself.
pub open spec fn number(file: Seq<u8>, d: int, k: int, little: bool, n: int) -> bool {
    &&& amount(file, d, k, little) == 1
    &&& (kind(file, d, k, little) == 3 && short(file, entry(d, k) + 8, little) == n || kind(
        file,
        d,
        k,
        little,
    ) == 4 && value(file, d, k, little) == n)
}

/// Whether no entry behind `k` has the tag of the entry `k`.
pub open spec fn last_of_its_tag(file: Seq<u8>, d: int, k: int, little: bool) -> bool {
    forall|i: int|
        k < i < entries(file, d, little) ==> #[trigger] tag(file, d, i, little) != tag(
            file,
            d,
            k,
            little,
        )
}

/// The byte order of that name.
pub open spec fn order(little: bool) -> Endian {
    if little {
        Endian::Little
    } else {
        Endian::Big
    }
}

/// Numbers in a part of a file are those of the file.
pub proof fn lemma_numbers(file: Seq<u8>, start: int, end: int, at: int, little: bool)
    requires
        0 <= start <= end <= file.len(),
        0 <= at,
    ensures
        at + 2 <= end - start ==> order(little).at16(file.subrange(start, end), at) as int == short(
            file,
            start + at,
            little,
        ),
        at + 4 <= end - start ==> order(little).at32(file.subrange(start, end), at) as int == long(
            file,
            start + at,
            little,
        ),
        0 <= short(file, start + at, little) < 65536,
        0 <= long(file, start + at, little) < 4294967296,
{
    reveal(short);
    reveal(long);
}

/// The numbers in an entry of a directory.
pub proof fn lemma_entry(file: Seq<u8>, d: int, k: int, little: bool)
    requires
        0 <= d,
        0 <= k < entries(file, d, little),
        d + 2 + 12 * entries(file, d, little) <= file.len(),
    ensures
        ({
            let data = file.subrange(d + 2, d + 2 + 12 * entries(file, d, little));
            let at = 12 * k;
            &&& order(little).at16(data, at) as int == tag(file, d, k, little)
            &&& order(little).at16(data, at + 2) as int == kind(file, d, k, little)
            &&& order(little).at32(data, at + 4) as int == amount(file, d, k, little)
            &&& order(little).at16(data, at + 8) as int == short(file, entry(d, k) + 8, little)
            &&& order(little).at32(data, at + 8) as int == value(file, d, k, little)
            &&& 0 <= value(file, d, k, little) < 4294967296
            &&& 0 <= amount(file, d, k, little) < 4294967296
        }),
{
    let end = d + 2 + 12 * entries(file, d, little);
    lemma_numbers(file, d + 2, end, 12 * k, little);
    lemma_numbers(file, d + 2, end, 12 * k + 2, little);
    lemma_numbers(file, d + 2, end, 12 * k + 4, little);
    lemma_numbers(file, d + 2, end, 12 * k + 8, little);
}

} // verus!
