//! TIFF fields: byte order, directory entries and byte ranges.
use crate::arw::error::{Error, Fault};
use vstd::prelude::*;

verus! {

/// The byte order that a TIFF header declares.
#[derive(Clone, Copy, Debug, PartialEq, Eq, Structural)]
pub enum Endian {
    Little,
    Big,
}

impl Endian {
    /// The number that two bytes hold.
    pub open spec fn value16(self, a: u8, b: u8) -> u16 {
        match self {
            Endian::Little => (a + 256 * b) as u16,
            Endian::Big => (b + 256 * a) as u16,
        }
    }

    /// The number that four bytes hold.
    pub open spec fn value32(self, a: u8, b: u8, c: u8, d: u8) -> u32 {
        match self {
            Endian::Little => (a + 256 * b + 65536 * c + 16777216 * d) as u32,
            Endian::Big => (d + 256 * c + 65536 * b + 16777216 * a) as u32,
        }
    }

    /// The 16-bit number at `at`.
    pub open spec fn at16(self, bytes: Seq<u8>, at: int) -> u16 {
        self.value16(bytes[at], bytes[at + 1])
    }

    /// The 32-bit number at `at`.
    pub open spec fn at32(self, bytes: Seq<u8>, at: int) -> u32 {
        self.value32(bytes[at], bytes[at + 1], bytes[at + 2], bytes[at + 3])
    }

    pub fn u16(self, b: [u8; 2]) -> (out: u16)
        ensures
            out == self.value16(b[0], b[1]),
    {
        match self {
            Endian::Little => b[0] as u16 + 256 * (b[1] as u16),
            Endian::Big => b[1] as u16 + 256 * (b[0] as u16),
        }
    }

    pub fn u32(self, b: [u8; 4]) -> (out: u32)
        ensures
            out == self.value32(b[0], b[1], b[2], b[3]),
    {
        match self {
            Endian::Little => b[0] as u32 + 256 * (b[1] as u32) + 65536 * (b[2] as u32) + 16777216
                * (b[3] as u32),
            Endian::Big => b[3] as u32 + 256 * (b[2] as u32) + 65536 * (b[1] as u32) + 16777216 * (
            b[0] as u32),
        }
    }

    /// Reads the 16-bit number at `at`.
    pub fn read16(self, bytes: &[u8], at: usize) -> (out: u16)
        requires
            at + 2 <= bytes@.len(),
        ensures
            out == self.at16(bytes@, at as int),
    {
        self.u16([bytes[at], bytes[at + 1]])
    }

    /// Reads the 32-bit number at `at`.
    pub fn read32(self, bytes: &[u8], at: usize) -> (out: u32)
        requires
            at + 4 <= bytes@.len(),
        ensures
            out == self.at32(bytes@, at as int),
    {
        self.u32([bytes[at], bytes[at + 1], bytes[at + 2], bytes[at + 3]])
    }
}

/// One 12-byte entry of an image file directory.
#[derive(Clone, Copy, Debug)]
pub struct Entry {
    pub tag: u16,
    pub kind: u16,
    pub count: u32,
    pub value: [u8; 4],
}

/// What an entry says: an `Entry` with its value field as a sequence.
pub struct Field {
    pub tag: u16,
    pub kind: u16,
    pub count: u32,
    pub value: Seq<u8>,
}

/// The entry whose 12 bytes start at `at`.
pub open spec fn field_at(b: Seq<u8>, at: int, endian: Endian) -> Field {
    Field {
        tag: endian.at16(b, at),
        kind: endian.at16(b, at + 2),
        count: endian.at32(b, at + 4),
        value: b.subrange(at + 8, at + 12),
    }
}

impl View for Entry {
    type V = Field;

    open spec fn view(&self) -> Field {
        Field { tag: self.tag, kind: self.kind, count: self.count, value: self.value@ }
    }
}

impl Field {
    /// The 32-bit number in the value field: an inline value or an offset.
    pub open spec fn pointer(self, endian: Endian) -> u32 {
        endian.at32(self.value, 0)
    }

    /// The single integer that the entry holds inline, if it holds one.
    pub open spec fn single(self, endian: Endian) -> Option<u64> {
        if self.count != 1 {
            None
        } else if self.kind == 1 {
            Some(self.value[0] as u64)
        } else if self.kind == 3 {
            Some(endian.at16(self.value, 0) as u64)
        } else if self.kind == 4 || self.kind == 13 {
            Some(self.pointer(endian) as u64)
        } else {
            None
        }
    }

    /// Bytes of one value of a TIFF kind, zero for an unknown kind.
    pub open spec fn unit(kind: u16) -> int {
        if kind == 1 || kind == 2 || kind == 6 || kind == 7 {
            1
        } else if kind == 3 || kind == 8 {
            2
        } else if kind == 4 || kind == 9 || kind == 11 || kind == 13 {
            4
        } else if kind == 5 || kind == 10 || kind == 12 {
            8
        } else {
            0
        }
    }

    /// Bytes that the entry's values take, if its kind is known.
    pub open spec fn size(self) -> Option<u64> {
        if Field::unit(self.kind) == 0 {
            None
        } else {
            Some((self.count * Field::unit(self.kind)) as u64)
        }
    }
}

impl Entry {
    /// Exactly twelve bytes make an entry.
    pub fn parse(b: &[u8], endian: Endian) -> (out: Result<Self, Error>)
        ensures
            match out {
                Ok(entry) => b@.len() == 12 && entry@ == field_at(b@, 0, endian),
                Err(error) => b@.len() != 12 && error@ == Fault::Invalid("short IFD entry"@),
            },
    {
        if b.len() != 12 {
            return Err(Error::Invalid("short IFD entry"));
        }
        Ok(Entry::at(b, 0, endian))
    }

    /// Reads the entry whose 12 bytes start at `at`.
    pub fn at(b: &[u8], at: usize, endian: Endian) -> (out: Self)
        requires
            at + 12 <= b.len(),
        ensures
            out@ == field_at(b@, at as int, endian),
    {
        let value = [b[at + 8], b[at + 9], b[at + 10], b[at + 11]];
        assert(value@ =~= b@.subrange(at + 8, at + 12));
        Entry {
            tag: endian.read16(b, at),
            kind: endian.read16(b, at + 2),
            count: endian.read32(b, at + 4),
            value,
        }
    }

    pub fn scalar(self, endian: Endian) -> (out: Option<u64>)
        ensures
            out == self@.single(endian),
    {
        if self.count != 1 {
            return None;
        }
        if self.kind == 1 {
            Some(self.value[0] as u64)
        } else if self.kind == 3 {
            Some(endian.u16([self.value[0], self.value[1]]) as u64)
        } else if self.kind == 4 || self.kind == 13 {
            Some(endian.u32(self.value) as u64)
        } else {
            None
        }
    }

    pub fn byte_len(self) -> (out: Option<u64>)
        ensures
            out == self@.size(),
    {
        let kind = self.kind;
        let size: u64 = if kind == 1 || kind == 2 || kind == 6 || kind == 7 {
            1
        } else if kind == 3 || kind == 8 {
            2
        } else if kind == 4 || kind == 9 || kind == 11 || kind == 13 {
            4
        } else if kind == 5 || kind == 10 || kind == 12 {
            8
        } else {
            return None;
        };
        assert(self.count as u64 * size <= 8 * 0xffff_ffff) by (nonlinear_arith)
            requires
                size <= 8,
        ;
        Some(self.count as u64 * size)
    }
}

/// Whether `length` bytes at `offset` lie inside a file of `file_len` bytes.
pub open spec fn in_file(offset: u64, length: u64, file_len: u64) -> bool {
    offset + length <= file_len
}

/// The failure of a byte range that leaves the file.
pub open spec fn range_fault() -> Fault {
    Fault::Invalid("byte range outside file or integer overflow"@)
}

pub fn checked_range(offset: u64, length: u64, file_len: u64) -> (out: Result<(), Error>)
    ensures
        match out {
            Ok(()) => in_file(offset, length, file_len),
            Err(error) => !in_file(offset, length, file_len) && error@ == range_fault(),
        },
{
    if length <= file_len && offset <= file_len - length {
        Ok(())
    } else {
        Err(Error::Invalid("byte range outside file or integer overflow"))
    }
}

} // verus!
