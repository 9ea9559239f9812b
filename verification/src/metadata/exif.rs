//! The small subset of EXIF that is shown beside a photograph. Only the first
//! directory and the Exif directory are read; image data never is.
use crate::arw::error::{Fault, IoFailure};
use crate::arw::source::ByteSource;
use crate::arw::tiff::Endian;
use crate::text;
use std::collections::VecDeque;
use vstd::prelude::*;
use vstd::std_specs::vecdeque::VecDequeAdditionalSpecFns;

verus! {

pub const MAX_METADATA_BYTES: usize = 262144;

pub const MAX_ENTRIES: usize = 1024;

pub const MAX_IFDS: usize = 16;

pub const MAX_TEXT_BYTES: usize = 512;

/// A positive fraction.
#[derive(Clone, Copy, Debug, PartialEq, Eq, Structural)]
pub struct Rational {
    pub numerator: u32,
    pub denominator: u32,
}

#[derive(Clone, Debug)]
pub struct ExifMetadata {
    pub orientation: u16,
    /// Seconds.
    pub exposure_time: Option<Rational>,
    pub aperture: Option<Rational>,
    pub iso: Option<u32>,
    /// Millimetres.
    pub focal_length: Option<Rational>,
    pub camera_model: Option<String>,
    pub lens_model: Option<String>,
    pub captured_at: Option<String>,
}

/// What an `ExifMetadata` says.
pub struct Exif {
    pub orientation: u16,
    pub exposure_time: Option<Rational>,
    pub aperture: Option<Rational>,
    pub iso: Option<u32>,
    pub focal_length: Option<Rational>,
    pub camera_model: Option<Seq<char>>,
    pub lens_model: Option<Seq<char>>,
    pub captured_at: Option<Seq<char>>,
}

/// The text of an optional string.
pub open spec fn words(text: Option<String>) -> Option<Seq<char>> {
    match text {
        Some(text) => Some(text@),
        None => None,
    }
}

impl View for ExifMetadata {
    type V = Exif;

    open spec fn view(&self) -> Exif {
        Exif {
            orientation: self.orientation,
            exposure_time: self.exposure_time,
            aperture: self.aperture,
            iso: self.iso,
            focal_length: self.focal_length,
            camera_model: words(self.camera_model),
            lens_model: words(self.lens_model),
            captured_at: words(self.captured_at),
        }
    }
}

/// Upright, and nothing else known.
pub open spec fn unknown() -> Exif {
    Exif {
        orientation: 1,
        exposure_time: None,
        aperture: None,
        iso: None,
        focal_length: None,
        camera_model: None,
        lens_model: None,
        captured_at: None,
    }
}

impl Default for ExifMetadata {
    fn default() -> (out: Self)
        ensures
            out@ == unknown(),
    {
        ExifMetadata {
            orientation: 1,
            exposure_time: None,
            aperture: None,
            iso: None,
            focal_length: None,
            camera_model: None,
            lens_model: None,
            captured_at: None,
        }
    }
}

#[derive(Debug)]
pub enum MetadataError {
    Io(IoFailure),
    Invalid(&'static str),
}

/// What a `MetadataError` says.
pub enum MetadataFault {
    Io(Fault),
    Invalid(Seq<char>),
}

impl View for MetadataError {
    type V = MetadataFault;

    open spec fn view(&self) -> MetadataFault {
        match *self {
            MetadataError::Io(failure) => MetadataFault::Io(failure@),
            MetadataError::Invalid(reason) => MetadataFault::Invalid(reason@),
        }
    }
}

impl MetadataFault {
    /// The sentence shown to a user for this failure.
    pub open spec fn text(self) -> Seq<char> {
        match self {
            MetadataFault::Io(fault) => "EXIF I/O: "@ + fault.text(),
            MetadataFault::Invalid(reason) => "EXIF unavailable: "@ + reason,
        }
    }
}

impl MetadataError {
    /// The sentence shown to a user for this failure.
    pub fn message(&self) -> (out: String)
        ensures
            out@ == self@.text(),
    {
        match self {
            MetadataError::Io(failure) => "EXIF I/O: ".to_owned().concat(failure.text.as_str()),
            MetadataError::Invalid(reason) => "EXIF unavailable: ".to_owned().concat(reason),
        }
    }
}

/// The characters with the Unicode property `White_Space`.
pub open spec fn white(c: char) -> bool {
    let n = c as int;
    9 <= n <= 13 || n == 0x20 || n == 0x85 || n == 0xa0 || n == 0x1680 || 0x2000 <= n <= 0x200a || n
        == 0x2028 || n == 0x2029 || n == 0x202f || n == 0x205f || n == 0x3000
}

/// Text without leading and trailing white space.
pub open spec fn stripped(text: Seq<char>) -> Seq<char>
    decreases text.len(),
{
    if text.len() == 0 {
        text
    } else if white(text[0]) {
        stripped(text.skip(1))
    } else if white(text.last()) {
        stripped(text.drop_last())
    } else {
        text
    }
}

fn is_white(c: char) -> (out: bool)
    ensures
        out == white(c),
{
    let n: u32 = c as u32;
    (9 <= n && n <= 13) || n == 0x20 || n == 0x85 || n == 0xa0 || n == 0x1680 || (0x2000 <= n && n
        <= 0x200a) || n == 0x2028 || n == 0x2029 || n == 0x202f || n == 0x205f || n == 0x3000
}

/// Removes leading and trailing white space.
fn trim(text: &str) -> (out: String)
    ensures
        out@ == stripped(text@),
{
    let ghost all = text@;
    let length: usize = text.unicode_len();
    let mut start: usize = 0;
    assert(all.skip(0) =~= all);
    while start < length && is_white(text.get_char(start))
        invariant
            all == text@,
            length == all.len(),
            start <= length,
            stripped(all) == stripped(all.skip(start as int)),
        decreases length - start,
    {
        assert(all.skip(start as int).skip(1) =~= all.skip(start + 1));
        start += 1;
    }
    let mut end: usize = length;
    assert(all.subrange(start as int, end as int) =~= all.skip(start as int));
    while end > start && is_white(text.get_char(end - 1))
        invariant
            all == text@,
            length == all.len(),
            start <= end <= length,
            start < length ==> !white(all[start as int]),
            stripped(all) == stripped(all.subrange(start as int, end as int)),
        decreases end,
    {
        assert(all.subrange(start as int, end as int).drop_last() =~= all.subrange(
            start as int,
            end - 1,
        ));
        end -= 1;
    }
    text.substring_char(start, end).to_owned()
}

/// A read of `length` bytes at `offset`, after `used` bytes were asked for.
pub open spec fn read_at<R: ByteSource>(
    source: R,
    size: u64,
    used: int,
    offset: u64,
    length: nat,
) -> Result<Seq<u8>, MetadataFault> {
    if offset + length > size {
        Err(MetadataFault::Invalid("TIFF byte range outside file"@))
    } else if used + length > MAX_METADATA_BYTES {
        Err(MetadataFault::Invalid("metadata read budget exceeded"@))
    } else {
        match source.outcome(offset, length) {
            Ok(bytes) => Ok(bytes),
            Err(fault) => Err(MetadataFault::Io(fault)),
        }
    }
}

/// The integer that the entry at `at` holds inline, if it holds one.
pub open spec fn scalar_at(data: Seq<u8>, at: int, endian: Endian) -> Option<u32> {
    if endian.at32(data, at + 4) != 1 {
        None
    } else if endian.at16(data, at + 2) == 3 {
        Some(endian.at16(data, at + 8) as u32)
    } else if endian.at16(data, at + 2) == 4 {
        Some(endian.at32(data, at + 8))
    } else {
        None
    }
}

/// A value that an entry refers to, and the bytes asked for so far.
pub struct Found<T> {
    pub used: int,
    pub value: Option<T>,
}

/// The positive fraction that the entry at `at` refers to.
pub open spec fn rational_at<R: ByteSource>(
    source: R,
    size: u64,
    used: int,
    data: Seq<u8>,
    at: int,
    endian: Endian,
) -> Result<Found<Rational>, MetadataFault> {
    if endian.at16(data, at + 2) != 5 || endian.at32(data, at + 4) != 1 {
        Ok(Found { used, value: None })
    } else {
        match read_at(source, size, used, endian.at32(data, at + 8) as u64, 8) {
            Err(fault) => Err(fault),
            Ok(bytes) => {
                let numerator = endian.at32(bytes, 0);
                let denominator = endian.at32(bytes, 4);
                Ok(
                    Found {
                        used: used + 8,
                        value: if denominator != 0 && numerator != 0 {
                            Some(Rational { numerator, denominator })
                        } else {
                            None
                        },
                    },
                )
            },
        }
    }
}

/// The first of the `n` first bytes that is zero, or `n`.
pub open spec fn terminator(bytes: Seq<u8>, n: int) -> int
    decreases n,
{
    if n <= 0 {
        0
    } else if terminator(bytes, n - 1) < n - 1 || bytes[n - 1] == 0 {
        terminator(bytes, n - 1)
    } else {
        n
    }
}

/// The text in a string field: up to a zero byte, without control characters,
/// not blank.
pub open spec fn field_text(bytes: Seq<u8>) -> Option<Seq<char>> {
    let body = bytes.take(terminator(bytes, bytes.len() as int));
    if exists|i: int|
        0 <= i < body.len() && body[i] < 32 && body[i] != 9 && body[i] != 10 && body[i] != 13 {
        None
    } else {
        let text = stripped(text::lossy_text(body));
        if text.len() == 0 {
            None
        } else {
            Some(text)
        }
    }
}

/// The text that the entry at `at` holds or refers to.
pub open spec fn text_at<R: ByteSource>(
    source: R,
    size: u64,
    used: int,
    data: Seq<u8>,
    at: int,
    endian: Endian,
) -> Result<Found<Seq<char>>, MetadataFault> {
    let length = endian.at32(data, at + 4) as int;
    if endian.at16(data, at + 2) != 2 || length == 0 || length > MAX_TEXT_BYTES {
        Ok(Found { used, value: None })
    } else if length <= 4 {
        Ok(Found { used, value: field_text(data.subrange(at + 8, at + 8 + length)) })
    } else {
        match read_at(source, size, used, endian.at32(data, at + 8) as u64, length as nat) {
            Err(fault) => Err(fault),
            Ok(bytes) => Ok(Found { used: used + length, value: field_text(bytes) }),
        }
    }
}

/// A parse under way.
pub struct Parse {
    pub used: int,
    pub queue: Seq<(u64, bool)>,
    pub exif: Exif,
    pub original_time: Option<Seq<char>>,
}

/// Zero is no sensitivity.
pub open spec fn positive(value: Option<u32>) -> Option<u32> {
    if value == Some(0u32) {
        None
    } else {
        value
    }
}

/// What the entry at `at` adds. Entries of other directories are not followed.
pub open spec fn visit<R: ByteSource>(
    parse: Parse,
    source: R,
    size: u64,
    root: bool,
    data: Seq<u8>,
    at: int,
    endian: Endian,
) -> Result<Parse, MetadataFault> {
    let tag = endian.at16(data, at);
    let exif = parse.exif;
    let value = scalar_at(data, at, endian);
    let fraction = rational_at(source, size, parse.used, data, at, endian);
    let text = text_at(source, size, parse.used, data, at, endian);
    if tag == 0x0112 && root {
        if value is Some && 1 <= value->0 <= 8 {
            Ok(Parse { exif: Exif { orientation: value->0 as u16, ..exif }, ..parse })
        } else {
            Ok(parse)
        }
    } else if tag == 0x0110 && root {
        match text {
            Err(fault) => Err(fault),
            Ok(found) => Ok(
                Parse {
                    used: found.used,
                    exif: Exif { camera_model: found.value, ..exif },
                    ..parse
                },
            ),
        }
    } else if tag == 0x0132 && root {
        match text {
            Err(fault) => Err(fault),
            Ok(found) => Ok(
                Parse {
                    used: found.used,
                    exif: Exif { captured_at: found.value, ..exif },
                    ..parse
                },
            ),
        }
    } else if tag == 0x8769 {
        if value is None {
            Ok(parse)
        } else if parse.queue.len() >= MAX_IFDS {
            Err(MetadataFault::Invalid("too many EXIF pointers"@))
        } else {
            Ok(Parse { queue: parse.queue.push((value->0 as u64, false)), ..parse })
        }
    } else if tag == 0x829a && !root {
        match fraction {
            Err(fault) => Err(fault),
            Ok(found) => Ok(
                Parse {
                    used: found.used,
                    exif: Exif { exposure_time: found.value, ..exif },
                    ..parse
                },
            ),
        }
    } else if tag == 0x829d && !root {
        match fraction {
            Err(fault) => Err(fault),
            Ok(found) => Ok(
                Parse { used: found.used, exif: Exif { aperture: found.value, ..exif }, ..parse },
            ),
        }
    } else if tag == 0x8827 && !root || tag == 0x8833 && !root && exif.iso is None {
        Ok(Parse { exif: Exif { iso: positive(value), ..exif }, ..parse })
    } else if tag == 0x920a && !root {
        match fraction {
            Err(fault) => Err(fault),
            Ok(found) => Ok(
                Parse {
                    used: found.used,
                    exif: Exif { focal_length: found.value, ..exif },
                    ..parse
                },
            ),
        }
    } else if tag == 0x9003 && !root {
        match text {
            Err(fault) => Err(fault),
            Ok(found) => Ok(Parse { used: found.used, original_time: found.value, ..parse }),
        }
    } else if tag == 0xa434 && !root {
        match text {
            Err(fault) => Err(fault),
            Ok(found) => Ok(
                Parse {
                    used: found.used,
                    exif: Exif { lens_model: found.value, ..exif },
                    ..parse
                },
            ),
        }
    } else {
        Ok(parse)
    }
}

/// The first `n` entries of a directory.
pub open spec fn visit_all<R: ByteSource>(
    parse: Parse,
    source: R,
    size: u64,
    root: bool,
    data: Seq<u8>,
    n: int,
    endian: Endian,
) -> Result<Parse, MetadataFault>
    decreases n,
{
    if n <= 0 {
        Ok(parse)
    } else {
        match visit_all(parse, source, size, root, data, n - 1, endian) {
            Err(fault) => Err(fault),
            Ok(before) => visit(before, source, size, root, data, 12 * (n - 1), endian),
        }
    }
}

/// One directory: its entry count, then its entries.
pub open spec fn directory<R: ByteSource>(
    parse: Parse,
    source: R,
    size: u64,
    offset: u64,
    root: bool,
    endian: Endian,
) -> Result<Parse, MetadataFault> {
    match read_at(source, size, parse.used, offset, 2) {
        Err(fault) => Err(fault),
        Ok(head) => {
            let count = endian.at16(head, 0) as int;
            if count > MAX_ENTRIES {
                Err(MetadataFault::Invalid("too many EXIF entries"@))
            } else {
                match read_at(
                    source,
                    size,
                    parse.used + 2,
                    (offset + 2) as u64,
                    (12 * count) as nat,
                ) {
                    Err(fault) => Err(fault),
                    Ok(data) => visit_all(
                        Parse { used: parse.used + 2 + 12 * count, ..parse },
                        source,
                        size,
                        root,
                        data,
                        count,
                        endian,
                    ),
                }
            }
        },
    }
}

/// Every directory in the queue, each once.
pub open spec fn directories<R: ByteSource>(
    parse: Parse,
    source: R,
    size: u64,
    visited: Seq<u64>,
    endian: Endian,
) -> Result<Parse, MetadataFault>
    decreases MAX_IFDS + 1 - visited.len(), parse.queue.len(),
{
    if parse.queue.len() == 0 || visited.len() > MAX_IFDS {
        Ok(parse)
    } else {
        let (offset, root) = parse.queue[0];
        let rest = Parse { queue: parse.queue.skip(1), ..parse };
        if offset == 0 || visited.contains(offset) {
            directories(rest, source, size, visited, endian)
        } else if visited.len() >= MAX_IFDS {
            Err(MetadataFault::Invalid("too many EXIF directories"@))
        } else {
            match directory(rest, source, size, offset, root, endian) {
                Err(fault) => Err(fault),
                Ok(next) => directories(next, source, size, visited.push(offset), endian),
            }
        }
    }
}

/// The time a photograph was taken wins over the time its file was written.
pub open spec fn finished(parse: Parse) -> Exif {
    if parse.original_time is Some {
        Exif { captured_at: parse.original_time, ..parse.exif }
    } else {
        parse.exif
    }
}

/// The metadata of a file, and the bytes that were asked for.
pub open spec fn parsed<R: ByteSource>(source: R, size: u64, used: int) -> Result<
    (Exif, int),
    MetadataFault,
> {
    match read_at(source, size, used, 0, 8) {
        Err(fault) => Err(fault),
        Ok(header) => match crate::arw::parser::declared_order(header) {
            None => Err(MetadataFault::Invalid("missing TIFF byte-order header"@)),
            Some(endian) => if endian.at16(header, 2) != 42 {
                Err(MetadataFault::Invalid("unsupported TIFF container"@))
            } else if endian.at32(header, 4) < 8 {
                Err(MetadataFault::Invalid("invalid first IFD offset"@))
            } else {
                let begun = Parse {
                    used: used + 8,
                    queue: seq![(endian.at32(header, 4) as u64, true)],
                    exif: unknown(),
                    original_time: None,
                };
                match directories(begun, source, size, Seq::empty(), endian) {
                    Err(fault) => Err(fault),
                    Ok(parse) => Ok((finished(parse), parse.used)),
                }
            },
        },
    }
}

/// Reads the metadata of one source, within a budget.
pub struct MetadataReader<R> {
    source: R,
    length: u64,
    bytes_read: usize,
    endian: Endian,
}

impl<R: ByteSource> MetadataReader<R> {
    pub closed spec fn origin(&self) -> R {
        self.source
    }

    pub closed spec fn size(&self) -> u64 {
        self.length
    }

    /// Bytes asked for so far.
    pub closed spec fn used(&self) -> int {
        self.bytes_read as int
    }

    spec fn order(&self) -> Endian {
        self.endian
    }

    spec fn same_file(&self, other: &Self) -> bool {
        self.origin() == other.origin() && self.size() == other.size() && self.order()
            == other.order()
    }

    pub fn new(source: R, length: u64) -> (out: Self)
        ensures
            out.origin() == source,
            out.size() == length,
            out.used() == 0,
    {
        MetadataReader { source, length, bytes_read: 0, endian: Endian::Little }
    }

    /// Bytes asked for so far.
    pub fn bytes_read(&self) -> (out: usize)
        ensures
            out == self.used(),
    {
        self.bytes_read
    }

    fn read(&mut self, offset: u64, out: &mut Vec<u8>) -> (result: Result<(), MetadataError>)
        ensures
            final(self).same_file(old(self)),
            final(out)@.len() == old(out)@.len(),
            match read_at(
                old(self).origin(),
                old(self).size(),
                old(self).used(),
                offset,
                old(out)@.len(),
            ) {
                Ok(bytes) => result is Ok && final(out)@ == bytes && final(self).used() == old(self).used() + old(out)@.len(),
                Err(fault) => result is Err && result->Err_0@ == fault,
            },
            old(self).used() <= MAX_METADATA_BYTES ==> final(self).used() <= MAX_METADATA_BYTES,
    {
        let length: usize = out.len();
        if length as u64 > self.length || offset > self.length - length as u64 {
            return Err(MetadataError::Invalid("TIFF byte range outside file"));
        }
        if length > MAX_METADATA_BYTES || self.bytes_read > MAX_METADATA_BYTES - length {
            return Err(MetadataError::Invalid("metadata read budget exceeded"));
        }
        self.bytes_read = self.bytes_read + length;
        match self.source.fetch(offset, out) {
            Ok(()) => Ok(()),
            Err(failure) => Err(MetadataError::Io(failure)),
        }
    }

    fn scalar(&self, data: &Vec<u8>, at: usize) -> (out: Option<u32>)
        requires
            at + 12 <= data.len(),
        ensures
            out == scalar_at(data@, at as int, self.order()),
    {
        if self.endian.read32(data, at + 4) != 1 {
            return None;
        }
        let kind: u16 = self.endian.read16(data, at + 2);
        if kind == 3 {
            Some(self.endian.read16(data, at + 8) as u32)
        } else if kind == 4 {
            Some(self.endian.read32(data, at + 8))
        } else {
            None
        }
    }

    fn rational(&mut self, data: &Vec<u8>, at: usize) -> (result: Result<
        Option<Rational>,
        MetadataError,
    >)
        requires
            at + 12 <= data.len(),
        ensures
            final(self).same_file(old(self)),
            old(self).used() <= MAX_METADATA_BYTES ==> final(self).used() <= MAX_METADATA_BYTES,
            match rational_at(
                old(self).origin(),
                old(self).size(),
                old(self).used(),
                data@,
                at as int,
                old(self).order(),
            ) {
                Ok(found) => result == Ok::<Option<Rational>, MetadataError>(found.value) && final(self).used() == found.used,
                Err(fault) => result is Err && result->Err_0@ == fault,
            },
    {
        if self.endian.read16(data, at + 2) != 5 || self.endian.read32(data, at + 4) != 1 {
            return Ok(None);
        }
        let mut value: Vec<u8> = vec![0; 8];
        match self.read(self.endian.read32(data, at + 8) as u64, &mut value) {
            Ok(()) => {},
            Err(error) => {
                return Err(error);
            },
        }
        let numerator: u32 = self.endian.read32(&value, 0);
        let denominator: u32 = self.endian.read32(&value, 4);
        if denominator != 0 && numerator != 0 {
            Ok(Some(Rational { numerator, denominator }))
        } else {
            Ok(None)
        }
    }

    fn text(&mut self, data: &Vec<u8>, at: usize) -> (result: Result<Option<String>, MetadataError>)
        requires
            at + 12 <= data.len(),
        ensures
            final(self).same_file(old(self)),
            old(self).used() <= MAX_METADATA_BYTES ==> final(self).used() <= MAX_METADATA_BYTES,
            match text_at(
                old(self).origin(),
                old(self).size(),
                old(self).used(),
                data@,
                at as int,
                old(self).order(),
            ) {
                Ok(found) => result is Ok && words(result->Ok_0) == found.value && final(self).used() == found.used,
                Err(fault) => result is Err && result->Err_0@ == fault,
            },
    {
        if self.endian.read16(data, at + 2) != 2 {
            return Ok(None);
        }
        let length: usize = self.endian.read32(data, at + 4) as usize;
        if length == 0 || length > MAX_TEXT_BYTES {
            return Ok(None);
        }
        let mut bytes: Vec<u8> = vec![0; length];
        if length <= 4 {
            let mut i: usize = 0;
            while i < length
                invariant
                    i <= length <= 4,
                    at + 12 <= data.len(),
                    bytes@.len() == length,
                    forall|k: int| 0 <= k < i ==> bytes@[k] == data@[at + 8 + k],
                decreases length - i,
            {
                bytes.set(i, data[at + 8 + i]);
                i += 1;
            }
            assert(bytes@ =~= data@.subrange(at + 8, at + 8 + length));
        } else {
            match self.read(self.endian.read32(data, at + 8) as u64, &mut bytes) {
                Ok(()) => {},
                Err(error) => {
                    return Err(error);
                },
            }
        }
        Ok(decode_text(&bytes))
    }
}

pub proof fn lemma_terminator(bytes: Seq<u8>, n: int, at: int)
    requires
        0 <= at <= n <= bytes.len(),
        forall|k: int| 0 <= k < at ==> bytes[k] != 0,
        at < n ==> bytes[at] == 0,
    ensures
        terminator(bytes, n) == at,
    decreases n,
{
    if n > 0 {
        if at < n {
            lemma_terminator(bytes, n - 1, at);
        } else {
            lemma_terminator(bytes, n - 1, n - 1);
        }
    }
}

/// The text in a string field.
fn decode_text(bytes: &Vec<u8>) -> (out: Option<String>)
    ensures
        words(out) == field_text(bytes@),
{
    let mut end: usize = 0;
    while end < bytes.len() && bytes[end] != 0
        invariant
            end <= bytes@.len(),
            forall|k: int| 0 <= k < end ==> bytes@[k] != 0,
        decreases bytes@.len() - end,
    {
        end += 1;
    }
    proof {
        lemma_terminator(bytes@, bytes@.len() as int, end as int);
    }
    let body = vstd::slice::slice_subrange(bytes.as_slice(), 0, end);
    assert(body@ =~= bytes@.take(end as int));
    let mut i: usize = 0;
    while i < end && !(body[i] < 32 && body[i] != 9 && body[i] != 10 && body[i] != 13)
        invariant
            i <= end,
            body@.len() == end,
            forall|k: int|
                0 <= k < i ==> !(body@[k] < 32 && body@[k] != 9 && body@[k] != 10 && body@[k]
                    != 13),
        decreases end - i,
    {
        i += 1;
    }
    if i < end {
        assert(body@[i as int] < 32);
        return None;
    }
    let text = trim(text::from_utf8_lossy(body).as_str());
    if text.as_str().is_empty() {
        None
    } else {
        Some(text)
    }
}

/// The parts of a parse that live in memory.
struct Progress {
    queue: VecDeque<(u64, bool)>,
    metadata: ExifMetadata,
    original_time: Option<String>,
}

impl Progress {
    spec fn parse(&self, used: int) -> Parse {
        Parse {
            used,
            queue: self.queue@,
            exif: self.metadata@,
            original_time: words(self.original_time),
        }
    }
}

impl<R: ByteSource> MetadataReader<R> {
    fn visit_entry(&mut self, progress: &mut Progress, root: bool, data: &Vec<u8>, at: usize) -> (
    result: Result<(), MetadataError>)
        requires
            at + 12 <= data.len(),
        ensures
            final(self).same_file(old(self)),
            old(self).used() <= MAX_METADATA_BYTES ==> final(self).used() <= MAX_METADATA_BYTES,
            match visit(
                old(progress).parse(old(self).used()),
                old(self).origin(),
                old(self).size(),
                root,
                data@,
                at as int,
                old(self).order(),
            ) {
                Ok(parse) => result is Ok && final(progress).parse(final(self).used()) == parse,
                Err(fault) => result is Err && result->Err_0@ == fault,
            },
    {
        let tag: u16 = self.endian.read16(data, at);
        if tag == 0x0112 && root {
            if let Some(value) = self.scalar(data, at) {
                if 1 <= value && value <= 8 {
                    progress.metadata.orientation = value as u16;
                }
            }
        } else if tag == 0x0110 && root {
            match self.text(data, at) {
                Ok(text) => progress.metadata.camera_model = text,
                Err(error) => {
                    return Err(error);
                },
            }
        } else if tag == 0x0132 && root {
            match self.text(data, at) {
                Ok(text) => progress.metadata.captured_at = text,
                Err(error) => {
                    return Err(error);
                },
            }
        } else if tag == 0x8769 {
            if let Some(pointer) = self.scalar(data, at) {
                if progress.queue.len() >= MAX_IFDS {
                    return Err(MetadataError::Invalid("too many EXIF pointers"));
                }
                progress.queue.push_back((pointer as u64, false));
            }
        } else if tag == 0x829a && !root {
            match self.rational(data, at) {
                Ok(value) => progress.metadata.exposure_time = value,
                Err(error) => {
                    return Err(error);
                },
            }
        } else if tag == 0x829d && !root {
            match self.rational(data, at) {
                Ok(value) => progress.metadata.aperture = value,
                Err(error) => {
                    return Err(error);
                },
            }
        } else if tag == 0x8827 && !root || tag == 0x8833 && !root
            && progress.metadata.iso.is_none() {
            progress.metadata.iso = match self.scalar(data, at) {
                Some(value) => if value != 0 {
                    Some(value)
                } else {
                    None
                },
                None => None,
            };
        } else if tag == 0x920a && !root {
            match self.rational(data, at) {
                Ok(value) => progress.metadata.focal_length = value,
                Err(error) => {
                    return Err(error);
                },
            }
        } else if tag == 0x9003 && !root {
            match self.text(data, at) {
                Ok(text) => progress.original_time = text,
                Err(error) => {
                    return Err(error);
                },
            }
        } else if tag == 0xa434 && !root {
            match self.text(data, at) {
                Ok(text) => progress.metadata.lens_model = text,
                Err(error) => {
                    return Err(error);
                },
            }
        }
        Ok(())
    }

    fn directory(&mut self, progress: &mut Progress, offset: u64, root: bool) -> (result: Result<
        (),
        MetadataError,
    >)
        ensures
            final(self).same_file(old(self)),
            old(self).used() <= MAX_METADATA_BYTES ==> final(self).used() <= MAX_METADATA_BYTES,
            match directory(
                old(progress).parse(old(self).used()),
                old(self).origin(),
                old(self).size(),
                offset,
                root,
                old(self).order(),
            ) {
                Ok(parse) => result is Ok && final(progress).parse(final(self).used()) == parse,
                Err(fault) => result is Err && result->Err_0@ == fault,
            },
    {
        let mut head: Vec<u8> = vec![0; 2];
        match self.read(offset, &mut head) {
            Ok(()) => {},
            Err(error) => {
                return Err(error);
            },
        }
        let count: usize = self.endian.read16(&head, 0) as usize;
        if count > MAX_ENTRIES {
            return Err(MetadataError::Invalid("too many EXIF entries"));
        }
        let mut data: Vec<u8> = vec![0; count * 12];
        match self.read(offset + 2, &mut data) {
            Ok(()) => {},
            Err(error) => {
                return Err(error);
            },
        }
        let ghost begun = progress.parse(self.used());
        let mut i: usize = 0;
        while i < count
            invariant
                i <= count <= MAX_ENTRIES,
                data@.len() == 12 * count,
                self.same_file(old(self)),
                old(self).used() <= MAX_METADATA_BYTES ==> self.used() <= MAX_METADATA_BYTES,
                directory(
                    old(progress).parse(old(self).used()),
                    old(self).origin(),
                    old(self).size(),
                    offset,
                    root,
                    old(self).order(),
                ) == visit_all(
                    begun,
                    self.origin(),
                    self.size(),
                    root,
                    data@,
                    count as int,
                    self.order(),
                ),
                visit_all(
                    begun,
                    self.origin(),
                    self.size(),
                    root,
                    data@,
                    i as int,
                    self.order(),
                ) == Ok::<Parse, MetadataFault>(progress.parse(self.used())),
            decreases count - i,
        {
            match self.visit_entry(progress, root, &data, 12 * i) {
                Ok(()) => {},
                Err(error) => {
                    proof {
                        lemma_visit_fails(
                            begun,
                            self.origin(),
                            self.size(),
                            root,
                            data@,
                            i + 1,
                            count as int,
                            self.order(),
                        );
                    }
                    return Err(error);
                },
            }
            i += 1;
        }
        Ok(())
    }

    /// Reads the metadata of the source.
    pub fn parse(&mut self) -> (result: Result<ExifMetadata, MetadataError>)
        ensures
            final(self).origin() == old(self).origin(),
            final(self).size() == old(self).size(),
            old(self).used() <= MAX_METADATA_BYTES ==> final(self).used() <= MAX_METADATA_BYTES,
            match parsed(old(self).origin(), old(self).size(), old(self).used()) {
                Ok((exif, used)) => result is Ok && result->Ok_0@ == exif && final(self).used()
                    == used,
                Err(fault) => result is Err && result->Err_0@ == fault,
            },
    {
        let mut header: Vec<u8> = vec![0; 8];
        match self.read(0, &mut header) {
            Ok(()) => {},
            Err(error) => {
                return Err(error);
            },
        }
        self.endian = if header[0] == 0x49 && header[1] == 0x49 {
            Endian::Little
        } else if header[0] == 0x4d && header[1] == 0x4d {
            Endian::Big
        } else {
            return Err(MetadataError::Invalid("missing TIFF byte-order header"));
        };
        if self.endian.read16(&header, 2) != 42 {
            return Err(MetadataError::Invalid("unsupported TIFF container"));
        }
        let first: u64 = self.endian.read32(&header, 4) as u64;
        if first < 8 {
            return Err(MetadataError::Invalid("invalid first IFD offset"));
        }
        let mut queue: VecDeque<(u64, bool)> = VecDeque::new();
        queue.push_back((first, true));
        let mut progress = Progress {
            queue,
            metadata: ExifMetadata::default(),
            original_time: None,
        };
        let mut visited: Vec<u64> = Vec::new();
        let ghost want = directories(
            progress.parse(self.used()),
            self.origin(),
            self.size(),
            visited@,
            self.order(),
        );
        assert(progress.queue@ =~= seq![(first, true)]);
        assert(visited@ =~= Seq::<u64>::empty());
        loop
            invariant_except_break
                want == directories(
                    progress.parse(self.used()),
                    self.origin(),
                    self.size(),
                    visited@,
                    self.order(),
                ),
            invariant
                self.origin() == old(self).origin(),
                self.size() == old(self).size(),
                old(self).used() <= MAX_METADATA_BYTES ==> self.used() <= MAX_METADATA_BYTES,
                visited@.len() <= MAX_IFDS,
                parsed(old(self).origin(), old(self).size(), old(self).used()) == (match want {
                    Ok(parse) => Ok::<(Exif, int), MetadataFault>((finished(parse), parse.used)),
                    Err(fault) => Err::<(Exif, int), MetadataFault>(fault),
                }),
            ensures
                want == Ok::<Parse, MetadataFault>(progress.parse(self.used())),
            decreases MAX_IFDS + 1 - visited@.len(), progress.queue@.len(),
        {
            let ghost whole = progress.queue@;
            match progress.queue.pop_front() {
                None => {
                    break;
                },
                Some((offset, root)) => {
                    assert(progress.queue@ =~= whole.skip(1));
                    if offset == 0 || contains(&visited, offset) {
                        continue;
                    }
                    if visited.len() >= MAX_IFDS {
                        return Err(MetadataError::Invalid("too many EXIF directories"));
                    }
                    visited.push(offset);
                    match self.directory(&mut progress, offset, root) {
                        Ok(()) => {},
                        Err(error) => {
                            return Err(error);
                        },
                    }
                },
            }
        }
        let mut metadata = progress.metadata;
        if progress.original_time.is_some() {
            metadata.captured_at = progress.original_time;
        }
        Ok(metadata)
    }
}

fn contains(visited: &Vec<u64>, offset: u64) -> (out: bool)
    ensures
        out == visited@.contains(offset),
{
    let mut i: usize = 0;
    while i < visited.len()
        invariant
            i <= visited@.len(),
            forall|k: int| 0 <= k < i ==> visited@[k] != offset,
        decreases visited@.len() - i,
    {
        if visited[i] == offset {
            assert(visited@[i as int] == offset);
            return true;
        }
        i += 1;
    }
    false
}

/// A failed entry fails the directory.
proof fn lemma_visit_fails<R: ByteSource>(
    parse: Parse,
    source: R,
    size: u64,
    root: bool,
    data: Seq<u8>,
    n: int,
    m: int,
    endian: Endian,
)
    requires
        n <= m,
        visit_all(parse, source, size, root, data, n, endian) is Err,
    ensures
        visit_all(parse, source, size, root, data, m, endian) == visit_all(
            parse,
            source,
            size,
            root,
            data,
            n,
            endian,
        ),
    decreases m - n,
{
    if n < m {
        lemma_visit_fails(parse, source, size, root, data, n, m - 1, endian);
    }
}

/// Reads the display metadata of an opened file of `length` bytes, which must be a
/// regular one.
pub fn read_exif<R: ByteSource>(source: R, length: u64, regular: bool) -> (result: Result<
    ExifMetadata,
    MetadataError,
>)
    ensures
        if !regular {
            result is Err && result->Err_0@ == MetadataFault::Invalid("input is not a regular file"@)
        } else {
            match parsed(source, length, 0) {
                Ok((exif, _)) => result is Ok && result->Ok_0@ == exif,
                Err(fault) => result is Err && result->Err_0@ == fault,
            }
        },
{
    if !regular {
        return Err(MetadataError::Invalid("input is not a regular file"));
    }
    let mut reader = MetadataReader::new(source, length);
    reader.parse()
}

/// Whether a value that is known is positive.
pub open spec fn sensible(exif: Exif) -> bool {
    &&& 1 <= exif.orientation <= 8
    &&& exif.iso matches Some(iso) ==> iso > 0
    &&& exif.exposure_time matches Some(time) ==> time.numerator > 0 && time.denominator > 0
    &&& exif.aperture matches Some(aperture) ==> aperture.numerator > 0 && aperture.denominator > 0
    &&& exif.focal_length matches Some(length) ==> length.numerator > 0 && length.denominator > 0
}

/// Entries keep metadata sensible.
proof fn lemma_visit<R: ByteSource>(
    parse: Parse,
    source: R,
    size: u64,
    root: bool,
    data: Seq<u8>,
    n: int,
    endian: Endian,
)
    ensures
        visit_all(parse, source, size, root, data, n, endian) matches Ok(next) ==> (sensible(
            parse.exif,
        ) ==> sensible(next.exif)),
    decreases n,
{
    if n > 0 {
        lemma_visit(parse, source, size, root, data, n - 1, endian);
    }
}

proof fn lemma_directories<R: ByteSource>(
    parse: Parse,
    source: R,
    size: u64,
    visited: Seq<u64>,
    endian: Endian,
)
    requires
        sensible(parse.exif),
    ensures
        directories(parse, source, size, visited, endian) matches Ok(next) ==> sensible(next.exif),
    decreases MAX_IFDS + 1 - visited.len(), parse.queue.len(),
{
    if parse.queue.len() > 0 && visited.len() <= MAX_IFDS {
        let (offset, root) = parse.queue[0];
        let rest = Parse { queue: parse.queue.skip(1), ..parse };
        if offset == 0 || visited.contains(offset) {
            lemma_directories(rest, source, size, visited, endian);
        } else if visited.len() < MAX_IFDS {
            let head = read_at(source, size, rest.used, offset, 2);
            if head is Ok {
                let count = endian.at16(head->Ok_0, 0) as int;
                let data = read_at(
                    source,
                    size,
                    rest.used + 2,
                    (offset + 2) as u64,
                    (12 * count) as nat,
                );
                if count <= MAX_ENTRIES && data is Ok {
                    lemma_visit(
                        Parse { used: rest.used + 2 + 12 * count, ..rest },
                        source,
                        size,
                        root,
                        data->Ok_0,
                        count,
                        endian,
                    );
                }
            }
            match directory(rest, source, size, offset, root, endian) {
                Ok(next) => lemma_directories(
                    next,
                    source,
                    size,
                    visited.push(offset),
                    endian,
                ),
                Err(_) => {},
            }
        }
    }
}

/// Whatever a file declares, the orientation that is shown is one of the eight, and
/// the sensitivity and the fractions that are shown are positive.
pub proof fn law_metadata_is_sensible<R: ByteSource>(source: R, size: u64)
    ensures
        parsed(source, size, 0) matches Ok((exif, _)) ==> sensible(exif),
{
    let header = read_at(source, size, 0, 0, 8);
    if header is Ok {
        if let Some(endian) = crate::arw::parser::declared_order(header->Ok_0) {
            lemma_directories(
                Parse {
                    used: 8,
                    queue: seq![(endian.at32(header->Ok_0, 4) as u64, true)],
                    exif: unknown(),
                    original_time: None,
                },
                source,
                size,
                Seq::empty(),
                endian,
            );
        }
    }
}

} // verus!
