//! Bounded discovery and extraction of the JPEG previews embedded in an ARW.
use crate::arw::error::{Error, Fault};
use crate::arw::jpeg;
use crate::arw::source::ByteSource;
use crate::arw::tiff;
use crate::arw::tiff::{checked_range, Endian, Entry, Field};
use crate::memory;
use std::collections::VecDeque;
use vstd::prelude::*;
use vstd::std_specs::vecdeque::VecDequeAdditionalSpecFns;

verus! {

pub const MAX_IFDS: usize = 128;

pub const MAX_ENTRIES: usize = 4096;

pub const MAX_POINTERS: usize = 128;

pub const MAX_CANDIDATES: usize = 128;

pub const MAX_METADATA: u64 = 4194304;

pub const MAX_JPEG_BYTES: u64 = 134217728;

/// Bytes of a header or tail that one read brings in.
pub const WINDOW: u64 = 4096;

/// One embedded JPEG. Its dimensions come from the JPEG's own frame header.
#[derive(Clone, Copy, Debug, PartialEq, Eq, Structural)]
pub struct EmbeddedPreview {
    pub offset: u64,
    pub length: u64,
    pub width: Option<u32>,
    pub height: Option<u32>,
}

#[derive(Clone, Copy, Debug, PartialEq, Eq, Structural)]
pub struct IoStats {
    /// Bytes requested by bounded read calls, including failed ones.
    pub bytes_read: u64,
    /// Logical read requests.
    pub read_calls: u64,
}

/// An image file directory that is still to be walked.
#[derive(Clone, Copy, Debug, PartialEq, Eq, Structural)]
pub struct Ifd {
    pub offset: u64,
    pub sony: bool,
    pub end: u64,
}

/// Holds one source open across discovery and extraction.
pub struct PreviewReader<R> {
    source: R,
    file_len: u64,
    stats: IoStats,
    metadata_bytes: u64,
    warnings: Vec<String>,
    primary_ifd: u64,
    orientation: u16,
}

/// What changes in a reader while it works.
pub struct Scan {
    pub stats: IoStats,
    /// Metadata bytes that the discovery under way has asked for.
    pub used: u64,
    pub warnings: Seq<Seq<char>>,
    /// The first directory of the file, the only one whose orientation counts.
    pub primary: u64,
    pub orientation: u16,
}

pub open spec fn saturating(a: u64, b: int) -> u64 {
    if a + b > u64::MAX {
        u64::MAX
    } else {
        (a + b) as u64
    }
}

impl Scan {
    /// A read of `length` bytes at `offset`.
    pub open spec fn read<R: ByteSource>(
        self,
        source: R,
        file_len: u64,
        offset: u64,
        length: nat,
    ) -> (Scan, Result<Seq<u8>, Fault>) {
        if offset + length > file_len {
            (self, Err(tiff::range_fault()))
        } else {
            (
                Scan {
                    stats: IoStats {
                        bytes_read: saturating(self.stats.bytes_read, length as int),
                        read_calls: saturating(self.stats.read_calls, 1),
                    },
                    ..self
                },
                source.outcome(offset, length),
            )
        }
    }

    /// A read that counts against the metadata budget.
    pub open spec fn metadata<R: ByteSource>(
        self,
        source: R,
        file_len: u64,
        offset: u64,
        length: nat,
    ) -> (Scan, Result<Seq<u8>, Fault>) {
        if self.used + length > MAX_METADATA {
            (self, Err(Fault::Limit("metadata read budget exceeded"@)))
        } else {
            Scan { used: (self.used + length) as u64, ..self }.read(
                source,
                file_len,
                offset,
                length,
            )
        }
    }

    /// What every step keeps: the budget, the bytes asked for being counted
    /// against it, the number of remarks and a valid orientation.
    pub open spec fn leads_to(self, next: Scan) -> bool {
        &&& self.used <= next.used
        &&& self.used <= MAX_METADATA ==> next.used <= MAX_METADATA
        &&& next.stats.bytes_read <= saturating(self.stats.bytes_read, next.used - self.used)
        &&& self.stats.bytes_read <= next.stats.bytes_read
        &&& self.warnings.len() <= MAX_IFDS ==> next.warnings.len() <= MAX_IFDS
        &&& 1 <= self.orientation <= 8 ==> 1 <= next.orientation <= 8
    }

    /// A remark about a part of the file that is passed over.
    pub open spec fn warn(self, fault: Fault) -> Scan {
        if self.warnings.len() < MAX_IFDS {
            Scan { warnings: self.warnings.push(fault.text()), ..self }
        } else {
            self
        }
    }
}

/// The integers that a directory declares about an image.
#[derive(Clone, Copy)]
pub struct Tags {
    pub offset: Option<u64>,
    pub length: Option<u64>,
    pub strip_offset: Option<u64>,
    pub strip_length: Option<u64>,
    pub compression: Option<u64>,
    pub photometric: Option<u64>,
    pub bits: Option<u64>,
    pub samples: Option<u64>,
}

/// A directory walk under way.
pub struct Walk {
    pub scan: Scan,
    pub queue: Seq<Ifd>,
    pub candidates: Seq<(u64, u64)>,
    pub tags: Tags,
}

/// Queues one more directory unless too many are waiting.
pub open spec fn enqueue(queue: Seq<Ifd>, ifd: Ifd) -> Seq<Ifd> {
    if queue.len() < MAX_IFDS {
        queue.push(ifd)
    } else {
        queue
    }
}

/// Queues the directories at the first `n` of some offsets.
pub open spec fn enqueue_all(queue: Seq<Ifd>, offsets: Seq<u64>, n: int, end: u64) -> Seq<Ifd>
    decreases n,
{
    if n <= 0 {
        queue
    } else {
        enqueue(
            enqueue_all(queue, offsets, n - 1, end),
            Ifd { offset: offsets[n - 1], sony: false, end },
        )
    }
}

/// The 32-bit numbers that some bytes hold.
pub open spec fn words(bytes: Seq<u8>, endian: Endian) -> Seq<u64> {
    Seq::new(bytes.len() / 4, |i: int| endian.at32(bytes, 4 * i) as u64)
}

/// The directory offsets that an entry points to.
pub open spec fn pointers_of<R: ByteSource>(
    scan: Scan,
    source: R,
    file_len: u64,
    field: Field,
    endian: Endian,
) -> (Scan, Result<Seq<u64>, Fault>) {
    if !(field.kind == 4 || field.kind == 13) || field.count == 0 {
        (scan, Ok(Seq::empty()))
    } else if field.count > MAX_POINTERS {
        (scan, Err(Fault::Limit("too many IFD pointers"@)))
    } else if field.single(endian) is Some {
        (scan, Ok(seq![field.single(endian)->0]))
    } else {
        let (next, read) = scan.metadata(
            source,
            file_len,
            field.pointer(endian) as u64,
            (4 * field.count) as nat,
        );
        match read {
            Ok(bytes) => (next, Ok(words(bytes, endian))),
            Err(fault) => (next, Err(fault)),
        }
    }
}

/// Notes a byte range that may hold a preview.
pub open spec fn candidate(walk: Walk, file_len: u64, offset: u64, length: u64) -> Walk {
    if walk.candidates.len() >= MAX_CANDIDATES {
        walk
    } else if !(4 <= length <= MAX_JPEG_BYTES) || !tiff::in_file(offset, length, file_len) {
        Walk {
            scan: walk.scan.warn(Fault::Invalid("invalid embedded preview range"@)),
            ..walk
        }
    } else {
        Walk { candidates: walk.candidates.push((offset, length)), ..walk }
    }
}

/// The signatures that precede a Sony maker note's directory.
pub open spec fn sony_signature(bytes: Seq<u8>) -> bool {
    let padded = bytes + Seq::new((12 - bytes.len()) as nat, |i: int| 0u8);
    padded == seq![0x53u8, 0x4f, 0x4e, 0x59, 0x20, 0x44, 0x53, 0x43, 0x20, 0, 0, 0] || padded
        == seq![0x53u8, 0x4f, 0x4e, 0x59, 0x20, 0x43, 0x41, 0x4d, 0x20, 0, 0, 0]
}

/// What a maker note entry adds to the queue.
pub open spec fn maker_note<R: ByteSource>(
    walk: Walk,
    source: R,
    file_len: u64,
    field: Field,
    endian: Endian,
) -> Walk {
    let start = field.pointer(endian) as u64;
    match field.size() {
        Some(length) => if length > 4 && tiff::in_file(start, length, file_len) {
            let n = if length < 12 {
                length as nat
            } else {
                12
            };
            let (scan, read) = walk.scan.metadata(source, file_len, start, n);
            match read {
                Ok(bytes) => Walk {
                    scan,
                    queue: enqueue(
                        walk.queue,
                        Ifd {
                            offset: (start + if sony_signature(bytes) {
                                12int
                            } else {
                                0
                            }) as u64,
                            sony: true,
                            end: (start + length) as u64,
                        },
                    ),
                    ..walk
                },
                Err(_) => Walk { scan, ..walk },
            }
        } else {
            walk
        },
        None => walk,
    }
}

/// What one directory entry does to a walk. Unknown entries are never read.
pub open spec fn visit<R: ByteSource>(
    walk: Walk,
    source: R,
    file_len: u64,
    ifd: Ifd,
    field: Field,
    endian: Endian,
) -> Walk {
    let tag = field.tag;
    let tags = walk.tags;
    let value = field.single(endian);
    if tag == 0x0201 {
        Walk { tags: Tags { offset: value, ..tags }, ..walk }
    } else if tag == 0x0202 {
        Walk { tags: Tags { length: value, ..tags }, ..walk }
    } else if tag == 0x0111 {
        Walk { tags: Tags { strip_offset: value, ..tags }, ..walk }
    } else if tag == 0x0117 {
        Walk { tags: Tags { strip_length: value, ..tags }, ..walk }
    } else if tag == 0x0103 {
        Walk { tags: Tags { compression: value, ..tags }, ..walk }
    } else if tag == 0x0106 {
        Walk { tags: Tags { photometric: value, ..tags }, ..walk }
    } else if tag == 0x0102 {
        Walk { tags: Tags { bits: value, ..tags }, ..walk }
    } else if tag == 0x0115 {
        Walk { tags: Tags { samples: value, ..tags }, ..walk }
    } else if tag == 0x0112 && !ifd.sony && ifd.offset == walk.scan.primary {
        if value is Some && 1 <= value->0 <= 8 {
            Walk { scan: Scan { orientation: value->0 as u16, ..walk.scan }, ..walk }
        } else {
            walk
        }
    } else if (tag == 0x014a || tag == 0x8769 || tag == 0xa005) && !ifd.sony {
        let (scan, found) = pointers_of(walk.scan, source, file_len, field, endian);
        match found {
            Ok(offsets) => Walk {
                scan,
                queue: enqueue_all(walk.queue, offsets, offsets.len() as int, file_len),
                ..walk
            },
            Err(fault) => Walk { scan: scan.warn(fault), ..walk },
        }
    } else if tag == 0x927c && !ifd.sony && (field.kind == 1 || field.kind == 7) {
        maker_note(walk, source, file_len, field, endian)
    } else if tag == 0x2001 && ifd.sony && (field.kind == 1 || field.kind == 7) {
        let start = field.pointer(endian) as u64;
        // A proprietary prefix of 32 bytes precedes Sony's preview image.
        match field.size() {
            Some(length) => if length > 32 && tiff::in_file(start, length, file_len) {
                candidate(walk, file_len, (start + 32) as u64, (length - 32) as u64)
            } else {
                walk
            },
            None => walk,
        }
    } else {
        walk
    }
}

/// The first `n` entries of a directory.
pub open spec fn visit_all<R: ByteSource>(
    walk: Walk,
    source: R,
    file_len: u64,
    ifd: Ifd,
    data: Seq<u8>,
    n: int,
    endian: Endian,
) -> Walk
    decreases n,
{
    if n <= 0 {
        walk
    } else {
        visit(
            visit_all(walk, source, file_len, ifd, data, n - 1, endian),
            source,
            file_len,
            ifd,
            tiff::field_at(data, 12 * (n - 1), endian),
            endian,
        )
    }
}

/// Whether the strip of a directory is a JPEG image rather than sensor data:
/// lossless RAW strips carry the same compression codes.
pub open spec fn jpeg_strip(tags: Tags) -> bool {
    &&& tags.compression == Some(6u64) || tags.compression == Some(7u64)
    &&& tags.photometric == Some(1u64) || tags.photometric == Some(2u64) || tags.photometric
        == Some(6u64)
    &&& tags.bits is None || tags.bits == Some(8u64)
    &&& tags.samples is None || tags.samples == Some(1u64) || tags.samples == Some(3u64)
        || tags.samples == Some(4u64)
}

/// The candidates that the finished tags of a directory declare.
pub open spec fn declared(walk: Walk, file_len: u64) -> Walk {
    let tags = walk.tags;
    let first = if tags.offset is Some && tags.length is Some {
        candidate(walk, file_len, tags.offset->0, tags.length->0)
    } else {
        walk
    };
    if jpeg_strip(tags) && tags.strip_offset is Some && tags.strip_length is Some {
        candidate(first, file_len, tags.strip_offset->0, tags.strip_length->0)
    } else {
        first
    }
}

pub open spec fn no_tags() -> Tags {
    Tags {
        offset: None,
        length: None,
        strip_offset: None,
        strip_length: None,
        compression: None,
        photometric: None,
        bits: None,
        samples: None,
    }
}

/// The walk of one directory, and why it stopped if it did.
pub open spec fn walked<R: ByteSource>(
    walk: Walk,
    source: R,
    file_len: u64,
    ifd: Ifd,
    endian: Endian,
) -> (Walk, Result<(), Fault>) {
    if !tiff::in_file(ifd.offset, 2, ifd.end) {
        (walk, Err(tiff::range_fault()))
    } else {
        let (scan, head) = walk.scan.metadata(source, file_len, ifd.offset, 2);
        match head {
            Err(fault) => (Walk { scan, ..walk }, Err(fault)),
            Ok(head) => walked_entries(
                Walk { scan, ..walk },
                source,
                file_len,
                ifd,
                endian.at16(head, 0) as int,
                endian,
            ),
        }
    }
}

/// The walk of a directory of `count` entries.
pub open spec fn walked_entries<R: ByteSource>(
    walk: Walk,
    source: R,
    file_len: u64,
    ifd: Ifd,
    count: int,
    endian: Endian,
) -> (Walk, Result<(), Fault>) {
    let start = (ifd.offset + 2) as u64;
    // A maker note may end behind its entries, without a link to a next one.
    let linked = ifd.offset + 2 + 12 * count + 4 <= ifd.end;
    if count > MAX_ENTRIES {
        (walk, Err(Fault::Limit("too many entries in IFD"@)))
    } else if ifd.offset + 2 + 12 * count > ifd.end {
        (walk, Err(tiff::range_fault()))
    } else if !ifd.sony && !linked {
        (walk, Err(Fault::Invalid("IFD next pointer truncated"@)))
    } else {
        let length = (12 * count + if linked {
            4int
        } else {
            0
        }) as nat;
        let (scan, read) = walk.scan.metadata(source, file_len, start, length);
        match read {
            Err(fault) => (Walk { scan, ..walk }, Err(fault)),
            Ok(data) => {
                let seen = visit_all(
                    Walk { scan, tags: no_tags(), ..walk },
                    source,
                    file_len,
                    ifd,
                    data,
                    count,
                    endian,
                );
                let done = declared(seen, file_len);
                let next = endian.at32(data, 12 * count) as u64;
                if !ifd.sony && linked && next != 0 {
                    (
                        Walk {
                            queue: enqueue(
                                done.queue,
                                Ifd { offset: next, sony: false, end: file_len },
                            ),
                            ..done
                        },
                        Ok(()),
                    )
                } else {
                    (done, Ok(()))
                }
            },
        }
    }
}

impl<R: ByteSource> PreviewReader<R> {
    /// The source behind the reader.
    pub closed spec fn origin(&self) -> R {
        self.source
    }

    /// The length that the file was opened with.
    pub closed spec fn size(&self) -> u64 {
        self.file_len
    }

    /// What the reader has done so far.
    pub closed spec fn scan(&self) -> Scan {
        Scan {
            stats: self.stats,
            used: self.metadata_bytes,
            warnings: Seq::new(self.warnings@.len(), |i: int| self.warnings@[i]@),
            primary: self.primary_ifd,
            orientation: self.orientation,
        }
    }

    /// The same file, whatever was read of it.
    pub open spec fn same_file(&self, other: &Self) -> bool {
        self.origin() == other.origin() && self.size() == other.size()
    }

    fn read_at(&mut self, offset: u64, out: &mut Vec<u8>) -> (result: Result<(), Error>)
        ensures
            final(self).same_file(old(self)),
            final(out)@.len() == old(out)@.len(),
            ({
                let (scan, read) = old(self).scan().read(
                    old(self).origin(),
                    old(self).size(),
                    offset,
                    old(out)@.len(),
                );
                &&& final(self).scan() == scan
                &&& match result {
                    Ok(()) => read == Ok::<Seq<u8>, Fault>(final(out)@),
                    Err(error) => read == Err::<Seq<u8>, Fault>(error@),
                }
            }),
    {
        match checked_range(offset, out.len() as u64, self.file_len) {
            Ok(()) => {},
            Err(error) => {
                return Err(error);
            },
        }
        self.stats.bytes_read = self.stats.bytes_read.saturating_add(out.len() as u64);
        self.stats.read_calls = self.stats.read_calls.saturating_add(1);
        match self.source.fetch(offset, out) {
            Ok(()) => Ok(()),
            Err(failure) => Err(Error::Io(failure)),
        }
    }

    fn metadata(&mut self, offset: u64, out: &mut Vec<u8>) -> (result: Result<(), Error>)
        ensures
            final(self).same_file(old(self)),
            old(self).scan().leads_to(final(self).scan()),
            final(out)@.len() == old(out)@.len(),
            ({
                let (scan, read) = old(self).scan().metadata(
                    old(self).origin(),
                    old(self).size(),
                    offset,
                    old(out)@.len(),
                );
                &&& final(self).scan() == scan
                &&& match result {
                    Ok(()) => read == Ok::<Seq<u8>, Fault>(final(out)@),
                    Err(error) => read == Err::<Seq<u8>, Fault>(error@),
                }
            }),
    {
        let length: u64 = out.len() as u64;
        if length > MAX_METADATA || self.metadata_bytes > MAX_METADATA - length {
            return Err(Error::Limit("metadata read budget exceeded"));
        }
        self.metadata_bytes = self.metadata_bytes + length;
        self.read_at(offset, out)
    }

    fn warn(&mut self, error: Error)
        ensures
            final(self).same_file(old(self)),
            old(self).scan().leads_to(final(self).scan()),
            final(self).scan() == old(self).scan().warn(error@),
    {
        if self.warnings.len() < MAX_IFDS {
            self.warnings.push(error.message());
        }
        assert(self.scan().warnings =~= old(self).scan().warn(error@).warnings);
    }

    fn pointers(&mut self, entry: Entry, endian: Endian) -> (result: Result<Vec<u64>, Error>)
        ensures
            final(self).same_file(old(self)),
            old(self).scan().leads_to(final(self).scan()),
            ({
                let (scan, found) = pointers_of(
                    old(self).scan(),
                    old(self).origin(),
                    old(self).size(),
                    entry@,
                    endian,
                );
                &&& final(self).scan() == scan
                &&& match result {
                    Ok(offsets) => found == Ok::<Seq<u64>, Fault>(offsets@),
                    Err(error) => found == Err::<Seq<u64>, Fault>(error@),
                }
            }),
    {
        if !(entry.kind == 4 || entry.kind == 13) || entry.count == 0 {
            return Ok(Vec::new());
        }
        if entry.count as usize > MAX_POINTERS {
            return Err(Error::Limit("too many IFD pointers"));
        }
        if let Some(n) = entry.scalar(endian) {
            let one: Vec<u64> = vec![n];
            assert(one@ =~= seq![n]);
            return Ok(one);
        }
        let count: usize = entry.count as usize;
        let mut values: Vec<u8> = vec![0; count * 4];
        match self.metadata(endian.u32(entry.value) as u64, &mut values) {
            Ok(()) => {},
            Err(error) => {
                return Err(error);
            },
        }
        let mut offsets: Vec<u64> = Vec::new();
        let mut i: usize = 0;
        while i < count
            invariant
                i <= count <= MAX_POINTERS,
                values@.len() == 4 * count,
                offsets@.len() == i,
                forall|k: int|
                    0 <= k < i ==> #[trigger] offsets@[k] == endian.at32(values@, 4 * k) as u64,
            decreases count - i,
        {
            offsets.push(endian.read32(&values, 4 * i) as u64);
            i += 1;
        }
        assert(offsets@ =~= words(values@, endian));
        Ok(offsets)
    }

    fn add_candidate(&mut self, candidates: &mut Vec<(u64, u64)>, offset: u64, length: u64)
        ensures
            final(self).same_file(old(self)),
            old(self).scan().leads_to(final(self).scan()),
            plausible(old(candidates)@, old(self).size()) ==> plausible(
                final(candidates)@,
                old(self).size(),
            ),
            forall|queue: Seq<Ifd>, tags: Tags|
                #![trigger candidate(
                    (Walk { scan: old(self).scan(), queue, candidates: old(candidates)@, tags }),
                    old(self).size(),
                    offset,
                    length,
                )]
                candidate(
                    (Walk { scan: old(self).scan(), queue, candidates: old(candidates)@, tags }),
                    old(self).size(),
                    offset,
                    length,
                ) == (Walk {
                    scan: final(self).scan(),
                    queue,
                    candidates: final(candidates)@,
                    tags,
                }),
    {
        if candidates.len() >= MAX_CANDIDATES {
            return;
        }
        if length < 4 || length > MAX_JPEG_BYTES || checked_range(
            offset,
            length,
            self.file_len,
        ).is_err() {
            self.warn(Error::Invalid("invalid embedded preview range"));
        } else {
            candidates.push((offset, length));
        }
    }
}

impl<R: ByteSource> PreviewReader<R> {
    /// Follows a maker note entry to its directory.
    fn follow_maker_note(&mut self, entry: Entry, endian: Endian, queue: &mut VecDeque<Ifd>)
        ensures
            final(self).same_file(old(self)),
            old(self).scan().leads_to(final(self).scan()),
            forall|candidates: Seq<(u64, u64)>, tags: Tags|
                #![trigger maker_note(
                    (Walk { scan: old(self).scan(), queue: old(queue)@, candidates, tags }),
                    old(self).origin(),
                    old(self).size(),
                    entry@,
                    endian,
                )]
                maker_note(
                    (Walk { scan: old(self).scan(), queue: old(queue)@, candidates, tags }),
                    old(self).origin(),
                    old(self).size(),
                    entry@,
                    endian,
                ) == (Walk { scan: final(self).scan(), queue: final(queue)@, candidates, tags }),
    {
        if let Some(length) = entry.byte_len() {
            let start: u64 = endian.u32(entry.value) as u64;
            if length > 4 && checked_range(start, length, self.file_len).is_ok() {
                let n: usize = if length < 12 {
                    length as usize
                } else {
                    12
                };
                let mut signature: Vec<u8> = vec![0; n];
                match self.metadata(start, &mut signature) {
                    Ok(()) => {
                        let header: u64 = if is_sony_signature(&signature) {
                            12
                        } else {
                            0
                        };
                        if queue.len() < MAX_IFDS {
                            queue.push_back(
                                Ifd { offset: start + header, sony: true, end: start + length },
                            );
                        }
                    },
                    Err(_) => {},
                }
            }
        }
    }

    /// Applies one directory entry.
    fn visit_entry(
        &mut self,
        ifd: Ifd,
        entry: Entry,
        endian: Endian,
        queue: &mut VecDeque<Ifd>,
        candidates: &mut Vec<(u64, u64)>,
        tags: &mut Tags,
    )
        ensures
            final(self).same_file(old(self)),
            old(self).scan().leads_to(final(self).scan()),
            plausible(old(candidates)@, old(self).size()) ==> plausible(
                final(candidates)@,
                old(self).size(),
            ),
            (Walk {
                scan: final(self).scan(),
                queue: final(queue)@,
                candidates: final(candidates)@,
                tags: *final(tags),
            }) == visit(
                (Walk {
                    scan: old(self).scan(),
                    queue: old(queue)@,
                    candidates: old(candidates)@,
                    tags: *old(tags),
                }),
                old(self).origin(),
                old(self).size(),
                ifd,
                entry@,
                endian,
            ),
    {
        let tag = entry.tag;
        if tag == 0x0201 {
            tags.offset = entry.scalar(endian);
        } else if tag == 0x0202 {
            tags.length = entry.scalar(endian);
        } else if tag == 0x0111 {
            tags.strip_offset = entry.scalar(endian);
        } else if tag == 0x0117 {
            tags.strip_length = entry.scalar(endian);
        } else if tag == 0x0103 {
            tags.compression = entry.scalar(endian);
        } else if tag == 0x0106 {
            tags.photometric = entry.scalar(endian);
        } else if tag == 0x0102 {
            tags.bits = entry.scalar(endian);
        } else if tag == 0x0115 {
            tags.samples = entry.scalar(endian);
        } else if tag == 0x0112 && !ifd.sony && ifd.offset == self.primary_ifd {
            if let Some(value) = entry.scalar(endian) {
                if 1 <= value && value <= 8 {
                    self.orientation = value as u16;
                }
            }
        } else if (tag == 0x014a || tag == 0x8769 || tag == 0xa005) && !ifd.sony {
            match self.pointers(entry, endian) {
                Ok(offsets) => {
                    let ghost before = queue@;
                    let mut i: usize = 0;
                    while i < offsets.len()
                        invariant
                            i <= offsets@.len(),
                            queue@ == enqueue_all(before, offsets@, i as int, self.file_len),
                        decreases offsets@.len() - i,
                    {
                        if queue.len() < MAX_IFDS {
                            queue.push_back(
                                Ifd { offset: offsets[i], sony: false, end: self.file_len },
                            );
                        }
                        i += 1;
                    }
                },
                Err(error) => {
                    self.warn(error);
                },
            }
        } else if tag == 0x927c && !ifd.sony && (entry.kind == 1 || entry.kind == 7) {
            self.follow_maker_note(entry, endian, queue);
        } else if tag == 0x2001 && ifd.sony && (entry.kind == 1 || entry.kind == 7) {
            if let Some(length) = entry.byte_len() {
                let start: u64 = endian.u32(entry.value) as u64;
                if length > 32 && checked_range(start, length, self.file_len).is_ok() {
                    self.add_candidate(candidates, start + 32, length - 32);
                }
            }
        }
    }

    /// Notes the candidates that the finished tags of a directory declare.
    fn declare(&mut self, tags: Tags, candidates: &mut Vec<(u64, u64)>)
        ensures
            final(self).same_file(old(self)),
            old(self).scan().leads_to(final(self).scan()),
            plausible(old(candidates)@, old(self).size()) ==> plausible(
                final(candidates)@,
                old(self).size(),
            ),
            forall|queue: Seq<Ifd>|
                #![trigger declared(
                    (Walk { scan: old(self).scan(), queue, candidates: old(candidates)@, tags }),
                    old(self).size(),
                )]
                declared(
                    (Walk { scan: old(self).scan(), queue, candidates: old(candidates)@, tags }),
                    old(self).size(),
                ) == (Walk {
                    scan: final(self).scan(),
                    queue,
                    candidates: final(candidates)@,
                    tags,
                }),
    {
        if let (Some(offset), Some(length)) = (tags.offset, tags.length) {
            self.add_candidate(candidates, offset, length);
        }
        let compressed = match tags.compression {
            Some(n) => n == 6 || n == 7,
            None => false,
        };
        let visual = match tags.photometric {
            Some(n) => n == 1 || n == 2 || n == 6,
            None => false,
        };
        let eight_bit = match tags.bits {
            Some(n) => n == 8,
            None => true,
        };
        let planes = match tags.samples {
            Some(n) => n == 1 || n == 3 || n == 4,
            None => true,
        };
        if compressed && visual && eight_bit && planes {
            if let (Some(offset), Some(length)) = (tags.strip_offset, tags.strip_length) {
                self.add_candidate(candidates, offset, length);
            }
        }
    }

    #[verifier::spinoff_prover]
    #[verifier::rlimit(60)]
    fn walk_ifd(
        &mut self,
        ifd: Ifd,
        endian: Endian,
        queue: &mut VecDeque<Ifd>,
        candidates: &mut Vec<(u64, u64)>,
    ) -> (result: Result<(), Error>)
        ensures
            final(self).same_file(old(self)),
            old(self).scan().leads_to(final(self).scan()),
            plausible(old(candidates)@, old(self).size()) ==> plausible(
                final(candidates)@,
                old(self).size(),
            ),
            forall|tags: Tags|
                #![trigger walked(
                    (Walk {
                        scan: old(self).scan(),
                        queue: old(queue)@,
                        candidates: old(candidates)@,
                        tags,
                    }),
                    old(self).origin(),
                    old(self).size(),
                    ifd,
                    endian,
                )]
                ({
                    let (walk, end) = walked(
                        (Walk {
                            scan: old(self).scan(),
                            queue: old(queue)@,
                            candidates: old(candidates)@,
                            tags,
                        }),
                        old(self).origin(),
                        old(self).size(),
                        ifd,
                        endian,
                    );
                    &&& final(self).scan() == walk.scan
                    &&& final(queue)@ == walk.queue
                    &&& final(candidates)@ == walk.candidates
                    &&& Error::same(result, end)
                }),
    {
        match checked_range(ifd.offset, 2, ifd.end) {
            Ok(()) => {},
            Err(error) => {
                return Err(error);
            },
        }
        let mut head: Vec<u8> = vec![0; 2];
        match self.metadata(ifd.offset, &mut head) {
            Ok(()) => {},
            Err(error) => {
                return Err(error);
            },
        }
        let count: usize = endian.read16(&head, 0) as usize;
        if count > MAX_ENTRIES {
            return Err(Error::Limit("too many entries in IFD"));
        }
        let entry_bytes: usize = count * 12;
        let start: u64 = ifd.offset + 2;
        match checked_range(start, entry_bytes as u64, ifd.end) {
            Ok(()) => {},
            Err(error) => {
                return Err(error);
            },
        }
        let linked = checked_range(start, entry_bytes as u64 + 4, ifd.end).is_ok();
        if !ifd.sony && !linked {
            return Err(Error::Invalid("IFD next pointer truncated"));
        }
        let length: usize = if linked {
            entry_bytes + 4
        } else {
            entry_bytes
        };
        let mut data: Vec<u8> = vec![0; length];
        match self.metadata(start, &mut data) {
            Ok(()) => {},
            Err(error) => {
                return Err(error);
            },
        }
        let mut tags = Tags {
            offset: None,
            length: None,
            strip_offset: None,
            strip_length: None,
            compression: None,
            photometric: None,
            bits: None,
            samples: None,
        };
        let ghost begun = Walk {
            scan: self.scan(),
            queue: queue@,
            candidates: candidates@,
            tags: no_tags(),
        };
        let mut i: usize = 0;
        while i < count
            invariant
                i <= count <= MAX_ENTRIES,
                entry_bytes == 12 * count,
                length == data@.len(),
                length >= entry_bytes,
                self.same_file(old(self)),
                old(self).scan().leads_to(self.scan()),
                plausible(old(candidates)@, self.size()) ==> plausible(candidates@, self.size()),
                (Walk { scan: self.scan(), queue: queue@, candidates: candidates@, tags })
                    == visit_all(
                    begun,
                    old(self).origin(),
                    old(self).size(),
                    ifd,
                    data@,
                    i as int,
                    endian,
                ),
            decreases count - i,
        {
            let entry = Entry::at(&data, 12 * i, endian);
            self.visit_entry(ifd, entry, endian, queue, candidates, &mut tags);
            i += 1;
        }
        self.declare(tags, candidates);
        if !ifd.sony && linked {
            let next: u64 = endian.read32(&data, entry_bytes) as u64;
            if next != 0 && queue.len() < MAX_IFDS {
                queue.push_back(Ifd { offset: next, sony: false, end: self.file_len });
            }
        }
        Ok(())
    }
}

/// Whether a maker note starts with one of Sony's signatures.
fn is_sony_signature(bytes: &Vec<u8>) -> (out: bool)
    requires
        bytes@.len() <= 12,
    ensures
        out == sony_signature(bytes@),
{
    let dsc: [u8; 12] = [0x53, 0x4f, 0x4e, 0x59, 0x20, 0x44, 0x53, 0x43, 0x20, 0, 0, 0];
    let cam: [u8; 12] = [0x53, 0x4f, 0x4e, 0x59, 0x20, 0x43, 0x41, 0x4d, 0x20, 0, 0, 0];
    let ghost padded = bytes@ + Seq::new((12 - bytes@.len()) as nat, |i: int| 0u8);
    let ghost want_dsc = seq![0x53u8, 0x4f, 0x4e, 0x59, 0x20, 0x44, 0x53, 0x43, 0x20, 0, 0, 0];
    let ghost want_cam = seq![0x53u8, 0x4f, 0x4e, 0x59, 0x20, 0x43, 0x41, 0x4d, 0x20, 0, 0, 0];
    assert(dsc@ =~= want_dsc);
    assert(cam@ =~= want_cam);
    let mut is_dsc = true;
    let mut is_cam = true;
    let mut i: usize = 0;
    while i < 12
        invariant
            i <= 12,
            bytes@.len() <= 12,
            padded == bytes@ + Seq::new((12 - bytes@.len()) as nat, |i: int| 0u8),
            is_dsc == (forall|k: int| 0 <= k < i ==> padded[k] == dsc@[k]),
            is_cam == (forall|k: int| 0 <= k < i ==> padded[k] == cam@[k]),
        decreases 12 - i,
    {
        let byte: u8 = if i < bytes.len() {
            bytes[i]
        } else {
            0
        };
        assert(byte == padded[i as int]);
        is_dsc = is_dsc && byte == dsc[i];
        is_cam = is_cam && byte == cam[i];
        i += 1;
    }
    proof {
        if is_dsc {
            assert(padded =~= want_dsc);
        }
        if is_cam {
            assert(padded =~= want_cam);
        }
    }
    is_dsc || is_cam
}

/// A window of a candidate's bytes, and the reader behind it.
pub struct Peek {
    pub scan: Scan,
    /// Position of the window in the candidate, once there is one.
    pub start: Option<int>,
    pub bytes: Seq<u8>,
}

/// A byte range that may hold a preview.
#[derive(Clone, Copy)]
pub struct Range {
    pub offset: u64,
    pub length: u64,
}

impl Peek {
    /// The byte at `pos` of a candidate. A byte outside the window moves it.
    pub open spec fn byte<R: ByteSource>(
        self,
        source: R,
        file_len: u64,
        range: Range,
        pos: int,
    ) -> (Peek, Result<u8, Fault>) {
        if pos >= range.length || pos >= jpeg::MAX_HEADER {
            (self, Err(Fault::Invalid("JPEG header exceeds preview or header limit"@)))
        } else if self.start is Some && self.start->0 <= pos < self.start->0 + self.bytes.len() {
            (self, Ok(self.bytes[pos - self.start->0]))
        } else {
            let left = range.length - pos;
            let n = if left < WINDOW {
                left as nat
            } else {
                WINDOW as nat
            };
            let (scan, read) = self.scan.metadata(source, file_len, (range.offset + pos) as u64, n);
            match read {
                Ok(bytes) => (Peek { scan, start: Some(pos), bytes }, Ok(bytes[0])),
                Err(fault) => (Peek { scan, ..self }, Err(fault)),
            }
        }
    }

    /// The first byte from `pos` on that is not FF, and its position.
    pub open spec fn marker<R: ByteSource>(
        self,
        source: R,
        file_len: u64,
        range: Range,
        pos: int,
    ) -> (Peek, Result<(u8, int), Fault>)
        decreases jpeg::MAX_HEADER - pos,
    {
        let (next, read) = self.byte(source, file_len, range, pos);
        match read {
            Err(fault) => (next, Err(fault)),
            Ok(value) => if value == 0xff && pos < jpeg::MAX_HEADER {
                next.marker(source, file_len, range, pos + 1)
            } else {
                (next, Ok((value, pos)))
            },
        }
    }

    /// A marker found from `pos` on lies there, inside the candidate.
    pub proof fn lemma_marker<R: ByteSource>(
        self,
        source: R,
        file_len: u64,
        range: Range,
        pos: int,
    )
        ensures
            ({
                let (_, found) = self.marker(source, file_len, range, pos);
                found is Ok ==> pos <= found->Ok_0.1 < range.length
            }),
        decreases jpeg::MAX_HEADER - pos,
    {
        let (next, read) = self.byte(source, file_len, range, pos);
        if read is Ok && read->Ok_0 == 0xff {
            next.lemma_marker(source, file_len, range, pos + 1);
        }
    }

    /// The big-endian number at `pos`.
    pub open spec fn word<R: ByteSource>(
        self,
        source: R,
        file_len: u64,
        range: Range,
        pos: int,
    ) -> (Peek, Result<int, Fault>) {
        let (one, high) = self.byte(source, file_len, range, pos);
        match high {
            Err(fault) => (one, Err(fault)),
            Ok(high) => {
                let (two, low) = one.byte(source, file_len, range, pos + 1);
                match low {
                    Err(fault) => (two, Err(fault)),
                    Ok(low) => (two, Ok(256 * high + low)),
                }
            },
        }
    }

    /// The first `n` bytes from `pos` on.
    pub open spec fn bytes_from<R: ByteSource>(
        self,
        source: R,
        file_len: u64,
        range: Range,
        pos: int,
        n: int,
    ) -> (Peek, Result<Seq<u8>, Fault>)
        decreases n,
    {
        if n <= 0 {
            (self, Ok(Seq::empty()))
        } else {
            let (before, read) = self.bytes_from(source, file_len, range, pos, n - 1);
            match read {
                Err(fault) => (before, Err(fault)),
                Ok(bytes) => {
                    let (next, last) = before.byte(source, file_len, range, pos + n - 1);
                    match last {
                        Err(fault) => (next, Err(fault)),
                        Ok(value) => (next, Ok(bytes.push(value))),
                    }
                },
            }
        }
    }

    /// The dimensions that the frame header from `pos` on declares. Large
    /// application segments are skipped by their length, not read.
    pub open spec fn frame<R: ByteSource>(
        self,
        source: R,
        file_len: u64,
        range: Range,
        pos: int,
    ) -> (Scan, Result<(u32, u32), Fault>)
        decreases range.length - pos,
    {
        let (lead, first) = self.byte(source, file_len, range, pos);
        match first {
            Err(fault) => (lead.scan, Err(fault)),
            Ok(first) => if first != 0xff {
                (lead.scan, Err(Fault::Invalid("JPEG header marker missing"@)))
            } else {
                let (peek, found) = lead.marker(source, file_len, range, pos);
                match found {
                    Err(fault) => (peek.scan, Err(fault)),
                    Ok((marker, at)) => if marker == 0x01 {
                        proof {
                            lead.lemma_marker(source, file_len, range, pos);
                        }
                        peek.frame(source, file_len, range, at + 1)
                    } else if marker == 0 || 0xd0 <= marker <= 0xda {
                        (
                            peek.scan,
                            Err(Fault::Invalid("JPEG has no supported SOF before scan"@)),
                        )
                    } else {
                        let (peek, length) = peek.word(source, file_len, range, at + 1);
                        match length {
                            Err(fault) => (peek.scan, Err(fault)),
                            Ok(length) => if length < 2 {
                                (peek.scan, Err(Fault::Invalid("short JPEG segment length"@)))
                            } else if at + 1 + length > range.length {
                                (peek.scan, Err(Fault::Invalid("JPEG segment outside candidate"@)))
                            } else if jpeg::frame_marker(marker) {
                                peek.frame_payload(source, file_len, range, marker, at + 3, length - 2)
                            } else {
                                proof {
                                    lead.lemma_marker(source, file_len, range, pos);
                                }
                                peek.frame(source, file_len, range, at + 1 + length)
                            },
                        }
                    },
                }
            },
        }
    }

    /// The dimensions in the frame header whose payload starts at `pos`.
    pub open spec fn frame_payload<R: ByteSource>(
        self,
        source: R,
        file_len: u64,
        range: Range,
        marker: u8,
        pos: int,
        length: int,
    ) -> (Scan, Result<(u32, u32), Fault>) {
        if marker > 0xc2 {
            (self.scan, Err(Fault::Invalid("JPEG is not baseline/extended/progressive DCT"@)))
        } else if !(9 <= length <= 18) {
            (self.scan, Err(Fault::Invalid("invalid JPEG SOF length"@)))
        } else {
            let (peek, read) = self.bytes_from(source, file_len, range, pos, length);
            match read {
                Err(fault) => (peek.scan, Err(fault)),
                Ok(payload) => (peek.scan, jpeg::frame_size(payload)),
            }
        }
    }
}

/// The position of the last end-of-image marker's second byte before `n`.
pub open spec fn last_eoi(tail: Seq<u8>, n: int) -> Option<int>
    decreases n,
{
    if n <= 1 {
        None
    } else if tail[n - 2] == 0xff && tail[n - 1] == 0xd9 {
        Some(n - 1)
    } else {
        last_eoi(tail, n - 1)
    }
}

/// The length of a candidate without its padding, from its last bytes.
pub open spec fn trimmed<R: ByteSource>(
    scan: Scan,
    source: R,
    file_len: u64,
    range: Range,
) -> (Scan, Result<u64, Fault>) {
    let n = if range.length < WINDOW {
        range.length as nat
    } else {
        WINDOW as nat
    };
    let (next, read) = scan.metadata(
        source,
        file_len,
        (range.offset + range.length - n) as u64,
        n,
    );
    match read {
        Err(fault) => (next, Err(fault)),
        Ok(tail) => match last_eoi(tail, n as int) {
            None => (next, Err(Fault::Invalid("candidate lacks terminal JPEG EOI"@))),
            Some(eoi) => if !jpeg::padding(tail, eoi + 1) {
                (next, Err(Fault::Invalid("unexpected data following JPEG EOI"@)))
            } else {
                (next, Ok((range.length - n + eoi + 1) as u64))
            },
        },
    }
}

/// What a candidate range holds.
pub open spec fn inspected<R: ByteSource>(
    scan: Scan,
    source: R,
    file_len: u64,
    range: Range,
) -> (Scan, Result<EmbeddedPreview, Fault>) {
    let fresh = Peek { scan, start: None, bytes: Seq::empty() };
    let (peek, lead) = fresh.word(source, file_len, range, 0);
    let (first, high) = fresh.byte(source, file_len, range, 0);
    if high is Ok && high->Ok_0 != 0xff {
        (first.scan, Err(Fault::Invalid("candidate lacks JPEG SOI"@)))
    } else {
        match lead {
            Err(fault) => (peek.scan, Err(fault)),
            Ok(lead) => if lead != 0xffd8 {
                (peek.scan, Err(Fault::Invalid("candidate lacks JPEG SOI"@)))
            } else {
                let (scan, frame) = peek.frame(source, file_len, range, 2);
                match frame {
                    Err(fault) => (scan, Err(fault)),
                    Ok((width, height)) => {
                        let (scan, length) = trimmed(scan, source, file_len, range);
                        match length {
                            Err(fault) => (scan, Err(fault)),
                            Ok(length) => (
                                scan,
                                Ok(
                                    EmbeddedPreview {
                                        offset: range.offset,
                                        length,
                                        width: Some(width),
                                        height: Some(height),
                                    },
                                ),
                            ),
                        }
                    },
                }
            },
        }
    }
}

/// The bytes of a candidate that the last read brought in.
struct Window {
    start: Option<u64>,
    bytes: Vec<u8>,
}

impl Window {
    spec fn peek(&self, scan: Scan) -> Peek {
        Peek {
            scan,
            start: match self.start {
                Some(start) => Some(start as int),
                None => None,
            },
            bytes: self.bytes@,
        }
    }
}

impl<R: ByteSource> PreviewReader<R> {
    /// The byte at `pos` of a candidate.
    fn byte(&mut self, window: &mut Window, range: Range, pos: u64) -> (result: Result<u8, Error>)
        requires
            range.offset + range.length <= u64::MAX,
        ensures
            final(self).same_file(old(self)),
            old(self).scan().leads_to(final(self).scan()),
            ({
                let (peek, read) = old(window).peek(old(self).scan()).byte(
                    old(self).origin(),
                    old(self).size(),
                    range,
                    pos as int,
                );
                &&& final(self).scan() == peek.scan
                &&& Error::same(result, read)
                &&& result is Ok ==> final(window).peek(final(self).scan()) == peek
                &&& result is Ok ==> pos < range.length && pos < jpeg::MAX_HEADER
            }),
    {
        if pos >= range.length || pos >= jpeg::MAX_HEADER {
            return Err(Error::Invalid("JPEG header exceeds preview or header limit"));
        }
        if let Some(start) = window.start {
            if pos >= start && pos - start < window.bytes.len() as u64 {
                return Ok(window.bytes[(pos - start) as usize]);
            }
        }
        let left: u64 = range.length - pos;
        let n: usize = if left < WINDOW {
            left as usize
        } else {
            WINDOW as usize
        };
        let mut bytes: Vec<u8> = vec![0; n];
        match self.metadata(range.offset + pos, &mut bytes) {
            Ok(()) => {},
            Err(error) => {
                return Err(error);
            },
        }
        let value = bytes[0];
        window.start = Some(pos);
        window.bytes = bytes;
        Ok(value)
    }

    /// The first byte from `pos` on that is not FF, and its position.
    fn marker(&mut self, window: &mut Window, range: Range, pos: u64) -> (result: Result<
        (u8, u64),
        Error,
    >)
        requires
            range.offset + range.length <= u64::MAX,
            pos <= jpeg::MAX_HEADER,
        ensures
            final(self).same_file(old(self)),
            old(self).scan().leads_to(final(self).scan()),
            ({
                let (peek, read) = old(window).peek(old(self).scan()).marker(
                    old(self).origin(),
                    old(self).size(),
                    range,
                    pos as int,
                );
                &&& final(self).scan() == peek.scan
                &&& match result {
                    Ok((value, at)) => {
                        &&& read == Ok::<(u8, int), Fault>((value, at as int))
                        &&& final(window).peek(final(self).scan()) == peek
                        &&& pos <= at < range.length
                        &&& at < jpeg::MAX_HEADER
                    },
                    Err(error) => read == Err::<(u8, int), Fault>(error@),
                }
            }),
    {
        let ghost want = window.peek(self.scan()).marker(
            self.origin(),
            self.size(),
            range,
            pos as int,
        );
        let mut at: u64 = pos;
        loop
            invariant
                self.same_file(old(self)),
                old(self).scan().leads_to(self.scan()),
                range.offset + range.length <= u64::MAX,
                pos <= at <= jpeg::MAX_HEADER,
                want == old(window).peek(old(self).scan()).marker(
                    old(self).origin(),
                    old(self).size(),
                    range,
                    pos as int,
                ),
                want == window.peek(self.scan()).marker(
                    self.origin(),
                    self.size(),
                    range,
                    at as int,
                ),
            decreases jpeg::MAX_HEADER - at,
        {
            let value: u8 = match self.byte(window, range, at) {
                Ok(value) => value,
                Err(error) => {
                    return Err(error);
                },
            };
            if value != 0xff {
                return Ok((value, at));
            }
            at = at + 1;
        }
    }

    /// The big-endian number at `pos`.
    fn word(&mut self, window: &mut Window, range: Range, pos: u64) -> (result: Result<u16, Error>)
        requires
            range.offset + range.length <= u64::MAX,
            pos <= jpeg::MAX_HEADER,
        ensures
            final(self).same_file(old(self)),
            old(self).scan().leads_to(final(self).scan()),
            ({
                let (peek, read) = old(window).peek(old(self).scan()).word(
                    old(self).origin(),
                    old(self).size(),
                    range,
                    pos as int,
                );
                &&& final(self).scan() == peek.scan
                &&& match result {
                    Ok(value) => read == Ok::<int, Fault>(value as int) && final(window).peek(
                        final(self).scan(),
                    ) == peek && pos + 1 < jpeg::MAX_HEADER,
                    Err(error) => read == Err::<int, Fault>(error@),
                }
            }),
    {
        let high: u8 = match self.byte(window, range, pos) {
            Ok(value) => value,
            Err(error) => {
                return Err(error);
            },
        };
        let low: u8 = match self.byte(window, range, pos + 1) {
            Ok(value) => value,
            Err(error) => {
                return Err(error);
            },
        };
        Ok(256 * (high as u16) + low as u16)
    }

    /// The dimensions in the frame header whose payload starts at `pos`.
    fn frame_payload(
        &mut self,
        window: &mut Window,
        range: Range,
        marker: u8,
        pos: u64,
        length: u64,
    ) -> (result: Result<(u32, u32), Error>)
        requires
            range.offset + range.length <= u64::MAX,
            pos <= jpeg::MAX_HEADER + 2,
        ensures
            final(self).same_file(old(self)),
            old(self).scan().leads_to(final(self).scan()),
            ({
                let (scan, want) = old(window).peek(old(self).scan()).frame_payload(
                    old(self).origin(),
                    old(self).size(),
                    range,
                    marker,
                    pos as int,
                    length as int,
                );
                &&& final(self).scan() == scan
                &&& Error::same(result, want)
            }),
    {
        if marker > 0xc2 {
            return Err(Error::Invalid("JPEG is not baseline/extended/progressive DCT"));
        }
        if length < 9 || length > 18 {
            return Err(Error::Invalid("invalid JPEG SOF length"));
        }
        let ghost begun = window.peek(self.scan());
        let mut payload: Vec<u8> = Vec::new();
        let mut i: u64 = 0;
        while i < length
            invariant
                self.same_file(old(self)),
                old(self).scan().leads_to(self.scan()),
                range.offset + range.length <= u64::MAX,
                pos <= jpeg::MAX_HEADER + 2,
                i <= length <= 18,
                marker <= 0xc2,
                9 <= length,
                begun == old(window).peek(old(self).scan()),
                begun.bytes_from(self.origin(), self.size(), range, pos as int, i as int) == (
                    window.peek(self.scan()),
                    Ok::<Seq<u8>, Fault>(payload@),
                ),
            decreases length - i,
        {
            let value: u8 = match self.byte(window, range, pos + i) {
                Ok(value) => value,
                Err(error) => {
                    proof {
                        lemma_bytes_fail(
                            begun,
                            self.origin(),
                            self.size(),
                            range,
                            pos as int,
                            i + 1,
                            length as int,
                        );
                    }
                    return Err(error);
                },
            };
            payload.push(value);
            i += 1;
        }
        jpeg::dimensions(&payload)
    }

    /// The dimensions that the frame header from `pos` on declares.
    fn frame(&mut self, window: &mut Window, range: Range, pos: u64) -> (result: Result<
        (u32, u32),
        Error,
    >)
        requires
            range.offset + range.length <= u64::MAX,
            pos <= range.length <= MAX_JPEG_BYTES,
        ensures
            final(self).same_file(old(self)),
            old(self).scan().leads_to(final(self).scan()),
            ({
                let (scan, want) = old(window).peek(old(self).scan()).frame(
                    old(self).origin(),
                    old(self).size(),
                    range,
                    pos as int,
                );
                &&& final(self).scan() == scan
                &&& Error::same(result, want)
            }),
    {
        let ghost want = window.peek(self.scan()).frame(
            self.origin(),
            self.size(),
            range,
            pos as int,
        );
        let mut at: u64 = pos;
        loop
            invariant
                self.same_file(old(self)),
                old(self).scan().leads_to(self.scan()),
                range.offset + range.length <= u64::MAX,
                at <= range.length <= MAX_JPEG_BYTES,
                want == old(window).peek(old(self).scan()).frame(
                    old(self).origin(),
                    old(self).size(),
                    range,
                    pos as int,
                ),
                want == window.peek(self.scan()).frame(
                    self.origin(),
                    self.size(),
                    range,
                    at as int,
                ),
            decreases range.length - at,
        {
            let first: u8 = match self.byte(window, range, at) {
                Ok(value) => value,
                Err(error) => {
                    return Err(error);
                },
            };
            if first != 0xff {
                return Err(Error::Invalid("JPEG header marker missing"));
            }
            let (marker, found): (u8, u64) = match self.marker(window, range, at) {
                Ok(found) => found,
                Err(error) => {
                    return Err(error);
                },
            };
            if marker == 0x01 {
                at = found + 1;
                continue;
            }
            if marker == 0 || 0xd0 <= marker && marker <= 0xda {
                return Err(Error::Invalid("JPEG has no supported SOF before scan"));
            }
            let length: u64 = match self.word(window, range, found + 1) {
                Ok(value) => value as u64,
                Err(error) => {
                    return Err(error);
                },
            };
            if length < 2 {
                return Err(Error::Invalid("short JPEG segment length"));
            }
            if found + 1 + length > range.length {
                return Err(Error::Invalid("JPEG segment outside candidate"));
            }
            if jpeg::is_sof(marker) {
                return self.frame_payload(window, range, marker, found + 3, length - 2);
            }
            at = found + 1 + length;
        }
    }

    /// The length of a candidate without its padding.
    fn trim(&mut self, range: Range) -> (result: Result<u64, Error>)
        requires
            range.offset + range.length <= u64::MAX,
        ensures
            final(self).same_file(old(self)),
            old(self).scan().leads_to(final(self).scan()),
            ({
                let (scan, want) = trimmed(
                    old(self).scan(),
                    old(self).origin(),
                    old(self).size(),
                    range,
                );
                &&& final(self).scan() == scan
                &&& Error::same(result, want)
            }),
    {
        let n: usize = if range.length < WINDOW {
            range.length as usize
        } else {
            WINDOW as usize
        };
        let mut tail: Vec<u8> = vec![0; n];
        match self.metadata(range.offset + (range.length - n as u64), &mut tail) {
            Ok(()) => {},
            Err(error) => {
                return Err(error);
            },
        }
        let mut end: usize = n;
        while end > 1 && !(tail[end - 2] == 0xff && tail[end - 1] == 0xd9)
            invariant
                end <= n,
                tail@.len() == n,
                last_eoi(tail@, n as int) == last_eoi(tail@, end as int),
            decreases end,
        {
            end -= 1;
        }
        if end <= 1 {
            return Err(Error::Invalid("candidate lacks terminal JPEG EOI"));
        }
        let mut i: usize = end;
        while i < n && (tail[i] == 0 || tail[i] == 0xff)
            invariant
                end <= i <= n,
                tail@.len() == n,
                forall|k: int| end <= k < i ==> tail@[k] == 0 || tail@[k] == 0xff,
            decreases n - i,
        {
            i += 1;
        }
        if i < n {
            return Err(Error::Invalid("unexpected data following JPEG EOI"));
        }
        Ok(range.length - n as u64 + end as u64)
    }

    fn inspect_jpeg(&mut self, range: Range) -> (result: Result<EmbeddedPreview, Error>)
        requires
            range.offset + range.length <= u64::MAX,
            2 <= range.length <= MAX_JPEG_BYTES,
        ensures
            final(self).same_file(old(self)),
            old(self).scan().leads_to(final(self).scan()),
            ({
                let (scan, want) = inspected(
                    old(self).scan(),
                    old(self).origin(),
                    old(self).size(),
                    range,
                );
                &&& final(self).scan() == scan
                &&& Error::same(result, want)
            }),
    {
        let mut window = Window { start: None, bytes: Vec::new() };
        assert(window.bytes@ =~= Seq::<u8>::empty());
        let first: u8 = match self.byte(&mut window, range, 0) {
            Ok(value) => value,
            Err(error) => {
                return Err(error);
            },
        };
        if first != 0xff {
            return Err(Error::Invalid("candidate lacks JPEG SOI"));
        }
        let second: u8 = match self.byte(&mut window, range, 1) {
            Ok(value) => value,
            Err(error) => {
                return Err(error);
            },
        };
        if second != 0xd8 {
            return Err(Error::Invalid("candidate lacks JPEG SOI"));
        }
        let (width, height): (u32, u32) = match self.frame(&mut window, range, 2) {
            Ok(size) => size,
            Err(error) => {
                return Err(error);
            },
        };
        let length: u64 = match self.trim(range) {
            Ok(length) => length,
            Err(error) => {
                return Err(error);
            },
        };
        Ok(
            EmbeddedPreview {
                offset: range.offset,
                length,
                width: Some(width),
                height: Some(height),
            },
        )
    }
}

/// Once a byte cannot be read, no longer run of bytes can be.
proof fn lemma_bytes_fail<R: ByteSource>(
    peek: Peek,
    source: R,
    file_len: u64,
    range: Range,
    pos: int,
    n: int,
    m: int,
)
    requires
        n <= m,
        peek.bytes_from(source, file_len, range, pos, n).1 is Err,
    ensures
        peek.bytes_from(source, file_len, range, pos, m) == peek.bytes_from(
            source,
            file_len,
            range,
            pos,
            n,
        ),
    decreases m - n,
{
    if n < m {
        lemma_bytes_fail(peek, source, file_len, range, pos, n, m - 1);
    }
}

/// The order of candidate ranges: by offset, then by length.
pub open spec fn before(a: (u64, u64), b: (u64, u64)) -> bool {
    a.0 < b.0 || (a.0 == b.0 && a.1 < b.1)
}

/// Puts `x` in its place among the first `n` of some ordered ranges.
pub open spec fn place(s: Seq<(u64, u64)>, n: int, x: (u64, u64)) -> Seq<(u64, u64)>
    decreases n,
{
    if n <= 0 {
        s.insert(0, x)
    } else if s[n - 1] == x {
        s
    } else if before(s[n - 1], x) {
        s.insert(n, x)
    } else {
        place(s, n - 1, x)
    }
}

/// The distinct ranges among the first `n`, in order.
pub open spec fn distinct(s: Seq<(u64, u64)>, n: int) -> Seq<(u64, u64)>
    decreases n,
{
    if n <= 0 {
        Seq::empty()
    } else {
        let rest = distinct(s, n - 1);
        place(rest, rest.len() as int, s[n - 1])
    }
}

/// Strictly ascending ranges.
pub open spec fn ascending(s: Seq<(u64, u64)>) -> bool {
    forall|i: int, j: int| 0 <= i < j < s.len() ==> before(#[trigger] s[i], #[trigger] s[j])
}

proof fn lemma_place(s: Seq<(u64, u64)>, n: int, x: (u64, u64))
    requires
        ascending(s),
        0 <= n <= s.len(),
        forall|i: int| n <= i < s.len() ==> before(x, #[trigger] s[i]),
    ensures
        ascending(place(s, n, x)),
        forall|y: (u64, u64)| #[trigger]
            place(s, n, x).contains(y) <==> s.contains(y) || y == x,
        place(s, n, x).len() <= s.len() + 1,
    decreases n,
{
    let out = place(s, n, x);
    if n > 0 && s[n - 1] == x {
        assert(s.contains(x));
    } else if n <= 0 || before(s[n - 1], x) {
        let at = if n <= 0 {
            0
        } else {
            n
        };
        assert(out == s.insert(at, x));
        assert forall|i: int, j: int| 0 <= i < j < out.len() implies before(
            #[trigger] out[i],
            #[trigger] out[j],
        ) by {
            let a = if i < at {
                i
            } else {
                i - 1
            };
            let b = if j < at {
                j
            } else {
                j - 1
            };
            if i != at && j != at {
                assert(before(s[a], s[b]));
            } else if j == at {
                if i < n - 1 {
                    assert(before(s[i], s[n - 1]));
                }
            }
        }
        assert forall|y: (u64, u64)| #[trigger] out.contains(y) <==> s.contains(y) || y == x by {
            if s.contains(y) {
                let k = choose|k: int| 0 <= k < s.len() && s[k] == y;
                assert(out[if k < at {
                    k
                } else {
                    k + 1
                }] == y);
            }
            if y == x {
                assert(out[at] == y);
            }
            if out.contains(y) {
                let k = choose|k: int| 0 <= k < out.len() && out[k] == y;
                if k != at {
                    assert(s[if k < at {
                        k
                    } else {
                        k - 1
                    }] == y);
                }
            }
        }
    } else {
        lemma_place(s, n - 1, x);
    }
}

/// Every noted range is kept once, in ascending order, and nothing is added.
pub proof fn law_candidates_are_distinct_and_ascending(s: Seq<(u64, u64)>, n: int)
    requires
        0 <= n <= s.len(),
    ensures
        ascending(distinct(s, n)),
        distinct(s, n).len() <= n,
        forall|y: (u64, u64)| #[trigger]
            distinct(s, n).contains(y) <==> s.take(n).contains(y),
    decreases n,
{
    if n > 0 {
        law_candidates_are_distinct_and_ascending(s, n - 1);
        let rest = distinct(s, n - 1);
        lemma_place(rest, rest.len() as int, s[n - 1]);
        assert forall|y: (u64, u64)| #[trigger] distinct(s, n).contains(y) <==> s.take(n).contains(
            y,
        ) by {
            if s.take(n).contains(y) {
                let k = choose|k: int| 0 <= k < n && s.take(n)[k] == y;
                if k < n - 1 {
                    assert(s.take(n - 1)[k] == y);
                }
            }
            if s.take(n - 1).contains(y) {
                let shorter = s.take(n - 1);
                let k = choose|k: int| 0 <= k < shorter.len() && shorter[k] == y;
                assert(s.take(n)[k] == y);
            }
            if y == s[n - 1] {
                assert(s.take(n)[n - 1] == y);
            }
        }
    }
}

fn sorted_distinct(s: &Vec<(u64, u64)>) -> (out: Vec<(u64, u64)>)
    ensures
        out@ == distinct(s@, s@.len() as int),
{
    let mut out: Vec<(u64, u64)> = Vec::new();
    let mut i: usize = 0;
    while i < s.len()
        invariant
            i <= s@.len(),
            out@.len() <= i,
            out@ == distinct(s@, i as int),
        decreases s@.len() - i,
    {
        let x: (u64, u64) = s[i];
        let mut n: usize = out.len();
        while n > 0 && !(out[n - 1].0 == x.0 && out[n - 1].1 == x.1) && !(out[n - 1].0 < x.0 || (
        out[n - 1].0 == x.0 && out[n - 1].1 < x.1))
            invariant
                n <= out@.len(),
                place(out@, out@.len() as int, x) == place(out@, n as int, x),
            decreases n,
        {
            n -= 1;
        }
        if n == 0 || !(out[n - 1].0 == x.0 && out[n - 1].1 == x.1) {
            out.insert(n, x);
        }
        i += 1;
    }
    out
}

/// Pixels of a preview.
pub open spec fn area(p: EmbeddedPreview) -> int {
    (match p.width {
        Some(n) => n as int,
        None => 0,
    }) * (match p.height {
        Some(n) => n as int,
        None => 0,
    })
}

/// `a` is listed before an equal or smaller `b`: more pixels, or as many
/// pixels and at least as many bytes.
pub open spec fn at_least(a: EmbeddedPreview, b: EmbeddedPreview) -> bool {
    area(a) > area(b) || (area(a) == area(b) && a.length >= b.length)
}

/// Puts `p` behind every preview among the first `n` that is at least as good.
pub open spec fn rank(s: Seq<EmbeddedPreview>, n: int, p: EmbeddedPreview) -> Seq<EmbeddedPreview>
    decreases n,
{
    if n <= 0 || at_least(s[n - 1], p) {
        s.insert(if n <= 0 {
            0
        } else {
            n
        }, p)
    } else {
        rank(s, n - 1, p)
    }
}

/// Best first.
pub open spec fn ranked(s: Seq<EmbeddedPreview>) -> bool {
    forall|i: int, j: int| 0 <= i < j < s.len() ==> at_least(#[trigger] s[i], #[trigger] s[j])
}

pub proof fn lemma_rank(s: Seq<EmbeddedPreview>, n: int, p: EmbeddedPreview)
    requires
        ranked(s),
        0 <= n <= s.len(),
        forall|i: int| n <= i < s.len() ==> at_least(p, #[trigger] s[i]),
    ensures
        ranked(rank(s, n, p)),
        rank(s, n, p).to_multiset() == s.to_multiset().insert(p),
        rank(s, n, p).len() == s.len() + 1,
    decreases n,
{
    if n <= 0 || at_least(s[n - 1], p) {
        let at = if n <= 0 {
            0
        } else {
            n
        };
        let out = s.insert(at, p);
        assert forall|i: int, j: int| 0 <= i < j < out.len() implies at_least(
            #[trigger] out[i],
            #[trigger] out[j],
        ) by {
            if j == at && i < n - 1 {
                assert(at_least(s[i], s[n - 1]));
            }
        }
        vstd::seq_lib::to_multiset_insert(s, at, p);
    } else {
        lemma_rank(s, n - 1, p);
    }
}

fn pixel_area(p: &EmbeddedPreview) -> (out: u64)
    ensures
        out == area(*p),
{
    let width: u64 = match p.width {
        Some(n) => n as u64,
        None => 0,
    };
    let height: u64 = match p.height {
        Some(n) => n as u64,
        None => 0,
    };
    assert(width * height <= 0xffff_ffff * 0xffff_ffff) by (nonlinear_arith)
        requires
            width <= 0xffff_ffff,
            height <= 0xffff_ffff,
    ;
    width * height
}

/// Inserts a preview at its rank.
fn insert_ranked(previews: &mut Vec<EmbeddedPreview>, p: EmbeddedPreview)
    ensures
        final(previews)@ == rank(old(previews)@, old(previews)@.len() as int, p),
{
    let pixels: u64 = pixel_area(&p);
    let mut n: usize = previews.len();
    loop
        invariant
            n <= previews@.len(),
            pixels == area(p),
            previews@ == old(previews)@,
            rank(previews@, previews@.len() as int, p) == rank(previews@, n as int, p),
        ensures
            n == 0 || at_least(previews@[n - 1], p),
        decreases n,
    {
        if n == 0 {
            break;
        }
        let other: u64 = pixel_area(&previews[n - 1]);
        if other > pixels || (other == pixels && previews[n - 1].length >= p.length) {
            break;
        }
        n -= 1;
    }
    previews.insert(n, p);
}

/// Walks every directory that can be reached, each once, and collects the
/// candidates.
pub open spec fn discovered<R: ByteSource>(
    walk: Walk,
    source: R,
    file_len: u64,
    visited: Seq<(u64, bool)>,
    endian: Endian,
) -> Walk
    decreases MAX_IFDS + 1 - visited.len(), walk.queue.len(),
{
    if walk.queue.len() == 0 || visited.len() > MAX_IFDS {
        walk
    } else {
        let ifd = walk.queue[0];
        let rest = Walk { queue: walk.queue.skip(1), ..walk };
        if ifd.offset == 0 || visited.contains((ifd.offset, ifd.sony)) {
            discovered(rest, source, file_len, visited, endian)
        } else if visited.len() >= MAX_IFDS {
            Walk { scan: rest.scan.warn(Fault::Limit("too many IFDs"@)), ..rest }
        } else {
            let (done, end) = walked(rest, source, file_len, ifd, endian);
            let next = match end {
                Ok(()) => done,
                Err(fault) => Walk { scan: done.scan.warn(fault), ..done },
            };
            if next.scan.used >= MAX_METADATA {
                next
            } else {
                discovered(
                    next,
                    source,
                    file_len,
                    visited.push((ifd.offset, ifd.sony)),
                    endian,
                )
            }
        }
    }
}

/// The previews in the first `n` ranges, best first.
pub open spec fn inspected_all<R: ByteSource>(
    scan: Scan,
    source: R,
    file_len: u64,
    ranges: Seq<(u64, u64)>,
    n: int,
) -> (Scan, Seq<EmbeddedPreview>)
    decreases n,
{
    if n <= 0 {
        (scan, Seq::empty())
    } else {
        let (before, found) = inspected_all(scan, source, file_len, ranges, n - 1);
        let (next, read) = inspected(
            before,
            source,
            file_len,
            Range { offset: ranges[n - 1].0, length: ranges[n - 1].1 },
        );
        match read {
            Ok(preview) => (next, rank(found, found.len() as int, preview)),
            Err(fault) => (next.warn(fault), found),
        }
    }
}

/// The byte order that a TIFF header declares.
pub open spec fn declared_order(header: Seq<u8>) -> Option<Endian> {
    if header[0] == 0x49 && header[1] == 0x49 {
        Some(Endian::Little)
    } else if header[0] == 0x4d && header[1] == 0x4d {
        Some(Endian::Big)
    } else {
        None
    }
}

/// The reader at the start of a discovery.
pub open spec fn fresh(scan: Scan) -> Scan {
    Scan { used: 0, warnings: Seq::empty(), primary: 0, orientation: 1, ..scan }
}

/// What discovery finds in a file.
pub open spec fn previews<R: ByteSource>(scan: Scan, source: R, file_len: u64) -> (
    Scan,
    Result<Seq<EmbeddedPreview>, Fault>,
) {
    let (begun, read) = fresh(scan).metadata(source, file_len, 0, 8);
    match read {
        Err(fault) => (begun, Err(fault)),
        Ok(header) => match declared_order(header) {
            None => (begun, Err(Fault::Invalid("not a TIFF byte-order header"@))),
            Some(endian) => if endian.at16(header, 2) != 42 {
                (
                    begun,
                    Err(
                        Fault::Invalid(
                            "requires classic TIFF magic 42; BigTIFF is unsupported"@,
                        ),
                    ),
                )
            } else if endian.at32(header, 4) < 8 {
                (begun, Err(Fault::Invalid("invalid first IFD offset"@)))
            } else {
                let first = endian.at32(header, 4) as u64;
                let walk = discovered(
                    Walk {
                        scan: Scan { primary: first, ..begun },
                        queue: seq![Ifd { offset: first, sony: false, end: file_len }],
                        candidates: Seq::empty(),
                        tags: no_tags(),
                    },
                    source,
                    file_len,
                    Seq::empty(),
                    endian,
                );
                let ranges = distinct(walk.candidates, walk.candidates.len() as int);
                let (done, found) = inspected_all(
                    walk.scan,
                    source,
                    file_len,
                    ranges,
                    ranges.len() as int,
                );
                if found.len() == 0 {
                    (done, Err(Fault::NoPreview))
                } else {
                    (done, Ok(found))
                }
            },
        },
    }
}

/// A preview that can be read: inside the file, with positive dimensions.
pub open spec fn usable(p: EmbeddedPreview, file_len: u64) -> bool {
    &&& 2 <= p.length <= MAX_JPEG_BYTES
    &&& tiff::in_file(p.offset, p.length, file_len)
    &&& p.width is Some && 0 < p.width->0 <= 0xffff
    &&& p.height is Some && 0 < p.height->0 <= 0xffff
}

/// Every candidate lies in the file and has a plausible length.
pub open spec fn plausible(candidates: Seq<(u64, u64)>, file_len: u64) -> bool {
    forall|i: int|
        0 <= i < candidates.len() ==> 4 <= (#[trigger] candidates[i]).1 <= MAX_JPEG_BYTES
            && tiff::in_file(candidates[i].0, candidates[i].1, file_len)
}

/// A frame header that is found declares positive dimensions.
proof fn lemma_frame<R: ByteSource>(
    peek: Peek,
    source: R,
    file_len: u64,
    range: Range,
    pos: int,
)
    ensures
        ({
            let (_, size) = peek.frame(source, file_len, range, pos);
            size is Ok ==> 0 < size->Ok_0.0 <= 0xffff && 0 < size->Ok_0.1 <= 0xffff
        }),
    decreases range.length - pos,
{
    let (lead, first) = peek.byte(source, file_len, range, pos);
    if first is Ok && first->Ok_0 == 0xff {
        let (next, found) = lead.marker(source, file_len, range, pos);
        lead.lemma_marker(source, file_len, range, pos);
        if found is Ok {
            let (marker, at) = found->Ok_0;
            if marker == 0x01 {
                lemma_frame(next, source, file_len, range, at + 1);
            } else if !(marker == 0 || 0xd0 <= marker <= 0xda) {
                let (after, length) = next.word(source, file_len, range, at + 1);
                if length is Ok && 2 <= length->Ok_0 && at + 1 + length->Ok_0 <= range.length
                    && !jpeg::frame_marker(marker) {
                    lemma_frame(after, source, file_len, range, at + 1 + length->Ok_0);
                }
            }
        }
    }
}

proof fn lemma_last_eoi(tail: Seq<u8>, n: int)
    ensures
        last_eoi(tail, n) is Some ==> 1 <= last_eoi(tail, n)->0 < n,
    decreases n,
{
    if n > 1 {
        lemma_last_eoi(tail, n - 1);
    }
}

/// A preview found in a plausible range is usable and stays in the range.
proof fn lemma_inspected<R: ByteSource>(scan: Scan, source: R, file_len: u64, range: Range)
    requires
        4 <= range.length <= MAX_JPEG_BYTES,
        tiff::in_file(range.offset, range.length, file_len),
    ensures
        ({
            let (_, found) = inspected(scan, source, file_len, range);
            found is Ok ==> usable(found->Ok_0, file_len)
        }),
{
    let fresh = Peek { scan, start: None, bytes: Seq::empty() };
    let (peek, lead) = fresh.word(source, file_len, range, 0);
    lemma_frame(peek, source, file_len, range, 2);
    let (scan, _) = peek.frame(source, file_len, range, 2);
    let n = if range.length < WINDOW {
        range.length as nat
    } else {
        WINDOW as nat
    };
    let (_, read) = scan.metadata(
        source,
        file_len,
        (range.offset + range.length - n) as u64,
        n,
    );
    if read is Ok {
        lemma_last_eoi(read->Ok_0, n as int);
    }
}

fn seen(visited: &Vec<(u64, bool)>, offset: u64, sony: bool) -> (out: bool)
    ensures
        out == visited@.contains((offset, sony)),
{
    let mut i: usize = 0;
    while i < visited.len()
        invariant
            i <= visited@.len(),
            forall|k: int| 0 <= k < i ==> visited@[k] != (offset, sony),
        decreases visited@.len() - i,
    {
        if visited[i].0 == offset && visited[i].1 == sony {
            assert(visited@[i as int] == (offset, sony));
            return true;
        }
        i += 1;
    }
    false
}

impl<R: ByteSource> PreviewReader<R> {
    /// Reads an opened file, which must be a regular one.
    pub fn open(source: R, file_len: u64, regular: bool) -> (out: Result<Self, Error>)
        ensures
            match out {
                Ok(reader) => {
                    &&& regular
                    &&& reader.origin() == source
                    &&& reader.size() == file_len
                    &&& reader.scan() == (Scan {
                        stats: IoStats { bytes_read: 0, read_calls: 0 },
                        used: 0,
                        warnings: Seq::empty(),
                        primary: 0,
                        orientation: 1,
                    })
                },
                Err(error) => !regular && error@ == Fault::Invalid("input is not a regular file"@),
            },
    {
        if !regular {
            return Err(Error::Invalid("input is not a regular file"));
        }
        Ok(PreviewReader::from_reader(source, file_len))
    }

    pub fn from_reader(source: R, file_len: u64) -> (out: Self)
        ensures
            out.origin() == source,
            out.size() == file_len,
            out.scan() == (Scan {
                stats: IoStats { bytes_read: 0, read_calls: 0 },
                used: 0,
                warnings: Seq::empty(),
                primary: 0,
                orientation: 1,
            }),
    {
        let out = PreviewReader {
            source,
            file_len,
            stats: IoStats { bytes_read: 0, read_calls: 0 },
            metadata_bytes: 0,
            warnings: Vec::new(),
            primary_ifd: 0,
            orientation: 1,
        };
        assert(out.scan().warnings =~= Seq::<Seq<char>>::empty());
        out
    }

    pub fn io_stats(&self) -> (out: IoStats)
        ensures
            out == self.scan().stats,
    {
        self.stats
    }

    pub fn file_len(&self) -> (out: u64)
        ensures
            out == self.size(),
    {
        self.file_len
    }

    /// What discovery passed over, in the order in which it did.
    pub fn warnings(&self) -> (out: &Vec<String>)
        ensures
            out@.len() == self.scan().warnings.len(),
            forall|i: int| 0 <= i < out@.len() ==> (#[trigger] out@[i])@ == self.scan().warnings[i],
    {
        &self.warnings
    }

    /// Orientation of the first directory, from the last discovery. A missing
    /// or invalid one is 1.
    pub fn orientation(&self) -> (out: u16)
        ensures
            out == self.scan().orientation,
    {
        self.orientation
    }

    /// Walks the directories from `first` on.
    fn discover(&mut self, first: u64, endian: Endian) -> (candidates: Vec<(u64, u64)>)
        ensures
            final(self).same_file(old(self)),
            old(self).scan().leads_to(final(self).scan()),
            plausible(candidates@, old(self).size()),
            ({
                let walk = discovered(
                    (Walk {
                        scan: old(self).scan(),
                        queue: seq![Ifd { offset: first, sony: false, end: old(self).size() }],
                        candidates: Seq::empty(),
                        tags: no_tags(),
                    }),
                    old(self).origin(),
                    old(self).size(),
                    Seq::empty(),
                    endian,
                );
                &&& final(self).scan() == walk.scan
                &&& candidates@ == walk.candidates
            }),
    {
        let mut queue: VecDeque<Ifd> = VecDeque::new();
        queue.push_back(Ifd { offset: first, sony: false, end: self.file_len });
        let mut visited: Vec<(u64, bool)> = Vec::new();
        let mut candidates: Vec<(u64, u64)> = Vec::new();
        let ghost mut walk = Walk {
            scan: self.scan(),
            queue: queue@,
            candidates: candidates@,
            tags: no_tags(),
        };
        let ghost want = discovered(walk, self.origin(), self.size(), visited@, endian);
        assert(walk.queue =~= seq![Ifd { offset: first, sony: false, end: old(self).size() }]);
        assert(walk.candidates =~= Seq::<(u64, u64)>::empty());
        assert(visited@ =~= Seq::<(u64, bool)>::empty());
        loop
            invariant_except_break
                walk.scan == self.scan(),
                walk.queue == queue@,
                walk.candidates == candidates@,
                want == discovered(walk, self.origin(), self.size(), visited@, endian),
            invariant
                self.same_file(old(self)),
                old(self).scan().leads_to(self.scan()),
                plausible(candidates@, self.size()),
                visited@.len() <= MAX_IFDS,
            ensures
                self.scan() == want.scan,
                candidates@ == want.candidates,
            decreases MAX_IFDS + 1 - visited@.len(), queue@.len(),
        {
            let ghost whole = queue@;
            match queue.pop_front() {
                None => {
                    break;
                },
                Some(ifd) => {
                    assert(queue@ =~= whole.skip(1));
                    proof {
                        walk = Walk { queue: queue@, ..walk };
                    }
                    if ifd.offset == 0 || seen(&visited, ifd.offset, ifd.sony) {
                        continue;
                    }
                    if visited.len() >= MAX_IFDS {
                        self.warn(Error::Limit("too many IFDs"));
                        break;
                    }
                    visited.push((ifd.offset, ifd.sony));
                    let ghost (done, end) = walked(
                        walk,
                        self.origin(),
                        self.size(),
                        ifd,
                        endian,
                    );
                    match self.walk_ifd(ifd, endian, &mut queue, &mut candidates) {
                        Ok(()) => {
                            proof {
                                walk = done;
                            }
                        },
                        Err(error) => {
                            self.warn(error);
                            proof {
                                walk = Walk { scan: self.scan(), ..done };
                            }
                        },
                    }
                    if self.metadata_bytes >= MAX_METADATA {
                        break;
                    }
                },
            }
        }
        candidates
    }

    /// Inspects every candidate range.
    fn inspect_all(&mut self, ranges: &Vec<(u64, u64)>) -> (found: Vec<EmbeddedPreview>)
        requires
            plausible(ranges@, old(self).size()),
        ensures
            final(self).same_file(old(self)),
            old(self).scan().leads_to(final(self).scan()),
            inspected_all(
                old(self).scan(),
                old(self).origin(),
                old(self).size(),
                ranges@,
                ranges@.len() as int,
            ) == (final(self).scan(), found@),
            ranked(found@),
            forall|i: int|
                0 <= i < found@.len() ==> usable(#[trigger] found@[i], old(self).size()),
    {
        let mut found: Vec<EmbeddedPreview> = Vec::new();
        assert(found@ =~= Seq::<EmbeddedPreview>::empty());
        let mut i: usize = 0;
        while i < ranges.len()
            invariant
                i <= ranges@.len(),
                plausible(ranges@, self.size()),
                self.same_file(old(self)),
                old(self).scan().leads_to(self.scan()),
                inspected_all(
                    old(self).scan(),
                    old(self).origin(),
                    old(self).size(),
                    ranges@,
                    i as int,
                ) == (self.scan(), found@),
                ranked(found@),
                forall|k: int|
                    0 <= k < found@.len() ==> usable(#[trigger] found@[k], old(self).size()),
            decreases ranges@.len() - i,
        {
            let range = Range { offset: ranges[i].0, length: ranges[i].1 };
            assert(tiff::in_file(ranges@[i as int].0, ranges@[i as int].1, self.size()));
            proof {
                lemma_inspected(self.scan(), self.origin(), self.size(), range);
            }
            match self.inspect_jpeg(range) {
                Ok(preview) => {
                    let ghost before = found@;
                    insert_ranked(&mut found, preview);
                    proof {
                        lemma_rank(before, before.len() as int, preview);
                        assert forall|k: int| 0 <= k < found@.len() implies usable(
                            #[trigger] found@[k],
                            old(self).size(),
                        ) by {
                            vstd::seq_lib::to_multiset_contains(found@, found@[k]);
                            vstd::seq_lib::to_multiset_contains(before, found@[k]);
                            assert(found@.contains(found@[k]));
                            if found@[k] != preview {
                                assert(before.contains(found@[k]));
                            }
                        }
                    }
                },
                Err(error) => {
                    self.warn(error);
                },
            }
            i += 1;
        }
        found
    }

    /// Every usable preview of the file: most pixels first, then most bytes.
    /// The JPEG's own frame header decides; sensor dimensions are not used.
    pub fn find_previews(&mut self) -> (result: Result<Vec<EmbeddedPreview>, Error>)
        ensures
            final(self).same_file(old(self)),
            ({
                let (scan, found) = previews(
                    old(self).scan(),
                    old(self).origin(),
                    old(self).size(),
                );
                &&& final(self).scan() == scan
                &&& match result {
                    Ok(list) => found == Ok::<Seq<EmbeddedPreview>, Fault>(list@),
                    Err(error) => found == Err::<Seq<EmbeddedPreview>, Fault>(error@),
                }
            }),
            fresh(old(self).scan()).leads_to(final(self).scan()),
            1 <= final(self).scan().orientation <= 8,
            result matches Ok(list) ==> {
                &&& list@.len() > 0
                &&& ranked(list@)
                &&& forall|i: int|
                    0 <= i < list@.len() ==> usable(#[trigger] list@[i], old(self).size())
            },
    {
        self.metadata_bytes = 0;
        self.warnings.clear();
        self.primary_ifd = 0;
        self.orientation = 1;
        assert(self.scan().warnings =~= Seq::<Seq<char>>::empty());
        assert(self.scan() == fresh(old(self).scan()));
        let mut header: Vec<u8> = vec![0; 8];
        match self.metadata(0, &mut header) {
            Ok(()) => {},
            Err(error) => {
                return Err(error);
            },
        }
        let endian = if header[0] == 0x49 && header[1] == 0x49 {
            Endian::Little
        } else if header[0] == 0x4d && header[1] == 0x4d {
            Endian::Big
        } else {
            return Err(Error::Invalid("not a TIFF byte-order header"));
        };
        if endian.read16(&header, 2) != 42 {
            return Err(Error::Invalid("requires classic TIFF magic 42; BigTIFF is unsupported"));
        }
        let first: u64 = endian.read32(&header, 4) as u64;
        if first < 8 {
            return Err(Error::Invalid("invalid first IFD offset"));
        }
        self.primary_ifd = first;
        let candidates = self.discover(first, endian);
        let ranges = sorted_distinct(&candidates);
        proof {
            let n = candidates@.len() as int;
            law_candidates_are_distinct_and_ascending(candidates@, n);
            assert(candidates@.take(n) =~= candidates@);
            assert forall|i: int| 0 <= i < ranges@.len() implies 4 <= (#[trigger] ranges@[i]).1
                <= MAX_JPEG_BYTES && tiff::in_file(ranges@[i].0, ranges@[i].1, self.size()) by {
                assert(ranges@.contains(ranges@[i]));
                assert(candidates@.contains(ranges@[i]));
            }
        }
        let previews = self.inspect_all(&ranges);
        if previews.len() == 0 {
            return Err(Error::NoPreview);
        }
        Ok(previews)
    }

    /// The preview with the most pixels.
    pub fn find_best_preview(&mut self) -> (result: Result<EmbeddedPreview, Error>)
        ensures
            final(self).same_file(old(self)),
            ({
                let (scan, found) = previews(
                    old(self).scan(),
                    old(self).origin(),
                    old(self).size(),
                );
                &&& final(self).scan() == scan
                &&& match found {
                    Ok(list) => list.len() > 0 && result == Ok::<EmbeddedPreview, Error>(list[0]),
                    Err(fault) => result is Err && result->Err_0@ == fault,
                }
            }),
    {
        match self.find_previews() {
            Ok(list) => Ok(list[0]),
            Err(error) => Err(error),
        }
    }

    /// Reads only the selected JPEG into `out`, whose memory is kept across
    /// files. Framing is checked and padding is trimmed; a failure leaves `out`
    /// empty. The JPEG is not decoded.
    ///
    /// The allocator is asked for what `out` lacks, and only if it lacks something
    /// for a preview that can be read; `read_reserved` does the rest.
    pub fn read_preview_into(&mut self, preview: &EmbeddedPreview, out: &mut Vec<u8>) -> (result:
        Result<(), Error>)
        ensures
            final(self).same_file(old(self)),
            result is Err ==> final(out)@.len() == 0,
            result is Ok ==> final(out)@.len() <= preview.length,
            exists|reserved: bool|
                (final(self).scan(), gained(result, final(out)@)) == #[trigger] delivered(
                    old(self).scan(),
                    old(self).origin(),
                    old(self).size(),
                    *preview,
                    old(out)@.len(),
                    reserved,
                ),
    {
        let short: usize = lacking(preview, self.file_len, out.len());
        let reserved = if short > 0 {
            memory::reserve_exact(out, short).is_ok()
        } else {
            true
        };
        self.read_reserved(preview, out, reserved)
    }

    /// Reads the selected JPEG into `out`, once memory for what `out` lacks was
    /// reserved or refused. A failure leaves `out` empty.
    pub fn read_reserved(
        &mut self,
        preview: &EmbeddedPreview,
        out: &mut Vec<u8>,
        reserved: bool,
    ) -> (result: Result<(), Error>)
        ensures
            final(self).same_file(old(self)),
            result is Err ==> final(out)@.len() == 0,
            result is Ok ==> final(out)@.len() <= preview.length,
            (final(self).scan(), gained(result, final(out)@)) == delivered(
                old(self).scan(),
                old(self).origin(),
                old(self).size(),
                *preview,
                old(out)@.len(),
                reserved,
            ),
    {
        let result = self.read_framed(preview, out, reserved);
        match result {
            Ok(end) => {
                out.truncate(end);
                Ok(())
            },
            Err(error) => {
                out.clear();
                Err(error)
            },
        }
    }

    /// Reads a preview and returns its length without padding.
    fn read_framed(&mut self, preview: &EmbeddedPreview, out: &mut Vec<u8>, reserved: bool) -> (
    result: Result<usize, Error>)
        ensures
            final(self).same_file(old(self)),
            result matches Ok(end) ==> end <= final(out)@.len() == preview.length,
            ({
                let (scan, want) = delivered(
                    old(self).scan(),
                    old(self).origin(),
                    old(self).size(),
                    *preview,
                    old(out)@.len(),
                    reserved,
                );
                &&& final(self).scan() == scan
                &&& match result {
                    Ok(end) => want == Ok::<Seq<u8>, Fault>(final(out)@.take(end as int)),
                    Err(error) => want == Err::<Seq<u8>, Fault>(error@),
                }
            }),
    {
        if preview.length < 4 || preview.length > MAX_JPEG_BYTES {
            return Err(Error::Limit("JPEG byte length"));
        }
        match checked_range(preview.offset, preview.length, self.file_len) {
            Ok(()) => {},
            Err(error) => {
                return Err(error);
            },
        }
        if preview.length > usize::MAX as u64 {
            return Err(Error::Limit("JPEG does not fit address space"));
        }
        let n: usize = preview.length as usize;
        if n > out.len() && !reserved {
            return Err(Error::Limit("JPEG allocation failed"));
        }
        out.resize(n, 0);
        match self.read_at(preview.offset, out) {
            Ok(()) => {},
            Err(error) => {
                return Err(error);
            },
        }
        jpeg::validate(out)
    }
}

/// Whether a preview may be read from a source of `file_len` bytes.
pub open spec fn readable(preview: EmbeddedPreview, file_len: u64) -> bool {
    4 <= preview.length <= MAX_JPEG_BYTES && tiff::in_file(preview.offset, preview.length, file_len)
}

/// The bytes that a buffer of `held` bytes lacks for a preview. A preview that may
/// not be read needs none.
pub fn lacking(preview: &EmbeddedPreview, file_len: u64, held: usize) -> (n: usize)
    ensures
        n == if readable(*preview, file_len) && held < preview.length <= usize::MAX {
            preview.length - held
        } else {
            0
        },
{
    if preview.length < 4 || preview.length > MAX_JPEG_BYTES || preview.length > usize::MAX as u64 {
        return 0;
    }
    match checked_range(preview.offset, preview.length, file_len) {
        Ok(()) => memory::missing(held, preview.length as usize),
        Err(_) => 0,
    }
}

/// What a buffer holds after a read.
pub open spec fn gained(result: Result<(), Error>, bytes: Seq<u8>) -> Result<Seq<u8>, Fault> {
    match result {
        Ok(()) => Ok(bytes),
        Err(error) => Err(error@),
    }
}

/// What a selected preview gives to a buffer of `held` bytes, after memory for what
/// it lacks was reserved or refused. Memory decides only where a preview that may be
/// read is longer than the buffer.
pub open spec fn delivered<R: ByteSource>(
    scan: Scan,
    source: R,
    file_len: u64,
    preview: EmbeddedPreview,
    held: nat,
    reserved: bool,
) -> (Scan, Result<Seq<u8>, Fault>) {
    if readable(preview, file_len) && preview.length > usize::MAX {
        (scan, Err(Fault::Limit("JPEG does not fit address space"@)))
    } else if readable(preview, file_len) && preview.length > held && !reserved {
        (scan, Err(Fault::Limit("JPEG allocation failed"@)))
    } else {
        extracted(scan, source, file_len, preview)
    }
}

/// What a selected preview gives: its bytes without padding.
pub open spec fn extracted<R: ByteSource>(
    scan: Scan,
    source: R,
    file_len: u64,
    preview: EmbeddedPreview,
) -> (Scan, Result<Seq<u8>, Fault>) {
    if !(4 <= preview.length <= MAX_JPEG_BYTES) {
        (scan, Err(Fault::Limit("JPEG byte length"@)))
    } else {
        let (next, read) = scan.read(source, file_len, preview.offset, preview.length as nat);
        match read {
            Err(fault) => (next, Err(fault)),
            Ok(bytes) => match jpeg::framed(bytes) {
                Err(fault) => (next, Err(fault)),
                Ok(end) => (next, Ok(bytes.take(end))),
            },
        }
    }
}

/// A preview that may not be read, or that fits into the buffer, gives the same
/// whatever the allocator says; and with memory a preview gives what is there.
pub proof fn law_memory_matters_only_for_longer_previews<R: ByteSource>(
    scan: Scan,
    source: R,
    file_len: u64,
    preview: EmbeddedPreview,
    held: nat,
)
    ensures
        !readable(preview, file_len) || preview.length <= held ==> delivered(
            scan,
            source,
            file_len,
            preview,
            held,
            false,
        ) == extracted(scan, source, file_len, preview),
        delivered(scan, source, file_len, preview, held, true) == extracted(
            scan,
            source,
            file_len,
            preview,
        ),
{
}

/// The preview with the most pixels among those in a source of `file_len` bytes.
pub fn find_best_preview<R: ByteSource>(source: R, file_len: u64) -> (result: Result<
    EmbeddedPreview,
    Error,
>)
    ensures
        ({
            let opened = Scan {
                stats: IoStats { bytes_read: 0, read_calls: 0 },
                used: 0,
                warnings: Seq::empty(),
                primary: 0,
                orientation: 1,
            };
            match previews(opened, source, file_len).1 {
                Ok(list) => list.len() > 0 && result == Ok::<EmbeddedPreview, Error>(list[0]),
                Err(fault) => result is Err && result->Err_0@ == fault,
            }
        }),
{
    let mut reader = PreviewReader::from_reader(source, file_len);
    reader.find_best_preview()
}

} // verus!
