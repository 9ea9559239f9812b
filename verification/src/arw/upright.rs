//! The orientation of a photograph is the one that its first directory gives, told by
//! the bytes of the file.
use crate::arw::container;
use crate::arw::coverage;
use crate::arw::error::Fault;
use crate::arw::jpeg;
use crate::arw::parser;
use crate::arw::parser::{Ifd, Peek, Range, Scan, Walk};
use crate::arw::source::ByteSource;
use crate::arw::tiff;
use vstd::prelude::*;

verus! {

/// Two states of a reader with the same first directory and orientation.
spec fn alike(a: Scan, b: Scan) -> bool {
    a.orientation == b.orientation && a.primary == b.primary
}

/// The entry gives the orientation, in the first directory.
spec fn turns(file: Seq<u8>, ifd: Ifd, k: int, primary: u64, little: bool) -> bool {
    &&& !ifd.sony
    &&& ifd.offset == primary
    &&& container::tag(file, ifd.offset as int, k, little) == 0x0112
}

proof fn lemma_turned<R: ByteSource>(
    source: R,
    file: Seq<u8>,
    ifd: Ifd,
    end: int,
    k: int,
    w: Walk,
    little: bool,
)
    requires
        0 <= k < container::entries(file, ifd.offset as int, little),
        coverage::tail(file, ifd, little) <= end <= file.len() <= u64::MAX,
    ensures
        ({
            let endian = container::order(little);
            let field = tiff::field_at(file.subrange(ifd.offset + 2, end), 12 * k, endian);
            let v = parser::visit(w, source, file.len() as u64, ifd, field, endian);
            &&& v.scan.primary == w.scan.primary
            &&& !turns(file, ifd, k, w.scan.primary, little) ==> v.scan.orientation
                == w.scan.orientation
            &&& turns(file, ifd, k, w.scan.primary, little) ==> forall|n: int| #[trigger]
                coverage::holds(file, ifd.offset as int, k, little, n) && 1 <= n <= 8
                    ==> v.scan.orientation == n
        }),
{
    coverage::lemma_field(file, ifd.offset as int, end, k, little);
}

proof fn lemma_all_turned<R: ByteSource>(
    source: R,
    file: Seq<u8>,
    ifd: Ifd,
    end: int,
    m: int,
    j: int,
    w: Walk,
    little: bool,
)
    requires
        0 <= m <= container::entries(file, ifd.offset as int, little),
        coverage::tail(file, ifd, little) <= end <= file.len() <= u64::MAX,
        0 <= j,
        turns(file, ifd, j, w.scan.primary, little),
        coverage::latest(file, ifd.offset as int, j, m, little),
    ensures
        ({
            let v = parser::visit_all(
                w,
                source,
                file.len() as u64,
                ifd,
                file.subrange(ifd.offset + 2, end),
                m,
                container::order(little),
            );
            &&& v.scan.primary == w.scan.primary
            &&& j < m ==> forall|n: int| #[trigger]
                coverage::holds(file, ifd.offset as int, j, little, n) && 1 <= n <= 8
                    ==> v.scan.orientation == n
        }),
    decreases m,
{
    if m > 0 {
        let k = m - 1;
        lemma_all_turned(source, file, ifd, end, k, j, w, little);
        let u = parser::visit_all(
            w,
            source,
            file.len() as u64,
            ifd,
            file.subrange(ifd.offset + 2, end),
            k,
            container::order(little),
        );
        lemma_turned(source, file, ifd, end, k, u, little);
        if j < k {
            assert(container::tag(file, ifd.offset as int, k, little) != container::tag(
                file,
                ifd.offset as int,
                j,
                little,
            ));
        }
    }
}

/// Other directories do not turn the photograph.
proof fn lemma_unturned_entries<R: ByteSource>(
    source: R,
    size: u64,
    ifd: Ifd,
    data: Seq<u8>,
    m: int,
    w: Walk,
    endian: tiff::Endian,
)
    requires
        ifd.sony || ifd.offset != w.scan.primary,
    ensures
        alike(parser::visit_all(w, source, size, ifd, data, m, endian).scan, w.scan),
    decreases m,
{
    if m > 0 {
        lemma_unturned_entries(source, size, ifd, data, m - 1, w, endian);
    }
}

proof fn lemma_unturned<R: ByteSource>(
    source: R,
    size: u64,
    ifd: Ifd,
    w: Walk,
    endian: tiff::Endian,
)
    requires
        ifd.sony || ifd.offset != w.scan.primary,
    ensures
        alike(parser::walked(w, source, size, ifd, endian).0.scan, w.scan),
{
    let (scan, head) = w.scan.metadata(source, size, ifd.offset, 2);
    if head is Ok {
        let count = endian.at16(head->Ok_0, 0) as int;
        let linked = ifd.offset + 2 + 12 * count + 4 <= ifd.end;
        let length = (12 * count + if linked {
            4int
        } else {
            0
        }) as nat;
        let (next, read) = scan.metadata(source, size, (ifd.offset + 2) as u64, length);
        if read is Ok {
            lemma_unturned_entries(
                source,
                size,
                ifd,
                read->Ok_0,
                count,
                Walk { scan: next, tags: parser::no_tags(), ..w },
                endian,
            );
        }
    }
}

/// Once the first directory was walked, the orientation stays.
proof fn lemma_settled<R: ByteSource>(
    source: R,
    size: u64,
    visited: Seq<(u64, bool)>,
    w: Walk,
    endian: tiff::Endian,
)
    requires
        visited.contains((w.scan.primary, false)),
    ensures
        alike(parser::discovered(w, source, size, visited, endian).scan, w.scan),
    decreases 129 - visited.len(), w.queue.len(),
{
    if w.queue.len() > 0 && visited.len() <= 128 {
        let ifd = w.queue[0];
        let rest = Walk { queue: w.queue.skip(1), ..w };
        let mark = (ifd.offset, ifd.sony);
        if ifd.offset == 0 || visited.contains(mark) {
            lemma_settled(source, size, visited, rest, endian);
        } else if visited.len() < 128 {
            lemma_unturned(source, size, ifd, rest, endian);
            let (done, end) = parser::walked(rest, source, size, ifd, endian);
            let next = match end {
                Ok(()) => done,
                Err(fault) => Walk { scan: done.scan.warn(fault), ..done },
            };
            let more = visited.push(mark);
            let i = choose|i: int| 0 <= i < visited.len() && visited[i] == (w.scan.primary, false);
            assert(more[i] == (w.scan.primary, false));
            if next.scan.used < parser::MAX_METADATA {
                lemma_settled(source, size, more, next, endian);
            }
        }
    }
}

proof fn lemma_peeked_marker<R: ByteSource>(
    source: R,
    size: u64,
    peek: Peek,
    range: Range,
    pos: int,
)
    ensures
        alike(peek.marker(source, size, range, pos).0.scan, peek.scan),
    decreases jpeg::MAX_HEADER - pos,
{
    let (next, read) = peek.byte(source, size, range, pos);
    if read is Ok && read->Ok_0 == 0xff && pos < jpeg::MAX_HEADER {
        lemma_peeked_marker(source, size, next, range, pos + 1);
    }
}

proof fn lemma_peeked_bytes<R: ByteSource>(
    source: R,
    size: u64,
    peek: Peek,
    range: Range,
    pos: int,
    n: int,
)
    ensures
        alike(peek.bytes_from(source, size, range, pos, n).0.scan, peek.scan),
    decreases n,
{
    if n > 0 {
        lemma_peeked_bytes(source, size, peek, range, pos, n - 1);
    }
}

proof fn lemma_peeked_frame<R: ByteSource>(
    source: R,
    size: u64,
    peek: Peek,
    range: Range,
    pos: int,
)
    ensures
        alike(peek.frame(source, size, range, pos).0, peek.scan),
    decreases range.length - pos,
{
    let (lead, first) = peek.byte(source, size, range, pos);
    if first is Ok && first->Ok_0 == 0xff {
        lemma_peeked_marker(source, size, lead, range, pos);
        lead.lemma_marker(source, size, range, pos);
        let (next, found) = lead.marker(source, size, range, pos);
        if found is Ok {
            let (marker, at) = found->Ok_0;
            if marker == 0x01 {
                lemma_peeked_frame(source, size, next, range, at + 1);
            } else if !(marker == 0 || 0xd0 <= marker <= 0xda) {
                let (after, length) = next.word(source, size, range, at + 1);
                if length is Ok && 2 <= length->Ok_0 && at + 1 + length->Ok_0 <= range.length {
                    if jpeg::frame_marker(marker) {
                        lemma_peeked_bytes(source, size, after, range, at + 3, length->Ok_0 - 2);
                    } else {
                        lemma_peeked_frame(source, size, after, range, at + 1 + length->Ok_0);
                    }
                }
            }
        }
    }
}

proof fn lemma_inspected<R: ByteSource>(
    source: R,
    size: u64,
    scan: Scan,
    ranges: Seq<(u64, u64)>,
    n: int,
)
    ensures
        alike(parser::inspected_all(scan, source, size, ranges, n).0, scan),
    decreases n,
{
    if n > 0 {
        lemma_inspected(source, size, scan, ranges, n - 1);
        let (before, _) = parser::inspected_all(scan, source, size, ranges, n - 1);
        let range = Range { offset: ranges[n - 1].0, length: ranges[n - 1].1 };
        let fresh = Peek { scan: before, start: None, bytes: Seq::empty() };
        let (peek, _) = fresh.word(source, size, range, 0);
        lemma_peeked_frame(source, size, peek, range, 2);
    }
}

/// The photograph is turned as the first directory of the file says, in its last entry
/// on that, whatever other directories say.
pub proof fn law_the_first_directory_gives_the_orientation<R: ByteSource>(
    source: R,
    file: Seq<u8>,
    scan: Scan,
    j: int,
    n: int,
    little: bool,
)
    requires
        container::serves(source, file),
        file.len() <= u64::MAX,
        container::begins(file, little),
        coverage::sound(file, coverage::root(file, little), little),
        coverage::gives(file, container::long(file, 4, little), j, little, 0x0112),
        coverage::holds(file, container::long(file, 4, little), j, little, n),
        1 <= n <= 8,
    ensures
        parser::previews(scan, source, file.len() as u64).0.orientation == n,
{
    let size = file.len() as u64;
    let endian = container::order(little);
    let header = file.subrange(0, 8);
    assert(source.outcome(0, 8) == Ok::<Seq<u8>, Fault>(header));
    container::lemma_numbers(file, 0, 8, 2, little);
    container::lemma_numbers(file, 0, 8, 4, little);
    assert(header[0] == file[0] && header[1] == file[1]);
    assert(parser::declared_order(header) == Some(endian));
    let (begun, _) = parser::fresh(scan).metadata(source, size, 0, 8);
    let ifd = coverage::root(file, little);
    let outset = coverage::outset(begun, file, little);
    assert(outset.scan == (Scan { primary: ifd.offset, ..begun }));
    let walk = parser::discovered(outset, source, size, Seq::empty(), endian);
    lemma_first(source, file, outset, j, n, little);
    let ranges = parser::distinct(walk.candidates, walk.candidates.len() as int);
    lemma_inspected(source, size, walk.scan, ranges, ranges.len() as int);
}

proof fn lemma_first<R: ByteSource>(
    source: R,
    file: Seq<u8>,
    w: Walk,
    j: int,
    n: int,
    little: bool,
)
    requires
        container::serves(source, file),
        file.len() <= u64::MAX,
        coverage::sound(file, coverage::root(file, little), little),
        w.queue == seq![coverage::root(file, little)],
        w.scan.primary == coverage::root(file, little).offset,
        w.scan.used == 8,
        coverage::gives(
            file,
            coverage::root(file, little).offset as int,
            j,
            little,
            0x0112,
        ),
        coverage::holds(file, coverage::root(file, little).offset as int, j, little, n),
        1 <= n <= 8,
    ensures
        parser::discovered(
            w,
            source,
            file.len() as u64,
            Seq::empty(),
            container::order(little),
        ).scan.orientation == n,
{
    let size = file.len() as u64;
    let endian = container::order(little);
    let ifd = coverage::root(file, little);
    let d = ifd.offset as int;
    let count = container::entries(file, d, little);
    let rest = Walk { queue: w.queue.skip(1), ..w };
    assert(w.queue[0] == ifd);
    assert(source.outcome(ifd.offset, 2) == Ok::<Seq<u8>, Fault>(file.subrange(d, d + 2)));
    container::lemma_numbers(file, d, d + 2, 0, little);
    let (head, _) = rest.scan.metadata(source, size, ifd.offset, 2);
    let end = d + 2 + 12 * count + 4;
    let data = file.subrange(d + 2, end);
    assert(source.outcome((d + 2) as u64, (12 * count + 4) as nat) == Ok::<Seq<u8>, Fault>(data));
    let (scan, _) = head.metadata(source, size, (d + 2) as u64, (12 * count + 4) as nat);
    let start = Walk { scan, tags: parser::no_tags(), ..rest };
    assert(coverage::latest(file, d, j, count, little));
    lemma_all_turned(source, file, ifd, end, count, j, start, little);
    let (next, out) = parser::walked(rest, source, size, ifd, endian);
    assert(out is Ok);
    assert(next.scan.orientation == n && next.scan.primary == ifd.offset);
    let none = Seq::<(u64, bool)>::empty();
    let marks = none.push((ifd.offset, ifd.sony));
    assert(marks[0] == (next.scan.primary, false));
    if next.scan.used < parser::MAX_METADATA {
        lemma_settled(source, size, marks, next, endian);
    }
}

} // verus!
