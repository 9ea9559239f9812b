//! The largest image of a file is found, told by the bytes of the file.
use crate::arw::container;
use crate::arw::coverage;
use crate::arw::error::Fault;
use crate::arw::jpeg;
use crate::arw::parser;
use crate::arw::parser::{EmbeddedPreview, Ifd, Peek, Range, Scan};
use crate::arw::source::ByteSource;
use vstd::prelude::*;

verus! {

/// The length that the JPEG segment at `at` gives itself.
pub open spec fn segment(file: Seq<u8>, at: int) -> int {
    256 * file[at + 2] + file[at + 3]
}

/// Whether a segment stands at `at` that is neither a frame nor a scan, nor a marker
/// without a length.
pub open spec fn ordinary(file: Seq<u8>, at: int) -> bool {
    let marker = file[at + 1];
    &&& file[at] == 0xff
    &&& 2 <= marker <= 0xbf || marker == 0xc4 || marker == 0xc8 || marker == 0xcc || 0xdb <= marker
        <= 0xfe
    &&& segment(file, at) >= 2
}

/// Whether a frame of this size stands at `at`: baseline, extended or progressive,
/// eight bits deep, of one, three or four components.
pub open spec fn frame(file: Seq<u8>, at: int, width: int, height: int) -> bool {
    let components = file[at + 9];
    &&& file[at] == 0xff
    &&& 0xc0 <= file[at + 1] <= 0xc2
    &&& components == 1 || components == 3 || components == 4
    &&& segment(file, at) == 8 + 3 * components
    &&& file[at + 4] == 8
    &&& 256 * file[at + 5] + file[at + 6] == height
    &&& 256 * file[at + 7] + file[at + 8] == width
    &&& width > 0
    &&& height > 0
}

/// Whether one segment begins where the one before it ends.
pub open spec fn adjacent(file: Seq<u8>, starts: Seq<int>, k: int) -> bool {
    starts[k + 1] == starts[k] + 2 + segment(file, starts[k])
}

/// Whether a JPEG image stands at `offset`, of `end` bytes, with padding up to
/// `length`. Its segments up to the frame start at `starts`, all within one megabyte.
pub open spec fn picture(
    file: Seq<u8>,
    offset: int,
    length: int,
    end: int,
    starts: Seq<int>,
    width: int,
    height: int,
) -> bool {
    &&& 0 <= offset
    &&& offset + length <= file.len()
    &&& file[offset] == 0xff && file[offset + 1] == 0xd8
    &&& starts.len() > 0
    &&& starts[0] == offset + 2
    &&& forall|i: int|
        0 <= i < starts.len() - 1 ==> ordinary(file, #[trigger] starts[i])
    &&& forall|i: int| 0 <= i < starts.len() - 1 ==> #[trigger] adjacent(file, starts, i)
    &&& frame(file, starts.last(), width, height)
    &&& forall|i: int|
        0 <= i < starts.len() ==> #[trigger] starts[i] + 2 + segment(file, starts[i]) <= offset
            + length && offset <= starts[i] <= offset + 1048576 - 22
    &&& 4 <= end <= length
    &&& length - 4096 <= end - 2
    &&& file[offset + end - 2] == 0xff && file[offset + end - 1] == 0xd9
    &&& forall|i: int|
        offset + end <= i < offset + length ==> #[trigger] file[i] == 0 || file[i] == 0xff
}

/// Whether a window holds bytes of the file.
spec fn fits(peek: Peek, file: Seq<u8>, range: Range) -> bool {
    peek.start is Some ==> {
        &&& 0 <= peek.start->0
        &&& peek.start->0 + peek.bytes.len() <= range.length
        &&& peek.bytes == file.subrange(
            range.offset + peek.start->0,
            range.offset + peek.start->0 + peek.bytes.len(),
        )
    }
}

proof fn lemma_byte<R: ByteSource>(
    source: R,
    file: Seq<u8>,
    peek: Peek,
    range: Range,
    pos: int,
)
    requires
        container::serves(source, file),
        file.len() <= u64::MAX,
        range.offset + range.length <= file.len(),
        fits(peek, file, range),
        0 <= pos < range.length,
        pos < 1048576,
        peek.scan.used + 4096 <= 4194304,
    ensures
        ({
            let (next, read) = peek.byte(source, file.len() as u64, range, pos);
            &&& read == Ok::<u8, Fault>(file[range.offset + pos])
            &&& fits(next, file, range)
            &&& next.scan.used <= peek.scan.used + 4096
        }),
{
    if !(peek.start is Some && peek.start->0 <= pos < peek.start->0 + peek.bytes.len()) {
        let left = range.length - pos;
        let n = if left < 4096 {
            left
        } else {
            4096
        };
        let at = range.offset + pos;
        assert(source.outcome(at as u64, n as nat) == Ok::<Seq<u8>, Fault>(
            file.subrange(at, at + n),
        ));
    }
}

proof fn lemma_word<R: ByteSource>(
    source: R,
    file: Seq<u8>,
    peek: Peek,
    range: Range,
    pos: int,
)
    requires
        container::serves(source, file),
        file.len() <= u64::MAX,
        range.offset + range.length <= file.len(),
        fits(peek, file, range),
        0 <= pos,
        pos + 1 < range.length,
        pos + 1 < 1048576,
        peek.scan.used + 8192 <= 4194304,
    ensures
        ({
            let (next, read) = peek.word(source, file.len() as u64, range, pos);
            &&& read == Ok::<int, Fault>(
                256 * file[range.offset + pos] + file[range.offset + pos + 1],
            )
            &&& fits(next, file, range)
            &&& next.scan.used <= peek.scan.used + 8192
        }),
{
    lemma_byte(source, file, peek, range, pos);
    let (one, _) = peek.byte(source, file.len() as u64, range, pos);
    lemma_byte(source, file, one, range, pos + 1);
}

proof fn lemma_marker<R: ByteSource>(
    source: R,
    file: Seq<u8>,
    peek: Peek,
    range: Range,
    pos: int,
)
    requires
        container::serves(source, file),
        file.len() <= u64::MAX,
        range.offset + range.length <= file.len(),
        fits(peek, file, range),
        0 <= pos,
        pos + 1 < range.length,
        pos + 1 < 1048576,
        file[range.offset + pos] == 0xff,
        file[range.offset + pos + 1] != 0xff,
        peek.scan.used + 8192 <= 4194304,
    ensures
        ({
            let (next, read) = peek.marker(source, file.len() as u64, range, pos);
            &&& read == Ok::<(u8, int), Fault>((file[range.offset + pos + 1], pos + 1))
            &&& fits(next, file, range)
            &&& next.scan.used <= peek.scan.used + 8192
        }),
{
    reveal_with_fuel(Peek::marker, 2);
    lemma_byte(source, file, peek, range, pos);
    let (one, _) = peek.byte(source, file.len() as u64, range, pos);
    lemma_byte(source, file, one, range, pos + 1);
}

proof fn lemma_bytes<R: ByteSource>(
    source: R,
    file: Seq<u8>,
    peek: Peek,
    range: Range,
    pos: int,
    n: int,
)
    requires
        container::serves(source, file),
        file.len() <= u64::MAX,
        range.offset + range.length <= file.len(),
        fits(peek, file, range),
        0 <= pos,
        0 <= n,
        pos + n <= range.length,
        pos + n <= 1048576,
        peek.scan.used + 4096 * n <= 4194304,
    ensures
        ({
            let (next, read) = peek.bytes_from(source, file.len() as u64, range, pos, n);
            &&& read == Ok::<Seq<u8>, Fault>(
                file.subrange(range.offset + pos, range.offset + pos + n),
            )
            &&& fits(next, file, range)
            &&& next.scan.used <= peek.scan.used + 4096 * n
        }),
    decreases n,
{
    let at = range.offset + pos;
    if n > 0 {
        lemma_bytes(source, file, peek, range, pos, n - 1);
        let (before, _) = peek.bytes_from(source, file.len() as u64, range, pos, n - 1);
        lemma_byte(source, file, before, range, pos + n - 1);
        assert(file.subrange(at, at + n) =~= file.subrange(at, at + n - 1).push(file[at + n - 1]));
    } else {
        assert(file.subrange(at, at + n) =~= Seq::empty());
    }
}

/// The frame of an image is found.
proof fn lemma_frame<R: ByteSource>(
    source: R,
    file: Seq<u8>,
    peek: Peek,
    range: Range,
    end: int,
    starts: Seq<int>,
    k: int,
    width: int,
    height: int,
)
    requires
        container::serves(source, file),
        file.len() <= u64::MAX,
        picture(file, range.offset as int, range.length as int, end, starts, width, height),
        fits(peek, file, range),
        0 <= k < starts.len(),
        peek.scan.used + 4096 * (5 * (starts.len() - k) + 18) <= 4194304,
    ensures
        ({
            let (scan, size) = peek.frame(
                source,
                file.len() as u64,
                range,
                starts[k] - range.offset,
            );
            &&& size == Ok::<(u32, u32), Fault>((width as u32, height as u32))
            &&& scan.used <= peek.scan.used + 4096 * (5 * (starts.len() - k) + 18)
        }),
    decreases starts.len() - k,
{
    let size = file.len() as u64;
    let at = starts[k];
    let pos = at - range.offset;
    assert(at + 2 + segment(file, at) <= range.offset + range.length);
    assert(if k < starts.len() - 1 {
        ordinary(file, starts[k])
    } else {
        frame(file, starts[k], width, height)
    });
    lemma_byte(source, file, peek, range, pos);
    let (lead, _) = peek.byte(source, size, range, pos);
    lemma_marker(source, file, lead, range, pos);
    let (found, _) = lead.marker(source, size, range, pos);
    lemma_word(source, file, found, range, pos + 2);
    let (told, length) = found.word(source, size, range, pos + 2);
    assert(length == Ok::<int, Fault>(segment(file, at)));
    if k < starts.len() - 1 {
        assert(!jpeg::frame_marker(file[at + 1]));
        assert(adjacent(file, starts, k));
        lemma_frame(source, file, told, range, end, starts, k + 1, width, height);
    } else {
        let n = segment(file, at) - 2;
        lemma_bytes(source, file, told, range, pos + 4, n);
        let payload = file.subrange(at + 4, at + 4 + n);
        assert(payload[0] == file[at + 4] && payload[1] == file[at + 5] && payload[2] == file[at
            + 6] && payload[3] == file[at + 7] && payload[4] == file[at + 8] && payload[5]
            == file[at + 9]);
        assert(jpeg::frame_size(payload) == Ok::<(u32, u32), Fault>((width as u32, height as u32)));
    }
}

proof fn lemma_eoi(tail: Seq<u8>, n: int, end: int)
    requires
        2 <= end <= n <= tail.len(),
        tail[end - 2] == 0xff,
        tail[end - 1] == 0xd9,
        forall|i: int| end <= i < n ==> #[trigger] tail[i] == 0 || tail[i] == 0xff,
    ensures
        parser::last_eoi(tail, n) == Some(end - 1),
    decreases n,
{
    if n > end {
        assert(tail[n - 1] == 0 || tail[n - 1] == 0xff);
        lemma_eoi(tail, n - 1, end);
    }
}

/// An image is recognised, with its size and without its padding.
proof fn lemma_recognised<R: ByteSource>(
    source: R,
    file: Seq<u8>,
    scan: Scan,
    range: Range,
    end: int,
    starts: Seq<int>,
    width: int,
    height: int,
)
    requires
        container::serves(source, file),
        file.len() <= u64::MAX,
        picture(file, range.offset as int, range.length as int, end, starts, width, height),
        scan.used + 4096 * (5 * starts.len() + 21) <= 4194304,
    ensures
        parser::inspected(scan, source, file.len() as u64, range).1 == Ok::<EmbeddedPreview, Fault>(
            EmbeddedPreview {
                offset: range.offset,
                length: end as u64,
                width: Some(width as u32),
                height: Some(height as u32),
            },
        ),
{
    let size = file.len() as u64;
    let fresh = Peek { scan, start: None, bytes: Seq::empty() };
    lemma_byte(source, file, fresh, range, 0);
    lemma_word(source, file, fresh, range, 0);
    let (peek, _) = fresh.word(source, size, range, 0);
    lemma_frame(source, file, peek, range, end, starts, 0, width, height);
    let (after, _) = peek.frame(source, size, range, 2);
    let n = if range.length < 4096 {
        range.length as int
    } else {
        4096
    };
    let from = range.offset + range.length - n;
    let tail = file.subrange(from, from + n);
    assert(source.outcome(from as u64, n as nat) == Ok::<Seq<u8>, Fault>(tail));
    let local = end - (range.length - n);
    assert forall|i: int| local <= i < n implies #[trigger] tail[i] == 0 || tail[i] == 0xff by {
        assert(tail[i] == file[from + i]);
    }
    assert(tail[local - 2] == file[range.offset + end - 2]);
    assert(tail[local - 1] == file[range.offset + end - 1]);
    lemma_eoi(tail, n, local);
    assert(jpeg::padding(tail, local));
}

/// What is asked for is counted, and never given back.
proof fn lemma_counted_marker<R: ByteSource>(
    source: R,
    size: u64,
    peek: Peek,
    range: Range,
    pos: int,
)
    ensures
        peek.scan.used <= peek.marker(source, size, range, pos).0.scan.used,
    decreases jpeg::MAX_HEADER - pos,
{
    let (next, read) = peek.byte(source, size, range, pos);
    if read is Ok && read->Ok_0 == 0xff && pos < jpeg::MAX_HEADER {
        lemma_counted_marker(source, size, next, range, pos + 1);
    }
}

proof fn lemma_counted_bytes<R: ByteSource>(
    source: R,
    size: u64,
    peek: Peek,
    range: Range,
    pos: int,
    n: int,
)
    ensures
        peek.scan.used <= peek.bytes_from(source, size, range, pos, n).0.scan.used,
    decreases n,
{
    if n > 0 {
        lemma_counted_bytes(source, size, peek, range, pos, n - 1);
    }
}

proof fn lemma_counted_frame<R: ByteSource>(
    source: R,
    size: u64,
    peek: Peek,
    range: Range,
    pos: int,
)
    ensures
        peek.scan.used <= peek.frame(source, size, range, pos).0.used,
    decreases range.length - pos,
{
    let (lead, first) = peek.byte(source, size, range, pos);
    if first is Ok && first->Ok_0 == 0xff {
        lemma_counted_marker(source, size, lead, range, pos);
        lead.lemma_marker(source, size, range, pos);
        let (next, found) = lead.marker(source, size, range, pos);
        if found is Ok {
            let (marker, at) = found->Ok_0;
            if marker == 0x01 {
                lemma_counted_frame(source, size, next, range, at + 1);
            } else if !(marker == 0 || 0xd0 <= marker <= 0xda) {
                let (after, length) = next.word(source, size, range, at + 1);
                if length is Ok && 2 <= length->Ok_0 && at + 1 + length->Ok_0 <= range.length {
                    if jpeg::frame_marker(marker) {
                        lemma_counted_bytes(source, size, after, range, at + 3, length->Ok_0 - 2);
                    } else {
                        lemma_counted_frame(source, size, after, range, at + 1 + length->Ok_0);
                    }
                }
            }
        }
    }
}

proof fn lemma_counted<R: ByteSource>(source: R, size: u64, scan: Scan, range: Range)
    ensures
        scan.used <= parser::inspected(scan, source, size, range).0.used,
{
    let fresh = Peek { scan, start: None, bytes: Seq::empty() };
    let (peek, _) = fresh.word(source, size, range, 0);
    lemma_counted_frame(source, size, peek, range, 2);
}

proof fn lemma_counted_all<R: ByteSource>(
    source: R,
    size: u64,
    scan: Scan,
    ranges: Seq<(u64, u64)>,
    m: int,
    n: int,
)
    requires
        m <= n,
    ensures
        parser::inspected_all(scan, source, size, ranges, m).0.used <= parser::inspected_all(
            scan,
            source,
            size,
            ranges,
            n,
        ).0.used,
    decreases n,
{
    if m < n && n > 0 {
        lemma_counted_all(source, size, scan, ranges, m, n - 1);
        let (before, _) = parser::inspected_all(scan, source, size, ranges, n - 1);
        lemma_counted(
            source,
            size,
            before,
            Range { offset: ranges[n - 1].0, length: ranges[n - 1].1 },
        );
    }
}

/// An image that is recognised is listed, best first.
proof fn lemma_listed<R: ByteSource>(
    source: R,
    size: u64,
    scan: Scan,
    ranges: Seq<(u64, u64)>,
    n: int,
    r: int,
    p: EmbeddedPreview,
)
    requires
        0 <= r,
        r < n ==> parser::inspected(
            parser::inspected_all(scan, source, size, ranges, r).0,
            source,
            size,
            Range { offset: ranges[r].0, length: ranges[r].1 },
        ).1 == Ok::<EmbeddedPreview, Fault>(p),
    ensures
        ({
            let found = parser::inspected_all(scan, source, size, ranges, n).1;
            &&& parser::ranked(found)
            &&& forall|i: int|
                0 <= i < found.len() ==> (#[trigger] found[i]).width is Some && found[i].height is Some
            &&& r < n ==> found.to_multiset().count(p) > 0
        }),
    decreases n,
{
    broadcast use vstd::multiset::group_multiset_axioms;

    if n > 0 {
        lemma_listed(source, size, scan, ranges, n - 1, r, p);
        let (before, found) = parser::inspected_all(scan, source, size, ranges, n - 1);
        let (next, read) = parser::inspected(
            before,
            source,
            size,
            Range { offset: ranges[n - 1].0, length: ranges[n - 1].1 },
        );
        if read is Ok {
            parser::lemma_rank(found, found.len() as int, read->Ok_0);
            lemma_sized(found, found.len() as int, read->Ok_0);
        }
    }
}

proof fn lemma_sized(s: Seq<EmbeddedPreview>, n: int, p: EmbeddedPreview)
    requires
        0 <= n <= s.len(),
        forall|i: int| 0 <= i < s.len() ==> (#[trigger] s[i]).width is Some && s[i].height is Some,
        p.width is Some,
        p.height is Some,
    ensures
        ({
            let out = parser::rank(s, n, p);
            forall|i: int|
                0 <= i < out.len() ==> (#[trigger] out[i]).width is Some && out[i].height is Some
        }),
    decreases n,
{
    if n > 0 && !parser::at_least(s[n - 1], p) {
        lemma_sized(s, n - 1, p);
    }
}

/// The first preview of a file has at least as many pixels as any well-formed image
/// that a directory declares, if a chain of links leads to that directory and the
/// reading does not come near its limit of four megabytes.
pub proof fn law_the_largest_image_is_listed_first<R: ByteSource>(
    source: R,
    file: Seq<u8>,
    dirs: Seq<Ifd>,
    chain: Seq<Ifd>,
    scan: Scan,
    offset: int,
    length: int,
    end: int,
    starts: Seq<int>,
    width: int,
    height: int,
    little: bool,
)
    requires
        container::serves(source, file),
        coverage::surveyed(file, dirs, little),
        coverage::reached(file, chain, little),
        coverage::declares(file, chain.last(), offset, length, little),
        picture(file, offset, length, end, starts, width, height),
        parser::previews(scan, source, file.len() as u64).0.used + 4096 * (5 * starts.len() + 21)
            <= 4194304,
    ensures
        ({
            let out = parser::previews(scan, source, file.len() as u64).1;
            let list = out->Ok_0;
            &&& out is Ok
            &&& list.contains(
                EmbeddedPreview {
                    offset: offset as u64,
                    length: end as u64,
                    width: Some(width as u32),
                    height: Some(height as u32),
                },
            )
            &&& list[0].width is Some && list[0].height is Some
            &&& (list[0].width->0) * (list[0].height->0) >= width * height
            &&& forall|i: int|
                0 <= i < list.len() ==> (#[trigger] list[i]).width is Some && list[i].height is Some
                    && (list[0].width->0) * (list[0].height->0) >= (list[i].width->0) * (
                list[i].height->0)
        }),
{
    let size = file.len() as u64;
    let header = file.subrange(0, 8);
    assert(source.outcome(0, 8) == Ok::<Seq<u8>, Fault>(header));
    container::lemma_numbers(file, 0, 8, 2, little);
    container::lemma_numbers(file, 0, 8, 4, little);
    assert(header[0] == file[0] && header[1] == file[1]);
    let endian = container::order(little);
    assert(parser::declared_order(header) == Some(endian));
    let (begun, _) = parser::fresh(scan).metadata(source, size, 0, 8);
    let first = endian.at32(header, 4) as u64;
    let outset = coverage::outset(begun, file, little);
    assert(outset.scan == (Scan { primary: first, ..begun }));
    assert(outset.queue == seq![Ifd { offset: first, sony: false, end: size }]);
    coverage::law_declared_images_are_candidates(
        source,
        file,
        dirs,
        chain,
        begun,
        offset,
        length,
        little,
    );
    let walk = parser::discovered(outset, source, size, Seq::empty(), endian);
    let all = walk.candidates;
    let ranges = parser::distinct(all, all.len() as int);
    parser::law_candidates_are_distinct_and_ascending(all, all.len() as int);
    let x = (offset as u64, length as u64);
    assert(all.take(all.len() as int) =~= all);
    assert(ranges.contains(x));
    let r = choose|r: int| 0 <= r < ranges.len() && ranges[r] == x;
    let n = ranges.len() as int;
    lemma_counted_all(source, size, walk.scan, ranges, r, n);
    let at = parser::inspected_all(walk.scan, source, size, ranges, r).0;
    let range = Range { offset: x.0, length: x.1 };
    lemma_recognised(source, file, at, range, end, starts, width, height);
    let p = EmbeddedPreview {
        offset: offset as u64,
        length: end as u64,
        width: Some(width as u32),
        height: Some(height as u32),
    };
    lemma_listed(source, size, walk.scan, ranges, n, r, p);
    let (done, found) = parser::inspected_all(walk.scan, source, size, ranges, n);
    found.to_multiset_ensures();
    assert(found.contains(p));
    let i = choose|i: int| 0 <= i < found.len() && found[i] == p;
    assert(parser::previews(scan, source, size) == (done, Ok::<Seq<EmbeddedPreview>, Fault>(found)));
    if i > 0 {
        assert(parser::at_least(found[0], found[i]));
    }
    assert(parser::area(p) == width * height);
    assert forall|i: int| 0 <= i < found.len() implies (#[trigger] found[i]).width is Some
        && found[i].height is Some && (found[0].width->0) * (found[0].height->0) >= (
    found[i].width->0) * (found[i].height->0) by {
        if i > 0 {
            assert(parser::at_least(found[0], found[i]));
        }
    }
}

/// Whether a scan header stands at `at`, of one to four components.
pub open spec fn scan(file: Seq<u8>, at: int) -> bool {
    &&& file[at] == 0xff
    &&& file[at + 1] == 0xda
    &&& 1 <= file[at + 4] <= 4
    &&& segment(file, at) == 6 + 2 * file[at + 4]
}

/// Whether the bytes between two places are coded data: every FF is followed by zero,
/// or by the number of a restart marker.
pub open spec fn coded(file: Seq<u8>, a: int, b: int) -> bool {
    forall|i: int|
        a <= i < b && #[trigger] file[i] == 0xff ==> i + 1 < b && (file[i + 1] == 0 || 0xd0
            <= file[i + 1] <= 0xd7)
}

/// Whether one segment begins where the one before it ends, or the coded data behind
/// that does.
pub open spec fn continued(data: Seq<u8>, starts: Seq<int>, k: int) -> bool {
    let after = starts[k] + 2 + segment(data, starts[k]);
    if data[starts[k] + 1] == 0xda {
        after <= starts[k + 1] && coded(data, after, starts[k + 1])
    } else {
        starts[k + 1] == after
    }
}

/// Whether some bytes are one JPEG image of `end` bytes and padding: segments that
/// start at `starts`, the frame at number `f`, at least one scan behind it at number
/// `s`, coded data behind each scan, and the end-of-image marker last.
pub open spec fn image(data: Seq<u8>, starts: Seq<int>, f: int, s: int, end: int) -> bool {
    let last = starts.len() - 1;
    &&& data.len() >= 2 && data[0] == 0xff && data[1] == 0xd8
    &&& 0 <= f < s < last
    &&& starts[0] == 2
    &&& starts[last] == end - 2
    &&& end <= data.len()
    &&& data[end - 2] == 0xff && data[end - 1] == 0xd9
    &&& forall|i: int| end <= i < data.len() ==> #[trigger] data[i] == 0 || data[i] == 0xff
    &&& exists|width: int, height: int| frame(data, starts[f], width, height)
    &&& scan(data, starts[s])
    &&& forall|k: int|
        0 <= k < last && k != f ==> ordinary(data, #[trigger] starts[k]) || k > f && scan(
            data,
            starts[k],
        )
    &&& forall|k: int|
        0 <= k < last ==> {
            let after = #[trigger] starts[k] + 2 + segment(data, starts[k]);
            2 <= starts[k] && after <= data.len()
        }
    &&& forall|k: int| 0 <= k < last ==> #[trigger] continued(data, starts, k)
}

/// Coded data is passed over.
proof fn lemma_coded(data: Seq<u8>, pos: int, b: int)
    requires
        0 <= pos <= b,
        b + 1 < data.len(),
        coded(data, pos, b),
        data[b] == 0xff,
        data[b + 1] != 0 && data[b + 1] != 0xff && !(0xd0 <= data[b + 1] <= 0xd7),
    ensures
        jpeg::framed_from(data, pos, true, true, true) == jpeg::framed_from(
            data,
            b,
            true,
            true,
            false,
        ),
    decreases b - pos,
{
    reveal_with_fuel(jpeg::next_marker, 2);
    reveal_with_fuel(jpeg::after_fill, 3);
    if pos == b {
        assert(jpeg::next_marker(data, b) == b);
        assert(jpeg::after_fill(data, b) == b + 1);
    } else if data[pos] != 0xff {
        assert(coded(data, pos + 1, b));
        lemma_coded(data, pos + 1, b);
        assert(jpeg::next_marker(data, pos) == jpeg::next_marker(data, pos + 1));
    } else {
        assert(coded(data, pos + 2, b));
        assert(jpeg::after_fill(data, pos) == pos + 1);
        lemma_coded(data, pos + 2, b);
    }
}

/// An ordinary segment is passed over.
proof fn lemma_ordinary(data: Seq<u8>, at: int, frame: bool, scan: bool)
    requires
        0 <= at,
        ordinary(data, at),
        at + 2 + segment(data, at) <= data.len(),
    ensures
        jpeg::framed_from(data, at, frame, scan, false) == jpeg::framed_from(
            data,
            at + 2 + segment(data, at),
            frame,
            scan,
            false,
        ),
{
    reveal_with_fuel(jpeg::after_fill, 3);
    assert(jpeg::after_fill(data, at) == at + 1);
    assert(jpeg::be16(data, at + 2) == segment(data, at));
}

/// A frame is noted.
proof fn lemma_framed(data: Seq<u8>, at: int, width: int, height: int)
    requires
        0 <= at,
        frame(data, at, width, height),
        at + 2 + segment(data, at) <= data.len(),
    ensures
        jpeg::framed_from(data, at, false, false, false) == jpeg::framed_from(
            data,
            at + 2 + segment(data, at),
            true,
            false,
            false,
        ),
{
    reveal_with_fuel(jpeg::after_fill, 3);
    assert(jpeg::after_fill(data, at) == at + 1);
    assert(jpeg::be16(data, at + 2) == segment(data, at));
    let payload = data.subrange(at + 4, at + 2 + segment(data, at));
    assert(payload[0] == data[at + 4] && payload[1] == data[at + 5] && payload[2] == data[at + 6]
        && payload[3] == data[at + 7] && payload[4] == data[at + 8] && payload[5] == data[at + 9]);
    assert(jpeg::frame_size(payload) is Ok);
}

/// A scan is noted, and coded data follows.
proof fn lemma_scanned(data: Seq<u8>, at: int, seen: bool)
    requires
        0 <= at,
        scan(data, at),
        at + 2 + segment(data, at) <= data.len(),
    ensures
        jpeg::framed_from(data, at, true, seen, false) == jpeg::framed_from(
            data,
            at + 2 + segment(data, at),
            true,
            true,
            true,
        ),
{
    reveal_with_fuel(jpeg::after_fill, 3);
    assert(jpeg::after_fill(data, at) == at + 1);
    assert(jpeg::be16(data, at + 2) == segment(data, at));
    let payload = data.subrange(at + 4, at + 2 + segment(data, at));
    assert(payload[0] == data[at + 4]);
    assert(jpeg::scan_header(payload));
}

/// The end-of-image marker ends an image with a frame and a scan.
proof fn lemma_ended(data: Seq<u8>, end: int)
    requires
        2 <= end <= data.len(),
        data[end - 2] == 0xff,
        data[end - 1] == 0xd9,
        forall|i: int| end <= i < data.len() ==> #[trigger] data[i] == 0 || data[i] == 0xff,
    ensures
        jpeg::framed_from(data, end - 2, true, true, false) == Ok::<int, Fault>(end),
{
    reveal_with_fuel(jpeg::after_fill, 3);
    assert(jpeg::after_fill(data, end - 2) == end - 1);
    assert(jpeg::padding(data, end));
}

/// The segments of an image are passed one by one.
proof fn lemma_segments(
    data: Seq<u8>,
    starts: Seq<int>,
    f: int,
    s: int,
    end: int,
    k: int,
    seen: bool,
)
    requires
        image(data, starts, f, s, end),
        0 <= k < starts.len(),
        k > s ==> seen,
        seen ==> k > f,
    ensures
        jpeg::framed_from(data, starts[k], k > f, seen, false) == Ok::<int, Fault>(end),
    decreases starts.len() - k,
{
    let at = starts[k];
    if k == starts.len() - 1 {
        lemma_ended(data, end);
    } else {
        let after = starts[k] + 2 + segment(data, starts[k]);
        assert(2 <= starts[k] && after <= data.len());
        assert(continued(data, starts, k));
        if k == f {
            let (width, height) = choose|width: int, height: int|
                frame(data, starts[f], width, height);
            lemma_framed(data, at, width, height);
            lemma_segments(data, starts, f, s, end, k + 1, seen);
        } else if ordinary(data, at) {
            lemma_ordinary(data, at, k > f, seen);
            lemma_segments(data, starts, f, s, end, k + 1, seen);
        } else {
            assert(scan(data, at) && k > f);
            lemma_scanned(data, at, seen);
            lemma_segments(data, starts, f, s, end, k + 1, true);
            let next = starts[k + 1];
            if k + 1 < starts.len() - 1 {
                assert(ordinary(data, starts[k + 1]) || scan(data, starts[k + 1]));
                assert(starts[k + 1] + 2 + segment(data, starts[k + 1]) <= data.len());
            }
            lemma_coded(data, after, next);
        }
    }
}

/// A well-formed JPEG image is accepted, however many segments and scans it has, and
/// its length is that up to the end-of-image marker.
pub proof fn law_well_formed_images_are_framed(
    data: Seq<u8>,
    starts: Seq<int>,
    f: int,
    s: int,
    end: int,
)
    requires
        image(data, starts, f, s, end),
    ensures
        jpeg::framed(data) == Ok::<int, Fault>(end),
{
    lemma_segments(data, starts, f, s, end, 0, false);
}

} // verus!
