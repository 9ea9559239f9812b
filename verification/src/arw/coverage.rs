//! Discovery is complete: what the directories of a file declare is found, told by
//! the bytes of the file.
use crate::arw::container;
use crate::arw::error::Fault;
use crate::arw::parser;
use crate::arw::parser::{Ifd, Scan, Tags, Walk};
use crate::arw::source::ByteSource;
use crate::arw::tiff;
use vstd::prelude::*;

verus! {

/// Whether the entry holds one number itself, and which.
pub open spec fn holds(file: Seq<u8>, d: int, k: int, little: bool, n: int) -> bool {
    let kind = container::kind(file, d, k, little);
    let at = container::entry(d, k) + 8;
    &&& container::amount(file, d, k, little) == 1
    &&& kind == 1 && file[at] == n || kind == 3 && container::short(file, at, little) == n || (kind
        == 4 || kind == 13) && container::long(file, at, little) == n
}

/// Whether the entry refers to further directories.
pub open spec fn pointing(file: Seq<u8>, ifd: Ifd, k: int, little: bool) -> bool {
    let tag = container::tag(file, ifd.offset as int, k, little);
    let kind = container::kind(file, ifd.offset as int, k, little);
    &&& !ifd.sony
    &&& tag == 0x014a || tag == 0x8769 || tag == 0xa005
    &&& kind == 4 || kind == 13
    &&& 1 <= container::amount(file, ifd.offset as int, k, little) <= 128
}

/// Whether the entry refers to a maker note, which lies in the file.
pub open spec fn noting(file: Seq<u8>, ifd: Ifd, k: int, little: bool) -> bool {
    let kind = container::kind(file, ifd.offset as int, k, little);
    let amount = container::amount(file, ifd.offset as int, k, little);
    &&& !ifd.sony
    &&& container::tag(file, ifd.offset as int, k, little) == 0x927c
    &&& kind == 1 || kind == 7
    &&& amount > 4
    &&& container::value(file, ifd.offset as int, k, little) + amount <= file.len()
}

/// Whether a maker note begins with the words SONY DSC or SONY CAM, a blank and
/// three zero bytes.
pub open spec fn signed(file: Seq<u8>, at: int, amount: int) -> bool {
    let byte = |i: int|
        if i < amount {
            file[at + i] as int
        } else {
            0
        };
    &&& byte(0) == 'S' as int && byte(1) == 'O' as int && byte(2) == 'N' as int && byte(3)
        == 'Y' as int && byte(4) == ' ' as int
    &&& byte(5) == 'D' as int && byte(6) == 'S' as int && byte(7) == 'C' as int || byte(5)
        == 'C' as int && byte(6) == 'A' as int && byte(7) == 'M' as int
    &&& byte(8) == ' ' as int && byte(9) == 0 && byte(10) == 0 && byte(11) == 0
}

/// Where the link to the next directory is.
pub open spec fn tail(file: Seq<u8>, ifd: Ifd, little: bool) -> int {
    ifd.offset + 2 + 12 * container::entries(file, ifd.offset as int, little)
}

/// Whether the directory has a link in the place `i` of the entry `k`, or behind its
/// last entry.
pub open spec fn linked(file: Seq<u8>, ifd: Ifd, k: int, i: int, little: bool) -> bool {
    let amount = container::amount(file, ifd.offset as int, k, little);
    if k == container::entries(file, ifd.offset as int, little) {
        i == 0 && !ifd.sony && container::long(file, tail(file, ifd, little), little) != 0
    } else {
        0 <= k < container::entries(file, ifd.offset as int, little) && if noting(
            file,
            ifd,
            k,
            little,
        ) {
            i == 0
        } else {
            pointing(file, ifd, k, little) && 0 <= i < amount && (amount == 1 || container::value(
                file,
                ifd.offset as int,
                k,
                little,
            ) + 4 * amount <= file.len())
        }
    }
}

/// The directory that the link leads to.
pub open spec fn target(file: Seq<u8>, ifd: Ifd, k: int, i: int, little: bool) -> Ifd {
    let amount = container::amount(file, ifd.offset as int, k, little);
    let value = container::value(file, ifd.offset as int, k, little);
    let end = file.len() as u64;
    if k == container::entries(file, ifd.offset as int, little) {
        Ifd {
            offset: container::long(file, tail(file, ifd, little), little) as u64,
            sony: false,
            end,
        }
    } else if noting(file, ifd, k, little) {
        Ifd {
            offset: (if signed(file, value, amount) {
                value + 12
            } else {
                value
            }) as u64,
            sony: true,
            end: (value + amount) as u64,
        }
    } else if amount == 1 {
        Ifd { offset: value as u64, sony: false, end }
    } else {
        Ifd { offset: container::long(file, value + 4 * i, little) as u64, sony: false, end }
    }
}

/// Bytes that are read for an entry.
pub open spec fn entry_cost(file: Seq<u8>, ifd: Ifd, k: int, little: bool) -> int {
    let amount = container::amount(file, ifd.offset as int, k, little);
    if pointing(file, ifd, k, little) {
        if amount > 1 {
            4 * amount
        } else {
            0
        }
    } else if noting(file, ifd, k, little) {
        if amount < 12 {
            amount
        } else {
            12
        }
    } else {
        0
    }
}

/// How many links an entry has at most.
pub open spec fn entry_links(file: Seq<u8>, ifd: Ifd, k: int, little: bool) -> int {
    if pointing(file, ifd, k, little) {
        container::amount(file, ifd.offset as int, k, little)
    } else if noting(file, ifd, k, little) {
        1
    } else {
        0
    }
}

/// How many images an entry declares at most.
pub open spec fn entry_claims(file: Seq<u8>, ifd: Ifd, k: int, little: bool) -> int {
    if ifd.sony && container::tag(file, ifd.offset as int, k, little) == 0x2001 {
        1
    } else {
        0
    }
}

pub open spec fn costs(file: Seq<u8>, ifd: Ifd, n: int, little: bool) -> int
    decreases n,
{
    if n <= 0 {
        0
    } else {
        costs(file, ifd, n - 1, little) + entry_cost(file, ifd, n - 1, little)
    }
}

pub open spec fn links(file: Seq<u8>, ifd: Ifd, n: int, little: bool) -> int
    decreases n,
{
    if n <= 0 {
        0
    } else {
        links(file, ifd, n - 1, little) + entry_links(file, ifd, n - 1, little)
    }
}

pub open spec fn claims(file: Seq<u8>, ifd: Ifd, n: int, little: bool) -> int
    decreases n,
{
    if n <= 0 {
        0
    } else {
        claims(file, ifd, n - 1, little) + entry_claims(file, ifd, n - 1, little)
    }
}

/// Whether a directory lies in its part of the file, and is not too long.
pub open spec fn sound(file: Seq<u8>, ifd: Ifd, little: bool) -> bool {
    &&& ifd.offset > 0
    &&& ifd.end <= file.len()
    &&& ifd.offset + 2 <= ifd.end
    &&& container::entries(file, ifd.offset as int, little) <= 4096
    &&& tail(file, ifd, little) <= ifd.end
    &&& !ifd.sony ==> tail(file, ifd, little) + 4 <= ifd.end && ifd.end == file.len()
}

/// Bytes that are read for a directory.
pub open spec fn directory_cost(file: Seq<u8>, ifd: Ifd, little: bool) -> int {
    let n = container::entries(file, ifd.offset as int, little);
    2 + 12 * n + (if tail(file, ifd, little) + 4 <= ifd.end {
        4int
    } else {
        0
    }) + costs(file, ifd, n, little)
}

/// How many links a directory has at most.
pub open spec fn directory_links(file: Seq<u8>, ifd: Ifd, little: bool) -> int {
    1 + links(file, ifd, container::entries(file, ifd.offset as int, little), little)
}

/// How many images a directory declares at most.
pub open spec fn directory_claims(file: Seq<u8>, ifd: Ifd, little: bool) -> int {
    2 + claims(file, ifd, container::entries(file, ifd.offset as int, little), little)
}

/// Whether the entry `k` is the last with its tag, and has this tag.
pub open spec fn gives(file: Seq<u8>, d: int, k: int, little: bool, tag: int) -> bool {
    &&& 0 <= k < container::entries(file, d, little)
    &&& container::tag(file, d, k, little) == tag
    &&& container::last_of_its_tag(file, d, k, little)
}

/// Whether the directory gives an offset and a length for an embedded JPEG file.
pub open spec fn embeds(
    file: Seq<u8>,
    d: int,
    i: int,
    j: int,
    offset: int,
    length: int,
    little: bool,
) -> bool {
    &&& gives(file, d, i, little, 0x0201)
    &&& gives(file, d, j, little, 0x0202)
    &&& holds(file, d, i, little, offset)
    &&& holds(file, d, j, little, length)
}

/// Whether the directory gives an offset and a length for a strip that is a JPEG
/// image: of a compression and colours that fit, and eight bits deep as far as it
/// says.
pub open spec fn strips(
    file: Seq<u8>,
    d: int,
    i: int,
    j: int,
    compression: int,
    colours: int,
    offset: int,
    length: int,
    little: bool,
) -> bool {
    &&& gives(file, d, i, little, 0x0111)
    &&& gives(file, d, j, little, 0x0117)
    &&& holds(file, d, i, little, offset)
    &&& holds(file, d, j, little, length)
    &&& gives(file, d, compression, little, 0x0103)
    &&& holds(file, d, compression, little, 6) || holds(file, d, compression, little, 7)
    &&& gives(file, d, colours, little, 0x0106)
    &&& holds(file, d, colours, little, 1) || holds(file, d, colours, little, 2) || holds(
        file,
        d,
        colours,
        little,
        6,
    )
    &&& forall|k: int| #[trigger]
        gives(file, d, k, little, 0x0102) ==> holds(file, d, k, little, 8)
    &&& forall|k: int| #[trigger]
        gives(file, d, k, little, 0x0115) ==> holds(file, d, k, little, 1) || holds(
            file,
            d,
            k,
            little,
            3,
        ) || holds(file, d, k, little, 4)
}

/// Whether an entry of a maker note refers to an image behind thirty-two bytes.
pub open spec fn prefixes(
    file: Seq<u8>,
    ifd: Ifd,
    k: int,
    offset: int,
    length: int,
    little: bool,
) -> bool {
    let kind = container::kind(file, ifd.offset as int, k, little);
    &&& ifd.sony
    &&& 0 <= k < container::entries(file, ifd.offset as int, little)
    &&& container::tag(file, ifd.offset as int, k, little) == 0x2001
    &&& kind == 1 || kind == 7
    &&& container::value(file, ifd.offset as int, k, little) + 32 == offset
    &&& container::amount(file, ifd.offset as int, k, little) == length + 32
}

/// Whether a directory declares an image of this place and length, which lies in the
/// file: four bytes at least, and 128 megabytes at most.
pub open spec fn declares(file: Seq<u8>, ifd: Ifd, offset: int, length: int, little: bool) -> bool {
    &&& 4 <= length <= 134217728
    &&& 0 <= offset
    &&& offset + length <= file.len()
    &&& {
        ||| exists|i: int, j: int| #[trigger]
            embeds(file, ifd.offset as int, i, j, offset, length, little)
        ||| exists|i: int, j: int, m: int, c: int| #[trigger]
            strips(file, ifd.offset as int, i, j, m, c, offset, length, little)
        ||| exists|k: int| #[trigger] prefixes(file, ifd, k, offset, length, little)
    }
}

/// What an entry says, as it is read in a directory.
pub proof fn lemma_field(file: Seq<u8>, d: int, end: int, k: int, little: bool)
    requires
        0 <= d,
        0 <= k < container::entries(file, d, little),
        d + 2 + 12 * container::entries(file, d, little) <= end <= file.len(),
    ensures
        ({
            let field = tiff::field_at(file.subrange(d + 2, end), 12 * k, container::order(little));
            let one = field.single(container::order(little));
            &&& field.tag as int == container::tag(file, d, k, little)
            &&& field.kind as int == container::kind(file, d, k, little)
            &&& field.count as int == container::amount(file, d, k, little)
            &&& field.pointer(container::order(little)) as int == container::value(
                file,
                d,
                k,
                little,
            )
            &&& forall|n: int| #[trigger]
                holds(file, d, k, little, n) ==> one == Some(n as u64) && one->0 as int == n
            &&& one is Some ==> holds(file, d, k, little, one->0 as int)
            &&& (field.kind == 1 || field.kind == 7) ==> field.size() == Some(field.count as u64)
        }),
{
    let data = file.subrange(d + 2, end);
    let at = container::entry(d, k);
    let field = tiff::field_at(data, 12 * k, container::order(little));
    container::lemma_numbers(file, d + 2, end, 12 * k, little);
    container::lemma_numbers(file, d + 2, end, 12 * k + 2, little);
    container::lemma_numbers(file, d + 2, end, 12 * k + 4, little);
    assert(field.value =~= file.subrange(at + 8, at + 12));
    container::lemma_numbers(file, at + 8, at + 12, 0, little);
}

/// One sequence begins with another.
pub open spec fn extends<A>(a: Seq<A>, b: Seq<A>) -> bool {
    &&& a.len() <= b.len()
    &&& forall|i: int| 0 <= i < a.len() ==> #[trigger] b[i] == a[i]
}

proof fn lemma_extends<A>(a: Seq<A>, b: Seq<A>)
    requires
        extends(a, b),
    ensures
        forall|x: A| a.contains(x) ==> #[trigger] b.contains(x),
{
    assert forall|x: A| a.contains(x) implies #[trigger] b.contains(x) by {
        let i = choose|i: int| 0 <= i < a.len() && a[i] == x;
        assert(b[i] == x);
    }
}

/// As long as there is room, all directories are queued.
proof fn lemma_enqueued(queue: Seq<Ifd>, offsets: Seq<u64>, n: int, end: u64)
    requires
        0 <= n <= offsets.len(),
        queue.len() + n <= 128,
    ensures
        ({
            let out = parser::enqueue_all(queue, offsets, n, end);
            &&& out.len() == queue.len() + n
            &&& extends(queue, out)
            &&& forall|i: int|
                0 <= i < n ==> #[trigger] out[queue.len() + i] == (Ifd {
                    offset: offsets[i],
                    sony: false,
                    end,
                })
        }),
    decreases n,
{
    if n > 0 {
        lemma_enqueued(queue, offsets, n - 1, end);
    }
}

/// Whether all directories in a queue are among some, or nowhere.
pub open spec fn within(queue: Seq<Ifd>, dirs: Seq<Ifd>) -> bool {
    forall|i: int| 0 <= i < queue.len() ==> (#[trigger] queue[i]).offset == 0 || dirs.contains(queue[i])
}

/// Whether all links of a directory lead to some others, or nowhere.
pub open spec fn leads_to(file: Seq<u8>, ifd: Ifd, dirs: Seq<Ifd>, little: bool) -> bool {
    forall|k: int, i: int| #[trigger]
        linked(file, ifd, k, i, little) ==> target(file, ifd, k, i, little).offset == 0
            || dirs.contains(target(file, ifd, k, i, little))
}

/// What an entry does to the queue.
pub open spec fn queues(
    file: Seq<u8>,
    ifd: Ifd,
    k: int,
    dirs: Seq<Ifd>,
    w: Walk,
    v: Walk,
    little: bool,
) -> bool {
    &&& v.scan.used == w.scan.used + entry_cost(file, ifd, k, little)
    &&& extends(w.queue, v.queue)
    &&& v.queue.len() <= w.queue.len() + entry_links(file, ifd, k, little)
    &&& within(v.queue, dirs)
    &&& forall|i: int| #[trigger]
        linked(file, ifd, k, i, little) ==> v.queue.contains(target(file, ifd, k, i, little))
}

proof fn lemma_pointers<R: ByteSource>(
    source: R,
    file: Seq<u8>,
    ifd: Ifd,
    end: int,
    k: int,
    dirs: Seq<Ifd>,
    w: Walk,
    little: bool,
)
    requires
        container::serves(source, file),
        file.len() <= u64::MAX,
        0 <= k < container::entries(file, ifd.offset as int, little),
        tail(file, ifd, little) <= end <= file.len(),
        leads_to(file, ifd, dirs, little),
        within(w.queue, dirs),
        !ifd.sony,
        ({
            let tag = container::tag(file, ifd.offset as int, k, little);
            tag == 0x014a || tag == 0x8769 || tag == 0xa005
        }),
        w.scan.used + entry_cost(file, ifd, k, little) <= 4194304,
        w.queue.len() + entry_links(file, ifd, k, little) <= 128,
    ensures
        ({
            let endian = container::order(little);
            let field = tiff::field_at(file.subrange(ifd.offset + 2, end), 12 * k, endian);
            let v = parser::visit(w, source, file.len() as u64, ifd, field, endian);
            &&& queues(file, ifd, k, dirs, w, v, little)
            &&& v.tags == w.tags
            &&& v.candidates == w.candidates
        }),
{
    let endian = container::order(little);
    let d = ifd.offset as int;
    let size = file.len() as u64;
    let field = tiff::field_at(file.subrange(d + 2, end), 12 * k, endian);
    lemma_field(file, d, end, k, little);
    let amount = container::amount(file, d, k, little);
    let value = container::value(file, d, k, little);
    let v = parser::visit(w, source, size, ifd, field, endian);
    if pointing(file, ifd, k, little) {
        let (scan, found) = parser::pointers_of(w.scan, source, size, field, endian);
        if amount == 1 {
            assert(holds(file, d, k, little, value));
            let offsets = seq![value as u64];
            assert(found == Ok::<Seq<u64>, Fault>(offsets));
            lemma_enqueued(w.queue, offsets, 1, size);
            assert(linked(file, ifd, k, 0, little));
            assert(v.queue[w.queue.len() + 0int] == target(file, ifd, k, 0, little));
            assert(v.queue[w.queue.len() as int] == target(file, ifd, k, 0, little));
            assert forall|i: int| #[trigger] linked(file, ifd, k, i, little) implies v.queue.contains(
                target(file, ifd, k, i, little),
            ) by {
                assert(i == 0);
            }
        } else if value + 4 * amount <= file.len() {
            let bytes = file.subrange(value, value + 4 * amount);
            assert(source.outcome(value as u64, (4 * amount) as nat) == Ok::<Seq<u8>, Fault>(bytes));
            assert(field.single(endian) is None);
            let offsets = parser::words(bytes, endian);
            assert(found == Ok::<Seq<u64>, Fault>(offsets));
            assert(offsets.len() == amount);
            lemma_enqueued(w.queue, offsets, amount, size);
            assert forall|i: int| 0 <= i < amount implies #[trigger] v.queue[w.queue.len() + i]
                == target(file, ifd, k, i, little) && linked(file, ifd, k, i, little) by {
                container::lemma_numbers(file, value, value + 4 * amount, 4 * i, little);
            }
            assert forall|i: int| #[trigger] linked(file, ifd, k, i, little) implies v.queue.contains(
                target(file, ifd, k, i, little),
            ) by {
                assert(v.queue[w.queue.len() + i] == target(file, ifd, k, i, little));
            }
            assert forall|j: int| 0 <= j < v.queue.len() implies (#[trigger] v.queue[j]).offset == 0
                || dirs.contains(v.queue[j]) by {
                if j >= w.queue.len() {
                    let i = j - w.queue.len();
                    assert(v.queue[w.queue.len() + i] == target(file, ifd, k, i, little));
                    assert(linked(file, ifd, k, i, little));
                } else {
                    assert(v.queue[j] == w.queue[j]);
                }
            }
        } else {
            assert(v.queue == w.queue);
        }
    } else {
        assert(v.queue == w.queue);
    }
}

/// The words before a maker note are those that are looked for.
proof fn lemma_signed(file: Seq<u8>, at: int, amount: int)
    requires
        0 <= at,
        amount > 4,
        at + amount <= file.len(),
    ensures
        ({
            let n = if amount < 12 {
                amount
            } else {
                12
            };
            parser::sony_signature(file.subrange(at, at + n)) == signed(file, at, amount)
        }),
{
    let n = if amount < 12 {
        amount
    } else {
        12
    };
    let bytes = file.subrange(at, at + n);
    let padded = bytes + Seq::new((12 - bytes.len()) as nat, |i: int| 0u8);
    let dsc = seq![0x53u8, 0x4f, 0x4e, 0x59, 0x20, 0x44, 0x53, 0x43, 0x20, 0, 0, 0];
    let cam = seq![0x53u8, 0x4f, 0x4e, 0x59, 0x20, 0x43, 0x41, 0x4d, 0x20, 0, 0, 0];
    assert forall|i: int| 0 <= i < 12 implies #[trigger] padded[i] == (if i < amount {
        file[at + i] as int
    } else {
        0
    }) by {}
    assert(padded.len() == 12);
    let all = padded[0] == padded[0] && padded[1] == padded[1] && padded[2] == padded[2]
        && padded[3] == padded[3] && padded[4] == padded[4] && padded[5] == padded[5] && padded[6]
        == padded[6] && padded[7] == padded[7] && padded[8] == padded[8] && padded[9] == padded[9]
        && padded[10] == padded[10] && padded[11] == padded[11];
    assert(all);
    if signed(file, at, amount) {
        if padded[5] == 0x44 {
            assert(padded =~= dsc);
        } else {
            assert(padded =~= cam);
        }
    }
    if padded == dsc {
        assert(dsc[0] == 0x53 && dsc[1] == 0x4f && dsc[2] == 0x4e && dsc[3] == 0x59 && dsc[4]
            == 0x20 && dsc[5] == 0x44 && dsc[6] == 0x53 && dsc[7] == 0x43 && dsc[8] == 0x20
            && dsc[9] == 0 && dsc[10] == 0 && dsc[11] == 0);
        assert(signed(file, at, amount));
    }
    if padded == cam {
        assert(cam[0] == 0x53 && cam[1] == 0x4f && cam[2] == 0x4e && cam[3] == 0x59 && cam[4]
            == 0x20 && cam[5] == 0x43 && cam[6] == 0x41 && cam[7] == 0x4d && cam[8] == 0x20
            && cam[9] == 0 && cam[10] == 0 && cam[11] == 0);
        assert(signed(file, at, amount));
    }
}

proof fn lemma_maker_note<R: ByteSource>(
    source: R,
    file: Seq<u8>,
    ifd: Ifd,
    end: int,
    k: int,
    dirs: Seq<Ifd>,
    w: Walk,
    little: bool,
)
    requires
        container::serves(source, file),
        file.len() <= u64::MAX,
        0 <= k < container::entries(file, ifd.offset as int, little),
        tail(file, ifd, little) <= end <= file.len(),
        leads_to(file, ifd, dirs, little),
        within(w.queue, dirs),
        !ifd.sony,
        container::tag(file, ifd.offset as int, k, little) == 0x927c,
        w.scan.used + entry_cost(file, ifd, k, little) <= 4194304,
        w.queue.len() + entry_links(file, ifd, k, little) <= 128,
    ensures
        ({
            let endian = container::order(little);
            let field = tiff::field_at(file.subrange(ifd.offset + 2, end), 12 * k, endian);
            let v = parser::visit(w, source, file.len() as u64, ifd, field, endian);
            &&& queues(file, ifd, k, dirs, w, v, little)
            &&& v.tags == w.tags
            &&& v.candidates == w.candidates
        }),
{
    let endian = container::order(little);
    let d = ifd.offset as int;
    let size = file.len() as u64;
    let field = tiff::field_at(file.subrange(d + 2, end), 12 * k, endian);
    lemma_field(file, d, end, k, little);
    let amount = container::amount(file, d, k, little);
    let value = container::value(file, d, k, little);
    let v = parser::visit(w, source, size, ifd, field, endian);
    if noting(file, ifd, k, little) {
        let n = if amount < 12 {
            amount
        } else {
            12
        };
        let bytes = file.subrange(value, value + n);
        assert(source.outcome(value as u64, n as nat) == Ok::<Seq<u8>, Fault>(bytes));
        lemma_signed(file, value, amount);
        assert(linked(file, ifd, k, 0, little));
        let t = target(file, ifd, k, 0, little);
        assert(v.queue == w.queue.push(t));
        assert(v.queue[w.queue.len() as int] == t);
        assert forall|i: int| #[trigger] linked(file, ifd, k, i, little) implies v.queue.contains(
            target(file, ifd, k, i, little),
        ) by {
            assert(i == 0);
        }
    } else {
        assert(v.queue == w.queue);
    }
}

/// What is known of the tags of a directory once an entry was read.
pub open spec fn noted(file: Seq<u8>, d: int, k: int, tags: Tags, little: bool) -> bool {
    let tag = container::tag(file, d, k, little);
    forall|n: int| #[trigger]
        holds(file, d, k, little, n) ==> {
            let one = Some(n as u64);
            &&& 0 <= n <= u64::MAX
            &&& tag == 0x0201 ==> tags.offset == one
            &&& tag == 0x0202 ==> tags.length == one
            &&& tag == 0x0111 ==> tags.strip_offset == one
            &&& tag == 0x0117 ==> tags.strip_length == one
            &&& tag == 0x0103 ==> tags.compression == one
            &&& tag == 0x0106 ==> tags.photometric == one
            &&& tag == 0x0102 ==> tags.bits == one
            &&& tag == 0x0115 ==> tags.samples == one
        }
}

/// What an entry leaves of the tags.
pub open spec fn unchanged(tag: int, a: Tags, b: Tags) -> bool {
    &&& tag != 0x0201 ==> b.offset == a.offset
    &&& tag != 0x0202 ==> b.length == a.length
    &&& tag != 0x0111 ==> b.strip_offset == a.strip_offset
    &&& tag != 0x0117 ==> b.strip_length == a.strip_length
    &&& tag != 0x0103 ==> b.compression == a.compression
    &&& tag != 0x0106 ==> b.photometric == a.photometric
    &&& tag != 0x0102 ==> b.bits == a.bits
    &&& tag != 0x0115 ==> b.samples == a.samples
}

/// What an entry does to the candidates.
pub open spec fn collects(file: Seq<u8>, ifd: Ifd, k: int, w: Walk, v: Walk, little: bool) -> bool {
    &&& extends(w.candidates, v.candidates)
    &&& v.candidates.len() <= w.candidates.len() + entry_claims(file, ifd, k, little)
    &&& forall|offset: int, length: int| #[trigger]
        prefixes(file, ifd, k, offset, length, little) && 4 <= length <= 134217728 && offset
            + length <= file.len() ==> v.candidates.contains((offset as u64, length as u64))
}

proof fn lemma_entry<R: ByteSource>(
    source: R,
    file: Seq<u8>,
    ifd: Ifd,
    end: int,
    k: int,
    dirs: Seq<Ifd>,
    w: Walk,
    little: bool,
)
    requires
        container::serves(source, file),
        file.len() <= u64::MAX,
        0 <= k < container::entries(file, ifd.offset as int, little),
        tail(file, ifd, little) <= end <= file.len(),
        leads_to(file, ifd, dirs, little),
        within(w.queue, dirs),
        w.scan.used + entry_cost(file, ifd, k, little) <= 4194304,
        w.queue.len() + entry_links(file, ifd, k, little) <= 128,
        w.candidates.len() + entry_claims(file, ifd, k, little) <= 128,
    ensures
        ({
            let endian = container::order(little);
            let field = tiff::field_at(file.subrange(ifd.offset + 2, end), 12 * k, endian);
            let v = parser::visit(w, source, file.len() as u64, ifd, field, endian);
            &&& queues(file, ifd, k, dirs, w, v, little)
            &&& collects(file, ifd, k, w, v, little)
            &&& noted(file, ifd.offset as int, k, v.tags, little)
            &&& unchanged(container::tag(file, ifd.offset as int, k, little), w.tags, v.tags)
        }),
{
    let endian = container::order(little);
    let d = ifd.offset as int;
    let field = tiff::field_at(file.subrange(d + 2, end), 12 * k, endian);
    lemma_field(file, d, end, k, little);
    let tag = container::tag(file, d, k, little);
    if !ifd.sony && (tag == 0x014a || tag == 0x8769 || tag == 0xa005) {
        lemma_pointers(source, file, ifd, end, k, dirs, w, little);
    } else if !ifd.sony && tag == 0x927c {
        lemma_maker_note(source, file, ifd, end, k, dirs, w, little);
    } else {
        let v = parser::visit(w, source, file.len() as u64, ifd, field, endian);
        assert(v.queue == w.queue);
        assert(!pointing(file, ifd, k, little) && !noting(file, ifd, k, little));
        assert forall|offset: int, length: int| #[trigger]
            prefixes(file, ifd, k, offset, length, little) && 4 <= length <= 134217728 && offset
                + length <= file.len() implies v.candidates.contains(
            (offset as u64, length as u64),
        ) by {
            assert(v.candidates[w.candidates.len() as int] == (offset as u64, length as u64));
        }
    }
}

/// Whether no entry behind `j` and before `n` has the tag of the entry `j`.
pub open spec fn latest(file: Seq<u8>, d: int, j: int, n: int, little: bool) -> bool {
    forall|i: int|
        j < i < n ==> #[trigger] container::tag(file, d, i, little) != container::tag(
            file,
            d,
            j,
            little,
        )
}

proof fn lemma_entries<R: ByteSource>(
    source: R,
    file: Seq<u8>,
    ifd: Ifd,
    end: int,
    n: int,
    dirs: Seq<Ifd>,
    w: Walk,
    little: bool,
)
    requires
        container::serves(source, file),
        file.len() <= u64::MAX,
        0 <= n <= container::entries(file, ifd.offset as int, little),
        tail(file, ifd, little) <= end <= file.len(),
        leads_to(file, ifd, dirs, little),
        within(w.queue, dirs),
        w.scan.used + costs(file, ifd, n, little) <= 4194304,
        w.queue.len() + links(file, ifd, n, little) <= 128,
        w.candidates.len() + claims(file, ifd, n, little) <= 128,
    ensures
        ({
            let d = ifd.offset as int;
            let v = parser::visit_all(
                w,
                source,
                file.len() as u64,
                ifd,
                file.subrange(d + 2, end),
                n,
                container::order(little),
            );
            &&& v.scan.used == w.scan.used + costs(file, ifd, n, little)
            &&& extends(w.queue, v.queue)
            &&& v.queue.len() <= w.queue.len() + links(file, ifd, n, little)
            &&& within(v.queue, dirs)
            &&& forall|k: int, i: int|
                0 <= k < n && #[trigger] linked(file, ifd, k, i, little) ==> v.queue.contains(
                    target(file, ifd, k, i, little),
                )
            &&& extends(w.candidates, v.candidates)
            &&& v.candidates.len() <= w.candidates.len() + claims(file, ifd, n, little)
            &&& forall|k: int, offset: int, length: int|
                0 <= k < n && #[trigger] prefixes(file, ifd, k, offset, length, little) && 4
                    <= length <= 134217728 && offset + length <= file.len()
                    ==> v.candidates.contains((offset as u64, length as u64))
            &&& forall|j: int|
                0 <= j < n && #[trigger] latest(file, d, j, n, little) ==> noted(
                    file,
                    d,
                    j,
                    v.tags,
                    little,
                )
            &&& (forall|j: int| 0 <= j < n ==> #[trigger] container::tag(file, d, j, little) != 0x0102)
                ==> v.tags.bits == w.tags.bits
            &&& (forall|j: int| 0 <= j < n ==> #[trigger] container::tag(file, d, j, little) != 0x0115)
                ==> v.tags.samples == w.tags.samples
        }),
    decreases n,
{
    if n > 0 {
        let d = ifd.offset as int;
        let k = n - 1;
        let endian = container::order(little);
        let data = file.subrange(d + 2, end);
        lemma_entries(source, file, ifd, end, k, dirs, w, little);
        let u = parser::visit_all(w, source, file.len() as u64, ifd, data, k, endian);
        lemma_entry(source, file, ifd, end, k, dirs, u, little);
        let v = parser::visit_all(w, source, file.len() as u64, ifd, data, n, endian);
        assert(v == parser::visit(
            u,
            source,
            file.len() as u64,
            ifd,
            tiff::field_at(data, 12 * k, endian),
            endian,
        ));
        lemma_extends(u.queue, v.queue);
        lemma_extends(u.candidates, v.candidates);
        assert forall|j: int| 0 <= j < n && #[trigger] latest(file, d, j, n, little) implies noted(
            file,
            d,
            j,
            v.tags,
            little,
        ) by {
            if j < k {
                assert(latest(file, d, j, k, little));
                assert(container::tag(file, d, k, little) != container::tag(file, d, j, little));
                lemma_still_noted(file, d, j, k, u.tags, v.tags, little);
            }
        }
    }
}

proof fn lemma_still_noted(
    file: Seq<u8>,
    d: int,
    j: int,
    k: int,
    a: Tags,
    b: Tags,
    little: bool,
)
    requires
        noted(file, d, j, a, little),
        unchanged(container::tag(file, d, k, little), a, b),
        container::tag(file, d, k, little) != container::tag(file, d, j, little),
    ensures
        noted(file, d, j, b, little),
{
}

/// If some of the first `n` entries has a tag, one of them is the last that has it.
proof fn lemma_latest(file: Seq<u8>, d: int, j: int, n: int, little: bool) -> (k: int)
    requires
        0 <= j < n,
    ensures
        j <= k < n,
        container::tag(file, d, k, little) == container::tag(file, d, j, little),
        latest(file, d, k, n, little),
    decreases n - j,
{
    if latest(file, d, j, n, little) {
        j
    } else {
        let i = choose|i: int|
            j < i < n && #[trigger] container::tag(file, d, i, little) == container::tag(
                file,
                d,
                j,
                little,
            );
        lemma_latest(file, d, i, n, little)
    }
}

/// What the finished tags of a directory add to the candidates.
proof fn lemma_declared(file: Seq<u8>, ifd: Ifd, w: Walk, little: bool)
    requires
        file.len() <= u64::MAX,
        w.candidates.len() + 2 <= 128,
        forall|j: int|
            0 <= j < container::entries(file, ifd.offset as int, little) && #[trigger] latest(
                file,
                ifd.offset as int,
                j,
                container::entries(file, ifd.offset as int, little),
                little,
            ) ==> noted(file, ifd.offset as int, j, w.tags, little),
        (forall|j: int|
            0 <= j < container::entries(file, ifd.offset as int, little)
                ==> #[trigger] container::tag(file, ifd.offset as int, j, little) != 0x0102)
            ==> w.tags.bits is None,
        (forall|j: int|
            0 <= j < container::entries(file, ifd.offset as int, little)
                ==> #[trigger] container::tag(file, ifd.offset as int, j, little) != 0x0115)
            ==> w.tags.samples is None,
    ensures
        ({
            let d = ifd.offset as int;
            let v = parser::declared(w, file.len() as u64);
            &&& v.scan.used == w.scan.used
            &&& v.queue == w.queue
            &&& extends(w.candidates, v.candidates)
            &&& v.candidates.len() <= w.candidates.len() + 2
            &&& forall|i: int, j: int, offset: int, length: int| #[trigger]
                embeds(file, d, i, j, offset, length, little) && 4 <= length <= 134217728 && 0
                    <= offset && offset + length <= file.len() ==> v.candidates.contains(
                    (offset as u64, length as u64),
                )
            &&& forall|i: int, j: int, m: int, c: int, offset: int, length: int| #[trigger]
                strips(file, d, i, j, m, c, offset, length, little) && 4 <= length <= 134217728 && 0
                    <= offset && offset + length <= file.len() ==> v.candidates.contains(
                    (offset as u64, length as u64),
                )
        }),
{
    let d = ifd.offset as int;
    let n = container::entries(file, d, little);
    let size = file.len() as u64;
    let v = parser::declared(w, size);
    let tags = w.tags;
    assert forall|k: int, tag: int| #[trigger] gives(file, d, k, little, tag) implies noted(
        file,
        d,
        k,
        tags,
        little,
    ) by {
        assert(latest(file, d, k, n, little));
    }
    assert forall|i: int, j: int, offset: int, length: int| #[trigger]
        embeds(file, d, i, j, offset, length, little) && 4 <= length <= 134217728 && 0 <= offset
            && offset + length <= file.len() implies v.candidates.contains(
        (offset as u64, length as u64),
    ) by {
        assert(gives(file, d, i, little, 0x0201) && gives(file, d, j, little, 0x0202));
        assert(tags.offset == Some(offset as u64));
        assert(tags.length == Some(length as u64));
        let first = parser::candidate(w, size, offset as u64, length as u64);
        assert(first.candidates == w.candidates.push((offset as u64, length as u64)));
        assert(v.candidates[w.candidates.len() as int] == (offset as u64, length as u64));
    }
    assert forall|i: int, j: int, m: int, c: int, offset: int, length: int| #[trigger]
        strips(file, d, i, j, m, c, offset, length, little) && 4 <= length <= 134217728 && 0
            <= offset && offset + length <= file.len() implies v.candidates.contains(
        (offset as u64, length as u64),
    ) by {
        assert(gives(file, d, i, little, 0x0111) && gives(file, d, j, little, 0x0117));
        assert(gives(file, d, m, little, 0x0103) && gives(file, d, c, little, 0x0106));
        assert(tags.strip_offset == Some(offset as u64));
        assert(tags.strip_length == Some(length as u64));
        assert(tags.compression == Some(6u64) || tags.compression == Some(7u64));
        assert(tags.photometric == Some(1u64) || tags.photometric == Some(2u64) || tags.photometric
            == Some(6u64));
        if exists|x: int| 0 <= x < n && #[trigger] container::tag(file, d, x, little) == 0x0102 {
            let x = choose|x: int|
                0 <= x < n && #[trigger] container::tag(file, d, x, little) == 0x0102;
            let k = lemma_latest(file, d, x, n, little);
            assert(gives(file, d, k, little, 0x0102));
            assert(holds(file, d, k, little, 8));
        }
        assert(tags.bits is None || tags.bits == Some(8u64));
        if exists|x: int| 0 <= x < n && #[trigger] container::tag(file, d, x, little) == 0x0115 {
            let x = choose|x: int|
                0 <= x < n && #[trigger] container::tag(file, d, x, little) == 0x0115;
            let k = lemma_latest(file, d, x, n, little);
            assert(gives(file, d, k, little, 0x0115));
            assert(holds(file, d, k, little, 1) || holds(file, d, k, little, 3) || holds(
                file,
                d,
                k,
                little,
                4,
            ));
        }
        assert(tags.samples is None || tags.samples == Some(1u64) || tags.samples == Some(3u64)
            || tags.samples == Some(4u64));
        assert(parser::jpeg_strip(tags));
        assert(v.candidates.last() == (offset as u64, length as u64));
        assert(v.candidates[v.candidates.len() - 1] == (offset as u64, length as u64));
    }
}

/// What the walk of a directory does.
pub open spec fn walks(
    file: Seq<u8>,
    ifd: Ifd,
    dirs: Seq<Ifd>,
    w: Walk,
    v: Walk,
    little: bool,
) -> bool {
    &&& v.scan.used == w.scan.used + directory_cost(file, ifd, little)
    &&& extends(w.queue, v.queue)
    &&& v.queue.len() <= w.queue.len() + directory_links(file, ifd, little)
    &&& within(v.queue, dirs)
    &&& forall|k: int, i: int| #[trigger]
        linked(file, ifd, k, i, little) ==> v.queue.contains(target(file, ifd, k, i, little))
    &&& extends(w.candidates, v.candidates)
    &&& v.candidates.len() <= w.candidates.len() + directory_claims(file, ifd, little)
    &&& forall|offset: int, length: int| #[trigger]
        declares(file, ifd, offset, length, little) ==> v.candidates.contains(
            (offset as u64, length as u64),
        )
}

#[verifier::rlimit(50)]
proof fn lemma_walked<R: ByteSource>(
    source: R,
    file: Seq<u8>,
    ifd: Ifd,
    dirs: Seq<Ifd>,
    w: Walk,
    little: bool,
)
    requires
        container::serves(source, file),
        file.len() <= u64::MAX,
        sound(file, ifd, little),
        leads_to(file, ifd, dirs, little),
        within(w.queue, dirs),
        w.scan.used + directory_cost(file, ifd, little) <= 4194304,
        w.queue.len() + directory_links(file, ifd, little) <= 128,
        w.candidates.len() + directory_claims(file, ifd, little) <= 128,
    ensures
        ({
            let (v, end) = parser::walked(
                w,
                source,
                file.len() as u64,
                ifd,
                container::order(little),
            );
            &&& end is Ok
            &&& walks(file, ifd, dirs, w, v, little)
        }),
{
    let d = ifd.offset as int;
    let size = file.len() as u64;
    let endian = container::order(little);
    let n = container::entries(file, d, little);
    lemma_sums(file, ifd, n, little);
    assert(source.outcome(ifd.offset, 2) == Ok::<Seq<u8>, Fault>(file.subrange(d, d + 2)));
    container::lemma_numbers(file, d, d + 2, 0, little);
    let (head, _) = w.scan.metadata(source, size, ifd.offset, 2);
    let linked_on = tail(file, ifd, little) + 4 <= ifd.end;
    let length = 12 * n + if linked_on {
        4int
    } else {
        0
    };
    let end = d + 2 + length;
    let data = file.subrange(d + 2, end);
    assert(source.outcome((d + 2) as u64, length as nat) == Ok::<Seq<u8>, Fault>(data));
    let (scan, _) = head.metadata(source, size, (d + 2) as u64, length as nat);
    let start = Walk { scan, tags: parser::no_tags(), ..w };
    lemma_entries(source, file, ifd, end, n, dirs, start, little);
    let seen = parser::visit_all(start, source, size, ifd, data, n, endian);
    lemma_declared(file, ifd, seen, little);
    let done = parser::declared(seen, size);
    lemma_extends(seen.candidates, done.candidates);
    let (v, out) = parser::walked(w, source, size, ifd, endian);
    if linked_on {
        container::lemma_numbers(file, d + 2, end, 12 * n, little);
    }
    let next = container::long(file, tail(file, ifd, little), little);
    if !ifd.sony && next != 0 {
        assert(linked(file, ifd, n, 0, little));
        assert(v.queue == done.queue.push(target(file, ifd, n, 0, little)));
        assert(v.queue[done.queue.len() as int] == target(file, ifd, n, 0, little));
    } else {
        assert(v == done);
    }
    assert(out is Ok);
    assert(extends(done.queue, v.queue));
    lemma_extends(done.queue, v.queue);
    assert forall|k: int, i: int| #[trigger] linked(file, ifd, k, i, little) implies v.queue.contains(
        target(file, ifd, k, i, little),
    ) by {
        if k != n {
            assert(seen.queue.contains(target(file, ifd, k, i, little)));
        } else {
            assert(i == 0);
        }
    }
    assert forall|offset: int, length: int| #[trigger]
        declares(file, ifd, offset, length, little) implies v.candidates.contains(
        (offset as u64, length as u64),
    ) by {
        assert(v.candidates == done.candidates);
        if exists|i: int, j: int| #[trigger] embeds(file, d, i, j, offset, length, little) {
        } else if exists|i: int, j: int, m: int, c: int| #[trigger]
            strips(file, d, i, j, m, c, offset, length, little) {
        } else {
            let k = choose|k: int| #[trigger] prefixes(file, ifd, k, offset, length, little);
            assert(seen.candidates.contains((offset as u64, length as u64)));
        }
    }
}

proof fn lemma_sums(file: Seq<u8>, ifd: Ifd, n: int, little: bool)
    ensures
        costs(file, ifd, n, little) >= 0,
        links(file, ifd, n, little) >= 0,
        claims(file, ifd, n, little) >= 0,
    decreases n,
{
    if n > 0 {
        lemma_sums(file, ifd, n - 1, little);
    }
}

/// The sum of what is counted of some directories.
pub open spec fn total(f: spec_fn(Ifd) -> int, dirs: Seq<Ifd>) -> int
    decreases dirs.len(),
{
    if dirs.len() == 0 {
        0
    } else {
        total(f, dirs.drop_last()) + f(dirs.last())
    }
}

proof fn lemma_total_remove(f: spec_fn(Ifd) -> int, dirs: Seq<Ifd>, i: int)
    requires
        0 <= i < dirs.len(),
    ensures
        total(f, dirs) == total(f, dirs.remove(i)) + f(dirs[i]),
    decreases dirs.len(),
{
    if i == dirs.len() - 1 {
        assert(dirs.remove(i) =~= dirs.drop_last());
    } else {
        lemma_total_remove(f, dirs.drop_last(), i);
        assert(dirs.remove(i).drop_last() =~= dirs.drop_last().remove(i));
        assert(dirs.remove(i).last() == dirs.last());
    }
}

/// Some of the directories count for no more than all.
proof fn lemma_total(f: spec_fn(Ifd) -> int, some: Seq<Ifd>, all: Seq<Ifd>)
    requires
        forall|ifd: Ifd| #[trigger] f(ifd) >= 0,
        some.no_duplicates(),
        forall|i: int| 0 <= i < some.len() ==> all.contains(#[trigger] some[i]),
    ensures
        total(f, some) <= total(f, all),
    decreases some.len(),
{
    if some.len() == 0 {
        lemma_total_positive(f, all);
    } else {
        let x = some.last();
        assert(all.contains(some[some.len() - 1]));
        let j = choose|j: int| 0 <= j < all.len() && all[j] == x;
        let rest = all.remove(j);
        let fewer = some.drop_last();
        assert forall|i: int| 0 <= i < fewer.len() implies rest.contains(#[trigger] fewer[i]) by {
            assert(fewer[i] == some[i]);
            assert(all.contains(some[i]));
            let m = choose|m: int| 0 <= m < all.len() && all[m] == some[i];
            assert(m != j);
            if m < j {
                assert(rest[m] == some[i]);
            } else {
                assert(rest[m - 1] == some[i]);
            }
        }
        lemma_total(f, fewer, rest);
        lemma_total_remove(f, all, j);
    }
}

proof fn lemma_total_positive(f: spec_fn(Ifd) -> int, dirs: Seq<Ifd>)
    requires
        forall|ifd: Ifd| #[trigger] f(ifd) >= 0,
    ensures
        total(f, dirs) >= 0,
    decreases dirs.len(),
{
    if dirs.len() > 0 {
        lemma_total_positive(f, dirs.drop_last());
    }
}

proof fn lemma_total_length(dirs: Seq<Ifd>)
    ensures
        total(|ifd: Ifd| 1, dirs) == dirs.len(),
    decreases dirs.len(),
{
    if dirs.len() > 0 {
        lemma_total_length(dirs.drop_last());
    }
}

pub open spec fn cost_of(file: Seq<u8>, little: bool) -> spec_fn(Ifd) -> int {
    |ifd: Ifd| directory_cost(file, ifd, little)
}

pub open spec fn links_of(file: Seq<u8>, little: bool) -> spec_fn(Ifd) -> int {
    |ifd: Ifd| directory_links(file, ifd, little)
}

pub open spec fn claims_of(file: Seq<u8>, little: bool) -> spec_fn(Ifd) -> int {
    |ifd: Ifd| directory_claims(file, ifd, little)
}

/// The directory that the header of a file refers to.
pub open spec fn root(file: Seq<u8>, little: bool) -> Ifd {
    Ifd {
        offset: container::long(file, 4, little) as u64,
        sony: false,
        end: file.len() as u64,
    }
}

/// Whether these are directories of the file that can all be walked: they lie in the
/// file, no two begin at one place, the first directory is one of them, and they link
/// to each other only. They are 128 at most, with 127 links and 128 images, and they
/// take less than four megabytes.
pub open spec fn surveyed(file: Seq<u8>, dirs: Seq<Ifd>, little: bool) -> bool {
    &&& file.len() <= u64::MAX
    &&& container::begins(file, little)
    &&& dirs.len() <= 128
    &&& dirs.contains(root(file, little))
    &&& forall|i: int| 0 <= i < dirs.len() ==> sound(file, #[trigger] dirs[i], little)
    &&& forall|i: int| 0 <= i < dirs.len() ==> leads_to(file, #[trigger] dirs[i], dirs, little)
    &&& forall|i: int, j: int|
        0 <= i < j < dirs.len() ==> (#[trigger] dirs[i]).offset != (#[trigger] dirs[j]).offset
            || dirs[i].sony != dirs[j].sony
    &&& 8 + total(cost_of(file, little), dirs) < 4194304
    &&& 1 + total(links_of(file, little), dirs) <= 128
    &&& total(claims_of(file, little), dirs) <= 128
}

/// Whether a directory links to another.
pub open spec fn follows(file: Seq<u8>, a: Ifd, b: Ifd, little: bool) -> bool {
    b.offset != 0 && exists|k: int, i: int| #[trigger]
        linked(file, a, k, i, little) && b == target(file, a, k, i, little)
}

/// Whether a chain of links leads from the header of the file to a directory.
pub open spec fn reached(file: Seq<u8>, chain: Seq<Ifd>, little: bool) -> bool {
    &&& chain.len() > 0
    &&& chain[0] == root(file, little)
    &&& forall|i: int| 0 < i < chain.len() ==> follows(file, chain[i - 1], #[trigger] chain[i], little)
}

/// What holds while directories are walked: of those that were, all links were
/// followed or wait to be, and all images are noted.
pub open spec fn underway(
    file: Seq<u8>,
    dirs: Seq<Ifd>,
    done: Seq<Ifd>,
    visited: Seq<(u64, bool)>,
    w: Walk,
    little: bool,
) -> bool {
    &&& done.len() == visited.len()
    &&& forall|i: int|
        0 <= i < done.len() ==> #[trigger] visited[i] == (done[i].offset, done[i].sony)
    &&& done.no_duplicates()
    &&& forall|i: int| 0 <= i < done.len() ==> dirs.contains(#[trigger] done[i])
    &&& within(w.queue, dirs)
    &&& done.contains(root(file, little)) || w.queue.contains(root(file, little))
    &&& forall|j: int, k: int, i: int|
        0 <= j < done.len() && #[trigger] linked(file, done[j], k, i, little) ==> {
            let t = target(file, done[j], k, i, little);
            t.offset == 0 || done.contains(t) || w.queue.contains(t)
        }
    &&& forall|j: int, offset: int, length: int|
        0 <= j < done.len() && #[trigger] declares(file, done[j], offset, length, little)
            ==> w.candidates.contains((offset as u64, length as u64))
    &&& w.scan.used == 8 + total(cost_of(file, little), done)
    &&& w.queue.len() <= 1 + total(links_of(file, little), done)
    &&& w.candidates.len() <= total(claims_of(file, little), done)
}

/// A directory that was walked is marked as visited, and no other of those surveyed.
proof fn lemma_visited(
    file: Seq<u8>,
    dirs: Seq<Ifd>,
    done: Seq<Ifd>,
    visited: Seq<(u64, bool)>,
    w: Walk,
    ifd: Ifd,
    little: bool,
)
    requires
        surveyed(file, dirs, little),
        underway(file, dirs, done, visited, w, little),
        dirs.contains(ifd),
    ensures
        visited.contains((ifd.offset, ifd.sony)) <==> done.contains(ifd),
{
    if visited.contains((ifd.offset, ifd.sony)) {
        let i = choose|i: int| 0 <= i < visited.len() && visited[i] == (ifd.offset, ifd.sony);
        assert(dirs.contains(done[i]));
        let a = choose|a: int| 0 <= a < dirs.len() && dirs[a] == done[i];
        let b = choose|b: int| 0 <= b < dirs.len() && dirs[b] == ifd;
        if a < b {
            assert(dirs[a].offset != dirs[b].offset || dirs[a].sony != dirs[b].sony);
        } else if b < a {
            assert(dirs[b].offset != dirs[a].offset || dirs[b].sony != dirs[a].sony);
        }
        assert(done[i] == ifd);
    }
    if done.contains(ifd) {
        let i = choose|i: int| 0 <= i < done.len() && done[i] == ifd;
        assert(visited[i] == (ifd.offset, ifd.sony));
    }
}

/// The next directory in the queue is passed over.
proof fn lemma_passed(
    file: Seq<u8>,
    dirs: Seq<Ifd>,
    done: Seq<Ifd>,
    visited: Seq<(u64, bool)>,
    w: Walk,
    little: bool,
)
    requires
        surveyed(file, dirs, little),
        underway(file, dirs, done, visited, w, little),
        w.queue.len() > 0,
        w.queue[0].offset == 0 || done.contains(w.queue[0]),
    ensures
        underway(file, dirs, done, visited, (Walk { queue: w.queue.skip(1), ..w }), little),
{
    let rest = w.queue.skip(1);
    assert forall|x: Ifd| w.queue.contains(x) implies x == w.queue[0] || #[trigger] rest.contains(
        x,
    ) by {
        let i = choose|i: int| 0 <= i < w.queue.len() && w.queue[i] == x;
        if i > 0 {
            assert(rest[i - 1] == x);
        }
    }
    container::lemma_numbers(file, 0, 8, 4, little);
    assert forall|i: int| 0 <= i < rest.len() implies (#[trigger] rest[i]).offset == 0
        || dirs.contains(rest[i]) by {
        assert(rest[i] == w.queue[i + 1]);
    }
    assert forall|j: int, k: int, i: int|
        0 <= j < done.len() && #[trigger] linked(file, done[j], k, i, little) implies {
        let t = target(file, done[j], k, i, little);
        t.offset == 0 || done.contains(t) || rest.contains(t)
    } by {
        let t = target(file, done[j], k, i, little);
        assert(t.offset == 0 || done.contains(t) || w.queue.contains(t));
    }
}

proof fn lemma_counts(file: Seq<u8>, ifd: Ifd, little: bool)
    ensures
        directory_cost(file, ifd, little) >= 0,
        directory_links(file, ifd, little) >= 0,
        directory_claims(file, ifd, little) >= 0,
{
    lemma_sums(file, ifd, container::entries(file, ifd.offset as int, little), little);
    reveal(container::short);
}

/// One more directory leaves room for the others.
proof fn lemma_room(file: Seq<u8>, dirs: Seq<Ifd>, done: Seq<Ifd>, ifd: Ifd, little: bool)
    requires
        surveyed(file, dirs, little),
        done.no_duplicates(),
        forall|i: int| 0 <= i < done.len() ==> dirs.contains(#[trigger] done[i]),
        dirs.contains(ifd),
        !done.contains(ifd),
    ensures
        ({
            let more = done.push(ifd);
            &&& more.no_duplicates()
            &&& forall|i: int| 0 <= i < more.len() ==> dirs.contains(#[trigger] more[i])
            &&& done.len() < 128
            &&& total(cost_of(file, little), more) == total(cost_of(file, little), done)
                + directory_cost(file, ifd, little)
            &&& total(links_of(file, little), more) == total(links_of(file, little), done)
                + directory_links(file, ifd, little)
            &&& total(claims_of(file, little), more) == total(claims_of(file, little), done)
                + directory_claims(file, ifd, little)
            &&& 8 + total(cost_of(file, little), more) < 4194304
            &&& 1 + total(links_of(file, little), more) <= 128
            &&& total(claims_of(file, little), more) <= 128
        }),
{
    let more = done.push(ifd);
    assert(more.drop_last() =~= done);
    assert forall|i: int| 0 <= i < more.len() implies dirs.contains(#[trigger] more[i]) by {
        if i < done.len() {
            assert(more[i] == done[i]);
        }
    }
    assert(more.no_duplicates()) by {
        assert forall|i: int, j: int| 0 <= i < j < more.len() implies more[i] != more[j] by {
            if j == done.len() {
                assert(done.contains(done[i]));
            }
        }
    }
    let one = |ifd: Ifd| 1int;
    lemma_total(one, more, dirs);
    lemma_total_length(more);
    lemma_total_length(dirs);
    let (f, g, h) = (cost_of(file, little), links_of(file, little), claims_of(file, little));
    assert forall|x: Ifd| #[trigger] f(x) >= 0 by {
        lemma_counts(file, x, little);
    }
    assert forall|x: Ifd| #[trigger] g(x) >= 0 by {
        lemma_counts(file, x, little);
    }
    assert forall|x: Ifd| #[trigger] h(x) >= 0 by {
        lemma_counts(file, x, little);
    }
    lemma_total(cost_of(file, little), more, dirs);
    lemma_total(links_of(file, little), more, dirs);
    lemma_total(claims_of(file, little), more, dirs);
}

/// The next directory in the queue is walked.
proof fn lemma_stepped(
    file: Seq<u8>,
    dirs: Seq<Ifd>,
    done: Seq<Ifd>,
    visited: Seq<(u64, bool)>,
    w: Walk,
    v: Walk,
    little: bool,
)
    requires
        surveyed(file, dirs, little),
        underway(file, dirs, done, visited, w, little),
        w.queue.len() > 0,
        dirs.contains(w.queue[0]),
        !done.contains(w.queue[0]),
        walks(file, w.queue[0], dirs, (Walk { queue: w.queue.skip(1), ..w }), v, little),
    ensures
        underway(
            file,
            dirs,
            done.push(w.queue[0]),
            visited.push((w.queue[0].offset, w.queue[0].sony)),
            v,
            little,
        ),
{
    let ifd = w.queue[0];
    let more = done.push(ifd);
    let rest = w.queue.skip(1);
    lemma_room(file, dirs, done, ifd, little);
    lemma_extends(rest, v.queue);
    lemma_extends(w.candidates, v.candidates);
    assert(more[done.len() as int] == ifd);
    assert forall|x: Ifd| done.contains(x) implies #[trigger] more.contains(x) by {
        let i = choose|i: int| 0 <= i < done.len() && done[i] == x;
        assert(more[i] == x);
    }
    assert forall|x: Ifd| w.queue.contains(x) implies more.contains(x) || #[trigger] v.queue.contains(
        x,
    ) by {
        let i = choose|i: int| 0 <= i < w.queue.len() && w.queue[i] == x;
        if i > 0 {
            assert(rest[i - 1] == x);
        }
    }
    assert forall|j: int, k: int, i: int|
        0 <= j < more.len() && #[trigger] linked(file, more[j], k, i, little) implies {
        let t = target(file, more[j], k, i, little);
        t.offset == 0 || more.contains(t) || v.queue.contains(t)
    } by {
        if j < done.len() {
            assert(more[j] == done[j]);
            let t = target(file, done[j], k, i, little);
            assert(linked(file, done[j], k, i, little));
            assert(t.offset == 0 || done.contains(t) || w.queue.contains(t));
        }
    }
    assert forall|j: int, offset: int, length: int|
        0 <= j < more.len() && #[trigger] declares(
            file,
            more[j],
            offset,
            length,
            little,
        ) implies v.candidates.contains((offset as u64, length as u64)) by {
        if j < done.len() {
            assert(more[j] == done[j]);
            assert(declares(file, done[j], offset, length, little));
        }
    }
}

/// All directories are walked that some link leads to.
proof fn lemma_discovered<R: ByteSource>(
    source: R,
    file: Seq<u8>,
    dirs: Seq<Ifd>,
    done: Seq<Ifd>,
    visited: Seq<(u64, bool)>,
    w: Walk,
    little: bool,
) -> (all: Seq<Ifd>)
    requires
        container::serves(source, file),
        surveyed(file, dirs, little),
        underway(file, dirs, done, visited, w, little),
    ensures
        ({
            let v = parser::discovered(
                w,
                source,
                file.len() as u64,
                visited,
                container::order(little),
            );
            &&& v.queue.len() == 0
            &&& exists|marks: Seq<(u64, bool)>| underway(file, dirs, all, marks, v, little)
        }),
    decreases 129 - visited.len(), w.queue.len(),
{
    let size = file.len() as u64;
    let endian = container::order(little);
    lemma_done(file, dirs, done, visited, w, little);
    if w.queue.len() == 0 {
        assert(parser::discovered(w, source, size, visited, endian) == w);
        done
    } else {
        let ifd = w.queue[0];
        let rest = Walk { queue: w.queue.skip(1), ..w };
        if ifd.offset == 0 {
            lemma_passed(file, dirs, done, visited, w, little);
            lemma_discovered(source, file, dirs, done, visited, rest, little)
        } else {
            assert(dirs.contains(ifd));
            lemma_visited(file, dirs, done, visited, w, ifd, little);
            if done.contains(ifd) {
                lemma_passed(file, dirs, done, visited, w, little);
                lemma_discovered(source, file, dirs, done, visited, rest, little)
            } else {
                lemma_room(file, dirs, done, ifd, little);
                let a = choose|a: int| 0 <= a < dirs.len() && dirs[a] == ifd;
                assert(sound(file, dirs[a], little) && leads_to(file, dirs[a], dirs, little));
                assert(within(rest.queue, dirs)) by {
                    assert forall|i: int| 0 <= i < rest.queue.len() implies (
                    #[trigger] rest.queue[i]).offset == 0 || dirs.contains(rest.queue[i]) by {
                        assert(rest.queue[i] == w.queue[i + 1]);
                    }
                }
                lemma_walked(source, file, ifd, dirs, rest, little);
                let (v, end) = parser::walked(rest, source, size, ifd, endian);
                lemma_stepped(file, dirs, done, visited, w, v, little);
                let mark = (ifd.offset, ifd.sony);
                assert(v.scan.used < 4194304);
                assert(parser::discovered(w, source, size, visited, endian) == parser::discovered(
                    v,
                    source,
                    size,
                    visited.push(mark),
                    endian,
                ));
                lemma_discovered(source, file, dirs, done.push(ifd), visited.push(mark), v, little)
            }
        }
    }
}

/// No more directories are walked than there are.
proof fn lemma_done(
    file: Seq<u8>,
    dirs: Seq<Ifd>,
    done: Seq<Ifd>,
    visited: Seq<(u64, bool)>,
    w: Walk,
    little: bool,
)
    requires
        surveyed(file, dirs, little),
        underway(file, dirs, done, visited, w, little),
    ensures
        visited.len() <= 128,
{
    let one = |ifd: Ifd| 1int;
    lemma_total(one, done, dirs);
    lemma_total_length(done);
    lemma_total_length(dirs);
}

/// The walk over the directories of a file, before the first.
pub open spec fn outset(scan: Scan, file: Seq<u8>, little: bool) -> Walk {
    Walk {
        scan: Scan { used: 8, primary: root(file, little).offset, ..scan },
        queue: seq![root(file, little)],
        candidates: Seq::empty(),
        tags: parser::no_tags(),
    }
}

/// Every image that a directory declares, in whatever way, is a candidate, if a chain
/// of links leads to that directory.
pub proof fn law_declared_images_are_candidates<R: ByteSource>(
    source: R,
    file: Seq<u8>,
    dirs: Seq<Ifd>,
    chain: Seq<Ifd>,
    scan: Scan,
    offset: int,
    length: int,
    little: bool,
)
    requires
        container::serves(source, file),
        surveyed(file, dirs, little),
        reached(file, chain, little),
        declares(file, chain.last(), offset, length, little),
    ensures
        parser::discovered(
            outset(scan, file, little),
            source,
            file.len() as u64,
            Seq::empty(),
            container::order(little),
        ).candidates.contains((offset as u64, length as u64)),
{
    let w = outset(scan, file, little);
    let first = root(file, little);
    assert(w.queue[0] == first);
    assert(underway(file, dirs, Seq::empty(), Seq::empty(), w, little));
    let all = lemma_discovered(source, file, dirs, Seq::empty(), Seq::empty(), w, little);
    let v = parser::discovered(
        w,
        source,
        file.len() as u64,
        Seq::empty(),
        container::order(little),
    );
    let marks = choose|marks: Seq<(u64, bool)>| underway(file, dirs, all, marks, v, little);
    lemma_chain(file, dirs, all, marks, v, chain, chain.len() - 1, little);
    let j = choose|j: int| 0 <= j < all.len() && all[j] == chain.last();
    assert(declares(file, all[j], offset, length, little));
}

/// A chain of links leads to directories that were walked.
proof fn lemma_chain(
    file: Seq<u8>,
    dirs: Seq<Ifd>,
    all: Seq<Ifd>,
    marks: Seq<(u64, bool)>,
    v: Walk,
    chain: Seq<Ifd>,
    n: int,
    little: bool,
)
    requires
        underway(file, dirs, all, marks, v, little),
        v.queue.len() == 0,
        reached(file, chain, little),
        0 <= n < chain.len(),
    ensures
        all.contains(chain[n]),
    decreases n,
{
    if n > 0 {
        lemma_chain(file, dirs, all, marks, v, chain, n - 1, little);
        let a = chain[n - 1];
        assert(follows(file, chain[n - 1], chain[n], little));
        let j = choose|j: int| 0 <= j < all.len() && all[j] == a;
        let (k, i) = choose|k: int, i: int| #[trigger]
            linked(file, a, k, i, little) && chain[n] == target(file, a, k, i, little);
        assert(linked(file, all[j], k, i, little));
    }
}

} // verus!
