//! What is read of the fields of a file, told by the bytes of the file.
use crate::arw::container;
use crate::arw::error::Fault;
use crate::arw::source::ByteSource;
use crate::metadata::exif;
use crate::metadata::exif::{Exif, MetadataFault, Parse, Rational};
use crate::text;
use vstd::prelude::*;

verus! {

/// Bytes of a value that is read and stands apart from its entry.
pub open spec fn apart(file: Seq<u8>, d: int, k: int, root: bool, little: bool) -> int {
    let tag = container::tag(file, d, k, little);
    let kind = container::kind(file, d, k, little);
    let amount = container::amount(file, d, k, little);
    if (tag == 0x0110 || tag == 0x0132) && root || (tag == 0x9003 || tag == 0xa434) && !root {
        if kind == 2 && 4 < amount <= 512 {
            amount
        } else {
            0
        }
    } else if (tag == 0x829a || tag == 0x829d || tag == 0x920a) && !root && kind == 5 && amount
        == 1 {
        8
    } else {
        0
    }
}

/// Bytes of all such values of the first `n` entries.
pub open spec fn all_apart(file: Seq<u8>, d: int, n: int, root: bool, little: bool) -> int
    decreases n,
{
    if n <= 0 {
        0
    } else {
        all_apart(file, d, n - 1, root, little) + apart(file, d, n - 1, root, little)
    }
}

/// Whether a directory, and all that is read for it, lies in the file.
pub open spec fn complete(file: Seq<u8>, d: int, root: bool, little: bool) -> bool {
    &&& 0 < d
    &&& d + 2 <= file.len()
    &&& container::entries(file, d, little) <= 1024
    &&& d + 2 + 12 * container::entries(file, d, little) <= file.len()
    &&& forall|k: int|
        0 <= k < container::entries(file, d, little) ==> 0 <= #[trigger] container::value(
            file,
            d,
            k,
            little,
        ) && container::value(file, d, k, little) + apart(file, d, k, root, little) <= file.len()
}

/// Whether the directory at `d` refers to an Exif directory in the entry `k`, and in
/// no other.
pub open spec fn refers(file: Seq<u8>, d: int, k: int, little: bool) -> bool {
    forall|i: int|
        0 <= i < container::entries(file, d, little) ==> (#[trigger] container::tag(
            file,
            d,
            i,
            little,
        ) == 0x8769 <==> i == k)
}

/// Whether the file is well-formed as far as metadata is concerned: its entry `p`
/// refers to an Exif directory at `exif`, and what has to be read fits in a quarter
/// of a megabyte.
pub open spec fn well_formed(file: Seq<u8>, little: bool, p: int, exif: int) -> bool {
    let first = container::long(file, 4, little);
    &&& file.len() <= u64::MAX
    &&& container::begins(file, little)
    &&& complete(file, first, true, little)
    &&& 0 <= p < container::entries(file, first, little)
    &&& refers(file, first, p, little)
    &&& container::number(file, first, p, little, exif)
    &&& exif != first
    &&& complete(file, exif, false, little)
    &&& refers(file, exif, -1, little)
    &&& 12 + 12 * container::entries(file, first, little) + 12 * container::entries(
        file,
        exif,
        little,
    ) + all_apart(file, first, container::entries(file, first, little), true, little) + all_apart(
        file,
        exif,
        container::entries(file, exif, little),
        false,
        little,
    ) <= 262144
}

/// The directory in question: the first, or the Exif directory.
pub open spec fn place(file: Seq<u8>, little: bool, exif: int, root: bool) -> int {
    if root {
        container::long(file, 4, little)
    } else {
        exif
    }
}

/// Whether the entry holds, or refers to, a text: `t`, which ends at a zero byte or
/// with the field, has no control characters and is not blank.
pub open spec fn says(file: Seq<u8>, d: int, k: int, little: bool, t: Seq<u8>) -> bool {
    let amount = container::amount(file, d, k, little);
    let at = if amount <= 4 {
        container::entry(d, k) + 8
    } else {
        container::value(file, d, k, little)
    };
    &&& container::kind(file, d, k, little) == 2
    &&& 1 <= amount <= 512
    &&& t.len() <= amount
    &&& at + amount <= file.len()
    &&& t == file.subrange(at, at + t.len())
    &&& t.len() < amount ==> file[at + t.len()] == 0
    &&& forall|i: int|
        0 <= i < t.len() ==> #[trigger] t[i] >= 32 || t[i] == 9 || t[i] == 10 || t[i] == 13
    &&& exif::stripped(text::lossy_text(t)).len() > 0
}

/// Whether the entry refers to a fraction.
pub open spec fn fraction(
    file: Seq<u8>,
    d: int,
    k: int,
    little: bool,
    numerator: int,
    denominator: int,
) -> bool {
    let at = container::value(file, d, k, little);
    &&& container::kind(file, d, k, little) == 5
    &&& container::amount(file, d, k, little) == 1
    &&& container::long(file, at, little) == numerator
    &&& container::long(file, at + 4, little) == denominator
    &&& numerator > 0
    &&& denominator > 0
}

/// What one entry adds to what was read before.
pub open spec fn steps<R: ByteSource>(
    source: R,
    file: Seq<u8>,
    d: int,
    k: int,
    root: bool,
    little: bool,
    p: Parse,
    q: Parse,
) -> bool {
    let tag = container::tag(file, d, k, little);
    &&& q.used == p.used + apart(file, d, k, root, little)
    &&& tag != 0x8769 ==> q.queue == p.queue
    &&& forall|n: int|
        tag == 0x8769 && #[trigger] container::number(file, d, k, little, n) ==> q.queue
            == p.queue.push((n as u64, false))
    &&& !(root && tag == 0x0110) ==> q.exif.camera_model == p.exif.camera_model
    &&& !(root && tag == 0x0132) ==> q.exif.captured_at == p.exif.captured_at
    &&& !(root && tag == 0x0112) ==> q.exif.orientation == p.exif.orientation
    &&& !(!root && tag == 0x829a) ==> q.exif.exposure_time == p.exif.exposure_time
    &&& !(!root && tag == 0x829d) ==> q.exif.aperture == p.exif.aperture
    &&& !(!root && (tag == 0x8827 || tag == 0x8833)) ==> q.exif.iso == p.exif.iso
    &&& tag != 0x8827 && p.exif.iso is Some ==> q.exif.iso == p.exif.iso
    &&& !(!root && tag == 0x920a) ==> q.exif.focal_length == p.exif.focal_length
    &&& !(!root && tag == 0x9003) ==> q.original_time == p.original_time
    &&& !(!root && tag == 0xa434) ==> q.exif.lens_model == p.exif.lens_model
}

/// What is known once an entry was read.
pub open spec fn knows(
    file: Seq<u8>,
    d: int,
    k: int,
    root: bool,
    little: bool,
    q: Parse,
) -> bool {
    let tag = container::tag(file, d, k, little);
    &&& forall|t: Seq<u8>| #[trigger]
        says(file, d, k, little, t) ==> {
            let said = Some(exif::stripped(text::lossy_text(t)));
            &&& root && tag == 0x0110 ==> q.exif.camera_model == said
            &&& root && tag == 0x0132 ==> q.exif.captured_at == said
            &&& !root && tag == 0x9003 ==> q.original_time == said
            &&& !root && tag == 0xa434 ==> q.exif.lens_model == said
        }
    &&& forall|n: int, m: int| #[trigger]
        fraction(file, d, k, little, n, m) ==> {
            let told = Some(Rational { numerator: n as u32, denominator: m as u32 });
            &&& !root && tag == 0x829a ==> q.exif.exposure_time == told
            &&& !root && tag == 0x829d ==> q.exif.aperture == told
            &&& !root && tag == 0x920a ==> q.exif.focal_length == told
        }
    &&& forall|n: int| #[trigger]
        container::number(file, d, k, little, n) ==> {
            &&& !root && tag == 0x8827 && n > 0 ==> q.exif.iso == Some(n as u32)
            &&& root && tag == 0x0112 && 1 <= n <= 8 ==> q.exif.orientation == n
        }
}

proof fn lemma_text(bytes: Seq<u8>, t: Seq<u8>)
    requires
        t.len() <= bytes.len(),
        t == bytes.take(t.len() as int),
        t.len() < bytes.len() ==> bytes[t.len() as int] == 0,
        forall|i: int|
            0 <= i < t.len() ==> #[trigger] t[i] >= 32 || t[i] == 9 || t[i] == 10 || t[i] == 13,
        exif::stripped(text::lossy_text(t)).len() > 0,
    ensures
        exif::field_text(bytes) == Some(exif::stripped(text::lossy_text(t))),
{
    assert forall|k: int| 0 <= k < t.len() implies bytes[k] != 0 by {
        assert(t[k] == bytes[k]);
    }
    exif::lemma_terminator(bytes, bytes.len() as int, t.len() as int);
}

/// What is found of a text.
proof fn lemma_text_found<R: ByteSource>(
    source: R,
    file: Seq<u8>,
    d: int,
    k: int,
    root: bool,
    little: bool,
    used: int,
)
    requires
        container::serves(source, file),
        file.len() <= u64::MAX,
        complete(file, d, root, little),
        0 <= k < container::entries(file, d, little),
        root && (container::tag(file, d, k, little) == 0x0110 || container::tag(file, d, k, little)
            == 0x0132) || !root && (container::tag(file, d, k, little) == 0x9003 || container::tag(
            file,
            d,
            k,
            little,
        ) == 0xa434),
        used + apart(file, d, k, root, little) <= 262144,
    ensures
        ({
            let data = file.subrange(d + 2, d + 2 + 12 * container::entries(file, d, little));
            let found = exif::text_at(
                source,
                file.len() as u64,
                used,
                data,
                12 * k,
                container::order(little),
            );
            &&& found is Ok
            &&& (found->Ok_0).used == used + apart(file, d, k, root, little)
            &&& forall|t: Seq<u8>| #[trigger]
                says(file, d, k, little, t) ==> (found->Ok_0).value == Some(
                    exif::stripped(text::lossy_text(t)),
                )
        }),
{
    let data = file.subrange(d + 2, d + 2 + 12 * container::entries(file, d, little));
    let at = 12 * k;
    container::lemma_entry(file, d, k, little);
    let amount = container::amount(file, d, k, little);
    let value = container::value(file, d, k, little);
    let length = apart(file, d, k, root, little);
    if length > 0 {
        assert(source.outcome(value as u64, length as nat) == Ok::<Seq<u8>, Fault>(
            file.subrange(value, value + length),
        ));
    }
    let found = exif::text_at(
        source,
        file.len() as u64,
        used,
        data,
        12 * k,
        container::order(little),
    );
    assert forall|t: Seq<u8>| #[trigger] says(file, d, k, little, t) implies (found->Ok_0).value
        == Some(exif::stripped(text::lossy_text(t))) by {
        if amount <= 4 {
            let bytes = data.subrange(at + 8, at + 8 + amount);
            assert(bytes.take(t.len() as int) =~= t);
            if t.len() < amount {
                assert(bytes[t.len() as int] == file[container::entry(d, k) + 8 + t.len()]);
            }
            lemma_text(bytes, t);
        } else {
            let bytes = file.subrange(value, value + amount);
            assert(bytes.take(t.len() as int) =~= t);
            lemma_text(bytes, t);
        }
    }
}

/// What is found of a fraction.
proof fn lemma_fraction_found<R: ByteSource>(
    source: R,
    file: Seq<u8>,
    d: int,
    k: int,
    little: bool,
    used: int,
)
    requires
        container::serves(source, file),
        file.len() <= u64::MAX,
        complete(file, d, false, little),
        0 <= k < container::entries(file, d, little),
        container::tag(file, d, k, little) == 0x829a || container::tag(file, d, k, little) == 0x829d
            || container::tag(file, d, k, little) == 0x920a,
        used + apart(file, d, k, false, little) <= 262144,
    ensures
        ({
            let data = file.subrange(d + 2, d + 2 + 12 * container::entries(file, d, little));
            let found = exif::rational_at(
                source,
                file.len() as u64,
                used,
                data,
                12 * k,
                container::order(little),
            );
            &&& found is Ok
            &&& (found->Ok_0).used == used + apart(file, d, k, false, little)
            &&& forall|n: int, m: int| #[trigger]
                fraction(file, d, k, little, n, m) ==> (found->Ok_0).value == Some(
                    Rational { numerator: n as u32, denominator: m as u32 },
                )
        }),
{
    container::lemma_entry(file, d, k, little);
    let value = container::value(file, d, k, little);
    if apart(file, d, k, false, little) > 0 {
        assert(source.outcome(value as u64, 8) == Ok::<Seq<u8>, Fault>(
            file.subrange(value, value + 8),
        ));
        container::lemma_numbers(file, value, value + 8, 0, little);
        container::lemma_numbers(file, value, value + 8, 4, little);
    }
}

/// What is found of a number.
proof fn lemma_number_found(file: Seq<u8>, d: int, k: int, little: bool)
    requires
        0 <= d,
        0 <= k < container::entries(file, d, little),
        d + 2 + 12 * container::entries(file, d, little) <= file.len(),
    ensures
        ({
            let data = file.subrange(d + 2, d + 2 + 12 * container::entries(file, d, little));
            let found = exif::scalar_at(data, 12 * k, container::order(little));
            &&& container::order(little).at16(data, 12 * k) as int == container::tag(
                file,
                d,
                k,
                little,
            )
            &&& forall|n: int| #[trigger]
                container::number(file, d, k, little, n) ==> found == Some(n as u32) && found->0
                    as int == n
        }),
{
    container::lemma_entry(file, d, k, little);
}

#[verifier::rlimit(50)]
proof fn lemma_step<R: ByteSource>(
    source: R,
    file: Seq<u8>,
    d: int,
    k: int,
    root: bool,
    little: bool,
    p: Parse,
)
    requires
        container::serves(source, file),
        file.len() <= u64::MAX,
        complete(file, d, root, little),
        0 <= k < container::entries(file, d, little),
        container::tag(file, d, k, little) == 0x8769 ==> p.queue.len() < 16,
        p.used + apart(file, d, k, root, little) <= 262144,
    ensures
        ({
            let data = file.subrange(d + 2, d + 2 + 12 * container::entries(file, d, little));
            let out = exif::visit(
                p,
                source,
                file.len() as u64,
                root,
                data,
                12 * k,
                container::order(little),
            );
            &&& out is Ok
            &&& steps(source, file, d, k, root, little, p, out->Ok_0)
            &&& knows(file, d, k, root, little, out->Ok_0)
        }),
{
    let tag = container::tag(file, d, k, little);
    lemma_number_found(file, d, k, little);
    if root && (tag == 0x0110 || tag == 0x0132) || !root && (tag == 0x9003 || tag == 0xa434) {
        lemma_text_found(source, file, d, k, root, little, p.used);
    }
    if !root && (tag == 0x829a || tag == 0x829d || tag == 0x920a) {
        lemma_fraction_found(source, file, d, k, little, p.used);
    }
}

/// What the first `n` entries of a directory add, of which the entry `q` may refer to
/// a directory, and what is known of the entry `j` afterwards.
proof fn lemma_steps<R: ByteSource>(
    source: R,
    file: Seq<u8>,
    d: int,
    n: int,
    j: int,
    q: int,
    target: int,
    root: bool,
    little: bool,
    p: Parse,
)
    requires
        container::serves(source, file),
        file.len() <= u64::MAX,
        complete(file, d, root, little),
        refers(file, d, q, little),
        0 <= q < container::entries(file, d, little) ==> container::number(
            file,
            d,
            q,
            little,
            target,
        ),
        0 <= n <= container::entries(file, d, little),
        0 <= j,
        container::last_of_its_tag(file, d, j, little),
        p.queue.len() < 16,
        p.used + all_apart(file, d, n, root, little) <= 262144,
    ensures
        ({
            let data = file.subrange(d + 2, d + 2 + 12 * container::entries(file, d, little));
            let out = exif::visit_all(
                p,
                source,
                file.len() as u64,
                root,
                data,
                n,
                container::order(little),
            );
            let r = out->Ok_0;
            &&& out is Ok
            &&& r.used == p.used + all_apart(file, d, n, root, little)
            &&& r.queue == if 0 <= q < n {
                p.queue.push((target as u64, false))
            } else {
                p.queue
            }
            &&& root ==> r.original_time == p.original_time
            &&& !root ==> r.exif.camera_model == p.exif.camera_model && r.exif.captured_at
                == p.exif.captured_at && r.exif.orientation == p.exif.orientation
            &&& (forall|i: int|
                0 <= i < n ==> #[trigger] container::tag(file, d, i, little) != 0x9003) ==> r.original_time
                == p.original_time
            &&& j < n ==> knows(file, d, j, root, little, r)
        }),
    decreases n,
{
    if n > 0 {
        let k = n - 1;
        lemma_steps(source, file, d, k, j, q, target, root, little, p);
        let data = file.subrange(d + 2, d + 2 + 12 * container::entries(file, d, little));
        let before = exif::visit_all(
            p,
            source,
            file.len() as u64,
            root,
            data,
            k,
            container::order(little),
        )->Ok_0;
        assert(container::tag(file, d, k, little) == 0x8769 <==> k == q);
        lemma_step(source, file, d, k, root, little, before);
        if k == q {
            assert(container::number(file, d, k, little, target));
        }
        let after = exif::visit(
            before,
            source,
            file.len() as u64,
            root,
            data,
            12 * k,
            container::order(little),
        )->Ok_0;
        if j < k {
            assert(container::tag(file, d, k, little) != container::tag(file, d, j, little));
            lemma_kept(source, file, d, j, k, root, little, before, after);
        }
    }
}

/// What is known of one entry stays known after another with another tag.
proof fn lemma_kept<R: ByteSource>(
    source: R,
    file: Seq<u8>,
    d: int,
    j: int,
    k: int,
    root: bool,
    little: bool,
    p: Parse,
    q: Parse,
)
    requires
        knows(file, d, j, root, little, p),
        steps(source, file, d, k, root, little, p, q),
        container::tag(file, d, k, little) != container::tag(file, d, j, little),
    ensures
        knows(file, d, j, root, little, q),
{
}

/// What is read of a well-formed file: in either directory, what the last entry of
/// a tag says.
#[verifier::rlimit(50)]
proof fn lemma_read<R: ByteSource>(
    source: R,
    file: Seq<u8>,
    little: bool,
    p: int,
    exif: int,
    root: bool,
    j: int,
) -> (end: Parse)
    requires
        container::serves(source, file),
        well_formed(file, little, p, exif),
        0 <= j < container::entries(file, place(file, little, exif, root), little),
        container::last_of_its_tag(file, place(file, little, exif, root), j, little),
    ensures
        exif::parsed(source, file.len() as u64, 0) == Ok::<(Exif, int), MetadataFault>(
            (exif::finished(end), end.used),
        ),
        !root ==> knows(file, exif, j, false, little, end),
        root ==> ({
            let first = container::long(file, 4, little);
            let tag = container::tag(file, first, j, little);
            &&& forall|t: Seq<u8>| #[trigger]
                says(file, first, j, little, t) ==> {
                    let said = Some(exif::stripped(text::lossy_text(t)));
                    &&& tag == 0x0110 ==> end.exif.camera_model == said
                    &&& tag == 0x0132 ==> end.exif.captured_at == said
                }
            &&& forall|n: int| #[trigger]
                container::number(file, first, j, little, n) ==> (tag == 0x0112 && 1 <= n <= 8
                    ==> end.exif.orientation == n)
        }),
        (forall|i: int|
            0 <= i < container::entries(file, exif, little) ==> #[trigger] container::tag(
                file,
                exif,
                i,
                little,
            ) != 0x9003) ==> end.original_time is None,
{
    let first = container::long(file, 4, little);
    let size = file.len() as u64;
    let endian = container::order(little);
    let begun = begun(first);
    lemma_header(source, file, little);
    let start = Parse { queue: Seq::empty(), ..begun };
    let r = container::entries(file, first, little);
    let c = container::entries(file, exif, little);
    container::lemma_numbers(file, 0, file.len() as int, first, little);
    container::lemma_numbers(file, 0, file.len() as int, exif, little);
    lemma_apart(file, first, r, true, little);
    lemma_apart(file, exif, c, false, little);
    lemma_directory(source, file, first, true, little, start);
    let in_root = Parse { used: 8 + 2 + 12 * r, ..start };
    let (a, b) = if root {
        (j, c)
    } else {
        (r, j)
    };
    lemma_steps(source, file, first, r, a, p, exif, true, little, in_root);
    let after_root = exif::directory(start, source, size, first as u64, true, endian)->Ok_0;
    let rest = Parse { queue: Seq::empty(), ..after_root };
    lemma_directory(source, file, exif, false, little, rest);
    let in_exif = Parse { used: rest.used + 2 + 12 * c, ..rest };
    lemma_steps(source, file, exif, c, b, -1, 0, false, little, in_exif);
    let end = exif::directory(rest, source, size, exif as u64, false, endian)->Ok_0;
    assert(after_root.queue =~= seq![(exif as u64, false)]);
    lemma_queue(source, size, endian, first as u64, exif as u64, begun, after_root, end);
    end
}

/// A parse before the first directory.
spec fn begun(first: int) -> Parse {
    Parse {
        used: 8,
        queue: seq![(first as u64, true)],
        exif: exif::unknown(),
        original_time: None,
    }
}

proof fn lemma_header<R: ByteSource>(source: R, file: Seq<u8>, little: bool)
    requires
        container::serves(source, file),
        file.len() <= u64::MAX,
        container::begins(file, little),
    ensures
        exif::parsed(source, file.len() as u64, 0) == match exif::directories(
            begun(container::long(file, 4, little)),
            source,
            file.len() as u64,
            Seq::empty(),
            container::order(little),
        ) {
            Err(fault) => Err(fault),
            Ok(parse) => Ok((exif::finished(parse), parse.used)),
        },
{
    let header = file.subrange(0, 8);
    assert(source.outcome(0, 8) == Ok::<Seq<u8>, Fault>(header));
    container::lemma_numbers(file, 0, 8, 2, little);
    container::lemma_numbers(file, 0, 8, 4, little);
    assert(header[0] == file[0] && header[1] == file[1]);
    assert(crate::arw::parser::declared_order(header) == Some(container::order(little)));
}

/// Two directories, of which the first refers to the second.
proof fn lemma_queue<R: ByteSource>(
    source: R,
    size: u64,
    endian: crate::arw::tiff::Endian,
    first: u64,
    second: u64,
    p: Parse,
    q: Parse,
    end: Parse,
)
    requires
        p.queue == seq![(first, true)],
        q.queue == seq![(second, false)],
        end.queue.len() == 0,
        first != 0,
        second != 0,
        first != second,
        exif::directory(
            Parse { queue: Seq::empty(), ..p },
            source,
            size,
            first,
            true,
            endian,
        ) == Ok::<Parse, MetadataFault>(q),
        exif::directory(
            Parse { queue: Seq::empty(), ..q },
            source,
            size,
            second,
            false,
            endian,
        ) == Ok::<Parse, MetadataFault>(end),
    ensures
        exif::directories(p, source, size, Seq::empty(), endian) == Ok::<Parse, MetadataFault>(end),
{
    let none = Seq::<u64>::empty();
    let one = none.push(first);
    assert(p.queue.skip(1) =~= Seq::empty());
    assert(q.queue.skip(1) =~= Seq::empty());
    assert(p.queue[0] == (first, true));
    assert(q.queue[0] == (second, false));
    assert(!one.contains(second)) by {
        if one.contains(second) {
            let i = choose|i: int| 0 <= i < one.len() && one[i] == second;
            assert(i == 0);
        }
    }
    assert(exif::directories(end, source, size, one.push(second), endian) == Ok::<
        Parse,
        MetadataFault,
    >(end));
    assert(exif::directories(q, source, size, one, endian) == exif::directories(
        end,
        source,
        size,
        one.push(second),
        endian,
    ));
    assert(exif::directories(p, source, size, none, endian) == exif::directories(
        q,
        source,
        size,
        one,
        endian,
    ));
}

proof fn lemma_apart(file: Seq<u8>, d: int, n: int, root: bool, little: bool)
    ensures
        all_apart(file, d, n, root, little) >= 0,
    decreases n,
{
    if n > 0 {
        lemma_apart(file, d, n - 1, root, little);
    }
}

/// A directory is read entry by entry.
proof fn lemma_directory<R: ByteSource>(
    source: R,
    file: Seq<u8>,
    d: int,
    root: bool,
    little: bool,
    p: Parse,
)
    requires
        container::serves(source, file),
        file.len() <= u64::MAX,
        complete(file, d, root, little),
        p.used + 2 + 12 * container::entries(file, d, little) <= 262144,
    ensures
        ({
            let n = container::entries(file, d, little);
            let endian = container::order(little);
            exif::directory(p, source, file.len() as u64, d as u64, root, endian)
                == exif::visit_all(
                Parse { used: p.used + 2 + 12 * n, ..p },
                source,
                file.len() as u64,
                root,
                file.subrange(d + 2, d + 2 + 12 * n),
                n,
                endian,
            )
        }),
{
    let n = container::entries(file, d, little);
    assert(source.outcome(d as u64, 2) == Ok::<Seq<u8>, Fault>(file.subrange(d, d + 2)));
    container::lemma_numbers(file, d, d + 2, 0, little);
    assert(source.outcome((d + 2) as u64, (12 * n) as nat) == Ok::<Seq<u8>, Fault>(
        file.subrange(d + 2, d + 2 + 12 * n),
    ));
}

/// In a well-formed file, a text of printable characters is read, whole and with
/// blanks removed at both ends: the camera and, if nothing else is known, the time of
/// the file in the first directory, the lens and the time of the photograph in the
/// Exif directory.
pub proof fn law_texts_are_read<R: ByteSource>(
    source: R,
    file: Seq<u8>,
    little: bool,
    p: int,
    exif: int,
    root: bool,
    j: int,
    t: Seq<u8>,
)
    requires
        container::serves(source, file),
        well_formed(file, little, p, exif),
        0 <= j < container::entries(file, place(file, little, exif, root), little),
        container::last_of_its_tag(file, place(file, little, exif, root), j, little),
        says(file, place(file, little, exif, root), j, little, t),
    ensures
        ({
            let out = exif::parsed(source, file.len() as u64, 0);
            let read = (out->Ok_0).0;
            let tag = container::tag(file, place(file, little, exif, root), j, little);
            let said = Some(exif::stripped(text::lossy_text(t)));
            &&& out is Ok
            &&& root && tag == 0x0110 ==> read.camera_model == said
            &&& !root && tag == 0xa434 ==> read.lens_model == said
            &&& !root && tag == 0x9003 ==> read.captured_at == said
            &&& root && tag == 0x0132 && (forall|i: int|
                0 <= i < container::entries(file, exif, little) ==> #[trigger] container::tag(
                    file,
                    exif,
                    i,
                    little,
                ) != 0x9003) ==> read.captured_at == said
        }),
{
    let end = lemma_read(source, file, little, p, exif, root, j);
}

/// In a well-formed file, the exposure time, the aperture and the focal length are
/// the fractions that the Exif directory refers to.
pub proof fn law_fractions_are_read<R: ByteSource>(
    source: R,
    file: Seq<u8>,
    little: bool,
    p: int,
    exif: int,
    j: int,
    numerator: int,
    denominator: int,
)
    requires
        container::serves(source, file),
        well_formed(file, little, p, exif),
        0 <= j < container::entries(file, exif, little),
        container::last_of_its_tag(file, exif, j, little),
        fraction(file, exif, j, little, numerator, denominator),
    ensures
        ({
            let out = exif::parsed(source, file.len() as u64, 0);
            let read = (out->Ok_0).0;
            let tag = container::tag(file, exif, j, little);
            let told = Some(
                Rational { numerator: numerator as u32, denominator: denominator as u32 },
            );
            &&& out is Ok
            &&& tag == 0x829a ==> read.exposure_time == told
            &&& tag == 0x829d ==> read.aperture == told
            &&& tag == 0x920a ==> read.focal_length == told
        }),
{
    let end = lemma_read(source, file, little, p, exif, false, j);
}

/// In a well-formed file, the sensitivity and the orientation are the numbers in
/// their entries.
pub proof fn law_numbers_are_read<R: ByteSource>(
    source: R,
    file: Seq<u8>,
    little: bool,
    p: int,
    exif: int,
    root: bool,
    j: int,
    n: int,
)
    requires
        container::serves(source, file),
        well_formed(file, little, p, exif),
        0 <= j < container::entries(file, place(file, little, exif, root), little),
        container::last_of_its_tag(file, place(file, little, exif, root), j, little),
        container::number(file, place(file, little, exif, root), j, little, n),
    ensures
        ({
            let out = exif::parsed(source, file.len() as u64, 0);
            let read = (out->Ok_0).0;
            let tag = container::tag(file, place(file, little, exif, root), j, little);
            &&& out is Ok
            &&& !root && tag == 0x8827 && n > 0 ==> read.iso == Some(n as u32)
            &&& root && tag == 0x0112 && 1 <= n <= 8 ==> read.orientation == n
        }),
{
    let end = lemma_read(source, file, little, p, exif, root, j);
}

/// Blanks, tabs and line ends are removed at both ends of a text, and nothing else.
pub proof fn law_blanks_are_trimmed(text: Seq<char>, i: int, j: int)
    requires
        0 <= i < j <= text.len(),
        forall|k: int|
            0 <= k < i || j <= k < text.len() ==> (#[trigger] text[k]) == ' ' || 9 <= text[k] as int
                <= 13,
        33 <= text[i] as int <= 126,
        33 <= text[j - 1] as int <= 126,
    ensures
        exif::stripped(text) == text.subrange(i, j),
    decreases text.len(),
{
    if i > 0 {
        assert(text[0] == ' ' || 9 <= text[0] as int <= 13);
        let rest = text.skip(1);
        assert forall|k: int| 0 <= k < i - 1 || j - 1 <= k < rest.len() implies (#[trigger] rest[k])
            == ' ' || 9 <= rest[k] as int <= 13 by {
            assert(rest[k] == text[k + 1]);
        }
        law_blanks_are_trimmed(rest, i - 1, j - 1);
        assert(rest.subrange(i - 1, j - 1) =~= text.subrange(i, j));
    } else if j < text.len() {
        assert(text[text.len() - 1] == ' ' || 9 <= text[text.len() - 1] as int <= 13);
        law_blanks_are_trimmed(text.drop_last(), i, j);
        assert(text.drop_last().subrange(i, j) =~= text.subrange(i, j));
    } else {
        assert(text.subrange(i, j) =~= text);
    }
}

} // verus!
