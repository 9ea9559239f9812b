//! JPEG framing only: marker lengths and the true end-of-image boundary.
//! Entropy-coded data is skipped, never decoded.
use crate::arw::error::{Error, Fault};
use vstd::prelude::*;

verus! {

/// Bytes of header that a preview may spend before its frame is found.
pub const MAX_HEADER: u64 = 1048576;

/// Start-of-frame markers: C0 to CF without the table markers C4, C8 and CC.
pub open spec fn frame_marker(marker: u8) -> bool {
    0xc0 <= marker <= 0xcf && marker != 0xc4 && marker != 0xc8 && marker != 0xcc
}

pub fn is_sof(marker: u8) -> (out: bool)
    ensures
        out == frame_marker(marker),
{
    0xc0 <= marker && marker <= 0xcf && marker != 0xc4 && marker != 0xc8 && marker != 0xcc
}

/// A big-endian 16-bit number, as JPEG writes them.
pub open spec fn be16(data: Seq<u8>, at: int) -> int {
    256 * data[at] + data[at + 1]
}

/// Reads a big-endian 16-bit number.
pub fn read_be16(data: &[u8], at: usize) -> (out: u16)
    requires
        at + 2 <= data.len(),
    ensures
        out == be16(data@, at as int),
{
    256 * (data[at] as u16) + data[at + 1] as u16
}

/// What a start-of-frame payload declares: width and height.
pub open spec fn frame_size(data: Seq<u8>) -> Result<(u32, u32), Fault> {
    if data.len() < 6 || data[0] != 8 {
        Err(Fault::Invalid("unsupported JPEG precision or short SOF"@))
    } else if be16(data, 3) == 0 || be16(data, 1) == 0 || !(data[5] == 1 || data[5] == 3 || data[5]
        == 4) || data.len() != 6 + 3 * data[5] {
        Err(Fault::Invalid("invalid JPEG SOF dimensions or components"@))
    } else {
        Ok((be16(data, 3) as u32, be16(data, 1) as u32))
    }
}

pub fn dimensions(data: &[u8]) -> (out: Result<(u32, u32), Error>)
    ensures
        Error::same(out, frame_size(data@)),
{
    if data.len() < 6 || data[0] != 8 {
        return Err(Error::Invalid("unsupported JPEG precision or short SOF"));
    }
    let height: u32 = read_be16(data, 1) as u32;
    let width: u32 = read_be16(data, 3) as u32;
    let components: usize = data[5] as usize;
    if width == 0 || height == 0 || !(components == 1 || components == 3 || components == 4)
        || data.len() != 6 + components * 3 {
        return Err(Error::Invalid("invalid JPEG SOF dimensions or components"));
    }
    Ok((width, height))
}

/// The first position from `pos` on that holds FF, or the end of the data.
pub open spec fn next_marker(data: Seq<u8>, pos: int) -> int
    decreases data.len() - pos,
{
    if pos >= data.len() || data[pos] == 0xff {
        pos
    } else {
        next_marker(data, pos + 1)
    }
}

/// The first position from `pos` on that holds anything but FF, or the end.
pub open spec fn after_fill(data: Seq<u8>, pos: int) -> int
    decreases data.len() - pos,
{
    if pos >= data.len() || data[pos] != 0xff {
        pos
    } else {
        after_fill(data, pos + 1)
    }
}

/// Only zero and FF bytes from `pos` on.
pub open spec fn padding(data: Seq<u8>, pos: int) -> bool {
    forall|i: int| pos <= i < data.len() ==> data[i] == 0 || data[i] == 0xff
}

/// A scan header of one to four components.
pub open spec fn scan_header(payload: Seq<u8>) -> bool {
    payload.len() > 0 && 1 <= payload[0] <= 4 && payload.len() == 4 + 2 * payload[0]
}

/// Where framing goes on after the marker before `pos`.
pub enum Next {
    /// Framing fails.
    Fail(Fault),
    /// The image ends here.
    End,
    /// Framing continues at this position.
    Go { pos: int, frame: bool, scan: bool, entropy: bool },
}

/// What the marker `marker`, whose parameters start at `pos`, leads to.
pub open spec fn after_marker(
    data: Seq<u8>,
    pos: int,
    marker: u8,
    frame: bool,
    scan: bool,
    entropy: bool,
) -> Next {
    if entropy && (marker == 0 || 0xd0 <= marker <= 0xd7) {
        // Byte stuffing and restart markers stay inside the entropy-coded data.
        Next::Go { pos, frame, scan, entropy }
    } else if marker == 0xd9 {
        if !frame || !scan {
            Next::Fail(Fault::Invalid("JPEG lacks frame or scan"@))
        } else if !padding(data, pos) {
            Next::Fail(Fault::Invalid("non-padding bytes after JPEG EOI"@))
        } else {
            Next::End
        }
    } else if marker == 0x01 {
        Next::Go { pos, frame, scan, entropy: false }
    } else if marker == 0 || 0xd0 <= marker <= 0xd8 {
        Next::Fail(Fault::Invalid("unexpected standalone JPEG marker"@))
    } else if pos + 2 > data.len() {
        Next::Fail(Fault::Invalid("short JPEG segment"@))
    } else if be16(data, pos) < 2 {
        Next::Fail(Fault::Invalid("invalid JPEG segment length"@))
    } else if pos + be16(data, pos) > data.len() {
        Next::Fail(Fault::Invalid("JPEG segment outside preview"@))
    } else {
        let end = pos + be16(data, pos);
        let payload = data.subrange(pos + 2, end);
        if frame_marker(marker) && marker > 0xc2 {
            Next::Fail(Fault::Invalid("unsupported JPEG frame type"@))
        } else if frame_marker(marker) && frame_size(payload) is Err {
            Next::Fail(frame_size(payload)->Err_0)
        } else if marker == 0xda && !(frame && scan_header(payload)) {
            Next::Fail(Fault::Invalid("invalid JPEG scan header"@))
        } else {
            Next::Go {
                pos: end,
                frame: frame || frame_marker(marker),
                scan: scan || marker == 0xda,
                entropy: marker == 0xda,
            }
        }
    }
}

/// Framing from `pos` on: the position behind the end-of-image marker, or why
/// the data is not one framed JPEG.
pub open spec fn framed_from(
    data: Seq<u8>,
    pos: int,
    frame: bool,
    scan: bool,
    entropy: bool,
) -> Result<int, Fault>
    decreases data.len() - pos,
{
    if pos >= data.len() {
        Err(Fault::Invalid("JPEG EOI missing"@))
    } else {
        let start = if entropy {
            next_marker(data, pos)
        } else {
            pos
        };
        if start >= data.len() || data[start] != 0xff {
            Err(Fault::Invalid("JPEG marker missing"@))
        } else {
            let at = after_fill(data, start);
            if at >= data.len() {
                Err(Fault::Invalid("truncated JPEG marker"@))
            } else {
                proof {
                    lemma_skips(data, pos);
                    lemma_skips(data, start);
                }
                match after_marker(data, at + 1, data[at], frame, scan, entropy) {
                    Next::Fail(error) => Err(error),
                    Next::End => Ok(at + 1),
                    Next::Go { pos: next, frame, scan, entropy } => framed_from(
                        data,
                        next,
                        frame,
                        scan,
                        entropy,
                    ),
                }
            }
        }
    }
}

/// The length of the one JPEG that `data` holds, without the padding behind it.
pub open spec fn framed(data: Seq<u8>) -> Result<int, Fault> {
    if data.len() < 2 || data[0] != 0xff || data[1] != 0xd8 {
        Err(Fault::Invalid("JPEG SOI missing"@))
    } else {
        framed_from(data, 2, false, false, false)
    }
}

/// Skipping never goes back and stops on what it looks for.
pub proof fn lemma_skips(data: Seq<u8>, pos: int)
    ensures
        pos <= next_marker(data, pos),
        pos <= after_fill(data, pos),
        pos <= data.len() ==> next_marker(data, pos) <= data.len() && after_fill(data, pos)
            <= data.len(),
        next_marker(data, pos) < data.len() ==> data[next_marker(data, pos)] == 0xff,
        after_fill(data, pos) < data.len() ==> data[after_fill(data, pos)] != 0xff,
    decreases data.len() - pos,
{
    if pos < data.len() {
        lemma_skips(data, pos + 1);
    }
}

/// Checks the framing of a JPEG and returns its length without trailing padding.
pub fn validate(data: &[u8]) -> (out: Result<usize, Error>)
    ensures
        match framed(data@) {
            Ok(end) => out is Ok && out->Ok_0 == end && end <= data@.len(),
            Err(fault) => out is Err && out->Err_0@ == fault,
        },
{
    if data.len() < 2 || data[0] != 0xff || data[1] != 0xd8 {
        return Err(Error::Invalid("JPEG SOI missing"));
    }
    let mut pos: usize = 2;
    let mut frame = false;
    let mut scan = false;
    let mut entropy = false;
    while pos < data.len()
        invariant
            pos <= data.len(),
            data.len() == data@.len(),
            framed(data@) == framed_from(data@, pos as int, frame, scan, entropy),
        decreases data.len() - pos,
    {
        let ghost begin = pos as int;
        if entropy {
            while pos < data.len() && data[pos] != 0xff
                invariant
                    begin <= pos <= data.len(),
                    data.len() == data@.len(),
                    next_marker(data@, begin) == next_marker(data@, pos as int),
                decreases data.len() - pos,
            {
                pos += 1;
            }
        }
        if pos >= data.len() || data[pos] != 0xff {
            return Err(Error::Invalid("JPEG marker missing"));
        }
        let ghost start = pos as int;
        while pos < data.len() && data[pos] == 0xff
            invariant
                start <= pos <= data.len(),
                data.len() == data@.len(),
                after_fill(data@, start) == after_fill(data@, pos as int),
            decreases data.len() - pos,
        {
            pos += 1;
        }
        if pos >= data.len() {
            return Err(Error::Invalid("truncated JPEG marker"));
        }
        let marker: u8 = data[pos];
        pos += 1;
        if entropy && (marker == 0 || 0xd0 <= marker && marker <= 0xd7) {
            continue;
        }
        entropy = false;
        if marker == 0xd9 {
            if !frame || !scan {
                return Err(Error::Invalid("JPEG lacks frame or scan"));
            }
            let mut rest: usize = pos;
            while rest < data.len()
                invariant
                    pos <= rest <= data.len(),
                    data.len() == data@.len(),
                    framed(data@) == (if padding(data@, pos as int) {
                        Ok::<int, Fault>(pos as int)
                    } else {
                        Err::<int, Fault>(Fault::Invalid("non-padding bytes after JPEG EOI"@))
                    }),
                    forall|i: int| pos <= i < rest ==> data@[i] == 0 || data@[i] == 0xff,
                decreases data.len() - rest,
            {
                if data[rest] != 0 && data[rest] != 0xff {
                    return Err(Error::Invalid("non-padding bytes after JPEG EOI"));
                }
                rest += 1;
            }
            return Ok(pos);
        }
        if marker == 0x01 {
            continue;
        }
        if marker == 0 || 0xd0 <= marker && marker <= 0xd8 {
            return Err(Error::Invalid("unexpected standalone JPEG marker"));
        }
        if data.len() - pos < 2 {
            return Err(Error::Invalid("short JPEG segment"));
        }
        let length: usize = read_be16(data, pos) as usize;
        if length < 2 {
            return Err(Error::Invalid("invalid JPEG segment length"));
        }
        if data.len() - pos < length {
            return Err(Error::Invalid("JPEG segment outside preview"));
        }
        let end: usize = pos + length;
        let payload = vstd::slice::slice_subrange(data, pos + 2, end);
        if is_sof(marker) {
            if marker > 0xc2 {
                return Err(Error::Invalid("unsupported JPEG frame type"));
            }
            match dimensions(payload) {
                Ok(_) => {},
                Err(error) => {
                    return Err(error);
                },
            }
            frame = true;
        }
        if marker == 0xda {
            let n: usize = if payload.len() > 0 {
                payload[0] as usize
            } else {
                0
            };
            if !frame || n == 0 || n > 4 || payload.len() != 4 + n * 2 {
                return Err(Error::Invalid("invalid JPEG scan header"));
            }
            scan = true;
            entropy = true;
        }
        pos = end;
    }
    Err(Error::Invalid("JPEG EOI missing"))
}

/// Skipping inside a prefix agrees with skipping in the whole.
proof fn lemma_skips_in_prefix(data: Seq<u8>, n: int, pos: int)
    requires
        0 <= pos <= n <= data.len(),
    ensures
        next_marker(data, pos) < n ==> next_marker(data.take(n), pos) == next_marker(data, pos),
        next_marker(data.take(n), pos) < n ==> next_marker(data, pos) == next_marker(
            data.take(n),
            pos,
        ),
        after_fill(data, pos) < n ==> after_fill(data.take(n), pos) == after_fill(data, pos),
        after_fill(data.take(n), pos) < n ==> after_fill(data, pos) == after_fill(
            data.take(n),
            pos,
        ),
    decreases n - pos,
{
    lemma_skips(data, pos);
    lemma_skips(data.take(n), pos);
    if pos < n {
        lemma_skips_in_prefix(data, n, pos + 1);
    }
}

/// A prefix that is framed ends where the whole ends, if the rest is padding.
proof fn lemma_prefix_frames_whole(
    data: Seq<u8>,
    n: int,
    pos: int,
    frame: bool,
    scan: bool,
    entropy: bool,
)
    requires
        0 <= pos <= n <= data.len(),
        framed_from(data.take(n), pos, frame, scan, entropy) is Ok,
    ensures
        ({
            let end = framed_from(data.take(n), pos, frame, scan, entropy)->Ok_0;
            &&& pos < end <= n
            &&& padding(data, end) ==> framed_from(data, pos, frame, scan, entropy) == Ok::<
                int,
                Fault,
            >(end)
            &&& !padding(data, end) ==> framed_from(data, pos, frame, scan, entropy) is Err
        }),
    decreases n - pos,
{
    let part = data.take(n);
    lemma_skips_in_prefix(data, n, pos);
    lemma_skips(part, pos);
    let start = if entropy {
        next_marker(part, pos)
    } else {
        pos
    };
    lemma_skips_in_prefix(data, n, start);
    lemma_skips(part, start);
    let at = after_fill(part, start);
    let marker = part[at];
    match after_marker(part, at + 1, marker, frame, scan, entropy) {
        Next::Go { pos: next, frame: f, scan: s, entropy: e } => {
            if next != at + 1 {
                assert(part.subrange(at + 3, next) =~= data.subrange(at + 3, next));
            }
            assert(after_marker(data, at + 1, marker, frame, scan, entropy) == after_marker(
                part,
                at + 1,
                marker,
                frame,
                scan,
                entropy,
            ));
            lemma_prefix_frames_whole(data, n, next, f, s, e);
        },
        _ => {},
    }
}

/// Cutting a framed JPEG anywhere behind its end keeps its framing.
proof fn lemma_whole_frames_prefix(
    data: Seq<u8>,
    n: int,
    pos: int,
    frame: bool,
    scan: bool,
    entropy: bool,
)
    requires
        0 <= pos <= data.len(),
        framed_from(data, pos, frame, scan, entropy) is Ok,
        framed_from(data, pos, frame, scan, entropy)->Ok_0 <= n <= data.len(),
    ensures
        pos < framed_from(data, pos, frame, scan, entropy)->Ok_0,
        framed_from(data.take(n), pos, frame, scan, entropy) == framed_from(
            data,
            pos,
            frame,
            scan,
            entropy,
        ),
    decreases data.len() - pos,
{
    let part = data.take(n);
    let end = framed_from(data, pos, frame, scan, entropy)->Ok_0;
    lemma_skips(data, pos);
    let start = if entropy {
        next_marker(data, pos)
    } else {
        pos
    };
    lemma_skips(data, start);
    let at = after_fill(data, start);
    let marker = data[at];
    match after_marker(data, at + 1, marker, frame, scan, entropy) {
        Next::Go { pos: next, frame: f, scan: s, entropy: e } => {
            lemma_whole_frames_prefix(data, n, next, f, s, e);
            lemma_skips_in_prefix(data, n, pos);
            lemma_skips_in_prefix(data, n, start);
            if next != at + 1 {
                assert(part.subrange(at + 3, next) =~= data.subrange(at + 3, next));
            }
            assert(after_marker(part, at + 1, marker, frame, scan, entropy) == after_marker(
                data,
                at + 1,
                marker,
                frame,
                scan,
                entropy,
            ));
        },
        _ => {
            lemma_skips_in_prefix(data, n, pos);
            lemma_skips_in_prefix(data, n, start);
        },
    }
}

/// The reported end lies inside the data.
proof fn lemma_end_is_inside(data: Seq<u8>)
    requires
        framed(data) is Ok,
    ensures
        2 < framed(data)->Ok_0 <= data.len(),
{
    assert(data.take(data.len() as int) =~= data);
    lemma_prefix_frames_whole(data, data.len() as int, 2, false, false, false);
}

/// Every truncation of a framed JPEG is rejected.
pub proof fn law_truncation_is_rejected(data: Seq<u8>, n: int)
    requires
        framed(data) is Ok,
        0 <= n < framed(data)->Ok_0,
    ensures
        framed(data.take(n)) is Err,
{
    lemma_end_is_inside(data);
    if n >= 2 && framed(data.take(n)) is Ok {
        lemma_prefix_frames_whole(data, n, 2, false, false, false);
    }
}

/// Padding behind a framed JPEG changes neither its acceptance nor its length.
pub proof fn law_padding_is_ignored(data: Seq<u8>, pad: Seq<u8>)
    requires
        framed(data) is Ok,
        padding(pad, 0),
    ensures
        framed(data + pad) == framed(data),
{
    let whole = data + pad;
    let end = framed(data)->Ok_0;
    assert(whole.take(data.len() as int) =~= data);
    lemma_prefix_frames_whole(whole, data.len() as int, 2, false, false, false);
    lemma_whole_frames_prefix(data, data.len() as int, 2, false, false, false);
    assert(data.take(data.len() as int) =~= data);
    assert(padding(data, end)) by {
        lemma_end_is_padded(data, 2, false, false, false);
    }
    assert forall|i: int| end <= i < whole.len() implies whole[i] == 0 || whole[i] == 0xff by {
        if i >= data.len() {
            assert(whole[i] == pad[i - data.len()]);
        }
    }
}

/// Nothing but padding follows the reported end.
proof fn lemma_end_is_padded(data: Seq<u8>, pos: int, frame: bool, scan: bool, entropy: bool)
    requires
        framed_from(data, pos, frame, scan, entropy) is Ok,
    ensures
        padding(data, framed_from(data, pos, frame, scan, entropy)->Ok_0),
    decreases data.len() - pos,
{
    lemma_skips(data, pos);
    let start = if entropy {
        next_marker(data, pos)
    } else {
        pos
    };
    lemma_skips(data, start);
    let at = after_fill(data, start);
    match after_marker(data, at + 1, data[at], frame, scan, entropy) {
        Next::Go { pos: next, frame: f, scan: s, entropy: e } => {
            lemma_end_is_padded(data, next, f, s, e);
        },
        _ => {},
    }
}

/// The trimmed JPEG is framed by itself, with the same length.
pub proof fn law_trimming_is_idempotent(data: Seq<u8>)
    requires
        framed(data) is Ok,
    ensures
        framed(data.take(framed(data)->Ok_0)) == framed(data),
{
    lemma_end_is_inside(data);
    lemma_whole_frames_prefix(data, framed(data)->Ok_0, 2, false, false, false);
}

} // verus!
