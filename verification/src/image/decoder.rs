//! Bounded JPEG decoding into reusable RGBA memory.
use crate::arw::choice;
use crate::arw::jpeg;
use crate::memory;
use crate::text;
use vstd::prelude::*;

verus! {

/// Limits that hold whatever dimensions a container advertises.
pub const MAX_DIMENSION: usize = 16384;

pub const MAX_DECODED_BYTES: usize = 268435456;

pub const MAX_JPEG_BYTES: usize = 134217728;

pub const MAX_HEADER_BYTES: usize = 4194304;

pub const MAX_HEADER_MARKERS: usize = 1024;

pub const MAX_PROGRESSIVE_SCANS: usize = 100;

#[derive(Clone, Copy, Debug, PartialEq, Eq, Structural)]
pub enum Backend {
    Turbo,
    Zune,
}

/// The backend that a name stands for.
pub open spec fn named_backend(value: Seq<char>) -> Option<Backend> {
    if value == "turbo"@ || value == "turbojpeg"@ {
        Some(Backend::Turbo)
    } else if value == "zune"@ {
        Some(Backend::Zune)
    } else {
        None
    }
}

/// Whether two texts are equal.
pub fn same_text(a: &str, b: &str) -> (out: bool)
    ensures
        out == (a@ == b@),
{
    a.to_owned() == b.to_owned()
}

impl Backend {
    /// The name of the backend.
    pub open spec fn title(self) -> Seq<char> {
        match self {
            Backend::Turbo => "turbo"@,
            Backend::Zune => "zune"@,
        }
    }

    pub fn parse(value: &str) -> (out: Result<Self, String>)
        ensures
            match named_backend(value@) {
                Some(backend) => out == Ok::<Backend, String>(backend),
                None => out is Err && out->Err_0@ == "unknown JPEG backend "@ + text::quoted_text(
                    value@,
                ) + "; use turbo or zune"@,
            },
    {
        if same_text(value, "turbo") || same_text(value, "turbojpeg") {
            return Ok(Backend::Turbo);
        }
        if same_text(value, "zune") {
            return Ok(Backend::Zune);
        }
        let text = "unknown JPEG backend ".to_owned().concat(text::quoted(value).as_str());
        Err(text.concat("; use turbo or zune"))
    }

    pub fn name(self) -> (out: &'static str)
        ensures
            out@ == self.title(),
    {
        match self {
            Backend::Turbo => "turbo",
            Backend::Zune => "zune",
        }
    }

    /// The backends that this library itself decodes with.
    pub open spec fn linked() -> Seq<Backend> {
        seq![Backend::Zune]
    }

    pub fn available() -> (out: Vec<Self>)
        ensures
            out@ == Backend::linked(),
    {
        let out: Vec<Backend> = vec![Backend::Zune];
        assert(out@ =~= Backend::linked());
        out
    }
}

#[derive(Clone, Copy, Debug, PartialEq, Eq, Structural)]
pub struct DecodedInfo {
    pub width: u32,
    pub height: u32,
    /// Bytes of tightly packed, top-to-bottom RGBA8 pixels.
    pub bytes: usize,
}

/// The memory that an image of some dimensions takes.
pub open spec fn layout_of(width: int, height: int) -> Result<DecodedInfo, Seq<char>> {
    if width == 0 || height == 0 || width > MAX_DIMENSION || height > MAX_DIMENSION {
        Err(
            "JPEG dimensions "@ + text::decimal(width) + "x"@ + text::decimal(height)
                + " exceed supported limits"@,
        )
    } else if width * height * 4 > MAX_DECODED_BYTES {
        Err("JPEG RGBA output exceeds the 256 MiB limit"@)
    } else {
        Ok(
            DecodedInfo {
                width: width as u32,
                height: height as u32,
                bytes: (width * height * 4) as usize,
            },
        )
    }
}

pub fn checked_layout(width: usize, height: usize) -> (out: Result<DecodedInfo, String>)
    ensures
        text::same(out, layout_of(width as int, height as int)),
{
    if width == 0 || height == 0 || width > MAX_DIMENSION || height > MAX_DIMENSION {
        let mut text = "JPEG dimensions ".to_owned();
        text::append_number(&mut text, width as u64);
        text.append("x");
        text::append_number(&mut text, height as u64);
        text.append(" exceed supported limits");
        return Err(text);
    }
    assert(width * height <= 16384 * 16384) by (nonlinear_arith)
        requires
            width <= 16384,
            height <= 16384,
    ;
    let bytes: u64 = (width as u64 * height as u64) * 4;
    if bytes > MAX_DECODED_BYTES as u64 {
        return Err("JPEG RGBA output exceeds the 256 MiB limit".to_owned());
    }
    Ok(DecodedInfo { width: width as u32, height: height as u32, bytes: bytes as usize })
}

/// Sampling factors of every component are between one and four.
pub open spec fn sampled(segment: Seq<u8>) -> bool {
    forall|i: int|
        #![trigger segment[6 + 3 * i + 1]]
        0 <= i < segment[5] ==> 1 <= segment[6 + 3 * i + 1] / 16 <= 4 && 1 <= segment[6 + 3 * i
            + 1] % 16 <= 4
}

/// What a frame header declares.
pub open spec fn frame_layout(segment: Seq<u8>) -> Result<DecodedInfo, Seq<char>> {
    if segment.len() < 6 || segment[0] != 8 {
        Err("only 8-bit embedded JPEG previews are supported"@)
    } else if !(segment[5] == 1 || segment[5] == 3) || segment.len() != 6 + 3 * segment[5] {
        Err("unsupported JPEG component layout"@)
    } else if !sampled(segment) {
        Err("invalid JPEG component sampling"@)
    } else {
        layout_of(jpeg::be16(segment, 3), jpeg::be16(segment, 1))
    }
}

/// The end of the fill bytes at `offset`, as far as a header may reach.
pub open spec fn fill_end(data: Seq<u8>, offset: int) -> int
    decreases data.len() - offset,
{
    if offset >= MAX_HEADER_BYTES || offset >= data.len() || data[offset] != 0xff {
        offset
    } else {
        fill_end(data, offset + 1)
    }
}

/// The layout that the header from `offset` on declares, in at most `n` markers.
pub open spec fn header_layout(
    data: Seq<u8>,
    offset: int,
    n: int,
    layout: Option<DecodedInfo>,
) -> Result<DecodedInfo, Seq<char>>
    decreases n,
{
    if n <= 0 {
        Err("JPEG header marker limit exceeded"@)
    } else if offset >= MAX_HEADER_BYTES || offset >= data.len() || data[offset] != 0xff {
        Err("invalid or oversized JPEG header"@)
    } else {
        let at = fill_end(data, offset);
        if at >= MAX_HEADER_BYTES {
            Err("oversized JPEG header"@)
        } else if at >= data.len() {
            Err("truncated JPEG marker"@)
        } else {
            let marker = data[at];
            let start = at + 1;
            if marker == 0 || marker == 1 || 0xd0 <= marker <= 0xd9 {
                Err("unexpected standalone JPEG marker in header"@)
            } else if start + 2 > data.len() {
                Err("truncated JPEG length"@)
            } else {
                let end = start + jpeg::be16(data, start);
                let segment = data.subrange(start + 2, end);
                if jpeg::be16(data, start) < 2 || end > MAX_HEADER_BYTES {
                    Err("invalid or oversized JPEG segment"@)
                } else if end > data.len() {
                    Err("truncated JPEG segment"@)
                } else if jpeg::frame_marker(marker) {
                    if marker > 0xc2 || layout is Some {
                        Err("unsupported JPEG coding process or multiple frames"@)
                    } else {
                        match frame_layout(segment) {
                            Err(error) => Err(error),
                            Ok(info) => header_layout(data, end, n - 1, Some(info)),
                        }
                    }
                } else if marker == 0xda {
                    match layout {
                        Some(info) => Ok(info),
                        None => Err("JPEG scan precedes its frame header"@),
                    }
                } else {
                    header_layout(data, end, n - 1, layout)
                }
            }
        }
    }
}

/// The layout that a JPEG declares.
pub open spec fn declared_layout(data: Seq<u8>) -> Result<DecodedInfo, Seq<char>> {
    if data.len() > MAX_JPEG_BYTES {
        Err("compressed JPEG exceeds the 128 MiB limit"@)
    } else if data.len() < 2 || data[0] != 0xff || data[1] != 0xd8 {
        Err("missing JPEG start marker"@)
    } else {
        header_layout(data, 2, MAX_HEADER_MARKERS as int, None)
    }
}

/// What a frame header declares.
fn read_frame(segment: &[u8]) -> (out: Result<DecodedInfo, String>)
    ensures
        text::same(out, frame_layout(segment@)),
{
    if segment.len() < 6 || segment[0] != 8 {
        return Err("only 8-bit embedded JPEG previews are supported".to_owned());
    }
    let components: usize = segment[5] as usize;
    if !(components == 1 || components == 3) || segment.len() != 6 + 3 * components {
        return Err("unsupported JPEG component layout".to_owned());
    }
    let mut i: usize = 0;
    while i < components
        invariant
            i <= components <= 3,
            components == segment@[5],
            segment@.len() == 6 + 3 * components,
            segment@[0] == 8,
            components == 1 || components == 3,
            forall|k: int|
                #![trigger segment@[6 + 3 * k + 1]]
                0 <= k < i ==> 1 <= segment@[6 + 3 * k + 1] / 16 <= 4 && 1 <= segment@[6 + 3 * k
                    + 1] % 16 <= 4,
        decreases components - i,
    {
        let sampling: u8 = segment[6 + 3 * i + 1];
        if sampling / 16 < 1 || sampling / 16 > 4 || sampling % 16 < 1 || sampling % 16 > 4 {
            assert(!sampled(segment@)) by {
                assert(segment@[6 + 3 * (i as int) + 1] == sampling);
            }
            return Err("invalid JPEG component sampling".to_owned());
        }
        i += 1;
    }
    checked_layout(
        jpeg::read_be16(segment, 3) as usize,
        jpeg::read_be16(segment, 1) as usize,
    )
}

/// Checks the fields of a JPEG that decide how much memory it takes, before any
/// decoder sees it. Application segments are skipped by their lengths, and
/// entropy-coded data is never scanned.
pub fn jpeg_layout(data: &[u8]) -> (out: Result<DecodedInfo, String>)
    ensures
        text::same(out, declared_layout(data@)),
{
    if data.len() > MAX_JPEG_BYTES {
        return Err("compressed JPEG exceeds the 128 MiB limit".to_owned());
    }
    if data.len() < 2 || data[0] != 0xff || data[1] != 0xd8 {
        return Err("missing JPEG start marker".to_owned());
    }
    let mut offset: usize = 2;
    let mut layout: Option<DecodedInfo> = None;
    let mut left: usize = MAX_HEADER_MARKERS;
    while left > 0
        invariant
            offset <= data@.len() <= MAX_JPEG_BYTES,
            declared_layout(data@) == header_layout(data@, offset as int, left as int, layout),
        decreases left,
    {
        if offset >= MAX_HEADER_BYTES || offset >= data.len() || data[offset] != 0xff {
            return Err("invalid or oversized JPEG header".to_owned());
        }
        let ghost begin = offset as int;
        while offset < MAX_HEADER_BYTES && offset < data.len() && data[offset] == 0xff
            invariant
                begin <= offset <= data@.len() <= MAX_JPEG_BYTES,
                fill_end(data@, begin) == fill_end(data@, offset as int),
            decreases data@.len() - offset,
        {
            offset += 1;
        }
        if offset >= MAX_HEADER_BYTES {
            return Err("oversized JPEG header".to_owned());
        }
        if offset >= data.len() {
            return Err("truncated JPEG marker".to_owned());
        }
        let marker: u8 = data[offset];
        offset += 1;
        if marker == 0 || marker == 1 || 0xd0 <= marker && marker <= 0xd9 {
            return Err("unexpected standalone JPEG marker in header".to_owned());
        }
        if data.len() - offset < 2 {
            return Err("truncated JPEG length".to_owned());
        }
        let length: usize = jpeg::read_be16(data, offset) as usize;
        let end: usize = offset + length;
        if length < 2 || end > MAX_HEADER_BYTES {
            return Err("invalid or oversized JPEG segment".to_owned());
        }
        if end > data.len() {
            return Err("truncated JPEG segment".to_owned());
        }
        if jpeg::is_sof(marker) {
            if marker > 0xc2 || layout.is_some() {
                return Err("unsupported JPEG coding process or multiple frames".to_owned());
            }
            match read_frame(vstd::slice::slice_subrange(data, offset + 2, end)) {
                Ok(info) => {
                    layout = Some(info);
                },
                Err(error) => {
                    return Err(error);
                },
            }
        } else if marker == 0xda {
            return match layout {
                Some(info) => Ok(info),
                None => Err("JPEG scan precedes its frame header".to_owned()),
            };
        }
        offset = end;
        left -= 1;
    }
    Err("JPEG header marker limit exceeded".to_owned())
}

proof fn lemma_fill_end(data: Seq<u8>, n: int, offset: int)
    requires
        0 <= offset <= n <= data.len(),
        fill_end(data.take(n), offset) < n,
    ensures
        fill_end(data, offset) == fill_end(data.take(n), offset),
        offset <= fill_end(data, offset),
    decreases n - offset,
{
    if offset < n && offset < MAX_HEADER_BYTES && data[offset] == 0xff {
        lemma_fill_end(data, n, offset + 1);
    }
}

proof fn lemma_header_layout(
    data: Seq<u8>,
    n: int,
    offset: int,
    left: int,
    layout: Option<DecodedInfo>,
)
    requires
        0 <= offset <= n <= data.len(),
        header_layout(data.take(n), offset, left, layout) is Ok,
    ensures
        header_layout(data, offset, left, layout) == header_layout(
            data.take(n),
            offset,
            left,
            layout,
        ),
    decreases left,
{
    let part = data.take(n);
    let at = fill_end(part, offset);
    lemma_fill_end(data, n, offset);
    let marker = part[at];
    let start = at + 1;
    let end = start + jpeg::be16(part, start);
    assert(part.subrange(start + 2, end) =~= data.subrange(start + 2, end));
    if jpeg::frame_marker(marker) {
        match frame_layout(part.subrange(start + 2, end)) {
            Ok(info) => lemma_header_layout(data, n, end, left - 1, Some(info)),
            Err(_) => {},
        }
    } else if marker != 0xda {
        lemma_header_layout(data, n, end, left - 1, layout);
    }
}

/// The layout depends on the header alone: whatever follows a header that was
/// accepted, the layout is the same. So a header that is cut short is accepted
/// only with the layout of the whole.
pub proof fn law_layout_depends_on_the_header(data: Seq<u8>, n: int)
    requires
        0 <= n <= data.len() <= MAX_JPEG_BYTES,
        declared_layout(data.take(n)) is Ok,
    ensures
        declared_layout(data) == declared_layout(data.take(n)),
{
    lemma_header_layout(data, n, 2, MAX_HEADER_MARKERS as int, None);
}

/// An accepted layout is positive, bounded and tightly packed.
pub open spec fn packed(info: DecodedInfo) -> bool {
    &&& 0 < info.width <= MAX_DIMENSION
    &&& 0 < info.height <= MAX_DIMENSION
    &&& info.bytes == info.width * info.height * 4
    &&& 0 < info.bytes <= MAX_DECODED_BYTES
}

proof fn lemma_layout_of(width: int, height: int)
    requires
        0 <= width,
        0 <= height,
    ensures
        layout_of(width, height) matches Ok(info) ==> packed(info),
{
    if layout_of(width, height) is Ok {
        assert(width * height * 4 > 0) by (nonlinear_arith)
            requires
                width > 0,
                height > 0,
        ;
    }
}

proof fn lemma_packed(data: Seq<u8>, offset: int, left: int, layout: Option<DecodedInfo>)
    requires
        layout matches Some(info) ==> packed(info),
    ensures
        header_layout(data, offset, left, layout) matches Ok(info) ==> packed(info),
    decreases left,
{
    if left > 0 && offset < MAX_HEADER_BYTES && offset < data.len() && data[offset] == 0xff {
        let at = fill_end(data, offset);
        let marker = data[at];
        let start = at + 1;
        let end = start + jpeg::be16(data, start);
        let segment = data.subrange(start + 2, end);
        lemma_layout_of(jpeg::be16(segment, 3), jpeg::be16(segment, 1));
        if jpeg::frame_marker(marker) {
            match frame_layout(segment) {
                Ok(info) => lemma_packed(data, end, left - 1, Some(info)),
                Err(_) => {},
            }
        } else {
            lemma_packed(data, end, left - 1, layout);
        }
    }
}

/// No accepted header makes a decoder allocate more than the limit.
pub proof fn law_layout_is_bounded(data: Seq<u8>)
    ensures
        declared_layout(data) matches Ok(info) ==> packed(info),
{
    lemma_packed(data, 2, MAX_HEADER_MARKERS as int, None);
}

/// What the pure-Rust decoder reads in a JPEG header: its dimensions, the bytes
/// of its output, and whether that is RGBA; or why it refuses the header.
pub uninterp spec fn zune_header(
    data: Seq<u8>,
    max_width: usize,
    max_height: usize,
    max_scans: usize,
) -> Result<(Option<(usize, usize)>, Option<usize>, bool), Seq<char>>;

/// Calls `zune_jpeg::JpegDecoder::decode_headers` in strict mode and with RGBA
/// output, and reads `dimensions`, `output_buffer_size` and `output_colorspace`.
/// Which headers it refuses, and the dimensions that it reads, are left to the
/// crate. Once it has accepted a header, the dimensions are known, and the output is
/// RGBA of four bytes a pixel. It counts the bytes between two markers in an `i32`,
/// so that the length of the data is bounded.
#[verifier::external_body]
fn read_zune_header(data: &[u8], max_width: usize, max_height: usize, max_scans: usize) -> (out:
    Result<(Option<(usize, usize)>, Option<usize>, bool), String>)
    requires
        data@.len() <= MAX_JPEG_BYTES,
    ensures
        text::same(out, zune_header(data@, max_width, max_height, max_scans)),
        out matches Ok((dimensions, bytes, rgba)) ==> {
            &&& rgba
            &&& dimensions matches Some((width, height)) && bytes == if width * height * 4
                <= usize::MAX {
                Some((width * height * 4) as usize)
            } else {
                None
            }
        },
{
    let options = zune_core::options::DecoderOptions::new_fast()
        .set_strict_mode(true)
        .set_max_width(max_width)
        .set_max_height(max_height)
        .jpeg_set_max_scans(max_scans)
        .jpeg_set_out_colorspace(zune_core::colorspace::ColorSpace::RGBA);
    let source = zune_core::bytestream::ZCursor::new(data);
    let mut decoder = zune_jpeg::JpegDecoder::new_with_options(source, options);
    decoder.decode_headers().map_err(|e| e.to_string())?;
    let rgba = decoder.output_colorspace() == Some(zune_core::colorspace::ColorSpace::RGBA);
    Ok((decoder.dimensions(), decoder.output_buffer_size(), rgba))
}

/// What became of the pixels of a JPEG.
#[derive(Debug)]
pub enum Written {
    /// All of them were written.
    Done,
    /// The JPEG was refused, for a reason.
    Refused(String),
    /// The decoder panicked, as it may on malformed data.
    Panicked,
}

/// Keep one decoder on each worker: its output memory is reused across files.
/// Pixels stay valid until the next image.
///
/// An image is decoded in three steps. `begin` checks it and hands out memory;
/// `zune_jpeg::JpegDecoder::decode_into` writes the pixels there, called where a
/// panic can be caught, since malformed data can make it panic; `decode` takes the
/// memory back, with what became of it.
#[derive(Debug)]
pub struct Decoder {
    backend: Backend,
    pixels: Vec<u8>,
    valid_bytes: usize,
    scaling_denominator: u32,
}

/// Why a decoder cannot be had, if it cannot.
pub open spec fn refusal(backend: Backend, denominator: u32) -> Option<Seq<char>> {
    if !(denominator == 1 || denominator == 2 || denominator == 4 || denominator == 8) {
        Some("JPEG scale denominator must be 1, 2, 4, or 8"@)
    } else if backend == Backend::Zune && denominator != 1 {
        Some("zune backend does not support native reduced-size JPEG decoding"@)
    } else if !Backend::linked().contains(backend) {
        Some(
            "JPEG backend "@ + backend.title() + " is disabled; rebuild with --features "@
                + backend.title(),
        )
    } else {
        None
    }
}

/// What happens to a JPEG before its pixels are decoded: the layout of the
/// output, or why there is none.
pub open spec fn accepted(
    data: Seq<u8>,
    header: Result<(Option<(usize, usize)>, Option<usize>, bool), Seq<char>>,
) -> Result<DecodedInfo, Seq<char>> {
    match declared_layout(data) {
        Err(error) => Err(error),
        Ok(info) => match header {
            Err(error) => Err(error),
            Ok((dimensions, bytes, rgba)) => if dimensions == Some(
                (info.width as usize, info.height as usize),
            ) && bytes == Some(info.bytes) && rgba {
                Ok(info)
            } else {
                Err("JPEG decoder cannot produce the bounded RGBA layout"@)
            },
        },
    }
}

/// Compares a decoder's reading of a header with the layout that was checked.
pub fn accept_header(
    info: DecodedInfo,
    header: (Option<(usize, usize)>, Option<usize>, bool),
) -> (out: Result<DecodedInfo, String>)
    ensures
        header.0 == Some((info.width as usize, info.height as usize)) && header.1 == Some(
            info.bytes,
        ) && header.2 ==> out == Ok::<DecodedInfo, String>(info),
        !(header.0 == Some((info.width as usize, info.height as usize)) && header.1 == Some(
            info.bytes,
        ) && header.2) ==> out is Err && out->Err_0@
            == "JPEG decoder cannot produce the bounded RGBA layout"@,
{
    let (dimensions, bytes, rgba) = header;
    let same_dimensions = match dimensions {
        Some((width, height)) => width == info.width as usize && height == info.height as usize,
        None => false,
    };
    let same_bytes = match bytes {
        Some(bytes) => bytes == info.bytes,
        None => false,
    };
    if same_dimensions && same_bytes && rgba {
        Ok(info)
    } else {
        Err("JPEG decoder cannot produce the bounded RGBA layout".to_owned())
    }
}

/// Bytes, followed by zeros up to `bytes` of them.
pub open spec fn padded(held: Seq<u8>, bytes: int) -> Seq<u8> {
    if held.len() < bytes {
        held + Seq::new((bytes - held.len()) as nat, |i: int| 0u8)
    } else {
        held
    }
}

/// Why there is no room, in the words of the allocator.
pub open spec fn unreserved(words: Seq<char>) -> Seq<char> {
    "unable to reserve JPEG output buffer: "@ + words
}

/// Fills a buffer that is too short with zeros up to `bytes` bytes, once memory
/// for them was reserved or refused. What was there stays.
pub fn fill_reserved(pixels: &mut Vec<u8>, bytes: usize, reserved: Result<(), String>) -> (out:
    Result<(), String>)
    ensures
        old(pixels)@.len() >= bytes ==> out is Ok && final(pixels)@ == old(pixels)@,
        old(pixels)@.len() < bytes ==> match reserved {
            Ok(()) => out is Ok && final(pixels)@ == padded(old(pixels)@, bytes as int),
            Err(words) => out is Err && out->Err_0@ == unreserved(words@) && final(pixels)@ == old(
                pixels,
            )@,
        },
{
    if pixels.len() >= bytes {
        return Ok(());
    }
    match reserved {
        Ok(()) => {
            let ghost before = pixels@;
            pixels.resize(bytes, 0);
            assert(pixels@ =~= padded(before, bytes as int));
            Ok(())
        },
        Err(words) => {
            let text = "unable to reserve JPEG output buffer: ".to_owned();
            Err(text.concat(words.as_str()))
        },
    }
}

/// Makes room for `bytes` bytes without shrinking. What was there stays. The
/// allocator is asked for what is missing, and only if something is; `fill_reserved`
/// does what its answer asks for.
pub fn prepare_buffer(pixels: &mut Vec<u8>, bytes: usize) -> (out: Result<(), String>)
    ensures
        old(pixels)@.len() >= bytes ==> out is Ok && final(pixels)@ == old(pixels)@,
        old(pixels)@.len() < bytes ==> match out {
            Ok(()) => final(pixels)@ == padded(old(pixels)@, bytes as int),
            Err(error) => final(pixels)@ == old(pixels)@ && exists|words: Seq<char>|
                error@ == #[trigger] unreserved(words),
        },
{
    let lacking: usize = memory::missing(pixels.len(), bytes);
    let reserved: Result<(), String> = if lacking > 0 {
        memory::reserve_exact(pixels, lacking)
    } else {
        Ok(())
    };
    fill_reserved(pixels, bytes, reserved)
}

impl Decoder {
    /// The pixels of the last image, none unless it was decoded.
    pub closed spec fn shown(&self) -> Seq<u8> {
        self.pixels@.take(self.valid_bytes as int)
    }

    pub closed spec fn kind(&self) -> Backend {
        self.backend
    }

    pub closed spec fn denominator(&self) -> u32 {
        self.scaling_denominator
    }

    /// Bytes of output memory at hand.
    pub closed spec fn room(&self) -> nat {
        self.pixels@.len()
    }

    #[verifier::type_invariant]
    spec fn inv(&self) -> bool {
        &&& self.valid_bytes <= self.pixels@.len()
        &&& self.backend == Backend::Zune
    }

    pub fn new(backend: Backend) -> (out: Result<Self, String>)
        ensures
            match refusal(backend, 1) {
                Some(reason) => out is Err && out->Err_0@ == reason,
                None => out is Ok && out->Ok_0.kind() == backend && out->Ok_0.denominator() == 1
                    && out->Ok_0.shown().len() == 0,
            },
    {
        Decoder::with_scale(backend, 1)
    }

    /// A decoder that gives an image at one part in `denominator` of its size.
    pub fn with_scale(backend: Backend, denominator: u32) -> (out: Result<Self, String>)
        ensures
            match refusal(backend, denominator) {
                Some(reason) => out is Err && out->Err_0@ == reason,
                None => out is Ok && out->Ok_0.kind() == backend && out->Ok_0.denominator()
                    == denominator && out->Ok_0.shown().len() == 0,
            },
    {
        if !(denominator == 1 || denominator == 2 || denominator == 4 || denominator == 8) {
            return Err("JPEG scale denominator must be 1, 2, 4, or 8".to_owned());
        }
        let zune = match backend {
            Backend::Zune => true,
            Backend::Turbo => false,
        };
        if zune && denominator != 1 {
            return Err(
                "zune backend does not support native reduced-size JPEG decoding".to_owned(),
            );
        }
        proof {
            assert(Backend::linked()[0] == Backend::Zune);
        }
        if !zune {
            let text = "JPEG backend ".to_owned().concat(backend.name());
            let text = text.concat(" is disabled; rebuild with --features ");
            return Err(text.concat(backend.name()));
        }
        Ok(
            Decoder {
                backend,
                pixels: Vec::new(),
                valid_bytes: 0,
                scaling_denominator: denominator,
            },
        )
    }

    pub fn backend(&self) -> (out: Backend)
        ensures
            out == self.kind(),
    {
        self.backend
    }

    pub fn pixels(&self) -> (out: &[u8])
        ensures
            out@ == self.shown(),
    {
        proof {
            use_type_invariant(self);
        }
        let out = vstd::slice::slice_subrange(self.pixels.as_slice(), 0, self.valid_bytes);
        assert(out@ =~= self.shown());
        out
    }

    /// Hands the decoded pixels over. A failed or absent decode gives none, and
    /// the next decode works on fresh memory.
    pub fn take_pixels(&mut self) -> (out: Vec<u8>)
        ensures
            out@ == old(self).shown(),
            final(self).shown().len() == 0,
            final(self).room() == 0,
            final(self).kind() == old(self).kind(),
            final(self).denominator() == old(self).denominator(),
    {
        proof {
            use_type_invariant(&*self);
        }
        let valid: usize = self.valid_bytes;
        self.valid_bytes = 0;
        let mut pixels: Vec<u8> = Vec::new();
        std::mem::swap(&mut pixels, &mut self.pixels);
        pixels.truncate(valid);
        assert(pixels@ =~= old(self).shown());
        pixels
    }

    /// Begins to decode a JPEG: checks it, and hands out memory for its pixels,
    /// which is no less than after the last image. From now on no pixels are
    /// shown.
    pub fn begin(&mut self, data: &[u8]) -> (out: Result<(DecodedInfo, Vec<u8>), String>)
        ensures
            final(self).kind() == old(self).kind(),
            final(self).denominator() == old(self).denominator(),
            final(self).shown().len() == 0,
            ({
                let want = accepted(
                    data@,
                    zune_header(
                        data@,
                        MAX_DIMENSION,
                        MAX_DIMENSION,
                        MAX_PROGRESSIVE_SCANS,
                    ),
                );
                match want {
                    Err(reason) => out is Err && out->Err_0@ == reason && final(self).room()
                        == old(self).room(),
                    Ok(info) => match out {
                        Ok((got, memory)) => {
                            &&& got == info
                            &&& packed(info)
                            &&& memory@.len() == if old(self).room() < info.bytes {
                                info.bytes as nat
                            } else {
                                old(self).room()
                            }
                            &&& final(self).room() == 0
                        },
                        // Only memory can be missing.
                        Err(error) => {
                            &&& old(self).room() < info.bytes
                            &&& exists|words: Seq<char>| error@ == #[trigger] unreserved(words)
                            &&& final(self).room() == old(self).room()
                        },
                    },
                }
            }),
    {
        proof {
            use_type_invariant(&*self);
            law_layout_is_bounded(data@);
        }
        self.valid_bytes = 0;
        assert(self.shown() =~= Seq::<u8>::empty());
        let info: DecodedInfo = match jpeg_layout(data) {
            Ok(info) => info,
            Err(error) => {
                return Err(error);
            },
        };
        let header = match read_zune_header(
            data,
            MAX_DIMENSION,
            MAX_DIMENSION,
            MAX_PROGRESSIVE_SCANS,
        ) {
            Ok(header) => header,
            Err(error) => {
                return Err(error);
            },
        };
        match accept_header(info, header) {
            Ok(_) => {},
            Err(error) => {
                return Err(error);
            },
        }
        let mut pixels: Vec<u8> = Vec::new();
        std::mem::swap(&mut pixels, &mut self.pixels);
        match prepare_buffer(&mut pixels, info.bytes) {
            Ok(()) => {
                assert(self.shown() =~= Seq::<u8>::empty());
                Ok((info, pixels))
            },
            Err(error) => {
                std::mem::swap(&mut pixels, &mut self.pixels);
                assert(self.shown() =~= Seq::<u8>::empty());
                Err(error)
            },
        }
    }

    /// Ends to decode a JPEG: takes the memory back, and shows the pixels that were
    /// written there. A failed decode shows no pixels, not even part of them.
    pub fn decode(&mut self, info: DecodedInfo, pixels: Vec<u8>, written: Written) -> (out: Result<
        DecodedInfo,
        String,
    >)
        requires
            info.bytes <= pixels@.len(),
        ensures
            final(self).kind() == old(self).kind(),
            final(self).denominator() == old(self).denominator(),
            final(self).room() == pixels@.len(),
            match written {
                Written::Done => out == Ok::<DecodedInfo, String>(info) && final(self).shown()
                    == pixels@.take(info.bytes as int),
                Written::Refused(error) => out == Err::<DecodedInfo, String>(error)
                    && final(self).shown().len() == 0,
                Written::Panicked => out is Err && out->Err_0@
                    == "JPEG decoder rejected malformed input with an internal panic"@
                    && final(self).shown().len() == 0,
            },
    {
        proof {
            use_type_invariant(&*self);
        }
        self.valid_bytes = 0;
        self.pixels = pixels;
        assert(self.shown() =~= Seq::<u8>::empty());
        match written {
            Written::Done => {
                self.valid_bytes = info.bytes;
                Ok(info)
            },
            Written::Refused(error) => Err(error),
            Written::Panicked => Err(
                "JPEG decoder rejected malformed input with an internal panic".to_owned(),
            ),
        }
    }
}

/// The dimensions of a reduced image, rounded up.
pub open spec fn reduced(n: int, denominator: int) -> int {
    (n + denominator - 1) / denominator
}

/// The layout of a reduced image, once a native decoder has read the same
/// dimensions in the header.
pub open spec fn reduced_layout_of(
    original: DecodedInfo,
    width: int,
    height: int,
    denominator: int,
) -> Result<DecodedInfo, Seq<char>> {
    if width != original.width || height != original.height {
        Err("JPEG dimensions changed between header readers"@)
    } else {
        layout_of(reduced(width, denominator), reduced(height, denominator))
    }
}

/// The layout that a native decoder may write at one part in `denominator` of
/// the size. The dimensions that it read must be those that were checked.
pub fn reduced_layout(original: DecodedInfo, width: usize, height: usize, denominator: u32) -> (out:
    Result<DecodedInfo, String>)
    requires
        denominator > 0,
    ensures
        text::same(
            out,
            reduced_layout_of(original, width as int, height as int, denominator as int),
        ),
{
    if width != original.width as usize || height != original.height as usize {
        return Err("JPEG dimensions changed between header readers".to_owned());
    }
    checked_layout(
        div_ceil(width as u32, denominator) as usize,
        div_ceil(height as u32, denominator) as usize,
    )
}

/// Division that rounds up.
pub fn div_ceil(n: u32, d: u32) -> (out: u32)
    requires
        d > 0,
    ensures
        out == reduced(n as int, d as int),
{
    let wide: u64 = (n as u64 + d as u64 - 1) / d as u64;
    assert((n + d - 1) / d as int <= n) by (nonlinear_arith)
        requires
            d > 0,
            n >= 0,
    ;
    wide as u32
}

/// Whether some bytes begin as a JPEG image does that is shown: segments that start at
/// `starts`, the frame at number `f`, of gray or colour pixels, and a scan last; in
/// less than four megabytes and no more than 1024 segments.
pub open spec fn headed(data: Seq<u8>, starts: Seq<int>, f: int, width: int, height: int) -> bool {
    let last = starts.len() - 1;
    &&& 2 <= data.len() <= 134217728
    &&& data[0] == 0xff && data[1] == 0xd8
    &&& 0 <= f < last < 1024
    &&& starts[0] == 2
    &&& choice::frame(data, starts[f], width, height)
    &&& data[starts[f] + 9] != 4
    &&& forall|i: int|
        0 <= i < data[starts[f] + 9] ==> 1 <= (#[trigger] data[starts[f] + 11 + 3 * i]) / 16 <= 4
            && 1 <= data[starts[f] + 11 + 3 * i] % 16 <= 4
    &&& choice::scan(data, starts[last])
    &&& forall|k: int| 0 <= k < last && k != f ==> choice::ordinary(data, #[trigger] starts[k])
    &&& forall|k: int|
        0 <= k <= last ==> {
            let after = #[trigger] starts[k] + 2 + choice::segment(data, starts[k]);
            &&& 2 <= starts[k]
            &&& after <= data.len()
            &&& after <= 4194304
        }
    &&& forall|k: int| 0 <= k < last ==> #[trigger] choice::adjacent(data, starts, k)
}

/// A segment in front of the scan is passed over.
proof fn lemma_header_step(data: Seq<u8>, at: int, n: int, layout: Option<DecodedInfo>)
    requires
        0 <= at,
        n > 0,
        choice::ordinary(data, at),
        at + 2 + choice::segment(data, at) <= data.len(),
        at + 2 + choice::segment(data, at) <= 4194304,
    ensures
        header_layout(data, at, n, layout) == header_layout(
            data,
            at + 2 + choice::segment(data, at),
            n - 1,
            layout,
        ),
{
    reveal_with_fuel(fill_end, 3);
    assert(fill_end(data, at) == at + 1);
    assert(jpeg::be16(data, at + 2) == choice::segment(data, at));
}

proof fn lemma_header_frame(data: Seq<u8>, at: int, n: int, width: int, height: int)
    requires
        0 <= at,
        n > 0,
        choice::frame(data, at, width, height),
        data[at + 9] != 4,
        forall|i: int|
            0 <= i < data[at + 9] ==> 1 <= (#[trigger] data[at + 11 + 3 * i]) / 16 <= 4 && 1
                <= data[at + 11 + 3 * i] % 16 <= 4,
        at + 2 + choice::segment(data, at) <= data.len(),
        at + 2 + choice::segment(data, at) <= 4194304,
        width <= 16384,
        height <= 16384,
        width * height * 4 <= 268435456,
    ensures
        header_layout(data, at, n, None) == header_layout(
            data,
            at + 2 + choice::segment(data, at),
            n - 1,
            Some(
                DecodedInfo {
                    width: width as u32,
                    height: height as u32,
                    bytes: (width * height * 4) as usize,
                },
            ),
        ),
{
    reveal_with_fuel(fill_end, 3);
    assert(fill_end(data, at) == at + 1);
    assert(jpeg::be16(data, at + 2) == choice::segment(data, at));
    let end = at + 2 + choice::segment(data, at);
    let segment = data.subrange(at + 4, end);
    assert(segment[0] == data[at + 4] && segment[1] == data[at + 5] && segment[2] == data[at + 6]
        && segment[3] == data[at + 7] && segment[4] == data[at + 8] && segment[5] == data[at + 9]);
    assert(sampled(segment)) by {
        assert forall|i: int|
            #![trigger segment[6 + 3 * i + 1]]
            0 <= i < segment[5] implies 1 <= segment[6 + 3 * i + 1] / 16 <= 4 && 1 <= segment[6 + 3
            * i + 1] % 16 <= 4 by {
            assert(segment[6 + 3 * i + 1] == data[at + 11 + 3 * i]);
        }
    }
    assert(frame_layout(segment) == layout_of(width, height));
}

proof fn lemma_header_scan(data: Seq<u8>, at: int, n: int, info: DecodedInfo)
    requires
        0 <= at,
        n > 0,
        choice::scan(data, at),
        at + 2 + choice::segment(data, at) <= data.len(),
        at + 2 + choice::segment(data, at) <= 4194304,
    ensures
        header_layout(data, at, n, Some(info)) == Ok::<DecodedInfo, Seq<char>>(info),
{
    reveal_with_fuel(fill_end, 3);
    assert(fill_end(data, at) == at + 1);
    assert(jpeg::be16(data, at + 2) == choice::segment(data, at));
}

proof fn lemma_header(
    data: Seq<u8>,
    starts: Seq<int>,
    f: int,
    width: int,
    height: int,
    k: int,
    n: int,
)
    requires
        headed(data, starts, f, width, height),
        width <= 16384,
        height <= 16384,
        width * height * 4 <= 268435456,
        0 <= k < starts.len(),
        n >= starts.len() - k,
    ensures
        ({
            let info = DecodedInfo {
                width: width as u32,
                height: height as u32,
                bytes: (width * height * 4) as usize,
            };
            header_layout(
                data,
                starts[k],
                n,
                if k > f {
                    Some(info)
                } else {
                    None
                },
            ) == Ok::<DecodedInfo, Seq<char>>(info)
        }),
    decreases starts.len() - k,
{
    let info = DecodedInfo {
        width: width as u32,
        height: height as u32,
        bytes: (width * height * 4) as usize,
    };
    let at = starts[k];
    assert(2 <= starts[k] && starts[k] + 2 + choice::segment(data, starts[k]) <= data.len());
    if k == starts.len() - 1 {
        lemma_header_scan(data, at, n, info);
    } else if k == f {
        assert(choice::adjacent(data, starts, k));
        lemma_header_frame(data, at, n, width, height);
        lemma_header(data, starts, f, width, height, k + 1, n - 1);
    } else {
        assert(choice::ordinary(data, starts[k]));
        assert(choice::adjacent(data, starts, k));
        lemma_header_step(
            data,
            at,
            n,
            if k > f {
                Some(info)
            } else {
                None
            },
        );
        lemma_header(data, starts, f, width, height, k + 1, n - 1);
    }
}

/// An image of no more than 16384 pixels either way, and of 256 megabytes decoded, has
/// the size that its frame gives, and takes four bytes a pixel.
pub proof fn law_layouts_are_those_of_the_frame(
    data: Seq<u8>,
    starts: Seq<int>,
    f: int,
    width: int,
    height: int,
)
    requires
        headed(data, starts, f, width, height),
        width <= 16384,
        height <= 16384,
        width * height * 4 <= 268435456,
    ensures
        ({
            let out = declared_layout(data);
            &&& out is Ok
            &&& (out->Ok_0).width == width
            &&& (out->Ok_0).height == height
            &&& (out->Ok_0).bytes == 4 * width * height
        }),
{
    lemma_header(data, starts, f, width, height, 0, 1024);
    assert(width * height * 4 == 4 * width * height) by (nonlinear_arith);
    assert(width * height * 4 >= 0) by (nonlinear_arith)
        requires
            width > 0,
            height > 0,
    ;
}

} // verus!
