use fastcull::image::decoder::{
    accept_header, checked_layout, fill_reserved, jpeg_layout, prepare_buffer, reduced_layout, Backend,
    DecodedInfo, Decoder, Written, MAX_DIMENSION, MAX_PROGRESSIVE_SCANS,
};
use fastcull::memory::missing;
use zune_core::{bytestream::ZCursor, colorspace::ColorSpace, options::DecoderOptions};

/// Decodes an image as a program does.
fn decode(decoder: &mut Decoder, jpeg: &[u8]) -> Result<DecodedInfo, String> {
    let (info, mut memory) = decoder.begin(jpeg)?;
    let options = DecoderOptions::new_fast()
        .set_strict_mode(true)
        .set_max_width(MAX_DIMENSION)
        .set_max_height(MAX_DIMENSION)
        .jpeg_set_max_scans(MAX_PROGRESSIVE_SCANS)
        .jpeg_set_out_colorspace(ColorSpace::RGBA);
    let mut zune = zune_jpeg::JpegDecoder::new_with_options(ZCursor::new(jpeg), options);
    let written = match zune.decode_into(&mut memory[..info.bytes]) {
        Ok(()) => Written::Done,
        Err(error) => Written::Refused(error.to_string()),
    };
    decoder.decode(info, memory, written)
}

fn jpeg_header(width: u16, height: u16) -> Vec<u8> {
    let mut data = vec![0xff, 0xd8, 0xff, 0xc0, 0, 11, 8];
    data.extend_from_slice(&height.to_be_bytes());
    data.extend_from_slice(&width.to_be_bytes());
    data.extend_from_slice(&[1, 1, 0x11, 0, 0xff, 0xda, 0, 8, 1, 1, 0, 0, 63, 0]);
    data
}

#[test]
fn validates_allocation_before_decode() {
    let info = jpeg_layout(&jpeg_header(7008, 4672)).unwrap();
    assert_eq!(
        (info.width, info.height, info.bytes),
        (7008, 4672, 130_965_504)
    );
    assert!(jpeg_layout(&jpeg_header(16_384, 16_384)).is_err());
    assert!(jpeg_layout(&jpeg_header(0, 100)).is_err());
    assert!(checked_layout(usize::MAX, usize::MAX).is_err());
}

#[test]
fn rejects_every_truncated_header() {
    let jpeg = jpeg_header(32, 16);
    for length in 0..jpeg.len() {
        assert!(jpeg_layout(&jpeg[..length]).is_err(), "length {length}");
    }
    assert!(jpeg_layout(&jpeg).is_ok());
}

#[test]
fn rejects_oversized_dimensions_and_segments() {
    assert!(jpeg_layout(&jpeg_header(65_535, 1)).is_err());
    assert!(jpeg_layout(&[0xff, 0xd8, 0xff, 0xe1, 0, 1]).is_err());
    assert!(jpeg_layout(&[0xff, 0xd8, 0xff, 0xe1, 0xff, 0xff]).is_err());
}

#[test]
fn available_backends_reject_corrupt_input_without_exposing_pixels() {
    assert!(!Backend::available().is_empty());
    for backend in Backend::available() {
        let mut decoder = Decoder::new(backend).unwrap();
        assert!(decode(&mut decoder, &jpeg_header(32, 16)).is_err());
        assert!(decoder.pixels().is_empty());
    }
}

/// A self-contained 8x8 gray JPEG: constant quantizer, DC zero, AC EOB.
/// This generated fixture contains no third-party photographic content.
fn neutral_jpeg() -> Vec<u8> {
    let mut data = vec![0xff, 0xd8, 0xff, 0xdb, 0, 67, 0];
    data.extend_from_slice(&[1; 64]);
    data.extend_from_slice(&[0xff, 0xc0, 0, 11, 8, 0, 8, 0, 8, 1, 1, 0x11, 0]);
    data.extend_from_slice(&[0xff, 0xc4, 0, 38]);
    for table in [0, 0x10] {
        data.extend_from_slice(&[table, 1]);
        data.extend_from_slice(&[0; 15]);
        data.push(0);
    }
    data.extend_from_slice(&[0xff, 0xda, 0, 8, 1, 1, 0, 0, 63, 0, 0x3f, 0xff, 0xd9]);
    data
}

#[test]
fn decodes_neutral_jpeg_and_reuses_output() {
    let jpeg = neutral_jpeg();
    for backend in Backend::available() {
        let mut decoder = Decoder::new(backend).unwrap();
        let info = decode(&mut decoder, &jpeg).unwrap();
        assert_eq!((info.width, info.height, info.bytes), (8, 8, 256));
        assert!(decoder
            .pixels()
            .chunks_exact(4)
            .all(|p| p == [128, 128, 128, 255]));
        let allocation = decoder.pixels().as_ptr();
        decode(&mut decoder, &jpeg).unwrap();
        assert_eq!(decoder.pixels().as_ptr(), allocation);
        assert!(decode(&mut decoder, &[]).is_err());
        assert!(decoder.pixels().is_empty());
        decode(&mut decoder, &jpeg).unwrap();
        assert_eq!(decoder.pixels().as_ptr(), allocation);
    }
}

#[test]
fn transfers_pixels_without_copy_and_can_decode_again() {
    let jpeg = neutral_jpeg();
    for backend in Backend::available() {
        let mut decoder = Decoder::new(backend).unwrap();
        decode(&mut decoder, &jpeg).unwrap();
        let allocation = decoder.pixels().as_ptr();
        let owned = decoder.take_pixels();
        assert_eq!(owned.as_ptr(), allocation);
        assert_eq!(owned.len(), 256);
        assert!(decoder.pixels().is_empty());
        assert!(decoder.take_pixels().is_empty());
        decode(&mut decoder, &jpeg).unwrap();
        assert_eq!(decoder.pixels(), owned);
        assert!(decode(&mut decoder, &[]).is_err());
        assert!(decoder.take_pixels().is_empty());
    }
}

#[test]
fn rejects_invalid_scales_and_zune_reduction() {
    for backend in [Backend::Turbo, Backend::Zune] {
        for denominator in [0, 3, 5, 7, 16, u32::MAX] {
            assert!(Decoder::with_scale(backend, denominator).is_err());
        }
    }
    for denominator in [2, 4, 8] {
        assert!(Decoder::with_scale(Backend::Zune, denominator).is_err());
    }
}

#[test]
fn backends_have_names() {
    for backend in [Backend::Turbo, Backend::Zune] {
        assert_eq!(Backend::parse(backend.name()), Ok(backend));
    }
    assert!(Backend::parse("libjpeg").is_err());
    assert_eq!(Decoder::new(Backend::Zune).unwrap().backend(), Backend::Zune);
}

#[test]
fn decoder_headers_must_agree_with_the_layout() {
    let info = DecodedInfo { width: 8, height: 8, bytes: 256 };
    assert_eq!(accept_header(info, (Some((8, 8)), Some(256), true)), Ok(info));
    assert!(accept_header(info, (Some((8, 9)), Some(256), true)).is_err());
    assert!(accept_header(info, (None, Some(256), true)).is_err());
    assert!(accept_header(info, (Some((8, 8)), Some(192), true)).is_err());
}

#[test]
fn reduction_rounds_up_and_keeps_within_the_original() {
    let original = checked_layout(7, 5).unwrap();
    for denominator in [1, 2, 4, 8] {
        let (width, height) = (7u32.div_ceil(denominator), 5u32.div_ceil(denominator));
        let reduced = reduced_layout(original, 7, 5, denominator).unwrap();
        assert_eq!((reduced.width, reduced.height), (width, height));
        assert_eq!(reduced.bytes, (width * height * 4) as usize);
        assert!(reduced_layout(original, 5, 7, denominator).is_err());
    }
}

#[test]
fn buffers_are_made_exactly_as_long_as_asked() {
    let mut pixels = vec![1, 2, 3];
    prepare_buffer(&mut pixels, 16).unwrap();
    assert_eq!(pixels.len(), 16);
}

#[test]
fn what_was_written_is_shown_and_nothing_after_a_failure() {
    let mut decoder = Decoder::new(Backend::Zune).unwrap();
    let (info, mut memory) = decoder.begin(&neutral_jpeg()).unwrap();
    assert_eq!((info.bytes, memory.len()), (256, 256));
    memory[7] = 9;
    let copy = memory.clone();
    assert_eq!(decoder.decode(info, memory, Written::Done), Ok(info));
    assert_eq!(decoder.pixels(), copy);
    let (info, memory) = decoder.begin(&neutral_jpeg()).unwrap();
    assert!(decoder.pixels().is_empty());
    assert_eq!(
        decoder.decode(info, memory, Written::Panicked),
        Err("JPEG decoder rejected malformed input with an internal panic".to_string())
    );
    assert!(decoder.pixels().is_empty());
    let (info, memory) = decoder.begin(&neutral_jpeg()).unwrap();
    assert_eq!(
        decoder.decode(info, memory, Written::Refused("bad".to_string())),
        Err("bad".to_string())
    );
    assert!(decoder.take_pixels().is_empty());
    assert!(decoder.begin(&[0xff, 0xd8]).is_err());
}

#[test]
fn a_buffer_follows_what_the_allocator_says() {
    let refused = || Err("memory allocation failed".to_string());
    let mut pixels = vec![1, 2, 3];
    assert_eq!(fill_reserved(&mut pixels, 3, refused()), Ok(()));
    assert_eq!(fill_reserved(&mut pixels, 2, Ok(())), Ok(()));
    assert_eq!(pixels, [1, 2, 3]);
    assert_eq!(
        fill_reserved(&mut pixels, 5, refused()),
        Err("unable to reserve JPEG output buffer: memory allocation failed".to_string())
    );
    assert_eq!(pixels, [1, 2, 3]);
    assert_eq!(fill_reserved(&mut pixels, 5, Ok(())), Ok(()));
    assert_eq!(pixels, [1, 2, 3, 0, 0]);
    assert_eq!((missing(3, 5), missing(5, 5), missing(6, 5)), (2, 0, 0));
    // More than any allocator has.
    assert!(prepare_buffer(&mut pixels, usize::MAX)
        .unwrap_err()
        .starts_with("unable to reserve JPEG output buffer: "));
    assert_eq!(pixels, [1, 2, 3, 0, 0]);
}
