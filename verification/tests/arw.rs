use fastcull::arw::jpeg::{dimensions, is_sof, validate};
use fastcull::arw::parser::lacking;
use fastcull::arw::tiff::{checked_range, Endian, Entry};
use fastcull::arw::{
    find_best_preview, EmbeddedPreview, Error, IoFailure, MemorySource, PreviewReader,
};

fn fixture(width: u16, height: u16) -> Vec<u8> {
    let mut jpeg = vec![0xff, 0xd8, 0xff, 0xc0, 0, 11, 8];
    jpeg.extend_from_slice(&height.to_be_bytes());
    jpeg.extend_from_slice(&width.to_be_bytes());
    jpeg.extend_from_slice(&[
        1, 1, 0x11, 0, 0xff, 0xda, 0, 8, 1, 1, 0, 0, 63, 0, 0x23, 0xff, 0, 0x45, 0xff, 0xd0, 0x67,
        0xff, 0xd9,
    ]);
    jpeg
}

#[test]
fn boundaries_stuffing_restarts_and_padding() {
    let mut jpeg = fixture(6000, 4000);
    let len = jpeg.len();
    assert_eq!(validate(&jpeg).unwrap(), len);
    jpeg.extend_from_slice(&[0, 0xff, 0]);
    assert_eq!(validate(&jpeg).unwrap(), len);
    jpeg.push(42);
    assert!(validate(&jpeg).is_err());
}

#[test]
fn rejects_every_truncation() {
    let jpeg = fixture(12, 8);
    for n in 0..jpeg.len() {
        assert!(validate(&jpeg[..n]).is_err(), "length {n}");
    }
}

#[test]
fn skips_fake_end_marker_inside_app_segment() {
    let jpeg = fixture(12, 8);
    let mut patched = vec![0xff, 0xd8, 0xff, 0xe1, 0, 4, 0xff, 0xd9];
    patched.extend_from_slice(&jpeg[2..]);
    assert_eq!(validate(&patched).unwrap(), patched.len());
    patched[4..6].copy_from_slice(&1u16.to_be_bytes());
    assert!(validate(&patched).is_err());
}

#[test]
fn framing_errors_name_what_is_wrong() {
    let reason = |data: &[u8]| match validate(data) {
        Err(Error::Invalid(reason)) => reason,
        other => panic!("{other:?}"),
    };
    assert_eq!(reason(&[]), "JPEG SOI missing");
    assert_eq!(reason(&[0xff, 0xd8]), "JPEG EOI missing");
    assert_eq!(reason(&[0xff, 0xd8, 1]), "JPEG marker missing");
    assert_eq!(reason(&[0xff, 0xd8, 0xff]), "truncated JPEG marker");
    assert_eq!(reason(&[0xff, 0xd8, 0xff, 0xd9]), "JPEG lacks frame or scan");
    assert_eq!(reason(&[0xff, 0xd8, 0xff, 0xd8]), "unexpected standalone JPEG marker");
    assert_eq!(reason(&[0xff, 0xd8, 0xff, 0xe0, 0]), "short JPEG segment");
    assert_eq!(reason(&[0xff, 0xd8, 0xff, 0xe0, 0, 1]), "invalid JPEG segment length");
    assert_eq!(reason(&[0xff, 0xd8, 0xff, 0xe0, 0, 3]), "JPEG segment outside preview");
    assert_eq!(reason(&[0xff, 0xd8, 0xff, 0xc3, 0, 2]), "unsupported JPEG frame type");
    assert_eq!(reason(&[0xff, 0xd8, 0xff, 0xda, 0, 2]), "invalid JPEG scan header");
    assert_eq!(
        reason(&[0xff, 0xd8, 0xff, 0xc0, 0, 2]),
        "unsupported JPEG precision or short SOF"
    );
    let mut trailing = fixture(12, 8);
    trailing.push(1);
    assert_eq!(reason(&trailing), "non-padding bytes after JPEG EOI");
}

#[test]
fn frame_headers_give_width_and_height() {
    assert_eq!(dimensions(&[8, 0, 2, 1, 0, 1, 0, 0, 0]).unwrap(), (256, 2));
    assert!(dimensions(&[8, 0, 0, 1, 0, 1, 0, 0, 0]).is_err());
    assert!(dimensions(&[8, 0, 2, 1, 0, 2, 0, 0, 0, 0, 0, 0]).is_err());
    assert!(is_sof(0xc0) && is_sof(0xcf) && !is_sof(0xc4) && !is_sof(0xc8) && !is_sof(0xcc));
}

#[test]
fn endian_and_inline_short() {
    assert_eq!(Endian::Little.u32([0x78, 0x56, 0x34, 0x12]), 0x12345678);
    assert_eq!(Endian::Big.u32([0x12, 0x34, 0x56, 0x78]), 0x12345678);
    let entry = Entry {
        tag: 0,
        kind: 3,
        count: 1,
        value: [0x12, 0x34, 0, 0],
    };
    assert_eq!(entry.scalar(Endian::Big), Some(0x1234));
    assert_eq!(entry.scalar(Endian::Little), Some(0x3412));
}

#[test]
fn rejects_overflows_and_short_entries() {
    assert!(checked_range(u64::MAX, 1, u64::MAX).is_err());
    assert!(checked_range(3, 8, 10).is_err());
    assert!(checked_range(10, 0, 10).is_ok());
    assert!(Entry::parse(&[0; 11], Endian::Little).is_err());
}

#[test]
fn entry_sizes_follow_their_kind() {
    let entry = |kind, count| Entry {
        tag: 0,
        kind,
        count,
        value: [0; 4],
    };
    assert_eq!(entry(7, u32::MAX).byte_len(), Some(u64::from(u32::MAX)));
    assert_eq!(entry(3, 5).byte_len(), Some(10));
    assert_eq!(entry(13, 5).byte_len(), Some(20));
    assert_eq!(entry(12, 5).byte_len(), Some(40));
    assert_eq!(entry(14, 5).byte_len(), None);
    assert_eq!(entry(4, 2).scalar(Endian::Little), None);
    assert_eq!(entry(2, 1).scalar(Endian::Little), None);
}

#[test]
fn discovery_reuses_primary_ifd_orientation_in_both_endians() {
    for big in [false, true] {
        for value in 0..=9u16 {
            let u16_bytes = |n: u16| {
                if big {
                    n.to_be_bytes()
                } else {
                    n.to_le_bytes()
                }
            };
            let u32_bytes = |n: u32| {
                if big {
                    n.to_be_bytes()
                } else {
                    n.to_le_bytes()
                }
            };
            let mut bytes = vec![0; 64];
            bytes[..2].copy_from_slice(if big { b"MM" } else { b"II" });
            bytes[2..4].copy_from_slice(&u16_bytes(42));
            bytes[4..8].copy_from_slice(&u32_bytes(8));
            for (offset, orientation, next) in [(8, value, 32), (32, 3, 0)] {
                bytes[offset..offset + 2].copy_from_slice(&u16_bytes(1));
                bytes[offset + 2..offset + 4].copy_from_slice(&u16_bytes(0x0112));
                bytes[offset + 4..offset + 6].copy_from_slice(&u16_bytes(3));
                bytes[offset + 6..offset + 10].copy_from_slice(&u32_bytes(1));
                bytes[offset + 10..offset + 12].copy_from_slice(&u16_bytes(orientation));
                bytes[offset + 14..offset + 18].copy_from_slice(&u32_bytes(next));
            }
            let mut reader = PreviewReader::from_reader(MemorySource { bytes }, 64);
            assert!(matches!(reader.find_previews(), Err(Error::NoPreview)));
            let before = reader.io_stats().bytes_read;
            assert_eq!(
                reader.orientation(),
                if (1..=8).contains(&value) { value } else { 1 }
            );
            assert_eq!(
                reader.io_stats().bytes_read,
                before,
                "getter performed extra I/O"
            );
        }
    }
}

/// A little-endian container with a thumbnail IFD, a Sony maker note preview
/// and a sensor strip that looks like a JPEG.
fn container() -> (Vec<u8>, Vec<u8>, Vec<u8>) {
    let small = fixture(160, 120);
    let large = fixture(1616, 1080);
    let mut bytes = vec![0u8; 700];
    let entry = |bytes: &mut Vec<u8>, at: usize, tag: u16, kind: u16, count: u32, value: u32| {
        bytes[at..at + 2].copy_from_slice(&tag.to_le_bytes());
        bytes[at + 2..at + 4].copy_from_slice(&kind.to_le_bytes());
        bytes[at + 4..at + 8].copy_from_slice(&count.to_le_bytes());
        bytes[at + 8..at + 12].copy_from_slice(&value.to_le_bytes());
    };
    bytes[..8].copy_from_slice(&[b'I', b'I', 42, 0, 8, 0, 0, 0]);
    // First directory: small preview, an Exif pointer, no link.
    bytes[8..10].copy_from_slice(&3u16.to_le_bytes());
    entry(&mut bytes, 10, 0x0201, 4, 1, 200);
    entry(&mut bytes, 22, 0x0202, 4, 1, small.len() as u32 + 3);
    entry(&mut bytes, 34, 0x8769, 4, 1, 60);
    // Exif directory: a maker note and a link to a sensor directory.
    bytes[60..62].copy_from_slice(&1u16.to_le_bytes());
    entry(&mut bytes, 62, 0x927c, 7, 26, 100);
    bytes[74..78].copy_from_slice(&140u32.to_le_bytes());
    bytes[100..112].copy_from_slice(b"SONY DSC \0\0\0");
    bytes[112..114].copy_from_slice(&1u16.to_le_bytes());
    entry(&mut bytes, 114, 0x2001, 7, 32 + large.len() as u32, 300);
    // The sensor directory declares a CFA strip over the same bytes.
    bytes[140..142].copy_from_slice(&4u16.to_le_bytes());
    entry(&mut bytes, 142, 0x0103, 3, 1, 7);
    entry(&mut bytes, 154, 0x0106, 3, 1, 32803);
    entry(&mut bytes, 166, 0x0111, 4, 1, 332);
    entry(&mut bytes, 178, 0x0117, 4, 1, large.len() as u32);
    bytes[200..200 + small.len()].copy_from_slice(&small);
    bytes[332..332 + large.len()].copy_from_slice(&large);
    (bytes, small, large)
}

#[test]
fn discovery_ranks_previews_and_skips_sensor_strips() {
    let (bytes, small, large) = container();
    let length = bytes.len() as u64;
    let mut reader = PreviewReader::from_reader(MemorySource { bytes: bytes.clone() }, length);
    let previews = reader.find_previews().unwrap();
    assert_eq!(
        previews,
        vec![
            EmbeddedPreview {
                offset: 332,
                length: large.len() as u64,
                width: Some(1616),
                height: Some(1080),
            },
            EmbeddedPreview {
                offset: 200,
                length: small.len() as u64,
                width: Some(160),
                height: Some(120),
            },
        ]
    );
    assert!(reader.warnings().is_empty());
    assert_eq!(reader.file_len(), length);
    let mut jpeg = Vec::new();
    reader.read_preview_into(&previews[1], &mut jpeg).unwrap();
    assert_eq!(jpeg, small);
    reader.read_preview_into(&previews[0], &mut jpeg).unwrap();
    assert_eq!(jpeg, large);
    assert!(reader.io_stats().bytes_read < 2 * length);
    let best = find_best_preview(MemorySource { bytes }, length).unwrap();
    assert_eq!(best, previews[0]);
}

#[test]
fn unreadable_and_oversized_ranges_leave_no_bytes() {
    let (bytes, ..) = container();
    // The file claims to be longer than what can be read of it.
    let mut reader = PreviewReader::from_reader(MemorySource { bytes }, 1 << 20);
    let mut out = vec![7; 16];
    let preview = EmbeddedPreview {
        offset: 1000,
        length: 16,
        width: None,
        height: None,
    };
    match reader.read_preview_into(&preview, &mut out) {
        Err(Error::Io(IoFailure { text, .. })) => assert_eq!(text, "failed to fill whole buffer"),
        other => panic!("{other:?}"),
    }
    assert!(out.is_empty());
    let outside = EmbeddedPreview { offset: 1 << 20, ..preview };
    assert!(matches!(
        reader.read_preview_into(&outside, &mut out),
        Err(Error::Invalid("byte range outside file or integer overflow"))
    ));
    let short = EmbeddedPreview { length: 3, ..preview };
    match reader.read_preview_into(&short, &mut out) {
        Err(error) => assert_eq!(error.message(), "input safety limit: JPEG byte length"),
        Ok(()) => panic!("a three-byte preview was accepted"),
    }
}

#[test]
fn headers_that_are_not_classic_tiff_are_refused() {
    let refuse = |bytes: &[u8]| {
        let source = MemorySource { bytes: bytes.to_vec() };
        find_best_preview(source, bytes.len() as u64).unwrap_err().message()
    };
    assert_eq!(
        refuse(b"II\x2a\0"),
        "malformed or unsupported ARW/JPEG: byte range outside file or integer overflow"
    );
    assert_eq!(
        refuse(b"IM\x2a\0\x08\0\0\0"),
        "malformed or unsupported ARW/JPEG: not a TIFF byte-order header"
    );
    assert_eq!(
        refuse(b"II\x2b\0\x08\0\0\0"),
        "malformed or unsupported ARW/JPEG: requires classic TIFF magic 42; BigTIFF is unsupported"
    );
    assert_eq!(
        refuse(b"II\x2a\0\x07\0\0\0"),
        "malformed or unsupported ARW/JPEG: invalid first IFD offset"
    );
    assert_eq!(
        refuse(b"II\x2a\0\x08\0\0\0"),
        "no usable embedded JPEG preview found"
    );
}

#[test]
fn only_regular_files_are_read() {
    let source = || MemorySource { bytes: vec![0; 8] };
    assert!(PreviewReader::open(source(), 8, true).is_ok());
    assert_eq!(
        PreviewReader::open(source(), 8, false).err().unwrap().message(),
        "malformed or unsupported ARW/JPEG: input is not a regular file"
    );
}

#[test]
fn refused_memory_matters_only_where_it_is_needed() {
    let (bytes, small, _) = container();
    let length = bytes.len() as u64;
    let mut reader = PreviewReader::from_reader(MemorySource { bytes }, length);
    let preview = EmbeddedPreview {
        offset: 200,
        length: small.len() as u64,
        width: None,
        height: None,
    };
    assert_eq!(lacking(&preview, length, 0), small.len());
    assert_eq!(lacking(&preview, length, 10), small.len() - 10);
    assert_eq!(lacking(&preview, length, small.len()), 0);
    let mut out = Vec::new();
    let error = reader.read_reserved(&preview, &mut out, false).unwrap_err();
    assert_eq!(error.message(), "input safety limit: JPEG allocation failed");
    assert_eq!(reader.io_stats().read_calls, 0);
    let mut out = vec![0; small.len()];
    reader.read_reserved(&preview, &mut out, false).unwrap();
    assert_eq!(out, small);
    assert_eq!(reader.io_stats().read_calls, 1);
    let mut out = Vec::new();
    reader.read_reserved(&preview, &mut out, true).unwrap();
    assert_eq!(out, small);
    let short = EmbeddedPreview { length: 3, ..preview };
    assert_eq!(lacking(&short, length, 0), 0);
    let error = reader.read_reserved(&short, &mut out, false).unwrap_err();
    assert_eq!(error.message(), "input safety limit: JPEG byte length");
    assert!(out.is_empty());
    let outside = EmbeddedPreview { offset: length, ..preview };
    assert_eq!(lacking(&outside, length, 0), 0);
    assert!(matches!(
        reader.read_reserved(&outside, &mut out, false),
        Err(Error::Invalid("byte range outside file or integer overflow"))
    ));
}
