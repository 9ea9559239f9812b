use fastcull::arw::MemorySource;
use fastcull::metadata::xmp::{new_sidecar, plan_rating, read_rating, replace_rating};
use fastcull::metadata::exif::{read_exif, ExifMetadata, MetadataError, MetadataReader, Rational};

fn value16(value: u16, big: bool) -> [u8; 2] {
    if big {
        value.to_be_bytes()
    } else {
        value.to_le_bytes()
    }
}
fn value32(value: u32, big: bool) -> [u8; 4] {
    if big {
        value.to_be_bytes()
    } else {
        value.to_le_bytes()
    }
}
fn entry(bytes: &mut [u8], at: usize, tag: u16, kind: u16, count: u32, value: u32, big: bool) {
    bytes[at..at + 2].copy_from_slice(&value16(tag, big));
    bytes[at + 2..at + 4].copy_from_slice(&value16(kind, big));
    bytes[at + 4..at + 8].copy_from_slice(&value32(count, big));
    if kind == 3 && count == 1 {
        bytes[at + 8..at + 10].copy_from_slice(&value16(value as u16, big));
    } else {
        bytes[at + 8..at + 12].copy_from_slice(&value32(value, big));
    }
}
fn fixture(big: bool, orientation: u16) -> Vec<u8> {
    let mut bytes = vec![0; 512];
    bytes[..2].copy_from_slice(if big { b"MM" } else { b"II" });
    bytes[2..4].copy_from_slice(&value16(42, big));
    bytes[4..8].copy_from_slice(&value32(8, big));
    bytes[8..10].copy_from_slice(&value16(4, big));
    entry(&mut bytes, 10, 0x0112, 3, 1, u32::from(orientation), big);
    entry(&mut bytes, 22, 0x0110, 2, 9, 256, big);
    entry(&mut bytes, 34, 0x8769, 4, 1, 80, big);
    // A poisonous sensor pointer must be ignored.
    entry(&mut bytes, 46, 0x014a, 4, 1, u32::MAX, big);
    bytes[80..82].copy_from_slice(&value16(6, big));
    entry(&mut bytes, 82, 0x829a, 5, 1, 280, big);
    entry(&mut bytes, 94, 0x829d, 5, 1, 288, big);
    entry(&mut bytes, 106, 0x8827, 3, 1, 1600, big);
    entry(&mut bytes, 118, 0x920a, 5, 1, 296, big);
    entry(&mut bytes, 130, 0xa434, 2, 10, 320, big);
    entry(&mut bytes, 142, 0x9003, 2, 20, 340, big);
    bytes[256..265].copy_from_slice(b"ILCE-7M5\0");
    for (at, numerator, denominator) in [(280, 1, 2000), (288, 63, 10), (296, 600, 1)] {
        bytes[at..at + 4].copy_from_slice(&value32(numerator, big));
        bytes[at + 4..at + 8].copy_from_slice(&value32(denominator, big));
    }
    bytes[320..330].copy_from_slice(b"Test lens\0");
    bytes[340..360].copy_from_slice(b"2026:01:02 03:04:05\0");
    bytes
}
fn parse_bytes(bytes: Vec<u8>) -> Result<(ExifMetadata, usize), MetadataError> {
    let length = bytes.len() as u64;
    let mut reader = MetadataReader::new(MemorySource { bytes }, length);
    let data = reader.parse()?;
    Ok((data, reader.bytes_read()))
}
fn value(rational: Option<Rational>) -> Option<f64> {
    rational.map(|r| f64::from(r.numerator) / f64::from(r.denominator))
}

#[test]
fn both_endians_rationals_and_all_eight_orientations() {
    for big in [false, true] {
        for orientation in 1..=8 {
            let (data, reads) = parse_bytes(fixture(big, orientation)).unwrap();
            assert_eq!(data.orientation, orientation);
            assert_eq!(value(data.exposure_time), Some(0.0005));
            assert_eq!(value(data.aperture), Some(6.3));
            assert_eq!(data.iso, Some(1600));
            assert_eq!(value(data.focal_length), Some(600.0));
            assert_eq!(data.camera_model.as_deref(), Some("ILCE-7M5"));
            assert_eq!(data.lens_model.as_deref(), Some("Test lens"));
            assert_eq!(data.captured_at.as_deref(), Some("2026:01:02 03:04:05"));
            assert!(reads < 256);
        }
    }
}

#[test]
fn invalid_orientation_defaults_to_one_and_zero_denominator_is_absent() {
    let mut bytes = fixture(false, 0);
    bytes[284..288].fill(0);
    let (data, _) = parse_bytes(bytes).unwrap();
    assert_eq!(data.orientation, 1);
    assert_eq!(data.exposure_time, None);
    assert_eq!(ExifMetadata::default().orientation, 1);
}

#[test]
fn truncated_offsets_and_huge_counts_do_not_allocate_or_panic() {
    let mut bytes = fixture(false, 1);
    bytes[90..94].copy_from_slice(&u32::MAX.to_le_bytes());
    assert!(parse_bytes(bytes).is_err());
    let mut bytes = fixture(false, 1);
    bytes[8..10].copy_from_slice(&u16::MAX.to_le_bytes());
    assert!(parse_bytes(bytes).is_err());
    let bytes = fixture(false, 1);
    for n in 0..154 {
        assert!(parse_bytes(bytes[..n].to_vec()).is_err());
    }
}

#[test]
fn text_is_trimmed_and_made_readable() {
    let mut bytes = fixture(false, 1);
    bytes[320..330].copy_from_slice(b"  len\xff   \0");
    let length = bytes.len() as u64;
    let data = read_exif(MemorySource { bytes }, length, true).unwrap();
    assert_eq!(data.lens_model.as_deref(), Some("len\u{fffd}"));
}

#[test]
fn failures_have_words() {
    let error = read_exif(MemorySource { bytes: b"nonsense".to_vec() }, 8, true).unwrap_err();
    assert!(!error.message().is_empty());
    let bytes = fixture(false, 1);
    let length = bytes.len() as u64;
    let error = read_exif(MemorySource { bytes }, length, false).unwrap_err();
    assert_eq!(error.message(), "EXIF unavailable: input is not a regular file");
}

#[test]
fn ratings_are_saved_in_sidecars_and_read_again() {
    for stars in -1..=5 {
        let bytes = new_sidecar(stars);
        assert_eq!(read_rating(&bytes), Ok(Some(stars)));
        for next in -1..=5 {
            let changed = replace_rating(&bytes, Some(next)).unwrap();
            assert_eq!(read_rating(&changed), Ok(Some(next)));
        }
    }
    let text = String::from_utf8(new_sidecar(4)).unwrap();
    assert!(text.contains(
        "<rdf:Description xmp:Rating=\"4\" xmlns:xmp=\"http://ns.adobe.com/xap/1.0/\" rdf:about=\"\"/>"
    ));
    // Nothing else changes.
    let other = text.replace("xmp:Rating=\"4\"", "xmp:Label='Red' xmp:Rating = ' 2 '");
    assert_eq!(read_rating(other.as_bytes()), Ok(Some(2)));
    assert_eq!(
        replace_rating(other.as_bytes(), Some(-1)),
        Ok(other.replace("' 2 '", "'-1'").into_bytes())
    );
}

#[test]
fn a_rating_that_was_added_can_be_taken_back() {
    let bare = "<rdf:Description rdf:about=\"\" xmlns:xmp=\"http://ns.adobe.com/xap/1.0/\"/>";
    assert_eq!(read_rating(bare.as_bytes()), Ok(None));
    let rated = replace_rating(bare.as_bytes(), Some(3)).unwrap();
    assert_eq!(read_rating(&rated), Ok(Some(3)));
    assert_eq!(replace_rating(&rated, None).unwrap(), bare.as_bytes());
    assert_eq!(replace_rating(bare.as_bytes(), None).unwrap(), bare.as_bytes());
    let element = "<rdf:Description><xmp:Rating>5</xmp:Rating></rdf:Description>";
    assert_eq!(read_rating(element.as_bytes()), Ok(Some(5)));
    assert_eq!(
        replace_rating(element.as_bytes(), None).unwrap(),
        b"<rdf:Description></rdf:Description>"
    );
    assert_eq!(
        replace_rating(element.as_bytes(), Some(1)).unwrap(),
        b"<rdf:Description><xmp:Rating>1</xmp:Rating></rdf:Description>"
    );
}

#[test]
fn broken_sidecars_are_refused() {
    let error = |text: &str| read_rating(text.as_bytes()).unwrap_err();
    assert_eq!(error("<broken external sidecar"), "malformed XMP");
    assert_eq!(error("xmp:Rating=\"3\" <rdf:Description/>"), "malformed XMP");
    assert_eq!(error("<rdf:Description xmp:Rating"), "malformed rating in XMP");
    assert_eq!(error("<rdf:Description xmp:Rating=3>"), "malformed rating in XMP");
    assert_eq!(error("<rdf:Description xmp:Rating=\"3"), "malformed rating in XMP");
    for value in ["", "6", "-2", "+3", "03", "x"] {
        let text = format!("<rdf:Description xmp:Rating=\"{value}\"/>");
        assert_eq!(error(&text), "rating in XMP is out of range");
    }
    assert!(replace_rating(b"<rdf:Description><xmp:Rating>5<b", None).is_err());
}

#[test]
fn ratings_that_others_changed_stay() {
    assert_eq!(plan_rating(None, None, None), Ok((None, None)));
    let (previous, bytes) = plan_rating(None, Some(2), None).unwrap();
    assert_eq!(previous, None);
    let bytes = bytes.unwrap();
    let (previous, changed) = plan_rating(Some(&bytes), Some(5), Some(Some(2))).unwrap();
    assert_eq!(previous, Some(2));
    assert_eq!(read_rating(&changed.unwrap()), Ok(Some(5)));
    assert_eq!(
        plan_rating(Some(&bytes), None, Some(Some(4))),
        Err("the rating was changed by another program".to_string())
    );
    assert!(plan_rating(None, None, Some(Some(2))).is_err());
    assert_eq!(
        plan_rating(Some(&b"<broken external sidecar".to_vec()), Some(1), None),
        Err("malformed XMP".to_string())
    );
}

#[test]
fn undone_ratings_are_as_before() {
    let declared = b"<rdf:Description xmlns:xmp=\"http://ns.adobe.com/xap/1.0/\"/>".to_vec();
    for sidecar in [None, Some(declared), Some(new_sidecar(2))] {
        let (previous, bytes) = plan_rating(sidecar.as_ref(), Some(5), None).unwrap();
        let undone = plan_rating(bytes.as_ref(), previous, Some(Some(5))).unwrap();
        assert_eq!(undone.0, Some(5));
        assert_eq!(read_rating(&undone.1.unwrap()), Ok(previous));
    }
}

#[test]
fn every_white_space_is_trimmed_from_the_ends_of_text() {
    let mut bytes = fixture(true, 1);
    bytes[320..330].copy_from_slice("\u{2003}T l\u{a0}\t\0".as_bytes());
    let (data, _) = parse_bytes(bytes).unwrap();
    assert_eq!(data.lens_model.as_deref(), Some("T l"));
    let spaces = [
        '\t', '\n', '\r', ' ', '\u{85}', '\u{a0}', '\u{1680}', '\u{2000}', '\u{200a}',
        '\u{2028}', '\u{2029}', '\u{202f}', '\u{205f}', '\u{3000}',
    ];
    let others = ['\u{84}', '\u{180e}', '\u{200b}', '\u{2060}', '\u{feff}'];
    for (marks, white) in [(&spaces[..], true), (&others[..], false)] {
        for mark in marks {
            let mut text = format!("{mark}ab{mark}");
            assert_eq!(text.trim() == "ab", white, "{mark:?}");
            let expected = text.trim().to_string();
            while text.len() < 10 {
                text.push('\0');
            }
            let mut bytes = fixture(false, 1);
            bytes[320..330].copy_from_slice(text.as_bytes());
            let (data, _) = parse_bytes(bytes).unwrap();
            assert_eq!(data.lens_model, Some(expected), "{mark:?}");
        }
    }
}
