//! Metadata extraction against hand-built TIFF containers, exercising the
//! real tag decoder.

use photo_insight::exif_read::{extract_all_exifs_from_zip_archive, extract_exif_info, extract_tag, extract_thm};
use photo_insight::photo::PhotoInfo;

fn le16(v: &mut Vec<u8>, x: u16) {
    v.extend_from_slice(&x.to_le_bytes());
}

fn le32(v: &mut Vec<u8>, x: u32) {
    v.extend_from_slice(&x.to_le_bytes());
}

fn entry(v: &mut Vec<u8>, tag: u16, typ: u16, count: u32, value: u32) {
    le16(v, tag);
    le16(v, typ);
    le32(v, count);
    le32(v, value);
}

/// A little-endian TIFF with a Model tag and a DateTime tag in the
/// primary image.
fn tiff_with_model_and_date() -> Vec<u8> {
    let mut v: Vec<u8> = Vec::new();
    v.extend_from_slice(b"II");
    le16(&mut v, 42);
    le32(&mut v, 8);
    // IFD0 at offset 8, two entries, data following at offset 38.
    le16(&mut v, 2);
    entry(&mut v, 0x0110, 2, 5, 38); // Model, ASCII "X100\0"
    entry(&mut v, 0x0132, 2, 20, 43); // DateTime, ASCII
    le32(&mut v, 0); // no next IFD
    v.extend_from_slice(b"X100\0");
    v.extend_from_slice(b"2021:05:01 10:00:00\0");
    v
}

/// A little-endian TIFF whose Exif sub-directory holds an exposure time
/// of 1/250.
fn tiff_with_exposure_time() -> Vec<u8> {
    let mut v: Vec<u8> = Vec::new();
    v.extend_from_slice(b"II");
    le16(&mut v, 42);
    le32(&mut v, 8);
    // IFD0 at offset 8, one entry pointing at the Exif IFD at offset 26.
    le16(&mut v, 1);
    entry(&mut v, 0x8769, 4, 1, 26);
    le32(&mut v, 0);
    // Exif IFD at 26, one entry, rational data at offset 44.
    le16(&mut v, 1);
    entry(&mut v, 0x829a, 5, 1, 44); // ExposureTime
    le32(&mut v, 0);
    le32(&mut v, 1); // numerator
    le32(&mut v, 250); // denominator
    v
}

/// A little-endian TIFF whose thumbnail directory records an embedded
/// thumbnail range.
fn tiff_with_thumbnail() -> Vec<u8> {
    let mut v: Vec<u8> = Vec::new();
    v.extend_from_slice(b"II");
    le16(&mut v, 42);
    le32(&mut v, 8);
    // IFD0 at offset 8, one entry, chaining to IFD1 at offset 26.
    le16(&mut v, 1);
    entry(&mut v, 0x0110, 2, 5, 56); // Model, ASCII "X100\0" at 56
    le32(&mut v, 26);
    // IFD1 at 26, two entries: thumbnail offset 61, length 4.
    le16(&mut v, 2);
    entry(&mut v, 0x0201, 4, 1, 61);
    entry(&mut v, 0x0202, 4, 1, 4);
    le32(&mut v, 0);
    v.extend_from_slice(b"X100\0");
    v.extend_from_slice(&[0xde, 0xad, 0xbe, 0xef]);
    v
}

#[test]
fn test_exif_info() {
    let img = tiff_with_model_and_date();
    let (exif, thm) = extract_exif_info(&img, false).expect("can't extract exif");
    assert_eq!(exif.model, "\"X100\"");
    assert_eq!(exif.date_time, "\"2021-05-01 10:00:00\"");
    assert_eq!(exif.year, 2021);
    assert_eq!(exif.month, 5);
    // Absent numeric fields degrade to the zero sentinel.
    assert_eq!(exif.width, 0);
    assert_eq!(exif.height, 0);
    assert_eq!(exif.aperture, "0");
    assert_eq!(exif.iso, "0");
    assert_eq!(exif.focal_len, "0");
    // Absent string fields degrade to "unknown"; the shutter path also
    // drops the wrapping quotes.
    assert_eq!(exif.lens, "\"unknown\"");
    assert_eq!(exif.shutter_speed, "unknown");
    assert!(thm.is_empty());
}

#[test]
fn fractional_shutter_speed_keeps_the_denominator() {
    let img = tiff_with_exposure_time();
    let (exif, _) = extract_exif_info(&img, false).unwrap();
    assert_eq!(exif.shutter_speed, "250");
    // No date tag at all: the zero sentinels.
    assert_eq!(exif.year, 0);
    assert_eq!(exif.month, 0);
}

/// A little-endian TIFF whose ImageWidth is a float value, which is no
/// unsigned integer.
fn tiff_with_float_width() -> Vec<u8> {
    let mut v: Vec<u8> = Vec::new();
    v.extend_from_slice(b"II");
    le16(&mut v, 42);
    le32(&mut v, 8);
    // IFD0 at offset 8, one FLOAT entry with the value inline.
    le16(&mut v, 1);
    le16(&mut v, 0x0100);
    le16(&mut v, 11);
    le32(&mut v, 1);
    v.extend_from_slice(&4032.5f32.to_le_bytes());
    le32(&mut v, 0);
    v
}

#[test]
fn non_integer_dimension_degrades_to_zero_instead_of_failing() {
    let img = tiff_with_float_width();
    let (exif, _) = extract_exif_info(&img, false).expect("extraction must survive odd dimensions");
    // The width text parses as a decimal but not as an unsigned integer,
    // so the field falls back to the zero sentinel.
    assert_eq!(exif.width, 0);
    assert_eq!(exif.height, 0);
}

#[test]
fn unreadable_container_is_an_error() {
    let garbage = vec![9u8, 9, 9, 9, 9, 9];
    assert!(extract_exif_info(&garbage, false).is_err());
}

#[test]
fn embedded_thumbnail_is_sliced_from_the_container() {
    let img = tiff_with_thumbnail();
    let thm = extract_thm(&img).unwrap();
    assert_eq!(thm, vec![0xde, 0xad, 0xbe, 0xef]);
    let (_, thm2) = extract_exif_info(&img, true).unwrap();
    assert_eq!(thm2, thm);
}

#[test]
fn candidate_resolution_and_normalization() {
    // First present candidate wins; numeric fields keep only parsable text.
    assert_eq!(extract_tag(&vec![None, Some("250".to_owned())], true), "250");
    assert_eq!(extract_tag(&vec![Some("garbled".to_owned())], true), "0");
    assert_eq!(extract_tag(&vec![], true), "0");
    assert_eq!(extract_tag(&vec![None], false), "\"unknown\"");
    // Text fields lose quotes and commas, get trimmed, and are re-wrapped.
    assert_eq!(
        extract_tag(&vec![Some(" \"FUJIFILM, X100\" ".to_owned())], false),
        "\"FUJIFILM X100\""
    );
}

#[test]
fn archive_wide_extraction_skips_failures() {
    let good = tiff_with_model_and_date();
    let images = vec![
        (0usize, "img1.jpg".to_owned(), good),
        (1usize, "img2.png".to_owned(), vec![9u8, 9, 9]),
        (2usize, "notes.txt".to_owned(), vec![1u8]),
    ];
    let out = extract_all_exifs_from_zip_archive(&"a.zip".to_owned(), &images);
    assert_eq!(out.len(), 1);
    assert_eq!(out[0].0, PhotoInfo::new("a.zip".to_owned(), "img1.jpg".to_owned(), 0));
    assert_eq!(out[0].1.year, 2021);
}
