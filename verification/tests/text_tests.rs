//! Keys, decimal parsing, number rendering, and extension sniffing.

use photo_insight::decimal::{dec_cmp, dec_parse_chars};
use photo_insight::photo::PhotoInfo;
use photo_insight::text::{parse_u32_chars, usize_dec_chars};
use photo_insight::zip_store::{is_image_file, is_zip_file_name};

fn chars(s: &str) -> Vec<char> {
    s.chars().collect()
}

#[test]
fn composite_key_round_trip() {
    let p = PhotoInfo::new("a.zip".to_owned(), "img1.jpg".to_owned(), 3);
    let key = p.serialize_as_key();
    assert_eq!(key, "a.zip|img1.jpg|3");
    let q = PhotoInfo::deserialize_from_key(key).unwrap();
    assert_eq!(q, p);
}

#[test]
fn bad_composite_keys_are_refused() {
    let r = PhotoInfo::deserialize_from_key("no pipes here".to_owned());
    assert!(r.is_err());
    assert!(r.err().unwrap().message.contains("cannot deserialize PhotoInfo from"));
    assert!(PhotoInfo::deserialize_from_key("a|b|notanumber".to_owned()).is_err());
    assert!(PhotoInfo::deserialize_from_key("a|b|c|d".to_owned()).is_err());
    // A delimiter inside an entry name corrupts the round trip into an error.
    assert!(PhotoInfo::deserialize_from_key("a.zip|odd|name.jpg|3".to_owned()).is_err());
}

#[test]
fn decimal_parsing_accepts_plain_notation() {
    assert_eq!(dec_parse_chars(&chars("250")), Some(250_000_000_000));
    assert_eq!(dec_parse_chars(&chars("5.6")), Some(5_600_000_000));
    assert_eq!(dec_parse_chars(&chars("-0.25")), Some(-250_000_000));
    assert_eq!(dec_parse_chars(&chars("+3.")), Some(3_000_000_000));
    assert_eq!(dec_parse_chars(&chars(".5")), Some(500_000_000));
    assert_eq!(dec_parse_chars(&chars("0")), Some(0));
    // Fraction digits beyond the ninth are dropped.
    assert_eq!(dec_parse_chars(&chars("0.0000000019")), Some(1));
}

#[test]
fn decimal_parsing_rejects_everything_else() {
    assert_eq!(dec_parse_chars(&chars("")), None);
    assert_eq!(dec_parse_chars(&chars("+")), None);
    assert_eq!(dec_parse_chars(&chars(".")), None);
    assert_eq!(dec_parse_chars(&chars("1/250")), None);
    assert_eq!(dec_parse_chars(&chars("1.2.3")), None);
    assert_eq!(dec_parse_chars(&chars("f5.6")), None);
    assert_eq!(dec_parse_chars(&chars("\"unknown\"")), None);
}

#[test]
fn decimal_comparison_tolerance() {
    let a = dec_parse_chars(&chars("1.00000001")).unwrap();
    let b = dec_parse_chars(&chars("1.00000002")).unwrap();
    // The two differ by 1e-8, inside the 1e-7 tolerance.
    assert_eq!(dec_cmp(a, b, "=="), Some(true));
    assert_eq!(dec_cmp(a, b, "!="), Some(false));
    let c = dec_parse_chars(&chars("1.001")).unwrap();
    assert_eq!(dec_cmp(a, c, "=="), Some(false));
    assert_eq!(dec_cmp(a, c, "<"), Some(true));
    assert_eq!(dec_cmp(a, c, ">="), Some(false));
    assert_eq!(dec_cmp(a, b, "about"), None);
}

#[test]
fn unsigned_parsing_matches_the_stored_fields() {
    assert_eq!(parse_u32_chars(&chars("2021")), Some(2021));
    assert_eq!(parse_u32_chars(&chars("+7")), Some(7));
    assert_eq!(parse_u32_chars(&chars("")), None);
    assert_eq!(parse_u32_chars(&chars("-1")), None);
    assert_eq!(parse_u32_chars(&chars("4294967295")), Some(u32::MAX));
    assert_eq!(parse_u32_chars(&chars("4294967296")), None);
}

#[test]
fn decimal_rendering() {
    let d: String = usize_dec_chars(0).into_iter().collect();
    assert_eq!(d, "0");
    let d: String = usize_dec_chars(90210).into_iter().collect();
    assert_eq!(d, "90210");
}

#[test]
fn image_extension_sniffing_is_case_insensitive() {
    assert!(is_image_file("IMG_0001.JPG"));
    assert!(is_image_file("photo.jpeg"));
    assert!(is_image_file("shot.PnG"));
    assert!(!is_image_file("clip.gif"));
    assert!(!is_image_file("notes.txt"));
    assert!(!is_image_file("jpg"));
}

#[test]
fn zip_extension_sniffing() {
    assert!(is_zip_file_name("takeout-001.zip"));
    assert!(!is_zip_file_name("takeout-001.ZIP"));
    assert!(!is_zip_file_name(".zip"));
    assert!(!is_zip_file_name("archive.tar"));
}
