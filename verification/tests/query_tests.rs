//! The typed tag query engine: classification, operators, tolerance.

use photo_insight::exif_data::{ExifInfo, ExifTagValue};

// Field texts as extraction stores them: string fields wrapped in quotes.
fn record() -> ExifInfo {
    ExifInfo {
        year: 2021,
        month: 5,
        model: "\"X100\"".to_owned(),
        width: 4032,
        height: 3024,
        date_time: "\"2021-05-01 10:00:00\"".to_owned(),
        aperture: "5.6".to_owned(),
        shutter_speed: "250".to_owned(),
        iso: "400".to_owned(),
        focal_len: "35".to_owned(),
        lens: "\"XF 23mm\"".to_owned(),
    }
}

#[test]
fn relational_operator_on_string_tag_is_an_error() {
    let e = record();
    for op in [">", "<", ">=", "<="] {
        let r = e.matches_query(&"model".to_owned(), &"x100".to_owned(), &op.to_owned());
        assert!(r.is_err(), "operator {op} must be refused on a string tag");
    }
    let r = e.matches_query(&"lens".to_owned(), &"xf".to_owned(), &">".to_owned());
    assert!(r.is_err());
}

#[test]
fn string_comparisons_are_case_insensitive_and_ignore_the_stored_quotes() {
    let e = record();
    // The stored model text carries literal quotes from extraction; they
    // must not defeat the case-insensitive match.
    assert_eq!(
        e.matches_query(&"model".to_owned(), &"x100".to_owned(), &"==".to_owned()).unwrap(),
        true
    );
    assert_eq!(
        e.matches_query(&"model".to_owned(), &"X100".to_owned(), &"!=".to_owned()).unwrap(),
        false
    );
    assert_eq!(
        e.matches_query(&"lens".to_owned(), &"xf 23".to_owned(), &"contains".to_owned()).unwrap(),
        true
    );
    assert_eq!(
        e.matches_query(&"lens".to_owned(), &"xf".to_owned(), &"starts_with".to_owned())
            .unwrap(),
        true
    );
    assert_eq!(
        e.matches_query(&"lens".to_owned(), &"23MM".to_owned(), &"ends_with".to_owned())
            .unwrap(),
        true
    );
    assert_eq!(
        e.matches_query(&"model".to_owned(), &"x200".to_owned(), &"==".to_owned()).unwrap(),
        false
    );
}

#[test]
fn integer_comparisons() {
    let e = record();
    assert_eq!(
        e.matches_query(&"year".to_owned(), &"2020".to_owned(), &">".to_owned()).unwrap(),
        true
    );
    assert_eq!(
        e.matches_query(&"width".to_owned(), &"4032".to_owned(), &"==".to_owned()).unwrap(),
        true
    );
    assert_eq!(
        e.matches_query(&"month".to_owned(), &"5".to_owned(), &"<=".to_owned()).unwrap(),
        true
    );
    assert_eq!(
        e.matches_query(&"height".to_owned(), &"5000".to_owned(), &">=".to_owned()).unwrap(),
        false
    );
    // A parse failure of the comparison literal is an error, not false.
    assert!(e.matches_query(&"year".to_owned(), &"20x1".to_owned(), &"==".to_owned()).is_err());
    // A string operator on an integer tag is an error.
    assert!(e.matches_query(&"year".to_owned(), &"2021".to_owned(), &"contains".to_owned())
        .is_err());
}

#[test]
fn float_comparisons_use_the_tolerance() {
    let e = record();
    // Differ by 1e-8, well inside the 1e-7 tolerance.
    assert_eq!(
        e.matches_query(&"aperture".to_owned(), &"5.60000001".to_owned(), &"==".to_owned())
            .unwrap(),
        true
    );
    assert_eq!(
        e.matches_query(&"aperture".to_owned(), &"5.60000001".to_owned(), &"!=".to_owned())
            .unwrap(),
        false
    );
    // Differ by 1e-3, outside it.
    assert_eq!(
        e.matches_query(&"aperture".to_owned(), &"5.601".to_owned(), &"==".to_owned()).unwrap(),
        false
    );
    assert_eq!(
        e.matches_query(&"shutter_speed".to_owned(), &"100".to_owned(), &">".to_owned()).unwrap(),
        true
    );
    assert_eq!(
        e.matches_query(&"iso".to_owned(), &"400".to_owned(), &"<=".to_owned()).unwrap(),
        true
    );
    assert_eq!(
        e.matches_query(&"focal_len".to_owned(), &"35.0".to_owned(), &"==".to_owned()).unwrap(),
        true
    );
    // A parse failure of the comparison literal is an error.
    assert!(e.matches_query(&"aperture".to_owned(), &"f/5.6".to_owned(), &"==".to_owned())
        .is_err());
}

#[test]
fn unknown_tags_and_operators_are_errors() {
    let e = record();
    let r = e.matches_query(&"flash".to_owned(), &"1".to_owned(), &"==".to_owned());
    assert!(r.is_err());
    assert!(r.err().unwrap().message.contains("Invalid tag name"));
    let r = e.matches_query(&"model".to_owned(), &"x".to_owned(), &"~=".to_owned());
    assert!(r.is_err());
    assert!(r.err().unwrap().message.contains("Invalid operator for string"));
    let r = e.matches_query(&"year".to_owned(), &"2021".to_owned(), &"~=".to_owned());
    assert!(r.is_err());
    assert!(r.err().unwrap().message.contains("Invalid operator for number"));
}

#[test]
fn unparsable_float_field_is_an_error() {
    let mut e = record();
    e.aperture = "\"unknown\"".to_owned();
    let r = e.matches_query(&"aperture".to_owned(), &"5.6".to_owned(), &"==".to_owned());
    assert!(r.is_err());
    assert!(r.err().unwrap().message.contains("Invalid float value"));
}

#[test]
fn tag_value_extraction_is_typed() {
    let e = record();
    match e.extract_tag_value("model").unwrap() {
        ExifTagValue::Text(s) => assert_eq!(s, "\"X100\""),
        _ => panic!("model must be string-typed"),
    }
    match e.extract_tag_value("width").unwrap() {
        ExifTagValue::Integer(n) => assert_eq!(n, 4032),
        _ => panic!("width must be integer-typed"),
    }
    match e.extract_tag_value("aperture").unwrap() {
        // 5.6 in the scaled fixed-point representation.
        ExifTagValue::Scaled(x) => assert_eq!(x, 5_600_000_000),
        _ => panic!("aperture must be float-typed"),
    }
    assert!(e.extract_tag_value("bogus").is_err());
}
