//! Archive listing and extraction against real zip containers.

use std::io::Write;

use photo_insight::photo::PhotoInfo;
use photo_insight::zip_store::{
    check_entry_indices, extract_zip_archive, list_directory_zip_files, list_images_in_archive,
    list_zip_archive,
};

/// Builds an in-memory zip with the given entries.
fn make_zip(entries: &[(&str, &[u8])]) -> Vec<u8> {
    let mut w = zip::ZipWriter::new(std::io::Cursor::new(Vec::new()));
    let opts: zip::write::SimpleFileOptions = Default::default();
    for (name, bytes) in entries {
        w.start_file(*name, opts).unwrap();
        w.write_all(bytes).unwrap();
    }
    w.finish().unwrap().into_inner()
}

#[test]
fn listing_keeps_image_entries_with_their_indices() {
    let data = make_zip(&[
        ("img1.jpg", b"AAA"),
        ("notes.txt", b"hello"),
        ("img2.PNG", b"BBB"),
    ]);
    let listing = list_zip_archive(&data).unwrap();
    assert_eq!(
        listing,
        vec![(0usize, "img1.jpg".to_owned()), (2usize, "img2.PNG".to_owned())]
    );
}

#[test]
fn listing_rejects_garbage() {
    let garbage = vec![1u8, 2, 3, 4];
    assert!(list_zip_archive(&garbage).is_err());
}

#[test]
fn out_of_range_index_names_index_and_archive() {
    let data = make_zip(&[("img1.jpg", b"AAA")]);
    let r = extract_zip_archive(&data, &"a.zip".to_owned(), &vec![0usize, 5usize]);
    assert!(r.is_err());
    assert_eq!(
        r.err().unwrap().message,
        "File index 5 out of bounds in zip a.zip"
    );
}

#[test]
fn extraction_returns_identities_and_bytes() {
    let data = make_zip(&[("img1.jpg", b"AAA"), ("img2.png", b"BBBB")]);
    let got = extract_zip_archive(&data, &"a.zip".to_owned(), &vec![1usize, 0usize]).unwrap();
    assert_eq!(got.len(), 2);
    assert_eq!(got[0].0, PhotoInfo::new("a.zip".to_owned(), "img2.png".to_owned(), 1));
    assert_eq!(got[0].1, b"BBBB".to_vec());
    assert_eq!(got[1].0, PhotoInfo::new("a.zip".to_owned(), "img1.jpg".to_owned(), 0));
    assert_eq!(got[1].1, b"AAA".to_vec());
}

#[test]
fn index_checking_reports_the_first_offender() {
    assert!(check_entry_indices(3, &"a.zip".to_owned(), &vec![0usize, 2usize]).is_ok());
    let r = check_entry_indices(3, &"a.zip".to_owned(), &vec![0usize, 7usize, 9usize]);
    assert_eq!(
        r.err().unwrap().message,
        "File index 7 out of bounds in zip a.zip"
    );
}

#[test]
fn viewer_listing_admits_gifs() {
    let data = make_zip(&[
        ("img1.jpg", b"AAA"),
        ("anim.GIF", b"GGG"),
        ("notes.txt", b"hello"),
    ]);
    let names = list_images_in_archive(&data).unwrap();
    assert_eq!(names, vec!["img1.jpg".to_owned(), "anim.GIF".to_owned()]);
}

#[test]
fn directory_listing_keeps_zip_files() {
    let names = vec![
        "a.zip".to_owned(),
        "readme.md".to_owned(),
        "b.zip".to_owned(),
        "c.tar".to_owned(),
    ];
    assert_eq!(
        list_directory_zip_files(&names),
        vec!["a.zip".to_owned(), "b.zip".to_owned()]
    );
}
