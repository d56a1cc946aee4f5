//! The tool surface: clamping, pagination facts, and the tag table.

use std::io::Write;

use photo_insight::cache::{ArchiveCacheData, PhotoCache, TemporalEntry};
use photo_insight::exif_data::ExifInfo;
use photo_insight::photo::PhotoInfo;
use photo_insight::tools::{
    ListAllPhotosTool, PhotoExifSearchTagTool, PhotoExifTagTool, PhotoExifTool,
    PhotoObjectDetectionTool, PhotoSearchByNameTool, PhotoSearchByYearMonthTool,
};

fn rec(year: u32, month: u32, model: &str) -> ExifInfo {
    ExifInfo {
        year,
        month,
        model: format!("\"{model}\""),
        width: 100,
        height: 50,
        date_time: "\"unknown\"".to_owned(),
        aperture: "2.8".to_owned(),
        shutter_speed: "125".to_owned(),
        iso: "200".to_owned(),
        focal_len: "23".to_owned(),
        lens: "\"unknown\"".to_owned(),
    }
}

fn img(idx: usize) -> PhotoInfo {
    PhotoInfo::new("a.zip".to_owned(), format!("img{idx}.jpg"), idx)
}

fn cache_with(n: usize) -> PhotoCache {
    let entries: Vec<(usize, String)> = (0..n).map(|i| (i, format!("img{i}.jpg"))).collect();
    let exif_entries: Vec<(String, ExifInfo)> =
        (0..n).map(|i| (img(i).serialize_as_key(), rec(2021, 5, "X100"))).collect();
    let photos: Vec<PhotoInfo> = (0..n).map(img).collect();
    let a = ArchiveCacheData {
        zip_file_name: "a.zip".to_owned(),
        entries,
        exif_entries,
        temporal_entries: vec![TemporalEntry { year: 2021, month: 5, photos }],
    };
    PhotoCache::build("photos".to_owned(), &vec![a])
}

#[test]
fn list_all_paginates_and_reports_the_next_page() {
    let cache = cache_with(5);
    let page = ListAllPhotosTool { offset: 0, limit: 2 }.run(&cache);
    assert_eq!(page.items.len(), 2);
    assert_eq!(page.total, 5);
    assert_eq!(page.next_offset, Some(2));
    assert_eq!(page.next_limit, 2);
    let page = ListAllPhotosTool { offset: 4, limit: 2 }.run(&cache);
    assert_eq!(page.items.len(), 1);
    assert_eq!(page.next_offset, None);
    let page = ListAllPhotosTool { offset: 9, limit: 2 }.run(&cache);
    assert!(page.items.is_empty());
    assert_eq!(page.next_offset, None);
}

#[test]
fn limits_are_clamped_to_each_tools_cap() {
    let cache = cache_with(3);
    let page = ListAllPhotosTool { offset: 0, limit: 2_000_000 }.run(&cache);
    assert_eq!(page.limit, 10000);
    let page = PhotoExifSearchTagTool {
        tag: "model".to_owned(),
        value: "x100".to_owned(),
        operator: "==".to_owned(),
        offset: 0,
        limit: 2_000_000,
    }
        .run(&cache)
        .unwrap();
    assert_eq!(page.limit, 1000);
}

#[test]
fn exif_search_tool_pages_matches() {
    let cache = cache_with(4);
    let page = PhotoExifSearchTagTool {
        tag: "model".to_owned(),
        value: "x100".to_owned(),
        operator: "==".to_owned(),
        offset: 1,
        limit: 2,
    }
        .run(&cache)
        .unwrap();
    assert_eq!(page.total, 4);
    assert_eq!(page.items.len(), 2);
    assert_eq!(page.items[0].file, img(1));
    assert_eq!(page.next_offset, Some(3));
}

#[test]
fn name_search_tool_honors_the_archive_filter() {
    let cache = cache_with(3);
    let hit = PhotoSearchByNameTool {
        file_name: "IMG1".to_owned(),
        zip_file_name: Some("a.Zip".to_owned()),
        offset: 0,
        limit: 10,
    }
        .run(&cache);
    assert_eq!(hit.total, 1);
    assert_eq!(hit.items, vec![img(1)]);
    let miss = PhotoSearchByNameTool {
        file_name: "img".to_owned(),
        zip_file_name: Some("b.zip".to_owned()),
        offset: 0,
        limit: 10,
    }
        .run(&cache);
    assert_eq!(miss.total, 0);
}

#[test]
fn year_month_tool_pages_the_bucket() {
    let cache = cache_with(3);
    let page = PhotoSearchByYearMonthTool { year: 2021, month: 5, offset: 0, limit: 2 }.run(&cache);
    assert_eq!(page.total, 3);
    assert_eq!(page.items.len(), 2);
    assert_eq!(page.next_offset, Some(2));
}

#[test]
fn exif_tool_returns_records_for_the_page() {
    let cache = cache_with(3);
    let page = PhotoExifTool {
        file_name: "img".to_owned(),
        zip_file_name: None,
        offset: 0,
        limit: 2,
    }
        .run(&cache)
        .unwrap();
    assert_eq!(page.total, 3);
    assert_eq!(page.items.len(), 2);
    assert_eq!(page.items[0].exif.model, "\"X100\"");
    assert_eq!(page.next_offset, Some(2));
}

#[test]
fn detection_tool_selects_a_page_of_matches() {
    let cache = cache_with(3);
    let (selected, total) = PhotoObjectDetectionTool {
        file_name: "img".to_owned(),
        zip_file_name: None,
        offset: 2,
        limit: 10,
    }
        .run(&cache);
    assert_eq!(total, 3);
    assert_eq!(selected, vec![img(2)]);
}

#[test]
fn exif_search_tool_refuses_a_bad_query() {
    let cache = cache_with(2);
    let r = PhotoExifSearchTagTool {
        tag: "model".to_owned(),
        value: "x".to_owned(),
        operator: ">=".to_owned(),
        offset: 0,
        limit: 10,
    }
        .run(&cache);
    assert!(r.err().unwrap().message.contains("Invalid operator for string"));
}

#[test]
fn tag_table_lists_the_searchable_tags() {
    let table = PhotoExifTagTool {}.run();
    assert_eq!(table.len(), 10);
    assert_eq!(table[0].0, "width");
    assert_eq!(table[0].1, "Integer");
    assert_eq!(table[0].2, vec!["==", ">", "<", ">=", "<=", "!="]);
    assert_eq!(table[7].0, "shutter_speed");
    assert_eq!(table[7].1, "Float");
    assert_eq!(table[8].0, "lens");
    assert_eq!(table[8].1, "String");
    assert_eq!(
        table[9].2,
        vec!["!=", "==", "contains", "starts_with", "ends_with"]
    );
}

#[test]
fn archive_and_directory_listing_tools() {
    let mut w = zip::ZipWriter::new(std::io::Cursor::new(Vec::new()));
    let opts: zip::write::SimpleFileOptions = Default::default();
    w.start_file("img1.jpg", opts).unwrap();
    w.write_all(b"AAA").unwrap();
    w.start_file("anim.gif", opts).unwrap();
    w.write_all(b"GGG").unwrap();
    w.start_file("notes.txt", opts).unwrap();
    w.write_all(b"t").unwrap();
    let data = w.finish().unwrap().into_inner();

    let listed = photo_insight::tools::ListImagesTool {
        image_dir: "photos".to_owned(),
        zip_file_name: "a.zip".to_owned(),
    }
        .run(&data)
        .unwrap();
    assert_eq!(listed, vec!["img1.jpg".to_owned(), "anim.gif".to_owned()]);

    let names = vec!["a.zip".to_owned(), "b.txt".to_owned()];
    let zips = photo_insight::tools::ListFileSystemTool { image_dir: "photos".to_owned() }
        .run(&names);
    assert_eq!(zips, vec!["a.zip".to_owned()]);
}
