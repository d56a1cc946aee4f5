//! Building the merged cache and querying it.

use photo_insight::cache::{ArchiveCacheData, PhotoCache, TemporalEntry};
use photo_insight::exif_data::ExifInfo;
use photo_insight::photo::PhotoInfo;

/// A record as extraction stores it: the model text quote-wrapped.
fn rec(year: u32, month: u32, model: &str) -> ExifInfo {
    ExifInfo {
        year,
        month,
        model: model.to_owned(),
        width: 4032,
        height: 3024,
        date_time: "\"2021-05-01 10:00:00\"".to_owned(),
        aperture: "5.6".to_owned(),
        shutter_speed: "250".to_owned(),
        iso: "400".to_owned(),
        focal_len: "35".to_owned(),
        lens: "\"unknown\"".to_owned(),
    }
}

fn img(zip: &str, name: &str, idx: usize) -> PhotoInfo {
    PhotoInfo::new(zip.to_owned(), name.to_owned(), idx)
}

/// The scenario archive: `a.zip` holds `img1.jpg` with metadata and
/// `img2.png` without any.
fn scenario_archive() -> ArchiveCacheData {
    let img1 = img("a.zip", "img1.jpg", 0);
    ArchiveCacheData {
        zip_file_name: "a.zip".to_owned(),
        entries: vec![(0, "img1.jpg".to_owned()), (1, "img2.png".to_owned())],
        exif_entries: vec![(img1.serialize_as_key(), rec(2021, 5, "\"X100\""))],
        temporal_entries: vec![TemporalEntry { year: 2021, month: 5, photos: vec![img1] }],
    }
}

#[test]
fn scenario_build_and_search_by_name() {
    let cache = PhotoCache::build("photos".to_owned(), &vec![scenario_archive()]);
    assert_eq!(cache.images.len(), 2);
    assert_eq!(cache.exif_cache.len(), 1);
    assert_eq!(cache.by_year_month.len(), 1);
    assert_eq!(cache.by_year_month[0].year, 2021);
    assert_eq!(cache.by_year_month[0].month, 5);
    assert_eq!(cache.by_year_month[0].photos, vec![img("a.zip", "img1.jpg", 0)]);
    // Searching by name "img" with limit 1 returns exactly one of the two,
    // and reports both.
    let (page, total) = cache.search_image_by_name(&"img".to_owned(), &None, 0, 1);
    assert_eq!(page.len(), 1);
    assert_eq!(total, 2);
}

#[test]
fn scenario_search_by_exif_tag_is_case_insensitive() {
    let cache = PhotoCache::build("photos".to_owned(), &vec![scenario_archive()]);
    let (hits, total) = cache
        .search_image_by_exif_tags(&"model".to_owned(), &"x100".to_owned(), &"==".to_owned(), 0, 10)
        .unwrap();
    assert_eq!(total, 1);
    assert_eq!(hits.len(), 1);
    assert_eq!(hits[0].file, img("a.zip", "img1.jpg", 0));
    assert_eq!(hits[0].exif.model, "\"X100\"");
}

#[test]
fn bad_queries_surface_to_the_caller() {
    let cache = PhotoCache::build("photos".to_owned(), &vec![scenario_archive()]);
    // Unknown tag.
    let r = cache.search_image_by_exif_tags(
        &"flash".to_owned(), &"1".to_owned(), &"==".to_owned(), 0, 10,
    );
    assert!(r.err().unwrap().message.contains("Invalid tag name"));
    // Operator foreign to the tag's type.
    let r = cache.search_image_by_exif_tags(
        &"year".to_owned(), &"2021".to_owned(), &"contains".to_owned(), 0, 10,
    );
    assert!(r.err().unwrap().message.contains("Invalid operator for number"));
    let r = cache.search_image_by_exif_tags(
        &"model".to_owned(), &"x".to_owned(), &">".to_owned(), 0, 10,
    );
    assert!(r.err().unwrap().message.contains("Invalid operator for string"));
    // Unparsable comparison literal.
    let r = cache.search_image_by_exif_tags(
        &"aperture".to_owned(), &"wide".to_owned(), &"==".to_owned(), 0, 10,
    );
    assert!(r.err().unwrap().message.contains("Invalid float value for comparison"));
    // A record whose own stored text does not parse is a non-match, not an
    // error for the whole query.
    let mut a = scenario_archive();
    a.exif_entries[0].1.aperture = "\"unknown\"".to_owned();
    let cache = PhotoCache::build("photos".to_owned(), &vec![a]);
    let (hits, total) = cache
        .search_image_by_exif_tags(&"aperture".to_owned(), &"5.6".to_owned(), &"==".to_owned(), 0, 10)
        .unwrap();
    assert_eq!(total, 0);
    assert!(hits.is_empty());
}

#[test]
fn every_indexed_photo_sits_in_its_record_bucket() {
    let mut second = scenario_archive();
    second.zip_file_name = "b.zip".to_owned();
    let img3 = img("b.zip", "img3.jpg", 0);
    second.entries = vec![(0, "img3.jpg".to_owned())];
    second.exif_entries = vec![(img3.serialize_as_key(), rec(2021, 5, "Q2"))];
    second.temporal_entries =
        vec![TemporalEntry { year: 2021, month: 5, photos: vec![img3.clone()] }];
    let cache = PhotoCache::build("photos".to_owned(), &vec![scenario_archive(), second]);
    // Both archives contribute to the same bucket, by concatenation.
    assert_eq!(cache.by_year_month.len(), 1);
    assert_eq!(
        cache.by_year_month[0].photos,
        vec![img("a.zip", "img1.jpg", 0), img3]
    );
    // Each photo with a record appears in exactly the bucket its record names.
    for (p, e) in &cache.exif_cache {
        let mut appearances = 0;
        for bucket in &cache.by_year_month {
            let here = bucket.photos.iter().filter(|q| *q == p).count();
            if here > 0 {
                assert_eq!(bucket.year, e.year);
                assert_eq!(bucket.month, e.month);
            }
            appearances += here;
        }
        assert_eq!(appearances, 1);
    }
}

#[test]
fn building_twice_from_the_same_files_gives_the_same_cache() {
    let c1 = PhotoCache::build("photos".to_owned(), &vec![scenario_archive()]);
    let c2 = PhotoCache::build("photos".to_owned(), &vec![scenario_archive()]);
    assert_eq!(c1.images, c2.images);
    assert_eq!(c1.exif_cache, c2.exif_cache);
    assert_eq!(c1.by_year_month, c2.by_year_month);
    // With the cache files present, the second pass writes nothing.
    assert_eq!(photo_insight::cache::plan_cache_write(true), false);
    assert_eq!(photo_insight::cache::plan_cache_write(false), true);
}

#[test]
fn corrupt_keys_are_dropped_not_fatal() {
    let mut a = scenario_archive();
    a.exif_entries.push(("garbage without pipes".to_owned(), rec(1999, 1, "Z")));
    let cache = PhotoCache::build("photos".to_owned(), &vec![a]);
    assert_eq!(cache.exif_cache.len(), 1);
}

fn five_photo_cache() -> PhotoCache {
    let names = ["p0.jpg", "p1.jpg", "p2.jpg", "p3.jpg", "p4.jpg"];
    let entries: Vec<(usize, String)> =
        names.iter().enumerate().map(|(i, n)| (i, (*n).to_owned())).collect();
    let a = ArchiveCacheData {
        zip_file_name: "a.zip".to_owned(),
        entries,
        exif_entries: vec![],
        temporal_entries: vec![],
    };
    PhotoCache::build("photos".to_owned(), &vec![a])
}

#[test]
fn pagination_clamps_and_reconstructs() {
    let cache = five_photo_cache();
    // Page length is min(limit, max(0, total - offset)).
    for offset in 0..8usize {
        for limit in 0..8usize {
            let (page, total) = cache.list_all_images(offset, limit);
            assert_eq!(total, 5);
            let expect = limit.min(5usize.saturating_sub(offset));
            assert_eq!(page.len(), expect, "offset {offset} limit {limit}");
        }
    }
    // Stepping the offset by each returned page length reconstructs the
    // whole list with no gap or overlap.
    let (all, _) = cache.list_all_images(0, 5);
    let mut rebuilt: Vec<PhotoInfo> = Vec::new();
    let mut offset = 0usize;
    loop {
        let (page, _) = cache.list_all_images(offset, 2);
        if page.is_empty() {
            break;
        }
        offset += page.len();
        rebuilt.extend(page);
    }
    assert_eq!(rebuilt, all);
}

#[test]
fn year_month_search_pages_the_bucket() {
    let cache = PhotoCache::build("photos".to_owned(), &vec![scenario_archive()]);
    let (page, total) = cache.search_image_by_year_month(2021, 5, 0, 10);
    assert_eq!(total, 1);
    assert_eq!(page, vec![img("a.zip", "img1.jpg", 0)]);
    let (page, total) = cache.search_image_by_year_month(1999, 1, 0, 10);
    assert_eq!(total, 0);
    assert!(page.is_empty());
}

#[test]
fn exif_info_looks_up_records_and_skips_missing_ones() {
    let cache = PhotoCache::build("photos".to_owned(), &vec![scenario_archive()]);
    let refs = vec![img("a.zip", "img2.png", 1), img("a.zip", "img1.jpg", 0)];
    let results = cache.exif_info(&refs).unwrap();
    assert_eq!(results.len(), 1);
    assert_eq!(results[0].file, img("a.zip", "img1.jpg", 0));
    assert_eq!(results[0].exif.year, 2021);
}

#[test]
fn cache_file_names() {
    assert_eq!(
        photo_insight::cache::form_file("photos", "a.zip", "exif"),
        "photos/a.zip.exif.json"
    );
    assert_eq!(
        photo_insight::cache::form_file("photos", "a.zip", "by_year_month"),
        "photos/a.zip.by_year_month.json"
    );
    assert_eq!(
        photo_insight::cache::form_file("photos", "a.zip", "object_detection"),
        "photos/a.zip.object_detection.json"
    );
}

#[test]
fn encode_and_decode_exif_entries_round_trip() {
    let entries = vec![
        (img("a.zip", "img1.jpg", 0), rec(2021, 5, "X100")),
        (img("a.zip", "img9.jpg", 9), rec(0, 0, "Q")),
    ];
    let encoded = photo_insight::cache::encode_exif_entries(&entries);
    assert_eq!(encoded[0].0, "a.zip|img1.jpg|0");
    let decoded = photo_insight::cache::decode_exif_file(&encoded);
    assert_eq!(decoded, entries);
}

#[test]
fn temporal_grouping_groups_by_year_and_month() {
    let entries = vec![
        (img("a.zip", "img1.jpg", 0), rec(2021, 5, "A")),
        (img("a.zip", "img2.jpg", 1), rec(0, 0, "B")),
        (img("a.zip", "img3.jpg", 2), rec(2021, 5, "C")),
    ];
    let grouped = photo_insight::cache::group_temporal(&entries);
    assert_eq!(grouped.len(), 2);
    assert_eq!(grouped[0].year, 2021);
    assert_eq!(grouped[0].month, 5);
    assert_eq!(
        grouped[0].photos,
        vec![img("a.zip", "img1.jpg", 0), img("a.zip", "img3.jpg", 2)]
    );
    // Unknown dates group under the zero bucket, not excluded.
    assert_eq!(grouped[1].year, 0);
    assert_eq!(grouped[1].month, 0);
    assert_eq!(grouped[1].photos, vec![img("a.zip", "img2.jpg", 1)]);
}
