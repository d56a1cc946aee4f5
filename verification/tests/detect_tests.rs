//! Planning the detection sweep: grouping, chunking, and the
//! skip-if-done rule.

use photo_insight::detect::{archive_detection_work, chunk_photos, group_photos_by_archive, DETECTION_CHUNK};
use photo_insight::photo::PhotoInfo;

fn img(zip: &str, idx: usize) -> PhotoInfo {
    PhotoInfo::new(zip.to_owned(), format!("img{idx}.jpg"), idx)
}

#[test]
fn grouping_by_archive_keeps_first_appearance_order() {
    let refs = vec![img("b.zip", 0), img("a.zip", 0), img("b.zip", 1), img("a.zip", 1)];
    let groups = group_photos_by_archive(&refs);
    assert_eq!(groups.len(), 2);
    assert_eq!(groups[0].0, "b.zip");
    assert_eq!(groups[0].1, vec![img("b.zip", 0), img("b.zip", 1)]);
    assert_eq!(groups[1].0, "a.zip");
    assert_eq!(groups[1].1, vec![img("a.zip", 0), img("a.zip", 1)]);
}

#[test]
fn chunking_partitions_in_order() {
    let photos: Vec<PhotoInfo> = (0..250).map(|i| img("a.zip", i)).collect();
    let chunks = chunk_photos(&photos, 100);
    assert_eq!(chunks.len(), 3);
    assert_eq!(chunks[0].len(), 100);
    assert_eq!(chunks[1].len(), 100);
    assert_eq!(chunks[2].len(), 50);
    let rebuilt: Vec<PhotoInfo> = chunks.into_iter().flatten().collect();
    assert_eq!(rebuilt, photos);
    assert!(chunk_photos(&Vec::new(), 100).is_empty());
}

#[test]
fn existing_result_file_means_zero_detector_invocations() {
    let photos: Vec<PhotoInfo> = (0..150).map(|i| img("a.zip", i)).collect();

    // First sweep: no result file yet, so the detector runs per chunk and
    // the driver then writes the archive's result file.
    let mut result_file_exists = false;
    let mut invocations = 0usize;
    if let Some(chunks) = archive_detection_work(&photos, result_file_exists) {
        for _chunk in &chunks {
            invocations += 1;
        }
        result_file_exists = true;
    }
    assert_eq!(invocations, 2);
    assert!(result_file_exists);

    // Second sweep over the same archive: the result file exists, the
    // archive is skipped whole, and the detector is never invoked.
    let mut second_invocations = 0usize;
    if let Some(chunks) = archive_detection_work(&photos, result_file_exists) {
        for _chunk in &chunks {
            second_invocations += 1;
        }
    }
    assert_eq!(second_invocations, 0);
}

#[test]
fn chunk_size_is_one_hundred() {
    assert_eq!(DETECTION_CHUNK, 100);
    let photos: Vec<PhotoInfo> = (0..101).map(|i| img("a.zip", i)).collect();
    let chunks = archive_detection_work(&photos, false).unwrap();
    assert_eq!(chunks.len(), 2);
    assert_eq!(chunks[0].len(), 100);
    assert_eq!(chunks[1].len(), 1);
}
