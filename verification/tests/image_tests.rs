//! Format sniffing and the thumbnail materialization path, against the
//! real pixel codec.

use photo_insight::cache::{ArchiveCacheData, PhotoCache};
use photo_insight::image_format::{guess_format, mime_from_image, ImageFormat};
use photo_insight::image_ops::{resize, thumb_canvas};
use std::io::Write;

fn png_bytes(w: u32, h: u32) -> Vec<u8> {
    let img = image::DynamicImage::ImageRgb8(image::RgbImage::new(w, h));
    let mut out: Vec<u8> = Vec::new();
    img.write_to(&mut std::io::Cursor::new(&mut out), image::ImageFormat::Png).unwrap();
    out
}

#[test]
fn magic_bytes_not_extensions_decide_the_format() {
    assert!(matches!(
        guess_format(&[0x89, b'P', b'N', b'G', 0x0d, 0x0a, 0x1a, 0x0a, 0, 0]),
        Ok(ImageFormat::Png)
    ));
    assert!(matches!(guess_format(&[0xff, 0xd8, 0xff, 0xe0]), Ok(ImageFormat::Jpeg)));
    assert!(matches!(guess_format(b"GIF89a...."), Ok(ImageFormat::Gif)));
    assert!(matches!(guess_format(b"GIF87a...."), Ok(ImageFormat::Gif)));
    assert!(matches!(guess_format(b"RIFFxxxxWEBPdata"), Ok(ImageFormat::WebP)));
    assert!(matches!(guess_format(b"MM\x00*rest"), Ok(ImageFormat::Tiff)));
    assert!(matches!(guess_format(b"II*\x00rest"), Ok(ImageFormat::Tiff)));
    assert!(matches!(guess_format(b"BMxxxx"), Ok(ImageFormat::Bmp)));
    assert!(matches!(guess_format(b"qoifxxxx"), Ok(ImageFormat::Qoi)));
    assert!(matches!(guess_format(b"P6 2 2 255 "), Ok(ImageFormat::Pnm)));
    assert!(matches!(guess_format(b"farbfeldxxxx"), Ok(ImageFormat::Farbfeld)));
    assert!(guess_format(b"plain text").is_err());
    assert!(guess_format(b"").is_err());
}

#[test]
fn mime_comes_from_the_bytes() {
    assert_eq!(mime_from_image(&png_bytes(3, 3)), "image/png");
    assert_eq!(mime_from_image(&vec![0xff, 0xd8, 0xff, 0xe1]), "image/jpeg");
    assert_eq!(mime_from_image(&b"who knows".to_vec()), "application/octet-stream");
}

#[test]
fn canvas_follows_orientation() {
    assert_eq!(thumb_canvas(4032, 3024), (160, 100));
    assert_eq!(thumb_canvas(100, 100), (160, 100));
    assert_eq!(thumb_canvas(3024, 4032), (100, 160));
}

#[test]
fn resize_reencodes_as_jpeg() {
    let png = png_bytes(64, 32);
    let out = resize(&png, 0, 0).unwrap();
    assert_eq!(mime_from_image(&out), "image/jpeg");
    // Garbage cannot be decoded.
    assert!(resize(&vec![1u8, 2, 3], 0, 0).is_err());
}

#[test]
fn image_data_serves_resized_bytes_with_their_mime() {
    // One archive holding one PNG photo without any metadata: the
    // materializer falls back to the software resize.
    let png = png_bytes(32, 16);
    let mut w = zip::ZipWriter::new(std::io::Cursor::new(Vec::new()));
    let opts: zip::write::SimpleFileOptions = Default::default();
    w.start_file("img1.png", opts).unwrap();
    w.write_all(&png).unwrap();
    let zip_data = w.finish().unwrap().into_inner();

    let archive = ArchiveCacheData {
        zip_file_name: "a.zip".to_owned(),
        entries: vec![(0, "img1.png".to_owned())],
        exif_entries: vec![],
        temporal_entries: vec![],
    };
    let cache = PhotoCache::build("photos".to_owned(), &vec![archive]);
    let zip_files = vec![("a.zip".to_owned(), zip_data)];
    let got = cache.image_data(&zip_files, &cache.images.clone()).unwrap();
    assert_eq!(got.len(), 1);
    assert_eq!(got[0].1, "image/jpeg");
    assert_eq!(mime_from_image(&got[0].2), "image/jpeg");

    // An identity pointing past the archive's entries is a container
    // error naming the index and the archive.
    let bad = vec![photo_insight::photo::PhotoInfo::new(
        "a.zip".to_owned(),
        "img9.png".to_owned(),
        9,
    )];
    let r = cache.image_data(&zip_files, &bad);
    assert_eq!(
        r.err().unwrap().message,
        "File index 9 out of bounds in zip a.zip"
    );

    // A referenced archive with no bytes provided fails the batch.
    let r = cache.image_data(&vec![], &cache.images.clone());
    assert_eq!(r.err().unwrap().message, "Provided zip file path is not a file");
}
