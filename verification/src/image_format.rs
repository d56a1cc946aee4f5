//! Image container recognition by magic bytes.
//!
//! The format of a byte stream is judged by its leading signature against
//! a fixed table, never by a file extension; the MIME type is derived from
//! the recognized format, defaulting to a generic binary type.

use vstd::prelude::*;
use crate::error::PhotoInsightError;
use crate::text::str_chars;

verus! {

/// A recognizable image container format.
#[derive(Debug, Clone, Copy, PartialEq, Eq, Structural)]
pub enum ImageFormat {
    /// An image in PNG format
    Png,
    /// An image in JPEG format
    Jpeg,
    /// An image in GIF format
    Gif,
    /// An image in WEBP format
    WebP,
    /// An image in general PNM format
    Pnm,
    /// An image in TIFF format
    Tiff,
    /// An image in TGA format
    Tga,
    /// An image in DDS format
    Dds,
    /// An image in BMP format
    Bmp,
    /// An image in ICO format
    Ico,
    /// An image in Radiance HDR format
    Hdr,
    /// An image in OpenEXR format
    OpenExr,
    /// An image in farbfeld format
    Farbfeld,
    /// An image in AVIF format
    Avif,
    /// An image in QOI format
    Qoi,
    /// An image in PCX format
    Pcx,
}

/// The bytes start with the signature.
pub open spec fn buf_starts(b: Seq<u8>, sig: Seq<u8>) -> bool {
    b.len() >= sig.len() && forall|j: int| 0 <= j < sig.len() ==> b[j] == sig[j]
}

/// The RIFF....WEBP signature: four wildcard length bytes in the middle.
pub open spec fn webp_match(b: Seq<u8>) -> bool {
    b.len() >= 12 && b[0] == 0x52u8 && b[1] == 0x49u8 && b[2] == 0x46u8 && b[3] == 0x46u8 && b[8]
        == 0x57u8 && b[9] == 0x45u8 && b[10] == 0x42u8 && b[11] == 0x50u8
}

/// The ISO-BMFF `ftypavif` signature: two zero bytes, two wildcard bytes,
/// then the brand.
pub open spec fn avif_match(b: Seq<u8>) -> bool {
    b.len() >= 12 && b[0] == 0u8 && b[1] == 0u8 && b[4] == 0x66u8 && b[5] == 0x74u8 && b[6]
        == 0x79u8 && b[7] == 0x70u8 && b[8] == 0x61u8 && b[9] == 0x76u8 && b[10] == 0x69u8 && b[11]
        == 0x66u8
}

pub open spec fn png_sig() -> Seq<u8> {
    seq![0x89u8, 0x50u8, 0x4eu8, 0x47u8, 0x0du8, 0x0au8, 0x1au8, 0x0au8]
}

pub open spec fn jpeg_sig() -> Seq<u8> {
    seq![0xffu8, 0xd8u8, 0xffu8]
}

pub open spec fn gif89_sig() -> Seq<u8> {
    seq![0x47u8, 0x49u8, 0x46u8, 0x38u8, 0x39u8, 0x61u8]
}

pub open spec fn gif87_sig() -> Seq<u8> {
    seq![0x47u8, 0x49u8, 0x46u8, 0x38u8, 0x37u8, 0x61u8]
}

pub open spec fn tiff_mm_sig() -> Seq<u8> {
    seq![0x4du8, 0x4du8, 0x00u8, 0x2au8]
}

pub open spec fn tiff_ii_sig() -> Seq<u8> {
    seq![0x49u8, 0x49u8, 0x2au8, 0x00u8]
}

pub open spec fn dds_sig() -> Seq<u8> {
    seq![0x44u8, 0x44u8, 0x53u8, 0x20u8]
}

pub open spec fn bmp_sig() -> Seq<u8> {
    seq![0x42u8, 0x4du8]
}

pub open spec fn ico_sig() -> Seq<u8> {
    seq![0x00u8, 0x00u8, 0x01u8, 0x00u8]
}

pub open spec fn hdr_sig() -> Seq<u8> {
    seq![0x23u8, 0x3fu8, 0x52u8, 0x41u8, 0x44u8, 0x49u8, 0x41u8, 0x4eu8, 0x43u8, 0x45u8]
}

pub open spec fn openexr_sig() -> Seq<u8> {
    seq![0x76u8, 0x2fu8, 0x31u8, 0x01u8]
}

pub open spec fn qoi_sig() -> Seq<u8> {
    seq![0x71u8, 0x6fu8, 0x69u8, 0x66u8]
}

pub open spec fn pnm_sig(k: u8) -> Seq<u8> {
    seq![0x50u8, (0x30u8 + k) as u8]
}

pub open spec fn farbfeld_sig() -> Seq<u8> {
    seq![0x66u8, 0x61u8, 0x72u8, 0x62u8, 0x66u8, 0x65u8, 0x6cu8, 0x64u8]
}

/// The format the magic-byte table assigns to a byte stream, if any;
/// entries are tried in the table's order.
pub open spec fn format_of(b: Seq<u8>) -> Option<ImageFormat> {
    if buf_starts(b, png_sig()) {
        Some(ImageFormat::Png)
    } else if buf_starts(b, jpeg_sig()) {
        Some(ImageFormat::Jpeg)
    } else if buf_starts(b, gif89_sig()) || buf_starts(b, gif87_sig()) {
        Some(ImageFormat::Gif)
    } else if webp_match(b) {
        Some(ImageFormat::WebP)
    } else if buf_starts(b, tiff_mm_sig()) || buf_starts(b, tiff_ii_sig()) {
        Some(ImageFormat::Tiff)
    } else if buf_starts(b, dds_sig()) {
        Some(ImageFormat::Dds)
    } else if buf_starts(b, bmp_sig()) {
        Some(ImageFormat::Bmp)
    } else if buf_starts(b, ico_sig()) {
        Some(ImageFormat::Ico)
    } else if buf_starts(b, hdr_sig()) {
        Some(ImageFormat::Hdr)
    } else if avif_match(b) {
        Some(ImageFormat::Avif)
    } else if buf_starts(b, openexr_sig()) {
        Some(ImageFormat::OpenExr)
    } else if buf_starts(b, qoi_sig()) {
        Some(ImageFormat::Qoi)
    } else if buf_starts(b, pnm_sig(1)) || buf_starts(b, pnm_sig(2)) || buf_starts(b, pnm_sig(3))
        || buf_starts(b, pnm_sig(4)) || buf_starts(b, pnm_sig(5)) || buf_starts(b, pnm_sig(6))
        || buf_starts(b, pnm_sig(7)) {
        Some(ImageFormat::Pnm)
    } else if buf_starts(b, farbfeld_sig()) {
        Some(ImageFormat::Farbfeld)
    } else {
        None
    }
}

/// Checks a signature prefix.
fn check_sig(buf: &[u8], sig: &Vec<u8>) -> (r: bool)
    ensures
        r == buf_starts(buf@, sig@),
{
    let m = sig.len();
    if buf.len() < m {
        return false;
    }
    let mut j: usize = 0;
    while j < m
        invariant
            m == sig@.len(),
            m <= buf@.len(),
            j <= m,
            forall|k: int| 0 <= k < j ==> buf@[k] == sig@[k],
        decreases m - j,
    {
        if buf[j] != sig[j] {
            return false;
        }
        j = j + 1;
    }
    true
}

/// Recognizes the container format from the leading magic bytes.
pub fn guess_format(buffer: &[u8]) -> (r: Result<ImageFormat, PhotoInsightError>)
    ensures
        match format_of(buffer@) {
            Some(f) => r == Ok::<ImageFormat, PhotoInsightError>(f),
            None => r is Err,
        },
{
    let png: Vec<u8> = vec![0x89u8, 0x50, 0x4e, 0x47, 0x0d, 0x0a, 0x1a, 0x0a];
    proof {
        assert(png@ =~= png_sig());
    }
    if check_sig(buffer, &png) {
        return Ok(ImageFormat::Png);
    }
    let jpeg: Vec<u8> = vec![0xffu8, 0xd8, 0xff];
    proof {
        assert(jpeg@ =~= jpeg_sig());
    }
    if check_sig(buffer, &jpeg) {
        return Ok(ImageFormat::Jpeg);
    }
    let gif89: Vec<u8> = vec![0x47u8, 0x49, 0x46, 0x38, 0x39, 0x61];
    let gif87: Vec<u8> = vec![0x47u8, 0x49, 0x46, 0x38, 0x37, 0x61];
    proof {
        assert(gif89@ =~= gif89_sig());
        assert(gif87@ =~= gif87_sig());
    }
    if check_sig(buffer, &gif89) || check_sig(buffer, &gif87) {
        return Ok(ImageFormat::Gif);
    }
    if buffer.len() >= 12 && buffer[0] == 0x52 && buffer[1] == 0x49 && buffer[2] == 0x46
        && buffer[3] == 0x46 && buffer[8] == 0x57 && buffer[9] == 0x45 && buffer[10] == 0x42
        && buffer[11] == 0x50 {
        return Ok(ImageFormat::WebP);
    }
    let tiff_mm: Vec<u8> = vec![0x4du8, 0x4d, 0x00, 0x2a];
    let tiff_ii: Vec<u8> = vec![0x49u8, 0x49, 0x2a, 0x00];
    proof {
        assert(tiff_mm@ =~= tiff_mm_sig());
        assert(tiff_ii@ =~= tiff_ii_sig());
    }
    if check_sig(buffer, &tiff_mm) || check_sig(buffer, &tiff_ii) {
        return Ok(ImageFormat::Tiff);
    }
    let dds: Vec<u8> = vec![0x44u8, 0x44, 0x53, 0x20];
    proof {
        assert(dds@ =~= dds_sig());
    }
    if check_sig(buffer, &dds) {
        return Ok(ImageFormat::Dds);
    }
    let bmp: Vec<u8> = vec![0x42u8, 0x4d];
    proof {
        assert(bmp@ =~= bmp_sig());
    }
    if check_sig(buffer, &bmp) {
        return Ok(ImageFormat::Bmp);
    }
    let ico: Vec<u8> = vec![0x00u8, 0x00, 0x01, 0x00];
    proof {
        assert(ico@ =~= ico_sig());
    }
    if check_sig(buffer, &ico) {
        return Ok(ImageFormat::Ico);
    }
    let hdr: Vec<u8> = vec![0x23u8, 0x3f, 0x52, 0x41, 0x44, 0x49, 0x41, 0x4e, 0x43, 0x45];
    proof {
        assert(hdr@ =~= hdr_sig());
    }
    if check_sig(buffer, &hdr) {
        return Ok(ImageFormat::Hdr);
    }
    if buffer.len() >= 12 && buffer[0] == 0 && buffer[1] == 0 && buffer[4] == 0x66 && buffer[5]
        == 0x74 && buffer[6] == 0x79 && buffer[7] == 0x70 && buffer[8] == 0x61 && buffer[9] == 0x76
        && buffer[10] == 0x69 && buffer[11] == 0x66 {
        return Ok(ImageFormat::Avif);
    }
    let openexr: Vec<u8> = vec![0x76u8, 0x2f, 0x31, 0x01];
    proof {
        assert(openexr@ =~= openexr_sig());
    }
    if check_sig(buffer, &openexr) {
        return Ok(ImageFormat::OpenExr);
    }
    let qoi: Vec<u8> = vec![0x71u8, 0x6f, 0x69, 0x66];
    proof {
        assert(qoi@ =~= qoi_sig());
    }
    if check_sig(buffer, &qoi) {
        return Ok(ImageFormat::Qoi);
    }
    let mut k: u8 = 1;
    while k <= 7
        invariant
            1 <= k <= 8,
            forall|m: u8| 1 <= m < k ==> !buf_starts(buffer@, pnm_sig(m)),
        decreases 8 - k,
    {
        let pnm: Vec<u8> = vec![0x50u8, 0x30 + k];
        proof {
            assert(pnm@ =~= pnm_sig(k));
        }
        if check_sig(buffer, &pnm) {
            return Ok(ImageFormat::Pnm);
        }
        k = k + 1;
    }
    let farbfeld: Vec<u8> = vec![0x66u8, 0x61, 0x72, 0x62, 0x66, 0x65, 0x6c, 0x64];
    proof {
        assert(farbfeld@ =~= farbfeld_sig());
    }
    if check_sig(buffer, &farbfeld) {
        return Ok(ImageFormat::Farbfeld);
    }
    Err(
        PhotoInsightError::from_message(
            crate::text::chars_to_string(
                &str_chars("Unknown image format: magic bytes do not match"),
            ),
        ),
    )
}

/// The MIME type belonging to a recognized format.
pub open spec fn mime_of_format(f: ImageFormat) -> Seq<char> {
    match f {
        ImageFormat::Png => "image/png"@,
        ImageFormat::Jpeg => "image/jpeg"@,
        ImageFormat::Gif => "image/gif"@,
        ImageFormat::Bmp => "image/bmp"@,
        ImageFormat::Tiff => "image/tiff"@,
        ImageFormat::WebP => "image/webp"@,
        ImageFormat::Pnm => "image/pnm"@,
        ImageFormat::Tga => "image/tga"@,
        ImageFormat::Dds => "image/dds"@,
        ImageFormat::Ico => "image/ico"@,
        ImageFormat::Hdr => "image/hdr"@,
        ImageFormat::OpenExr => "image/openexr"@,
        ImageFormat::Farbfeld => "image/farbfeld"@,
        ImageFormat::Avif => "image/avif"@,
        ImageFormat::Qoi => "image/qoi"@,
        ImageFormat::Pcx => "image/pcx"@,
    }
}

/// The MIME type the magic bytes earn, with the generic binary default.
pub open spec fn mime_of(b: Seq<u8>) -> Seq<char> {
    match format_of(b) {
        Some(f) => mime_of_format(f),
        None => "application/octet-stream"@,
    }
}

/// Derives a MIME type by sniffing the bytes' magic-number signature.
pub fn mime_from_image(image_data: &Vec<u8>) -> (r: String)
    ensures
        r@ == mime_of(image_data@),
{
    match guess_format(image_data.as_slice()) {
        Ok(f) => {
            let s: &str = match f {
                ImageFormat::Png => "image/png",
                ImageFormat::Jpeg => "image/jpeg",
                ImageFormat::Gif => "image/gif",
                ImageFormat::Bmp => "image/bmp",
                ImageFormat::Tiff => "image/tiff",
                ImageFormat::WebP => "image/webp",
                ImageFormat::Pnm => "image/pnm",
                ImageFormat::Tga => "image/tga",
                ImageFormat::Dds => "image/dds",
                ImageFormat::Ico => "image/ico",
                ImageFormat::Hdr => "image/hdr",
                ImageFormat::OpenExr => "image/openexr",
                ImageFormat::Farbfeld => "image/farbfeld",
                ImageFormat::Avif => "image/avif",
                ImageFormat::Qoi => "image/qoi",
                ImageFormat::Pcx => "image/pcx",
            };
            crate::text::chars_to_string(&str_chars(s))
        },
        Err(_) => crate::text::chars_to_string(&str_chars("application/octet-stream")),
    }
}

} // verus!
