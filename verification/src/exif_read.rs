//! Metadata extraction from image bytes.
//!
//! The tag decoder is the `exif` crate's; what it shows for a tag is a
//! pure function of the container bytes, the tag's context level and its
//! numeric code, named by [`exif_display_of`]. Everything downstream is
//! verified: candidate-tag resolution with its zero and "unknown"
//! fallbacks, quote stripping and re-wrapping, the fractional
//! shutter-speed form, date recognition, and the embedded-thumbnail
//! range check with its resize fallback.

use vstd::prelude::*;
use crate::cache::opt_view;
use crate::decimal::dec_parse_spec;
use crate::error::PhotoInsightError;
use crate::exif_data::{ExifInfo, ExifInfoV};
use crate::photo::{PhotoInfo, PhotoInfoV};
use crate::text::{
    append_chars, chars_contain, chars_to_string, digits_val, is_digit_char, parse_u32_chars,
    parse_uint_spec, seq_has, split_chars, split_on, str_chars, strip_chars, strip_spec,
    trim_chars, trim_spec, unquote_chars, unquoted,
};
use crate::zip_store::{is_image_file, is_image_name};

verus! {

/// Does the `exif` crate's reader accept the container bytes at all?
pub uninterp spec fn exif_readable(data: Seq<u8>) -> bool;

/// What the decoder displays for the tag with this context level and
/// code in the primary image, if the tag is present: a function of the
/// bytes, the level and the code alone. The level distinguishes
/// TIFF-level attributes from Exif-IFD ones, as the decoder keys fields
/// by (context, code).
pub uninterp spec fn exif_display_of(data: Seq<u8>, tiff_level: bool, code: int) -> Option<
    Seq<char>,
>;

/// The embedded thumbnail's byte offset, when recorded.
pub uninterp spec fn exif_thumb_offset_of(data: Seq<u8>) -> Option<u32>;

/// The embedded thumbnail's byte length, when recorded.
pub uninterp spec fn exif_thumb_length_of(data: Seq<u8>) -> Option<u32>;

/// The TIFF buffer the decoder exposes for the container.
pub uninterp spec fn exif_tiff_of(data: Seq<u8>) -> Seq<u8>;

/// A source tag the extractor may consult.
#[derive(Debug, Clone, Copy, PartialEq, Eq, Structural)]
pub enum ExifTagId {
    Model,
    ImageWidth,
    ImageLength,
    PixelXDimension,
    PixelYDimension,
    DateTimeOriginal,
    DateTime,
    DateTimeDigitized,
    FNumber,
    ApertureValue,
    ShutterSpeedValue,
    ExposureTime,
    IsoSpeed,
    PhotographicSensitivity,
    FocalLengthIn35mmFilm,
    FocalLength,
    LensModel,
    LensSpecification,
    LensMake,
}

/// The numeric code of each source tag, as the TIFF/EXIF standard and the
/// decoder's own table give them.
pub open spec fn tag_code(t: ExifTagId) -> int {
    match t {
        ExifTagId::Model => 0x110,
        ExifTagId::ImageWidth => 0x100,
        ExifTagId::ImageLength => 0x101,
        ExifTagId::PixelXDimension => 0xa002,
        ExifTagId::PixelYDimension => 0xa003,
        ExifTagId::DateTimeOriginal => 0x9003,
        ExifTagId::DateTime => 0x132,
        ExifTagId::DateTimeDigitized => 0x9004,
        ExifTagId::FNumber => 0x829d,
        ExifTagId::ApertureValue => 0x9202,
        ExifTagId::ShutterSpeedValue => 0x9201,
        ExifTagId::ExposureTime => 0x829a,
        ExifTagId::IsoSpeed => 0x8833,
        ExifTagId::PhotographicSensitivity => 0x8827,
        ExifTagId::FocalLengthIn35mmFilm => 0xa405,
        ExifTagId::FocalLength => 0x920a,
        ExifTagId::LensModel => 0xa434,
        ExifTagId::LensSpecification => 0xa432,
        ExifTagId::LensMake => 0xa433,
    }
}

/// Is the tag a TIFF-level attribute (as opposed to an Exif-IFD one)?
pub open spec fn tag_is_tiff(t: ExifTagId) -> bool {
    t == ExifTagId::Model || t == ExifTagId::ImageWidth || t == ExifTagId::ImageLength || t
        == ExifTagId::DateTime
}

/// The context level and numeric code of a source tag.
fn tag_num(t: ExifTagId) -> (r: (bool, u16))
    ensures
        r.0 == tag_is_tiff(t),
        r.1 as int == tag_code(t),
{
    match t {
        ExifTagId::Model => (true, 0x110),
        ExifTagId::ImageWidth => (true, 0x100),
        ExifTagId::ImageLength => (true, 0x101),
        ExifTagId::PixelXDimension => (false, 0xa002),
        ExifTagId::PixelYDimension => (false, 0xa003),
        ExifTagId::DateTimeOriginal => (false, 0x9003),
        ExifTagId::DateTime => (true, 0x132),
        ExifTagId::DateTimeDigitized => (false, 0x9004),
        ExifTagId::FNumber => (false, 0x829d),
        ExifTagId::ApertureValue => (false, 0x9202),
        ExifTagId::ShutterSpeedValue => (false, 0x9201),
        ExifTagId::ExposureTime => (false, 0x829a),
        ExifTagId::IsoSpeed => (false, 0x8833),
        ExifTagId::PhotographicSensitivity => (false, 0x8827),
        ExifTagId::FocalLengthIn35mmFilm => (false, 0xa405),
        ExifTagId::FocalLength => (false, 0x920a),
        ExifTagId::LensModel => (false, 0xa434),
        ExifTagId::LensSpecification => (false, 0xa432),
        ExifTagId::LensMake => (false, 0xa433),
    }
}

/// Relies on `exif::Reader::read_from_container`, `Exif::get_field` with
/// the primary image, and `Field::display_value`: the displayable text of
/// the tag, determined by the container bytes, the context level and the
/// code together (`exif::Tag` is the pair of a context and the code,
/// compared field-wise, and the parser keys TIFF-level and Exif-IFD
/// fields under different contexts).
#[verifier::external_body]
fn exif_display_raw(data: &Vec<u8>, tiff_level: bool, code: u16) -> (r: Result<
    Option<String>,
    String,
>)
    ensures
        r matches Ok(o) ==> exif_readable(data@) && opt_view(o) == exif_display_of(
            data@,
            tiff_level,
            code as int,
        ),
        r is Err <==> !exif_readable(data@),
{
    let ctx = if tiff_level { exif::Context::Tiff } else { exif::Context::Exif };
    match exif::Reader::new().read_from_container(&mut std::io::Cursor::new(data)) {
        Ok(doc) => Ok(
            doc.get_field(exif::Tag(ctx, code), exif::In::PRIMARY).map(
                |f| f.display_value().to_string(),
            ),
        ),
        Err(e) => Err(e.to_string()),
    }
}

/// Relies on `Exif::get_field` with the thumbnail image and
/// `Value::get_uint`: the recorded thumbnail offset.
#[verifier::external_body]
fn exif_thumb_offset(data: &Vec<u8>) -> (r: Result<Option<u32>, String>)
    ensures
        r matches Ok(o) ==> exif_readable(data@) && o == exif_thumb_offset_of(data@),
        r is Err <==> !exif_readable(data@),
{
    match exif::Reader::new().read_from_container(&mut std::io::Cursor::new(data)) {
        Ok(doc) => Ok(
            doc.get_field(exif::Tag::JPEGInterchangeFormat, exif::In::THUMBNAIL).and_then(
                |f| f.value.get_uint(0),
            ),
        ),
        Err(e) => Err(e.to_string()),
    }
}

/// Relies on `Exif::get_field` with the thumbnail image and
/// `Value::get_uint`: the recorded thumbnail length.
#[verifier::external_body]
fn exif_thumb_length(data: &Vec<u8>) -> (r: Result<Option<u32>, String>)
    ensures
        r matches Ok(o) ==> exif_readable(data@) && o == exif_thumb_length_of(data@),
        r is Err <==> !exif_readable(data@),
{
    match exif::Reader::new().read_from_container(&mut std::io::Cursor::new(data)) {
        Ok(doc) => Ok(
            doc.get_field(exif::Tag::JPEGInterchangeFormatLength, exif::In::THUMBNAIL).and_then(
                |f| f.value.get_uint(0),
            ),
        ),
        Err(e) => Err(e.to_string()),
    }
}

/// Relies on `Exif::buf`: the TIFF buffer of the parsed container.
#[verifier::external_body]
fn exif_tiff_buffer(data: &Vec<u8>) -> (r: Result<Vec<u8>, String>)
    ensures
        r matches Ok(b) ==> exif_readable(data@) && b@ == exif_tiff_of(data@),
        r is Err <==> !exif_readable(data@),
{
    match exif::Reader::new().read_from_container(&mut std::io::Cursor::new(data)) {
        Ok(doc) => Ok(doc.buf().to_vec()),
        Err(e) => Err(e.to_string()),
    }
}

/// Reads one tag's display text, mapping a decoder failure to the
/// library's error.
fn disp(data: &Vec<u8>, t: ExifTagId) -> (r: Result<Option<String>, PhotoInsightError>)
    ensures
        r matches Ok(o) ==> exif_readable(data@) && opt_view(o) == exif_display_of(
            data@,
            tag_is_tiff(t),
            tag_code(t),
        ),
        r is Err <==> !exif_readable(data@),
{
    let (tiff_level, code) = tag_num(t);
    match exif_display_raw(data, tiff_level, code) {
        Ok(o) => Ok(o),
        Err(e) => Err(PhotoInsightError::new(e)),
    }
}

/// The views of a candidate list.
pub open spec fn cand_views(s: Seq<Option<String>>) -> Seq<Option<Seq<char>>> {
    s.map_values(|o: Option<String>| opt_view(o))
}

/// What resolving an ordered candidate list yields: the first present
/// candidate wins. A numeric field keeps the text only if it parses under
/// the fixed-point reading and degrades to `"0"` otherwise; a text field
/// is stripped of quotes and commas, trimmed, and re-wrapped in quotes,
/// defaulting to `"unknown"` when no candidate is present.
pub open spec fn spec_extract_tag(cands: Seq<Option<Seq<char>>>, numeric: bool) -> Seq<char>
    decreases cands.len(),
{
    if cands.len() == 0 {
        if numeric {
            "0"@
        } else {
            "\"unknown\""@
        }
    } else {
        match cands[0] {
            Some(v) => {
                if numeric {
                    if dec_parse_spec(v) is Some {
                        v
                    } else {
                        "0"@
                    }
                } else {
                    seq!['"'] + trim_spec(strip_spec(v)) + seq!['"']
                }
            },
            None => spec_extract_tag(cands.drop_first(), numeric),
        }
    }
}

/// Resolves an ordered candidate list to a field value.
pub fn extract_tag(candidates: &Vec<Option<String>>, numeric: bool) -> (r: String)
    ensures
        r@ == spec_extract_tag(cand_views(candidates@), numeric),
{
    let n = candidates.len();
    let mut i: usize = 0;
    proof {
        assert(cand_views(candidates@).subrange(0, n as int) =~= cand_views(candidates@));
    }
    while i < n
        invariant
            i <= n,
            n == candidates@.len(),
            spec_extract_tag(cand_views(candidates@), numeric) == spec_extract_tag(
                cand_views(candidates@).subrange(i as int, n as int),
                numeric,
            ),
        decreases n - i,
    {
        let ghost rem = cand_views(candidates@).subrange(i as int, n as int);
        proof {
            assert(rem[0] == cand_views(candidates@)[i as int]);
            assert(rem[0] == opt_view(candidates@[i as int]));
            assert(rem.drop_first() =~= cand_views(candidates@).subrange(i + 1, n as int));
        }
        match &candidates[i] {
            Some(s) => {
                let cs = str_chars(s.as_str());
                if numeric {
                    match crate::decimal::dec_parse_chars(&cs) {
                        Some(_) => {
                            return s.clone();
                        },
                        None => {
                            return chars_to_string(&str_chars("0"));
                        },
                    }
                } else {
                    let stripped = strip_chars(&cs);
                    let trimmed = trim_chars(&stripped);
                    let mut m: Vec<char> = Vec::new();
                    m.push('"');
                    append_chars(&mut m, &trimmed);
                    m.push('"');
                    proof {
                        assert(m@ =~= seq!['"'] + trim_spec(strip_spec(s@)) + seq!['"']);
                    }
                    return chars_to_string(&m);
                }
            },
            None => {},
        }
        i = i + 1;
    }
    proof {
        assert(cand_views(candidates@).subrange(n as int, n as int) =~= Seq::<
            Option<Seq<char>>,
        >::empty());
    }
    if numeric {
        chars_to_string(&str_chars("0"))
    } else {
        chars_to_string(&str_chars("\"unknown\""))
    }
}

/// The date pattern holds at position `k`: four digits, a hyphen, two
/// digits.
pub open spec fn date_match_at(s: Seq<char>, k: int) -> bool {
    &&& 0 <= k
    &&& k + 7 <= s.len()
    &&& is_digit_char(s[k])
    &&& is_digit_char(s[k + 1])
    &&& is_digit_char(s[k + 2])
    &&& is_digit_char(s[k + 3])
    &&& s[k + 4] == '-'
    &&& is_digit_char(s[k + 5])
    &&& is_digit_char(s[k + 6])
}

/// The year captured at position `k`.
pub open spec fn date_year_at(s: Seq<char>, k: int) -> nat {
    digits_val(s.subrange(k, k + 4))
}

/// The month captured at position `k`.
pub open spec fn date_month_at(s: Seq<char>, k: int) -> nat {
    digits_val(s.subrange(k + 5, k + 7))
}

/// What the date text yields: a leading year-month, optionally preceded
/// by one arbitrary character — the longer skip is preferred — and the
/// zero sentinels when the pattern does not hold at all.
pub open spec fn date_year_month(s: Seq<char>) -> (nat, nat) {
    if s.len() >= 1 && date_match_at(s, 1) {
        (date_year_at(s, 1), date_month_at(s, 1))
    } else if date_match_at(s, 0) {
        (date_year_at(s, 0), date_month_at(s, 0))
    } else {
        (0, 0)
    }
}

/// Checks the date pattern at a position.
fn date_check_at(v: &Vec<char>, k: usize) -> (r: bool)
    ensures
        r == date_match_at(v@, k as int),
{
    if v.len() < 7 || k > v.len() - 7 {
        return false;
    }
    let d0 = v[k];
    let d1 = v[k + 1];
    let d2 = v[k + 2];
    let d3 = v[k + 3];
    let h = v[k + 4];
    let m0 = v[k + 5];
    let m1 = v[k + 6];
    ('0' <= d0 && d0 <= '9') && ('0' <= d1 && d1 <= '9') && ('0' <= d2 && d2 <= '9') && ('0' <= d3
        && d3 <= '9') && h == '-' && ('0' <= m0 && m0 <= '9') && ('0' <= m1 && m1 <= '9')
}

/// The value of a short digit run.
fn digit_run_value(v: &Vec<char>, from: usize, count: usize) -> (r: u32)
    requires
        from + count <= v@.len(),
        count <= 4,
        forall|j: int| from <= j < from + count ==> is_digit_char(v@[j]),
    ensures
        r as nat == digits_val(v@.subrange(from as int, from + count)),
{
    let vn = v.len();
    let mut acc: u32 = 0;
    let mut i: usize = 0;
    proof {
        assert(v@.subrange(from as int, from as int) =~= Seq::<char>::empty());
    }
    while i < count
        invariant
            i <= count,
            count <= 4,
            vn == v@.len(),
            from + count <= vn,
            forall|j: int| from <= j < from + count ==> is_digit_char(v@[j]),
            acc as nat == digits_val(v@.subrange(from as int, from + i)),
        decreases count - i,
    {
        proof {
            let prefix = v@.subrange(from as int, from + i);
            assert forall|j: int| 0 <= j < prefix.len() implies is_digit_char(prefix[j]) by {
                assert(prefix[j] == v@[from + j]);
            }
            crate::decimal::lemma_digits_below_p10(prefix);
            assert(crate::decimal::p10(0) == 1);
            assert(crate::decimal::p10(1) == 10);
            assert(crate::decimal::p10(2) == 100);
            assert(crate::decimal::p10(3) == 1000);
            assert(acc < 1000);
        }
        let c = v[from + i];
        proof {
            assert(is_digit_char(v@[from + i]));
            assert(48 <= c as int <= 57);
            assert(v@.subrange(from as int, from + i + 1).drop_last() =~= v@.subrange(
                from as int,
                from + i,
            ));
            assert(v@.subrange(from as int, from + i + 1).last() == v@[from + i]);
        }
        let d: u32 = (c as u32) - 48;
        acc = acc * 10 + d;
        i = i + 1;
    }
    acc
}

/// Recognizes the leading year-month of date text, with the zero
/// sentinels when the pattern is absent.
pub fn date_year_month_of(v: &Vec<char>) -> (r: (u32, u32))
    ensures
        (r.0 as nat, r.1 as nat) == date_year_month(v@),
{
    if v.len() >= 1 && date_check_at(v, 1) {
        let y = digit_run_value(v, 1, 4);
        let m = digit_run_value(v, 6, 2);
        proof {
            assert(v@.subrange(1int, 5int) =~= v@.subrange(1int, 1int + 4));
            assert(v@.subrange(6int, 8int) =~= v@.subrange(1int + 5, 1int + 7));
        }
        (y, m)
    } else if date_check_at(v, 0) {
        let y = digit_run_value(v, 0, 4);
        let m = digit_run_value(v, 5, 2);
        proof {
            assert(v@.subrange(0int, 4int) =~= v@.subrange(0int, 0int + 4));
            assert(v@.subrange(5int, 7int) =~= v@.subrange(0int + 5, 0int + 7));
        }
        (y, m)
    } else {
        (0, 0)
    }
}

/// The resolved width text of a container.
pub open spec fn width_text(data: Seq<u8>) -> Seq<char> {
    spec_extract_tag(
        seq![exif_display_of(data, true, 0x100), exif_display_of(data, false, 0xa002)],
        true,
    )
}

/// The resolved height text of a container.
pub open spec fn height_text(data: Seq<u8>) -> Seq<char> {
    spec_extract_tag(
        seq![exif_display_of(data, true, 0x101), exif_display_of(data, false, 0xa003)],
        true,
    )
}

/// The resolved date text of a container.
pub open spec fn date_text(data: Seq<u8>) -> Seq<char> {
    spec_extract_tag(
        seq![
            exif_display_of(data, false, 0x9003),
            exif_display_of(data, true, 0x132),
            exif_display_of(data, false, 0x9004),
        ],
        false,
    )
}

/// The shutter-speed field: prefer a fractional form, keep its
/// denominator, and drop any quotes.
pub open spec fn shutter_text(data: Seq<u8>) -> Seq<char> {
    let s1 = spec_extract_tag(
        seq![exif_display_of(data, false, 0x9201), exif_display_of(data, false, 0x829a)],
        false,
    );
    let s2 = if !seq_has(s1, "/"@) {
        spec_extract_tag(seq![exif_display_of(data, false, 0x829a)], false)
    } else {
        s1
    };
    let s3 = if seq_has(s2, "/"@) {
        let ps = split_on(s2, '/');
        if ps.len() == 2 {
            ps[1]
        } else {
            s2
        }
    } else {
        s2
    };
    unquoted(s3)
}

/// What the whole record of a readable container is.
pub open spec fn spec_exif_record(data: Seq<u8>) -> ExifInfoV {
    ExifInfoV {
        year: date_year_month(date_text(data)).0 as u32,
        month: date_year_month(date_text(data)).1 as u32,
        model: spec_extract_tag(seq![exif_display_of(data, true, 0x110)], false),
        width: parse_u32_or_zero(width_text(data)),
        height: parse_u32_or_zero(height_text(data)),
        date_time: date_text(data),
        aperture: spec_extract_tag(
            seq![exif_display_of(data, false, 0x829d), exif_display_of(data, false, 0x9202)],
            true,
        ),
        shutter_speed: shutter_text(data),
        iso: spec_extract_tag(
            seq![exif_display_of(data, false, 0x8833), exif_display_of(data, false, 0x8827)],
            true,
        ),
        focal_len: spec_extract_tag(
            seq![exif_display_of(data, false, 0xa405), exif_display_of(data, false, 0x920a)],
            true,
        ),
        lens: spec_extract_tag(
            seq![
                exif_display_of(data, false, 0xa434),
                exif_display_of(data, false, 0xa432),
                exif_display_of(data, false, 0xa433),
            ],
            false,
        ),
    }
}

/// The parsed value of numeric text, zero standing in when it does not
/// parse as an unsigned integer.
pub open spec fn parse_u32_or_zero(s: Seq<char>) -> u32 {
    match parse_uint_spec(s, u32::MAX as nat) {
        Some(n) => n as u32,
        None => 0,
    }
}


/// Decodes a metadata record, and optionally the photo's thumbnail bytes,
/// from image bytes. Extraction succeeds exactly when the decoder accepts
/// the container — absent or garbled fields degrade to their sentinels —
/// and, with the thumbnail requested, some thumbnail can be materialized.
pub fn extract_exif_info(image_data: &Vec<u8>, thumbnail: bool) -> (r: Result<
    (ExifInfo, Vec<u8>),
    PhotoInsightError,
>)
    ensures
        r is Ok <==> exif_readable(image_data@) && (thumbnail ==> (thumb_fits(image_data@)
            || crate::image_ops::img_decodable(image_data@))),
        r matches Ok(p) ==> p.0@ == spec_exif_record(image_data@),
        r matches Ok(p) ==> p.1@ == if thumbnail {
            thumb_of(image_data@)
        } else {
            Seq::<u8>::empty()
        },
{
    let ghost data = image_data@;
    let mut model_c: Vec<Option<String>> = Vec::new();
    model_c.push(disp(image_data, ExifTagId::Model)?);
    proof {
        assert(cand_views(model_c@) =~= seq![exif_display_of(data, true, 0x110)]);
    }
    let model = extract_tag(&model_c, false);

    let mut w_c: Vec<Option<String>> = Vec::new();
    w_c.push(disp(image_data, ExifTagId::ImageWidth)?);
    w_c.push(disp(image_data, ExifTagId::PixelXDimension)?);
    proof {
        assert(cand_views(w_c@) =~= seq![
            exif_display_of(data, true, 0x100),
            exif_display_of(data, false, 0xa002),
        ]);
    }
    let w = extract_tag(&w_c, true);

    let mut h_c: Vec<Option<String>> = Vec::new();
    h_c.push(disp(image_data, ExifTagId::ImageLength)?);
    h_c.push(disp(image_data, ExifTagId::PixelYDimension)?);
    proof {
        assert(cand_views(h_c@) =~= seq![
            exif_display_of(data, true, 0x101),
            exif_display_of(data, false, 0xa003),
        ]);
    }
    let h = extract_tag(&h_c, true);

    let wc = str_chars(w.as_str());
    let width = match parse_u32_chars(&wc) {
        Some(n) => n,
        None => 0,
    };
    let hc = str_chars(h.as_str());
    let height = match parse_u32_chars(&hc) {
        Some(n) => n,
        None => 0,
    };

    let mut d_c: Vec<Option<String>> = Vec::new();
    d_c.push(disp(image_data, ExifTagId::DateTimeOriginal)?);
    d_c.push(disp(image_data, ExifTagId::DateTime)?);
    d_c.push(disp(image_data, ExifTagId::DateTimeDigitized)?);
    proof {
        assert(cand_views(d_c@) =~= seq![
            exif_display_of(data, false, 0x9003),
            exif_display_of(data, true, 0x132),
            exif_display_of(data, false, 0x9004),
        ]);
    }
    let date_time = extract_tag(&d_c, false);
    let dc = str_chars(date_time.as_str());
    let (year, month) = date_year_month_of(&dc);

    let mut a_c: Vec<Option<String>> = Vec::new();
    a_c.push(disp(image_data, ExifTagId::FNumber)?);
    a_c.push(disp(image_data, ExifTagId::ApertureValue)?);
    proof {
        assert(cand_views(a_c@) =~= seq![
            exif_display_of(data, false, 0x829d),
            exif_display_of(data, false, 0x9202),
        ]);
    }
    let aperture = extract_tag(&a_c, true);

    let mut s_c: Vec<Option<String>> = Vec::new();
    s_c.push(disp(image_data, ExifTagId::ShutterSpeedValue)?);
    s_c.push(disp(image_data, ExifTagId::ExposureTime)?);
    proof {
        assert(cand_views(s_c@) =~= seq![
            exif_display_of(data, false, 0x9201),
            exif_display_of(data, false, 0x829a),
        ]);
    }
    let s1 = extract_tag(&s_c, false);
    let slash = str_chars("/");
    let s1c = str_chars(s1.as_str());
    let s2c: Vec<char> = if !chars_contain(&s1c, &slash) {
        let mut e_c: Vec<Option<String>> = Vec::new();
        e_c.push(disp(image_data, ExifTagId::ExposureTime)?);
        proof {
            assert(cand_views(e_c@) =~= seq![exif_display_of(data, false, 0x829a)]);
        }
        let s2 = extract_tag(&e_c, false);
        str_chars(s2.as_str())
    } else {
        s1c
    };
    let s3c: Vec<char> = if chars_contain(&s2c, &slash) {
        let mut parts = split_chars(&s2c, '/');
        if parts.len() == 2 {
            proof {
                assert(parts@.map_values(|p: Vec<char>| p@)[1] == parts@[1]@);
            }
            let p1 = parts.remove(1);
            p1
        } else {
            s2c
        }
    } else {
        s2c
    };
    let shutter = unquote_chars(&s3c);
    proof {
        assert(shutter@ == shutter_text(data));
    }
    let shutter_speed = chars_to_string(&shutter);

    let mut i_c: Vec<Option<String>> = Vec::new();
    i_c.push(disp(image_data, ExifTagId::IsoSpeed)?);
    i_c.push(disp(image_data, ExifTagId::PhotographicSensitivity)?);
    proof {
        assert(cand_views(i_c@) =~= seq![
            exif_display_of(data, false, 0x8833),
            exif_display_of(data, false, 0x8827),
        ]);
    }
    let iso = extract_tag(&i_c, true);

    let mut f_c: Vec<Option<String>> = Vec::new();
    f_c.push(disp(image_data, ExifTagId::FocalLengthIn35mmFilm)?);
    f_c.push(disp(image_data, ExifTagId::FocalLength)?);
    proof {
        assert(cand_views(f_c@) =~= seq![
            exif_display_of(data, false, 0xa405),
            exif_display_of(data, false, 0x920a),
        ]);
    }
    let focal_len = extract_tag(&f_c, true);

    let mut l_c: Vec<Option<String>> = Vec::new();
    l_c.push(disp(image_data, ExifTagId::LensModel)?);
    l_c.push(disp(image_data, ExifTagId::LensSpecification)?);
    l_c.push(disp(image_data, ExifTagId::LensMake)?);
    proof {
        assert(cand_views(l_c@) =~= seq![
            exif_display_of(data, false, 0xa434),
            exif_display_of(data, false, 0xa432),
            exif_display_of(data, false, 0xa433),
        ]);
    }
    let lens = extract_tag(&l_c, false);

    let info = ExifInfo {
        year,
        month,
        model,
        width,
        height,
        date_time,
        aperture,
        shutter_speed,
        iso,
        focal_len,
        lens,
    };
    proof {
        assert(info@ == spec_exif_record(data));
    }
    let thm: Vec<u8> = if thumbnail {
        extract_thm(image_data)?
    } else {
        Vec::new()
    };
    Ok((info, thm))
}

/// Copies a byte range.
fn sub_bytes(v: &Vec<u8>, from: usize, to: usize) -> (r: Vec<u8>)
    requires
        from <= to <= v@.len(),
    ensures
        r@ == v@.subrange(from as int, to as int),
{
    let mut r: Vec<u8> = Vec::new();
    let mut i: usize = from;
    while i < to
        invariant
            from <= i <= to <= v@.len(),
            r@ == v@.subrange(from as int, i as int),
        decreases to - i,
    {
        r.push(v[i]);
        i = i + 1;
        proof {
            assert(r@ =~= v@.subrange(from as int, i as int));
        }
    }
    r
}

/// The container records a thumbnail range that lies inside its TIFF
/// buffer.
pub open spec fn thumb_fits(data: Seq<u8>) -> bool {
    &&& exif_thumb_offset_of(data) is Some
    &&& exif_thumb_length_of(data) is Some
    &&& exif_thumb_offset_of(data).unwrap() + exif_thumb_length_of(data).unwrap()
        <= exif_tiff_of(data).len()
}

/// The dimensions the resize fallback hands on: the recorded width and
/// height texts where they parse, zero otherwise.
pub open spec fn fallback_dims(data: Seq<u8>) -> (u32, u32) {
    (parse_u32_or_zero(width_text(data)), parse_u32_or_zero(height_text(data)))
}

/// What materializing a photo's thumbnail yields: the embedded bytes when
/// their range fits, else the resize fallback's output.
pub open spec fn thumb_of(data: Seq<u8>) -> Seq<u8> {
    if thumb_fits(data) {
        exif_tiff_of(data).subrange(
            exif_thumb_offset_of(data).unwrap() as int,
            exif_thumb_offset_of(data).unwrap() as int + exif_thumb_length_of(data).unwrap() as int,
        )
    } else {
        crate::image_ops::resize_output_of(data, fallback_dims(data).0, fallback_dims(data).1)
    }
}

/// Materializes a photo's thumbnail: the embedded EXIF thumbnail when its
/// recorded range lies inside the TIFF buffer, else an aspect-boxed
/// software resize of the full image using the recorded dimensions, or
/// the decoded dimensions where those are unusable. Succeeds exactly when
/// the container is readable and either path can deliver.
pub fn extract_thm(image_data: &Vec<u8>) -> (r: Result<Vec<u8>, PhotoInsightError>)
    ensures
        r is Ok <==> exif_readable(image_data@) && (thumb_fits(image_data@)
            || crate::image_ops::img_decodable(image_data@)),
        r matches Ok(b) ==> b@ == thumb_of(image_data@),
{
    let buf = match exif_tiff_buffer(image_data) {
        Ok(b) => b,
        Err(e) => {
            return Err(PhotoInsightError::new(e));
        },
    };
    let off = match exif_thumb_offset(image_data) {
        Ok(o) => o,
        Err(e) => {
            return Err(PhotoInsightError::new(e));
        },
    };
    let len = match exif_thumb_length(image_data) {
        Ok(o) => o,
        Err(e) => {
            return Err(PhotoInsightError::new(e));
        },
    };
    let bl = buf.len();
    match (off, len) {
        (Some(o), Some(l)) => {
            let start = o as usize;
            match start.checked_add(l as usize) {
                Some(end) => {
                    if end <= bl {
                        let b = sub_bytes(&buf, start, end);
                        proof {
                            assert(b@ == exif_tiff_of(image_data@).subrange(
                                o as int,
                                o as int + l as int,
                            ));
                        }
                        return Ok(b);
                    }
                    proof {
                        assert(o as int + l as int > exif_tiff_of(image_data@).len());
                    }
                },
                None => {
                    proof {
                        assert(o as int + l as int > usize::MAX as int);
                        assert(exif_tiff_of(image_data@).len() <= usize::MAX as int);
                    }
                },
            }
            thumb_fallback(image_data)
        },
        _ => thumb_fallback(image_data),
    }
}

/// The resize fallback of thumbnail materialization.
fn thumb_fallback(image_data: &Vec<u8>) -> (r: Result<Vec<u8>, PhotoInsightError>)
    ensures
        r is Ok <==> exif_readable(image_data@) && crate::image_ops::img_decodable(image_data@),
        r matches Ok(b) ==> b@ == crate::image_ops::resize_output_of(
            image_data@,
            fallback_dims(image_data@).0,
            fallback_dims(image_data@).1,
        ),
{
    let ghost data = image_data@;
    let mut w_c: Vec<Option<String>> = Vec::new();
    w_c.push(disp(image_data, ExifTagId::ImageWidth)?);
    w_c.push(disp(image_data, ExifTagId::PixelXDimension)?);
    proof {
        assert(cand_views(w_c@) =~= seq![
            exif_display_of(data, true, 0x100),
            exif_display_of(data, false, 0xa002),
        ]);
    }
    let w = extract_tag(&w_c, true);
    let mut h_c: Vec<Option<String>> = Vec::new();
    h_c.push(disp(image_data, ExifTagId::ImageLength)?);
    h_c.push(disp(image_data, ExifTagId::PixelYDimension)?);
    proof {
        assert(cand_views(h_c@) =~= seq![
            exif_display_of(data, true, 0x101),
            exif_display_of(data, false, 0xa003),
        ]);
    }
    let h = extract_tag(&h_c, true);
    let wc = str_chars(w.as_str());
    let hc = str_chars(h.as_str());
    let orig_w = match parse_u32_chars(&wc) {
        Some(n) => n,
        None => 0,
    };
    let orig_h = match parse_u32_chars(&hc) {
        Some(n) => n,
        None => 0,
    };
    crate::image_ops::resize(image_data, orig_w, orig_h)
}

/// The views of extracted archive entries.
pub open spec fn iview(s: Seq<(usize, String, Vec<u8>)>) -> Seq<(nat, Seq<char>, Seq<u8>)> {
    s.map_values(|e: (usize, String, Vec<u8>)| (e.0 as nat, e.1@, e.2@))
}

/// What extracting a whole archive's metadata yields: a record for every
/// image-like entry whose container is extractable, keyed by the photo's
/// identity; failures are simply skipped.
pub open spec fn extract_all_model(zip: Seq<char>, images: Seq<(nat, Seq<char>, Seq<u8>)>) -> Seq<
    (PhotoInfoV, ExifInfoV),
>
    decreases images.len(),
{
    if images.len() == 0 {
        Seq::empty()
    } else {
        let e = images.last();
        extract_all_model(zip, images.drop_last()) + if is_image_name(e.1) && exif_readable(e.2) {
            seq![
                (
                    PhotoInfoV {
                        zip_file_name: zip,
                        photo_file_name: e.1,
                        photo_index_in_zip: e.0,
                    },
                    spec_exif_record(e.2),
                ),
            ]
        } else {
            Seq::empty()
        }
    }
}

/// Extracts metadata records for every image-like entry of one archive;
/// an entry whose bytes the decoder rejects is skipped, never fatal.
pub fn extract_all_exifs_from_zip_archive(
    zip_file_name: &String,
    images: &Vec<(usize, String, Vec<u8>)>,
) -> (r: Vec<(PhotoInfo, ExifInfo)>)
    ensures
        crate::cache::eview(r@) == extract_all_model(zip_file_name@, iview(images@)),
{
    let n = images.len();
    let mut r: Vec<(PhotoInfo, ExifInfo)> = Vec::new();
    let mut i: usize = 0;
    proof {
        assert(crate::cache::eview(r@) =~= extract_all_model(
            zip_file_name@,
            iview(images@).subrange(0, 0),
        ));
    }
    while i < n
        invariant
            i <= n,
            n == images@.len(),
            crate::cache::eview(r@) == extract_all_model(
                zip_file_name@,
                iview(images@).subrange(0, i as int),
            ),
        decreases n - i,
    {
        let ghost prefix = iview(images@).subrange(0, i as int);
        let ghost step = iview(images@).subrange(0, i + 1);
        proof {
            assert(step.drop_last() =~= prefix);
            assert(step.last() == iview(images@)[i as int]);
            assert(step.last() == (
                images@[i as int].0 as nat,
                images@[i as int].1@,
                images@[i as int].2@,
            ));
        }
        let ghost pre = crate::cache::eview(r@);
        let name_ok = is_image_file(images[i].1.as_str());
        if name_ok {
            match extract_exif_info(&images[i].2, false) {
                Ok(pair) => {
                    let p = PhotoInfo::new(
                        zip_file_name.clone(),
                        images[i].1.clone(),
                        images[i].0,
                    );
                    let ghost pv = p@;
                    let ghost ev = pair.0@;
                    r.push((p, pair.0));
                    proof {
                        assert(crate::cache::eview(r@) =~= pre + seq![(pv, ev)]);
                    }
                },
                Err(_) => {
                    proof {
                        assert(crate::cache::eview(r@) =~= pre + Seq::<
                            (PhotoInfoV, ExifInfoV),
                        >::empty());
                    }
                },
            }
        } else {
            proof {
                assert(crate::cache::eview(r@) =~= pre + Seq::<(PhotoInfoV, ExifInfoV)>::empty());
            }
        }
        i = i + 1;
    }
    proof {
        assert(iview(images@).subrange(0, n as int) =~= iview(images@));
    }
    r
}

} // verus!
