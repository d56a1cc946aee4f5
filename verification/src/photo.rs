//! Photo identity and its composite cache key.
//!
//! A photo is identified by its archive name, its entry name inside the
//! archive, and its entry index. For persistence the identity is joined
//! into a single `|`-delimited key; parsing splits on every `|`, so a key
//! round-trips exactly when neither name contains the delimiter.

use vstd::prelude::*;
use crate::error::PhotoInsightError;
use crate::exif_data::{ExifInfo, ExifInfoV};
use crate::text::{
    append_chars, chars_to_string, dec_of, lemma_dec_of_digits, lemma_first_at_is, parse_uint_spec,
    parse_usize_chars, split_chars, split_on, str_chars, usize_dec_chars,
};

verus! {

/// The identity of a single photo.
#[derive(Debug, PartialEq, Eq, Hash)]
pub struct PhotoInfo {
    /// Zip file name in the directory under index.
    pub zip_file_name: String,
    /// Entry name inside the zip file.
    pub photo_file_name: String,
    /// Entry index inside the zip file, for direct re-extraction.
    pub photo_index_in_zip: usize,
}

/// The mathematical shadow of [`PhotoInfo`].
pub struct PhotoInfoV {
    pub zip_file_name: Seq<char>,
    pub photo_file_name: Seq<char>,
    pub photo_index_in_zip: nat,
}

impl View for PhotoInfo {
    type V = PhotoInfoV;

    open spec fn view(&self) -> PhotoInfoV {
        PhotoInfoV {
            zip_file_name: self.zip_file_name@,
            photo_file_name: self.photo_file_name@,
            photo_index_in_zip: self.photo_index_in_zip as nat,
        }
    }
}

impl Clone for PhotoInfo {
    /// A clone carries the same view.
    fn clone(&self) -> (r: PhotoInfo)
        ensures
            r@ == self@,
    {
        PhotoInfo {
            zip_file_name: self.zip_file_name.clone(),
            photo_file_name: self.photo_file_name.clone(),
            photo_index_in_zip: self.photo_index_in_zip,
        }
    }
}

/// The `|`-joined composite key of a photo identity.
pub open spec fn key_of(p: PhotoInfoV) -> Seq<char> {
    p.zip_file_name + seq!['|'] + p.photo_file_name + seq!['|'] + dec_of(p.photo_index_in_zip)
}

/// What parsing a composite key yields: exactly three `|`-separated
/// pieces, the third an entry index.
pub open spec fn parse_key(s: Seq<char>) -> Option<PhotoInfoV> {
    let ps = split_on(s, '|');
    if ps.len() == 3 {
        match parse_uint_spec(ps[2], usize::MAX as nat) {
            Some(n) => Some(
                PhotoInfoV {
                    zip_file_name: ps[0],
                    photo_file_name: ps[1],
                    photo_index_in_zip: n,
                },
            ),
            None => None,
        }
    } else {
        None
    }
}

impl PhotoInfo {
    /// Bundles an identity.
    pub fn new(zip_file: String, image: String, index: usize) -> (r: PhotoInfo)
        ensures
            r@.zip_file_name == zip_file@,
            r@.photo_file_name == image@,
            r@.photo_index_in_zip == index as nat,
    {
        PhotoInfo { zip_file_name: zip_file, photo_file_name: image, photo_index_in_zip: index }
    }

    /// Joins the identity into its composite cache key.
    pub fn serialize_as_key(&self) -> (r: String)
        ensures
            r@ == key_of(self@),
    {
        let mut m = str_chars(self.zip_file_name.as_str());
        m.push('|');
        let name = str_chars(self.photo_file_name.as_str());
        append_chars(&mut m, &name);
        m.push('|');
        let idx = usize_dec_chars(self.photo_index_in_zip);
        append_chars(&mut m, &idx);
        proof {
            assert(m@ =~= key_of(self@));
        }
        chars_to_string(&m)
    }

    /// Splits a composite key back into an identity. Fails unless the key
    /// has exactly three `|`-separated pieces with a parsable index, and
    /// names the offending key.
    pub fn deserialize_from_key(key: String) -> (r: Result<PhotoInfo, PhotoInsightError>)
        ensures
            match parse_key(key@) {
                Some(pv) => r matches Ok(p) && p@ == pv,
                None => r matches Err(e) && e.message@ == "cannot deserialize PhotoInfo from "@
                    + key@,
            },
    {
        let cs = str_chars(key.as_str());
        let parts = split_chars(&cs, '|');
        proof {
            assert(parts@.map_values(|p: Vec<char>| p@).len() == parts@.len());
        }
        if parts.len() == 3 {
            proof {
                assert(parts@.map_values(|p: Vec<char>| p@)[0] == parts@[0]@);
                assert(parts@.map_values(|p: Vec<char>| p@)[1] == parts@[1]@);
                assert(parts@.map_values(|p: Vec<char>| p@)[2] == parts@[2]@);
            }
            match parse_usize_chars(&parts[2]) {
                Some(n) => Ok(
                    PhotoInfo {
                        zip_file_name: chars_to_string(&parts[0]),
                        photo_file_name: chars_to_string(&parts[1]),
                        photo_index_in_zip: n,
                    },
                ),
                None => {
                    let mut m = str_chars("cannot deserialize PhotoInfo from ");
                    append_chars(&mut m, &cs);
                    Err(PhotoInsightError::from_message(chars_to_string(&m)))
                },
            }
        } else {
            let mut m = str_chars("cannot deserialize PhotoInfo from ");
            append_chars(&mut m, &cs);
            Err(PhotoInsightError::from_message(chars_to_string(&m)))
        }
    }
}

/// Splitting a delimiter-free piece yields just that piece.
proof fn lemma_split_single(a: Seq<char>, c: char)
    requires
        forall|i: int| 0 <= i < a.len() ==> a[i] != c,
    ensures
        split_on(a, c) == seq![a],
{
    lemma_first_at_is(a, c, a.len() as int);
}

/// Splitting peels off a delimiter-free prefix.
proof fn lemma_split_prefix(a: Seq<char>, rest: Seq<char>, c: char)
    requires
        forall|i: int| 0 <= i < a.len() ==> a[i] != c,
    ensures
        split_on(a + seq![c] + rest, c) == seq![a] + split_on(rest, c),
{
    let s = a + seq![c] + rest;
    assert(forall|j: int| 0 <= j < a.len() ==> s[j] == a[j]);
    assert(s[a.len() as int] == c);
    lemma_first_at_is(s, c, a.len() as int);
    assert(s.subrange(0, a.len() as int) =~= a);
    assert(s.subrange(a.len() as int + 1, s.len() as int) =~= rest);
}

/// A composite key parses back to the identity it was made from, provided
/// neither name contains the delimiter.
pub proof fn lemma_key_round_trip(p: PhotoInfoV)
    requires
        forall|i: int| 0 <= i < p.zip_file_name.len() ==> p.zip_file_name[i] != '|',
        forall|i: int| 0 <= i < p.photo_file_name.len() ==> p.photo_file_name[i] != '|',
        p.photo_index_in_zip <= usize::MAX as nat,
    ensures
        parse_key(key_of(p)) == Some(p),
{
    let z = p.zip_file_name;
    let f = p.photo_file_name;
    let d = dec_of(p.photo_index_in_zip);
    lemma_dec_of_digits(p.photo_index_in_zip);
    assert(forall|i: int| 0 <= i < d.len() ==> d[i] != '|') by {
        assert('|' as int == 124);
        assert(forall|i: int|
            0 <= i < d.len() ==> crate::text::is_digit_char(#[trigger] d[i]));
    }
    assert(key_of(p) =~= z + seq!['|'] + (f + seq!['|'] + d));
    lemma_split_prefix(z, f + seq!['|'] + d, '|');
    lemma_split_prefix(f, d, '|');
    lemma_split_single(d, '|');
    let ps = split_on(key_of(p), '|');
    assert(ps =~= seq![z] + (seq![f] + seq![d]));
    assert(ps.len() == 3 && ps[0] == z && ps[1] == f && ps[2] == d);
    assert(d[0] != '+') by {
        assert(crate::text::is_digit_char(d[0]));
        assert('+' as int == 43);
    }
    assert(parse_uint_spec(d, usize::MAX as nat) == Some(p.photo_index_in_zip));
}

/// A photo identity paired with its metadata record.
#[derive(Debug, PartialEq)]
pub struct ExifResult {
    pub file: PhotoInfo,
    pub exif: ExifInfo,
}

/// The mathematical shadow of [`ExifResult`].
pub struct ExifResultV {
    pub file: PhotoInfoV,
    pub exif: ExifInfoV,
}

impl View for ExifResult {
    type V = ExifResultV;

    open spec fn view(&self) -> ExifResultV {
        ExifResultV { file: self.file@, exif: self.exif@ }
    }
}

impl Clone for ExifResult {
    /// A clone carries the same view.
    fn clone(&self) -> (r: ExifResult)
        ensures
            r@ == self@,
    {
        ExifResult { file: self.file.clone(), exif: self.exif.clone() }
    }
}

impl ExifResult {
    /// Pairs an identity with its record.
    pub fn new(file: PhotoInfo, exif: ExifInfo) -> (r: ExifResult)
        ensures
            r@.file == file@,
            r@.exif == exif@,
    {
        ExifResult { file, exif }
    }
}

} // verus!
