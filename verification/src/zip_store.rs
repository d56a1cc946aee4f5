//! Reading photo archives: listing image-like entries and extracting
//! entry bytes, from an in-memory zip container.
//!
//! Parsing a zip container is a pure function of its bytes; the entry
//! names and entry contents it holds are named by [`zip_names_of`] and
//! [`zip_data_of`], and three trusted wrappers read them through the
//! `zip` crate. Everything around the wrappers — extension sniffing,
//! bounds checking, assembling identities — is verified.

use vstd::prelude::*;
use crate::error::PhotoInsightError;
use crate::photo::{PhotoInfo, PhotoInfoV};
use crate::text::{
    chars_end_with, chars_to_string, dec_of, lower_of, lowercase, seq_ends, str_chars,
    usize_dec_chars,
};

verus! {

/// Does `zip::ZipArchive::new` accept the container bytes at all: a
/// deterministic function of the bytes alone.
pub uninterp spec fn zip_parses(data: Seq<u8>) -> bool;

/// The entry names a zip container's bytes hold, in entry order.
pub uninterp spec fn zip_names_of(data: Seq<u8>) -> Seq<Seq<char>>;

/// Does the entry at the index open and decompress cleanly: a
/// deterministic function of the container bytes and the index.
pub uninterp spec fn zip_entry_ok(data: Seq<u8>, i: int) -> bool;

/// The decompressed entry contents a zip container's bytes hold, in entry
/// order.
pub uninterp spec fn zip_data_of(data: Seq<u8>) -> Seq<Seq<u8>>;

/// Relies on `zip::ZipArchive::new` and `len`: the number of entries in
/// the container; parsing succeeds or fails on the bytes alone.
#[verifier::external_body]
pub(crate) fn zip_count(data: &Vec<u8>) -> (r: Result<usize, String>)
    ensures
        r is Ok <==> zip_parses(data@),
        r matches Ok(n) ==> n == zip_names_of(data@).len() && n == zip_data_of(data@).len(),
{
    match zip::ZipArchive::new(std::io::Cursor::new(data)) {
        Ok(a) => Ok(a.len()),
        Err(e) => Err(e.to_string()),
    }
}

/// Relies on `zip::ZipArchive::by_index` and `ZipFile::name`: the stored
/// name of the entry at the index. An out-of-range index or an unparsable
/// container is refused, and an entry that opens cleanly yields its name.
#[verifier::external_body]
fn zip_name_at(data: &Vec<u8>, i: usize) -> (r: Result<String, String>)
    ensures
        r matches Ok(s) ==> i < zip_names_of(data@).len() && s@ == zip_names_of(data@)[i as int],
        i >= zip_names_of(data@).len() ==> r is Err,
        !zip_parses(data@) ==> r is Err,
        (zip_parses(data@) && i < zip_names_of(data@).len() && zip_entry_ok(data@, i as int))
            ==> r is Ok,
{
    match zip::ZipArchive::new(std::io::Cursor::new(data)) {
        Ok(mut a) => match a.by_index(i) {
            Ok(f) => Ok(f.name().to_string()),
            Err(e) => Err(e.to_string()),
        },
        Err(e) => Err(e.to_string()),
    }
}

/// Relies on `zip::ZipArchive::by_index` and `Read::read_to_end`: the
/// decompressed contents of the entry at the index. The read succeeds
/// exactly when the container parses, the index is in range, and the
/// entry opens and decompresses cleanly — all functions of the bytes.
#[verifier::external_body]
fn zip_bytes_at(data: &Vec<u8>, i: usize) -> (r: Result<Vec<u8>, String>)
    ensures
        r is Ok <==> (zip_parses(data@) && i < zip_data_of(data@).len() && zip_entry_ok(
            data@,
            i as int,
        )),
        r matches Ok(b) ==> b@ == zip_data_of(data@)[i as int],
{
    match zip::ZipArchive::new(std::io::Cursor::new(data)) {
        Ok(mut a) => match a.by_index(i) {
            Ok(mut f) => {
                let mut buf = Vec::new();
                match std::io::Read::read_to_end(&mut f, &mut buf) {
                    Ok(_) => Ok(buf),
                    Err(e) => Err(e.to_string()),
                }
            },
            Err(e) => Err(e.to_string()),
        },
        Err(e) => Err(e.to_string()),
    }
}

/// Does the name look like a photo: a `.jpg`, `.jpeg` or `.png` suffix,
/// case-insensitively?
pub open spec fn is_image_name(s: Seq<char>) -> bool {
    seq_ends(lower_of(s), ".jpg"@) || seq_ends(lower_of(s), ".jpeg"@) || seq_ends(
        lower_of(s),
        ".png"@,
    )
}

/// Extension sniffing for photo entries.
pub fn is_image_file(file_name: &str) -> (r: bool)
    ensures
        r == is_image_name(file_name@),
{
    let low = str_chars(lowercase(file_name).as_str());
    let jpg = str_chars(".jpg");
    let jpeg = str_chars(".jpeg");
    let png = str_chars(".png");
    chars_end_with(&low, &jpg) || chars_end_with(&low, &jpeg) || chars_end_with(&low, &png)
}

/// The image-like entries among the names, with their entry indices, in
/// entry order.
pub open spec fn image_listing(names: Seq<Seq<char>>) -> Seq<(nat, Seq<char>)>
    decreases names.len(),
{
    if names.len() == 0 {
        Seq::empty()
    } else {
        image_listing(names.drop_last()) + if is_image_name(names.last()) {
            seq![(((names.len() - 1) as nat), names.last())]
        } else {
            Seq::empty()
        }
    }
}

/// Lists the image-like entries of a zip container, with their entry
/// indices. Fails when the container cannot be parsed or an entry cannot
/// be opened; a clean container is always listed.
pub fn list_zip_archive(zip_data: &Vec<u8>) -> (r: Result<Vec<(usize, String)>, PhotoInsightError>)
    ensures
        r matches Ok(v) ==> crate::cache::lview(v@) == image_listing(zip_names_of(zip_data@)),
        !zip_parses(zip_data@) ==> r is Err,
        (zip_parses(zip_data@) && (forall|i: int|
            0 <= i < zip_names_of(zip_data@).len() ==> zip_entry_ok(zip_data@, i))) ==> r is Ok,
{
    let total = match zip_count(zip_data) {
        Ok(n) => n,
        Err(e) => {
            return Err(PhotoInsightError::new(e));
        },
    };
    let ghost names = zip_names_of(zip_data@);
    let mut v: Vec<(usize, String)> = Vec::new();
    let mut i: usize = 0;
    proof {
        assert(crate::cache::lview(v@) =~= image_listing(names.subrange(0, 0)));
    }
    while i < total
        invariant
            i <= total,
            total == names.len(),
            names == zip_names_of(zip_data@),
            zip_parses(zip_data@),
            crate::cache::lview(v@) == image_listing(names.subrange(0, i as int)),
        decreases total - i,
    {
        let ghost prefix = names.subrange(0, i as int);
        let ghost step = names.subrange(0, i + 1);
        proof {
            assert(step.drop_last() =~= prefix);
            assert(step.last() == names[i as int]);
        }
        let name = match zip_name_at(zip_data, i) {
            Ok(s) => s,
            Err(e) => {
                return Err(PhotoInsightError::new(e));
            },
        };
        let ghost pre = crate::cache::lview(v@);
        if is_image_file(name.as_str()) {
            v.push((i, name));
            proof {
                assert(crate::cache::lview(v@) =~= pre + seq![((i as nat), names[i as int])]);
            }
        } else {
            proof {
                assert(crate::cache::lview(v@) =~= pre + Seq::<(nat, Seq<char>)>::empty());
            }
        }
        i = i + 1;
    }
    proof {
        assert(names.subrange(0, total as int) =~= names);
    }
    Ok(v)
}

/// Does the name carry a `.zip` extension?
pub open spec fn has_zip_extension(s: Seq<char>) -> bool {
    s.len() > 4 && s.subrange(s.len() - 4, s.len() as int) == ".zip"@
}

/// Extension test for archives in a directory listing.
pub fn is_zip_file_name(file_name: &str) -> (r: bool)
    ensures
        r == has_zip_extension(file_name@),
{
    proof {
        reveal_strlit(".zip");
    }
    let cs = str_chars(file_name);
    let ext = str_chars(".zip");
    if cs.len() <= 4 {
        return false;
    }
    chars_end_with(&cs, &ext)
}

/// The archive names among a directory's entries, in listing order.
pub open spec fn zip_names_in(names: Seq<Seq<char>>) -> Seq<Seq<char>>
    decreases names.len(),
{
    if names.len() == 0 {
        Seq::empty()
    } else {
        zip_names_in(names.drop_last()) + if has_zip_extension(names.last()) {
            seq![names.last()]
        } else {
            Seq::empty()
        }
    }
}

/// Keeps the zip archives of a directory's file names, in listing order.
pub fn list_directory_zip_files(file_names: &Vec<String>) -> (r: Vec<String>)
    ensures
        r@.map_values(|s: String| s@) == zip_names_in(file_names@.map_values(|s: String| s@)),
{
    let n = file_names.len();
    let mut r: Vec<String> = Vec::new();
    let mut i: usize = 0;
    let ghost names = file_names@.map_values(|s: String| s@);
    proof {
        assert(r@.map_values(|s: String| s@) =~= zip_names_in(names.subrange(0, 0)));
    }
    while i < n
        invariant
            i <= n,
            n == file_names@.len(),
            names == file_names@.map_values(|s: String| s@),
            r@.map_values(|s: String| s@) == zip_names_in(names.subrange(0, i as int)),
        decreases n - i,
    {
        let ghost prefix = names.subrange(0, i as int);
        let ghost step = names.subrange(0, i + 1);
        proof {
            assert(step.drop_last() =~= prefix);
            assert(step.last() == names[i as int]);
            assert(step.last() == file_names@[i as int]@);
        }
        let ghost pre = r@.map_values(|s: String| s@);
        if is_zip_file_name(file_names[i].as_str()) {
            r.push(file_names[i].clone());
            proof {
                assert(r@.map_values(|s: String| s@) =~= pre + seq![names[i as int]]);
            }
        } else {
            proof {
                assert(r@.map_values(|s: String| s@) =~= pre + Seq::<Seq<char>>::empty());
            }
        }
        i = i + 1;
    }
    proof {
        assert(names.subrange(0, n as int) =~= names);
    }
    r
}

/// Does the name carry one of the listable viewer extensions, which also
/// admit GIFs, case-insensitively?
pub open spec fn is_listable_image_name(s: Seq<char>) -> bool {
    is_image_name(s) || seq_ends(lower_of(s), ".gif"@)
}

/// Extension test for the archive-browsing listing.
pub fn is_listable_image_file(file_name: &str) -> (r: bool)
    ensures
        r == is_listable_image_name(file_name@),
{
    let low = str_chars(lowercase(file_name).as_str());
    let gif = str_chars(".gif");
    is_image_file(file_name) || chars_end_with(&low, &gif)
}

/// The listable entry names among an archive's entries, in entry order.
pub open spec fn listable_listing(names: Seq<Seq<char>>) -> Seq<Seq<char>>
    decreases names.len(),
{
    if names.len() == 0 {
        Seq::empty()
    } else {
        listable_listing(names.drop_last()) + if is_listable_image_name(names.last()) {
            seq![names.last()]
        } else {
            Seq::empty()
        }
    }
}

/// Lists the viewable entry names of a zip container, GIFs included.
/// Fails when the container cannot be parsed or an entry cannot be
/// opened; a clean container is always listed.
pub fn list_images_in_archive(zip_data: &Vec<u8>) -> (r: Result<Vec<String>, PhotoInsightError>)
    ensures
        r matches Ok(v) ==> v@.map_values(|s: String| s@) == listable_listing(
            zip_names_of(zip_data@),
        ),
        !zip_parses(zip_data@) ==> r is Err,
        (zip_parses(zip_data@) && (forall|i: int|
            0 <= i < zip_names_of(zip_data@).len() ==> zip_entry_ok(zip_data@, i))) ==> r is Ok,
{
    let total = match zip_count(zip_data) {
        Ok(n) => n,
        Err(e) => {
            return Err(PhotoInsightError::new(e));
        },
    };
    let ghost names = zip_names_of(zip_data@);
    let mut v: Vec<String> = Vec::new();
    let mut i: usize = 0;
    proof {
        assert(v@.map_values(|s: String| s@) =~= listable_listing(names.subrange(0, 0)));
    }
    while i < total
        invariant
            i <= total,
            total == names.len(),
            names == zip_names_of(zip_data@),
            zip_parses(zip_data@),
            v@.map_values(|s: String| s@) == listable_listing(names.subrange(0, i as int)),
        decreases total - i,
    {
        let ghost prefix = names.subrange(0, i as int);
        let ghost step = names.subrange(0, i + 1);
        proof {
            assert(step.drop_last() =~= prefix);
            assert(step.last() == names[i as int]);
        }
        let name = match zip_name_at(zip_data, i) {
            Ok(s) => s,
            Err(e) => {
                return Err(PhotoInsightError::new(e));
            },
        };
        let ghost pre = v@.map_values(|s: String| s@);
        if is_listable_image_file(name.as_str()) {
            v.push(name);
            proof {
                assert(v@.map_values(|s: String| s@) =~= pre + seq![names[i as int]]);
            }
        } else {
            proof {
                assert(v@.map_values(|s: String| s@) =~= pre + Seq::<Seq<char>>::empty());
            }
        }
        i = i + 1;
    }
    proof {
        assert(names.subrange(0, total as int) =~= names);
    }
    Ok(v)
}

/// The message reported for an entry index beyond the archive's entries.
pub open spec fn oob_message(idx: nat, zip: Seq<char>) -> Seq<char> {
    "File index "@ + dec_of(idx) + " out of bounds in zip "@ + zip
}

/// The position of the first out-of-range index, or the length.
pub open spec fn first_oob(fns: Seq<usize>, total: nat) -> int
    decreases fns.len(),
{
    if fns.len() == 0 {
        0
    } else if fns[0] as nat >= total {
        0
    } else {
        1 + first_oob(fns.drop_first(), total)
    }
}

/// Where `first_oob` points, and what lies before it.
pub proof fn lemma_first_oob_props(fns: Seq<usize>, total: nat)
    ensures
        0 <= first_oob(fns, total) <= fns.len(),
        first_oob(fns, total) < fns.len() ==> fns[first_oob(fns, total)] as nat >= total,
        forall|j: int| 0 <= j < first_oob(fns, total) ==> (#[trigger] fns[j] as nat) < total,
    decreases fns.len(),
{
    if fns.len() > 0 && (fns[0] as nat) < total {
        let t = fns.drop_first();
        assert(t =~= fns.subrange(1, fns.len() as int));
        lemma_first_oob_props(t, total);
        assert forall|j: int| 0 <= j < first_oob(fns, total) implies (#[trigger] fns[j] as nat)
            < total by {
            if j > 0 {
                assert(t[j - 1] == fns[j]);
            }
        }
    }
}

proof fn lemma_first_oob_is(fns: Seq<usize>, total: nat, k: int)
    requires
        0 <= k <= fns.len(),
        forall|j: int| 0 <= j < k ==> (fns[j] as nat) < total,
        k == fns.len() || fns[k] as nat >= total,
    ensures
        first_oob(fns, total) == k,
    decreases k,
{
    if fns.len() == 0 {
    } else if k == 0 {
    } else {
        let t = fns.drop_first();
        assert(t =~= fns.subrange(1, fns.len() as int));
        lemma_first_oob_is(t, total, k - 1);
    }
}

/// Checks a batch of entry indices against an archive's entry count:
/// succeeds exactly when all are in range, and otherwise reports the
/// first offender by index and archive name.
pub fn check_entry_indices(total: usize, zip_file_name: &String, file_number: &Vec<usize>) -> (r:
    Result<(), PhotoInsightError>)
    ensures
        r is Ok <==> (forall|k: int|
            0 <= k < file_number@.len() ==> (#[trigger] file_number@[k]) < total),
        r matches Err(e) ==> first_oob(file_number@, total as nat) < file_number@.len()
            && e.message@ == oob_message(
            file_number@[first_oob(file_number@, total as nat)] as nat,
            zip_file_name@,
        ),
{
    let n = file_number.len();
    let mut k: usize = 0;
    while k < n
        invariant
            k <= n,
            n == file_number@.len(),
            forall|j: int| 0 <= j < k ==> (#[trigger] file_number@[j]) < total,
        decreases n - k,
    {
        let idx = file_number[k];
        if idx >= total {
            proof {
                lemma_first_oob_is(file_number@, total as nat, k as int);
            }
            let mut m = str_chars("File index ");
            let d = usize_dec_chars(idx);
            crate::text::append_chars(&mut m, &d);
            crate::text::append_str(&mut m, " out of bounds in zip ");
            let z = str_chars(zip_file_name.as_str());
            crate::text::append_chars(&mut m, &z);
            proof {
                assert(m@ =~= oob_message(idx as nat, zip_file_name@));
            }
            return Err(PhotoInsightError::from_message(chars_to_string(&m)));
        }
        k = k + 1;
    }
    Ok(())
}

/// Extracts the given entries of a zip container into memory, pairing
/// each with its photo identity. An unparsable container is refused; an
/// out-of-range index is refused up front, naming the first offending
/// index and the archive; a clean container with in-range indices is
/// always extracted.
pub fn extract_zip_archive(
    zip_data: &Vec<u8>,
    zip_file_name: &String,
    file_number: &Vec<usize>,
) -> (r: Result<Vec<(PhotoInfo, Vec<u8>)>, PhotoInsightError>)
    ensures
        !zip_parses(zip_data@) ==> r is Err,
        (zip_parses(zip_data@) && first_oob(
            file_number@,
            zip_names_of(zip_data@).len(),
        ) < file_number@.len()) ==> (r matches Err(e) && e.message@ == oob_message(
            file_number@[first_oob(file_number@, zip_names_of(zip_data@).len())] as nat,
            zip_file_name@,
        )),
        (zip_parses(zip_data@) && (forall|k: int|
            0 <= k < file_number@.len() ==> (#[trigger] file_number@[k] as nat) < zip_names_of(
                zip_data@,
            ).len()) && (forall|k: int|
            0 <= k < file_number@.len() ==> zip_entry_ok(
                zip_data@,
                #[trigger] file_number@[k] as int,
            ))) ==> r is Ok,
        r matches Ok(v) ==> {
            &&& v@.len() == file_number@.len()
            &&& forall|k: int|
                0 <= k < v@.len() ==> (#[trigger] v@[k].0)@ == (PhotoInfoV {
                    zip_file_name: zip_file_name@,
                    photo_file_name: zip_names_of(zip_data@)[file_number@[k] as int],
                    photo_index_in_zip: file_number@[k] as nat,
                }) && v@[k].1@ == zip_data_of(zip_data@)[file_number@[k] as int]
            &&& forall|k: int|
                0 <= k < file_number@.len() ==> (#[trigger] file_number@[k] as nat) < zip_names_of(
                    zip_data@,
                ).len()
            &&& forall|k: int|
                0 <= k < file_number@.len() ==> zip_entry_ok(
                    zip_data@,
                    #[trigger] file_number@[k] as int,
                )
        },
{
    let total = match zip_count(zip_data) {
        Ok(n) => n,
        Err(e) => {
            return Err(PhotoInsightError::new(e));
        },
    };
    check_entry_indices(total, zip_file_name, file_number)?;
    proof {
        lemma_first_oob_is(file_number@, total as nat, file_number@.len() as int);
    }
    let n = file_number.len();
    let mut v: Vec<(PhotoInfo, Vec<u8>)> = Vec::new();
    let mut k: usize = 0;
    while k < n
        invariant
            k <= n,
            n == file_number@.len(),
            total == zip_names_of(zip_data@).len(),
            total == zip_data_of(zip_data@).len(),
            zip_parses(zip_data@),
            first_oob(file_number@, total as nat) == n as int,
            forall|j: int| 0 <= j < n ==> (#[trigger] file_number@[j]) < total,
            v@.len() == k,
            forall|j: int| 0 <= j < k ==> zip_entry_ok(zip_data@, #[trigger] file_number@[j] as int),
            forall|j: int|
                0 <= j < k ==> (#[trigger] v@[j].0)@ == (PhotoInfoV {
                    zip_file_name: zip_file_name@,
                    photo_file_name: zip_names_of(zip_data@)[file_number@[j] as int],
                    photo_index_in_zip: file_number@[j] as nat,
                }) && v@[j].1@ == zip_data_of(zip_data@)[file_number@[j] as int],
        decreases n - k,
    {
        let idx = file_number[k];
        let bytes = match zip_bytes_at(zip_data, idx) {
            Ok(b) => b,
            Err(e) => {
                return Err(PhotoInsightError::new(e));
            },
        };
        let name = match zip_name_at(zip_data, idx) {
            Ok(s) => s,
            Err(e) => {
                return Err(PhotoInsightError::new(e));
            },
        };
        let ghost bv = bytes@;
        let ghost nv = name@;
        v.push((PhotoInfo::new(zip_file_name.clone(), name, idx), bytes));
        k = k + 1;
        proof {
            assert(v@[k - 1].0@ == (PhotoInfoV {
                zip_file_name: zip_file_name@,
                photo_file_name: nv,
                photo_index_in_zip: idx as nat,
            }));
            assert(v@[k - 1].1@ == bv);
        }
    }
    Ok(v)
}

} // verus!
