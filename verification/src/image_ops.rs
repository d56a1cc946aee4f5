//! Thumbnail materialization: decoding, aspect-boxed resizing, JPEG
//! re-encoding, and the per-archive byte-fetch path.
//!
//! The pixel work is the `image` crate's, behind trusted wrappers on an
//! opaque `DynamicImage`; the canvas policy, grouping, extraction and
//! MIME sniffing around it are verified.

use vstd::prelude::*;
use crate::cache::{page_of, pview, PhotoCache};
use crate::error::PhotoInsightError;
use crate::exif_read::extract_exif_info;
use crate::image_format::{format_of, mime_from_image, mime_of, ImageFormat};
use crate::photo::{PhotoInfo, PhotoInfoV};
use crate::zip_store::extract_zip_archive;

verus! {

/// Does `image::load_from_memory` decode the bytes at all: a
/// deterministic function of the bytes alone.
pub uninterp spec fn img_decodable(data: Seq<u8>) -> bool;

/// The (width, height) the decoder reports for decodable bytes.
pub uninterp spec fn img_size_of(data: Seq<u8>) -> (u32, u32);

/// What decoding the bytes, resizing into the given box and re-encoding
/// as JPEG yields: a deterministic function of the bytes and the box.
pub uninterp spec fn resize_jpeg_of(data: Seq<u8>, nw: u32, nh: u32) -> Seq<u8>;

/// Relies on `image::load_from_memory` and `DynamicImage::width`/`height`:
/// the decoded image's dimensions; decoding succeeds or fails on the
/// bytes alone.
#[verifier::external_body]
fn img_dimensions(data: &Vec<u8>) -> (r: Result<(u32, u32), String>)
    ensures
        r is Ok <==> img_decodable(data@),
        r matches Ok(d) ==> d == img_size_of(data@),
{
    match image::load_from_memory(data.as_slice()) {
        Ok(img) => Ok((img.width(), img.height())),
        Err(e) => Err(e.to_string()),
    }
}

/// Relies on `image::load_from_memory`, `DynamicImage::resize` (an
/// aspect-preserving fit into the box with the Lanczos filter, clamping
/// each output dimension into 1..=the box) and `DynamicImage::write_to`
/// with the JPEG format. With the box inside the JPEG encoder's accepted
/// dimensions and the output written to memory, encoding cannot fail, so
/// the call succeeds exactly when the bytes decode; the encoder emits the
/// JPEG start-of-image marker, then a segment marker, so the output
/// begins `ff d8 ff`.
#[verifier::external_body]
fn img_resize_jpeg(data: &Vec<u8>, nw: u32, nh: u32) -> (r: Result<Vec<u8>, String>)
    requires
        1 <= nw <= 65535,
        1 <= nh <= 65535,
    ensures
        r is Ok <==> img_decodable(data@),
        r matches Ok(b) ==> b@ == resize_jpeg_of(data@, nw, nh) && b@.len() >= 3 && b@[0]
            == 0xffu8 && b@[1] == 0xd8u8 && b@[2] == 0xffu8,
{
    let img = match image::load_from_memory(data.as_slice()) {
        Ok(i) => i,
        Err(e) => return Err(e.to_string()),
    };
    let scaled = img.resize(nw, nh, image::imageops::FilterType::Lanczos3);
    let mut out: Vec<u8> = Vec::new();
    match scaled.write_to(std::io::Cursor::new(&mut out), image::ImageFormat::Jpeg) {
        Ok(()) => Ok(out),
        Err(e) => Err(e.to_string()),
    }
}

/// The thumbnail canvas a photo's dimensions earn: 160x100 for landscape,
/// 100x160 for portrait.
pub open spec fn canvas_of(width: u32, height: u32) -> (u32, u32) {
    if height > width {
        (100u32, 160u32)
    } else {
        (160u32, 100u32)
    }
}

/// Picks the thumbnail canvas.
pub fn thumb_canvas(width: u32, height: u32) -> (r: (u32, u32))
    ensures
        r == canvas_of(width, height),
{
    if height > width {
        (100, 160)
    } else {
        (160, 100)
    }
}

/// The dimensions the resize judges orientation by: the given ones, with
/// the decoded image's own standing in for a zero.
pub open spec fn resize_dims(data: Seq<u8>, orig_w: u32, orig_h: u32) -> (u32, u32) {
    (
        if orig_w == 0 {
            img_size_of(data).0
        } else {
            orig_w
        },
        if orig_h == 0 {
            img_size_of(data).1
        } else {
            orig_h
        },
    )
}

/// What the resize of decodable bytes returns.
pub open spec fn resize_output_of(data: Seq<u8>, orig_w: u32, orig_h: u32) -> Seq<u8> {
    let d = resize_dims(data, orig_w, orig_h);
    let c = canvas_of(d.0, d.1);
    resize_jpeg_of(data, c.0, c.1)
}

/// Decodes an image and re-encodes it resized into the thumbnail canvas;
/// the canvas orientation follows the given dimensions, or the decoded
/// image's own where a given dimension is zero. Succeeds exactly when the
/// bytes decode, and the output is always a JPEG by its magic bytes.
pub fn resize(buf: &Vec<u8>, orig_w: u32, orig_h: u32) -> (r: Result<Vec<u8>, PhotoInsightError>)
    ensures
        r is Ok <==> img_decodable(buf@),
        r matches Ok(b) ==> b@ == resize_output_of(buf@, orig_w, orig_h),
        r matches Ok(b) ==> format_of(b@) == Some(ImageFormat::Jpeg),
{
    let dims = match img_dimensions(buf) {
        Ok(d) => d,
        Err(e) => {
            return Err(PhotoInsightError::new(e));
        },
    };
    let width = if orig_w == 0 {
        dims.0
    } else {
        orig_w
    };
    let height = if orig_h == 0 {
        dims.1
    } else {
        orig_h
    };
    let (nw, nh) = thumb_canvas(width, height);
    match img_resize_jpeg(buf, nw, nh) {
        Ok(b) => {
            proof {
                assert(png_first_byte_differs(b@));
                assert(crate::image_format::buf_starts(b@, crate::image_format::jpeg_sig()));
            }
            Ok(b)
        },
        Err(e) => Err(PhotoInsightError::new(e)),
    }
}

/// A JPEG-leading buffer cannot start with the PNG signature.
spec fn png_first_byte_differs(b: Seq<u8>) -> bool {
    b.len() >= 1 && b[0] != 0x89u8
}

/// The archives referenced by a batch of photo identities, each with the
/// entry indices wanted from it, grouped in first-appearance order.
pub open spec fn group_indices_model(refs: Seq<PhotoInfoV>) -> Seq<(Seq<char>, Seq<usize>)>
    decreases refs.len(),
{
    if refs.len() == 0 {
        Seq::empty()
    } else {
        let p = refs.last();
        group_put(group_indices_model(refs.drop_last()), p.zip_file_name, p.photo_index_in_zip)
    }
}

/// The first group index of an archive name, or the length.
pub open spec fn group_at(g: Seq<(Seq<char>, Seq<usize>)>, zip: Seq<char>) -> int
    decreases g.len(),
{
    if g.len() == 0 {
        0
    } else if g[0].0 == zip {
        0
    } else {
        1 + group_at(g.drop_first(), zip)
    }
}

/// Appends an entry index to its archive's group, creating the group at
/// the end if absent.
pub open spec fn group_put(
    g: Seq<(Seq<char>, Seq<usize>)>,
    zip: Seq<char>,
    idx: nat,
) -> Seq<(Seq<char>, Seq<usize>)> {
    let i = group_at(g, zip);
    if i < g.len() {
        g.update(i, (g[i].0, g[i].1.push(idx as usize)))
    } else {
        g.push((zip, seq![idx as usize]))
    }
}

/// How many indices the groups hold in all.
pub open spec fn group_total(g: Seq<(Seq<char>, Seq<usize>)>) -> nat
    decreases g.len(),
{
    if g.len() == 0 {
        0
    } else {
        group_total(g.drop_last()) + g.last().1.len()
    }
}

/// Appending one index grows the total by one.
proof fn lemma_group_put_total(g: Seq<(Seq<char>, Seq<usize>)>, zip: Seq<char>, idx: nat)
    ensures
        group_total(group_put(g, zip, idx)) == group_total(g) + 1,
{
    lemma_group_at_bound(g, zip);
    let at = group_at(g, zip);
    let g2 = group_put(g, zip, idx);
    if at < g.len() {
        lemma_group_total_update(g, at, idx);
    } else {
        assert(g2.drop_last() =~= g);
    }
}

/// Where `group_at` points.
proof fn lemma_group_at_bound(g: Seq<(Seq<char>, Seq<usize>)>, zip: Seq<char>)
    ensures
        0 <= group_at(g, zip) <= g.len(),
        group_at(g, zip) < g.len() ==> g[group_at(g, zip)].0 == zip,
    decreases g.len(),
{
    if g.len() > 0 && g[0].0 != zip {
        lemma_group_at_bound(g.drop_first(), zip);
    }
}

/// Growing one group's list by one grows the total by one.
proof fn lemma_group_total_update(g: Seq<(Seq<char>, Seq<usize>)>, at: int, idx: nat)
    requires
        0 <= at < g.len(),
    ensures
        group_total(g.update(at, (g[at].0, g[at].1.push(idx as usize)))) == group_total(g) + 1,
    decreases g.len(),
{
    let g2 = g.update(at, (g[at].0, g[at].1.push(idx as usize)));
    if at == g.len() - 1 {
        assert(g2.drop_last() =~= g.drop_last());
        assert(g2.last() == (g[at].0, g[at].1.push(idx as usize)));
    } else {
        assert(g2.drop_last() =~= g.drop_last().update(at, (g[at].0, g[at].1.push(idx as usize))));
        assert(g.drop_last()[at] == g[at]);
        lemma_group_total_update(g.drop_last(), at, idx);
        assert(g2.last() == g.last());
    }
}

/// Finds an archive's group.
fn find_group(g: &Vec<(String, Vec<usize>)>, zip: &String) -> (r: usize)
    ensures
        r == group_at(gview(g@), zip@),
        r <= g@.len(),
{
    let n = g.len();
    let mut i: usize = 0;
    while i < n
        invariant
            i <= n,
            n == g@.len(),
            forall|j: int| 0 <= j < i ==> gview(g@)[j].0 != zip@,
        decreases n - i,
    {
        if crate::text::str_eq(g[i].0.as_str(), zip.as_str()) {
            proof {
                lemma_group_at_is(gview(g@), zip@, i as int);
            }
            return i;
        }
        i = i + 1;
    }
    proof {
        lemma_group_at_is(gview(g@), zip@, n as int);
    }
    n
}

proof fn lemma_group_at_is(g: Seq<(Seq<char>, Seq<usize>)>, zip: Seq<char>, i: int)
    requires
        0 <= i <= g.len(),
        forall|j: int| 0 <= j < i ==> g[j].0 != zip,
        i == g.len() || g[i].0 == zip,
    ensures
        group_at(g, zip) == i,
    decreases i,
{
    if g.len() == 0 {
    } else if i == 0 {
    } else {
        let t = g.drop_first();
        assert(t =~= g.subrange(1, g.len() as int));
        lemma_group_at_is(t, zip, i - 1);
    }
}

/// The views of index groups.
pub open spec fn gview(s: Seq<(String, Vec<usize>)>) -> Seq<(Seq<char>, Seq<usize>)> {
    s.map_values(|g: (String, Vec<usize>)| (g.0@, g.1@))
}

/// Groups the wanted entry indices by archive, in first-appearance order.
pub fn group_indices_by_archive(refs: &Vec<PhotoInfo>) -> (r: Vec<(String, Vec<usize>)>)
    ensures
        gview(r@) == group_indices_model(pview(refs@)),
        group_total(gview(r@)) == refs@.len(),
{
    let n = refs.len();
    let mut g: Vec<(String, Vec<usize>)> = Vec::new();
    let mut i: usize = 0;
    proof {
        assert(gview(g@) =~= group_indices_model(pview(refs@).subrange(0, 0)));
    }
    while i < n
        invariant
            i <= n,
            n == refs@.len(),
            gview(g@) == group_indices_model(pview(refs@).subrange(0, i as int)),
            group_total(gview(g@)) == i,
        decreases n - i,
    {
        let ghost prefix = pview(refs@).subrange(0, i as int);
        let ghost step = pview(refs@).subrange(0, i + 1);
        proof {
            assert(step.drop_last() =~= prefix);
            assert(step.last() == pview(refs@)[i as int]);
            assert(step.last() == refs@[i as int]@);
            lemma_group_put_total(
                gview(g@),
                refs@[i as int]@.zip_file_name,
                refs@[i as int]@.photo_index_in_zip,
            );
        }
        let ghost pre = gview(g@);
        let zip = &refs[i].zip_file_name;
        let idx = refs[i].photo_index_in_zip;
        let at = find_group(&g, zip);
        if at < g.len() {
            let mut entry = g.remove(at);
            entry.1.push(idx);
            g.insert(at, entry);
            proof {
                assert(gview(g@) =~= group_put(pre, zip@, idx as nat));
            }
        } else {
            let mut fresh: Vec<usize> = Vec::new();
            fresh.push(idx);
            g.push((zip.clone(), fresh));
            proof {
                assert(gview(g@) =~= group_put(pre, zip@, idx as nat));
            }
        }
        i = i + 1;
    }
    proof {
        assert(pview(refs@).subrange(0, n as int) =~= pview(refs@));
    }
    g
}

/// The views of the archive byte store.
pub open spec fn zview(s: Seq<(String, Vec<u8>)>) -> Seq<(Seq<char>, Seq<u8>)> {
    s.map_values(|z: (String, Vec<u8>)| (z.0@, z.1@))
}

/// The first store position holding the archive, or the length.
pub open spec fn store_at(zips: Seq<(Seq<char>, Seq<u8>)>, zip: Seq<char>) -> int
    decreases zips.len(),
{
    if zips.len() == 0 {
        0
    } else if zips[0].0 == zip {
        0
    } else {
        1 + store_at(zips.drop_first(), zip)
    }
}

/// The store carries bytes for the archive.
pub open spec fn store_has(zips: Seq<(Seq<char>, Seq<u8>)>, zip: Seq<char>) -> bool {
    store_at(zips, zip) < zips.len()
}

/// The archive's bytes in the store: the first entry under its name.
pub open spec fn store_bytes(zips: Seq<(Seq<char>, Seq<u8>)>, zip: Seq<char>) -> Seq<u8> {
    if store_at(zips, zip) < zips.len() {
        zips[store_at(zips, zip)].1
    } else {
        Seq::empty()
    }
}

/// Some viewable bytes exist for a photo's container bytes: the embedded
/// thumbnail, or a software resize of a decodable image.
pub open spec fn photo_viewable(entry: Seq<u8>) -> bool {
    img_decodable(entry) || (crate::exif_read::exif_readable(entry)
        && crate::exif_read::thumb_fits(entry))
}

/// The viewable bytes served for a photo's container bytes: the thumbnail
/// when metadata extraction delivers, else the plain resize.
pub open spec fn view_bytes_of(entry: Seq<u8>) -> Seq<u8> {
    if crate::exif_read::exif_readable(entry) && (crate::exif_read::thumb_fits(entry)
        || img_decodable(entry)) {
        crate::exif_read::thumb_of(entry)
    } else {
        resize_output_of(entry, 0u32, 0u32)
    }
}

/// One archive group can be served whole: its bytes are in the store, the
/// container parses, every wanted index is in range, every wanted entry
/// reads cleanly, and every wanted photo is viewable.
pub open spec fn group_served(zips: Seq<(Seq<char>, Seq<u8>)>, g: (Seq<char>, Seq<usize>)) -> bool {
    let data = store_bytes(zips, g.0);
    &&& store_has(zips, g.0)
    &&& crate::zip_store::zip_parses(data)
    &&& forall|k: int|
        0 <= k < g.1.len() ==> (#[trigger] g.1[k] as int) < crate::zip_store::zip_names_of(
            data,
        ).len()
    &&& forall|k: int|
        0 <= k < g.1.len() ==> crate::zip_store::zip_entry_ok(data, #[trigger] g.1[k] as int)
    &&& forall|k: int|
        0 <= k < g.1.len() ==> photo_viewable(
            crate::zip_store::zip_data_of(data)[#[trigger] g.1[k] as int],
        )
}

/// Every archive group of the batch can be served.
pub open spec fn all_groups_served(
    zips: Seq<(Seq<char>, Seq<u8>)>,
    groups: Seq<(Seq<char>, Seq<usize>)>,
) -> bool {
    forall|i: int| 0 <= i < groups.len() ==> #[trigger] group_served(zips, groups[i])
}

/// Every wanted index of the group is in range.
pub open spec fn group_in_range(zips: Seq<(Seq<char>, Seq<u8>)>, g: (Seq<char>, Seq<usize>)) -> bool {
    forall|k: int|
        0 <= k < g.1.len() ==> (#[trigger] g.1[k] as int) < crate::zip_store::zip_names_of(
            store_bytes(zips, g.0),
        ).len()
}

/// The first group with an out-of-range index, or the group count.
pub open spec fn first_oob_group(
    zips: Seq<(Seq<char>, Seq<u8>)>,
    groups: Seq<(Seq<char>, Seq<usize>)>,
) -> int
    decreases groups.len(),
{
    if groups.len() == 0 {
        0
    } else if !group_in_range(zips, groups[0]) {
        0
    } else {
        1 + first_oob_group(zips, groups.drop_first())
    }
}

proof fn lemma_first_oob_group_is(
    zips: Seq<(Seq<char>, Seq<u8>)>,
    groups: Seq<(Seq<char>, Seq<usize>)>,
    i: int,
)
    requires
        0 <= i <= groups.len(),
        forall|j: int| 0 <= j < i ==> group_in_range(zips, #[trigger] groups[j]),
        i == groups.len() || !group_in_range(zips, groups[i]),
    ensures
        first_oob_group(zips, groups) == i,
    decreases i,
{
    if groups.len() == 0 {
    } else if i == 0 {
    } else {
        let t = groups.drop_first();
        assert(t =~= groups.subrange(1, groups.len() as int));
        lemma_first_oob_group_is(zips, t, i - 1);
    }
}

/// The out-of-range message [`PhotoCache::image_data`] reports: the first
/// offending index of the first offending group, against its archive.
pub open spec fn image_data_oob_message(
    zips: Seq<(Seq<char>, Seq<u8>)>,
    groups: Seq<(Seq<char>, Seq<usize>)>,
) -> Seq<char> {
    let g = groups[first_oob_group(zips, groups)];
    let total = crate::zip_store::zip_names_of(store_bytes(zips, g.0)).len();
    crate::zip_store::oob_message(
        g.1[crate::zip_store::first_oob(g.1, total)] as nat,
        g.0,
    )
}

impl PhotoCache {
    /// Materializes viewable bytes for a batch of photos, grouped by
    /// archive: per photo, the embedded EXIF thumbnail when present, else
    /// an aspect-boxed software resize, with the MIME type sniffed from
    /// the returned bytes themselves. All archives and entry indices are
    /// checked before any extraction; the batch succeeds exactly when
    /// every group can be served, and an out-of-range index is reported
    /// naming the index and its archive.
    pub fn image_data(
        &self,
        zip_files: &Vec<(String, Vec<u8>)>,
        image_infos: &Vec<PhotoInfo>,
    ) -> (r: Result<Vec<(PhotoInfo, String, Vec<u8>)>, PhotoInsightError>)
        ensures
            r is Ok <==> all_groups_served(
                zview(zip_files@),
                group_indices_model(pview(image_infos@)),
            ),
            r matches Ok(v) ==> v@.len() == image_infos@.len(),
            r matches Ok(v) ==> forall|k: int|
                0 <= k < v@.len() ==> (#[trigger] v@[k].1)@ == mime_of(v@[k].2@),
            r matches Ok(v) ==> forall|k: int|
                0 <= k < v@.len() ==> ({
                    let b = store_bytes(zview(zip_files@), (#[trigger] v@[k].0)@.zip_file_name);
                    let idx = v@[k].0@.photo_index_in_zip as int;
                    v@[k].0@.photo_file_name == crate::zip_store::zip_names_of(b)[idx] && v@[k].2@
                        == view_bytes_of(crate::zip_store::zip_data_of(b)[idx])
                }),
            ({
                let zips = zview(zip_files@);
                let groups = group_indices_model(pview(image_infos@));
                ((forall|i: int|
                    0 <= i < groups.len() ==> store_has(zips, (#[trigger] groups[i]).0)
                        && crate::zip_store::zip_parses(store_bytes(zips, groups[i].0)))
                    && first_oob_group(zips, groups) < groups.len()) ==> (r matches Err(e)
                    && e.message@ == image_data_oob_message(zips, groups))
            }),
    {
        let ghost zips = zview(zip_files@);
        let groups = group_indices_by_archive(image_infos);
        let gn = groups.len();

        // Resolve every archive and check every index before extracting
        // anything, so an out-of-range index is reported up front.
        let mut handles: Vec<usize> = Vec::new();
        let mut gi: usize = 0;
        while gi < gn
            invariant
                gi <= gn,
                gn == groups@.len(),
                gview(groups@) == group_indices_model(pview(image_infos@)),
                zips == zview(zip_files@),
                handles@.len() == gi,
                forall|j: int|
                    0 <= j < gi ==> (#[trigger] handles@[j]) == store_at(
                        zview(zip_files@),
                        gview(groups@)[j].0,
                    ) && handles@[j] < zip_files@.len(),
                forall|j: int|
                    0 <= j < gi ==> store_has(zview(zip_files@), (#[trigger] gview(groups@)[j]).0)
                        && crate::zip_store::zip_parses(
                        store_bytes(zview(zip_files@), gview(groups@)[j].0),
                    ) && group_in_range(zview(zip_files@), gview(groups@)[j]),
            decreases gn - gi,
        {
            let ghost g = gview(groups@)[gi as int];
            proof {
                assert(g == (groups@[gi as int].0@, groups@[gi as int].1@));
            }
            let zip_file = &groups[gi].0;
            let indices = &groups[gi].1;
            let d = match find_archive_bytes(zip_files, zip_file) {
                Some(d) => d,
                None => {
                    proof {
                        assert(!group_served(zips, gview(groups@)[gi as int]));
                        assert(!all_groups_served(zips, gview(groups@)));
                        assert(!store_has(zips, gview(groups@)[gi as int].0));
                    }
                    return Err(
                        PhotoInsightError::from_message(
                            crate::text::chars_to_string(
                                &crate::text::str_chars("Provided zip file path is not a file"),
                            ),
                        ),
                    );
                },
            };
            let data = &zip_files[d].1;
            proof {
                assert(zview(zip_files@)[d as int] == (
                    zip_files@[d as int].0@,
                    zip_files@[d as int].1@,
                ));
                assert(data@ == store_bytes(zips, g.0));
            }
            let total = match crate::zip_store::zip_count(data) {
                Ok(n) => n,
                Err(e) => {
                    proof {
                        assert(!crate::zip_store::zip_parses(
                            store_bytes(zips, gview(groups@)[gi as int].0),
                        ));
                        assert(!group_served(zips, gview(groups@)[gi as int]));
                        assert(!all_groups_served(zips, gview(groups@)));
                    }
                    return Err(PhotoInsightError::new(e));
                },
            };
            match crate::zip_store::check_entry_indices(total, zip_file, indices) {
                Ok(()) => {},
                Err(e) => {
                    proof {
                        crate::zip_store::lemma_first_oob_props(
                            groups@[gi as int].1@,
                            total as nat,
                        );
                        let fo = crate::zip_store::first_oob(groups@[gi as int].1@, total as nat);
                        assert(gview(groups@)[gi as int].1 == groups@[gi as int].1@);
                        assert((gview(groups@)[gi as int].1[fo] as nat) >= total as nat);
                        assert(!group_in_range(zips, gview(groups@)[gi as int]));
                        lemma_first_oob_group_is(zips, gview(groups@), gi as int);
                        assert(e.message@ == image_data_oob_message(zips, gview(groups@)));
                        assert(!group_served(zips, gview(groups@)[gi as int]));
                        assert(!all_groups_served(zips, gview(groups@)));
                    }
                    return Err(e);
                },
            }
            handles.push(d);
            gi = gi + 1;
        }

        proof {
            lemma_first_oob_group_is(zips, gview(groups@), gn as int);
        }

        // Extract and materialize, group by group.
        let mut out: Vec<(PhotoInfo, String, Vec<u8>)> = Vec::new();
        let mut gi: usize = 0;
        proof {
            assert(group_total(gview(groups@).subrange(0, 0)) == 0);
        }
        while gi < gn
            invariant
                gi <= gn,
                gn == groups@.len(),
                gview(groups@) == group_indices_model(pview(image_infos@)),
                group_total(gview(groups@)) == image_infos@.len(),
                first_oob_group(zips, gview(groups@)) == gn as int,
                zips == zview(zip_files@),
                handles@.len() == gn,
                forall|j: int|
                    0 <= j < gn ==> (#[trigger] handles@[j]) == store_at(
                        zview(zip_files@),
                        gview(groups@)[j].0,
                    ) && handles@[j] < zip_files@.len(),
                forall|j: int|
                    0 <= j < gn ==> store_has(zview(zip_files@), (#[trigger] gview(groups@)[j]).0)
                        && crate::zip_store::zip_parses(
                        store_bytes(zview(zip_files@), gview(groups@)[j].0),
                    ) && group_in_range(zview(zip_files@), gview(groups@)[j]),
                forall|j: int|
                    0 <= j < gi ==> #[trigger] group_served(
                        zview(zip_files@),
                        gview(groups@)[j],
                    ),
                out@.len() == group_total(gview(groups@).subrange(0, gi as int)),
                forall|k: int|
                    0 <= k < out@.len() ==> (#[trigger] out@[k].1)@ == mime_of(out@[k].2@),
                forall|k: int|
                    0 <= k < out@.len() ==> ({
                        let b = store_bytes(
                            zview(zip_files@),
                            (#[trigger] out@[k].0)@.zip_file_name,
                        );
                        let idx = out@[k].0@.photo_index_in_zip as int;
                        out@[k].0@.photo_file_name == crate::zip_store::zip_names_of(b)[idx]
                            && out@[k].2@ == view_bytes_of(
                            crate::zip_store::zip_data_of(b)[idx],
                        )
                    }),
            decreases gn - gi,
        {
            let ghost prefix = gview(groups@).subrange(0, gi as int);
            let ghost step = gview(groups@).subrange(0, gi + 1);
            let ghost g = gview(groups@)[gi as int];
            proof {
                assert(step.drop_last() =~= prefix);
                assert(step.last() == g);
                assert(g == (groups@[gi as int].0@, groups@[gi as int].1@));
            }
            let zip_file = &groups[gi].0;
            let indices = &groups[gi].1;
            let h = handles[gi];
            let data = &zip_files[h].1;
            proof {
                assert(h == store_at(zview(zip_files@), gview(groups@)[gi as int].0));
                assert(zview(zip_files@)[h as int] == (
                    zip_files@[h as int].0@,
                    zip_files@[h as int].1@,
                ));
                assert(data@ == store_bytes(zips, g.0));
            }
            let unpacked = match extract_zip_archive(data, zip_file, indices) {
                Ok(u) => u,
                Err(e) => {
                    proof {
                        assert(!group_served(zips, gview(groups@)[gi as int]));
                        assert(!all_groups_served(zips, gview(groups@)));
                    }
                    return Err(e);
                },
            };
            let un = unpacked.len();
            let mut ui: usize = 0;
            while ui < un
                invariant
                    ui <= un,
                    un == unpacked@.len(),
                    un == g.1.len(),
                    g == (gview(groups@)[gi as int]),
                    0 <= gi < groups@.len(),
                    gview(groups@) == group_indices_model(pview(image_infos@)),
                    first_oob_group(zips, gview(groups@)) == groups@.len() as int,
                    zips == zview(zip_files@),
                    data@ == store_bytes(zips, g.0),
                    crate::zip_store::zip_parses(data@),
                    forall|j: int|
                        0 <= j < un ==> (#[trigger] g.1[j] as int) < crate::zip_store::zip_names_of(
                            data@,
                        ).len() && crate::zip_store::zip_entry_ok(data@, g.1[j] as int),
                    forall|j: int|
                        0 <= j < un ==> (#[trigger] unpacked@[j].0)@ == (PhotoInfoV {
                            zip_file_name: g.0,
                            photo_file_name: crate::zip_store::zip_names_of(data@)[g.1[j] as int],
                            photo_index_in_zip: g.1[j] as nat,
                        }) && unpacked@[j].1@ == crate::zip_store::zip_data_of(data@)[g.1[
                            j
                        ] as int],
                    forall|j: int|
                        0 <= j < ui ==> photo_viewable(
                            crate::zip_store::zip_data_of(data@)[#[trigger] g.1[j] as int],
                        ),
                    out@.len() == group_total(gview(groups@).subrange(0, gi as int)) + ui,
                    forall|k: int|
                        0 <= k < out@.len() ==> (#[trigger] out@[k].1)@ == mime_of(out@[k].2@),
                    forall|k: int|
                        0 <= k < out@.len() ==> ({
                            let b = store_bytes(
                                zview(zip_files@),
                                (#[trigger] out@[k].0)@.zip_file_name,
                            );
                            let idx = out@[k].0@.photo_index_in_zip as int;
                            out@[k].0@.photo_file_name == crate::zip_store::zip_names_of(b)[idx]
                                && out@[k].2@ == view_bytes_of(
                                crate::zip_store::zip_data_of(b)[idx],
                            )
                        }),
                decreases un - ui,
            {
                let photo_info = unpacked[ui].0.clone();
                let image_bytes = &unpacked[ui].1;
                let ghost entry = crate::zip_store::zip_data_of(data@)[g.1[ui as int] as int];
                proof {
                    assert(image_bytes@ == entry);
                    assert(photo_info@.zip_file_name == g.0);
                    assert(photo_info@.photo_index_in_zip == g.1[ui as int] as nat);
                }
                match extract_exif_info(image_bytes, true) {
                    Ok(pair) => {
                        let thm = pair.1;
                        let mime = mime_from_image(&thm);
                        out.push((photo_info, mime, thm));
                    },
                    Err(_) => {
                        let resized = match resize(image_bytes, 0, 0) {
                            Ok(b) => b,
                            Err(e) => {
                                proof {
                                    assert(!photo_viewable(entry));
                                    assert(!group_served(zips, gview(groups@)[gi as int]));
                                    assert(!all_groups_served(zips, gview(groups@)));
                                }
                                return Err(e);
                            },
                        };
                        let mime = mime_from_image(&resized);
                        out.push((photo_info, mime, resized));
                    },
                }
                ui = ui + 1;
            }
            proof {
                assert(group_served(zips, g));
                assert(group_total(step) == group_total(prefix) + g.1.len());
            }
            gi = gi + 1;
        }
        proof {
            assert(gview(groups@).subrange(0, gn as int) =~= gview(groups@));
        }
        Ok(out)
    }
}

/// Looks up an archive's position in the raw-bytes list by name: the
/// first entry under the name, as [`store_at`] counts.
fn find_archive_bytes(zip_files: &Vec<(String, Vec<u8>)>, zip: &String) -> (r: Option<usize>)
    ensures
        r matches Some(i) ==> i < zip_files@.len() && i == store_at(zview(zip_files@), zip@),
        r is None ==> !store_has(zview(zip_files@), zip@),
{
    let n = zip_files.len();
    let mut i: usize = 0;
    while i < n
        invariant
            i <= n,
            n == zip_files@.len(),
            forall|j: int| 0 <= j < i ==> zview(zip_files@)[j].0 != zip@,
        decreases n - i,
    {
        if crate::text::str_eq(zip_files[i].0.as_str(), zip.as_str()) {
            proof {
                lemma_store_at_is(zview(zip_files@), zip@, i as int);
            }
            return Some(i);
        }
        i = i + 1;
    }
    proof {
        lemma_store_at_is(zview(zip_files@), zip@, n as int);
    }
    None
}

proof fn lemma_store_at_is(zips: Seq<(Seq<char>, Seq<u8>)>, zip: Seq<char>, i: int)
    requires
        0 <= i <= zips.len(),
        forall|j: int| 0 <= j < i ==> zips[j].0 != zip,
        i == zips.len() || zips[i].0 == zip,
    ensures
        store_at(zips, zip) == i,
    decreases i,
{
    if zips.len() == 0 {
    } else if i == 0 {
    } else {
        let t = zips.drop_first();
        assert(t =~= zips.subrange(1, zips.len() as int));
        lemma_store_at_is(t, zip, i - 1);
    }
}

} // verus!
