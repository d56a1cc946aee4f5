//! The merged photo cache: build, merge, and the read-only queries.
//!
//! The cache owns the list of photo identities, the metadata index, and
//! the year/month grouping. It is built once by folding per-archive
//! inputs — the archive's image listing and the parsed contents of its two
//! cache files — and read afterwards. All queries share one pagination
//! contract, stated by [`page_of`].

use vstd::prelude::*;
use crate::error::PhotoInsightError;
use crate::exif_data::{eval_query, ExifInfo, ExifInfoV};
use crate::photo::{key_of, parse_key, ExifResult, ExifResultV, PhotoInfo, PhotoInfoV};
use crate::text::{lower_of, lowercase, seq_has, str_chars};

verus! {

/// One bucket of the temporal index: the photos of one (year, month).
#[derive(Debug, PartialEq)]
pub struct TemporalEntry {
    pub year: u32,
    pub month: u32,
    pub photos: Vec<PhotoInfo>,
}

/// The mathematical shadow of [`TemporalEntry`].
pub struct TemporalEntryV {
    pub year: u32,
    pub month: u32,
    pub photos: Seq<PhotoInfoV>,
}

/// The views of a photo list.
pub open spec fn pview(s: Seq<PhotoInfo>) -> Seq<PhotoInfoV> {
    s.map_values(|p: PhotoInfo| p@)
}

/// The views of a metadata index.
pub open spec fn eview(s: Seq<(PhotoInfo, ExifInfo)>) -> Seq<(PhotoInfoV, ExifInfoV)> {
    s.map_values(|pe: (PhotoInfo, ExifInfo)| (pe.0@, pe.1@))
}

/// The views of serialized metadata entries.
pub open spec fn kview(s: Seq<(String, ExifInfo)>) -> Seq<(Seq<char>, ExifInfoV)> {
    s.map_values(|ke: (String, ExifInfo)| (ke.0@, ke.1@))
}

/// The views of an archive listing.
pub open spec fn lview(s: Seq<(usize, String)>) -> Seq<(nat, Seq<char>)> {
    s.map_values(|e: (usize, String)| (e.0 as nat, e.1@))
}

impl View for TemporalEntry {
    type V = TemporalEntryV;

    open spec fn view(&self) -> TemporalEntryV {
        TemporalEntryV { year: self.year, month: self.month, photos: pview(self.photos@) }
    }
}

/// The views of a temporal index.
pub open spec fn tview(s: Seq<TemporalEntry>) -> Seq<TemporalEntryV> {
    s.map_values(|t: TemporalEntry| t@)
}

/// Copies a photo list.
pub fn clone_photo_vec(v: &Vec<PhotoInfo>) -> (r: Vec<PhotoInfo>)
    ensures
        pview(r@) == pview(v@),
{
    let mut r: Vec<PhotoInfo> = Vec::new();
    let n = v.len();
    let mut i: usize = 0;
    while i < n
        invariant
            i <= n,
            n == v@.len(),
            r@.len() == i,
            forall|j: int| 0 <= j < i ==> r@[j]@ == v@[j]@,
        decreases n - i,
    {
        r.push(v[i].clone());
        i = i + 1;
    }
    proof {
        assert forall|j: int| 0 <= j < pview(r@).len() implies pview(r@)[j] == pview(v@)[j] by {
            assert(r@[j]@ == v@[j]@);
        }
        assert(pview(r@) =~= pview(v@));
    }
    r
}

impl Clone for TemporalEntry {
    /// A clone carries the same view.
    fn clone(&self) -> (r: TemporalEntry)
        ensures
            r@ == self@,
    {
        TemporalEntry {
            year: self.year,
            month: self.month,
            photos: clone_photo_vec(&self.photos),
        }
    }
}

/// Decides whether two photo identities coincide.
pub fn photo_eq(a: &PhotoInfo, b: &PhotoInfo) -> (r: bool)
    ensures
        r == (a@ == b@),
{
    let zc = crate::text::str_eq(a.zip_file_name.as_str(), b.zip_file_name.as_str());
    let fc = crate::text::str_eq(a.photo_file_name.as_str(), b.photo_file_name.as_str());
    zc && fc && a.photo_index_in_zip == b.photo_index_in_zip
}

/// What a per-archive bundle contributes to the build: the archive's
/// image-like listing and the parsed contents of its two cache files.
#[derive(Debug)]
pub struct ArchiveCacheData {
    pub zip_file_name: String,
    /// Image-like entries, as `(entry index, entry name)`.
    pub entries: Vec<(usize, String)>,
    /// The parsed metadata cache file: composite key text to record.
    pub exif_entries: Vec<(String, ExifInfo)>,
    /// The parsed temporal cache file.
    pub temporal_entries: Vec<TemporalEntry>,
}

/// The mathematical shadow of [`ArchiveCacheData`].
pub struct ArchiveCacheDataV {
    pub zip_file_name: Seq<char>,
    pub entries: Seq<(nat, Seq<char>)>,
    pub exif_entries: Seq<(Seq<char>, ExifInfoV)>,
    pub temporal_entries: Seq<TemporalEntryV>,
}

impl View for ArchiveCacheData {
    type V = ArchiveCacheDataV;

    open spec fn view(&self) -> ArchiveCacheDataV {
        ArchiveCacheDataV {
            zip_file_name: self.zip_file_name@,
            entries: lview(self.entries@),
            exif_entries: kview(self.exif_entries@),
            temporal_entries: tview(self.temporal_entries@),
        }
    }
}

/// The views of the archive bundles.
pub open spec fn aview(s: Seq<ArchiveCacheData>) -> Seq<ArchiveCacheDataV> {
    s.map_values(|a: ArchiveCacheData| a@)
}

// ------------------------------------------------------------------
// The fold model of the build.
// ------------------------------------------------------------------

/// The model of the whole cache.
pub struct CacheModel {
    pub images: Seq<PhotoInfoV>,
    pub exif: Seq<(PhotoInfoV, ExifInfoV)>,
    pub temporal: Seq<TemporalEntryV>,
}

/// Inserting the listed photos of one archive, skipping those already
/// present (set semantics).
pub open spec fn add_images_model(
    images: Seq<PhotoInfoV>,
    zip: Seq<char>,
    entries: Seq<(nat, Seq<char>)>,
) -> Seq<PhotoInfoV>
    decreases entries.len(),
{
    if entries.len() == 0 {
        images
    } else {
        let p = PhotoInfoV {
            zip_file_name: zip,
            photo_file_name: entries[0].1,
            photo_index_in_zip: entries[0].0,
        };
        let next = if images.contains(p) {
            images
        } else {
            images.push(p)
        };
        add_images_model(next, zip, entries.drop_first())
    }
}

/// The first index holding the key, or the length.
pub open spec fn exif_key_at(m: Seq<(PhotoInfoV, ExifInfoV)>, k: PhotoInfoV) -> int
    decreases m.len(),
{
    if m.len() == 0 {
        0
    } else if m[0].0 == k {
        0
    } else {
        1 + exif_key_at(m.drop_first(), k)
    }
}

/// Some entry holds the key.
pub open spec fn has_exif_key(m: Seq<(PhotoInfoV, ExifInfoV)>, k: PhotoInfoV) -> bool {
    exists|j: int| 0 <= j < m.len() && m[j].0 == k
}

/// The record stored under a key, if any.
pub open spec fn exif_lookup(m: Seq<(PhotoInfoV, ExifInfoV)>, k: PhotoInfoV) -> Option<ExifInfoV> {
    if exif_key_at(m, k) < m.len() {
        Some(m[exif_key_at(m, k)].1)
    } else {
        None
    }
}

/// Inserting one record: replace in place, or append.
pub open spec fn exif_put(
    m: Seq<(PhotoInfoV, ExifInfoV)>,
    k: PhotoInfoV,
    v: ExifInfoV,
) -> Seq<(PhotoInfoV, ExifInfoV)> {
    let i = exif_key_at(m, k);
    if i < m.len() {
        m.update(i, (k, v))
    } else {
        m.push((k, v))
    }
}

/// Folding a batch of records into the metadata index, left to right.
pub open spec fn merge_exif_model(
    m: Seq<(PhotoInfoV, ExifInfoV)>,
    add: Seq<(PhotoInfoV, ExifInfoV)>,
) -> Seq<(PhotoInfoV, ExifInfoV)>
    decreases add.len(),
{
    if add.len() == 0 {
        m
    } else {
        merge_exif_model(exif_put(m, add[0].0, add[0].1), add.drop_first())
    }
}

/// The first bucket index of (year, month), or the length.
pub open spec fn bucket_at(t: Seq<TemporalEntryV>, y: u32, mo: u32) -> int
    decreases t.len(),
{
    if t.len() == 0 {
        0
    } else if t[0].year == y && t[0].month == mo {
        0
    } else {
        1 + bucket_at(t.drop_first(), y, mo)
    }
}

/// The photos grouped under (year, month); empty when the bucket is
/// absent.
pub open spec fn bucket_photos(t: Seq<TemporalEntryV>, y: u32, mo: u32) -> Seq<PhotoInfoV> {
    if bucket_at(t, y, mo) < t.len() {
        t[bucket_at(t, y, mo)].photos
    } else {
        Seq::empty()
    }
}

/// Appending photos to their bucket, creating it at the end if absent.
pub open spec fn bucket_put(
    t: Seq<TemporalEntryV>,
    y: u32,
    mo: u32,
    ps: Seq<PhotoInfoV>,
) -> Seq<TemporalEntryV> {
    let i = bucket_at(t, y, mo);
    if i < t.len() {
        t.update(i, TemporalEntryV { year: t[i].year, month: t[i].month, photos: t[i].photos + ps })
    } else {
        t.push(TemporalEntryV { year: y, month: mo, photos: ps })
    }
}

/// Folding a batch of buckets into the temporal index by per-bucket list
/// concatenation, left to right.
pub open spec fn merge_temporal_model(
    t: Seq<TemporalEntryV>,
    add: Seq<TemporalEntryV>,
) -> Seq<TemporalEntryV>
    decreases add.len(),
{
    if add.len() == 0 {
        t
    } else {
        merge_temporal_model(bucket_put(t, add[0].year, add[0].month, add[0].photos), add.drop_first())
    }
}

/// Decoding a metadata cache file: keys that parse become index entries,
/// the rest are dropped.
pub open spec fn decode_exif_model(entries: Seq<(Seq<char>, ExifInfoV)>) -> Seq<
    (PhotoInfoV, ExifInfoV),
>
    decreases entries.len(),
{
    if entries.len() == 0 {
        Seq::empty()
    } else {
        decode_exif_model(entries.drop_last()) + (match parse_key(entries.last().0) {
            Some(p) => seq![(p, entries.last().1)],
            None => Seq::empty(),
        })
    }
}

/// Grouping a per-archive metadata index by (year, month), in index
/// order.
pub open spec fn group_temporal_model(entries: Seq<(PhotoInfoV, ExifInfoV)>) -> Seq<TemporalEntryV>
    decreases entries.len(),
{
    if entries.len() == 0 {
        Seq::empty()
    } else {
        let e = entries.last();
        bucket_put(group_temporal_model(entries.drop_last()), e.1.year, e.1.month, seq![e.0])
    }
}

/// One archive's contribution to the cache.
pub open spec fn build_step(state: CacheModel, a: ArchiveCacheDataV) -> CacheModel {
    CacheModel {
        images: add_images_model(state.images, a.zip_file_name, a.entries),
        exif: merge_exif_model(state.exif, decode_exif_model(a.exif_entries)),
        temporal: merge_temporal_model(state.temporal, a.temporal_entries),
    }
}

/// Folding all archives, in directory order.
pub open spec fn build_from(state: CacheModel, archives: Seq<ArchiveCacheDataV>) -> CacheModel
    decreases archives.len(),
{
    if archives.len() == 0 {
        state
    } else {
        build_from(build_step(state, archives[0]), archives.drop_first())
    }
}

/// The empty cache.
pub open spec fn empty_model() -> CacheModel {
    CacheModel { images: Seq::empty(), exif: Seq::empty(), temporal: Seq::empty() }
}

/// What building from a directory's archives yields.
pub open spec fn build_model(archives: Seq<ArchiveCacheDataV>) -> CacheModel {
    build_from(empty_model(), archives)
}

// ------------------------------------------------------------------
// The cache itself.
// ------------------------------------------------------------------

/// The merged, read-mostly photo cache.
#[derive(Debug)]
pub struct PhotoCache {
    /// The directory the archives live in.
    pub image_dir: String,
    /// Every listed photo identity, whether or not metadata extraction
    /// succeeded for it.
    pub images: Vec<PhotoInfo>,
    /// The metadata index.
    pub exif_cache: Vec<(PhotoInfo, ExifInfo)>,
    /// The year/month grouping of the metadata index.
    pub by_year_month: Vec<TemporalEntry>,
}

impl PhotoCache {
    /// The model the cache presents.
    pub open spec fn model(&self) -> CacheModel {
        CacheModel {
            images: pview(self.images@),
            exif: eview(self.exif_cache@),
            temporal: tview(self.by_year_month@),
        }
    }
}

/// Finds a photo in a list.
fn contains_photo(v: &Vec<PhotoInfo>, p: &PhotoInfo) -> (r: bool)
    ensures
        r == pview(v@).contains(p@),
{
    let n = v.len();
    let mut i: usize = 0;
    while i < n
        invariant
            i <= n,
            n == v@.len(),
            forall|j: int| 0 <= j < i ==> pview(v@)[j] != p@,
        decreases n - i,
    {
        if photo_eq(&v[i], p) {
            proof {
                assert(pview(v@)[i as int] == p@);
            }
            return true;
        }
        i = i + 1;
    }
    false
}

/// Locates a key in the metadata index.
fn find_exif_index(m: &Vec<(PhotoInfo, ExifInfo)>, k: &PhotoInfo) -> (r: usize)
    ensures
        r == exif_key_at(eview(m@), k@),
        r <= m@.len(),
{
    let n = m.len();
    let mut i: usize = 0;
    while i < n
        invariant
            i <= n,
            n == m@.len(),
            forall|j: int| 0 <= j < i ==> eview(m@)[j].0 != k@,
        decreases n - i,
    {
        if photo_eq(&m[i].0, k) {
            proof {
                lemma_exif_key_at_is(eview(m@), k@, i as int);
            }
            return i;
        }
        i = i + 1;
    }
    proof {
        lemma_exif_key_at_is(eview(m@), k@, n as int);
    }
    n
}

/// Pins `exif_key_at` to a found position.
proof fn lemma_exif_key_at_is(m: Seq<(PhotoInfoV, ExifInfoV)>, k: PhotoInfoV, i: int)
    requires
        0 <= i <= m.len(),
        forall|j: int| 0 <= j < i ==> m[j].0 != k,
        i == m.len() || m[i].0 == k,
    ensures
        exif_key_at(m, k) == i,
    decreases i,
{
    if m.len() == 0 {
    } else if i == 0 {
    } else {
        let t = m.drop_first();
        assert(t =~= m.subrange(1, m.len() as int));
        lemma_exif_key_at_is(t, k, i - 1);
    }
}

/// Locates a bucket in the temporal index.
fn find_bucket(t: &Vec<TemporalEntry>, y: u32, mo: u32) -> (r: usize)
    ensures
        r == bucket_at(tview(t@), y, mo),
        r <= t@.len(),
{
    let n = t.len();
    let mut i: usize = 0;
    while i < n
        invariant
            i <= n,
            n == t@.len(),
            forall|j: int|
                0 <= j < i ==> !(tview(t@)[j].year == y && tview(t@)[j].month == mo),
        decreases n - i,
    {
        if t[i].year == y && t[i].month == mo {
            proof {
                lemma_bucket_at_is(tview(t@), y, mo, i as int);
            }
            return i;
        }
        i = i + 1;
    }
    proof {
        lemma_bucket_at_is(tview(t@), y, mo, n as int);
    }
    n
}

/// Pins `bucket_at` to a found position.
proof fn lemma_bucket_at_is(t: Seq<TemporalEntryV>, y: u32, mo: u32, i: int)
    requires
        0 <= i <= t.len(),
        forall|j: int| 0 <= j < i ==> !(t[j].year == y && t[j].month == mo),
        i == t.len() || (t[i].year == y && t[i].month == mo),
    ensures
        bucket_at(t, y, mo) == i,
    decreases i,
{
    if t.len() == 0 {
    } else if i == 0 {
    } else {
        let s = t.drop_first();
        assert(s =~= t.subrange(1, t.len() as int));
        lemma_bucket_at_is(s, y, mo, i - 1);
    }
}

/// Appends photos to their bucket, creating it at the end if absent.
fn bucket_append(t: &mut Vec<TemporalEntry>, y: u32, mo: u32, mut photos: Vec<PhotoInfo>)
    ensures
        tview(final(t)@) == bucket_put(tview(old(t)@), y, mo, pview(photos@)),
{
    let ghost ps = pview(photos@);
    let idx = find_bucket(t, y, mo);
    if idx < t.len() {
        let mut entry = t.remove(idx);
        let ghost removed = tview(t@);
        let ghost old_photos = pview(entry.photos@);
        entry.photos.append(&mut photos);
        proof {
            assert(pview(entry.photos@) =~= old_photos + ps);
        }
        t.insert(idx, entry);
        proof {
            assert(tview(t@) =~= bucket_put(tview(old(t)@), y, mo, ps));
        }
    } else {
        t.push(TemporalEntry { year: y, month: mo, photos });
        proof {
            assert(tview(t@) =~= bucket_put(tview(old(t)@), y, mo, ps));
        }
    }
}

impl PhotoCache {
    /// An empty cache over a directory.
    pub fn empty(image_dir: String) -> (r: PhotoCache)
        ensures
            r.model() == empty_model(),
            r.image_dir@ == image_dir@,
    {
        let r = PhotoCache {
            image_dir,
            images: Vec::new(),
            exif_cache: Vec::new(),
            by_year_month: Vec::new(),
        };
        proof {
            assert(r.model().images =~= empty_model().images);
            assert(r.model().exif =~= empty_model().exif);
            assert(r.model().temporal =~= empty_model().temporal);
        }
        r
    }

    /// Adds one archive's listed photos to the identity set.
    fn add_archive_images(&mut self, zip: &String, entries: &Vec<(usize, String)>)
        ensures
            pview(final(self).images@) == add_images_model(
                pview(old(self).images@),
                zip@,
                lview(entries@),
            ),
            final(self).exif_cache == old(self).exif_cache,
            final(self).by_year_month == old(self).by_year_month,
            final(self).image_dir == old(self).image_dir,
    {
        let n = entries.len();
        let mut i: usize = 0;
        proof {
            assert(lview(entries@).subrange(0, n as int) =~= lview(entries@));
        }
        while i < n
            invariant
                i <= n,
                n == entries@.len(),
                add_images_model(pview(old(self).images@), zip@, lview(entries@))
                    == add_images_model(
                    pview(self.images@),
                    zip@,
                    lview(entries@).subrange(i as int, n as int),
                ),
                self.exif_cache == old(self).exif_cache,
                self.by_year_month == old(self).by_year_month,
                self.image_dir == old(self).image_dir,
            decreases n - i,
        {
            let idx = entries[i].0;
            let name = entries[i].1.clone();
            let p = PhotoInfo::new(zip.clone(), name, idx);
            let ghost pv = p@;
            let ghost pre = pview(self.images@);
            let ghost rem = lview(entries@).subrange(i as int, n as int);
            proof {
                assert(rem[0] == lview(entries@)[i as int]);
                assert(rem[0] == (idx as nat, entries@[i as int].1@));
                assert(rem.drop_first() =~= lview(entries@).subrange(i + 1, n as int));
                assert(pv == PhotoInfoV {
                    zip_file_name: zip@,
                    photo_file_name: rem[0].1,
                    photo_index_in_zip: rem[0].0,
                });
            }
            let present = contains_photo(&self.images, &p);
            if !present {
                self.images.push(p);
            }
            proof {
                if present {
                    assert(pview(self.images@) == pre);
                } else {
                    assert(pview(self.images@) =~= pre.push(pv));
                }
                assert(add_images_model(pre, zip@, rem) == add_images_model(
                    pview(self.images@),
                    zip@,
                    rem.drop_first(),
                ));
            }
            i = i + 1;
        }
        proof {
            assert(lview(entries@).subrange(n as int, n as int) =~= Seq::<(nat, Seq<char>)>::empty());
        }
    }

    /// Folds a batch of records into the metadata index; a record whose
    /// key is already present replaces the stored record in place.
    fn merge_exif(&mut self, add: Vec<(PhotoInfo, ExifInfo)>)
        ensures
            eview(final(self).exif_cache@) == merge_exif_model(
                eview(old(self).exif_cache@),
                eview(add@),
            ),
            final(self).images == old(self).images,
            final(self).by_year_month == old(self).by_year_month,
            final(self).image_dir == old(self).image_dir,
    {
        let n = add.len();
        let mut i: usize = 0;
        proof {
            assert(eview(add@).subrange(0, n as int) =~= eview(add@));
        }
        while i < n
            invariant
                i <= n,
                n == add@.len(),
                merge_exif_model(eview(old(self).exif_cache@), eview(add@)) == merge_exif_model(
                    eview(self.exif_cache@),
                    eview(add@).subrange(i as int, n as int),
                ),
                self.images == old(self).images,
                self.by_year_month == old(self).by_year_month,
                self.image_dir == old(self).image_dir,
            decreases n - i,
        {
            let p = add[i].0.clone();
            let e = add[i].1.clone();
            let ghost pv = p@;
            let ghost ev = e@;
            let ghost pre = eview(self.exif_cache@);
            let ghost rem = eview(add@).subrange(i as int, n as int);
            proof {
                assert(rem[0] == eview(add@)[i as int]);
                assert(rem[0] == (add@[i as int].0@, add@[i as int].1@));
                assert(rem.drop_first() =~= eview(add@).subrange(i + 1, n as int));
            }
            let idx = find_exif_index(&self.exif_cache, &p);
            if idx < self.exif_cache.len() {
                let _replaced = self.exif_cache.remove(idx);
                self.exif_cache.insert(idx, (p, e));
                proof {
                    assert(eview(self.exif_cache@) =~= exif_put(pre, pv, ev));
                }
            } else {
                self.exif_cache.push((p, e));
                proof {
                    assert(eview(self.exif_cache@) =~= exif_put(pre, pv, ev));
                }
            }
            proof {
                assert(merge_exif_model(pre, rem) == merge_exif_model(
                    eview(self.exif_cache@),
                    rem.drop_first(),
                ));
            }
            i = i + 1;
        }
        proof {
            assert(eview(add@).subrange(n as int, n as int) =~= Seq::<
                (PhotoInfoV, ExifInfoV),
            >::empty());
        }
    }

    /// Folds a batch of buckets into the temporal index by per-bucket
    /// list concatenation — never replacement.
    fn merge_temporal(&mut self, add: &Vec<TemporalEntry>)
        ensures
            tview(final(self).by_year_month@) == merge_temporal_model(
                tview(old(self).by_year_month@),
                tview(add@),
            ),
            final(self).images == old(self).images,
            final(self).exif_cache == old(self).exif_cache,
            final(self).image_dir == old(self).image_dir,
    {
        let n = add.len();
        let mut i: usize = 0;
        proof {
            assert(tview(add@).subrange(0, n as int) =~= tview(add@));
        }
        while i < n
            invariant
                i <= n,
                n == add@.len(),
                merge_temporal_model(tview(old(self).by_year_month@), tview(add@))
                    == merge_temporal_model(
                    tview(self.by_year_month@),
                    tview(add@).subrange(i as int, n as int),
                ),
                self.images == old(self).images,
                self.exif_cache == old(self).exif_cache,
                self.image_dir == old(self).image_dir,
            decreases n - i,
        {
            let ghost pre = tview(self.by_year_month@);
            let ghost rem = tview(add@).subrange(i as int, n as int);
            proof {
                assert(rem[0] == tview(add@)[i as int]);
                assert(rem[0] == add@[i as int]@);
                assert(rem.drop_first() =~= tview(add@).subrange(i + 1, n as int));
            }
            let photos = clone_photo_vec(&add[i].photos);
            bucket_append(&mut self.by_year_month, add[i].year, add[i].month, photos);
            proof {
                assert(merge_temporal_model(pre, rem) == merge_temporal_model(
                    tview(self.by_year_month@),
                    rem.drop_first(),
                ));
            }
            i = i + 1;
        }
        proof {
            assert(tview(add@).subrange(n as int, n as int) =~= Seq::<TemporalEntryV>::empty());
        }
    }

    /// Builds the merged cache from the per-archive bundles, in the order
    /// given: identities from the listings, the metadata index from the
    /// decoded metadata files, the temporal index by bucket-wise
    /// concatenation of the temporal files.
    pub fn build(image_dir: String, archives: &Vec<ArchiveCacheData>) -> (r: PhotoCache)
        ensures
            r.model() == build_model(aview(archives@)),
            r.image_dir@ == image_dir@,
    {
        let mut cache = PhotoCache::empty(image_dir);
        let n = archives.len();
        let mut i: usize = 0;
        proof {
            assert(aview(archives@).subrange(0, n as int) =~= aview(archives@));
        }
        while i < n
            invariant
                i <= n,
                n == archives@.len(),
                build_model(aview(archives@)) == build_from(
                    cache.model(),
                    aview(archives@).subrange(i as int, n as int),
                ),
                cache.image_dir@ == image_dir@,
            decreases n - i,
        {
            let ghost pre = cache.model();
            let ghost rem = aview(archives@).subrange(i as int, n as int);
            proof {
                assert(rem[0] == aview(archives@)[i as int]);
                assert(rem[0] == archives@[i as int]@);
                assert(rem.drop_first() =~= aview(archives@).subrange(i + 1, n as int));
            }
            let a = &archives[i];
            cache.add_archive_images(&a.zip_file_name, &a.entries);
            let decoded = decode_exif_file(&a.exif_entries);
            cache.merge_exif(decoded);
            cache.merge_temporal(&a.temporal_entries);
            proof {
                assert(cache.model().images == build_step(pre, rem[0]).images);
                assert(cache.model().exif == build_step(pre, rem[0]).exif);
                assert(cache.model().temporal == build_step(pre, rem[0]).temporal);
                assert(cache.model() == build_step(pre, rem[0]));
                assert(build_from(pre, rem) == build_from(cache.model(), rem.drop_first()));
            }
            i = i + 1;
        }
        proof {
            assert(aview(archives@).subrange(n as int, n as int) =~= Seq::<
                ArchiveCacheDataV,
            >::empty());
        }
        cache
    }
}

/// Decodes a parsed metadata cache file into index entries; entries whose
/// key does not parse are dropped, as the build has always done.
pub fn decode_exif_file(entries: &Vec<(String, ExifInfo)>) -> (r: Vec<(PhotoInfo, ExifInfo)>)
    ensures
        eview(r@) == decode_exif_model(kview(entries@)),
{
    let n = entries.len();
    let mut r: Vec<(PhotoInfo, ExifInfo)> = Vec::new();
    let mut i: usize = 0;
    proof {
        assert(kview(entries@).subrange(0, 0) =~= Seq::<(Seq<char>, ExifInfoV)>::empty());
        assert(eview(r@) =~= decode_exif_model(kview(entries@).subrange(0, 0)));
    }
    while i < n
        invariant
            i <= n,
            n == entries@.len(),
            eview(r@) == decode_exif_model(kview(entries@).subrange(0, i as int)),
        decreases n - i,
    {
        let ghost prefix = kview(entries@).subrange(0, i as int);
        let ghost step = kview(entries@).subrange(0, i + 1);
        proof {
            assert(step.drop_last() =~= prefix);
            assert(step.last() == kview(entries@)[i as int]);
            assert(step.last() == (entries@[i as int].0@, entries@[i as int].1@));
        }
        let ghost pre = eview(r@);
        let key = entries[i].0.clone();
        match PhotoInfo::deserialize_from_key(key) {
            Ok(p) => {
                let e = entries[i].1.clone();
                let ghost pv = p@;
                let ghost ev = e@;
                r.push((p, e));
                proof {
                    assert(eview(r@) =~= pre + seq![(pv, ev)]);
                }
            },
            Err(_) => {
                proof {
                    assert(eview(r@) =~= pre + Seq::<(PhotoInfoV, ExifInfoV)>::empty());
                }
            },
        }
        i = i + 1;
    }
    proof {
        assert(kview(entries@).subrange(0, n as int) =~= kview(entries@));
    }
    r
}

/// Groups a per-archive metadata index by (year, month), in index order.
pub fn group_temporal(entries: &Vec<(PhotoInfo, ExifInfo)>) -> (r: Vec<TemporalEntry>)
    ensures
        tview(r@) == group_temporal_model(eview(entries@)),
{
    let n = entries.len();
    let mut r: Vec<TemporalEntry> = Vec::new();
    let mut i: usize = 0;
    proof {
        assert(tview(r@) =~= group_temporal_model(eview(entries@).subrange(0, 0)));
    }
    while i < n
        invariant
            i <= n,
            n == entries@.len(),
            tview(r@) == group_temporal_model(eview(entries@).subrange(0, i as int)),
        decreases n - i,
    {
        let ghost prefix = eview(entries@).subrange(0, i as int);
        let ghost step = eview(entries@).subrange(0, i + 1);
        proof {
            assert(step.drop_last() =~= prefix);
            assert(step.last() == eview(entries@)[i as int]);
            assert(step.last() == (entries@[i as int].0@, entries@[i as int].1@));
        }
        let p = entries[i].0.clone();
        let ghost pv = p@;
        let mut ps: Vec<PhotoInfo> = Vec::new();
        ps.push(p);
        proof {
            assert(pview(ps@) =~= seq![pv]);
        }
        bucket_append(&mut r, entries[i].1.year, entries[i].1.month, ps);
        i = i + 1;
    }
    proof {
        assert(eview(entries@).subrange(0, n as int) =~= eview(entries@));
    }
    r
}

/// What serializing a per-archive metadata index for persistence yields:
/// each identity joined into its composite key.
pub open spec fn encode_exif_model(s: Seq<(PhotoInfoV, ExifInfoV)>) -> Seq<(Seq<char>, ExifInfoV)> {
    s.map_values(|pe: (PhotoInfoV, ExifInfoV)| (key_of(pe.0), pe.1))
}

/// Serializes a per-archive metadata index for persistence.
pub fn encode_exif_entries(entries: &Vec<(PhotoInfo, ExifInfo)>) -> (r: Vec<(String, ExifInfo)>)
    ensures
        kview(r@) == encode_exif_model(eview(entries@)),
{
    let n = entries.len();
    let mut r: Vec<(String, ExifInfo)> = Vec::new();
    let mut i: usize = 0;
    while i < n
        invariant
            i <= n,
            n == entries@.len(),
            r@.len() == i,
            forall|j: int|
                0 <= j < i ==> r@[j].0@ == key_of(entries@[j].0@) && r@[j].1@ == entries@[j].1@,
        decreases n - i,
    {
        let key = entries[i].0.serialize_as_key();
        let e = entries[i].1.clone();
        r.push((key, e));
        i = i + 1;
    }
    proof {
        assert forall|j: int| 0 <= j < kview(r@).len() implies kview(r@)[j] == encode_exif_model(
            eview(entries@),
        )[j] by {
            assert(kview(r@)[j] == (r@[j].0@, r@[j].1@));
            assert(eview(entries@)[j] == (entries@[j].0@, entries@[j].1@));
        }
        assert(kview(r@) =~= encode_exif_model(eview(entries@)));
    }
    r
}

// ------------------------------------------------------------------
// Pagination: one contract shared by every query.
// ------------------------------------------------------------------

/// Where a page begins: the offset, clamped to the total.
pub open spec fn page_start(total: int, offset: int) -> int {
    if offset <= total {
        offset
    } else {
        total
    }
}

/// How long a page is: the limit, clamped to what is left.
pub open spec fn page_len(total: int, offset: int, limit: int) -> int {
    if limit <= total - page_start(total, offset) {
        limit
    } else {
        total - page_start(total, offset)
    }
}

/// The page a query returns: the slice of the full result sequence at the
/// clamped offset, of the clamped length.
pub open spec fn page_of<T>(s: Seq<T>, offset: int, limit: int) -> Seq<T> {
    s.subrange(
        page_start(s.len() as int, offset),
        page_start(s.len() as int, offset) + page_len(s.len() as int, offset, limit),
    )
}

/// What is left of the results from an offset on.
pub open spec fn tail_of<T>(s: Seq<T>, offset: int) -> Seq<T> {
    s.subrange(page_start(s.len() as int, offset), s.len() as int)
}

/// A page's length is `min(limit, max(0, total - offset))`.
pub proof fn lemma_page_len<T>(s: Seq<T>, offset: int, limit: int)
    requires
        0 <= offset,
        0 <= limit,
    ensures
        page_of(s, offset, limit).len() == vstd::math::min(
            limit,
            vstd::math::max(0, s.len() - offset),
        ),
{
}

/// Pages chain without gap or overlap: the page at an offset, followed by
/// the tail from the offset stepped by that page's length, is the tail
/// from the offset itself; the tail at offset zero is the whole result
/// sequence, so the pages taken in offset order reconstruct it.
pub proof fn lemma_pages_chain<T>(s: Seq<T>, offset: int, limit: int)
    requires
        0 <= offset,
        0 <= limit,
    ensures
        tail_of(s, offset) == page_of(s, offset, limit) + tail_of(
            s,
            offset + page_of(s, offset, limit).len(),
        ),
        tail_of(s, 0) == s,
{
    assert(tail_of(s, offset) =~= page_of(s, offset, limit) + tail_of(
        s,
        offset + page_of(s, offset, limit).len(),
    ));
    assert(tail_of(s, 0) =~= s);
}

/// Copies the page of a photo list.
fn slice_photos(v: &Vec<PhotoInfo>, offset: usize, limit: usize) -> (r: Vec<PhotoInfo>)
    ensures
        pview(r@) == page_of(pview(v@), offset as int, limit as int),
{
    let total = v.len();
    let start = if offset <= total {
        offset
    } else {
        total
    };
    let take = if limit <= total - start {
        limit
    } else {
        total - start
    };
    let mut r: Vec<PhotoInfo> = Vec::new();
    let mut i: usize = 0;
    while i < take
        invariant
            i <= take,
            start + take <= total,
            total == v@.len(),
            r@.len() == i,
            forall|j: int| 0 <= j < i ==> r@[j]@ == v@[start + j]@,
        decreases take - i,
    {
        r.push(v[start + i].clone());
        i = i + 1;
    }
    proof {
        assert forall|j: int| 0 <= j < pview(r@).len() implies pview(r@)[j] == page_of(
            pview(v@),
            offset as int,
            limit as int,
        )[j] by {
            assert(pview(r@)[j] == r@[j]@);
            assert(page_of(pview(v@), offset as int, limit as int)[j] == pview(v@)[start + j]);
        }
        assert(pview(r@) =~= page_of(pview(v@), offset as int, limit as int));
    }
    r
}

/// Copies the page of a result list.
fn slice_results(v: &Vec<ExifResult>, offset: usize, limit: usize) -> (r: Vec<ExifResult>)
    ensures
        rview(r@) == page_of(rview(v@), offset as int, limit as int),
{
    let total = v.len();
    let start = if offset <= total {
        offset
    } else {
        total
    };
    let take = if limit <= total - start {
        limit
    } else {
        total - start
    };
    let mut r: Vec<ExifResult> = Vec::new();
    let mut i: usize = 0;
    while i < take
        invariant
            i <= take,
            start + take <= total,
            total == v@.len(),
            r@.len() == i,
            forall|j: int| 0 <= j < i ==> r@[j]@ == v@[start + j]@,
        decreases take - i,
    {
        r.push(v[start + i].clone());
        i = i + 1;
    }
    proof {
        assert forall|j: int| 0 <= j < rview(r@).len() implies rview(r@)[j] == page_of(
            rview(v@),
            offset as int,
            limit as int,
        )[j] by {
            assert(rview(r@)[j] == r@[j]@);
            assert(page_of(rview(v@), offset as int, limit as int)[j] == rview(v@)[start + j]);
        }
        assert(rview(r@) =~= page_of(rview(v@), offset as int, limit as int));
    }
    r
}

/// The views of a result list.
pub open spec fn rview(s: Seq<ExifResult>) -> Seq<ExifResultV> {
    s.map_values(|x: ExifResult| x@)
}

// ------------------------------------------------------------------
// Queries.
// ------------------------------------------------------------------

/// Does a photo match a name query: its entry name contains the query,
/// case-insensitively, and, when an archive filter is given, its archive
/// name contains the filter.
pub open spec fn name_matches(p: PhotoInfoV, q: Seq<char>, zq: Option<Seq<char>>) -> bool {
    seq_has(lower_of(p.photo_file_name), lower_of(q)) && match zq {
        Some(z) => seq_has(lower_of(p.zip_file_name), lower_of(z)),
        None => true,
    }
}

/// The photos matching a name query, in cache order.
pub open spec fn filter_by_name(
    s: Seq<PhotoInfoV>,
    q: Seq<char>,
    zq: Option<Seq<char>>,
) -> Seq<PhotoInfoV>
    decreases s.len(),
{
    if s.len() == 0 {
        Seq::empty()
    } else {
        filter_by_name(s.drop_last(), q, zq) + if name_matches(s.last(), q, zq) {
            seq![s.last()]
        } else {
            Seq::empty()
        }
    }
}

/// The view of an optional archive filter.
pub open spec fn opt_view(o: Option<String>) -> Option<Seq<char>> {
    match o {
        Some(s) => Some(s@),
        None => None,
    }
}

/// The results matching a metadata predicate, in index order; a record
/// whose evaluation errs simply does not match.
pub open spec fn query_hits(
    s: Seq<(PhotoInfoV, ExifInfoV)>,
    tag: Seq<char>,
    value: Seq<char>,
    op: Seq<char>,
) -> Seq<ExifResultV>
    decreases s.len(),
{
    if s.len() == 0 {
        Seq::empty()
    } else {
        query_hits(s.drop_last(), tag, value, op) + if eval_query(s.last().1, tag, value, op)
            == Some(true) {
            seq![ExifResultV { file: s.last().0, exif: s.last().1 }]
        } else {
            Seq::empty()
        }
    }
}

/// The records found for a list of identities, in the list's order;
/// identities without a record are skipped.
pub open spec fn exif_results_for(
    m: Seq<(PhotoInfoV, ExifInfoV)>,
    refs: Seq<PhotoInfoV>,
) -> Seq<ExifResultV>
    decreases refs.len(),
{
    if refs.len() == 0 {
        Seq::empty()
    } else {
        exif_results_for(m, refs.drop_last()) + match exif_lookup(m, refs.last()) {
            Some(e) => seq![ExifResultV { file: refs.last(), exif: e }],
            None => Seq::empty(),
        }
    }
}

impl PhotoCache {
    /// Lists all photos: one page of them, and the total count.
    pub fn list_all_images(&self, offset: usize, limit: usize) -> (r: (Vec<PhotoInfo>, usize))
        ensures
            r.1 == self.images@.len(),
            pview(r.0@) == page_of(pview(self.images@), offset as int, limit as int),
    {
        let total = self.images.len();
        (slice_photos(&self.images, offset, limit), total)
    }

    /// Searches photos by partial entry name, case-insensitively, with an
    /// optional archive filter: one page of the matches, and how many
    /// match in all.
    pub fn search_image_by_name(
        &self,
        file_name: &String,
        zip_file_name: &Option<String>,
        offset: usize,
        limit: usize,
    ) -> (r: (Vec<PhotoInfo>, usize))
        ensures
            ({
                let hits = filter_by_name(
                    pview(self.images@),
                    file_name@,
                    opt_view(*zip_file_name),
                );
                r.1 == hits.len() && pview(r.0@) == page_of(hits, offset as int, limit as int)
            }),
    {
        let q = crate::text::str_chars(lowercase(file_name.as_str()).as_str());
        let zq: Option<Vec<char>> = match zip_file_name {
            Some(z) => Some(crate::text::str_chars(lowercase(z.as_str()).as_str())),
            None => None,
        };
        let n = self.images.len();
        let mut found: Vec<PhotoInfo> = Vec::new();
        let mut i: usize = 0;
        proof {
            assert(pview(found@) =~= filter_by_name(
                pview(self.images@).subrange(0, 0),
                file_name@,
                opt_view(*zip_file_name),
            ));
        }
        while i < n
            invariant
                i <= n,
                n == self.images@.len(),
                q@ == lower_of(file_name@),
                match zip_file_name {
                    Some(z) => zq matches Some(zv) && zv@ == lower_of(z@),
                    None => zq is None,
                },
                pview(found@) == filter_by_name(
                    pview(self.images@).subrange(0, i as int),
                    file_name@,
                    opt_view(*zip_file_name),
                ),
            decreases n - i,
        {
            let ghost prefix = pview(self.images@).subrange(0, i as int);
            let ghost step = pview(self.images@).subrange(0, i + 1);
            proof {
                assert(step.drop_last() =~= prefix);
                assert(step.last() == pview(self.images@)[i as int]);
                assert(step.last() == self.images@[i as int]@);
            }
            let name_low = crate::text::str_chars(
                lowercase(self.images[i].photo_file_name.as_str()).as_str(),
            );
            let file_condition = crate::text::chars_contain(&name_low, &q);
            let matched: bool = match &zq {
                Some(zv) => {
                    if file_condition {
                        let zip_low = crate::text::str_chars(
                            lowercase(self.images[i].zip_file_name.as_str()).as_str(),
                        );
                        crate::text::chars_contain(&zip_low, zv)
                    } else {
                        false
                    }
                },
                None => file_condition,
            };
            proof {
                assert(matched == name_matches(
                    self.images@[i as int]@,
                    file_name@,
                    opt_view(*zip_file_name),
                ));
            }
            let ghost pre = pview(found@);
            if matched {
                found.push(self.images[i].clone());
                proof {
                    assert(pview(found@) =~= pre + seq![self.images@[i as int]@]);
                }
            } else {
                proof {
                    assert(pview(found@) =~= pre + Seq::<PhotoInfoV>::empty());
                }
            }
            i = i + 1;
        }
        proof {
            assert(pview(self.images@).subrange(0, n as int) =~= pview(self.images@));
        }
        let total = found.len();
        proof {
            assert(pview(found@).len() == found@.len());
        }
        (slice_photos(&found, offset, limit), total)
    }

    /// Searches photos by capture year and month: one page of the bucket,
    /// and the bucket's full size.
    pub fn search_image_by_year_month(&self, year: u32, month: u32, offset: usize, limit: usize)
        -> (r: (Vec<PhotoInfo>, usize))
        ensures
            ({
                let bucket = bucket_photos(tview(self.by_year_month@), year, month);
                r.1 == bucket.len() && pview(r.0@) == page_of(bucket, offset as int, limit as int)
            }),
    {
        let idx = find_bucket(&self.by_year_month, year, month);
        if idx < self.by_year_month.len() {
            let bucket = &self.by_year_month[idx].photos;
            proof {
                assert(tview(self.by_year_month@)[idx as int] == self.by_year_month@[idx as int]@);
            }
            let total = bucket.len();
            proof {
                assert(pview(bucket@).len() == bucket@.len());
            }
            (slice_photos(bucket, offset, limit), total)
        } else {
            proof {
                let bucket = bucket_photos(tview(self.by_year_month@), year, month);
                assert(bucket =~= Seq::<PhotoInfoV>::empty());
                assert(page_of(bucket, offset as int, limit as int) =~= Seq::<PhotoInfoV>::empty());
                assert(pview(Seq::<PhotoInfo>::empty()) =~= Seq::<PhotoInfoV>::empty());
            }
            (Vec::new(), 0)
        }
    }

    /// Searches the metadata index by a typed tag predicate: one page of
    /// the matches with their records, and how many match in all. An
    /// unknown tag, an operator foreign to the tag's type, or an
    /// unparsable comparison literal fails the query itself; a record
    /// whose own stored text does not parse simply does not match.
    pub fn search_image_by_exif_tags(
        &self,
        tag_name: &String,
        tag_value: &String,
        operator: &String,
        offset: usize,
        limit: usize,
    ) -> (r: Result<(Vec<ExifResult>, usize), PhotoInsightError>)
        ensures
            r is Ok <==> crate::exif_data::query_valid(tag_name@, tag_value@, operator@),
            r matches Ok(page) ==> ({
                let hits = query_hits(eview(self.exif_cache@), tag_name@, tag_value@, operator@);
                page.1 == hits.len() && rview(page.0@) == page_of(
                    hits,
                    offset as int,
                    limit as int,
                )
            }),
    {
        crate::exif_data::validate_query(tag_name, tag_value, operator)?;
        let n = self.exif_cache.len();
        let mut found: Vec<ExifResult> = Vec::new();
        let mut i: usize = 0;
        proof {
            assert(rview(found@) =~= query_hits(
                eview(self.exif_cache@).subrange(0, 0),
                tag_name@,
                tag_value@,
                operator@,
            ));
        }
        while i < n
            invariant
                i <= n,
                n == self.exif_cache@.len(),
                rview(found@) == query_hits(
                    eview(self.exif_cache@).subrange(0, i as int),
                    tag_name@,
                    tag_value@,
                    operator@,
                ),
            decreases n - i,
        {
            let ghost prefix = eview(self.exif_cache@).subrange(0, i as int);
            let ghost step = eview(self.exif_cache@).subrange(0, i + 1);
            proof {
                assert(step.drop_last() =~= prefix);
                assert(step.last() == eview(self.exif_cache@)[i as int]);
                assert(step.last() == (
                    self.exif_cache@[i as int].0@,
                    self.exif_cache@[i as int].1@,
                ));
            }
            let matched: bool = match self.exif_cache[i].1.matches_query(
                tag_name,
                tag_value,
                operator,
            ) {
                Ok(b) => b,
                Err(_) => false,
            };
            let ghost pre = rview(found@);
            if matched {
                let p = self.exif_cache[i].0.clone();
                let e = self.exif_cache[i].1.clone();
                found.push(ExifResult::new(p, e));
                proof {
                    assert(rview(found@) =~= pre + seq![
                        ExifResultV {
                            file: self.exif_cache@[i as int].0@,
                            exif: self.exif_cache@[i as int].1@,
                        },
                    ]);
                }
            } else {
                proof {
                    assert(rview(found@) =~= pre + Seq::<ExifResultV>::empty());
                }
            }
            i = i + 1;
        }
        proof {
            assert(eview(self.exif_cache@).subrange(0, n as int) =~= eview(self.exif_cache@));
        }
        let total = found.len();
        proof {
            assert(rview(found@).len() == found@.len());
        }
        Ok((slice_results(&found, offset, limit), total))
    }

    /// Looks up the records of the given identities, in the given order;
    /// identities without a record are skipped.
    pub fn exif_info(&self, image_infos: &Vec<PhotoInfo>) -> (r: Result<
        Vec<ExifResult>,
        PhotoInsightError,
    >)
        ensures
            r is Ok,
            rview(r.unwrap()@) == exif_results_for(
                eview(self.exif_cache@),
                pview(image_infos@),
            ),
    {
        let n = image_infos.len();
        let mut out: Vec<ExifResult> = Vec::new();
        let mut i: usize = 0;
        proof {
            assert(rview(out@) =~= exif_results_for(
                eview(self.exif_cache@),
                pview(image_infos@).subrange(0, 0),
            ));
        }
        while i < n
            invariant
                i <= n,
                n == image_infos@.len(),
                rview(out@) == exif_results_for(
                    eview(self.exif_cache@),
                    pview(image_infos@).subrange(0, i as int),
                ),
            decreases n - i,
        {
            let ghost prefix = pview(image_infos@).subrange(0, i as int);
            let ghost step = pview(image_infos@).subrange(0, i + 1);
            proof {
                assert(step.drop_last() =~= prefix);
                assert(step.last() == pview(image_infos@)[i as int]);
                assert(step.last() == image_infos@[i as int]@);
            }
            let idx = find_exif_index(&self.exif_cache, &image_infos[i]);
            let ghost pre = rview(out@);
            if idx < self.exif_cache.len() {
                let p = image_infos[i].clone();
                let e = self.exif_cache[idx].1.clone();
                out.push(ExifResult::new(p, e));
                proof {
                    assert(rview(out@) =~= pre + seq![
                        ExifResultV {
                            file: image_infos@[i as int]@,
                            exif: self.exif_cache@[idx as int].1@,
                        },
                    ]);
                    assert(eview(self.exif_cache@)[idx as int].1 == self.exif_cache@[
                        idx as int
                    ].1@);
                }
            } else {
                proof {
                    assert(rview(out@) =~= pre + Seq::<ExifResultV>::empty());
                }
            }
            i = i + 1;
        }
        proof {
            assert(pview(image_infos@).subrange(0, n as int) =~= pview(image_infos@));
        }
        Ok(out)
    }
}

// ------------------------------------------------------------------
// The partition law: the temporal index groups exactly the metadata
// index.
// ------------------------------------------------------------------

/// The photo lies in the (year, month) bucket of the temporal index.
pub open spec fn in_bucket(t: Seq<TemporalEntryV>, y: u32, mo: u32, p: PhotoInfoV) -> bool {
    exists|i: int|
        0 <= i < t.len() && t[i].year == y && t[i].month == mo && t[i].photos.contains(p)
}

/// The photo has a record with this (year, month) in the metadata index.
pub open spec fn has_record(m: Seq<(PhotoInfoV, ExifInfoV)>, y: u32, mo: u32, p: PhotoInfoV) -> bool {
    exists|j: int| 0 <= j < m.len() && m[j].0 == p && m[j].1.year == y && m[j].1.month == mo
}

/// The temporal index holds exactly the grouping of the metadata index.
pub open spec fn temporal_matches_exif(
    m: Seq<(PhotoInfoV, ExifInfoV)>,
    t: Seq<TemporalEntryV>,
) -> bool {
    forall|y: u32, mo: u32, p: PhotoInfoV| in_bucket(t, y, mo, p) <==> has_record(m, y, mo, p)
}

/// No two entries of the metadata index share a key.
pub open spec fn unique_exif_keys(m: Seq<(PhotoInfoV, ExifInfoV)>) -> bool {
    forall|i: int, j: int| 0 <= i < j < m.len() ==> m[i].0 != m[j].0
}

/// Membership in a concatenation splits over the parts.
proof fn lemma_concat_contains<A>(a: Seq<A>, b: Seq<A>, x: A)
    ensures
        (a + b).contains(x) <==> (a.contains(x) || b.contains(x)),
{
    if (a + b).contains(x) {
        let i = choose|i: int| 0 <= i < (a + b).len() && (a + b)[i] == x;
        if i < a.len() {
            assert(a[i] == x);
        } else {
            assert(b[i - a.len()] == x);
        }
    }
    if a.contains(x) {
        let i = choose|i: int| 0 <= i < a.len() && a[i] == x;
        assert((a + b)[i] == x);
    }
    if b.contains(x) {
        let i = choose|i: int| 0 <= i < b.len() && b[i] == x;
        assert((a + b)[a.len() + i] == x);
    }
}

/// Where `bucket_at` points, and what lies before it.
proof fn lemma_bucket_at_props(t: Seq<TemporalEntryV>, y: u32, mo: u32)
    ensures
        0 <= bucket_at(t, y, mo) <= t.len(),
        bucket_at(t, y, mo) < t.len() ==> t[bucket_at(t, y, mo)].year == y && t[bucket_at(
            t,
            y,
            mo,
        )].month == mo,
        forall|j: int|
            0 <= j < bucket_at(t, y, mo) ==> !((#[trigger] t[j]).year == y && t[j].month == mo),
    decreases t.len(),
{
    if t.len() > 0 && !(t[0].year == y && t[0].month == mo) {
        lemma_bucket_at_props(t.drop_first(), y, mo);
        assert forall|j: int|
            0 <= j < bucket_at(t, y, mo) implies !((#[trigger] t[j]).year == y && t[j].month
            == mo) by {
            if j > 0 {
                assert(t.drop_first()[j - 1] == t[j]);
            }
        }
    }
}

/// No two buckets of the temporal index share a (year, month) key.
pub open spec fn unique_buckets(t: Seq<TemporalEntryV>) -> bool {
    forall|i: int, j: int|
        0 <= i < j < t.len() ==> !(t[i].year == t[j].year && t[i].month == t[j].month)
}

/// Appending to a bucket keeps bucket keys unique.
proof fn lemma_bucket_put_unique(t: Seq<TemporalEntryV>, y: u32, mo: u32, ps: Seq<PhotoInfoV>)
    requires
        unique_buckets(t),
    ensures
        unique_buckets(bucket_put(t, y, mo, ps)),
{
    lemma_bucket_at_props(t, y, mo);
    let at = bucket_at(t, y, mo);
    let t2 = bucket_put(t, y, mo, ps);
    if at < t.len() {
        assert forall|i: int, j: int| 0 <= i < j < t2.len() implies !(t2[i].year == t2[j].year
            && t2[i].month == t2[j].month) by {
            assert(t2[i].year == t[i].year && t2[i].month == t[i].month);
            assert(t2[j].year == t[j].year && t2[j].month == t[j].month);
        }
    } else {
        assert forall|i: int, j: int| 0 <= i < j < t2.len() implies !(t2[i].year == t2[j].year
            && t2[i].month == t2[j].month) by {
            if j < t.len() {
            } else {
                assert(t2[j].year == y && t2[j].month == mo);
                assert(t2[i] == t[i]);
            }
        }
    }
}

/// Merging keeps bucket keys unique.
proof fn lemma_merge_temporal_unique(t: Seq<TemporalEntryV>, add: Seq<TemporalEntryV>)
    requires
        unique_buckets(t),
    ensures
        unique_buckets(merge_temporal_model(t, add)),
    decreases add.len(),
{
    if add.len() > 0 {
        lemma_bucket_put_unique(t, add[0].year, add[0].month, add[0].photos);
        lemma_merge_temporal_unique(
            bucket_put(t, add[0].year, add[0].month, add[0].photos),
            add.drop_first(),
        );
    }
}

/// Where `exif_key_at` points, and what lies before it.
proof fn lemma_exif_key_at_props(m: Seq<(PhotoInfoV, ExifInfoV)>, k: PhotoInfoV)
    ensures
        0 <= exif_key_at(m, k) <= m.len(),
        exif_key_at(m, k) < m.len() ==> m[exif_key_at(m, k)].0 == k,
        forall|j: int| 0 <= j < exif_key_at(m, k) ==> (#[trigger] m[j]).0 != k,
    decreases m.len(),
{
    if m.len() > 0 && m[0].0 != k {
        lemma_exif_key_at_props(m.drop_first(), k);
        assert forall|j: int| 0 <= j < exif_key_at(m, k) implies (#[trigger] m[j]).0 != k by {
            if j > 0 {
                assert(m.drop_first()[j - 1] == m[j]);
            }
        }
    }
}

/// Inserting a record keeps index keys unique.
proof fn lemma_exif_put_unique(m: Seq<(PhotoInfoV, ExifInfoV)>, k: PhotoInfoV, v: ExifInfoV)
    requires
        unique_exif_keys(m),
    ensures
        unique_exif_keys(exif_put(m, k, v)),
{
    lemma_exif_key_at_props(m, k);
    let at = exif_key_at(m, k);
    let m2 = exif_put(m, k, v);
    if at < m.len() {
        assert forall|i: int, j: int| 0 <= i < j < m2.len() implies m2[i].0 != m2[j].0 by {
            if i == at {
                assert(m2[i].0 == k && m2[j] == m[j]);
                assert(m[at].0 == k);
            } else if j == at {
                assert(m2[j].0 == k && m2[i] == m[i]);
                assert(m[at].0 == k);
            } else {
                assert(m2[i] == m[i] && m2[j] == m[j]);
            }
        }
    } else {
        assert forall|i: int, j: int| 0 <= i < j < m2.len() implies m2[i].0 != m2[j].0 by {
            if j < m.len() {
            } else {
                assert(m2[j].0 == k);
                assert(m2[i] == m[i]);
            }
        }
    }
}

/// Merging keeps index keys unique.
proof fn lemma_merge_exif_unique(m: Seq<(PhotoInfoV, ExifInfoV)>, add: Seq<(PhotoInfoV, ExifInfoV)>)
    requires
        unique_exif_keys(m),
    ensures
        unique_exif_keys(merge_exif_model(m, add)),
    decreases add.len(),
{
    if add.len() > 0 {
        lemma_exif_put_unique(m, add[0].0, add[0].1);
        lemma_merge_exif_unique(exif_put(m, add[0].0, add[0].1), add.drop_first());
    }
}

/// A built cache is well formed, whatever the inputs: the metadata index
/// keys one record per photo, and the temporal index holds one bucket per
/// (year, month).
pub proof fn lemma_build_well_formed(archives: Seq<ArchiveCacheDataV>)
    ensures
        unique_exif_keys(build_model(archives).exif),
        unique_buckets(build_model(archives).temporal),
{
    lemma_build_from_well_formed(empty_model(), archives);
}

proof fn lemma_build_from_well_formed(state: CacheModel, archives: Seq<ArchiveCacheDataV>)
    requires
        unique_exif_keys(state.exif),
        unique_buckets(state.temporal),
    ensures
        unique_exif_keys(build_from(state, archives).exif),
        unique_buckets(build_from(state, archives).temporal),
    decreases archives.len(),
{
    if archives.len() > 0 {
        let a = archives[0];
        lemma_merge_exif_unique(state.exif, decode_exif_model(a.exif_entries));
        lemma_merge_temporal_unique(state.temporal, a.temporal_entries);
        lemma_build_from_well_formed(build_step(state, a), archives.drop_first());
    }
}

/// What appending photos to a bucket does to membership.
proof fn lemma_bucket_put_membership(
    t: Seq<TemporalEntryV>,
    y0: u32,
    m0: u32,
    ps: Seq<PhotoInfoV>,
    y: u32,
    mo: u32,
    p: PhotoInfoV,
)
    ensures
        in_bucket(bucket_put(t, y0, m0, ps), y, mo, p) <==> (in_bucket(t, y, mo, p) || (y == y0
            && mo == m0 && ps.contains(p))),
{
    lemma_bucket_at_props(t, y0, m0);
    let at = bucket_at(t, y0, m0);
    let t2 = bucket_put(t, y0, m0, ps);
    if at < t.len() {
        lemma_concat_contains(t[at].photos, ps, p);
        if in_bucket(t2, y, mo, p) {
            let i = choose|i: int|
                0 <= i < t2.len() && t2[i].year == y && t2[i].month == mo && t2[i].photos.contains(
                    p,
                );
            if i == at {
                assert(t2[i].photos == t[at].photos + ps);
                if t[at].photos.contains(p) {
                    assert(in_bucket(t, y, mo, p));
                } else {
                    assert(ps.contains(p));
                }
            } else {
                assert(t2[i] == t[i]);
                assert(in_bucket(t, y, mo, p));
            }
        }
        if in_bucket(t, y, mo, p) {
            let i = choose|i: int|
                0 <= i < t.len() && t[i].year == y && t[i].month == mo && t[i].photos.contains(p);
            if i == at {
                assert(t2[at].photos.contains(p));
                assert(in_bucket(t2, y, mo, p));
            } else {
                assert(t2[i] == t[i]);
                assert(in_bucket(t2, y, mo, p));
            }
        }
        if y == y0 && mo == m0 && ps.contains(p) {
            assert(t2[at].photos.contains(p));
            assert(in_bucket(t2, y, mo, p));
        }
    } else {
        if in_bucket(t2, y, mo, p) {
            let i = choose|i: int|
                0 <= i < t2.len() && t2[i].year == y && t2[i].month == mo && t2[i].photos.contains(
                    p,
                );
            if i < t.len() {
                assert(t2[i] == t[i]);
                assert(in_bucket(t, y, mo, p));
            } else {
                assert(t2[i] == TemporalEntryV { year: y0, month: m0, photos: ps });
            }
        }
        if in_bucket(t, y, mo, p) {
            let i = choose|i: int|
                0 <= i < t.len() && t[i].year == y && t[i].month == mo && t[i].photos.contains(p);
            assert(t2[i] == t[i]);
            assert(in_bucket(t2, y, mo, p));
        }
        if y == y0 && mo == m0 && ps.contains(p) {
            assert(t2[t.len() as int].photos.contains(p));
            assert(in_bucket(t2, y, mo, p));
        }
    }
}

/// Peeling the first batch off bucket membership.
proof fn lemma_in_bucket_unfold(add: Seq<TemporalEntryV>, y: u32, mo: u32, p: PhotoInfoV)
    requires
        add.len() > 0,
    ensures
        in_bucket(add, y, mo, p) <==> ((add[0].year == y && add[0].month == mo
            && add[0].photos.contains(p)) || in_bucket(add.drop_first(), y, mo, p)),
{
    let rest = add.drop_first();
    if in_bucket(add, y, mo, p) {
        let i = choose|i: int|
            0 <= i < add.len() && add[i].year == y && add[i].month == mo && add[i].photos.contains(
                p,
            );
        if i > 0 {
            assert(rest[i - 1] == add[i]);
            assert(in_bucket(rest, y, mo, p));
        }
    }
    if in_bucket(rest, y, mo, p) {
        let i = choose|i: int|
            0 <= i < rest.len() && rest[i].year == y && rest[i].month == mo
                && rest[i].photos.contains(p);
        assert(add[i + 1] == rest[i]);
        assert(in_bucket(add, y, mo, p));
    }
}

/// Merging batches of buckets unions their membership.
proof fn lemma_merge_temporal_membership(
    t: Seq<TemporalEntryV>,
    add: Seq<TemporalEntryV>,
    y: u32,
    mo: u32,
    p: PhotoInfoV,
)
    ensures
        in_bucket(merge_temporal_model(t, add), y, mo, p) <==> (in_bucket(t, y, mo, p)
            || in_bucket(add, y, mo, p)),
    decreases add.len(),
{
    if add.len() == 0 {
    } else {
        lemma_bucket_put_membership(t, add[0].year, add[0].month, add[0].photos, y, mo, p);
        lemma_merge_temporal_membership(
            bucket_put(t, add[0].year, add[0].month, add[0].photos),
            add.drop_first(),
            y,
            mo,
            p,
        );
        lemma_in_bucket_unfold(add, y, mo, p);
    }
}

/// Peeling the last record off record membership.
proof fn lemma_has_record_unfold(m: Seq<(PhotoInfoV, ExifInfoV)>, y: u32, mo: u32, p: PhotoInfoV)
    requires
        m.len() > 0,
    ensures
        has_record(m, y, mo, p) <==> ((m.last().0 == p && m.last().1.year == y && m.last().1.month
            == mo) || has_record(m.drop_last(), y, mo, p)),
{
    let rest = m.drop_last();
    if has_record(m, y, mo, p) {
        let j = choose|j: int|
            0 <= j < m.len() && m[j].0 == p && m[j].1.year == y && m[j].1.month == mo;
        if j < m.len() - 1 {
            assert(rest[j] == m[j]);
            assert(has_record(rest, y, mo, p));
        }
    }
    if has_record(rest, y, mo, p) {
        let j = choose|j: int|
            0 <= j < rest.len() && rest[j].0 == p && rest[j].1.year == y && rest[j].1.month == mo;
        assert(m[j] == rest[j]);
        assert(has_record(m, y, mo, p));
    }
}

/// Grouping a metadata index gives its buckets exactly its records.
proof fn lemma_group_membership(
    entries: Seq<(PhotoInfoV, ExifInfoV)>,
    y: u32,
    mo: u32,
    p: PhotoInfoV,
)
    ensures
        in_bucket(group_temporal_model(entries), y, mo, p) <==> has_record(entries, y, mo, p),
    decreases entries.len(),
{
    if entries.len() == 0 {
    } else {
        let e = entries.last();
        lemma_group_membership(entries.drop_last(), y, mo, p);
        lemma_bucket_put_membership(
            group_temporal_model(entries.drop_last()),
            e.1.year,
            e.1.month,
            seq![e.0],
            y,
            mo,
            p,
        );
        lemma_has_record_unfold(entries, y, mo, p);
        assert(seq![e.0].contains(p) <==> p == e.0) by {
            if seq![e.0].contains(p) {
                let i = choose|i: int| 0 <= i < 1 && seq![e.0][i] == p;
                assert(seq![e.0][0] == e.0);
            }
            if p == e.0 {
                assert(seq![e.0][0] == p);
            }
        }
    }
}

/// Record membership in a concatenation splits over the parts.
proof fn lemma_has_record_concat(
    a: Seq<(PhotoInfoV, ExifInfoV)>,
    b: Seq<(PhotoInfoV, ExifInfoV)>,
    y: u32,
    mo: u32,
    p: PhotoInfoV,
)
    ensures
        has_record(a + b, y, mo, p) <==> (has_record(a, y, mo, p) || has_record(b, y, mo, p)),
{
    if has_record(a + b, y, mo, p) {
        let j = choose|j: int|
            0 <= j < (a + b).len() && (a + b)[j].0 == p && (a + b)[j].1.year == y && (a
                + b)[j].1.month == mo;
        if j < a.len() {
            assert(a[j] == (a + b)[j]);
            assert(has_record(a, y, mo, p));
        } else {
            assert(b[j - a.len()] == (a + b)[j]);
            assert(has_record(b, y, mo, p));
        }
    }
    if has_record(a, y, mo, p) {
        let j = choose|j: int|
            0 <= j < a.len() && a[j].0 == p && a[j].1.year == y && a[j].1.month == mo;
        assert((a + b)[j] == a[j]);
        assert(has_record(a + b, y, mo, p));
    }
    if has_record(b, y, mo, p) {
        let j = choose|j: int|
            0 <= j < b.len() && b[j].0 == p && b[j].1.year == y && b[j].1.month == mo;
        assert((a + b)[a.len() + j] == b[j]);
        assert(has_record(a + b, y, mo, p));
    }
}

/// Key membership in a concatenation splits over the parts.
proof fn lemma_has_key_concat(
    a: Seq<(PhotoInfoV, ExifInfoV)>,
    b: Seq<(PhotoInfoV, ExifInfoV)>,
    p: PhotoInfoV,
)
    ensures
        has_exif_key(a + b, p) <==> (has_exif_key(a, p) || has_exif_key(b, p)),
{
    if has_exif_key(a + b, p) {
        let j = choose|j: int| 0 <= j < (a + b).len() && (a + b)[j].0 == p;
        if j < a.len() {
            assert(a[j] == (a + b)[j]);
        } else {
            assert(b[j - a.len()] == (a + b)[j]);
        }
    }
    if has_exif_key(a, p) {
        let j = choose|j: int| 0 <= j < a.len() && a[j].0 == p;
        assert((a + b)[j] == a[j]);
    }
    if has_exif_key(b, p) {
        let j = choose|j: int| 0 <= j < b.len() && b[j].0 == p;
        assert((a + b)[a.len() + j] == b[j]);
    }
}

/// Folding fresh, internally unique records is plain concatenation.
proof fn lemma_merge_exif_append(m: Seq<(PhotoInfoV, ExifInfoV)>, add: Seq<(PhotoInfoV, ExifInfoV)>)
    requires
        forall|j: int| 0 <= j < add.len() ==> !has_exif_key(m, #[trigger] add[j].0),
        unique_exif_keys(add),
    ensures
        merge_exif_model(m, add) == m + add,
    decreases add.len(),
{
    if add.len() == 0 {
        assert(m + add =~= m);
    } else {
        let k = add[0].0;
        let v = add[0].1;
        assert(!has_exif_key(m, k));
        assert(forall|j: int| 0 <= j < m.len() ==> m[j].0 != k);
        lemma_exif_key_at_is(m, k, m.len() as int);
        assert(exif_put(m, k, v) == m.push((k, v)));
        let m2 = m.push((k, v));
        let rest = add.drop_first();
        assert forall|j: int| 0 <= j < rest.len() implies !has_exif_key(m2, #[trigger] rest[j].0) by {
            assert(rest[j] == add[j + 1]);
            assert(!has_exif_key(m, add[j + 1].0));
            assert(add[j + 1].0 != k);
            if has_exif_key(m2, rest[j].0) {
                let q = choose|q: int| 0 <= q < m2.len() && m2[q].0 == rest[j].0;
                if q < m.len() {
                    assert(m[q].0 == rest[j].0);
                    assert(has_exif_key(m, add[j + 1].0));
                } else {
                    assert(m2[q].0 == k);
                }
            }
        }
        assert(unique_exif_keys(rest)) by {
            assert(forall|i: int, j: int|
                0 <= i < j < rest.len() ==> rest[i] == add[i + 1] && rest[j] == add[j + 1]);
        }
        lemma_merge_exif_append(m2, rest);
        assert((k, v) == add[0]);
        assert(merge_exif_model(m, add) == m2 + rest);
        assert(m2 + rest =~= m + add);
    }
}

/// Concatenating fresh, internally unique records keeps keys unique.
proof fn lemma_unique_concat(m: Seq<(PhotoInfoV, ExifInfoV)>, add: Seq<(PhotoInfoV, ExifInfoV)>)
    requires
        unique_exif_keys(m),
        unique_exif_keys(add),
        forall|j: int| 0 <= j < add.len() ==> !has_exif_key(m, #[trigger] add[j].0),
    ensures
        unique_exif_keys(m + add),
{
    assert forall|i: int, j: int| 0 <= i < j < (m + add).len() implies (m + add)[i].0 != (m
        + add)[j].0 by {
        if j < m.len() {
        } else if i < m.len() {
            assert((m + add)[j] == add[j - m.len()]);
            if (m + add)[i].0 == (m + add)[j].0 {
                assert(has_exif_key(m, add[j - m.len()].0));
            }
        } else {
            assert((m + add)[i] == add[i - m.len()]);
            assert((m + add)[j] == add[j - m.len()]);
        }
    }
}

/// What one archive's decoded metadata file holds.
pub open spec fn decoded(a: ArchiveCacheDataV) -> Seq<(PhotoInfoV, ExifInfoV)> {
    decode_exif_model(a.exif_entries)
}

/// A bundle is coherent when its temporal file holds exactly the grouping
/// of its metadata file — which the build's own write-then-read protocol
/// guarantees — and its keys are unique.
pub open spec fn archive_coherent(a: ArchiveCacheDataV) -> bool {
    a.temporal_entries == group_temporal_model(decoded(a)) && unique_exif_keys(decoded(a))
}

/// All bundles are coherent and no photo key occurs in two archives'
/// metadata files.
pub open spec fn archives_coherent(archives: Seq<ArchiveCacheDataV>) -> bool {
    (forall|i: int| 0 <= i < archives.len() ==> archive_coherent(#[trigger] archives[i]))
        && (forall|i: int, j: int, p: PhotoInfoV|
        0 <= i < j < archives.len() ==> !(#[trigger] has_exif_key(decoded(archives[i]), p)
            && #[trigger] has_exif_key(decoded(archives[j]), p)))
}

/// The build fold keeps the temporal index the exact grouping of the
/// metadata index, with unique keys.
proof fn lemma_build_invariant(state: CacheModel, archives: Seq<ArchiveCacheDataV>)
    requires
        temporal_matches_exif(state.exif, state.temporal),
        unique_exif_keys(state.exif),
        archives_coherent(archives),
        forall|j: int, p: PhotoInfoV|
            0 <= j < archives.len() ==> !(has_exif_key(state.exif, p) && #[trigger] has_exif_key(
                decoded(archives[j]),
                p,
            )),
    ensures
        temporal_matches_exif(build_from(state, archives).exif, build_from(state, archives).temporal),
        unique_exif_keys(build_from(state, archives).exif),
    decreases archives.len(),
{
    if archives.len() == 0 {
    } else {
        let a = archives[0];
        let d = decoded(a);
        assert(archive_coherent(a));
        assert forall|j: int| 0 <= j < d.len() implies !has_exif_key(state.exif, #[trigger] d[j].0) by {
            assert(has_exif_key(d, d[j].0));
            if has_exif_key(state.exif, d[j].0) {
                assert(has_exif_key(state.exif, d[j].0) && has_exif_key(decoded(archives[0]), d[j].0));
            }
        }
        lemma_merge_exif_append(state.exif, d);
        lemma_unique_concat(state.exif, d);
        let next = build_step(state, a);
        assert(next.exif == state.exif + d);
        assert forall|y: u32, mo: u32, p: PhotoInfoV|
            in_bucket(next.temporal, y, mo, p) <==> has_record(next.exif, y, mo, p) by {
            lemma_merge_temporal_membership(state.temporal, a.temporal_entries, y, mo, p);
            lemma_group_membership(d, y, mo, p);
            lemma_has_record_concat(state.exif, d, y, mo, p);
            assert(in_bucket(a.temporal_entries, y, mo, p) <==> in_bucket(
                group_temporal_model(d),
                y,
                mo,
                p,
            ));
        }
        let rest = archives.drop_first();
        assert(archives_coherent(rest)) by {
            assert forall|i: int| 0 <= i < rest.len() implies archive_coherent(#[trigger] rest[i]) by {
                assert(rest[i] == archives[i + 1]);
            }
            assert forall|i: int, j: int, p: PhotoInfoV|
                0 <= i < j < rest.len() implies !(#[trigger] has_exif_key(decoded(rest[i]), p)
                && #[trigger] has_exif_key(decoded(rest[j]), p)) by {
                assert(rest[i] == archives[i + 1]);
                assert(rest[j] == archives[j + 1]);
            }
        }
        assert forall|j: int, p: PhotoInfoV|
            0 <= j < rest.len() implies !(has_exif_key(next.exif, p) && #[trigger] has_exif_key(
            decoded(rest[j]),
            p,
        )) by {
            assert(rest[j] == archives[j + 1]);
            lemma_has_key_concat(state.exif, d, p);
            if has_exif_key(next.exif, p) && has_exif_key(decoded(rest[j]), p) {
                if has_exif_key(state.exif, p) {
                    assert(!(has_exif_key(state.exif, p) && has_exif_key(
                        decoded(archives[j + 1]),
                        p,
                    )));
                } else {
                    assert(has_exif_key(decoded(archives[0]), p));
                    assert(!(has_exif_key(decoded(archives[0]), p) && has_exif_key(
                        decoded(archives[j + 1]),
                        p,
                    )));
                }
            }
        }
        lemma_build_invariant(next, rest);
    }
}

/// In a cache built from coherent archive bundles, every photo that has a
/// metadata record lies in the temporal bucket named by its record's year
/// and month, and in no bucket with any other year or month.
pub proof fn lemma_temporal_partition(archives: Seq<ArchiveCacheDataV>, j: int)
    requires
        archives_coherent(archives),
        0 <= j < build_model(archives).exif.len(),
    ensures
        in_bucket(
            build_model(archives).temporal,
            build_model(archives).exif[j].1.year,
            build_model(archives).exif[j].1.month,
            build_model(archives).exif[j].0,
        ),
        forall|y: u32, mo: u32|
            in_bucket(build_model(archives).temporal, y, mo, build_model(archives).exif[j].0)
                ==> y == build_model(archives).exif[j].1.year && mo == build_model(
                archives,
            ).exif[j].1.month,
{
    lemma_build_invariant(empty_model(), archives);
    let m = build_model(archives);
    let p = m.exif[j].0;
    let e = m.exif[j].1;
    assert(has_record(m.exif, e.year, e.month, p));
    assert(in_bucket(m.temporal, e.year, e.month, p));
    assert forall|y: u32, mo: u32| in_bucket(m.temporal, y, mo, p) implies y == e.year && mo
        == e.month by {
        assert(has_record(m.exif, y, mo, p));
        let j2 = choose|j2: int|
            0 <= j2 < m.exif.len() && m.exif[j2].0 == p && m.exif[j2].1.year == y
                && m.exif[j2].1.month == mo;
        if j2 != j {
            assert(m.exif[j2].0 != m.exif[j].0);
        }
    }
}

/// The converse of the partition law: in a cache built from coherent
/// archive bundles, every photo found in any temporal bucket has a
/// metadata record, and that record's year and month name the bucket.
pub proof fn lemma_bucket_members_have_records(
    archives: Seq<ArchiveCacheDataV>,
    y: u32,
    mo: u32,
    p: PhotoInfoV,
)
    requires
        archives_coherent(archives),
        in_bucket(build_model(archives).temporal, y, mo, p),
    ensures
        has_record(build_model(archives).exif, y, mo, p),
{
    lemma_build_invariant(empty_model(), archives);
}

// ------------------------------------------------------------------
// The lazy persistence protocol and its idempotence.
// ------------------------------------------------------------------

/// Whether a build pass writes a cache file: only when none exists yet.
pub open spec fn pass_writes<T>(pre: Option<Seq<T>>) -> bool {
    pre is None
}

/// The file's contents after a build pass: what was already there, else
/// what the pass computed, wrote, and read back.
pub open spec fn pass_disk<T>(pre: Option<Seq<T>>, computed: Seq<T>) -> Seq<T> {
    match pre {
        Some(c) => c,
        None => computed,
    }
}

/// A second build pass over a directory whose cache files the first pass
/// left behind writes nothing — the persisted bytes stay identical — and
/// loads exactly what the first pass loaded, whatever it would now
/// compute; with [`PhotoCache::build`] a function of the loaded contents
/// alone, the in-memory cache is identical too.
pub proof fn lemma_second_pass_idempotent<T>(computed1: Seq<T>, computed2: Seq<T>)
    ensures
        !pass_writes(Some(pass_disk(None::<Seq<T>>, computed1))),
        pass_disk(Some(pass_disk(None::<Seq<T>>, computed1)), computed2) == pass_disk(
            None::<Seq<T>>,
            computed1,
        ),
{
}

/// The lazy skip-if-cached decision: compute and write a cache file only
/// when none exists.
pub fn plan_cache_write(cache_file_exists: bool) -> (r: bool)
    ensures
        r == !cache_file_exists,
{
    !cache_file_exists
}

/// The path of a per-archive cache file: directory, archive name, a
/// suffix naming the cache, and the `json` extension.
pub open spec fn cache_file_name(image_dir: Seq<char>, zip_file: Seq<char>, suffix: Seq<char>) -> Seq<
    char,
> {
    image_dir + "/"@ + zip_file + "."@ + suffix + ".json"@
}

/// Forms the path of a per-archive cache file.
pub fn form_file(image_dir: &str, zip_file: &str, suffix: &str) -> (r: String)
    ensures
        r@ == cache_file_name(image_dir@, zip_file@, suffix@),
{
    let mut m = str_chars(image_dir);
    crate::text::append_str(&mut m, "/");
    crate::text::append_str(&mut m, zip_file);
    crate::text::append_str(&mut m, ".");
    crate::text::append_str(&mut m, suffix);
    crate::text::append_str(&mut m, ".json");
    proof {
        assert(m@ =~= cache_file_name(image_dir@, zip_file@, suffix@));
    }
    crate::text::chars_to_string(&m)
}

} // verus!
