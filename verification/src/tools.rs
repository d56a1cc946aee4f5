//! The tool surface's typed parameters and their verified work.
//!
//! Each tool struct carries the parameters a caller hands in; its `run`
//! method clamps the requested limit to the tool's cap, queries the
//! cache, and reports the page together with the shared pagination facts
//! (total, and the next offset when more results remain). Serializing the
//! outcome to a wire format is the caller's business.

use vstd::prelude::*;
use crate::cache::{
    bucket_photos, eview, filter_by_name, opt_view, page_of, pview, query_hits, rview, tview,
    PhotoCache,
};
use crate::error::PhotoInsightError;
use crate::photo::{ExifResult, PhotoInfo};

verus! {

/// The most photos a view tool materializes at once.
pub const MAX_PHOTO_VIEW_SEARCH_LIMIT: u32 = 50;

/// The most identities a listing or name search returns at once.
pub const MAX_PHOTO_FILES_SEARCH_LIMIT: u32 = 10000;

/// The most records a metadata search returns at once.
pub const MAX_PHOTO_EXIF_SEARCH_LIMIT: u32 = 1000;

/// The most photos one detection request covers.
pub const MAX_PHOTO_YOLO_ANALYZE_LIMIT: u32 = 50;

/// A limit clamped to a tool's cap.
pub open spec fn clamp32(limit: u32, cap: u32) -> u32 {
    if limit <= cap {
        limit
    } else {
        cap
    }
}

/// Clamps a requested limit to a tool's cap.
pub fn clamp_limit(limit: u32, cap: u32) -> (r: u32)
    ensures
        r == clamp32(limit, cap),
{
    if limit <= cap {
        limit
    } else {
        cap
    }
}

/// The next-page offset is the stepped offset exactly when more results
/// remain.
pub open spec fn next_offset_ok(no: Option<usize>, offset: int, count: int, total: int) -> bool {
    &&& (no matches Some(n) ==> offset + count < total && n == offset + count)
    &&& (no is None ==> offset + count >= total)
}

/// Computes the next-page offset.
pub fn page_next(offset: usize, count: usize, total: usize) -> (r: Option<usize>)
    ensures
        next_offset_ok(r, offset as int, count as int, total as int),
{
    match offset.checked_add(count) {
        Some(n) => {
            if n < total {
                Some(n)
            } else {
                None
            }
        },
        None => None,
    }
}

/// One page of results with the shared pagination facts.
#[derive(Debug)]
pub struct ToolPage<T> {
    pub items: Vec<T>,
    pub offset: usize,
    pub limit: usize,
    pub total: usize,
    pub next_offset: Option<usize>,
    pub next_limit: usize,
}

/// Lists all photos, paginated.
#[derive(Debug)]
pub struct ListAllPhotosTool {
    /// Offset into results.
    pub offset: u32,
    /// Limit on the number of results returned.
    pub limit: u32,
}

impl ListAllPhotosTool {
    /// One page of all photo identities.
    pub fn run(&self, cache: &PhotoCache) -> (r: ToolPage<PhotoInfo>)
        ensures
            ({
                let lim = clamp32(self.limit, MAX_PHOTO_FILES_SEARCH_LIMIT) as int;
                &&& pview(r.items@) == page_of(pview(cache.images@), self.offset as int, lim)
                &&& r.total == cache.images@.len()
                &&& r.offset == self.offset as int
                &&& r.limit == lim
                &&& r.next_limit == lim
                &&& next_offset_ok(r.next_offset, self.offset as int, r.items@.len() as int, r.total as int)
            }),
    {
        let offset = self.offset as usize;
        let limit = clamp_limit(self.limit, MAX_PHOTO_FILES_SEARCH_LIMIT) as usize;
        let (items, total) = cache.list_all_images(offset, limit);
        proof {
            assert(pview(items@).len() == items@.len());
        }
        let next_offset = page_next(offset, items.len(), total);
        ToolPage { items, offset, limit, total, next_offset, next_limit: limit }
    }
}

/// Searches photos by a typed metadata predicate, paginated.
#[derive(Debug)]
pub struct PhotoExifSearchTagTool {
    /// The tag to compare, for instance `model`.
    pub tag: String,
    /// The value to compare against.
    pub value: String,
    /// The operator, fitting the tag's type.
    pub operator: String,
    /// Offset into results.
    pub offset: u32,
    /// Limit on the number of results returned.
    pub limit: u32,
}

impl PhotoExifSearchTagTool {
    /// One page of the records matching the predicate. An unknown tag, an
    /// operator foreign to the tag's type, or an unparsable comparison
    /// literal fails the query itself.
    pub fn run(&self, cache: &PhotoCache) -> (r: Result<ToolPage<ExifResult>, PhotoInsightError>)
        ensures
            r is Ok <==> crate::exif_data::query_valid(self.tag@, self.value@, self.operator@),
            r is Ok ==> ({
                let lim = clamp32(self.limit, MAX_PHOTO_EXIF_SEARCH_LIMIT) as int;
                let hits = query_hits(
                    eview(cache.exif_cache@),
                    self.tag@,
                    self.value@,
                    self.operator@,
                );
                let page = r.unwrap();

                &&& rview(page.items@) == page_of(hits, self.offset as int, lim)
                &&& page.total == hits.len()
                &&& page.offset == self.offset as int
                &&& page.limit == lim
                &&& page.next_limit == lim
                &&& next_offset_ok(
                    page.next_offset,
                    self.offset as int,
                    page.items@.len() as int,
                    page.total as int,
                )
            }),
    {
        let offset = self.offset as usize;
        let limit = clamp_limit(self.limit, MAX_PHOTO_EXIF_SEARCH_LIMIT) as usize;
        let (items, total) = cache.search_image_by_exif_tags(
            &self.tag,
            &self.value,
            &self.operator,
            offset,
            limit,
        )?;
        proof {
            assert(rview(items@).len() == items@.len());
        }
        let next_offset = page_next(offset, items.len(), total);
        Ok(ToolPage { items, offset, limit, total, next_offset, next_limit: limit })
    }
}

/// Searches photos by partial entry name, paginated.
#[derive(Debug)]
pub struct PhotoSearchByNameTool {
    /// The (partial) entry name searched for, case-insensitively.
    pub file_name: String,
    /// An optional archive filter.
    pub zip_file_name: Option<String>,
    /// Offset into results.
    pub offset: u32,
    /// Limit on the number of results returned.
    pub limit: u32,
}

impl PhotoSearchByNameTool {
    /// One page of the matching identities.
    pub fn run(&self, cache: &PhotoCache) -> (r: ToolPage<PhotoInfo>)
        ensures
            ({
                let lim = clamp32(self.limit, MAX_PHOTO_FILES_SEARCH_LIMIT) as int;
                let hits = filter_by_name(
                    pview(cache.images@),
                    self.file_name@,
                    opt_view(self.zip_file_name),
                );
                &&& pview(r.items@) == page_of(hits, self.offset as int, lim)
                &&& r.total == hits.len()
                &&& r.offset == self.offset as int
                &&& r.limit == lim
                &&& r.next_limit == lim
                &&& next_offset_ok(r.next_offset, self.offset as int, r.items@.len() as int, r.total as int)
            }),
    {
        let offset = self.offset as usize;
        let limit = clamp_limit(self.limit, MAX_PHOTO_FILES_SEARCH_LIMIT) as usize;
        let (items, total) = cache.search_image_by_name(
            &self.file_name,
            &self.zip_file_name,
            offset,
            limit,
        );
        proof {
            assert(pview(items@).len() == items@.len());
        }
        let next_offset = page_next(offset, items.len(), total);
        ToolPage { items, offset, limit, total, next_offset, next_limit: limit }
    }
}

/// Searches photos by capture year and month, paginated.
#[derive(Debug)]
pub struct PhotoSearchByYearMonthTool {
    /// The capture year, zero standing for unknown.
    pub year: u32,
    /// The capture month, zero standing for unknown.
    pub month: u32,
    /// Offset into results.
    pub offset: u32,
    /// Limit on the number of results returned.
    pub limit: u32,
}

impl PhotoSearchByYearMonthTool {
    /// One page of the bucket's identities.
    pub fn run(&self, cache: &PhotoCache) -> (r: ToolPage<PhotoInfo>)
        ensures
            ({
                let lim = clamp32(self.limit, MAX_PHOTO_FILES_SEARCH_LIMIT) as int;
                let bucket = bucket_photos(tview(cache.by_year_month@), self.year, self.month);
                &&& pview(r.items@) == page_of(bucket, self.offset as int, lim)
                &&& r.total == bucket.len()
                &&& r.offset == self.offset as int
                &&& r.limit == lim
                &&& r.next_limit == lim
                &&& next_offset_ok(r.next_offset, self.offset as int, r.items@.len() as int, r.total as int)
            }),
    {
        let offset = self.offset as usize;
        let limit = clamp_limit(self.limit, MAX_PHOTO_FILES_SEARCH_LIMIT) as usize;
        let (items, total) = cache.search_image_by_year_month(self.year, self.month, offset, limit);
        proof {
            assert(pview(items@).len() == items@.len());
        }
        let next_offset = page_next(offset, items.len(), total);
        ToolPage { items, offset, limit, total, next_offset, next_limit: limit }
    }
}

/// Materializes viewable bytes for photos found by name.
#[derive(Debug)]
pub struct PhotoViewByNameTool {
    /// The (partial) entry name searched for, case-insensitively.
    pub file_name: String,
    /// An optional archive filter.
    pub zip_file_name: Option<String>,
    /// Offset into results.
    pub offset: u32,
    /// Limit on the number of results returned.
    pub limit: u32,
}

impl PhotoViewByNameTool {
    /// The viewable bytes of one page of matches; every item's MIME type
    /// is sniffed from its own bytes. The batch succeeds exactly when
    /// every archive group of the page can be served.
    pub fn run(&self, cache: &PhotoCache, zip_files: &Vec<(String, Vec<u8>)>) -> (r: Result<
        Vec<(PhotoInfo, String, Vec<u8>)>,
        PhotoInsightError,
    >)
        ensures
            ({
                let lim = clamp32(self.limit, MAX_PHOTO_VIEW_SEARCH_LIMIT) as int;
                let hits = filter_by_name(
                    pview(cache.images@),
                    self.file_name@,
                    opt_view(self.zip_file_name),
                );
                &&& (r is Ok <==> crate::image_ops::all_groups_served(
                    crate::image_ops::zview(zip_files@),
                    crate::image_ops::group_indices_model(
                        page_of(hits, self.offset as int, lim),
                    ),
                ))
                &&& (r matches Ok(v) ==> v@.len() == page_of(hits, self.offset as int, lim).len()
                    && forall|k: int|
                    0 <= k < v@.len() ==> (#[trigger] v@[k].1)@ == crate::image_format::mime_of(
                        v@[k].2@,
                    ))
            }),
    {
        let offset = self.offset as usize;
        let limit = clamp_limit(self.limit, MAX_PHOTO_VIEW_SEARCH_LIMIT) as usize;
        let (items, _) = cache.search_image_by_name(
            &self.file_name,
            &self.zip_file_name,
            offset,
            limit,
        );
        proof {
            assert(pview(items@).len() == items@.len());
        }
        cache.image_data(zip_files, &items)
    }
}

/// Materializes viewable bytes for photos of a capture year and month.
#[derive(Debug)]
pub struct PhotoViewByYearMonthTool {
    /// The capture year, zero standing for unknown.
    pub year: u32,
    /// The capture month, zero standing for unknown.
    pub month: u32,
    /// Offset into results.
    pub offset: u32,
    /// Limit on the number of results returned.
    pub limit: u32,
}

impl PhotoViewByYearMonthTool {
    /// The viewable bytes of one page of the bucket; every item's MIME
    /// type is sniffed from its own bytes. The batch succeeds exactly when
    /// every archive group of the page can be served.
    pub fn run(&self, cache: &PhotoCache, zip_files: &Vec<(String, Vec<u8>)>) -> (r: Result<
        Vec<(PhotoInfo, String, Vec<u8>)>,
        PhotoInsightError,
    >)
        ensures
            ({
                let lim = clamp32(self.limit, MAX_PHOTO_VIEW_SEARCH_LIMIT) as int;
                let bucket = bucket_photos(tview(cache.by_year_month@), self.year, self.month);
                &&& (r is Ok <==> crate::image_ops::all_groups_served(
                    crate::image_ops::zview(zip_files@),
                    crate::image_ops::group_indices_model(
                        page_of(bucket, self.offset as int, lim),
                    ),
                ))
                &&& (r matches Ok(v) ==> v@.len() == page_of(bucket, self.offset as int, lim).len()
                    && forall|k: int|
                    0 <= k < v@.len() ==> (#[trigger] v@[k].1)@ == crate::image_format::mime_of(
                        v@[k].2@,
                    ))
            }),
    {
        let offset = self.offset as usize;
        let limit = clamp_limit(self.limit, MAX_PHOTO_VIEW_SEARCH_LIMIT) as usize;
        let (items, _) = cache.search_image_by_year_month(self.year, self.month, offset, limit);
        proof {
            assert(pview(items@).len() == items@.len());
        }
        cache.image_data(zip_files, &items)
    }
}

/// Fetches the metadata records of photos found by name, paginated.
#[derive(Debug)]
pub struct PhotoExifTool {
    /// The (partial) entry name searched for, case-insensitively.
    pub file_name: String,
    /// An optional archive filter.
    pub zip_file_name: Option<String>,
    /// Offset into results.
    pub offset: u32,
    /// Limit on the number of results returned.
    pub limit: u32,
}

impl PhotoExifTool {
    /// The records of one page of matches; matches without a record are
    /// skipped.
    pub fn run(&self, cache: &PhotoCache) -> (r: Result<ToolPage<ExifResult>, PhotoInsightError>)
        ensures
            r is Ok,
            ({
                let lim = clamp32(self.limit, MAX_PHOTO_EXIF_SEARCH_LIMIT) as int;
                let hits = filter_by_name(
                    pview(cache.images@),
                    self.file_name@,
                    opt_view(self.zip_file_name),
                );
                let refs = page_of(hits, self.offset as int, lim);
                let page = r.unwrap();
                &&& rview(page.items@) == crate::cache::exif_results_for(
                    eview(cache.exif_cache@),
                    refs,
                )
                &&& page.total == hits.len()
                &&& page.offset == self.offset as int
                &&& page.limit == lim
                &&& page.next_limit == lim
                &&& next_offset_ok(
                    page.next_offset,
                    self.offset as int,
                    refs.len() as int,
                    page.total as int,
                )
            }),
    {
        let offset = self.offset as usize;
        let limit = clamp_limit(self.limit, MAX_PHOTO_EXIF_SEARCH_LIMIT) as usize;
        let (found, total) = cache.search_image_by_name(
            &self.file_name,
            &self.zip_file_name,
            offset,
            limit,
        );
        proof {
            assert(pview(found@).len() == found@.len());
        }
        let found_len = found.len();
        let items = cache.exif_info(&found)?;
        let next_offset = page_next(offset, found_len, total);
        Ok(ToolPage { items, offset, limit, total, next_offset, next_limit: limit })
    }
}

/// Selects photos by name for an object-detection request, paginated.
#[derive(Debug)]
pub struct PhotoObjectDetectionTool {
    /// The (partial) entry name searched for, case-insensitively.
    pub file_name: String,
    /// An optional archive filter.
    pub zip_file_name: Option<String>,
    /// Offset into results.
    pub offset: u32,
    /// Limit on the number of results returned.
    pub limit: u32,
}

impl PhotoObjectDetectionTool {
    /// One page of the photos the detector should look at; running the
    /// detector over them is the caller's work.
    pub fn run(&self, cache: &PhotoCache) -> (r: (Vec<PhotoInfo>, usize))
        ensures
            ({
                let lim = clamp32(self.limit, MAX_PHOTO_YOLO_ANALYZE_LIMIT) as int;
                let hits = filter_by_name(
                    pview(cache.images@),
                    self.file_name@,
                    opt_view(self.zip_file_name),
                );
                pview(r.0@) == page_of(hits, self.offset as int, lim) && r.1 == hits.len()
            }),
    {
        let offset = self.offset as usize;
        let limit = clamp_limit(self.limit, MAX_PHOTO_YOLO_ANALYZE_LIMIT) as usize;
        cache.search_image_by_name(&self.file_name, &self.zip_file_name, offset, limit)
    }
}

/// Lists the searchable metadata tags with their types and operators.
#[derive(Debug)]
pub struct PhotoExifTagTool {}

/// The operators of the integer- and float-typed tags.
pub open spec fn num_ops() -> Seq<Seq<char>> {
    seq!["=="@, ">"@, "<"@, ">="@, "<="@, "!="@]
}

/// The operators reported for the shutter-speed tag.
pub open spec fn shutter_ops() -> Seq<Seq<char>> {
    seq!["!="@, "=="@, ">"@, "<"@, ">="@, "<="@, "!="@]
}

/// The operators of the string-typed tags.
pub open spec fn str_ops() -> Seq<Seq<char>> {
    seq!["!="@, "=="@, "contains"@, "starts_with"@, "ends_with"@]
}

/// The fixed table of searchable tags: name, type, operators.
pub open spec fn supported_tags() -> Seq<(Seq<char>, Seq<char>, Seq<Seq<char>>)> {
    seq![
        ("width"@, "Integer"@, num_ops()),
        ("height"@, "Integer"@, num_ops()),
        ("month"@, "Integer"@, num_ops()),
        ("year"@, "Integer"@, num_ops()),
        ("aperture"@, "Float"@, num_ops()),
        ("focal_len"@, "Float"@, num_ops()),
        ("iso"@, "Float"@, num_ops()),
        ("shutter_speed"@, "Float"@, shutter_ops()),
        ("lens"@, "String"@, str_ops()),
        ("model"@, "String"@, str_ops()),
    ]
}

/// The deep view of a tag table.
pub open spec fn tag_table_view(s: Seq<(String, String, Vec<String>)>) -> Seq<
    (Seq<char>, Seq<char>, Seq<Seq<char>>),
> {
    s.map_values(
        |e: (String, String, Vec<String>)| (e.0@, e.1@, e.2@.map_values(|x: String| x@)),
    )
}

/// Builds one operator list.
fn ops_vec(ops: &Vec<&str>) -> (r: Vec<String>)
    ensures
        r@.map_values(|x: String| x@) == ops@.map_values(|x: &str| x@),
{
    let n = ops.len();
    let mut r: Vec<String> = Vec::new();
    let mut i: usize = 0;
    while i < n
        invariant
            i <= n,
            n == ops@.len(),
            r@.len() == i,
            forall|j: int| 0 <= j < i ==> r@[j]@ == ops@[j]@,
        decreases n - i,
    {
        r.push(crate::text::chars_to_string(&crate::text::str_chars(ops[i])));
        i = i + 1;
    }
    proof {
        assert(r@.map_values(|x: String| x@) =~= ops@.map_values(|x: &str| x@));
    }
    r
}

impl PhotoExifTagTool {
    /// The searchable-tag table.
    pub fn run(&self) -> (r: Vec<(String, String, Vec<String>)>)
        ensures
            tag_table_view(r@) == supported_tags(),
    {
        let num: Vec<&str> = vec!["==", ">", "<", ">=", "<=", "!="];
        let shutter: Vec<&str> = vec!["!=", "==", ">", "<", ">=", "<=", "!="];
        let stringy: Vec<&str> = vec!["!=", "==", "contains", "starts_with", "ends_with"];
        proof {
            assert(num@.map_values(|x: &str| x@) =~= num_ops());
            assert(shutter@.map_values(|x: &str| x@) =~= shutter_ops());
            assert(stringy@.map_values(|x: &str| x@) =~= str_ops());
        }
        let mut t: Vec<(String, String, Vec<String>)> = Vec::new();
        t.push((mk("width"), mk("Integer"), ops_vec(&num)));
        t.push((mk("height"), mk("Integer"), ops_vec(&num)));
        t.push((mk("month"), mk("Integer"), ops_vec(&num)));
        t.push((mk("year"), mk("Integer"), ops_vec(&num)));
        t.push((mk("aperture"), mk("Float"), ops_vec(&num)));
        t.push((mk("focal_len"), mk("Float"), ops_vec(&num)));
        t.push((mk("iso"), mk("Float"), ops_vec(&num)));
        t.push((mk("shutter_speed"), mk("Float"), ops_vec(&shutter)));
        t.push((mk("lens"), mk("String"), ops_vec(&stringy)));
        t.push((mk("model"), mk("String"), ops_vec(&stringy)));
        proof {
            assert forall|j: int| 0 <= j < tag_table_view(t@).len() implies tag_table_view(t@)[j]
                == supported_tags()[j] by {
                assert(tag_table_view(t@)[j] == (
                    t@[j].0@,
                    t@[j].1@,
                    t@[j].2@.map_values(|x: String| x@),
                ));
            }
            assert(tag_table_view(t@) =~= supported_tags());
        }
        t
    }
}

/// Copies a literal into an owned string.
fn mk(s: &str) -> (r: String)
    ensures
        r@ == s@,
{
    crate::text::chars_to_string(&crate::text::str_chars(s))
}

/// Lists the viewable entries of one archive.
#[derive(Debug)]
pub struct ListImagesTool {
    /// The directory the archive lives in.
    pub image_dir: String,
    /// The archive's file name.
    pub zip_file_name: String,
}

impl ListImagesTool {
    /// The viewable entry names of the archive's bytes, GIFs included;
    /// a clean container is always listed.
    pub fn run(&self, zip_data: &Vec<u8>) -> (r: Result<Vec<String>, PhotoInsightError>)
        ensures
            r matches Ok(v) ==> v@.map_values(|s: String| s@)
                == crate::zip_store::listable_listing(crate::zip_store::zip_names_of(zip_data@)),
            !crate::zip_store::zip_parses(zip_data@) ==> r is Err,
            (crate::zip_store::zip_parses(zip_data@) && (forall|i: int|
                0 <= i < crate::zip_store::zip_names_of(zip_data@).len()
                    ==> crate::zip_store::zip_entry_ok(zip_data@, i))) ==> r is Ok,
    {
        crate::zip_store::list_images_in_archive(zip_data)
    }
}

/// Lists the photo archives of a directory.
#[derive(Debug)]
pub struct ListFileSystemTool {
    /// The directory under index.
    pub image_dir: String,
}

impl ListFileSystemTool {
    /// The archive names among the directory's entries.
    pub fn run(&self, file_names: &Vec<String>) -> (r: Vec<String>)
        ensures
            r@.map_values(|s: String| s@) == crate::zip_store::zip_names_in(
                file_names@.map_values(|s: String| s@),
            ),
    {
        crate::zip_store::list_directory_zip_files(file_names)
    }
}

} // verus!
