//! Planning the batched object-detection sweep.
//!
//! The sweep walks the cached photos archive by archive; an archive whose
//! result file already exists is skipped whole, and the remaining photos
//! are handed to the detector in fixed-size chunks. The detector itself
//! and the result files live outside; the library decides exactly what
//! work there is.

use vstd::prelude::*;
use crate::cache::pview;
use crate::photo::{PhotoInfo, PhotoInfoV};

verus! {

/// How many photos one detector invocation receives.
pub const DETECTION_CHUNK: usize = 100;

/// The first group index of an archive name, or the length.
pub open spec fn parchive_at(g: Seq<(Seq<char>, Seq<PhotoInfoV>)>, zip: Seq<char>) -> int
    decreases g.len(),
{
    if g.len() == 0 {
        0
    } else if g[0].0 == zip {
        0
    } else {
        1 + parchive_at(g.drop_first(), zip)
    }
}

/// Appends a photo to its archive's group, creating the group at the end
/// if absent.
pub open spec fn parchive_put(
    g: Seq<(Seq<char>, Seq<PhotoInfoV>)>,
    p: PhotoInfoV,
) -> Seq<(Seq<char>, Seq<PhotoInfoV>)> {
    let i = parchive_at(g, p.zip_file_name);
    if i < g.len() {
        g.update(i, (g[i].0, g[i].1.push(p)))
    } else {
        g.push((p.zip_file_name, seq![p]))
    }
}

/// The cached photos grouped by their archive, in first-appearance order.
pub open spec fn group_photos_model(refs: Seq<PhotoInfoV>) -> Seq<(Seq<char>, Seq<PhotoInfoV>)>
    decreases refs.len(),
{
    if refs.len() == 0 {
        Seq::empty()
    } else {
        parchive_put(group_photos_model(refs.drop_last()), refs.last())
    }
}

/// The views of photo groups.
pub open spec fn pgview(s: Seq<(String, Vec<PhotoInfo>)>) -> Seq<(Seq<char>, Seq<PhotoInfoV>)> {
    s.map_values(|g: (String, Vec<PhotoInfo>)| (g.0@, pview(g.1@)))
}

proof fn lemma_parchive_at_is(g: Seq<(Seq<char>, Seq<PhotoInfoV>)>, zip: Seq<char>, i: int)
    requires
        0 <= i <= g.len(),
        forall|j: int| 0 <= j < i ==> g[j].0 != zip,
        i == g.len() || g[i].0 == zip,
    ensures
        parchive_at(g, zip) == i,
    decreases i,
{
    if g.len() == 0 {
    } else if i == 0 {
    } else {
        let t = g.drop_first();
        assert(t =~= g.subrange(1, g.len() as int));
        lemma_parchive_at_is(t, zip, i - 1);
    }
}

/// Finds an archive's photo group.
fn find_photo_group(g: &Vec<(String, Vec<PhotoInfo>)>, zip: &String) -> (r: usize)
    ensures
        r == parchive_at(pgview(g@), zip@),
        r <= g@.len(),
{
    let n = g.len();
    let mut i: usize = 0;
    while i < n
        invariant
            i <= n,
            n == g@.len(),
            forall|j: int| 0 <= j < i ==> pgview(g@)[j].0 != zip@,
        decreases n - i,
    {
        if crate::text::str_eq(g[i].0.as_str(), zip.as_str()) {
            proof {
                lemma_parchive_at_is(pgview(g@), zip@, i as int);
            }
            return i;
        }
        i = i + 1;
    }
    proof {
        lemma_parchive_at_is(pgview(g@), zip@, n as int);
    }
    n
}

/// Groups photos by their archive, in first-appearance order.
pub fn group_photos_by_archive(refs: &Vec<PhotoInfo>) -> (r: Vec<(String, Vec<PhotoInfo>)>)
    ensures
        pgview(r@) == group_photos_model(pview(refs@)),
{
    let n = refs.len();
    let mut g: Vec<(String, Vec<PhotoInfo>)> = Vec::new();
    let mut i: usize = 0;
    proof {
        assert(pgview(g@) =~= group_photos_model(pview(refs@).subrange(0, 0)));
    }
    while i < n
        invariant
            i <= n,
            n == refs@.len(),
            pgview(g@) == group_photos_model(pview(refs@).subrange(0, i as int)),
        decreases n - i,
    {
        let ghost prefix = pview(refs@).subrange(0, i as int);
        let ghost step = pview(refs@).subrange(0, i + 1);
        proof {
            assert(step.drop_last() =~= prefix);
            assert(step.last() == pview(refs@)[i as int]);
            assert(step.last() == refs@[i as int]@);
        }
        let ghost pre = pgview(g@);
        let p = refs[i].clone();
        let ghost pv = p@;
        let at = find_photo_group(&g, &p.zip_file_name);
        if at < g.len() {
            let mut entry = g.remove(at);
            let ghost oldph = pview(entry.1@);
            proof {
                assert(oldph == pre[at as int].1);
            }
            entry.1.push(p);
            proof {
                assert(pview(entry.1@) =~= oldph.push(pv));
            }
            g.insert(at, entry);
            proof {
                assert(pgview(g@) =~~= parchive_put(pre, pv));
            }
        } else {
            let zip = p.zip_file_name.clone();
            let mut fresh: Vec<PhotoInfo> = Vec::new();
            fresh.push(p);
            proof {
                assert(pview(fresh@) =~= seq![pv]);
            }
            g.push((zip, fresh));
            proof {
                assert(pgview(g@) =~~= parchive_put(pre, pv));
            }
        }
        i = i + 1;
    }
    proof {
        assert(pview(refs@).subrange(0, n as int) =~= pview(refs@));
    }
    g
}

/// Splitting a photo list into chunks of at most `k`, in order.
pub open spec fn chunks_model(s: Seq<PhotoInfoV>, k: nat) -> Seq<Seq<PhotoInfoV>>
    decreases s.len(),
{
    if k == 0 || s.len() == 0 {
        Seq::empty()
    } else if s.len() <= k {
        seq![s]
    } else {
        seq![s.subrange(0, k as int)] + chunks_model(s.subrange(k as int, s.len() as int), k)
    }
}

/// Flattening a chunk list back into one.
pub open spec fn concat_chunks(cs: Seq<Seq<PhotoInfoV>>) -> Seq<PhotoInfoV>
    decreases cs.len(),
{
    if cs.len() == 0 {
        Seq::empty()
    } else {
        cs[0] + concat_chunks(cs.drop_first())
    }
}

/// Chunks partition the photos: concatenated in order they give back the
/// list, every chunk is nonempty and at most the chunk size, and every
/// chunk but the last is exactly the chunk size.
pub proof fn lemma_chunks_partition(s: Seq<PhotoInfoV>, k: nat)
    requires
        k > 0,
    ensures
        concat_chunks(chunks_model(s, k)) == s,
        forall|i: int|
            0 <= i < chunks_model(s, k).len() ==> 0 < (#[trigger] chunks_model(s, k)[i]).len()
                <= k,
        forall|i: int|
            0 <= i < chunks_model(s, k).len() - 1 ==> (#[trigger] chunks_model(s, k)[i]).len()
                == k,
    decreases s.len(),
{
    if s.len() == 0 {
        assert(concat_chunks(chunks_model(s, k)) =~= s);
    } else if s.len() <= k {
        assert(chunks_model(s, k) == seq![s]);
        assert(seq![s].drop_first() =~= Seq::<Seq<PhotoInfoV>>::empty());
        assert(concat_chunks(Seq::<Seq<PhotoInfoV>>::empty()) == Seq::<PhotoInfoV>::empty());
        assert(seq![s][0] == s);
        assert(concat_chunks(seq![s]) == s + Seq::<PhotoInfoV>::empty());
        assert(s + Seq::<PhotoInfoV>::empty() =~= s);
    } else {
        let head = s.subrange(0, k as int);
        let tail = s.subrange(k as int, s.len() as int);
        lemma_chunks_partition(tail, k);
        let cs = chunks_model(s, k);
        assert(cs.drop_first() =~= chunks_model(tail, k));
        assert(concat_chunks(cs) == head + concat_chunks(chunks_model(tail, k)));
        assert(head + tail =~= s);
        assert forall|i: int| 0 <= i < cs.len() implies 0 < (#[trigger] cs[i]).len() <= k by {
            if i > 0 {
                assert(cs[i] == chunks_model(tail, k)[i - 1]);
            }
        }
        assert forall|i: int| 0 <= i < cs.len() - 1 implies (#[trigger] cs[i]).len() == k by {
            if i > 0 {
                assert(cs[i] == chunks_model(tail, k)[i - 1]);
            }
        }
    }
}

/// Splits photos into detector-sized chunks, in order.
pub fn chunk_photos(photos: &Vec<PhotoInfo>, size: usize) -> (r: Vec<Vec<PhotoInfo>>)
    requires
        size > 0,
    ensures
        r@.map_values(|c: Vec<PhotoInfo>| pview(c@)) == chunks_model(pview(photos@), size as nat),
{
    let n = photos.len();
    let mut r: Vec<Vec<PhotoInfo>> = Vec::new();
    let mut start: usize = 0;
    proof {
        assert(pview(photos@).subrange(0, n as int) =~= pview(photos@));
        assert(r@.map_values(|c: Vec<PhotoInfo>| pview(c@)) =~= Seq::<Seq<PhotoInfoV>>::empty());
        assert(Seq::<Seq<PhotoInfoV>>::empty() + chunks_model(pview(photos@), size as nat)
            =~= chunks_model(pview(photos@), size as nat));
    }
    while start < n
        invariant
            start <= n,
            n == photos@.len(),
            size > 0,
            chunks_model(pview(photos@), size as nat) == r@.map_values(
                |c: Vec<PhotoInfo>| pview(c@),
            ) + chunks_model(pview(photos@).subrange(start as int, n as int), size as nat),
        decreases n - start,
    {
        let take = if size <= n - start {
            size
        } else {
            n - start
        };
        let mut chunk: Vec<PhotoInfo> = Vec::new();
        let mut j: usize = 0;
        while j < take
            invariant
                j <= take,
                start + take <= n,
                n == photos@.len(),
                chunk@.len() == j,
                forall|q: int| 0 <= q < j ==> chunk@[q]@ == photos@[start + q]@,
            decreases take - j,
        {
            chunk.push(photos[start + j].clone());
            j = j + 1;
        }
        let ghost rem = pview(photos@).subrange(start as int, n as int);
        let ghost prev = r@.map_values(|c: Vec<PhotoInfo>| pview(c@));
        let ghost cv = pview(chunk@);
        proof {
            assert forall|q: int| 0 <= q < cv.len() implies cv[q] == rem.subrange(
                0,
                take as int,
            )[q] by {
                assert(cv[q] == chunk@[q]@);
                assert(rem[q] == pview(photos@)[start + q]);
            }
            assert(cv =~= rem.subrange(0, take as int));
            if rem.len() <= size as nat {
                assert(rem.subrange(0, take as int) =~= rem);
                assert(chunks_model(rem, size as nat) == seq![rem]);
            } else {
                assert(chunks_model(rem, size as nat) == seq![rem.subrange(0, size as int)]
                    + chunks_model(rem.subrange(size as int, rem.len() as int), size as nat));
                assert(rem.subrange(size as int, rem.len() as int) =~= pview(
                    photos@,
                ).subrange(start + size, n as int));
            }
        }
        r.push(chunk);
        proof {
            assert(r@.map_values(|c: Vec<PhotoInfo>| pview(c@)) =~= prev.push(cv));
            if rem.len() <= size as nat {
                assert(prev + seq![rem] =~= prev.push(cv));
                assert(pview(photos@).subrange(n as int, n as int) =~= Seq::<PhotoInfoV>::empty());
                assert(chunks_model(Seq::<PhotoInfoV>::empty(), size as nat) =~= Seq::<
                    Seq<PhotoInfoV>,
                >::empty());
                assert(prev.push(cv) + Seq::<Seq<PhotoInfoV>>::empty() =~= prev.push(cv));
            } else {
                assert(prev + (seq![cv] + chunks_model(
                    pview(photos@).subrange(start + size, n as int),
                    size as nat,
                )) =~= prev.push(cv) + chunks_model(
                    pview(photos@).subrange(start + size, n as int),
                    size as nat,
                ));
            }
        }
        start = start + take;
    }
    proof {
        assert(pview(photos@).subrange(n as int, n as int) =~= Seq::<PhotoInfoV>::empty());
        assert(chunks_model(Seq::<PhotoInfoV>::empty(), size as nat) =~= Seq::<
            Seq<PhotoInfoV>,
        >::empty());
        assert(r@.map_values(|c: Vec<PhotoInfo>| pview(c@)) + Seq::<Seq<PhotoInfoV>>::empty()
            =~= r@.map_values(|c: Vec<PhotoInfo>| pview(c@)));
    }
    r
}

/// What the sweep does for one archive: nothing at all when its result
/// file already exists, else the photos in detector-sized chunks.
pub open spec fn detection_work_model(result_exists: bool, photos: Seq<PhotoInfoV>) -> Option<
    Seq<Seq<PhotoInfoV>>,
> {
    if result_exists {
        None
    } else {
        Some(chunks_model(photos, DETECTION_CHUNK as nat))
    }
}

/// Plans one archive's share of the detection sweep.
pub fn archive_detection_work(photos: &Vec<PhotoInfo>, result_exists: bool) -> (r: Option<
    Vec<Vec<PhotoInfo>>,
>)
    ensures
        result_exists <==> r is None,
        r matches Some(cs) ==> detection_work_model(result_exists, pview(photos@)) == Some(
            cs@.map_values(|c: Vec<PhotoInfo>| pview(c@)),
        ),
{
    if result_exists {
        None
    } else {
        Some(chunk_photos(photos, DETECTION_CHUNK))
    }
}

/// An archive whose result file already exists contributes no chunk to
/// the sweep, so a second run over it performs no detector invocation.
pub proof fn lemma_existing_result_skips_detection(photos: Seq<PhotoInfoV>)
    ensures
        detection_work_model(true, photos) is None,
{
}

} // verus!
