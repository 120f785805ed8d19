//! The tar backend, with its optional compression layers.
//!
//! A tar stream cannot seek, so the backend decodes the whole archive at
//! open time into in-memory page buffers, filtered down to image members
//! and sorted by member path.

use crate::err::OpenError;
use crate::exts::{check_valid_ext, valid_image_name};
use crate::ident::{sha256_digest, sha256_of};
use crate::order::{pair_views, sort_pairs, sorted_by_name};
use std::io::Read;
use vstd::prelude::*;

verus! {

/// Which decompression filter stands in front of the tar stream.
#[derive(PartialEq, Eq, Structural, Clone, Copy, Debug)]
pub enum TarCompression {
    /// A bare tar stream.
    Plain,
    /// An xz-compressed stream.
    Xz,
    /// A gzip-compressed stream.
    Gz,
    /// A bzip2-compressed stream.
    Bz2,
}

/// What xz decompression yields for a byte string, or nothing when the
/// stream is corrupt; the result depends on the bytes alone.
pub uninterp spec fn xz_plain_of(data: Seq<u8>) -> Option<Seq<u8>>;

/// What gzip decompression yields for a byte string, or nothing when the
/// stream is corrupt; the result depends on the bytes alone.
pub uninterp spec fn gz_plain_of(data: Seq<u8>) -> Option<Seq<u8>>;

/// What bzip2 decompression yields for a byte string, or nothing when the
/// stream is corrupt; the result depends on the bytes alone.
pub uninterp spec fn bz2_plain_of(data: Seq<u8>) -> Option<Seq<u8>>;

/// The member table tar reads from a byte string: each member's path,
/// whether it is a regular file, and its content — or nothing when the
/// stream is not a tar archive.  The result depends on the bytes alone.
pub uninterp spec fn tar_entries_of(data: Seq<u8>) -> Option<Seq<(Seq<u8>, bool, Seq<u8>)>>;

/// The mathematical value of a member list.
pub open spec fn entry_views(s: Seq<(Vec<u8>, bool, Vec<u8>)>) -> Seq<(Seq<u8>, bool, Seq<u8>)> {
    s.map_values(|e: (Vec<u8>, bool, Vec<u8>)| (e.0@, e.1, e.2@))
}

/// Relies on xz2::read::XzDecoder and std::io::Read::read_to_end:
/// decompresses the whole stream into memory.
#[verifier::external_body]
fn xz_decode(data: &[u8]) -> (r: Result<Vec<u8>, String>)
    ensures
        r matches Ok(v) ==> xz_plain_of(data@) == Some(v@),
        r is Err ==> xz_plain_of(data@) is None,
{
    let mut d = xz2::read::XzDecoder::new(data);
    let mut out: Vec<u8> = Vec::new();
    match d.read_to_end(&mut out) {
        Ok(_) => Ok(out),
        Err(e) => Err(format!("{}", e)),
    }
}

/// Relies on flate2::read::GzDecoder and std::io::Read::read_to_end:
/// decompresses the whole stream into memory.
#[verifier::external_body]
fn gz_decode(data: &[u8]) -> (r: Result<Vec<u8>, String>)
    ensures
        r matches Ok(v) ==> gz_plain_of(data@) == Some(v@),
        r is Err ==> gz_plain_of(data@) is None,
{
    let mut d = flate2::read::GzDecoder::new(data);
    let mut out: Vec<u8> = Vec::new();
    match d.read_to_end(&mut out) {
        Ok(_) => Ok(out),
        Err(e) => Err(format!("{}", e)),
    }
}

/// Relies on bzip2::read::BzDecoder and std::io::Read::read_to_end:
/// decompresses the whole stream into memory.
#[verifier::external_body]
fn bz2_decode(data: &[u8]) -> (r: Result<Vec<u8>, String>)
    ensures
        r matches Ok(v) ==> bz2_plain_of(data@) == Some(v@),
        r is Err ==> bz2_plain_of(data@) is None,
{
    let mut d = bzip2::read::BzDecoder::new(data);
    let mut out: Vec<u8> = Vec::new();
    match d.read_to_end(&mut out) {
        Ok(_) => Ok(out),
        Err(e) => Err(format!("{}", e)),
    }
}

/// Relies on tar::Archive::entries and the entry accessors path_bytes,
/// entry_type and read_to_end: walks the whole archive once, reading every
/// member into memory; a member whose content cannot be read is skipped,
/// as the member table is a function of the bytes alone.
#[verifier::external_body]
fn tar_entries(data: &[u8]) -> (r: Result<Vec<(Vec<u8>, bool, Vec<u8>)>, String>)
    ensures
        r matches Ok(v) ==> tar_entries_of(data@) == Some(entry_views(v@)),
        r is Err ==> tar_entries_of(data@) is None,
{
    let mut archive = tar::Archive::new(std::io::Cursor::new(data));
    let entries = match archive.entries() {
        Ok(e) => e,
        Err(e) => return Err(format!("{}", e)),
    };
    let mut out: Vec<(Vec<u8>, bool, Vec<u8>)> = Vec::new();
    for mut entry in entries.flatten() {
        let path = entry.path_bytes().to_vec();
        let is_file = entry.header().entry_type().is_file();
        let mut buf: Vec<u8> = Vec::new();
        if entry.read_to_end(&mut buf).is_ok() {
            out.push((path, is_file, buf));
        }
    }
    Ok(out)
}

/// The `(path, member index)` pairs of the image-file members among the
/// first `n` members, in member order.
pub open spec fn member_pairs_upto(es: Seq<(Seq<u8>, bool, Seq<u8>)>, n: int) -> Seq<
    (Seq<u8>, usize),
>
    decreases n,
{
    if n <= 0 {
        Seq::empty()
    } else {
        let p = member_pairs_upto(es, n - 1);
        if es[n - 1].1 && valid_image_name(es[n - 1].0) {
            p.push((es[n - 1].0, (n - 1) as usize))
        } else {
            p
        }
    }
}

/// The `(path, member index)` pairs of all image-file members.
pub open spec fn member_pairs(es: Seq<(Seq<u8>, bool, Seq<u8>)>) -> Seq<(Seq<u8>, usize)> {
    member_pairs_upto(es, es.len() as int)
}

/// The pages a member list yields: `imgs` holds the contents of exactly
/// the image-file members, ordered by member path.
pub open spec fn pages_of_members(es: Seq<(Seq<u8>, bool, Seq<u8>)>, imgs: Seq<Seq<u8>>) -> bool {
    exists|q: Seq<(Seq<u8>, usize)>|
        {
            &&& sorted_by_name(q)
            &&& q.to_multiset() == member_pairs(es).to_multiset()
            &&& imgs.len() == q.len()
            &&& forall|k: int|
                0 <= k < q.len() ==> 0 <= (q[k].1 as int) < es.len() && imgs[k] == es[q[k].1
                    as int].2
        }
}

/// The first `t` gathered pages match the sorted pair list: each points
/// inside the member list and holds that member's content.
pub open spec fn gathered_upto(
    q: Seq<(Seq<u8>, usize)>,
    es: Seq<(Seq<u8>, bool, Seq<u8>)>,
    images: Seq<Vec<u8>>,
    t: int,
) -> bool {
    forall|j: int|
        0 <= j < t ==> ((#[trigger] q[j]).1 as int) < es.len() && images[j]@ == es[q[j].1
            as int].2
}

/// Every pair of the member table points inside the member list.
proof fn lemma_member_pairs_bounded(es: Seq<(Seq<u8>, bool, Seq<u8>)>, n: int)
    requires
        0 <= n <= es.len(),
    ensures
        forall|k: int|
            0 <= k < member_pairs_upto(es, n).len() ==> (
            #[trigger] member_pairs_upto(es, n)[k]).1 < n,
    decreases n,
{
    if n > 0 {
        lemma_member_pairs_bounded(es, n - 1);
        let prev = member_pairs_upto(es, n - 1);
        let cur = member_pairs_upto(es, n);
        assert forall|k: int| 0 <= k < cur.len() implies (cur[k]).1 < n by {
            if es[n - 1].1 && valid_image_name(es[n - 1].0) {
                assert(cur == prev.push((es[n - 1].0, (n - 1) as usize)));
                if k < prev.len() {
                    assert(cur[k] == prev[k]);
                }
            } else {
                assert(cur == prev);
            }
        }
    }
}

/// What a successfully opened tar page source guarantees: the
/// fingerprint, and the pages as exactly the image members' contents
/// sorted by member path, through the named decompression and member
/// tables.
pub open spec fn tar_source_spec(t: TarSource, data: Seq<u8>, compression: TarCompression) -> bool {
    &&& t.spec_sha256() == sha256_of(data)
    &&& match spec_plain_of(compression, data) {
        Some(p) => tar_entries_of(p) matches Some(es) && pages_of_members(es, t.spec_images()),
        None => false,
    }
}

/// The tar backend: the container's fingerprint and the decoded pages.
pub struct TarSource {
    sha256: [u8; 32],
    images: Vec<Vec<u8>>,
}

impl TarSource {
    /// The fingerprint of the container's bytes.
    pub closed spec fn spec_sha256(&self) -> Seq<u8> {
        self.sha256@
    }

    /// The decoded pages, in page order.
    pub closed spec fn spec_images(&self) -> Seq<Seq<u8>> {
        Seq::new(self.images@.len(), |i: int| self.images@[i]@)
    }

    /// The number of pages.
    pub fn page_count(&self) -> (r: usize)
        ensures
            r == self.spec_images().len(),
    {
        self.images.len()
    }

    /// The fingerprint of the container's bytes.
    pub fn sha256(&self) -> (r: &[u8; 32])
        ensures
            r@ == self.spec_sha256(),
    {
        &self.sha256
    }

    /// The bytes of page `index`; an index at or past the page count
    /// yields an empty result rather than an error.
    pub fn get_page_bytes(&self, index: usize) -> (r: Vec<u8>)
        ensures
            index < self.spec_images().len() ==> r@ == self.spec_images()[index as int],
            index >= self.spec_images().len() ==> r@ == Seq::<u8>::empty(),
    {
        if index < self.images.len() {
            self.images[index].clone()
        } else {
            Vec::new()
        }
    }

    /// Opens a tar container: decompresses the stream as directed, walks
    /// the member table once, and keeps the image members' contents sorted
    /// by member path.  The open succeeds exactly when the stream
    /// decompresses and parses as a tar archive.
    pub fn new(data: Vec<u8>, compression: TarCompression) -> (r: Result<TarSource, OpenError>)
        ensures
            r matches Ok(t) ==> tar_source_spec(t, data@, compression),
            r is Ok <==> (spec_plain_of(compression, data@) matches Some(p) && tar_entries_of(p)
                is Some),
    {
        let sha256 = sha256_digest(data.as_slice());
        let plain: Vec<u8> = match compression {
            TarCompression::Plain => data,
            TarCompression::Xz => match xz_decode(data.as_slice()) {
                Ok(p) => p,
                Err(m) => {
                    return Err(OpenError::Invalid(m));
                },
            },
            TarCompression::Gz => match gz_decode(data.as_slice()) {
                Ok(p) => p,
                Err(m) => {
                    return Err(OpenError::Invalid(m));
                },
            },
            TarCompression::Bz2 => match bz2_decode(data.as_slice()) {
                Ok(p) => p,
                Err(m) => {
                    return Err(OpenError::Invalid(m));
                },
            },
        };
        let entries = match tar_entries(plain.as_slice()) {
            Ok(e) => e,
            Err(m) => {
                return Err(OpenError::Invalid(m));
            },
        };
        let images = images_of_members(&entries);
        proof {
            assert(spec_plain_of(compression, data@) == Some(plain@));
        }
        Ok(TarSource { sha256, images })
    }
}

/// What the compression filter yields for the container's bytes.
pub open spec fn spec_plain_of(compression: TarCompression, data: Seq<u8>) -> Option<Seq<u8>> {
    match compression {
        TarCompression::Plain => Some(data),
        TarCompression::Xz => xz_plain_of(data),
        TarCompression::Gz => gz_plain_of(data),
        TarCompression::Bz2 => bz2_plain_of(data),
    }
}

/// The contents of the image-file members, sorted by member path.
fn images_of_members(entries: &Vec<(Vec<u8>, bool, Vec<u8>)>) -> (r: Vec<Vec<u8>>)
    ensures
        pages_of_members(entry_views(entries@), Seq::new(r@.len(), |i: int| r@[i]@)),
{
    broadcast use vstd::seq_lib::group_to_multiset_ensures;

    let ghost es = entry_views(entries@);
    let mut pairs: Vec<(Vec<u8>, usize)> = Vec::new();
    let mut k: usize = 0;
    proof {
        assert(pair_views(pairs@) =~= member_pairs_upto(es, 0));
    }
    while k < entries.len()
        invariant
            es == entry_views(entries@),
            k <= entries@.len(),
            pair_views(pairs@) =~= member_pairs_upto(es, k as int),
        decreases entries@.len() - k,
    {
        let is_file = entries[k].1;
        if is_file && check_valid_ext(entries[k].0.as_slice()) {
            let name = entries[k].0.clone();
            pairs.push((name, k));
        }
        proof {
            assert(pair_views(pairs@) =~= member_pairs_upto(es, k + 1 as int));
        }
        k = k + 1;
    }
    let sorted = sort_pairs(pairs);
    let ghost q = pair_views(sorted@);
    proof {
        lemma_member_pairs_bounded(es, es.len() as int);
    }
    let mut images: Vec<Vec<u8>> = Vec::new();
    let mut t: usize = 0;
    while t < sorted.len()
        invariant
            es == entry_views(entries@),
            q == pair_views(sorted@),
            q.to_multiset() == member_pairs(es).to_multiset(),
            forall|k: int| 0 <= k < member_pairs(es).len() ==> (#[trigger] member_pairs(es)[k]).1 < es.len(),
            t <= sorted@.len(),
            images@.len() == t,
            gathered_upto(q, es, images@, t as int),
        decreases sorted@.len() - t,
    {
        let pos = sorted[t].1;
        proof {
            broadcast use vstd::seq_lib::group_to_multiset_ensures;

            assert(q[t as int] == (sorted@[t as int].0@, sorted@[t as int].1));
            assert(q.contains(q[t as int]));
            assert(q.to_multiset().count(q[t as int]) > 0);
            assert(member_pairs(es).to_multiset().count(q[t as int]) > 0);
            assert(member_pairs(es).contains(q[t as int]));
            let w = choose|w: int|
                0 <= w < member_pairs(es).len() && member_pairs(es)[w] == q[t as int];
            assert((member_pairs(es)[w]).1 < es.len());
        }
        let content = entries[pos].2.clone();
        proof {
            assert(content@ =~= entries@[pos as int].2@);
        }
        let ghost old_images = images@;
        images.push(content);
        proof {
            assert(es[pos as int].2 == entries@[pos as int].2@);
            assert(q[t as int].1 == pos);
            assert(images@[t as int]@ == es[pos as int].2);
            assert forall|j: int| 0 <= j < t + 1 implies ((#[trigger] q[j]).1 as int) < es.len()
                && images@[j]@ == es[q[j].1 as int].2 by {
                if j < t {
                    assert(images@[j] == old_images[j]);
                } else {
                    assert(images@[j]@ == es[q[t as int].1 as int].2);
                }
            }
            assert(gathered_upto(q, es, images@, t + 1));
        }
        t = t + 1;
    }
    proof {
        let imgs = Seq::new(images@.len(), |i: int| images@[i]@);
        assert(imgs.len() == q.len());
        assert(gathered_upto(q, es, images@, q.len() as int));
        assert forall|k: int| 0 <= k < q.len() implies 0 <= ((#[trigger] q[k]).1 as int)
            < es.len() && imgs[k] == es[q[k].1 as int].2 by {
            assert(imgs[k] == images@[k]@);
            assert(((q[k]).1 as int) < es.len() && images@[k]@ == es[q[k].1 as int].2);
        }
        assert(sorted_by_name(q));
        assert(q.to_multiset() == member_pairs(es).to_multiset());
        assert(imgs.len() == q.len());
        assert(pages_of_members(es, imgs));
    }
    images
}

} // verus!
