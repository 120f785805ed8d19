//! The directory backend.
//!
//! A plain directory of image files is a container too.  The caller
//! enumerates the directory once and hands the file names over; the
//! backend keeps the image names sorted, and serves each page as the path
//! of its file, which the caller reads on demand.  The identity is the
//! hash of the sorted names run together, since a directory has no single
//! byte stream to fingerprint.

use crate::exts::{check_valid_ext, valid_image_name, SLASH};
use crate::ident::{sha256_digest, sha256_of};
use crate::order::{lex_le, pair_views, sort_pairs};
use vstd::prelude::*;

verus! {

/// The `(name, position)` pairs of the image names among the first `n`
/// given names, in given order.
pub open spec fn dir_pairs_upto(names: Seq<Seq<u8>>, n: int) -> Seq<(Seq<u8>, usize)>
    decreases n,
{
    if n <= 0 {
        Seq::empty()
    } else {
        let p = dir_pairs_upto(names, n - 1);
        if valid_image_name(names[n - 1]) {
            p.push((names[n - 1], (n - 1) as usize))
        } else {
            p
        }
    }
}

/// The `(name, position)` pairs of all image names among the given ones.
pub open spec fn dir_pairs(names: Seq<Seq<u8>>) -> Seq<(Seq<u8>, usize)> {
    dir_pairs_upto(names, names.len() as int)
}

/// The given byte strings run together, in order.
pub open spec fn concat_of(s: Seq<Seq<u8>>) -> Seq<u8>
    decreases s.len(),
{
    if s.len() == 0 {
        Seq::empty()
    } else {
        concat_of(s.drop_last()) + s.last()
    }
}

/// What a directory page source guarantees: the directory path, the
/// page table as exactly the image names among the given ones sorted,
/// and the fingerprint of the sorted names run together.
pub open spec fn dir_source_spec(d: DirectorySource, dir_path: Seq<u8>, names: Seq<Seq<u8>>) -> bool {
    &&& d.spec_dir() == dir_path
    &&& (forall|i: int, j: int|
        0 <= i < j < d.spec_names().len() ==> lex_le(d.spec_names()[i], d.spec_names()[j]))
    &&& d.spec_names().to_multiset() == dir_pairs(names).map_values(
        |p: (Seq<u8>, usize)| p.0,
    ).to_multiset()
    &&& d.spec_sha256() == sha256_of(concat_of(d.spec_names()))
}

/// The directory backend: the source directory, the sorted image names,
/// and the fingerprint of the name list.
pub struct DirectorySource {
    sha256: [u8; 32],
    source_dir: Vec<u8>,
    img_names: Vec<Vec<u8>>,
}

impl DirectorySource {
    /// The fingerprint of the sorted name list.
    pub closed spec fn spec_sha256(&self) -> Seq<u8> {
        self.sha256@
    }

    /// The page table: the sorted image names.
    pub closed spec fn spec_names(&self) -> Seq<Seq<u8>> {
        Seq::new(self.img_names@.len(), |i: int| self.img_names@[i]@)
    }

    /// The directory the names live in.
    pub closed spec fn spec_dir(&self) -> Seq<u8> {
        self.source_dir@
    }

    /// The number of pages.
    pub fn page_count(&self) -> (r: usize)
        ensures
            r == self.spec_names().len(),
    {
        self.img_names.len()
    }

    /// The fingerprint of the sorted name list.
    pub fn sha256(&self) -> (r: &[u8; 32])
        ensures
            r@ == self.spec_sha256(),
    {
        &self.sha256
    }

    /// Builds the backend from a directory path and the file names found
    /// in it.  The page table holds exactly the image names among them,
    /// sorted; the identity is the hash of those sorted names run
    /// together, so it is stable across the directory's path.
    pub fn new(dir_path: Vec<u8>, file_names: Vec<Vec<u8>>) -> (r: DirectorySource)
        ensures
            dir_source_spec(r, dir_path@, Seq::new(file_names@.len(), |i: int| file_names@[i]@)),
    {
        let ghost given = Seq::new(file_names@.len(), |i: int| file_names@[i]@);
        let mut pairs: Vec<(Vec<u8>, usize)> = Vec::new();
        let mut k: usize = 0;
        proof {
            assert(pair_views(pairs@) =~= dir_pairs_upto(given, 0));
        }
        while k < file_names.len()
            invariant
                given == Seq::new(file_names@.len(), |i: int| file_names@[i]@),
                k <= file_names@.len(),
                pair_views(pairs@) =~= dir_pairs_upto(given, k as int),
            decreases file_names@.len() - k,
        {
            if check_valid_ext(file_names[k].as_slice()) {
                let name = file_names[k].clone();
                pairs.push((name, k));
            }
            proof {
                assert(given[k as int] == file_names@[k as int]@);
                assert(pair_views(pairs@) =~= dir_pairs_upto(given, k + 1 as int));
            }
            k = k + 1;
        }
        let sorted = sort_pairs(pairs);
        let mut img_names: Vec<Vec<u8>> = Vec::new();
        let mut cat: Vec<u8> = Vec::new();
        let mut t: usize = 0;
        proof {
            assert(concat_of(Seq::<Seq<u8>>::empty()) =~= Seq::<u8>::empty());
        }
        while t < sorted.len()
            invariant
                t <= sorted@.len(),
                img_names@.len() == t,
                forall|j: int| 0 <= j < t ==> (#[trigger] img_names@[j])@ == pair_views(
                    sorted@,
                )[j].0,
                cat@ == concat_of(Seq::new(t as nat, |i: int| img_names@[i]@)),
            decreases sorted@.len() - t,
        {
            let name = sorted[t].0.clone();
            let ghost pre = img_names@;
            cat.extend_from_slice(name.as_slice());
            img_names.push(name);
            proof {
                let ns = Seq::new((t + 1) as nat, |i: int| img_names@[i]@);
                assert(ns.drop_last() =~= Seq::new(t as nat, |i: int| pre[i]@));
                assert(ns.last() == img_names@[t as int]@);
                assert(concat_of(ns.drop_last()) == concat_of(Seq::new(t as nat, |i: int| pre[i]@)));
                assert(cat@ =~= concat_of(ns.drop_last()) + ns.last());
            }
            t = t + 1;
        }
        let sha256 = sha256_digest(cat.as_slice());
        let source = DirectorySource { sha256, source_dir: dir_path, img_names };
        proof {
            let q = pair_views(sorted@);
            assert(source.spec_names() =~= q.map_values(|p: (Seq<u8>, usize)| p.0));
            assert forall|i: int, j: int|
                0 <= i < j < source.spec_names().len() implies lex_le(
                source.spec_names()[i],
                source.spec_names()[j],
            ) by {
                assert(source.spec_names()[i] == q[i].0);
                assert(source.spec_names()[j] == q[j].0);
            }
            crate::order::lemma_map_multiset(q, dir_pairs(given), |p: (Seq<u8>, usize)| p.0);
            assert(Seq::new(source.spec_names().len(), |i: int| source.spec_names()[i])
                =~= source.spec_names());
        }
        source
    }

    /// The full path of page `index`: the file's name inside the source
    /// directory.  The caller reads that file to obtain the page bytes.
    pub fn page_file_path(&self, index: usize) -> (r: Option<Vec<u8>>)
        ensures
            index < self.spec_names().len() ==> (r matches Some(p) && p@ == self.spec_dir()
                + seq![SLASH] + self.spec_names()[index as int]),
            index >= self.spec_names().len() ==> r is None,
    {
        if index >= self.img_names.len() {
            return None;
        }
        let mut out: Vec<u8> = Vec::new();
        out.extend_from_slice(self.source_dir.as_slice());
        out.push(SLASH);
        out.extend_from_slice(self.img_names[index].as_slice());
        proof {
            assert(out@ =~= self.spec_dir() + seq![SLASH] + self.spec_names()[index as int]);
        }
        Some(out)
    }
}

} // verus!
