//! One decoded page on disk: its path and its pixel dimensions.
//!
//! A cache entry is created from the decoded bytes of a page.  The library
//! computes the entry's file path (the page index, zero-padded, inside the
//! container's cache directory) and reads the image's dimensions; the caller
//! performs the actual file write, and removes the file when the entry is
//! dropped at the end of the session.

use crate::exts::{ascii, SLASH};
use crate::imgmeta::{image_dims_of, read_dimensions};
use vstd::prelude::*;

verus! {

/// What a page shows on screen: either nothing renderable, a placeholder
/// while decoding, or a decoded image on disk with its dimensions.
pub enum ImageData {
    /// The page has no renderable content (a PDF page without an image).
    NoData,
    /// The page has not been decoded yet.
    Loading,
    /// The page is decoded: the file at `path` holds it, with the given
    /// pixel width and height.
    Loaded { path: Vec<u8>, width: u32, height: u32 },
}

/// Why a page could not be decoded.
#[derive(PartialEq, Eq, Structural, Clone, Copy, Debug)]
pub enum PageError {
    /// The entry is encrypted and the password is missing or wrong.
    NeedPassword,
    /// The bytes are not a recognizable image, or the container could not
    /// produce them.
    DecodeError,
}

/// The decimal digits of `n`, most significant first.
pub open spec fn dec_digits(n: nat) -> Seq<u8>
    decreases n,
{
    if n < 10 {
        seq![(48 + n) as u8]
    } else {
        dec_digits(n / 10).push((48 + n % 10) as u8)
    }
}

/// `s` left-padded with zeros to at least three digits.
pub open spec fn pad3(s: Seq<u8>) -> Seq<u8> {
    if s.len() >= 3 {
        s
    } else if s.len() == 2 {
        seq![48u8] + s
    } else {
        seq![48u8, 48u8] + s
    }
}

/// The file path of page `index` inside `dir`: the zero-padded index after
/// a `page_` prefix.
pub open spec fn page_path_of(dir: Seq<u8>, index: int) -> Seq<u8> {
    dir + seq![SLASH] + ascii("page_"@) + pad3(dec_digits(index as nat))
}

/// The decimal digits of `n`, as executable code.
pub fn dec_bytes(n: usize) -> (r: Vec<u8>)
    ensures
        r@ == dec_digits(n as nat),
        r@.len() >= 1,
    decreases n,
{
    if n < 10 {
        let mut v: Vec<u8> = Vec::new();
        v.push(48 + (n as u8));
        proof {
            assert(v@ =~= dec_digits(n as nat));
        }
        v
    } else {
        let mut v = dec_bytes(n / 10);
        v.push(48 + ((n % 10) as u8));
        v
    }
}

/// The file path of page `index` inside `dir`, as executable code.
pub fn page_path(dir: &[u8], index: usize) -> (r: Vec<u8>)
    ensures
        r@ == page_path_of(dir@, index as int),
{
    proof {
        reveal_strlit("page_");
    }
    let mut out: Vec<u8> = Vec::new();
    out.extend_from_slice(dir);
    out.push(SLASH);
    out.push(112);
    out.push(97);
    out.push(103);
    out.push(101);
    out.push(95);
    let digits = dec_bytes(index);
    if digits.len() == 1 {
        out.push(48);
        out.push(48);
    } else if digits.len() == 2 {
        out.push(48);
    }
    out.extend_from_slice(digits.as_slice());
    proof {
        assert(out@ =~= page_path_of(dir@, index as int));
    }
    out
}

/// One decoded page on disk.  The file at `path` holds the page's bytes for
/// the entry's whole lifetime; the caller removes it exactly once, when the
/// entry is torn down.
pub struct PageCache {
    path: Vec<u8>,
    width: u32,
    height: u32,
}

impl PageCache {
    /// The dimensions recorded in the entry.
    pub closed spec fn spec_dims(&self) -> (u32, u32) {
        (self.width, self.height)
    }

    /// The path recorded in the entry.
    pub closed spec fn spec_path(&self) -> Seq<u8> {
        self.path@
    }

    /// Builds the entry for a decoded page: reads the image's dimensions
    /// from `content` and takes ownership of `path`.  Fails when the bytes
    /// are not a readable image; the caller writes `content` to `path` only
    /// on success.
    pub fn new(content: &[u8], path: Vec<u8>) -> (r: Result<PageCache, PageError>)
        ensures
            r is Ok <==> image_dims_of(content@) is Some,
            r matches Ok(c) ==> {
                &&& c.spec_path() == path@
                &&& Some(c.spec_dims()) == image_dims_of(content@)
            },
            r matches Err(e) ==> e == PageError::DecodeError,
    {
        match read_dimensions(content) {
            Some((width, height)) => Ok(PageCache { path, width, height }),
            None => Err(PageError::DecodeError),
        }
    }

    /// The path of the entry's file.
    pub fn get_path(&self) -> (r: &Vec<u8>)
        ensures
            r@ == self.spec_path(),
    {
        &self.path
    }

    /// The display descriptor of the entry: its path and dimensions.
    pub fn get_data(&self) -> (r: ImageData)
        ensures
            r matches ImageData::Loaded { path, width, height } && path@ == self.spec_path()
                && (width, height) == self.spec_dims(),
    {
        ImageData::Loaded { path: self.path.clone(), width: self.width, height: self.height }
    }
}

/// Builds the cache entry for page `index` of a container cached in `dir`:
/// the entry's path is the page's numbered file inside `dir`.
pub fn write_cache(index: usize, content: &[u8], cache_dir: &[u8]) -> (r: Result<
    PageCache,
    PageError,
>)
    ensures
        r is Ok <==> image_dims_of(content@) is Some,
        r matches Ok(c) ==> {
            &&& c.spec_path() == page_path_of(cache_dir@, index as int)
            &&& Some(c.spec_dims()) == image_dims_of(content@)
        },
        r matches Err(e) ==> e == PageError::DecodeError,
{
    let path = page_path(cache_dir, index);
    PageCache::new(content, path)
}

} // verus!
