//! The epub backend.
//!
//! An epub file is a zip archive whose reading order comes from the
//! document, not from entry names: the backend walks the book's spine,
//! extracts the image references of each chapter's markup in document
//! order, normalizes them against the chapter's directory, and rebuilds
//! the underlying zip backend's page table in that order.

use crate::err::OpenError;
use crate::exts::{after_last, scan_after_last, SLASH};
use crate::ident::sha256_of;
use crate::zip_src::ZippedSource;
use vstd::prelude::*;

verus! {

/// A percent sign.
pub const PERCENT: u8 = 37;

/// Whether a byte is an ASCII hex digit.
pub open spec fn is_hex_digit(b: u8) -> bool {
    (48 <= b && b <= 57) || (65 <= b && b <= 70) || (97 <= b && b <= 102)
}

/// The value of an ASCII hex digit.
pub open spec fn hex_val(b: u8) -> u8 {
    if 48 <= b && b <= 57 {
        (b - 48) as u8
    } else if 65 <= b && b <= 70 {
        (b - 55) as u8
    } else {
        (b - 87) as u8
    }
}

/// Percent-decoding of a byte string: a `%` followed by two hex digits
/// becomes the byte they spell; any other `%` stays literal.
pub open spec fn pct_decoded(s: Seq<u8>) -> Seq<u8>
    decreases s.len(),
{
    if s.len() == 0 {
        Seq::empty()
    } else if s[0] == PERCENT && s.len() >= 3 && is_hex_digit(s[1]) && is_hex_digit(s[2]) {
        seq![(16 * hex_val(s[1]) + hex_val(s[2])) as u8] + pct_decoded(s.skip(3))
    } else {
        seq![s[0]] + pct_decoded(s.skip(1))
    }
}

/// Relies on urlencoding::decode_binary: decodes `%xx` escapes and keeps
/// any malformed escape literal, exactly as the decoding spec here says.
#[verifier::external_body]
fn pct_decode(s: &[u8]) -> (r: Vec<u8>)
    ensures
        r@ == pct_decoded(s@),
{
    urlencoding::decode_binary(s).into_owned()
}

/// What path cleaning yields for a byte string: redundant separators and
/// dot segments resolved; the result depends on the bytes alone.
pub uninterp spec fn cleaned_of(p: Seq<u8>) -> Seq<u8>;

/// Relies on path_clean::clean: resolves `.` and `..` segments and
/// redundant separators in the path, without touching the file system.
#[verifier::external_body]
fn clean_path(p: &[u8]) -> (r: Vec<u8>)
    ensures
        r@ == cleaned_of(p@),
{
    let s = String::from_utf8_lossy(p);
    let cleaned = path_clean::clean(s.as_ref());
    cleaned.to_string_lossy().into_owned().into_bytes()
}

/// The image references of a markup document, in document order: first
/// the sources of the image tags, then the references of the vector
/// image elements; the result depends on the markup alone.
pub uninterp spec fn img_refs_of(html: Seq<char>) -> Seq<Seq<u8>>;

/// Relies on scraper's Html::parse_document and Selector matching: the
/// `src` of every `img` element, then the `href` (or namespaced `href`)
/// of every `image` element, in document order.
#[verifier::external_body]
fn html_image_refs(html: &str) -> (r: Vec<Vec<u8>>)
    ensures
        Seq::new(r@.len(), |i: int| r@[i]@) == img_refs_of(html@),
{
    let dom = scraper::Html::parse_document(html);
    let mut out: Vec<Vec<u8>> = Vec::new();
    let img = scraper::Selector::parse("img").unwrap();
    for node in dom.select(&img) {
        if let Some(src) = node.value().attr("src") {
            out.push(src.as_bytes().to_vec());
        }
    }
    let svg = scraper::Selector::parse("image").unwrap();
    for node in dom.select(&svg) {
        if let Some(href) = node.value().attr("href").or_else(|| node.value().attr("xlink:href")) {
            out.push(href.as_bytes().to_vec());
        }
    }
    out
}

/// The chapters a byte string parses to as an epub book: walking the
/// spine in reading order, each chapter's archive path and markup — or
/// nothing when the bytes do not parse as a book.  The result depends
/// on the bytes alone.
pub uninterp spec fn epub_chapters_of(data: Seq<u8>) -> Option<Seq<(Seq<u8>, Seq<char>)>>;

/// The mathematical value of a chapter list.
pub open spec fn chapter_views(s: Seq<(Vec<u8>, String)>) -> Seq<(Seq<u8>, Seq<char>)> {
    s.map_values(|c: (Vec<u8>, String)| (c.0@, c.1@))
}

/// Relies on epub::doc::EpubDoc: from_reader parses the book, and the
/// walk over get_current_path, get_current_str and go_next visits the
/// spine once in reading order, skipping a chapter the book cannot
/// produce; it succeeds exactly when the bytes parse as a book.
#[verifier::external_body]
fn epub_chapters(data: Vec<u8>) -> (r: Result<Vec<(Vec<u8>, String)>, String>)
    ensures
        r matches Ok(v) ==> epub_chapters_of(data@) == Some(chapter_views(v@)),
        r is Err <==> epub_chapters_of(data@) is None,
{
    let mut doc = match epub::doc::EpubDoc::from_reader(std::io::Cursor::new(data)) {
        Ok(d) => d,
        Err(e) => return Err(format!("{}", e)),
    };
    let mut out: Vec<(Vec<u8>, String)> = Vec::new();
    loop {
        if let (Some(p), Some((html, _mime))) = (doc.get_current_path(), doc.get_current_str()) {
            out.push((p.to_string_lossy().into_owned().into_bytes(), html));
        }
        if !doc.go_next() {
            return Ok(out);
        }
    }
}

/// The chapter directory of a path: everything through the last `/`.
pub open spec fn parent_of(p: Seq<u8>) -> Seq<u8> {
    p.subrange(0, after_last(p, SLASH))
}

/// A reference joined onto a chapter directory: an absolute reference
/// stands alone, any other is appended to the directory.
pub open spec fn join_of(parent: Seq<u8>, child: Seq<u8>) -> Seq<u8> {
    if child.len() > 0 && child[0] == SLASH {
        child
    } else {
        parent + child
    }
}

/// The archive path an image reference denotes: the reference is
/// percent-decoded, joined onto the chapter's directory, and cleaned.
pub open spec fn normalized_of(src: Seq<u8>, base: Seq<u8>) -> Seq<u8> {
    cleaned_of(join_of(parent_of(base), pct_decoded(src)))
}

/// The image pages one chapter contributes: its markup's references in
/// document order, each normalized against the chapter's directory.
pub open spec fn chapter_pages_of(chapter: (Seq<u8>, Seq<char>)) -> Seq<Seq<u8>> {
    img_refs_of(chapter.1).map_values(|r: Seq<u8>| normalized_of(r, chapter.0))
}

/// The page order of the whole book: the pages of the first `n`
/// chapters, chapters in reading order.
pub open spec fn book_pages_upto(chapters: Seq<(Seq<u8>, Seq<char>)>, n: int) -> Seq<Seq<u8>>
    decreases n,
{
    if n <= 0 {
        Seq::empty()
    } else {
        book_pages_upto(chapters, n - 1) + chapter_pages_of(chapters[n - 1])
    }
}

/// The page order of the whole book: every chapter's pages, chapters in
/// reading order.
pub open spec fn book_pages_of(chapters: Seq<(Seq<u8>, Seq<char>)>) -> Seq<Seq<u8>> {
    book_pages_upto(chapters, chapters.len() as int)
}

/// The mathematical value of a collected path list.
pub open spec fn path_views(s: Seq<Vec<u8>>) -> Seq<Seq<u8>> {
    s.map_values(|v: Vec<u8>| v@)
}

/// The archive path an image reference denotes, as executable code.
pub fn normalize_src(src: &[u8], base: &[u8]) -> (r: Vec<u8>)
    ensures
        r@ == normalized_of(src@, base@),
{
    let decoded = pct_decode(src);
    let parent_end = crate::exts::copy_range(base, 0, scan_after_last(base, SLASH));
    let joined: Vec<u8> = if decoded.len() > 0 && decoded[0] == SLASH {
        decoded
    } else {
        let mut j = parent_end;
        j.extend_from_slice(decoded.as_slice());
        proof {
            assert(j@ =~= parent_of(base@) + pct_decoded(src@));
        }
        j
    };
    clean_path(joined.as_slice())
}

/// What a successfully opened epub page source guarantees: the zip
/// couplings and the fingerprint, with the page table's names exactly
/// the book's normalized image references in reading order.
pub open spec fn epub_source_spec(e: EpubSource, data: Seq<u8>) -> bool {
    &&& e.wf()
    &&& e.spec_sha256() == sha256_of(data)
    &&& crate::zip_src::zip_parse_of(data) == Some(
        crate::zip_src::zip_toc_of(e.spec_inner().spec_archive()),
    )
    &&& crate::zip_src::zip_bytes_of(e.spec_inner().spec_archive()) == data
    &&& e.spec_inner().spec_password() is None
    &&& epub_chapters_of(data) matches Some(ch) && {
        let pages = book_pages_of(ch);
        &&& e.spec_inner().table().len() == pages.len()
        &&& forall|k: int|
            0 <= k < pages.len() ==> (#[trigger] e.spec_inner().table()[k]).0 == pages[k]
    }
}

/// The epub backend: the underlying zip backend with its page table
/// rebuilt in the document's reading order.
pub struct EpubSource {
    inner: ZippedSource,
}

impl EpubSource {
    /// The underlying zip backend.
    pub closed spec fn spec_inner(&self) -> ZippedSource {
        self.inner
    }

    /// The fingerprint of the container's bytes.
    pub closed spec fn spec_sha256(&self) -> Seq<u8> {
        self.inner.spec_sha256()
    }

    /// The backend is well formed when its page table is.
    pub closed spec fn wf(&self) -> bool {
        self.inner.wf()
    }

    /// The number of pages: the number of image references the document
    /// walk collected.
    pub fn page_count(&self) -> (r: usize)
        requires
            self.wf(),
        ensures
            r == self.spec_inner().table().len(),
    {
        self.inner.page_count()
    }

    /// The fingerprint of the container's bytes.
    pub fn sha256(&self) -> (r: &[u8; 32])
        ensures
            r@ == self.spec_sha256(),
    {
        self.inner.sha256()
    }

    /// A new password candidate is never accepted: epub books are plain
    /// zip archives without entry encryption here.
    pub fn try_password(&mut self, _pwd: &[u8]) -> (r: bool)
        ensures
            r == false,
            *final(self) == *old(self),
    {
        false
    }

    /// Opens an epub book: walks the spine, collects each chapter's image
    /// references in document order, normalizes them against the
    /// chapter's directory, and rebuilds the zip page table in exactly
    /// that order.  Success is owed whenever the bytes parse as a book
    /// and open as an unencrypted zip; bytes that are no book are
    /// refused as invalid.
    pub fn new(data: Vec<u8>) -> (r: Result<EpubSource, OpenError>)
        ensures
            r matches Ok(e) ==> epub_source_spec(e, data@),
            epub_chapters_of(data@) is None ==> (r matches Err(er) && er is Invalid),
            epub_chapters_of(data@) is Some && crate::zip_src::zip_source_ready(
                data@,
                Option::<Seq<u8>>::None,
            ) ==> r is Ok,
    {
        let chapters = match epub_chapters(data.clone()) {
            Ok(c) => c,
            Err(m) => {
                return Err(OpenError::Invalid(m));
            },
        };
        let ghost ch = chapter_views(chapters@);
        let mut img_paths: Vec<Vec<u8>> = Vec::new();
        let mut i: usize = 0;
        proof {
            assert(path_views(img_paths@) =~= book_pages_upto(ch, 0));
        }
        while i < chapters.len()
            invariant
                ch == chapter_views(chapters@),
                i <= chapters@.len(),
                path_views(img_paths@) =~= book_pages_upto(ch, i as int),
            decreases chapters@.len() - i,
        {
            let refs = html_image_refs(chapters[i].1.as_str());
            proof {
                assert(ch[i as int].1 == chapters@[i as int].1@);
                assert(ch[i as int].0 == chapters@[i as int].0@);
                assert(Seq::new(refs@.len(), |j: int| refs@[j]@) == img_refs_of(ch[i as int].1));
            }
            let mut k: usize = 0;
            while k < refs.len()
                invariant
                    ch == chapter_views(chapters@),
                    i < chapters@.len(),
                    ch[i as int].1 == chapters@[i as int].1@,
                    ch[i as int].0 == chapters@[i as int].0@,
                    Seq::new(refs@.len(), |j: int| refs@[j]@) == img_refs_of(ch[i as int].1),
                    k <= refs@.len(),
                    path_views(img_paths@) =~= book_pages_upto(ch, i as int)
                        + chapter_pages_of(ch[i as int]).subrange(0, k as int),
                decreases refs@.len() - k,
            {
                let path = normalize_src(refs[k].as_slice(), chapters[i].0.as_slice());
                proof {
                    assert(img_refs_of(ch[i as int].1)[k as int] == refs@[k as int]@);
                    assert(chapter_pages_of(ch[i as int])[k as int] == normalized_of(
                        refs@[k as int]@,
                        ch[i as int].0,
                    ));
                }
                let ghost pre = img_paths@;
                let ghost pv = path@;
                img_paths.push(path);
                proof {
                    let cp = chapter_pages_of(ch[i as int]);
                    assert(pv == cp[k as int]);
                    assert(path_views(img_paths@) =~= path_views(pre).push(pv));
                    assert(cp.subrange(0, k + 1 as int) =~= cp.subrange(0, k as int).push(
                        cp[k as int],
                    ));
                    assert(path_views(img_paths@) =~= book_pages_upto(ch, i as int)
                        + cp.subrange(0, k + 1 as int));
                }
                k = k + 1;
            }
            proof {
                assert(chapter_pages_of(ch[i as int]).subrange(
                    0,
                    chapter_pages_of(ch[i as int]).len() as int,
                ) =~= chapter_pages_of(ch[i as int]));
                assert(path_views(img_paths@) =~= book_pages_upto(ch, i + 1 as int));
            }
            i = i + 1;
        }
        proof {
            assert(book_pages_upto(ch, ch.len() as int) == book_pages_of(ch));
        }
        let mut inner = match ZippedSource::new(data, None) {
            Ok(z) => z,
            Err(e) => {
                return Err(e);
            },
        };
        inner.rebuild_indice_table(img_paths);
        Ok(EpubSource { inner })
    }

    /// The bytes of page `index`, read from the zip entry the document's
    /// reading order assigned to that page: exactly the entry-read value
    /// of that entry, with success exactly when it exists.  An index at
    /// or past the page count yields an empty result; a reference that
    /// resolved to no archive entry fails as an unresolved page, with a
    /// decode error.
    pub fn get_page_bytes(&mut self, index: usize) -> (r: Result<
        Vec<u8>,
        crate::cache::PageError,
    >)
        requires
            old(self).wf(),
        ensures
            final(self).wf(),
            final(self).spec_sha256() == old(self).spec_sha256(),
            final(self).spec_inner().table() == old(self).spec_inner().table(),
            final(self).spec_inner().spec_password() == old(self).spec_inner().spec_password(),
            crate::zip_src::zip_bytes_of(final(self).spec_inner().spec_archive())
                == crate::zip_src::zip_bytes_of(old(self).spec_inner().spec_archive()),
            crate::zip_src::zip_toc_of(final(self).spec_inner().spec_archive())
                == crate::zip_src::zip_toc_of(old(self).spec_inner().spec_archive()),
            index >= old(self).spec_inner().table().len() ==> (r matches Ok(b) && b@
                == Seq::<u8>::empty()),
            index < old(self).spec_inner().table().len() ==> {
                &&& (r is Ok <==> crate::zip_src::zip_entry_read_of(
                    crate::zip_src::zip_bytes_of(old(self).spec_inner().spec_archive()),
                    old(self).spec_inner().table()[index as int].1 as int,
                    old(self).spec_inner().spec_password(),
                ) is Some)
                &&& (r matches Ok(b) ==> Some(b@) == crate::zip_src::zip_entry_read_of(
                    crate::zip_src::zip_bytes_of(old(self).spec_inner().spec_archive()),
                    old(self).spec_inner().table()[index as int].1 as int,
                    old(self).spec_inner().spec_password(),
                ))
            },
    {
        match self.inner.get_page_bytes(index) {
            Ok(b) => Ok(b),
            Err(e) => Err(e),
        }
    }
}

} // verus!
