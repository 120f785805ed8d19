//! One paginated source of images over every container format.
//!
//! The opener inspects the container's name (or sees a directory),
//! constructs the matching backend, and the rest of the library speaks to
//! the closed set of backends through one enum.

use crate::cache::PageError;
use crate::dir_src::{dir_source_spec, DirectorySource};
use crate::epub_src::{epub_chapters_of, epub_source_spec, EpubSource};
use crate::err::{pwd_view, OpenError};
use crate::exts::{ascii, extension_of, lower_bytes, scan_after_last, copy_range, lower_vec, bytes_eq, DOT, SLASH};
use crate::mobi_src::{mobi_records_of, mobi_source_spec, MobiSource};
use crate::pdf_src::{pdf_image_heights_of, pdf_parse_of, pdf_source_spec, PdfSource};
use crate::sevenz_src::{
    sevenz_opens, sevenz_solid_of, sevenz_source_spec, sevenz_toc_of, sevenz_wants_password,
    SevenzSource,
};
use crate::tar_src::{spec_plain_of, tar_entries_of, tar_source_spec, TarCompression, TarSource};
use crate::zip_src::{zip_parse_of, zip_source_ready, zip_source_spec, ZippedSource};
use vstd::prelude::*;

verus! {

/// The container formats the opener recognizes, selected by extension.
#[derive(PartialEq, Eq, Structural, Clone, Copy, Debug)]
pub enum ContainerFormat {
    /// A zip or cbz archive.
    Zip,
    /// An epub book.
    Epub,
    /// A 7z archive.
    SevenZ,
    /// A pdf document.
    Pdf,
    /// A mobi book.
    Mobi,
    /// A tar archive, with its compression filter.
    Tar(TarCompression),
    /// No recognized extension.
    Unsupported,
}

/// The format a file name selects: its extension, lowercased, decides.
pub open spec fn format_of(name: Seq<u8>) -> ContainerFormat {
    match extension_of(name) {
        None => ContainerFormat::Unsupported,
        Some(e) => {
            let l = lower_bytes(e);
            if l == ascii("zip"@) || l == ascii("cbz"@) {
                ContainerFormat::Zip
            } else if l == ascii("epub"@) {
                ContainerFormat::Epub
            } else if l == ascii("7z"@) {
                ContainerFormat::SevenZ
            } else if l == ascii("pdf"@) {
                ContainerFormat::Pdf
            } else if l == ascii("mobi"@) {
                ContainerFormat::Mobi
            } else if l == ascii("tar"@) {
                ContainerFormat::Tar(TarCompression::Plain)
            } else if l == ascii("xz"@) {
                ContainerFormat::Tar(TarCompression::Xz)
            } else if l == ascii("gz"@) {
                ContainerFormat::Tar(TarCompression::Gz)
            } else if l == ascii("bz2"@) {
                ContainerFormat::Tar(TarCompression::Bz2)
            } else {
                ContainerFormat::Unsupported
            }
        },
    }
}

/// A small literal as a byte vector.
fn lit2(a: u8, b: u8) -> (r: Vec<u8>)
    ensures
        r@ == seq![a, b],
{
    let mut v: Vec<u8> = Vec::new();
    v.push(a);
    v.push(b);
    proof {
        assert(v@ =~= seq![a, b]);
    }
    v
}

/// A small literal as a byte vector.
fn lit3(a: u8, b: u8, c: u8) -> (r: Vec<u8>)
    ensures
        r@ == seq![a, b, c],
{
    let mut v = lit2(a, b);
    v.push(c);
    proof {
        assert(v@ =~= seq![a, b, c]);
    }
    v
}

/// A small literal as a byte vector.
fn lit4(a: u8, b: u8, c: u8, d: u8) -> (r: Vec<u8>)
    ensures
        r@ == seq![a, b, c, d],
{
    let mut v = lit3(a, b, c);
    v.push(d);
    proof {
        assert(v@ =~= seq![a, b, c, d]);
    }
    v
}

/// The format a file name selects, as executable code.
pub fn detect_format(name: &[u8]) -> (r: ContainerFormat)
    ensures
        r == format_of(name@),
{
    proof {
        reveal_strlit("zip");
        reveal_strlit("cbz");
        reveal_strlit("epub");
        reveal_strlit("7z");
        reveal_strlit("pdf");
        reveal_strlit("mobi");
        reveal_strlit("tar");
        reveal_strlit("xz");
        reveal_strlit("gz");
        reveal_strlit("bz2");
    }
    let fs = scan_after_last(name, SLASH);
    let fname = copy_range(name, fs, name.len());
    let d = scan_after_last(fname.as_slice(), DOT);
    if d <= 1 {
        return ContainerFormat::Unsupported;
    }
    let ext = copy_range(fname.as_slice(), d, fname.len());
    let l = lower_vec(ext.as_slice());
    proof {
        assert(seq![122u8, 105u8, 112u8] =~= ascii("zip"@));
        assert(seq![99u8, 98u8, 122u8] =~= ascii("cbz"@));
        assert(seq![101u8, 112u8, 117u8, 98u8] =~= ascii("epub"@));
        assert(seq![55u8, 122u8] =~= ascii("7z"@));
        assert(seq![112u8, 100u8, 102u8] =~= ascii("pdf"@));
        assert(seq![109u8, 111u8, 98u8, 105u8] =~= ascii("mobi"@));
        assert(seq![116u8, 97u8, 114u8] =~= ascii("tar"@));
        assert(seq![120u8, 122u8] =~= ascii("xz"@));
        assert(seq![103u8, 122u8] =~= ascii("gz"@));
        assert(seq![98u8, 122u8, 50u8] =~= ascii("bz2"@));
    }
    let e = l.as_slice();
    if bytes_eq(e, lit3(122, 105, 112).as_slice()) {
        ContainerFormat::Zip
    } else if bytes_eq(e, lit3(99, 98, 122).as_slice()) {
        ContainerFormat::Zip
    } else if bytes_eq(e, lit4(101, 112, 117, 98).as_slice()) {
        ContainerFormat::Epub
    } else if bytes_eq(e, lit2(55, 122).as_slice()) {
        ContainerFormat::SevenZ
    } else if bytes_eq(e, lit3(112, 100, 102).as_slice()) {
        ContainerFormat::Pdf
    } else if bytes_eq(e, lit4(109, 111, 98, 105).as_slice()) {
        ContainerFormat::Mobi
    } else if bytes_eq(e, lit3(116, 97, 114).as_slice()) {
        ContainerFormat::Tar(TarCompression::Plain)
    } else if bytes_eq(e, lit2(120, 122).as_slice()) {
        ContainerFormat::Tar(TarCompression::Xz)
    } else if bytes_eq(e, lit2(103, 122).as_slice()) {
        ContainerFormat::Tar(TarCompression::Gz)
    } else if bytes_eq(e, lit3(98, 122, 50).as_slice()) {
        ContainerFormat::Tar(TarCompression::Bz2)
    } else {
        ContainerFormat::Unsupported
    }
}

/// What a backend hands back for one page: the decoded bytes themselves,
/// or the path of a file that holds them (the directory backend reads
/// nothing itself), or nothing renderable.
pub enum PageData {
    /// The page's bytes, decoded into memory.
    Bytes(Vec<u8>),
    /// The file whose content is the page; the caller reads it.
    File(Vec<u8>),
}

/// The source of an empty reader: no container is open.
pub struct NoSource;

impl NoSource {
    /// An empty source has no pages.
    pub fn page_count(&self) -> (r: usize)
        ensures
            r == 0,
    {
        0
    }

    /// The fingerprint of no container: all zeros.
    pub fn sha256(&self) -> (r: [u8; 32])
        ensures
            r@ == Seq::new(32, |i: int| 0u8),
    {
        let z: [u8; 32] = [0; 32];
        proof {
            assert(z@ =~= Seq::new(32, |i: int| 0u8));
        }
        z
    }

    /// An empty source yields empty pages.
    pub fn get_page_bytes(&self, _index: usize) -> (r: Vec<u8>)
        ensures
            r@ == Seq::<u8>::empty(),
    {
        Vec::new()
    }
}

/// The paginated source: one of the format backends, or nothing.
pub enum Source {
    /// No container is open.
    Empty,
    /// A zip or cbz archive.
    Zip(ZippedSource),
    /// A 7z archive.
    SevenZip(SevenzSource),
    /// A pdf document.
    Pdf(PdfSource),
    /// An epub book.
    Epub(EpubSource),
    /// A tar archive.
    Tar(TarSource),
    /// A mobi book.
    Mobi(MobiSource),
    /// A plain directory of image files.
    Directory(DirectorySource),
}

impl Source {
    /// The backend's page table is well formed.
    pub open spec fn wf(&self) -> bool {
        match self {
            Source::Zip(z) => z.wf(),
            Source::Epub(e) => e.wf(),
            _ => true,
        }
    }

    /// The number of pages the source holds, as a mathematical value.
    pub open spec fn spec_page_count(&self) -> nat {
        match self {
            Source::Empty => 0,
            Source::Zip(z) => z.table().len(),
            Source::SevenZip(s) => s.spec_names().len(),
            Source::Pdf(p) => pdf_image_heights_of(p.spec_pdf()).len(),
            Source::Epub(e) => e.spec_inner().table().len(),
            Source::Tar(t) => t.spec_images().len(),
            Source::Mobi(m) => m.spec_images().len(),
            Source::Directory(d) => d.spec_names().len(),
        }
    }

    /// The container's fingerprint, as a mathematical value.
    pub open spec fn spec_sha256(&self) -> Seq<u8> {
        match self {
            Source::Empty => Seq::new(32, |i: int| 0u8),
            Source::Zip(z) => z.spec_sha256(),
            Source::SevenZip(s) => s.spec_sha256(),
            Source::Pdf(p) => p.spec_sha256(),
            Source::Epub(e) => e.spec_sha256(),
            Source::Tar(t) => t.spec_sha256(),
            Source::Mobi(m) => m.spec_sha256(),
            Source::Directory(d) => d.spec_sha256(),
        }
    }

    /// Whether the source cannot serve pages in arbitrary order: only a
    /// solid 7z archive reports that.
    pub open spec fn spec_is_solid(&self) -> bool {
        match self {
            Source::SevenZip(s) => sevenz_solid_of(s.spec_archive()),
            _ => false,
        }
    }

    /// The number of pages; stable after construction, as the backends
    /// never change their page tables.
    pub fn page_count(&self) -> (r: usize)
        requires
            self.wf(),
        ensures
            r == self.spec_page_count(),
    {
        match self {
            Source::Empty => 0,
            Source::Zip(z) => z.page_count(),
            Source::SevenZip(s) => s.page_count(),
            Source::Pdf(p) => p.page_count(),
            Source::Epub(e) => e.page_count(),
            Source::Tar(t) => t.page_count(),
            Source::Mobi(m) => m.page_count(),
            Source::Directory(d) => d.page_count(),
        }
    }

    /// The container's fingerprint.
    pub fn sha256(&self) -> (r: [u8; 32])
        ensures
            r@ == self.spec_sha256(),
    {
        match self {
            Source::Empty => {
                let z: [u8; 32] = [0; 32];
                proof {
                    assert(z@ =~= Seq::new(32, |i: int| 0u8));
                }
                z
            },
            Source::Zip(z) => *z.sha256(),
            Source::SevenZip(s) => *s.sha256(),
            Source::Pdf(p) => *p.sha256(),
            Source::Epub(e) => *e.sha256(),
            Source::Tar(t) => *t.sha256(),
            Source::Mobi(m) => *m.sha256(),
            Source::Directory(d) => *d.sha256(),
        }
    }

    /// Whether the source can only be drained in one forward pass.
    pub fn is_solid(&self) -> (r: bool)
        ensures
            r == self.spec_is_solid(),
    {
        match self {
            Source::SevenZip(s) => s.is_solid(),
            _ => false,
        }
    }

    /// One page's data.  An index at or past the page count yields empty
    /// bytes rather than an error; a per-page decode failure is an error
    /// the caller records without aborting anything else.  What the bytes
    /// are is each backend's contract, relayed here variant by variant.
    pub fn get_page_bytes(&mut self, index: usize) -> (r: Result<PageData, PageError>)
        requires
            old(self).wf(),
        ensures
            final(self).wf(),
            final(self).spec_page_count() == old(self).spec_page_count(),
            final(self).spec_sha256() == old(self).spec_sha256(),
            final(self).spec_is_solid() == old(self).spec_is_solid(),
            index >= old(self).spec_page_count() ==> (r matches Ok(d) && (
            d matches PageData::Bytes(b) ==> b@ == Seq::<u8>::empty())),
            match *old(self) {
                Source::Empty => r matches Ok(PageData::Bytes(b)) && b@ == Seq::<u8>::empty(),
                Source::Zip(z) => index < z.table().len() ==> {
                    &&& (r is Ok <==> crate::zip_src::zip_entry_read_of(
                        crate::zip_src::zip_bytes_of(z.spec_archive()),
                        z.table()[index as int].1 as int,
                        z.spec_password(),
                    ) is Some)
                    &&& (r matches Ok(PageData::Bytes(b)) ==> Some(b@)
                        == crate::zip_src::zip_entry_read_of(
                        crate::zip_src::zip_bytes_of(z.spec_archive()),
                        z.table()[index as int].1 as int,
                        z.spec_password(),
                    ))
                },
                Source::Tar(t) => index < t.spec_images().len() ==> (r matches Ok(
                    PageData::Bytes(b),
                ) && b@ == t.spec_images()[index as int]),
                Source::Mobi(m) => index < m.spec_images().len() ==> (r matches Ok(
                    PageData::Bytes(b),
                ) && b@ == m.spec_images()[index as int]),
                Source::Directory(d) => index < d.spec_names().len() ==> (r matches Ok(
                    PageData::File(p),
                ) && p@ == d.spec_dir() + seq![crate::exts::SLASH] + d.spec_names()[
                    index as int
                ]),
                Source::SevenZip(s) => index < s.spec_names().len() ==> {
                    &&& (r is Ok <==> crate::sevenz_src::sevenz_entry_read_of(
                        crate::sevenz_src::sevenz_bytes_of(s.spec_archive()),
                        crate::sevenz_src::sevenz_pwd_of(s.spec_archive()),
                        s.spec_names()[index as int],
                    ) is Some)
                    &&& (r matches Ok(PageData::Bytes(b)) ==> Some(b@)
                        == crate::sevenz_src::sevenz_entry_read_of(
                        crate::sevenz_src::sevenz_bytes_of(s.spec_archive()),
                        crate::sevenz_src::sevenz_pwd_of(s.spec_archive()),
                        s.spec_names()[index as int],
                    ))
                },
                Source::Pdf(p) => {
                    let heights = crate::pdf_src::pdf_image_heights_of(p.spec_pdf());
                    &&& (index < heights.len() && heights[index as int].len() == 0 ==> (
                    r matches Ok(PageData::Bytes(b)) && b@ == Seq::<u8>::empty()))
                    &&& (index < heights.len() && heights[index as int].len() > 0 ==> {
                        let th = crate::pdf_src::target_height_of(heights[index as int]);
                        &&& (r is Ok <==> crate::pdf_src::pdf_page_png_of(
                            p.spec_pdf(),
                            index as int,
                            th,
                        ) is Some)
                        &&& (r matches Ok(PageData::Bytes(b)) ==> Some(b@)
                            == crate::pdf_src::pdf_page_png_of(p.spec_pdf(), index as int, th))
                    })
                },
                Source::Epub(e) => index < e.spec_inner().table().len() ==> {
                    &&& (r is Ok <==> crate::zip_src::zip_entry_read_of(
                        crate::zip_src::zip_bytes_of(e.spec_inner().spec_archive()),
                        e.spec_inner().table()[index as int].1 as int,
                        e.spec_inner().spec_password(),
                    ) is Some)
                    &&& (r matches Ok(PageData::Bytes(b)) ==> Some(b@)
                        == crate::zip_src::zip_entry_read_of(
                        crate::zip_src::zip_bytes_of(e.spec_inner().spec_archive()),
                        e.spec_inner().table()[index as int].1 as int,
                        e.spec_inner().spec_password(),
                    ))
                },
            },
    {
        match self {
            Source::Empty => Ok(PageData::Bytes(Vec::new())),
            Source::Zip(z) => match z.get_page_bytes(index) {
                Ok(b) => Ok(PageData::Bytes(b)),
                Err(e) => Err(e),
            },
            Source::SevenZip(s) => match s.get_page_bytes(index) {
                Ok(b) => Ok(PageData::Bytes(b)),
                Err(e) => Err(e),
            },
            Source::Pdf(p) => match p.get_page_bytes(index) {
                Ok(b) => Ok(PageData::Bytes(b)),
                Err(e) => Err(e),
            },
            Source::Epub(e) => match e.get_page_bytes(index) {
                Ok(b) => Ok(PageData::Bytes(b)),
                Err(er) => Err(er),
            },
            Source::Tar(t) => Ok(PageData::Bytes(t.get_page_bytes(index))),
            Source::Mobi(m) => Ok(PageData::Bytes(m.get_page_bytes(index))),
            Source::Directory(d) => match d.page_file_path(index) {
                Some(p) => Ok(PageData::File(p)),
                None => Ok(PageData::Bytes(Vec::new())),
            },
        }
    }
}

/// What the caller hands the opener: the bytes of a container file, or a
/// directory's path and the file names found in it.
pub enum ContainerInput {
    /// A container file, read fully into memory.
    File(Vec<u8>),
    /// A directory: its path and the names of the files inside it.
    Directory { dir_path: Vec<u8>, file_names: Vec<Vec<u8>> },
}

/// Opens the matching backend for a container.  A directory always takes
/// the directory backend; a file dispatches on its extension and fails
/// with the unsupported-format error when no known extension matches.
pub fn create_source(path_name: &[u8], input: ContainerInput, password: Option<Vec<u8>>) -> (r:
    Result<Source, OpenError>)
    ensures
        r matches Ok(s) ==> s.wf(),
        match input {
            ContainerInput::Directory { dir_path, file_names } => r matches Ok(s) && (
            s matches Source::Directory(d) && dir_source_spec(
                d,
                dir_path@,
                Seq::new(file_names@.len(), |i: int| file_names@[i]@),
            )),
            ContainerInput::File(data) => match format_of(path_name@) {
                ContainerFormat::Zip => {
                    &&& (r matches Ok(s) ==> (s matches Source::Zip(z) && zip_source_spec(
                        z,
                        data@,
                        pwd_view(password),
                    )))
                    &&& (zip_source_ready(data@, pwd_view(password)) ==> r is Ok)
                    &&& ((r matches Err(e) && e is NeedPassword) ==> (zip_parse_of(data@)
                        matches Some(toc) && exists|j: int|
                        0 <= j < toc.len() && (#[trigger] toc[j]).2))
                    &&& (zip_parse_of(data@) is None ==> (r matches Err(e) && e is Invalid))
                },
                ContainerFormat::Epub => {
                    &&& (r matches Ok(s) ==> (s matches Source::Epub(e) && epub_source_spec(
                        e,
                        data@,
                    )))
                    &&& (epub_chapters_of(data@) is Some && zip_source_ready(
                        data@,
                        Option::<Seq<u8>>::None,
                    ) ==> r is Ok)
                    &&& (epub_chapters_of(data@) is None ==> (r matches Err(e) && e is Invalid))
                },
                ContainerFormat::SevenZ => {
                    &&& (r matches Ok(s) ==> (s matches Source::SevenZip(z)
                        && sevenz_source_spec(z, data@, pwd_view(password))))
                    &&& (sevenz_opens(data@, pwd_view(password)) ==> r is Ok)
                    &&& ((r matches Err(e) && e is NeedPassword) <==> sevenz_wants_password(
                        data@,
                        pwd_view(password),
                    ))
                },
                ContainerFormat::Pdf => {
                    &&& (r matches Ok(s) ==> (s matches Source::Pdf(p) && pdf_source_spec(
                        p,
                        data@,
                    )))
                    &&& (r is Ok <==> pdf_parse_of(data@) is Some)
                },
                ContainerFormat::Mobi => {
                    &&& (r matches Ok(s) ==> (s matches Source::Mobi(m) && mobi_source_spec(
                        m,
                        data@,
                    )))
                    &&& (r is Ok <==> mobi_records_of(data@) is Some)
                },
                ContainerFormat::Tar(c) => {
                    &&& (r matches Ok(s) ==> (s matches Source::Tar(t) && tar_source_spec(
                        t,
                        data@,
                        c,
                    )))
                    &&& (r is Ok <==> (spec_plain_of(c, data@) matches Some(p)
                        && tar_entries_of(p) is Some))
                },
                ContainerFormat::Unsupported => r matches Err(e) && e is UnsupportedFormat,
            },
        },
{
    match input {
        ContainerInput::Directory { dir_path, file_names } => {
            Ok(Source::Directory(DirectorySource::new(dir_path, file_names)))
        },
        ContainerInput::File(data) => {
            match detect_format(path_name) {
                ContainerFormat::Zip => match ZippedSource::new(data, password) {
                    Ok(z) => Ok(Source::Zip(z)),
                    Err(e) => Err(e),
                },
                ContainerFormat::Epub => match EpubSource::new(data) {
                    Ok(e) => Ok(Source::Epub(e)),
                    Err(e) => Err(e),
                },
                ContainerFormat::SevenZ => match SevenzSource::new(data, password) {
                    Ok(s) => Ok(Source::SevenZip(s)),
                    Err(e) => Err(e),
                },
                ContainerFormat::Pdf => match PdfSource::new(data) {
                    Ok(p) => Ok(Source::Pdf(p)),
                    Err(e) => Err(e),
                },
                ContainerFormat::Mobi => match MobiSource::new(data) {
                    Ok(m) => Ok(Source::Mobi(m)),
                    Err(e) => Err(e),
                },
                ContainerFormat::Tar(c) => match TarSource::new(data, c) {
                    Ok(t) => Ok(Source::Tar(t)),
                    Err(e) => Err(e),
                },
                ContainerFormat::Unsupported => Err(OpenError::UnsupportedFormat),
            }
        },
    }
}

} // verus!
