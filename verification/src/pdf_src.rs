//! The pdf backend.
//!
//! A pdf page is not itself an image: the backend rasterizes the page and
//! hands back PNG bytes.  The raster height is taken from the tallest
//! image embedded in the page, with a default for pages whose embedded
//! images carry no usable height; a page with no embedded raster image at
//! all yields the empty no-data marker instead of being rendered.

use crate::cache::PageError;
use crate::err::OpenError;
use crate::ident::{sha256_digest, sha256_of};
use crate::imgmeta::{image_dims_of, read_dimensions};
use hayro::hayro_syntax::object::dict::keys::{HEIGHT, IMAGE, SUBTYPE};
use hayro::hayro_syntax::object::Object;
use vstd::prelude::*;

verus! {

/// The raster height used for pages whose embedded images give none.
pub const DEFAULT_PAGE_HEIGHT: u32 = 1280;

/// A parsed pdf document.  The document type borrows internal pages with
/// lifetimes the verifier cannot declare, so it lives in a hidden field.
#[verifier::external_body]
pub struct PdfHandle {
    pdf: hayro::hayro_syntax::Pdf,
}

/// Per page, the pixel heights of the raster images embedded in it.
pub uninterp spec fn pdf_image_heights_of(p: PdfHandle) -> Seq<Seq<u32>>;

/// The PNG bytes that rendering a page at its natural size yields, or
/// nothing when the rasterized page does not encode; the result depends
/// on the document and the page index alone.
pub uninterp spec fn pdf_render_of(p: PdfHandle, index: int) -> Option<Seq<u8>>;

/// The PNG that rescaling an image to exactly the given dimensions
/// yields, or nothing when the bytes are not a readable image; the
/// result depends on the arguments alone.
pub uninterp spec fn scaled_png_of(data: Seq<u8>, width: u32, height: u32) -> Option<Seq<u8>>;

/// The page count a byte string parses to as a pdf document, or nothing
/// when it does not parse; the result depends on the bytes alone.
pub uninterp spec fn pdf_parse_of(data: Seq<u8>) -> Option<nat>;

/// Relies on hayro::hayro_syntax::Pdf::new: parses the document; it
/// succeeds exactly when the bytes parse, with the parse's page count.
#[verifier::external_body]
fn pdf_open(data: Vec<u8>) -> (r: Result<PdfHandle, String>)
    ensures
        r matches Ok(p) ==> pdf_parse_of(data@) == Some(pdf_image_heights_of(p).len()),
        r is Err <==> pdf_parse_of(data@) is None,
{
    match hayro::hayro_syntax::Pdf::new(std::sync::Arc::new(data)) {
        Ok(pdf) => Ok(PdfHandle { pdf }),
        Err(e) => Err(format!("{:?}", e)),
    }
}

/// Relies on hayro::hayro_syntax::Pdf::pages: the number of pages.
#[verifier::external_body]
fn pdf_page_count(p: &PdfHandle) -> (r: usize)
    ensures
        r == pdf_image_heights_of(*p).len(),
{
    p.pdf.pages().len()
}

/// Relies on the page's resource dictionary of hayro_syntax: walks the
/// page's external objects and reads the height from each embedded
/// raster image's stream dictionary.
#[verifier::external_body]
fn pdf_page_heights(p: &PdfHandle, index: usize) -> (r: Vec<u32>)
    requires
        index < pdf_image_heights_of(*p).len(),
    ensures
        r@ == pdf_image_heights_of(*p)[index as int],
{
    let mut out: Vec<u32> = Vec::new();
    for (_, mo) in p.pdf.pages()[index].resources().x_objects.entries() {
        let Some(Some(Object::Stream(s))) = mo.as_obj_ref().map(|o| p.pdf.xref().get::<Object>(o.into())) else { continue };
        let meta = (s.dict().get::<Object>(SUBTYPE), s.dict().get::<Object>(HEIGHT));
        if let (Some(Object::Name(t)), Some(Object::Number(h))) = meta {
            if t.as_str().as_bytes() == IMAGE {
                out.push(h.as_i64().try_into().unwrap_or(0));
            }
        }
    }
    out
}

/// Relies on hayro::render and vello Pixmap::into_png: rasterizes the
/// page at its natural size into PNG bytes; it succeeds exactly when
/// the page's render value exists, and yields it.
#[verifier::external_body]
fn pdf_render_png(p: &PdfHandle, index: usize) -> (r: Result<Vec<u8>, String>)
    requires
        index < pdf_image_heights_of(*p).len(),
    ensures
        r is Ok <==> pdf_render_of(*p, index as int) is Some,
        r matches Ok(b) ==> Some(b@) == pdf_render_of(*p, index as int),
{
    let page = &p.pdf.pages()[index];
    let cache = hayro::RenderCache::new();
    let pixmap = hayro::render(
        page,
        &cache,
        &Default::default(),
        &Default::default(),
        &Default::default(),
    );
    pixmap.into_png().map_err(|e| format!("{}", e))
}

/// Relies on image::load_from_memory, DynamicImage::resize_exact and
/// the PNG encoder: rescales the image to exactly the given dimensions
/// and re-encodes it as PNG, whose header then carries those dimensions.
#[verifier::external_body]
fn scale_png(data: &[u8], width: u32, height: u32) -> (r: Option<Vec<u8>>)
    requires
        width >= 1,
        height >= 1,
    ensures
        match r {
            Some(b) => scaled_png_of(data@, width, height) == Some(b@) && image_dims_of(b@)
                == Some((width, height)),
            None => scaled_png_of(data@, width, height) is None,
        },
{
    let img = image::load_from_memory(data).ok()?;
    let scaled = img.resize_exact(width, height, image::imageops::FilterType::Triangle);
    let mut out: Vec<u8> = Vec::new();
    let mut cursor = std::io::Cursor::new(&mut out);
    scaled.write_to(&mut cursor, image::ImageFormat::Png).ok()?;
    Some(out)
}

/// The tallest embedded image's height on a page.
pub open spec fn max_height_of(heights: Seq<u32>) -> u32
    decreases heights.len(),
{
    if heights.len() == 0 {
        0
    } else {
        let m = max_height_of(heights.drop_last());
        if heights.last() > m {
            heights.last()
        } else {
            m
        }
    }
}

/// The raster height for a page: the tallest embedded image's height,
/// or the default when no embedded image gives one.
pub open spec fn target_height_of(heights: Seq<u32>) -> u32 {
    if max_height_of(heights) == 0 {
        DEFAULT_PAGE_HEIGHT
    } else {
        max_height_of(heights)
    }
}

/// The tallest embedded image's height, as executable code.
fn max_height(heights: &Vec<u32>) -> (r: u32)
    ensures
        r == max_height_of(heights@),
{
    let mut m: u32 = 0;
    let mut i: usize = 0;
    while i < heights.len()
        invariant
            i <= heights@.len(),
            m == max_height_of(heights@.subrange(0, i as int)),
        decreases heights@.len() - i,
    {
        let h = heights[i];
        proof {
            assert(heights@.subrange(0, i + 1 as int).drop_last() =~= heights@.subrange(
                0,
                i as int,
            ));
            assert(heights@.subrange(0, i + 1 as int).last() == heights@[i as int]);
        }
        if h > m {
            m = h;
        }
        i = i + 1;
    }
    proof {
        assert(heights@.subrange(0, heights@.len() as int) =~= heights@);
    }
    m
}

/// The scaled width that keeps an image's aspect ratio at the target
/// height: rounded to the nearest pixel, at least one, and capped at
/// the pixel limit.
pub open spec fn target_width_of(w0: u32, h0: u32, height: u32) -> u32
    recommends
        h0 > 0,
{
    let w = (w0 * height + h0 / 2) / (h0 as int);
    if w < 1 {
        1u32
    } else if w > u32::MAX {
        u32::MAX
    } else {
        w as u32
    }
}

/// The PNG a page with embedded images comes out as: the page rendered
/// at its natural size, then rescaled to the target height at its own
/// aspect ratio — or nothing when rendering, reading the rendered
/// dimensions, or rescaling fails.
pub open spec fn pdf_page_png_of(p: PdfHandle, index: int, th: u32) -> Option<Seq<u8>> {
    match pdf_render_of(p, index) {
        Some(png) => match image_dims_of(png) {
            Some(d) => if d.1 > 0 {
                scaled_png_of(png, target_width_of(d.0, d.1, th), th)
            } else {
                None
            },
            None => None,
        },
        None => None,
    }
}

/// What a successfully opened pdf page source guarantees: the
/// fingerprint and the parse's page count.
pub open spec fn pdf_source_spec(s: PdfSource, data: Seq<u8>) -> bool {
    &&& s.spec_sha256() == sha256_of(data)
    &&& pdf_parse_of(data) == Some(pdf_image_heights_of(s.spec_pdf()).len())
}

/// The pdf backend: the parsed document and its fingerprint.  A page
/// count is the document's page count, not an image count.
pub struct PdfSource {
    sha256: [u8; 32],
    pdf: PdfHandle,
}

impl PdfSource {
    /// The parsed document.
    pub closed spec fn spec_pdf(&self) -> PdfHandle {
        self.pdf
    }

    /// The fingerprint of the container's bytes.
    pub closed spec fn spec_sha256(&self) -> Seq<u8> {
        self.sha256@
    }

    /// The number of pages.
    pub fn page_count(&self) -> (r: usize)
        ensures
            r == pdf_image_heights_of(self.spec_pdf()).len(),
    {
        pdf_page_count(&self.pdf)
    }

    /// The fingerprint of the container's bytes.
    pub fn sha256(&self) -> (r: &[u8; 32])
        ensures
            r@ == self.spec_sha256(),
    {
        &self.sha256
    }

    /// Opens a pdf document from its bytes: it succeeds exactly when
    /// the bytes parse as a pdf, with the parse's page count.
    pub fn new(data: Vec<u8>) -> (r: Result<PdfSource, OpenError>)
        ensures
            r matches Ok(s) ==> pdf_source_spec(s, data@),
            r is Ok <==> pdf_parse_of(data@) is Some,
            r matches Err(e) ==> e is Invalid,
    {
        let sha256 = sha256_digest(data.as_slice());
        match pdf_open(data) {
            Ok(pdf) => Ok(PdfSource { sha256, pdf }),
            Err(m) => Err(OpenError::Invalid(m)),
        }
    }

    /// The PNG bytes of page `index`, rescaled to the height of the
    /// page's tallest embedded image (or the default height when none
    /// gives one): exactly the page's PNG value, with success exactly
    /// when that value exists, and with that height readable from the
    /// result.  A page without any embedded raster image yields the
    /// empty no-data marker rather than an error, as a pdf page may be
    /// pure vector or text; an index at or past the page count yields
    /// the same empty result.
    pub fn get_page_bytes(&self, index: usize) -> (r: Result<Vec<u8>, PageError>)
        ensures
            index >= pdf_image_heights_of(self.spec_pdf()).len() ==> (r matches Ok(b) && b@
                == Seq::<u8>::empty()),
            index < pdf_image_heights_of(self.spec_pdf()).len() && pdf_image_heights_of(
                self.spec_pdf(),
            )[index as int].len() == 0 ==> (r matches Ok(b) && b@ == Seq::<u8>::empty()),
            index < pdf_image_heights_of(self.spec_pdf()).len() && pdf_image_heights_of(
                self.spec_pdf(),
            )[index as int].len() > 0 ==> {
                let th = target_height_of(pdf_image_heights_of(self.spec_pdf())[index as int]);
                &&& (r is Ok <==> pdf_page_png_of(self.spec_pdf(), index as int, th) is Some)
                &&& (r matches Ok(b) ==> Some(b@) == pdf_page_png_of(
                    self.spec_pdf(),
                    index as int,
                    th,
                ))
                &&& (r matches Ok(b) ==> image_dims_of(b@) matches Some(d) && d.1 == th)
            },
            r matches Err(e) ==> e == PageError::DecodeError,
    {
        let count = pdf_page_count(&self.pdf);
        if index >= count {
            let empty: Vec<u8> = Vec::new();
            return Ok(empty);
        }
        let dims = pdf_page_heights(&self.pdf, index);
        if dims.len() == 0 {
            let empty: Vec<u8> = Vec::new();
            return Ok(empty);
        }
        let m = max_height(&dims);
        let height = if m == 0 {
            DEFAULT_PAGE_HEIGHT
        } else {
            m
        };
        let rendered = match pdf_render_png(&self.pdf, index) {
            Ok(b) => b,
            Err(_) => {
                return Err(PageError::DecodeError);
            },
        };
        let d = match read_dimensions(rendered.as_slice()) {
            Some(d) => d,
            None => {
                return Err(PageError::DecodeError);
            },
        };
        if d.1 == 0 {
            return Err(PageError::DecodeError);
        }
        proof {
            assert((d.0 as u64) * (height as u64) <= 0xFFFF_FFFFu64 * 0xFFFF_FFFFu64)
                by (nonlinear_arith)
                requires
                    d.0 as u64 <= 0xFFFF_FFFFu64,
                    height as u64 <= 0xFFFF_FFFFu64,
            ;
        }
        let num: u64 = (d.0 as u64) * (height as u64) + (d.1 as u64) / 2;
        let w64: u64 = num / (d.1 as u64);
        let width: u32 = if w64 < 1 {
            1
        } else if w64 > (u32::MAX as u64) {
            u32::MAX
        } else {
            w64 as u32
        };
        proof {
            assert(width == target_width_of(d.0, d.1, height));
        }
        match scale_png(rendered.as_slice(), width, height) {
            Some(b) => Ok(b),
            None => Err(PageError::DecodeError),
        }
    }
}

} // verus!
