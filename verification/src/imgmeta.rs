//! Image metadata read from raw bytes: format sniffing and dimensions.

use vstd::prelude::*;

verus! {

/// Whether the image crate recognizes the byte string as a known image
/// format; the answer depends on the bytes alone.
pub uninterp spec fn image_format_known(data: Seq<u8>) -> bool;

/// The pixel dimensions `(width, height)` the image crate reads from the
/// byte string, or nothing when the bytes are not a readable image; the
/// answer depends on the bytes alone.
pub uninterp spec fn image_dims_of(data: Seq<u8>) -> Option<(u32, u32)>;

/// Relies on image::guess_format: sniffs the format from the magic bytes.
#[verifier::external_body]
pub fn guess_format_ok(data: &[u8]) -> (r: bool)
    ensures
        r == image_format_known(data@),
{
    image::guess_format(data).is_ok()
}

/// Relies on image::guess_format and image::ImageReader::into_dimensions:
/// sniffs the format, then reads the dimensions from the image header.
#[verifier::external_body]
pub fn read_dimensions(data: &[u8]) -> (r: Option<(u32, u32)>)
    ensures
        r == image_dims_of(data@),
{
    let format = match image::guess_format(data) {
        Ok(f) => f,
        Err(_) => return None,
    };
    let reader = image::ImageReader::with_format(std::io::Cursor::new(data), format);
    reader.into_dimensions().ok()
}

} // verus!
