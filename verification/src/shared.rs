//! The open-result and page-ready types shared with the caller's
//! transport layer.

use crate::cache::ImageData;
use crate::err::OpenError;
use vstd::prelude::*;

verus! {

/// The marker error for a missing or wrong password: the caller prompts
/// the user and retries instead of aborting.
#[derive(Debug, Clone, Copy, PartialEq, Eq, Structural)]
pub struct NeedPassword;

/// What a container-open attempt came to, in the shape the caller's
/// transport layer forwards: the identity and page count on success, a
/// password prompt, or a message.
pub enum CreateMangaResult {
    /// The container opened: its fingerprint and page count.
    Success([u8; 32], usize),
    /// An encrypted container wants a password.
    NeedPassword,
    /// The open failed with this message.
    Other(String),
}

impl CreateMangaResult {
    /// Folds an open attempt into the transport shape: success carries
    /// the identity and page count; the password error turns into the
    /// prompt marker; everything else keeps its message.
    pub fn from_open(value: Result<([u8; 32], usize), OpenError>) -> (r: CreateMangaResult)
        ensures
            match value {
                Ok((sha, n)) => r matches CreateMangaResult::Success(s, m) && s@ == sha@ && m
                    == n,
                Err(OpenError::NeedPassword) => r is NeedPassword,
                Err(OpenError::UnsupportedFormat) => r matches CreateMangaResult::Other(_),
                Err(OpenError::Invalid(m)) => r matches CreateMangaResult::Other(msg) && msg@
                    == m@,
            },
    {
        match value {
            Ok((sha, n)) => CreateMangaResult::Success(sha, n),
            Err(OpenError::NeedPassword) => CreateMangaResult::NeedPassword,
            Err(OpenError::UnsupportedFormat) => CreateMangaResult::Other(
                String::from_str("unsupported container format"),
            ),
            Err(OpenError::Invalid(m)) => CreateMangaResult::Other(m),
        }
    }
}

/// One page-ready announcement: which container, which page, how many
/// pages there are, and the page's display descriptor.
pub struct LoadPage {
    /// The container's fingerprint.
    pub sha256: [u8; 32],
    /// The settled page's index.
    pub index: usize,
    /// The container's page count.
    pub len: usize,
    /// The page's display descriptor.
    pub image_data: ImageData,
}

impl LoadPage {
    /// Bundles one page-ready announcement.
    pub fn new(sha256: [u8; 32], index: usize, len: usize, image_data: ImageData) -> (r:
        LoadPage)
        ensures
            r.sha256@ == sha256@,
            r.index == index,
            r.len == len,
            r.image_data == image_data,
    {
        LoadPage { sha256, index, len, image_data }
    }
}

} // verus!
