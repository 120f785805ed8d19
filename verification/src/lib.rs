//! Core of a paginated image reader over heterogeneous container formats.
//!
//! The library models a container (zip, 7z, pdf, epub, tar, mobi, or a plain
//! directory of files) as a paginated source of image pages, keeps a
//! disk-backed cache of decoded pages, and decides which page to prefetch
//! next from the reader's viewport.  All file and network traffic stays with
//! the caller: the library works on byte vectors handed to it.

pub mod book;
pub mod cache;
pub mod config;
pub mod dir_src;
pub mod epub_src;
pub mod err;
pub mod exts;
pub mod ident;
pub mod imgmeta;
pub mod mobi_src;
pub mod order;
pub mod pdf_src;
pub mod readers;
pub mod sched;
pub mod sevenz_src;
pub mod shared;
pub mod source;
pub mod tar_src;
pub mod zip_src;
