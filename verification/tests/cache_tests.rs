//! Cache entries, page paths, and the identity hash.

use manga_reader::cache::{write_cache, ImageData, PageCache};
use manga_reader::ident::{hex_string, identity_eq, sha256_digest};

fn png_bytes(w: u32, h: u32) -> Vec<u8> {
    let img = image::RgbImage::new(w, h);
    let mut out: Vec<u8> = Vec::new();
    let mut cursor = std::io::Cursor::new(&mut out);
    image::DynamicImage::ImageRgb8(img)
        .write_to(&mut cursor, image::ImageFormat::Png)
        .unwrap();
    out
}

fn jpeg_bytes(w: u32, h: u32) -> Vec<u8> {
    let img = image::RgbImage::new(w, h);
    let mut out: Vec<u8> = Vec::new();
    let mut cursor = std::io::Cursor::new(&mut out);
    image::DynamicImage::ImageRgb8(img)
        .write_to(&mut cursor, image::ImageFormat::Jpeg)
        .unwrap();
    out
}

#[test]
fn cache_entry_reads_png_aspect_ratio() {
    let content = png_bytes(30, 10);
    let entry = PageCache::new(content.as_slice(), b"tmp/page_000".to_vec()).unwrap();
    match entry.get_data() {
        ImageData::Loaded { path, width, height } => {
            assert_eq!(path, b"tmp/page_000".to_vec());
            let ratio = width as f64 / height as f64;
            assert!((ratio - 3.0).abs() < 1e-9);
        }
        _ => panic!("expected a loaded descriptor"),
    }
}

#[test]
fn cache_entry_reads_jpeg_aspect_ratio() {
    let content = jpeg_bytes(64, 32);
    let entry = PageCache::new(content.as_slice(), b"p".to_vec()).unwrap();
    match entry.get_data() {
        ImageData::Loaded { width, height, .. } => {
            let ratio = width as f64 / height as f64;
            assert!((ratio - 2.0).abs() < 1e-9);
        }
        _ => panic!("expected a loaded descriptor"),
    }
}

#[test]
fn cache_entry_rejects_non_image_bytes() {
    assert!(PageCache::new(b"not an image", b"p".to_vec()).is_err());
}

#[test]
fn page_paths_are_zero_padded() {
    let content = png_bytes(2, 2);
    let e = write_cache(7, content.as_slice(), b"cache/dir").unwrap();
    assert_eq!(e.get_path().as_slice(), b"cache/dir/page_007");
    let e = write_cache(123, content.as_slice(), b"d").unwrap();
    assert_eq!(e.get_path().as_slice(), b"d/page_123");
    let e = write_cache(1234, content.as_slice(), b"d").unwrap();
    assert_eq!(e.get_path().as_slice(), b"d/page_1234");
    let e = write_cache(0, content.as_slice(), b"d").unwrap();
    assert_eq!(e.get_path().as_slice(), b"d/page_000");
}

#[test]
fn sha256_matches_known_digest() {
    let d = sha256_digest(b"abc");
    let hex = hex_string(&d);
    assert_eq!(
        String::from_utf8(hex).unwrap(),
        "ba7816bf8f01cfea414140de5dae2223b00361a396177a9cb410ff61f20015ad"
    );
}

#[test]
fn identity_equality_compares_bytes() {
    let a = sha256_digest(b"abc");
    let b = sha256_digest(b"abc");
    let c = sha256_digest(b"abd");
    assert!(identity_eq(&a, &b));
    assert!(!identity_eq(&a, &c));
}
