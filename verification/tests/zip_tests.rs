//! The zip backend: ordering, junk filtering, and the password protocol.

use manga_reader::err::OpenError;
use manga_reader::source::{create_source, ContainerInput, PageData, Source};
use manga_reader::zip_src::ZippedSource;
use std::io::Write;

fn png_bytes(w: u32, h: u32) -> Vec<u8> {
    let img = image::RgbImage::new(w, h);
    let mut out: Vec<u8> = Vec::new();
    let mut cursor = std::io::Cursor::new(&mut out);
    image::DynamicImage::ImageRgb8(img)
        .write_to(&mut cursor, image::ImageFormat::Png)
        .unwrap();
    out
}

fn build_zip(entries: &[(&str, &[u8])], password: Option<&str>) -> Vec<u8> {
    let mut w = zip::ZipWriter::new(std::io::Cursor::new(Vec::new()));
    for (name, content) in entries {
        let options = zip::write::SimpleFileOptions::default()
            .compression_method(zip::CompressionMethod::Stored);
        let options = match password {
            Some(p) => options.with_aes_encryption(zip::AesMode::Aes256, p),
            None => options,
        };
        w.start_file(*name, options).unwrap();
        w.write_all(content).unwrap();
    }
    w.finish().unwrap().into_inner()
}

#[test]
fn plain_zip_orders_pages_by_name_and_skips_junk() {
    let page = png_bytes(4, 4);
    let mut entries: Vec<(String, Vec<u8>)> = Vec::new();
    // out-of-order pages and two junk members
    for k in [3usize, 0, 9, 1, 2, 8, 4, 7, 5, 6] {
        entries.push((format!("{}.jpg", k), page.clone()));
    }
    entries.push(("notes.txt".to_string(), b"junk".to_vec()));
    entries.push(("thumbs.db".to_string(), b"junk".to_vec()));
    let borrowed: Vec<(&str, &[u8])> = entries
        .iter()
        .map(|(n, c)| (n.as_str(), c.as_slice()))
        .collect();
    let data = build_zip(&borrowed, None);

    let mut z = ZippedSource::new(data, None).unwrap();
    assert_eq!(z.page_count(), 10);
    // page 0 must decode to the page bytes
    let got = z.get_page_bytes(0).unwrap();
    assert_eq!(got, page);
    // a momentarily stale index yields an empty result, not an error
    let empty = z.get_page_bytes(10).unwrap();
    assert!(empty.is_empty());
}

#[test]
fn page_count_is_stable_across_calls() {
    let page = png_bytes(2, 2);
    let data = build_zip(&[("a.png", page.as_slice())], None);
    let z = ZippedSource::new(data, None).unwrap();
    assert_eq!(z.page_count(), z.page_count());
}

#[test]
fn encrypted_zip_without_password_wants_one() {
    let page = png_bytes(4, 4);
    let data = build_zip(&[("0.jpg", page.as_slice())], Some("sesame"));
    match ZippedSource::new(data, None) {
        Err(OpenError::NeedPassword) => {}
        _ => panic!("expected the password error"),
    }
}

#[test]
fn encrypted_zip_with_wrong_password_wants_another() {
    let page = png_bytes(4, 4);
    let data = build_zip(&[("0.jpg", page.as_slice())], Some("sesame"));
    match ZippedSource::new(data, Some(b"wrong".to_vec())) {
        Err(OpenError::NeedPassword) => {}
        _ => panic!("expected the password error"),
    }
}

#[test]
fn encrypted_zip_with_password_decodes_every_page() {
    let page = png_bytes(4, 4);
    let data = build_zip(
        &[("0.jpg", page.as_slice()), ("1.jpg", page.as_slice())],
        Some("sesame"),
    );
    let mut z = ZippedSource::new(data, Some(b"sesame".to_vec())).unwrap();
    assert_eq!(z.page_count(), 2);
    for i in 0..2 {
        assert_eq!(z.get_page_bytes(i).unwrap(), page);
    }
}

#[test]
fn opener_dispatches_zip_by_extension() {
    let page = png_bytes(4, 4);
    let data = build_zip(&[("0.jpg", page.as_slice())], None);
    let s = create_source(b"comic.CBZ", ContainerInput::File(data), None).unwrap();
    match s {
        Source::Zip(_) => {}
        _ => panic!("expected the zip backend"),
    }
}

#[test]
fn opener_rejects_unknown_extensions() {
    match create_source(b"comic.rar", ContainerInput::File(vec![1, 2, 3]), None) {
        Err(OpenError::UnsupportedFormat) => {}
        _ => panic!("expected the unsupported-format error"),
    }
    match create_source(b"noext", ContainerInput::File(vec![1, 2, 3]), None) {
        Err(OpenError::UnsupportedFormat) => {}
        _ => panic!("expected the unsupported-format error"),
    }
}

#[test]
fn opener_reads_page_bytes_through_the_source() {
    let page = png_bytes(4, 4);
    let data = build_zip(&[("0.jpg", page.as_slice())], None);
    let mut s = create_source(b"comic.zip", ContainerInput::File(data), None).unwrap();
    match s.get_page_bytes(0).unwrap() {
        PageData::Bytes(b) => assert_eq!(b, page),
        _ => panic!("expected in-memory bytes"),
    }
}
