//! The tar backend: single-pass decode, filtering and ordering.

use manga_reader::source::{create_source, ContainerInput, Source};
use manga_reader::tar_src::{TarCompression, TarSource};

fn png_bytes(tag: u8) -> Vec<u8> {
    let mut img = image::RgbImage::new(3, 3);
    img.put_pixel(0, 0, image::Rgb([tag, 0, 0]));
    let mut out: Vec<u8> = Vec::new();
    let mut cursor = std::io::Cursor::new(&mut out);
    image::DynamicImage::ImageRgb8(img)
        .write_to(&mut cursor, image::ImageFormat::Png)
        .unwrap();
    out
}

fn build_tar(entries: &[(&str, &[u8])]) -> Vec<u8> {
    let mut b = tar::Builder::new(Vec::new());
    for (name, content) in entries {
        let mut header = tar::Header::new_gnu();
        header.set_size(content.len() as u64);
        header.set_mode(0o644);
        header.set_cksum();
        b.append_data(&mut header, name, *content).unwrap();
    }
    b.into_inner().unwrap()
}

#[test]
fn tar_pages_are_sorted_and_filtered() {
    let p0 = png_bytes(1);
    let p1 = png_bytes(2);
    let data = build_tar(&[
        ("z/2.png", p1.as_slice()),
        ("z/1.png", p0.as_slice()),
        ("z/readme.txt", b"junk"),
    ]);
    let t = TarSource::new(data, TarCompression::Plain).unwrap();
    assert_eq!(t.page_count(), 2);
    assert_eq!(t.get_page_bytes(0), p0);
    assert_eq!(t.get_page_bytes(1), p1);
    assert!(t.get_page_bytes(2).is_empty());
}

#[test]
fn gzip_tar_decodes_through_the_filter() {
    let p0 = png_bytes(1);
    let plain = build_tar(&[("0.png", p0.as_slice())]);
    let mut enc = flate2::write::GzEncoder::new(Vec::new(), flate2::Compression::default());
    std::io::Write::write_all(&mut enc, &plain).unwrap();
    let gz = enc.finish().unwrap();
    let s = create_source(b"book.tar.gz", ContainerInput::File(gz), None).unwrap();
    match s {
        Source::Tar(t) => {
            assert_eq!(t.page_count(), 1);
            assert_eq!(t.get_page_bytes(0), p0);
        }
        _ => panic!("expected the tar backend"),
    }
}

#[test]
fn corrupt_tar_is_refused() {
    assert!(TarSource::new(vec![0, 1, 2, 3], TarCompression::Gz).is_err());
}
