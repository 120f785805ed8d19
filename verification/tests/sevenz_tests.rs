//! The 7z backend: solid archives drain in one pass, each page once.

use manga_reader::sevenz_src::SevenzSource;
use manga_reader::source::{create_source, ContainerInput, Source};

fn png_bytes(tag: u8) -> Vec<u8> {
    let mut img = image::RgbImage::new(3, 3);
    img.put_pixel(0, 0, image::Rgb([tag, 0, 0]));
    let mut out: Vec<u8> = Vec::new();
    let mut cursor = std::io::Cursor::new(&mut out);
    image::DynamicImage::ImageRgb8(img)
        .write_to(&mut cursor, image::ImageFormat::Png)
        .unwrap();
    out
}

fn build_solid_7z(entries: &[(&str, &[u8])]) -> Vec<u8> {
    let mut w = sevenz_rust2::ArchiveWriter::new(std::io::Cursor::new(Vec::new())).unwrap();
    let mut metas = Vec::new();
    let mut readers = Vec::new();
    for (name, content) in entries {
        metas.push(sevenz_rust2::ArchiveEntry::new_file(name));
        readers.push(sevenz_rust2::SourceReader::from(std::io::Cursor::new(
            content.to_vec(),
        )));
    }
    w.push_archive_entries(metas, readers).unwrap();
    w.finish().unwrap().into_inner()
}

#[test]
fn solid_archive_reports_no_random_access() {
    let p: Vec<Vec<u8>> = (0..4).map(|k| png_bytes(k as u8)).collect();
    let entries: Vec<(String, &[u8])> =
        (0..4).map(|k| (format!("{}.png", k), p[k].as_slice())).collect();
    let borrowed: Vec<(&str, &[u8])> =
        entries.iter().map(|(n, c)| (n.as_str(), *c)).collect();
    let data = build_solid_7z(&borrowed);
    let s = create_source(b"book.7z", ContainerInput::File(data), None).unwrap();
    match s {
        Source::SevenZip(sz) => {
            assert!(sz.is_solid());
        }
        _ => panic!("expected the 7z backend"),
    }
}

#[test]
fn draining_a_solid_archive_yields_each_page_exactly_once() {
    let p: Vec<Vec<u8>> = (0..5).map(|k| png_bytes(k as u8)).collect();
    let entries: Vec<(String, &[u8])> =
        (0..5).map(|k| (format!("{}.png", k), p[k].as_slice())).collect();
    let borrowed: Vec<(&str, &[u8])> =
        entries.iter().map(|(n, c)| (n.as_str(), *c)).collect();
    let data = build_solid_7z(&borrowed);
    let mut sz = SevenzSource::new(data, None).unwrap();
    assert_eq!(sz.page_count(), 5);
    let drained = sz.decode_all().unwrap();
    let mut seen = vec![0usize; 5];
    for (index, content) in &drained {
        assert!(*index < 5);
        seen[*index] += 1;
        assert_eq!(*content, p[*index]);
    }
    assert_eq!(seen, vec![1, 1, 1, 1, 1]);
}

#[test]
fn non_archive_bytes_are_refused() {
    assert!(SevenzSource::new(vec![0, 1, 2, 3, 4, 5, 6, 7], None).is_err());
}
