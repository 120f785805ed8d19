//! Path normalization for epub image references, and the mobi backend's
//! rejection of non-books.

use manga_reader::epub_src::{normalize_src, EpubSource};
use manga_reader::mobi_src::MobiSource;

#[test]
fn references_resolve_against_the_chapter_directory() {
    assert_eq!(
        normalize_src(b"../Images/p1.jpg", b"OEBPS/Text/ch1.xhtml"),
        b"OEBPS/Images/p1.jpg".to_vec()
    );
    assert_eq!(
        normalize_src(b"cover.png", b"OEBPS/title.xhtml"),
        b"OEBPS/cover.png".to_vec()
    );
}

#[test]
fn percent_escapes_decode_before_resolving() {
    assert_eq!(
        normalize_src(b"img%20one.png", b"dir/page.xhtml"),
        b"dir/img one.png".to_vec()
    );
    // a malformed escape stays literal
    assert_eq!(
        normalize_src(b"a%zz.png", b"d/p.xhtml"),
        b"d/a%zz.png".to_vec()
    );
}

#[test]
fn absolute_references_stand_alone() {
    assert_eq!(
        normalize_src(b"/Images/p1.jpg", b"OEBPS/Text/ch1.xhtml"),
        b"/Images/p1.jpg".to_vec()
    );
}

#[test]
fn non_books_are_refused() {
    assert!(EpubSource::new(vec![9, 9, 9]).is_err());
    assert!(MobiSource::new(vec![9, 9, 9]).is_err());
}

fn png_bytes(tag: u8) -> Vec<u8> {
    let mut img = image::RgbImage::new(3, 3);
    img.put_pixel(0, 0, image::Rgb([tag, 0, 0]));
    let mut out: Vec<u8> = Vec::new();
    let mut cursor = std::io::Cursor::new(&mut out);
    image::DynamicImage::ImageRgb8(img)
        .write_to(&mut cursor, image::ImageFormat::Png)
        .unwrap();
    out
}

fn build_epub(chapter: &str, images: &[(&str, &[u8])]) -> Vec<u8> {
    let container = r#"<?xml version="1.0"?>
<container version="1.0" xmlns="urn:oasis:names:tc:opendocument:xmlns:container">
  <rootfiles>
    <rootfile full-path="OEBPS/content.opf" media-type="application/oebps-package+xml"/>
  </rootfiles>
</container>"#;
    let mut manifest = String::new();
    for (k, (name, _)) in images.iter().enumerate() {
        manifest.push_str(&format!(
            "<item id=\"img{}\" href=\"{}\" media-type=\"image/png\"/>",
            k, name
        ));
    }
    let opf = format!(
        r#"<?xml version="1.0"?>
<package xmlns="http://www.idpf.org/2007/opf" unique-identifier="id" version="2.0">
  <metadata xmlns:dc="http://purl.org/dc/elements/1.1/">
    <dc:title>pages</dc:title>
    <dc:identifier id="id">test-book</dc:identifier>
  </metadata>
  <manifest>
    <item id="ch1" href="ch1.xhtml" media-type="application/xhtml+xml"/>
    {}
  </manifest>
  <spine>
    <itemref idref="ch1"/>
  </spine>
</package>"#,
        manifest
    );
    let mut w = zip::ZipWriter::new(std::io::Cursor::new(Vec::new()));
    let stored = zip::write::SimpleFileOptions::default()
        .compression_method(zip::CompressionMethod::Stored);
    w.start_file("mimetype", stored).unwrap();
    std::io::Write::write_all(&mut w, b"application/epub+zip").unwrap();
    w.start_file("META-INF/container.xml", stored).unwrap();
    std::io::Write::write_all(&mut w, container.as_bytes()).unwrap();
    w.start_file("OEBPS/content.opf", stored).unwrap();
    std::io::Write::write_all(&mut w, opf.as_bytes()).unwrap();
    w.start_file("OEBPS/ch1.xhtml", stored).unwrap();
    std::io::Write::write_all(&mut w, chapter.as_bytes()).unwrap();
    for (name, content) in images {
        w.start_file(format!("OEBPS/{}", name), stored).unwrap();
        std::io::Write::write_all(&mut w, content).unwrap();
    }
    w.finish().unwrap().into_inner()
}

#[test]
fn epub_pages_follow_document_order() {
    let a = png_bytes(1);
    let b = png_bytes(2);
    // the chapter shows b before a: document order must beat name order
    let chapter = r#"<html><body>
<img src="Images/b.png"/>
<img src="Images/a.png"/>
</body></html>"#;
    let data = build_epub(chapter, &[("Images/a.png", &a), ("Images/b.png", &b)]);
    let mut e = EpubSource::new(data).unwrap();
    assert_eq!(e.page_count(), 2);
    assert_eq!(e.get_page_bytes(0).unwrap(), b);
    assert_eq!(e.get_page_bytes(1).unwrap(), a);
    assert!(e.get_page_bytes(2).unwrap().is_empty());
    // an epub never takes a password candidate
    assert!(!e.try_password(b"pwd"));
}

#[test]
fn a_reference_to_no_entry_stays_an_unresolved_page() {
    let a = png_bytes(1);
    let chapter = r#"<html><body>
<img src="Images/a.png"/>
<img src="Images/missing.png"/>
</body></html>"#;
    let data = build_epub(chapter, &[("Images/a.png", &a)]);
    let mut e = EpubSource::new(data).unwrap();
    // the page table follows the document: both references count
    assert_eq!(e.page_count(), 2);
    assert_eq!(e.get_page_bytes(0).unwrap(), a);
    // the dangling reference is a per-page decode failure, not a crash
    assert!(e.get_page_bytes(1).is_err());
}
