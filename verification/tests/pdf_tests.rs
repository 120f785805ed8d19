//! The pdf backend: a page with no embedded image yields the no-data
//! marker instead of an error.

use manga_reader::pdf_src::PdfSource;

/// A minimal single-page pdf with no embedded raster image: a catalog,
/// a page tree, and one empty page.
fn blank_pdf() -> Vec<u8> {
    let header = "%PDF-1.4\n";
    let obj1 = "1 0 obj\n<< /Type /Catalog /Pages 2 0 R >>\nendobj\n";
    let obj2 = "2 0 obj\n<< /Type /Pages /Kids [3 0 R] /Count 1 >>\nendobj\n";
    let obj3 = "3 0 obj\n<< /Type /Page /Parent 2 0 R /MediaBox [0 0 200 300] >>\nendobj\n";
    let o1 = header.len();
    let o2 = o1 + obj1.len();
    let o3 = o2 + obj2.len();
    let xref_pos = o3 + obj3.len();
    let xref = format!(
        "xref\n0 4\n0000000000 65535 f \n{:010} 00000 n \n{:010} 00000 n \n{:010} 00000 n \n",
        o1, o2, o3
    );
    let trailer = format!(
        "trailer\n<< /Size 4 /Root 1 0 R >>\nstartxref\n{}\n%%EOF\n",
        xref_pos
    );
    let mut out = String::new();
    out.push_str(header);
    out.push_str(obj1);
    out.push_str(obj2);
    out.push_str(obj3);
    out.push_str(&xref);
    out.push_str(&trailer);
    out.into_bytes()
}

#[test]
fn page_without_image_yields_the_no_data_marker() {
    let pdf = PdfSource::new(blank_pdf()).unwrap();
    assert_eq!(pdf.page_count(), 1);
    let bytes = pdf.get_page_bytes(0).unwrap();
    assert!(bytes.is_empty());
}

#[test]
fn out_of_range_page_yields_an_empty_result() {
    let pdf = PdfSource::new(blank_pdf()).unwrap();
    let bytes = pdf.get_page_bytes(5).unwrap();
    assert!(bytes.is_empty());
}

#[test]
fn garbage_is_not_a_pdf() {
    assert!(PdfSource::new(vec![1, 2, 3, 4]).is_err());
}

/// A single-page pdf embedding one jpeg image, drawn over the page.
fn pdf_with_jpeg(jpeg: &[u8], w: u32, h: u32) -> Vec<u8> {
    let header = "%PDF-1.4\n";
    let obj1 = "1 0 obj\n<< /Type /Catalog /Pages 2 0 R >>\nendobj\n".to_string();
    let obj2 = "2 0 obj\n<< /Type /Pages /Kids [3 0 R] /Count 1 >>\nendobj\n".to_string();
    let obj3 = format!(
        "3 0 obj\n<< /Type /Page /Parent 2 0 R /MediaBox [0 0 {} {}] \
         /Resources << /XObject << /Im0 4 0 R >> >> /Contents 5 0 R >>\nendobj\n",
        w, h
    );
    let mut obj4 = format!(
        "4 0 obj\n<< /Type /XObject /Subtype /Image /Width {} /Height {} \
         /ColorSpace /DeviceRGB /BitsPerComponent 8 /Filter /DCTDecode \
         /Length {} >>\nstream\n",
        w, h,
        jpeg.len()
    )
    .into_bytes();
    obj4.extend_from_slice(jpeg);
    obj4.extend_from_slice(b"\nendstream\nendobj\n");
    let content = format!("q {} 0 0 {} 0 0 cm /Im0 Do Q", w, h);
    let obj5 = format!(
        "5 0 obj\n<< /Length {} >>\nstream\n{}\nendstream\nendobj\n",
        content.len(),
        content
    );
    let o1 = header.len();
    let o2 = o1 + obj1.len();
    let o3 = o2 + obj2.len();
    let o4 = o3 + obj3.len();
    let o5 = o4 + obj4.len();
    let xref_pos = o5 + obj5.len();
    let xref = format!(
        "xref\n0 6\n0000000000 65535 f \n{:010} 00000 n \n{:010} 00000 n \n{:010} 00000 n \n{:010} 00000 n \n{:010} 00000 n \n",
        o1, o2, o3, o4, o5
    );
    let trailer = format!(
        "trailer\n<< /Size 6 /Root 1 0 R >>\nstartxref\n{}\n%%EOF\n",
        xref_pos
    );
    let mut out: Vec<u8> = Vec::new();
    out.extend_from_slice(header.as_bytes());
    out.extend_from_slice(obj1.as_bytes());
    out.extend_from_slice(obj2.as_bytes());
    out.extend_from_slice(obj3.as_bytes());
    out.extend_from_slice(&obj4);
    out.extend_from_slice(obj5.as_bytes());
    out.extend_from_slice(xref.as_bytes());
    out.extend_from_slice(trailer.as_bytes());
    out
}

#[test]
fn page_with_an_image_renders_at_the_embedded_height() {
    let img = image::RgbImage::from_pixel(40, 60, image::Rgb([200, 10, 10]));
    let mut jpeg: Vec<u8> = Vec::new();
    let mut cursor = std::io::Cursor::new(&mut jpeg);
    image::DynamicImage::ImageRgb8(img)
        .write_to(&mut cursor, image::ImageFormat::Jpeg)
        .unwrap();
    let pdf = PdfSource::new(pdf_with_jpeg(&jpeg, 40, 60)).unwrap();
    assert_eq!(pdf.page_count(), 1);
    let bytes = pdf.get_page_bytes(0).unwrap();
    assert!(!bytes.is_empty());
    // the page rasterizes to the tallest embedded image's height
    let rendered = image::load_from_memory(&bytes).unwrap();
    assert_eq!(image::GenericImageView::height(&rendered), 60);
}
