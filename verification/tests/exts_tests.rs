//! The entry-name filter and the extension dispatch.

use manga_reader::exts::{bytes_eq, check_valid_ext};
use manga_reader::source::{detect_format, ContainerFormat};
use manga_reader::tar_src::TarCompression;

#[test]
fn accepts_supported_image_extensions() {
    assert!(check_valid_ext(b"0.jpg"));
    assert!(check_valid_ext(b"a/b/c.JPEG"));
    assert!(check_valid_ext(b"x.PNG"));
    assert!(check_valid_ext(b"x.webp"));
    assert!(check_valid_ext(b"x.Ico"));
    assert!(check_valid_ext(b"x.gif"));
    assert!(check_valid_ext(b"x.bmp"));
}

#[test]
fn rejects_other_names() {
    assert!(!check_valid_ext(b"readme.txt"));
    assert!(!check_valid_ext(b"noextension"));
    assert!(!check_valid_ext(b".jpg"));
    assert!(!check_valid_ext(b"dir/.png"));
    assert!(!check_valid_ext(b"x.jpg.bak"));
    assert!(!check_valid_ext(b""));
}

#[test]
fn rejects_platform_metadata_directory() {
    assert!(!check_valid_ext(b"__MACOSX/0.jpg"));
    assert!(check_valid_ext(b"__MACOSX2/0.jpg"));
    assert!(check_valid_ext(b"a/__MACOSX/0.jpg"));
}

#[test]
fn byte_equality() {
    assert!(bytes_eq(b"abc", b"abc"));
    assert!(!bytes_eq(b"abc", b"abd"));
    assert!(!bytes_eq(b"abc", b"ab"));
}

#[test]
fn extension_dispatch_is_case_insensitive() {
    assert_eq!(detect_format(b"a.ZiP"), ContainerFormat::Zip);
    assert_eq!(detect_format(b"a.cbz"), ContainerFormat::Zip);
    assert_eq!(detect_format(b"dir/a.EPUB"), ContainerFormat::Epub);
    assert_eq!(detect_format(b"a.7z"), ContainerFormat::SevenZ);
    assert_eq!(detect_format(b"a.pdf"), ContainerFormat::Pdf);
    assert_eq!(detect_format(b"a.MOBI"), ContainerFormat::Mobi);
    assert_eq!(detect_format(b"a.tar"), ContainerFormat::Tar(TarCompression::Plain));
    assert_eq!(detect_format(b"a.tar.xz"), ContainerFormat::Tar(TarCompression::Xz));
    assert_eq!(detect_format(b"a.tar.gz"), ContainerFormat::Tar(TarCompression::Gz));
    assert_eq!(detect_format(b"a.tar.bz2"), ContainerFormat::Tar(TarCompression::Bz2));
    assert_eq!(detect_format(b"a.rar"), ContainerFormat::Unsupported);
    assert_eq!(detect_format(b"archive"), ContainerFormat::Unsupported);
}
