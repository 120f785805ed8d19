//! The open-result shape handed to the transport layer.

use manga_reader::cache::ImageData;
use manga_reader::err::OpenError;
use manga_reader::shared::{CreateMangaResult, LoadPage};

#[test]
fn success_carries_identity_and_page_count() {
    let sha = [7u8; 32];
    match CreateMangaResult::from_open(Ok((sha, 12))) {
        CreateMangaResult::Success(s, n) => {
            assert_eq!(s, sha);
            assert_eq!(n, 12);
        }
        _ => panic!("expected success"),
    }
}

#[test]
fn password_errors_become_the_prompt_marker() {
    match CreateMangaResult::from_open(Err(OpenError::NeedPassword)) {
        CreateMangaResult::NeedPassword => {}
        _ => panic!("expected the password marker"),
    }
}

#[test]
fn other_errors_keep_their_message() {
    match CreateMangaResult::from_open(Err(OpenError::Invalid("broken".to_string()))) {
        CreateMangaResult::Other(m) => assert_eq!(m, "broken"),
        _ => panic!("expected a message"),
    }
}

#[test]
fn page_ready_announcements_carry_their_fields() {
    let e = LoadPage::new([3u8; 32], 4, 10, ImageData::NoData);
    assert_eq!(e.sha256, [3u8; 32]);
    assert_eq!(e.index, 4);
    assert_eq!(e.len, 10);
    assert!(matches!(e.image_data, ImageData::NoData));
}
