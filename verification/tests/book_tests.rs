//! The session: nearest-unloaded search, idempotent loading, teardown.

use manga_reader::book::{LoadOutcome, MangaBook};
use manga_reader::dir_src::DirectorySource;
use manga_reader::sched::{prefetch_step, SchedulerState, StepDecision};
use manga_reader::ident::identity_eq;
use manga_reader::source::Source;

fn png_bytes(w: u32, h: u32) -> Vec<u8> {
    let img = image::RgbImage::new(w, h);
    let mut out: Vec<u8> = Vec::new();
    let mut cursor = std::io::Cursor::new(&mut out);
    image::DynamicImage::ImageRgb8(img)
        .write_to(&mut cursor, image::ImageFormat::Png)
        .unwrap();
    out
}

fn dir_book(pages: usize) -> MangaBook {
    let names: Vec<Vec<u8>> = (0..pages).map(|k| format!("{:03}.jpg", k).into_bytes()).collect();
    let d = DirectorySource::new(b"shelf".to_vec(), names);
    MangaBook::new(Source::Directory(d), b"cache".to_vec())
}

#[test]
fn nearest_unloaded_starts_at_the_viewport() {
    // viewport (10, 2) over a fully unloaded book: the first hit is 10,
    // the center of the window, not 0
    let book = dir_book(20);
    assert_eq!(book.has_unloaded_nearby(10, 2), Some(10));
}

#[test]
fn nearest_unloaded_scans_forward_then_backward() {
    let mut book = dir_book(20);
    // settle pages 10 through 15 so the forward window is partly warm
    let page = png_bytes(2, 2);
    for i in 10..=15 {
        match book.load(i).unwrap() {
            LoadOutcome::NeedsFile(_) => {
                book.load_bytes(i, page.clone()).unwrap();
            }
            _ => panic!("expected a file request"),
        }
    }
    // the forward window 10..=15 is warm, so the scan turns backward to 9
    assert_eq!(book.has_unloaded_nearby(10, 2), Some(9));
    for i in 16..=17 {
        match book.load(i).unwrap() {
            LoadOutcome::NeedsFile(_) => {
                book.load_bytes(i, page.clone()).unwrap();
            }
            _ => panic!("expected a file request"),
        }
    }
    // pages 10 through 17 are warm, so the scan walks back past them
    assert_eq!(book.has_unloaded_nearby(12, 2), Some(9));
}

#[test]
fn loading_a_cached_page_changes_nothing() {
    let mut book = dir_book(3);
    let page = png_bytes(6, 2);
    match book.load(1).unwrap() {
        LoadOutcome::NeedsFile(path) => {
            assert_eq!(path, b"shelf/001.jpg".to_vec());
        }
        _ => panic!("expected a file request"),
    }
    match book.load_bytes(1, page.clone()).unwrap() {
        LoadOutcome::Loaded { data, content } => {
            assert_eq!(content, page);
            match data {
                manga_reader::cache::ImageData::Loaded { path, width, height } => {
                    assert_eq!(path, b"cache/page_001".to_vec());
                    assert_eq!((width, height), (6, 2));
                }
                _ => panic!("expected a loaded descriptor"),
            }
        }
        _ => panic!("expected a load"),
    }
    // a second request for the same index settles into a no-op: no new
    // file, no changed descriptor
    match book.load(1).unwrap() {
        LoadOutcome::Nothing => {}
        _ => panic!("expected nothing to happen"),
    }
    match book.load_bytes(1, page.clone()).unwrap() {
        LoadOutcome::Nothing => {}
        _ => panic!("expected nothing to happen"),
    }
}

#[test]
fn empty_bytes_settle_a_page_without_a_file() {
    let mut book = dir_book(2);
    match book.load_bytes(0, Vec::new()).unwrap() {
        LoadOutcome::NoContent => {}
        _ => panic!("expected the no-content outcome"),
    }
    // the page is settled: it is no longer unloaded, and it produced no
    // cache entry
    assert!(!book.is_unloaded(0));
    match book.load_bytes(1, Vec::new()).unwrap() {
        LoadOutcome::NoContent => {}
        _ => panic!("expected the no-content outcome"),
    }
    assert!(book.all_loaded());
    assert_eq!(book.into_caches().len(), 0);
}

#[test]
fn teardown_returns_one_entry_per_cached_page() {
    let mut book = dir_book(10);
    let page = png_bytes(2, 2);
    for i in 0..3 {
        match book.load(i).unwrap() {
            LoadOutcome::NeedsFile(_) => {
                book.load_bytes(i, page.clone()).unwrap();
            }
            _ => panic!("expected a file request"),
        }
    }
    assert!(!book.all_loaded());
    let caches = book.into_caches();
    assert_eq!(caches.len(), 3);
}

#[test]
fn stop_wins_over_pending_work() {
    // 3 of 10 pages cached, stop raised: the decision is to stop, not to
    // decode page 4
    let mut book = dir_book(10);
    let page = png_bytes(2, 2);
    for i in 0..3 {
        match book.load(i).unwrap() {
            LoadOutcome::NeedsFile(_) => {
                book.load_bytes(i, page.clone()).unwrap();
            }
            _ => panic!("expected a file request"),
        }
    }
    assert_eq!(prefetch_step(&book, true, 1, 1), StepDecision::Stop);
    assert_eq!(prefetch_step(&book, false, 1, 1), StepDecision::Load(3));
}

#[test]
fn scheduler_finishes_voluntarily_when_all_pages_settle() {
    let mut book = dir_book(2);
    let page = png_bytes(2, 2);
    for i in 0..2 {
        match book.load(i).unwrap() {
            LoadOutcome::NeedsFile(_) => {
                book.load_bytes(i, page.clone()).unwrap();
            }
            _ => panic!("expected a file request"),
        }
    }
    assert_eq!(prefetch_step(&book, false, 0, 1), StepDecision::Done);
}

#[test]
fn scheduler_states_cycle_through_draining() {
    let s = SchedulerState::Idle;
    let s = s.start();
    assert_eq!(s, SchedulerState::Running);
    let s = s.request_stop();
    assert_eq!(s, SchedulerState::Draining);
    let s = s.drained();
    assert_eq!(s, SchedulerState::Idle);
    // a stop on an idle scheduler changes nothing
    assert_eq!(s.request_stop(), SchedulerState::Idle);
}

#[test]
fn password_candidates_grow_once_each() {
    // a directory source takes no passwords at all
    let mut book = dir_book(1);
    assert!(!book.add_password(b"x".to_vec()));
}

#[test]
fn book_page_count_is_stable_across_calls() {
    let book = dir_book(7);
    assert_eq!(book.page_count(), 7);
    assert_eq!(book.page_count(), book.page_count());
}

#[test]
fn directory_identity_depends_on_names_alone() {
    let names = || vec![b"2.png".to_vec(), b"1.png".to_vec(), b"note.txt".to_vec()];
    let d1 = DirectorySource::new(b"here".to_vec(), names());
    let d2 = DirectorySource::new(b"elsewhere".to_vec(), names());
    assert_eq!(d1.page_count(), 2);
    assert!(identity_eq(d1.sha256(), d2.sha256()));
}

#[test]
fn zip_books_accept_each_password_candidate_once() {
    let page = png_bytes(4, 4);
    let mut w = zip::ZipWriter::new(std::io::Cursor::new(Vec::new()));
    let options = zip::write::SimpleFileOptions::default();
    w.start_file("0.png", options).unwrap();
    std::io::Write::write_all(&mut w, &page).unwrap();
    let data = w.finish().unwrap().into_inner();
    let s = manga_reader::source::create_source(b"c.zip", 
        manga_reader::source::ContainerInput::File(data), None).unwrap();
    let mut book = MangaBook::new(s, b"cache".to_vec());
    assert!(book.add_password(b"first".to_vec()));
    assert!(!book.add_password(b"first".to_vec()));
    assert!(book.add_password(b"second".to_vec()));
}

#[test]
fn teardown_hands_entries_back_in_page_order() {
    let mut book = dir_book(5);
    let page = png_bytes(2, 2);
    // settle pages out of order; teardown still walks the slots forward
    for i in [3usize, 0, 4] {
        match book.load(i).unwrap() {
            LoadOutcome::NeedsFile(_) => {
                book.load_bytes(i, page.clone()).unwrap();
            }
            _ => panic!("expected a file request"),
        }
    }
    let caches = book.into_caches();
    let paths: Vec<&[u8]> = caches.iter().map(|c| c.get_path().as_slice()).collect();
    assert_eq!(
        paths,
        vec![
            b"cache/page_000".as_slice(),
            b"cache/page_003".as_slice(),
            b"cache/page_004".as_slice()
        ]
    );
}
