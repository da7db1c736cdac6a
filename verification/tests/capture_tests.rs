use manga_scraper::capture::{begin_capture, CaptureState, Opening};
use manga_scraper::checkpoint::CheckpointError;

#[test]
fn capture_fresh_start_opens_title_page() {
    match begin_capture("", "one-piece") {
        Ok((Opening::TitlePage(url), state)) => {
            assert_eq!(url, "https://mangasee123.com/manga/one-piece");
            assert_eq!(state, CaptureState { chapter: 0, total: 0, index: 1 });
        }
        _ => panic!("expected a fresh start"),
    }
}

#[test]
fn capture_resumes_from_record() {
    match begin_capture("https://r/c5.html\n4,9\n", "x") {
        Ok((Opening::Resume(link), state)) => {
            assert_eq!(link, "https://r/c5.html");
            assert_eq!(state, CaptureState { chapter: 4, total: 9, index: 1 });
        }
        _ => panic!("expected a resume"),
    }
}

#[test]
fn capture_refuses_broken_record() {
    assert!(matches!(begin_capture("link only", "x"), Err(CheckpointError::MissingProgress)));
    assert!(matches!(begin_capture("l\nx,1", "x"), Err(CheckpointError::BadCount)));
}

#[test]
fn capture_steps() {
    let state = CaptureState { chapter: 0, total: 0, index: 1 }.with_total(2);
    assert_eq!(state, CaptureState { chapter: 0, total: 2, index: 1 });
    assert!(!state.is_done());
    assert_eq!(state.record("u"), "u\n0,2\n");
    assert_eq!(state.chapter_dir("./D/m/x"), "./D/m/x/Chapters/Chapter_1");
    let mut state = state;
    state.advance();
    assert_eq!(state, CaptureState { chapter: 1, total: 2, index: 2 });
    state.advance();
    assert!(state.is_done());
    let c = state.chapter(vec!["i".to_string()]);
    assert_eq!(c.serialize(), "{\"name\": \"Chapter_3\",\"images\":[\"i\"]}");
}
