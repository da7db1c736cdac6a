use manga_scraper::checkpoint::{checkpoint_record, parse_checkpoint, CheckpointError};

fn read(text: &str) -> Result<(String, usize, usize), CheckpointError> {
    parse_checkpoint(text).map(|c| (c.link, c.done, c.total))
}

#[test]
fn checkpoint_empty_starts_fresh() {
    assert_eq!(read(""), Ok((String::new(), 0, 0)));
}

#[test]
fn checkpoint_reads_link_and_counts() {
    assert_eq!(read("https://x/ch-1\n3,10\n"), Ok(("https://x/ch-1".to_string(), 3, 10)));
    assert_eq!(read("u\n+7,8"), Ok(("u".to_string(), 7, 8)));
    assert_eq!(read("u\n3,10,99"), Ok(("u".to_string(), 3, 10)));
    assert_eq!(read("u\n1,2\nv\n5,6\n"), Ok(("u".to_string(), 1, 2)));
}

#[test]
fn checkpoint_missing_total_reads_as_zero() {
    assert_eq!(read("u\n3"), Ok(("u".to_string(), 3, 0)));
}

#[test]
fn checkpoint_missing_progress_line() {
    assert_eq!(read("url"), Err(CheckpointError::MissingProgress));
}

#[test]
fn checkpoint_bad_counts() {
    assert_eq!(read("url\nabc,10"), Err(CheckpointError::BadCount));
    assert_eq!(read("url\n3,x"), Err(CheckpointError::BadCount));
    assert_eq!(read("url\n-1,2"), Err(CheckpointError::BadCount));
    assert_eq!(read("url\n\n"), Err(CheckpointError::BadCount));
    assert_eq!(read("url\n+,2"), Err(CheckpointError::BadCount));
    assert_eq!(read("url\n 3,2"), Err(CheckpointError::BadCount));
    assert_eq!(read("url\n99999999999999999999999,1"), Err(CheckpointError::BadCount));
}

#[test]
fn checkpoint_record_text() {
    assert_eq!(checkpoint_record("u", 2, 5), "u\n2,5\n");
    assert_eq!(checkpoint_record("https://x/r.html", 0, 120), "https://x/r.html\n0,120\n");
}

#[test]
fn checkpoint_round_trip() {
    for (link, done, total) in [("u", 2usize, 5usize), ("", 0, 0), ("https://a/b-c.html", 41, 1000)] {
        let mut text = checkpoint_record(link, done, total);
        assert_eq!(read(&text), Ok((link.to_string(), done, total)));
        text.push_str("https://later\n9,9\n");
        assert_eq!(read(&text), Ok((link.to_string(), done, total)));
    }
}
