use manga_scraper::json::Chapter;
use manga_scraper::listing::{chapter_listing, listing_text};

#[test]
fn listing_joins_and_strips_backslashes() {
    let forms = vec!["\"a\"".to_string(), "\"b\\c\"".to_string()];
    assert_eq!(listing_text(&forms), "[\"a\", \"bc\"]");
    assert_eq!(listing_text(&vec![]), "[]");
}

#[test]
fn chapter_listing_matches_debug_of_serialized() {
    let chapters = vec![
        Chapter::new(1, vec!["https://c/1.png".to_string()]),
        Chapter::new(2, vec!["https://c/2\n.png".to_string(), "x".to_string()]),
    ];
    let serialized: Vec<String> = chapters.iter().map(|c| c.serialize()).collect();
    let expected = format!("{:?}", serialized).replace("\\", "");
    assert_eq!(chapter_listing(&chapters), expected);
}

#[test]
fn chapter_listing_quotes_each_object() {
    let chapters = vec![Chapter::new(1, vec!["a".to_string()])];
    assert_eq!(
        chapter_listing(&chapters),
        "[\"{\"name\": \"Chapter_1\",\"images\":[\"a\"]}\"]"
    );
}
