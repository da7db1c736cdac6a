use manga_scraper::layout::{
    chapter_dir, chapter_page_url, chapters_json_key, chapters_json_path, download_target,
    image_file_name, image_path, is_long_strip_label, is_reader_link, manga_page_url, BASE_URL,
    CHECKPOINT_FILE,
};

#[test]
fn site_urls() {
    assert_eq!(BASE_URL, "https://mangasee123.com");
    assert_eq!(CHECKPOINT_FILE, "checkpoint.txt");
    assert_eq!(manga_page_url("one-piece"), "https://mangasee123.com/manga/one-piece");
    assert_eq!(
        chapter_page_url("/read-online/One-Piece-chapter-1.html"),
        "https://mangasee123.com/read-online/One-Piece-chapter-1.html"
    );
}

#[test]
fn reader_links_and_labels() {
    assert!(is_reader_link("/read-online/One-Piece-chapter-1.html"));
    assert!(!is_reader_link("/manga/One-Piece"));
    assert!(!is_reader_link(""));
    assert!(is_long_strip_label("Long Strip"));
    assert!(is_long_strip_label("Mode: Long Strip"));
    assert!(!is_long_strip_label("Single Page"));
}

#[test]
fn dataset_paths() {
    assert_eq!(chapter_dir("./Dataset/manga/x", 12), "./Dataset/manga/x/Chapters/Chapter_12");
    assert_eq!(chapters_json_path("./Dataset/manga/x"), "./Dataset/manga/x/chapters.json");
    assert_eq!(chapters_json_key("./Dataset/manga/x"), "Dataset/manga/x/chapters.json");
    assert_eq!(chapters_json_key("a/./b"), "a/b/chapters.json");
}

#[test]
fn image_names() {
    assert_eq!(image_file_name("https://cdn.x/m/0001-001.png"), "0001-001.png");
    assert_eq!(image_file_name("noslash"), "noslash");
    assert_eq!(image_file_name("a/"), "");
    assert_eq!(image_path("./D/m/x", 2, "https://c/p/7.png"), "./D/m/x/Chapters/Chapter_2/7.png");
}

#[test]
fn download_targets() {
    let t = download_target(
        "Dataset/manga/x/Chapters/",
        "Dataset/manga/x/Chapters/Chapter_1/001.png",
    );
    assert_eq!(t.chapter_dir, "Dataset/manga/x/Chapters//Chapter_1");
    assert_eq!(t.file_path, "Dataset/manga/x/Chapters//Chapter_1/001.png");
    let t = download_target("d", "a/b");
    assert_eq!(t.chapter_dir, "d/a");
    assert_eq!(t.file_path, "d/a/b");
}
