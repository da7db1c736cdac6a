use manga_scraper::args::{DownloadCommand, EntityType, FetchMangaArgs, MangaType, ScrapeCommand};

#[test]
fn manga_type_parses_known_names() {
    assert_eq!("manga".parse::<MangaType>(), Ok(MangaType::Manga));
    assert_eq!("manhwa".parse::<MangaType>(), Ok(MangaType::Manhwa));
    assert_eq!("manhua".parse::<MangaType>(), Ok(MangaType::Manhua));
}

#[test]
fn manga_type_unknown_names_read_as_manga() {
    assert_eq!("comic".parse::<MangaType>(), Ok(MangaType::Manga));
    assert_eq!("".parse::<MangaType>(), Ok(MangaType::Manga));
    assert_eq!("Manhwa".parse::<MangaType>(), Ok(MangaType::Manga));
    assert_eq!("manhwa ".parse::<MangaType>(), Ok(MangaType::Manga));
    assert_eq!(MangaType::from_name("manhu"), MangaType::Manga);
}

#[test]
fn manga_type_names() {
    assert_eq!(MangaType::Manga.into_string(), "manga");
    assert_eq!(MangaType::Manhwa.into_string(), "manhwa");
    assert_eq!(MangaType::Manhua.into_string(), "manhua");
}

#[test]
fn manga_type_name_round_trip() {
    for m in [MangaType::Manga, MangaType::Manhwa, MangaType::Manhua] {
        assert_eq!(MangaType::from_name(m.into_string().as_str()), m);
    }
}

#[test]
fn manga_type_default_is_manga() {
    assert_eq!(MangaType::default(), MangaType::Manga);
}

#[test]
fn scrape_command_manga_dir() {
    let cmd = ScrapeCommand { type_m: MangaType::Manhwa, manga_name: "solo-leveling".to_string() };
    assert_eq!(cmd.manga_dir(), "./Dataset/manhwa/solo-leveling");
}

#[test]
fn download_command_chapters_dir() {
    let cmd = DownloadCommand {
        type_m: MangaType::Manga,
        manga_name: "one-piece".to_string(),
        count: None,
    };
    assert_eq!(cmd.chapters_dir(), "Dataset/manga/one-piece/Chapters/");
    let cmd = DownloadCommand {
        type_m: MangaType::Manhua,
        manga_name: "x".to_string(),
        count: Some(3),
    };
    assert_eq!(cmd.chapters_dir(), "Dataset/manhua/x/Chapters/");
}

#[test]
fn fetch_args_hold_their_task() {
    let args = FetchMangaArgs {
        entity_type: EntityType::Scrape(ScrapeCommand {
            type_m: MangaType::Manga,
            manga_name: "naruto".to_string(),
        }),
    };
    match args.entity_type {
        EntityType::Scrape(cmd) => assert_eq!(cmd.manga_dir(), "./Dataset/manga/naruto"),
        EntityType::Download(_) => panic!("wrong task"),
    }
}
