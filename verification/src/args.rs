//! The command model: what the scraper is asked to do, and for which title.

use vstd::prelude::*;

use crate::text::text_equal;

verus! {

/// The kind of a title, which also names its directory in the dataset.
#[derive(Debug, Clone, Copy, PartialEq, Eq, Structural)]
pub enum MangaType {
    Manga,
    Manhwa,
    Manhua,
}

/// The text `manga`.
pub open spec fn manga_word() -> Seq<char> {
    seq!['m', 'a', 'n', 'g', 'a']
}

/// The text `manhwa`.
pub open spec fn manhwa_word() -> Seq<char> {
    seq!['m', 'a', 'n', 'h', 'w', 'a']
}

/// The text `manhua`.
pub open spec fn manhua_word() -> Seq<char> {
    seq!['m', 'a', 'n', 'h', 'u', 'a']
}

impl MangaType {
    /// The lower-case name of the kind.
    pub open spec fn name(self) -> Seq<char> {
        match self {
            MangaType::Manga => manga_word(),
            MangaType::Manhwa => manhwa_word(),
            MangaType::Manhua => manhua_word(),
        }
    }

    /// The kind a name stands for; a name that is none of the three reads
    /// as `Manga`.
    pub open spec fn named(s: Seq<char>) -> MangaType {
        if s == manhwa_word() {
            MangaType::Manhwa
        } else if s == manhua_word() {
            MangaType::Manhua
        } else {
            MangaType::Manga
        }
    }

    /// Reads a kind from its name; any other text gives `Manga`.
    pub fn from_name(s: &str) -> (m: MangaType)
        ensures
            m == MangaType::named(s@),
    {
        proof {
            reveal_strlit("manhwa");
            reveal_strlit("manhua");
        }
        let manhwa = "manhwa";
        let manhua = "manhua";
        assert(manhwa@ =~= manhwa_word());
        assert(manhua@ =~= manhua_word());
        if text_equal(s, manhwa) {
            MangaType::Manhwa
        } else if text_equal(s, manhua) {
            MangaType::Manhua
        } else {
            MangaType::Manga
        }
    }

    /// The lower-case name of the kind, as an owned string.
    pub fn into_string(self) -> (s: String)
        ensures
            s@ == self.name(),
    {
        proof {
            reveal_strlit("manga");
            reveal_strlit("manhwa");
            reveal_strlit("manhua");
        }
        let text = match self {
            MangaType::Manga => "manga",
            MangaType::Manhwa => "manhwa",
            MangaType::Manhua => "manhua",
        };
        assert(text@ =~= self.name());
        text.to_string()
    }
}

impl Default for MangaType {
    fn default() -> (m: MangaType)
        ensures
            m == MangaType::Manga,
    {
        MangaType::Manga
    }
}

impl core::str::FromStr for MangaType {
    type Err = String;

    fn from_str(s: &str) -> (r: Result<MangaType, String>)
        ensures
            r == Ok::<MangaType, String>(MangaType::named(s@)),
    {
        Ok(MangaType::from_name(s))
    }
}

/// Every kind reads back from its own name.
pub proof fn lemma_name_round_trip(m: MangaType)
    ensures
        MangaType::named(m.name()) == m,
{
    assert(manga_word() != manhwa_word()) by {
        assert(manga_word().len() != manhwa_word().len());
    }
    assert(manga_word() != manhua_word()) by {
        assert(manga_word().len() != manhua_word().len());
    }
    assert(manhwa_word() != manhua_word()) by {
        assert(manhwa_word()[4] != manhua_word()[4]);
    }
}


/// What the scraper is asked to do.
#[derive(Debug)]
pub struct FetchMangaArgs {
    pub entity_type: EntityType,
}

/// The two tasks: fetch a stored title's chapters, or scrape a title from
/// the site.
#[derive(Debug)]
pub enum EntityType {
    Download(DownloadCommand),
    Scrape(ScrapeCommand),
}

/// Scrape a title from the site.
#[derive(Debug)]
pub struct ScrapeCommand {
    pub type_m: MangaType,
    pub manga_name: String,
}

/// Fetch a stored title's chapters, all of them when no count is given.
#[derive(Debug)]
pub struct DownloadCommand {
    pub type_m: MangaType,
    pub manga_name: String,
    pub count: Option<usize>,
}

impl ScrapeCommand {
    /// The title's directory: `./Dataset/<kind>/<name>`.
    pub fn manga_dir(&self) -> (s: String)
        ensures
            s@ == "./Dataset/"@ + self.type_m.name() + "/"@ + self.manga_name@,
    {
        let mut s = "./Dataset/".to_string();
        s.append(self.type_m.into_string().as_str());
        s.append("/");
        s.append(self.manga_name.as_str());
        s
    }
}

impl DownloadCommand {
    /// The directory the title's chapters are fetched into and listed
    /// under in storage: `Dataset/<kind>/<name>/Chapters/`.
    pub fn chapters_dir(&self) -> (s: String)
        ensures
            s@ == "Dataset/"@ + self.type_m.name() + "/"@ + self.manga_name@ + "/Chapters/"@,
    {
        let mut s = "Dataset/".to_string();
        s.append(self.type_m.into_string().as_str());
        s.append("/");
        s.append(self.manga_name.as_str());
        s.append("/Chapters/");
        s
    }
}

} // verus!
