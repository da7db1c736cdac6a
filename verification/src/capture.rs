//! The course of capturing a title chapter by chapter from the reader,
//! resumable from a progress record: where to start, what to record before
//! each chapter, where each chapter goes, and when to stop.

use vstd::prelude::*;

use crate::checkpoint::{
    checkpoint_record, checkpoint_text, parse_checkpoint, read_checkpoint, CheckpointError,
};
use crate::decimal::decimal;
use crate::json::{chapter_title, Chapter, Value};
use crate::layout::{chapter_dir, manga_page_url, BASE_URL};

verus! {

/// The first page to open.
#[derive(Debug, Clone)]
pub enum Opening {
    /// No progress is recorded: open the title's page and count its
    /// chapters.
    TitlePage(String),
    /// Progress is recorded: open the chapter it names.
    Resume(String),
}

/// How far a capture has got: the chapter being captured, how many
/// chapters there are, and the number the next captured chapter is saved
/// under (counted from 1 in each run).
#[derive(Debug, Clone, Copy, PartialEq, Eq, Structural)]
pub struct CaptureState {
    pub chapter: usize,
    pub total: usize,
    pub index: usize,
}

/// Decides how a capture starts from the text of its progress record: an
/// empty record starts at the title's page with nothing counted yet; any
/// other record resumes at its link with its counts, or is refused as
/// `read_checkpoint` refuses it.
pub fn begin_capture(record: &str, manga_name: &str) -> (r: Result<(Opening, CaptureState), CheckpointError>)
    ensures
        record@.len() == 0 ==> (r matches Ok((Opening::TitlePage(url), s)) && url@ == BASE_URL@
            + "/manga/"@ + manga_name@ && s == (CaptureState { chapter: 0, total: 0, index: 1 })),
        record@.len() != 0 ==> match read_checkpoint(record@) {
            Ok((link, done, total)) => r matches Ok((Opening::Resume(l), s)) && l@ == link && s
                == (CaptureState { chapter: done, total: total, index: 1 }),
            Err(e) => r == Err::<(Opening, CaptureState), CheckpointError>(e),
        },
{
    if record.is_empty() {
        let url = manga_page_url(manga_name);
        Ok((Opening::TitlePage(url), CaptureState { chapter: 0, total: 0, index: 1 }))
    } else {
        match parse_checkpoint(record) {
            Ok(c) => Ok(
                (Opening::Resume(c.link), CaptureState { chapter: c.done, total: c.total, index: 1 }),
            ),
            Err(e) => Err(e),
        }
    }
}

impl CaptureState {
    /// The state once the title's page has shown how many chapters there
    /// are.
    pub fn with_total(self, total: usize) -> (s: CaptureState)
        ensures
            s == (CaptureState { total: total, ..self }),
    {
        CaptureState { total, ..self }
    }

    /// Whether every chapter has been captured.
    pub fn is_done(&self) -> (r: bool)
        ensures
            r == (self.chapter >= self.total),
    {
        self.chapter >= self.total
    }

    /// The progress record written before capturing the current chapter,
    /// whose reader page is at `url`.
    pub fn record(&self, url: &str) -> (s: String)
        ensures
            s@ == checkpoint_text(url@, self.chapter, self.total),
    {
        checkpoint_record(url, self.chapter, self.total)
    }

    /// The directory the current chapter's images go to.
    pub fn chapter_dir(&self, manga_dir: &str) -> (s: String)
        ensures
            s@ == manga_dir@ + "/Chapters/Chapter_"@ + decimal(self.index as nat),
    {
        chapter_dir(manga_dir, self.index)
    }

    /// The captured chapter, with the links of the images saved.
    pub fn chapter<'a>(&self, images: Vec<String>) -> (c: Chapter<'a>)
        ensures
            c.name matches Value::String(t) && t@ == chapter_title(self.index),
            c.images == Value::<'a, String>::Array(images),
    {
        Chapter::new(self.index, images)
    }

    /// Moves on to the next chapter.
    pub fn advance(&mut self)
        requires
            old(self).chapter < old(self).total,
            old(self).index < usize::MAX,
        ensures
            *final(self) == (CaptureState {
                chapter: (old(self).chapter + 1) as usize,
                total: old(self).total,
                index: (old(self).index + 1) as usize,
            }),
    {
        self.chapter = self.chapter + 1;
        self.index = self.index + 1;
    }
}

} // verus!
