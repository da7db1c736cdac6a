//! The progress record kept while capturing a title chapter by chapter: the
//! link of the chapter to resume from, then how many chapters are done and
//! how many there are.

use vstd::prelude::*;

use crate::decimal::{
    count_text, decimal, is_digit, lemma_decimal, lemma_parse_decimal, parse_count,
    parse_count_chars,
};
use crate::text::{
    append_chars, chars_of, lemma_split_nonempty, lemma_split_prefix, lemma_split_single,
    split_chars, split_on, string_from_chars, views,
};

verus! {

/// Why a progress record cannot be read.
#[derive(Debug, Clone, Copy, PartialEq, Eq, Structural)]
pub enum CheckpointError {
    /// The record has a link but no line of counts after it.
    MissingProgress,
    /// A count is not a decimal number that fits.
    BadCount,
}

/// Where a capture stands: the link to resume from, the chapters done and
/// the chapters in all.
#[derive(Debug, Clone)]
pub struct Checkpoint {
    pub link: String,
    pub done: usize,
    pub total: usize,
}

/// What a progress record says. Its first line is the link; an empty record
/// means nothing is done yet. Otherwise the second line holds the count of
/// chapters done, a comma, and the count of chapters in all (taken as 0 when
/// the comma is missing). Lines after the second are not read.
pub open spec fn read_checkpoint(text: Seq<char>) -> Result<(Seq<char>, usize, usize), CheckpointError> {
    let lines = split_on(text, '\n');
    if text.len() == 0 {
        Ok((Seq::<char>::empty(), 0, 0))
    } else if lines.len() < 2 {
        Err(CheckpointError::MissingProgress)
    } else {
        let fields = split_on(lines[1], ',');
        match parse_count(fields[0]) {
            None => Err(CheckpointError::BadCount),
            Some(done) => if fields.len() < 2 {
                Ok((lines[0], done, 0))
            } else {
                match parse_count(fields[1]) {
                    None => Err(CheckpointError::BadCount),
                    Some(total) => Ok((lines[0], done, total)),
                }
            },
        }
    }
}

/// The record written before capturing a chapter: the link, a newline, the
/// chapter's number, a comma, the number of chapters, a newline.
pub open spec fn checkpoint_text(link: Seq<char>, done: usize, total: usize) -> Seq<char> {
    link + seq!['\n'] + decimal(done as nat) + seq![','] + decimal(total as nat) + seq!['\n']
}

/// Reads a progress record.
pub fn parse_checkpoint(text: &str) -> (r: Result<Checkpoint, CheckpointError>)
    ensures
        match r {
            Ok(c) => read_checkpoint(text@) == Ok::<(Seq<char>, usize, usize), CheckpointError>(
                (c.link@, c.done, c.total),
            ),
            Err(e) => read_checkpoint(text@) == Err::<(Seq<char>, usize, usize), CheckpointError>(
                e,
            ),
        },
{
    let chars = chars_of(text);
    if chars.len() == 0 {
        return Ok(Checkpoint { link: String::new(), done: 0, total: 0 });
    }
    let lines = split_chars(&chars, '\n');
    proof {
        lemma_split_nonempty(text@, '\n');
    }
    if lines.len() < 2 {
        return Err(CheckpointError::MissingProgress);
    }
    assert(views(lines@)[1] == lines@[1]@);
    assert(views(lines@)[0] == lines@[0]@);
    let fields = split_chars(&lines[1], ',');
    proof {
        lemma_split_nonempty(lines@[1]@, ',');
    }
    assert(views(fields@)[0] == fields@[0]@);
    let done = match parse_count_chars(&fields[0]) {
        Some(d) => d,
        None => {
            return Err(CheckpointError::BadCount);
        },
    };
    let total = if fields.len() < 2 {
        0
    } else {
        assert(views(fields@)[1] == fields@[1]@);
        match parse_count_chars(&fields[1]) {
            Some(t) => t,
            None => {
                return Err(CheckpointError::BadCount);
            },
        }
    };
    let link = string_from_chars(&lines[0]);
    Ok(Checkpoint { link, done, total })
}

/// Writes the progress record for resuming at `link` with `done` of `total`
/// chapters captured.
pub fn checkpoint_record(link: &str, done: usize, total: usize) -> (s: String)
    ensures
        s@ == checkpoint_text(link@, done, total),
{
    let mut out = chars_of(link);
    out.push('\n');
    append_chars(&mut out, &chars_of(count_text(done as u64).as_str()));
    out.push(',');
    append_chars(&mut out, &chars_of(count_text(total as u64).as_str()));
    out.push('\n');
    assert(out@ =~= checkpoint_text(link@, done, total));
    string_from_chars(&out)
}

/// The decimal text of a count holds no character but digits.
pub proof fn lemma_decimal_lacks(n: nat, c: char)
    requires
        !is_digit(c),
    ensures
        !decimal(n).contains(c),
{
    lemma_decimal(n);
    if decimal(n).contains(c) {
        let k = choose|k: int| 0 <= k < decimal(n).len() && decimal(n)[k] == c;
        assert(is_digit(decimal(n)[k]));
    }
}

/// A progress record reads back as it was written, whatever follows it, as
/// long as the link holds no newline.
pub proof fn lemma_checkpoint_round_trip(link: Seq<char>, done: usize, total: usize, rest: Seq<char>)
    requires
        !link.contains('\n'),
    ensures
        (checkpoint_text(link, done, total) + rest).len() > 0,
        read_checkpoint(checkpoint_text(link, done, total) + rest)
            == Ok::<(Seq<char>, usize, usize), CheckpointError>((link, done, total)),
{
    let d = decimal(done as nat);
    let t = decimal(total as nat);
    let counts = d + seq![','] + t;
    let text = checkpoint_text(link, done, total) + rest;
    lemma_decimal_lacks(done as nat, '\n');
    lemma_decimal_lacks(total as nat, '\n');
    lemma_decimal_lacks(total as nat, ',');
    assert(!counts.contains('\n')) by {
        if counts.contains('\n') {
            let k = choose|k: int| 0 <= k < counts.len() && counts[k] == '\n';
            if k < d.len() {
                assert(d[k] == '\n');
            } else if k > d.len() {
                assert(t[k - d.len() - 1] == '\n');
            }
        }
    }
    let after = counts + seq!['\n'] + rest;
    assert(text =~= link + seq!['\n'] + after);
    lemma_split_prefix(link, '\n', after);
    lemma_split_prefix(counts, '\n', rest);
    let lines = split_on(text, '\n');
    assert(lines[0] == link);
    assert(lines[1] == counts);
    lemma_decimal_lacks(done as nat, ',');
    lemma_split_prefix(d, ',', t);
    lemma_split_single(t, ',');
    let fields = split_on(counts, ',');
    assert(fields =~= seq![d, t]);
    lemma_parse_decimal(done);
    lemma_parse_decimal(total);
}

} // verus!
