//! Where things live: the site's pages, the dataset's directories and
//! files, and the storage keys of a title's chapters.

use vstd::prelude::*;

use crate::decimal::{count_text, decimal};
use crate::text::{
    chars_of, contains_text, lemma_split_nonempty, lemma_split_two, replace_all,
    lemma_split_concat, lemma_split_single, split_chars, split_on, string_from_chars, text_contains,
    text_replace, views,
};

verus! {

/// The site the titles are read from.
pub const BASE_URL: &'static str = "https://mangasee123.com";

/// The name of the progress record kept in a title's directory.
pub const CHECKPOINT_FILE: &'static str = "checkpoint.txt";

/// The concatenation of two texts.
fn concat(a: &str, b: &str) -> (s: String)
    ensures
        s@ == a@ + b@,
{
    let mut s = a.to_string();
    s.append(b);
    s
}

/// The page that lists a title's chapters.
pub fn manga_page_url(manga_name: &str) -> (s: String)
    ensures
        s@ == BASE_URL@ + "/manga/"@ + manga_name@,
{
    let mut s = concat(BASE_URL, "/manga/");
    s.append(manga_name);
    s
}

/// The reader page of a chapter, from the link found on the title's page.
pub fn chapter_page_url(href: &str) -> (s: String)
    ensures
        s@ == BASE_URL@ + href@,
{
    concat(BASE_URL, href)
}

/// Whether a chapter link leads to the online reader; other links are
/// skipped.
pub fn is_reader_link(href: &str) -> (r: bool)
    ensures
        r == contains_text(href@, "read-online"@),
{
    text_contains(href, "read-online")
}

/// Whether a button's label shows that the reader is in long-strip mode, in
/// which the button is pressed before the images are taken.
pub fn is_long_strip_label(label: &str) -> (r: bool)
    ensures
        r == contains_text(label@, "Long Strip"@),
{
    text_contains(label, "Long Strip")
}

/// The directory of chapter `index` inside a title's directory.
pub fn chapter_dir(manga_dir: &str, index: usize) -> (s: String)
    ensures
        s@ == manga_dir@ + "/Chapters/Chapter_"@ + decimal(index as nat),
{
    let mut s = concat(manga_dir, "/Chapters/Chapter_");
    s.append(count_text(index as u64).as_str());
    s
}

/// The file of the chapter list inside a title's directory.
pub fn chapters_json_path(manga_dir: &str) -> (s: String)
    ensures
        s@ == manga_dir@ + "/chapters.json"@,
{
    concat(manga_dir, "/chapters.json")
}

/// The storage key of a title's chapter list: its path with every `./`
/// taken out.
pub fn chapters_json_key(manga_dir: &str) -> (s: String)
    ensures
        s@ == replace_all(manga_dir@ + "/chapters.json"@, "./"@, Seq::<char>::empty()),
{
    let path = chapters_json_path(manga_dir);
    proof {
        reveal_strlit("./");
        reveal_strlit("");
        assert(""@ =~= Seq::<char>::empty());
    }
    text_replace(path.as_str(), "./", "")
}

/// The last `/`-separated piece of a text.
pub open spec fn last_segment(s: Seq<char>) -> Seq<char> {
    split_on(s, '/').last()
}

/// The file name of an image: what follows the last `/` of its link.
pub fn image_file_name(link: &str) -> (s: String)
    ensures
        s@ == last_segment(link@),
{
    let pieces = split_chars(&chars_of(link), '/');
    proof {
        lemma_split_nonempty(link@, '/');
    }
    let n = pieces.len();
    assert(views(pieces@)[n - 1] == pieces@[n - 1]@);
    string_from_chars(&pieces[n - 1])
}

/// The file an image of chapter `index` is saved to.
pub fn image_path(manga_dir: &str, index: usize, link: &str) -> (s: String)
    ensures
        s@ == manga_dir@ + "/Chapters/Chapter_"@ + decimal(index as nat) + "/"@ + last_segment(
            link@,
        ),
{
    let mut s = chapter_dir(manga_dir, index);
    s.append("/");
    s.append(image_file_name(link).as_str());
    s
}

/// Where a stored chapter file goes: the directory named by the piece of its
/// key before the file name, and the file itself.
#[derive(Debug, Clone)]
pub struct DownloadTarget {
    pub chapter_dir: String,
    pub file_path: String,
}

/// The next-to-last `/`-separated piece of a text.
pub open spec fn parent_segment(s: Seq<char>) -> Seq<char> {
    let pieces = split_on(s, '/');
    pieces[pieces.len() - 2]
}

/// Places the stored file `key` under `chapters_dir`: the chapter directory
/// is `chapters_dir`, a `/` and the key's next-to-last piece; the file is
/// that directory, a `/` and the key's last piece.
pub fn download_target(chapters_dir: &str, key: &str) -> (t: DownloadTarget)
    requires
        key@.contains('/'),
    ensures
        t.chapter_dir@ == chapters_dir@ + "/"@ + parent_segment(key@),
        t.file_path@ == t.chapter_dir@ + "/"@ + last_segment(key@),
{
    let pieces = split_chars(&chars_of(key), '/');
    proof {
        lemma_split_two(key@, '/');
    }
    let n = pieces.len();
    assert(views(pieces@)[n - 1] == pieces@[n - 1]@);
    assert(views(pieces@)[n - 2] == pieces@[n - 2]@);
    let mut dir = concat(chapters_dir, "/");
    dir.append(string_from_chars(&pieces[n - 2]).as_str());
    let mut file = concat(dir.as_str(), "/");
    file.append(string_from_chars(&pieces[n - 1]).as_str());
    DownloadTarget { chapter_dir: dir, file_path: file }
}


/// A text without `/` is its own last segment.
pub proof fn lemma_last_segment_whole(f: Seq<char>)
    requires
        !f.contains('/'),
    ensures
        last_segment(f) == f,
{
    lemma_split_single(f, '/');
}

/// What follows the last `/` is the last segment, whatever comes before.
pub proof fn lemma_last_segment(p: Seq<char>, f: Seq<char>)
    requires
        !f.contains('/'),
    ensures
        last_segment(p + seq!['/'] + f) == f,
{
    lemma_split_concat(p, '/', f);
    lemma_split_single(f, '/');
}

/// A storage key `p/d/f`, with `d` and `f` free of `/`: its chapter piece is
/// the whole of `d` and its file piece the whole of `f`.
pub proof fn lemma_key_segments(p: Seq<char>, d: Seq<char>, f: Seq<char>)
    requires
        !d.contains('/'),
        !f.contains('/'),
    ensures
        parent_segment(p + seq!['/'] + d + seq!['/'] + f) == d,
        last_segment(p + seq!['/'] + d + seq!['/'] + f) == f,
{
    let q = p + seq!['/'] + d;
    assert(p + seq!['/'] + d + seq!['/'] + f =~= q + seq!['/'] + f);
    lemma_split_concat(q, '/', f);
    lemma_split_concat(p, '/', d);
    lemma_split_single(d, '/');
    lemma_split_single(f, '/');
    let key = q + seq!['/'] + f;
    let pieces = split_on(key, '/');
    assert(pieces =~= split_on(p, '/') + seq![d] + seq![f]);
}

} // verus!
