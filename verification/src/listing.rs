//! The listing of captured chapters: each chapter's serialized object in
//! its debug form, as a list, with every backslash taken out.

use vstd::prelude::*;

use crate::json::{Chapter, Render};
use crate::text::{
    append_chars, join, join_strings, lemma_join_push, lemma_remove_concat, lemma_remove_single, lemma_removed, replace_all, string_from_chars, string_views,
    text_replace,
};

verus! {

/// What `format!("{:?}", s)` writes for a string `s`.
pub uninterp spec fn debug_form(s: Seq<char>) -> Seq<char>;

/// Printable ASCII other than the double quote and the backslash: text that
/// the debug form leaves as it is.
pub open spec fn is_plain(s: Seq<char>) -> bool {
    forall|i: int|
        0 <= i < s.len() ==> {
            let c = #[trigger] s[i];
            ' ' <= c && c <= '~' && c != '"' && c != '\\'
        }
}

/// `format!("{:?}", s)` from std: the string between double quotes with
/// its special characters escaped. The contract names the result and states
/// that plain text comes out unchanged between the quotes; which escape each
/// other character gets is left to the name.
#[verifier::external_body]
fn debug_text(s: &str) -> (r: String)
    ensures
        r@ == debug_form(s@),
        is_plain(s@) ==> r@ == seq!['"'] + s@ + seq!['"'],
{
    format!("{:?}", s)
}

/// The list text: the items between brackets, separated by `, `, with every
/// backslash taken out.
pub open spec fn listing_of(items: Seq<Seq<char>>) -> Seq<char> {
    replace_all(
        seq!['['] + join(items, seq![',', ' ']) + seq![']'],
        seq!['\\'],
        Seq::<char>::empty(),
    )
}

/// The list of the given debug forms, with backslashes taken out.
pub fn listing_text(forms: &Vec<String>) -> (s: String)
    ensures
        s@ == listing_of(string_views(forms@)),
        !s@.contains('\\'),
{
    let mut out: Vec<char> = Vec::new();
    out.push('[');
    let inner = join_strings(forms, ", ");
    proof {
        reveal_strlit(", ");
        assert(", "@ =~= seq![',', ' ']);
    }
    append_chars(&mut out, &inner);
    out.push(']');
    assert(out@ =~= seq!['['] + join(string_views(forms@), seq![',', ' ']) + seq![']']);
    let whole = string_from_chars(&out);
    proof {
        reveal_strlit("\\");
        reveal_strlit("");
        assert("\\"@ =~= seq!['\\']);
        assert(""@ =~= Seq::<char>::empty());
        lemma_removed(whole@, '\\');
    }
    text_replace(whole.as_str(), "\\", "")
}

/// The serialized object of a chapter, in its debug form.
pub open spec fn chapter_debug_form<'a>(c: Chapter<'a>) -> Seq<char> {
    debug_form(replace_all(c.rendered(), ",}"@, "}"@))
}

/// The listing of captured chapters.
pub fn chapter_listing<'a>(chapters: &Vec<Chapter<'a>>) -> (s: String)
    ensures
        s@ == listing_of(chapters@.map_values(|c: Chapter<'a>| chapter_debug_form(c))),
{
    let n = chapters.len();
    let mut forms: Vec<String> = Vec::new();
    for i in 0..n
        invariant
            n == chapters@.len(),
            forms@.len() == i,
            forall|k: int|
                0 <= k < i ==> #[trigger] forms@[k]@ == chapter_debug_form(chapters@[k]),
    {
        let text = chapters[i].serialize();
        forms.push(debug_text(text.as_str()));
    }
    assert(string_views(forms@) =~= chapters@.map_values(
        |c: Chapter<'a>| chapter_debug_form(c),
    ));
    listing_text(&forms)
}


/// The text with every backslash taken out.
pub open spec fn without_backslashes(s: Seq<char>) -> Seq<char> {
    replace_all(s, seq!['\\'], Seq::<char>::empty())
}

/// The listing of no items is `[]`.
pub proof fn lemma_listing_empty()
    ensures
        listing_of(Seq::<Seq<char>>::empty()) == seq!['[', ']'],
{
    lemma_remove_concat(seq!['['], seq![']'], '\\');
    lemma_remove_single('[', '\\');
    lemma_remove_single(']', '\\');
    assert(seq!['['] + join(Seq::<Seq<char>>::empty(), seq![',', ' ']) + seq![']'] =~= seq![
        '[',
    ] + seq![']']);
}

/// The listing of the items so far, without its backslashes: `[`, the
/// items joined by `, `, `]`.
proof fn lemma_listing_shape(items: Seq<Seq<char>>)
    ensures
        listing_of(items) == seq!['['] + without_backslashes(join(items, seq![',', ' '])) + seq![
            ']',
        ],
{
    let j = join(items, seq![',', ' ']);
    assert(seq!['['] + j + seq![']'] =~= seq!['['] + (j + seq![']']));
    lemma_remove_concat(seq!['['], j + seq![']'], '\\');
    lemma_remove_concat(j, seq![']'], '\\');
    lemma_remove_single('[', '\\');
    lemma_remove_single(']', '\\');
}

/// One more item in a listing: the listing so far without its closing
/// bracket, `, ` if it had items already, the new item without its
/// backslashes, and the closing bracket. Every item is listed, in order.
pub proof fn lemma_listing_push(items: Seq<Seq<char>>, x: Seq<char>)
    ensures
        listing_of(items.push(x)) == (if items.len() == 0 {
            seq!['[']
        } else {
            listing_of(items).drop_last() + seq![',', ' ']
        }) + without_backslashes(x) + seq![']'],
{
    let sep = seq![',', ' '];
    lemma_listing_shape(items);
    lemma_listing_shape(items.push(x));
    lemma_join_push(items, x, sep);
    let j = join(items, sep);
    if items.len() > 0 {
        lemma_remove_concat(j + sep, x, '\\');
        lemma_remove_concat(j, sep, '\\');
        assert(sep =~= seq![','] + seq![' ']);
        lemma_remove_concat(seq![','], seq![' '], '\\');
        lemma_remove_single(',', '\\');
        lemma_remove_single(' ', '\\');
        assert((seq!['['] + without_backslashes(j) + seq![']']).drop_last() =~= seq!['[']
            + without_backslashes(j));
        assert(seq!['['] + (without_backslashes(j) + sep + without_backslashes(x)) + seq![']']
            =~= seq!['['] + without_backslashes(j) + sep + without_backslashes(x) + seq![']']);
    }
}

} // verus!
