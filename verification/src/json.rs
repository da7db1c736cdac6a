//! JSON text of scraped values: arrays, tagged values, and the objects whose
//! fields hold them.

use vstd::prelude::*;

use crate::decimal::{
    count_text, decimal, int_text, lemma_parse_decimal, lemma_signed_decimal, parse_count,
    signed_decimal,
};
use crate::text::{
    append_chars, chars_of, join, lemma_join_push, lemma_removed, replace_all, string_from_chars,
    string_views, text_replace,
};

verus! {

/// A value that has one text form, the one it is written out as.
pub trait Render {
    /// The text form of the value.
    spec fn rendered(&self) -> Seq<char>;

    /// Writes the text form of the value.
    fn render(&self) -> (s: String)
        ensures
            s@ == self.rendered(),
    ;
}

impl Render for String {
    open spec fn rendered(&self) -> Seq<char> {
        self@
    }

    fn render(&self) -> (s: String) {
        self.clone()
    }
}

/// An item as it stands inside a serialized array: an object (text that
/// starts with `{`) as it is, anything else in double quotes.
pub open spec fn quoted_unless_object(s: Seq<char>) -> Seq<char> {
    if s.len() > 0 && s[0] == '{' {
        s
    } else {
        seq!['"'] + s + seq!['"']
    }
}

/// An item's text inside an array, quoted or as it is.
pub open spec fn item_text(s: Seq<char>, quote: bool) -> Seq<char> {
    if quote {
        quoted_unless_object(s)
    } else {
        s
    }
}

/// The texts of the items, each quoted or as it is.
pub open spec fn item_texts(items: Seq<Seq<char>>, quote: bool) -> Seq<Seq<char>> {
    items.map_values(|s: Seq<char>| item_text(s, quote))
}

/// An array: the items' texts between brackets, separated by commas.
pub open spec fn array_text(items: Seq<Seq<char>>, quote: bool) -> Seq<char> {
    seq!['['] + join(item_texts(items, quote), seq![',']) + seq![']']
}

/// The text forms of a sequence of values.
pub open spec fn renderings<T: Render>(items: Seq<T>) -> Seq<Seq<char>> {
    items.map_values(|e: T| e.rendered())
}

/// Joining one more item adds a separator and the item.
pub proof fn lemma_join_step(items: Seq<Seq<char>>, sep: Seq<char>, i: int)
    requires
        0 <= i < items.len(),
    ensures
        join(items.take(i + 1), sep) == if i == 0 {
            items[0]
        } else {
            join(items.take(i), sep) + sep + items[i]
        },
{
    let t = items.take(i + 1);
    if i > 0 {
        assert(t.drop_last() =~= items.take(i));
    }
}

/// The item's text, quoted or as it is.
fn item_chars(r: Vec<char>, quote: bool) -> (t: Vec<char>)
    ensures
        t@ == item_text(r@, quote),
{
    if quote && !(r.len() > 0 && r[0] == '{') {
        let mut t: Vec<char> = Vec::new();
        t.push('"');
        append_chars(&mut t, &r);
        t.push('"');
        assert(t@ =~= seq!['"'] + r@ + seq!['"']);
        t
    } else {
        r
    }
}

/// Writes the items as an array, each quoted or as it is.
fn array_chars<T: Render>(items: &Vec<T>, quote: bool) -> (out: Vec<char>)
    ensures
        out@ == array_text(renderings(items@), quote),
{
    let n = items.len();
    let ghost texts = item_texts(renderings(items@), quote);
    let mut out: Vec<char> = Vec::new();
    out.push('[');
    assert(texts.take(0) =~= Seq::<Seq<char>>::empty());
    assert(out@ =~= seq!['['] + join(texts.take(0), seq![',']));
    for i in 0..n
        invariant
            n == items@.len(),
            texts == item_texts(renderings(items@), quote),
            texts.len() == n,
            out@ == seq!['['] + join(texts.take(i as int), seq![',']),
    {
        let ghost before = out@;
        if i > 0 {
            out.push(',');
        }
        let r = items[i].render();
        let t = item_chars(chars_of(r.as_str()), quote);
        append_chars(&mut out, &t);
        proof {
            lemma_join_step(texts, seq![','], i as int);
            assert(texts[i as int] == t@);
            if i == 0 {
                assert(join(texts.take(0), seq![',']) =~= Seq::<char>::empty());
                assert(out@ =~= seq!['['] + join(texts.take(1), seq![',']));
            } else {
                assert(out@ =~= seq!['['] + join(texts.take(i + 1), seq![',']));
            }
        }
    }
    out.push(']');
    assert(texts.take(n as int) =~= texts);
    assert(out@ =~= array_text(renderings(items@), quote));
    out
}

/// A scraped value: a number, a borrowed or owned text, an array of items,
/// or a nested object.
#[derive(Debug, Clone)]
pub enum Value<'a, T> {
    Int(i32),
    Str(&'a str),
    String(String),
    Array(Vec<T>),
    Object(T),
}

impl<'a, T> Value<'a, T> {
    /// The number held, or 0 for any other value.
    pub fn extract_i32(&self) -> (r: &i32)
        ensures
            *r == match self {
                Value::Int(x) => *x,
                _ => 0i32,
            },
    {
        if let Value::Int(x) = self {
            x
        } else {
            &0
        }
    }

    /// The borrowed text held, or the empty text for any other value.
    pub fn extract_string(&self) -> (r: &'a str)
        ensures
            match self {
                Value::Str(x) => r == *x,
                _ => r@ == Seq::<char>::empty(),
            },
    {
        proof {
            reveal_strlit("");
        }
        if let Value::Str(x) = self {
            x
        } else {
            ""
        }
    }

    /// The items of an array, or no items for any other value.
    pub fn extract_array(&self) -> (r: &[T])
        ensures
            match self {
                Value::Array(x) => r@ == x@,
                _ => r@ == Seq::<T>::empty(),
            },
    {
        if let Value::Array(x) = self {
            x.as_slice()
        } else {
            &[]
        }
    }

    /// The nested object, if the value is one.
    pub fn extract(&self) -> (r: Option<&T>)
        ensures
            match self {
                Value::Object(x) => r == Some(x),
                _ => r is None,
            },
    {
        if let Value::Object(x) = self {
            Some(x)
        } else {
            None
        }
    }
}

/// The text `formatted arguments`, which every value but an array is
/// written as.
pub open spec fn placeholder_text() -> Seq<char> {
    "formatted arguments"@
}

impl<'a, T: Render> Render for Value<'a, T> {
    /// An array is written as its items separated by commas between
    /// brackets; every other value as a fixed placeholder.
    open spec fn rendered(&self) -> Seq<char> {
        match self {
            Value::Array(x) => array_text(renderings(x@), false),
            _ => placeholder_text(),
        }
    }

    fn render(&self) -> (s: String) {
        match self {
            Value::Array(x) => {
                let v = array_chars(x, false);
                string_from_chars(&v)
            },
            _ => "formatted arguments".to_string(),
        }
    }
}

/// Serialization shared by the scraped objects.
pub trait Json {
    /// Writes the items as a JSON array: objects as they are, everything
    /// else as a quoted string.
    fn serialize_array<T: Render>(&self, iterator: &Vec<T>) -> (s: String)
        ensures
            s@ == array_text(renderings(iterator@), true),
    {
        let v = array_chars(iterator, true);
        string_from_chars(&v)
    }
}


/// A field name that is written as it is inside quotes: ASCII letters,
/// digits and underscores.
pub open spec fn is_field_name(s: Seq<char>) -> bool {
    forall|i: int|
        0 <= i < s.len() ==> {
            let c = #[trigger] s[i];
            ('a' <= c && c <= 'z') || ('A' <= c && c <= 'Z') || ('0' <= c && c <= '9') || c
                == '_'
        }
}

/// One field of a serialized object: the quoted name, then the value.
/// An array follows a bare colon and has no trailing comma; an object, a
/// number and an owned string follow `: ` and end with a comma; a borrowed
/// text is left out altogether.
pub open spec fn field_text<'a, T: Render>(name: Seq<char>, value: Value<'a, T>) -> Seq<char> {
    let key = seq!['"'] + name + seq!['"'];
    match value {
        Value::Array(x) => key + seq![':'] + array_text(renderings(x@), true),
        Value::Object(o) => key + seq![':', ' '] + o.rendered() + seq![','],
        Value::Int(i) => key + seq![':', ' '] + signed_decimal(i as int) + seq![','],
        Value::String(t) => key + seq![':', ' ', '"'] + t@ + seq!['"', ','],
        Value::Str(_) => Seq::<char>::empty(),
    }
}

/// Writes one field of an object.
pub fn render_field<'a, T: Render>(name: &str, value: &Value<'a, T>) -> (s: String)
    requires
        is_field_name(name@),
    ensures
        s@ == field_text(name@, *value),
{
    let mut out: Vec<char> = Vec::new();
    out.push('"');
    append_chars(&mut out, &chars_of(name));
    out.push('"');
    let ghost key = out@;
    assert(key =~= seq!['"'] + name@ + seq!['"']);
    match value {
        Value::Array(x) => {
            out.push(':');
            append_chars(&mut out, &array_chars(x, true));
            assert(out@ =~= key + seq![':'] + array_text(renderings(x@), true));
        },
        Value::Object(o) => {
            out.push(':');
            out.push(' ');
            let r = o.render();
            append_chars(&mut out, &chars_of(r.as_str()));
            out.push(',');
            assert(out@ =~= key + seq![':', ' '] + o.rendered() + seq![',']);
        },
        Value::Int(i) => {
            out.push(':');
            out.push(' ');
            let r = int_text(*i);
            append_chars(&mut out, &chars_of(r.as_str()));
            out.push(',');
            assert(out@ =~= key + seq![':', ' '] + signed_decimal(*i as int) + seq![',']);
        },
        Value::String(t) => {
            out.push(':');
            out.push(' ');
            out.push('"');
            append_chars(&mut out, &chars_of(t.as_str()));
            out.push('"');
            out.push(',');
            assert(out@ =~= key + seq![':', ' ', '"'] + t@ + seq!['"', ',']);
        },
        Value::Str(_) => {
            out = Vec::new();
        },
    }
    string_from_chars(&out)
}

/// One scraped chapter: its name and the links of its page images.
#[derive(Debug, Clone)]
pub struct Chapter<'a> {
    pub name: Value<'a, String>,
    pub images: Value<'a, String>,
}

/// The text `Chapter_` followed by the chapter's number.
pub open spec fn chapter_title(index: usize) -> Seq<char> {
    "Chapter_"@ + decimal(index as nat)
}

impl<'a> Json for Chapter<'a> {

}

impl<'a> Render for Chapter<'a> {
    /// The object `{` name-field images-field `}`.
    open spec fn rendered(&self) -> Seq<char> {
        seq!['{'] + field_text("name"@, self.name) + field_text("images"@, self.images) + seq![
            '}',
        ]
    }

    fn render(&self) -> (s: String) {
        proof {
            reveal_strlit("name");
            reveal_strlit("images");
        }
        let name_field = render_field("name", &self.name);
        let images_field = render_field("images", &self.images);
        let mut out: Vec<char> = Vec::new();
        out.push('{');
        append_chars(&mut out, &chars_of(name_field.as_str()));
        append_chars(&mut out, &chars_of(images_field.as_str()));
        out.push('}');
        assert(out@ =~= self.rendered());
        string_from_chars(&out)
    }
}

impl<'a> Chapter<'a> {
    /// The chapter numbered `index`, named `Chapter_<index>`, with its image
    /// links in order.
    pub fn new(index: usize, images: Vec<String>) -> (c: Chapter<'a>)
        ensures
            c.name matches Value::String(t) && t@ == chapter_title(index),
            c.images == Value::<'a, String>::Array(images),
    {
        let mut title = "Chapter_".to_string();
        let number = count_text(index as u64);
        title.append(number.as_str());
        Chapter { name: Value::String(title), images: Value::Array(images) }
    }

    /// The chapter as a JSON object, with a comma before the closing brace
    /// taken out.
    pub fn serialize(&self) -> (s: String)
        ensures
            s@ == replace_all(self.rendered(), ",}"@, "}"@),
    {
        let text = self.render();
        proof {
            reveal_strlit(",}");
        }
        text_replace(text.as_str(), ",}", "}")
    }
}


/// The chapter list of a title as JSON: the chapters' objects as an array,
/// with every backslash taken out.
pub fn chapters_document<'a>(chapters: Vec<Chapter<'a>>) -> (s: String)
    ensures
        s@ == replace_all(array_text(renderings(chapters@), false), seq!['\\'], Seq::<char>::empty()),
        !s@.contains('\\'),
{
    let list: Value<'a, Chapter<'a>> = Value::Array(chapters);
    let text = list.render();
    proof {
        reveal_strlit("\\");
        reveal_strlit("");
        assert("\\"@ =~= seq!['\\']);
        assert(""@ =~= Seq::<char>::empty());
        lemma_removed(text@, '\\');
    }
    text_replace(text.as_str(), "\\", "")
}


/// A string is written as its own characters, unchanged.
pub proof fn lemma_string_renders_as_itself(s: String)
    ensures
        s.rendered() == s@,
{
}

/// Each value's text form stands at the value's own place.
pub proof fn lemma_renderings<T: Render>(items: Seq<T>)
    ensures
        renderings(items).len() == items.len(),
        forall|i: int| 0 <= i < items.len() ==> #[trigger] renderings(items)[i] == items[i].rendered(),
{
}

/// An item stands in an array as it is; when quoting, an item that does not
/// start with `{` is put between double quotes and nothing else changes.
pub proof fn lemma_item_text(s: Seq<char>, quote: bool)
    ensures
        !quote ==> item_text(s, quote) == s,
        quote && s.len() > 0 && s[0] == '{' ==> item_text(s, quote) == s,
        quote && !(s.len() > 0 && s[0] == '{') ==> item_text(s, quote) == seq!['"'] + s + seq![
            '"',
        ],
{
}

/// An array of no items is `[]`.
pub proof fn lemma_array_text_empty(quote: bool)
    ensures
        array_text(Seq::<Seq<char>>::empty(), quote) == seq!['[', ']'],
{
    assert(item_texts(Seq::<Seq<char>>::empty(), quote) =~= Seq::<Seq<char>>::empty());
    assert(seq!['['] + Seq::<char>::empty() + seq![']'] =~= seq!['[', ']']);
}

/// One more item in an array: the array so far without its closing
/// bracket, a comma if it had items already, the new item's text, and the
/// closing bracket. Every item is written, in order.
pub proof fn lemma_array_text_push(items: Seq<Seq<char>>, x: Seq<char>, quote: bool)
    ensures
        array_text(items.push(x), quote) == (if items.len() == 0 {
            seq!['[']
        } else {
            array_text(items, quote).drop_last() + seq![',']
        }) + item_text(x, quote) + seq![']'],
{
    let ts = item_texts(items, quote);
    assert(item_texts(items.push(x), quote) =~= ts.push(item_text(x, quote)));
    lemma_join_push(ts, item_text(x, quote), seq![',']);
    let inner = join(ts, seq![',']);
    assert((seq!['['] + inner + seq![']']).drop_last() =~= seq!['['] + inner);
    if items.len() == 0 {
        assert(seq!['['] + item_text(x, quote) + seq![']'] =~= seq!['['] + item_text(x, quote)
            + seq![']']);
    } else {
        assert(seq!['['] + (inner + seq![','] + item_text(x, quote)) + seq![']'] =~= seq!['[']
            + inner + seq![','] + item_text(x, quote) + seq![']']);
    }
}

/// The text `Chapter_`.
pub open spec fn chapter_word() -> Seq<char> {
    seq!['C', 'h', 'a', 'p', 't', 'e', 'r', '_']
}

/// A chapter's title is `Chapter_` followed by a number that reads back as
/// the chapter's whole index.
pub proof fn lemma_chapter_title(index: usize)
    ensures
        chapter_title(index).len() > 8,
        chapter_title(index).take(8) == chapter_word(),
        parse_count(chapter_title(index).skip(8)) == Some(index),
{
    reveal_strlit("Chapter_");
    assert("Chapter_"@ =~= chapter_word());
    crate::decimal::lemma_decimal(index as nat);
    let t = chapter_title(index);
    assert(t.take(8) =~= chapter_word());
    assert(t.skip(8) =~= decimal(index as nat));
    lemma_parse_decimal(index);
}

/// The object a chapter with an owned name and an array of image links is
/// written as: `{"name": "` the name `","images":` the links quoted in an
/// array `}`.
pub proof fn lemma_chapter_rendered<'a>(c: Chapter<'a>, title: String, links: Vec<String>)
    requires
        c.name == Value::<'a, String>::String(title),
        c.images == Value::<'a, String>::Array(links),
    ensures
        c.rendered() == seq!['{', '"', 'n', 'a', 'm', 'e', '"', ':', ' ', '"'] + title@ + seq![
            '"',
            ',',
            '"',
            'i',
            'm',
            'a',
            'g',
            'e',
            's',
            '"',
            ':',
        ] + array_text(string_views(links@), true) + seq!['}'],
{
    reveal_strlit("name");
    reveal_strlit("images");
    assert("name"@ =~= seq!['n', 'a', 'm', 'e']);
    assert("images"@ =~= seq!['i', 'm', 'a', 'g', 'e', 's']);
    assert(renderings(links@) =~= string_views(links@));
    assert(c.rendered() =~= seq!['{', '"', 'n', 'a', 'm', 'e', '"', ':', ' ', '"'] + title@
        + seq!['"', ',', '"', 'i', 'm', 'a', 'g', 'e', 's', '"', ':'] + array_text(
        string_views(links@),
        true,
    ) + seq!['}']);
}


/// Every value but an array is written as the words `formatted arguments`.
pub proof fn lemma_value_placeholder<'a, T: Render>(v: Value<'a, T>)
    requires
        !(v is Array),
    ensures
        v.rendered() == seq![
            'f',
            'o',
            'r',
            'm',
            'a',
            't',
            't',
            'e',
            'd',
            ' ',
            'a',
            'r',
            'g',
            'u',
            'm',
            'e',
            'n',
            't',
            's',
        ],
{
    reveal_strlit("formatted arguments");
    assert(placeholder_text() =~= seq![
        'f',
        'o',
        'r',
        'm',
        'a',
        't',
        't',
        'e',
        'd',
        ' ',
        'a',
        'r',
        'g',
        'u',
        'm',
        'e',
        'n',
        't',
        's',
    ]);
}

/// A field starts with its name in double quotes, except a borrowed text,
/// which writes nothing. A number follows `: ` in decimal that reads back as
/// the number, and ends with a comma; an object follows `: ` as written and
/// ends with a comma.
pub proof fn lemma_field_text<'a, T: Render>(name: Seq<char>, v: Value<'a, T>)
    ensures
        v is Str ==> field_text(name, v) == Seq::<char>::empty(),
        !(v is Str) ==> field_text(name, v).take(name.len() + 2int) == seq!['"'] + name + seq!['"'],
        v matches Value::Int(i) ==> {
            let t = field_text(name, v);
            let k: int = name.len() + 4int;
            &&& t.len() > k
            &&& t.subrange(name.len() + 2int, k) == seq![':', ' ']
            &&& t.last() == ','
            &&& (i >= 0 ==> parse_count(t.subrange(k, t.len() - 1)) == Some(i as usize))
            &&& (i < 0 ==> t[k] == '-' && parse_count(t.subrange(k + 1, t.len() - 1)) == Some(
                (-(i as int)) as usize,
            ))
        },
        v matches Value::Object(o) ==> field_text(name, v) == seq!['"'] + name + seq![
            '"',
            ':',
            ' ',
        ] + o.rendered() + seq![','],
{
    let key = seq!['"'] + name + seq!['"'];
    match v {
        Value::Int(i) => {
            lemma_signed_decimal(i);
            crate::decimal::lemma_decimal((if i < 0 { -(i as int) } else { i as int }) as nat);
            let d = signed_decimal(i as int);
            let t = field_text(name, v);
            let k: int = name.len() + 4int;
            assert(t =~= key + seq![':', ' '] + d + seq![',']);
            assert(t.take(name.len() + 2int) =~= key);
            assert(t.subrange(name.len() + 2int, k) =~= seq![':', ' ']);
            assert(t.subrange(k, t.len() - 1) =~= d);
            if i < 0 {
                assert(t.subrange(k + 1, t.len() - 1) =~= d.drop_first());
            }
        },
        Value::Object(o) => {
            assert(field_text(name, v).take(name.len() + 2int) =~= key);
        },
        Value::Array(x) => {
            assert(field_text(name, v).take(name.len() + 2int) =~= key);
        },
        Value::String(s) => {
            assert(field_text(name, v).take(name.len() + 2int) =~= key);
        },
        Value::Str(_) => {},
    }
}

} // verus!
