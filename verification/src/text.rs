//! Character-level text operations with their mathematical models.

use vstd::prelude::*;

verus! {

/// `String::push` from std: appends one character.
#[verifier::external_body]
pub(crate) fn push_char(s: &mut String, c: char)
    ensures
        final(s)@ == old(s)@.push(c),
{
    s.push(c);
}

/// The characters of `s`, in order.
pub fn chars_of(s: &str) -> (v: Vec<char>)
    ensures
        v@ == s@,
{
    let mut v: Vec<char> = Vec::new();
    for c in it: s.chars()
        invariant
            v@ == it.seq().take(it.index() as int),
            it.seq() == s@,
    {
        v.push(c);
        assert(it.seq().take(it.index() + 1) == it.seq().take(it.index() as int).push(c));
    }
    v
}

/// A string holding exactly the characters of `v`.
pub fn string_from_chars(v: &Vec<char>) -> (s: String)
    ensures
        s@ == v@,
{
    let mut s = String::new();
    let n = v.len();
    for i in 0..n
        invariant
            n == v@.len(),
            s@ == v@.take(i as int),
    {
        push_char(&mut s, v[i]);
        assert(v@.take(i + 1) == v@.take(i as int).push(v@[i as int]));
    }
    assert(v@.take(n as int) == v@);
    s
}


/// The pieces of `s` between occurrences of `sep`, as splitting on a single
/// character yields them: `n` separators give `n + 1` pieces.
pub open spec fn split_on(s: Seq<char>, sep: char) -> Seq<Seq<char>>
    decreases s.len(),
{
    if s.len() == 0 {
        seq![Seq::<char>::empty()]
    } else {
        let rest = split_on(s.drop_first(), sep);
        if s[0] == sep {
            seq![Seq::<char>::empty()] + rest
        } else {
            rest.update(0, seq![s[0]] + rest[0])
        }
    }
}

/// The views of a sequence of character vectors.
pub open spec fn views(v: Seq<Vec<char>>) -> Seq<Seq<char>> {
    v.map_values(|p: Vec<char>| p@)
}

/// Splitting always yields at least one piece.
pub proof fn lemma_split_nonempty(s: Seq<char>, sep: char)
    ensures
        split_on(s, sep).len() >= 1,
    decreases s.len(),
{
    if s.len() > 0 {
        lemma_split_nonempty(s.drop_first(), sep);
    }
}

/// A text without the separator is a single piece.
pub proof fn lemma_split_single(s: Seq<char>, sep: char)
    requires
        !s.contains(sep),
    ensures
        split_on(s, sep) == seq![s],
    decreases s.len(),
{
    if s.len() > 0 {
        assert(!s.drop_first().contains(sep)) by {
            if s.drop_first().contains(sep) {
                let k = choose|k: int| 0 <= k < s.drop_first().len() && s.drop_first()[k] == sep;
                assert(s[k + 1] == sep);
            }
        }
        lemma_split_single(s.drop_first(), sep);
        assert(s[0] != sep) by {
            assert(s[0] == s[0]);
            if s[0] == sep {
                assert(s.contains(sep));
            }
        }
        assert(seq![s[0]] + s.drop_first() =~= s);
        let rest = split_on(s.drop_first(), sep);
        assert(rest.update(0, seq![s[0]] + rest[0]) =~= seq![s]);
    } else {
        assert(s =~= Seq::<char>::empty());
    }
}

/// A piece without the separator, the separator, then the rest: the piece
/// comes first and the rest splits on its own.
pub proof fn lemma_split_prefix(a: Seq<char>, sep: char, b: Seq<char>)
    requires
        !a.contains(sep),
    ensures
        split_on(a + seq![sep] + b, sep) == seq![a] + split_on(b, sep),
    decreases a.len(),
{
    let s = a + seq![sep] + b;
    if a.len() == 0 {
        assert(s.drop_first() =~= b);
        assert(s[0] == sep);
        assert(a =~= Seq::<char>::empty());
        assert(seq![Seq::<char>::empty()] + split_on(s.drop_first(), sep) =~= seq![a] + split_on(b, sep));
    } else {
        assert(!a.drop_first().contains(sep)) by {
            if a.drop_first().contains(sep) {
                let k = choose|k: int| 0 <= k < a.drop_first().len() && a.drop_first()[k] == sep;
                assert(a[k + 1] == sep);
            }
        }
        lemma_split_prefix(a.drop_first(), sep, b);
        assert(s.drop_first() =~= a.drop_first() + seq![sep] + b);
        assert(a[0] != sep) by {
            if a[0] == sep {
                assert(a.contains(sep));
            }
        }
        assert(s[0] == a[0]);
        assert(seq![a[0]] + a.drop_first() =~= a);
        let rest = split_on(s.drop_first(), sep);
        assert(rest.update(0, seq![s[0]] + rest[0]) =~= seq![a] + split_on(b, sep));
    }
}

/// Splits `s` at every `sep`.
pub fn split_chars(s: &Vec<char>, sep: char) -> (pieces: Vec<Vec<char>>)
    ensures
        views(pieces@) == split_on(s@, sep),
{
    let n = s.len();
    let mut done: Vec<Vec<char>> = Vec::new();
    let mut cur: Vec<char> = Vec::new();
    let mut i: usize = 0;
    assert(s@.skip(0) =~= s@);
    proof {
        lemma_split_nonempty(s@, sep);
        let r = split_on(s@, sep);
        assert(r =~= views(done@) + seq![cur@ + r[0]] + r.drop_first());
    }
    while i < n
        invariant
            n == s@.len(),
            i <= n,
            ({
                let r = split_on(s@.skip(i as int), sep);
                split_on(s@, sep) == views(done@) + seq![cur@ + r[0]] + r.drop_first()
            }),
        decreases n - i,
    {
        let c = s[i];
        let ghost tail = s@.skip(i as int);
        let ghost r1 = split_on(s@.skip(i + 1), sep);
        proof {
            assert(tail.drop_first() =~= s@.skip(i + 1));
            assert(tail[0] == c);
            lemma_split_nonempty(s@.skip(i + 1), sep);
        }
        if c == sep {
            let ghost old_done = done@;
            let ghost old_cur = cur@;
            done.push(cur);
            cur = Vec::new();
            proof {
                assert(views(done@) =~= views(old_done).push(old_cur));
                assert(split_on(tail, sep) == seq![Seq::<char>::empty()] + r1);
                assert(views(old_done) + seq![old_cur + Seq::<char>::empty()] + r1
                    =~= views(done@) + seq![cur@ + r1[0]] + r1.drop_first()) by {
                    assert(r1 =~= seq![r1[0]] + r1.drop_first());
                    assert(old_cur + Seq::<char>::empty() =~= old_cur);
                    assert(cur@ + r1[0] =~= r1[0]);
                }
            }
        } else {
            let ghost old_cur = cur@;
            cur.push(c);
            proof {
                assert(cur@ + r1[0] =~= old_cur + (seq![c] + r1[0]));
            }
        }
        i = i + 1;
    }
    proof {
        assert(s@.skip(n as int) =~= Seq::<char>::empty());
    }
    let ghost old_done = done@;
    done.push(cur);
    proof {
        assert(views(done@) =~= views(old_done).push(cur@));
        let r = split_on(s@.skip(n as int), sep);
        assert(r =~= seq![Seq::<char>::empty()]);
        assert(cur@ + r[0] =~= cur@);
    }
    done
}


/// `s` with every leftmost non-overlapping occurrence of `pat` replaced by
/// `rep`, scanning from the front, as `str::replace` does.
pub open spec fn replace_all(s: Seq<char>, pat: Seq<char>, rep: Seq<char>) -> Seq<char>
    decreases s.len(),
{
    if pat.len() == 0 || s.len() < pat.len() {
        s
    } else if s.take(pat.len() as int) == pat {
        rep + replace_all(s.skip(pat.len() as int), pat, rep)
    } else {
        seq![s[0]] + replace_all(s.drop_first(), pat, rep)
    }
}

/// `pat` stands in `s` at position `i`.
pub open spec fn occurs_at(s: Seq<char>, pat: Seq<char>, i: int) -> bool {
    0 <= i && i + pat.len() <= s.len() && s.subrange(i, i + pat.len()) == pat
}

/// `pat` stands somewhere in `s`.
pub open spec fn contains_text(s: Seq<char>, pat: Seq<char>) -> bool {
    exists|i: int| occurs_at(s, pat, i)
}

/// The items with `sep` between neighbours.
pub open spec fn join(items: Seq<Seq<char>>, sep: Seq<char>) -> Seq<char>
    decreases items.len(),
{
    if items.len() == 0 {
        Seq::<char>::empty()
    } else if items.len() == 1 {
        items[0]
    } else {
        join(items.drop_last(), sep) + sep + items.last()
    }
}

/// Appends the characters of `src` to `out`.
pub fn append_chars(out: &mut Vec<char>, src: &Vec<char>)
    ensures
        final(out)@ == old(out)@ + src@,
{
    let n = src.len();
    let ghost start = out@;
    for i in 0..n
        invariant
            n == src@.len(),
            out@ == start + src@.take(i as int),
    {
        out.push(src[i]);
        assert(src@.take(i + 1) == src@.take(i as int).push(src@[i as int]));
    }
    assert(src@.take(n as int) =~= src@);
}

/// Whether `pat` stands in `s` at position `i`.
fn occurs_at_exec(s: &Vec<char>, pat: &Vec<char>, i: usize) -> (r: bool)
    ensures
        r == occurs_at(s@, pat@, i as int),
{
    let n = s.len();
    let m = pat.len();
    if i > n || n - i < m {
        return false;
    }
    for j in 0..m
        invariant
            n == s@.len(),
            m == pat@.len(),
            i + m <= n,
            forall|k: int| 0 <= k < j ==> s@[i + k] == pat@[k],
    {
        if s[i + j] != pat[j] {
            assert(s@.subrange(i as int, i + m)[j as int] != pat@[j as int]);
            return false;
        }
    }
    assert(s@.subrange(i as int, i + m) =~= pat@);
    true
}

/// Whether `pat` stands anywhere in `s`.
pub fn contains_chars(s: &Vec<char>, pat: &Vec<char>) -> (r: bool)
    ensures
        r == contains_text(s@, pat@),
{
    let n = s.len();
    let m = pat.len();
    if m > n {
        return false;
    }
    let last = n - m;
    let mut i: usize = 0;
    while i <= last
        invariant
            n == s@.len(),
            m == pat@.len(),
            m <= n,
            last == n - m,
            i <= last + 1,
            forall|k: int| 0 <= k < i ==> !occurs_at(s@, pat@, k),
        decreases last + 1 - i,
    {
        if occurs_at_exec(s, pat, i) {
            return true;
        }
        if i == last {
            assert(forall|k: int| 0 <= k <= last ==> !occurs_at(s@, pat@, k));
            return false;
        }
        i = i + 1;
    }
    false
}

/// Whether `pat` stands anywhere in `s`, as `str::contains` tells.
pub fn text_contains(s: &str, pat: &str) -> (r: bool)
    ensures
        r == contains_text(s@, pat@),
{
    contains_chars(&chars_of(s), &chars_of(pat))
}

/// `s` with `pat` replaced by `rep` throughout.
pub fn replace_chars(s: &Vec<char>, pat: &Vec<char>, rep: &Vec<char>) -> (r: Vec<char>)
    requires
        pat@.len() > 0,
    ensures
        r@ == replace_all(s@, pat@, rep@),
{
    let n = s.len();
    let m = pat.len();
    let mut out: Vec<char> = Vec::new();
    let mut i: usize = 0;
    assert(s@.skip(0) =~= s@);
    while i < n
        invariant
            n == s@.len(),
            m == pat@.len(),
            m > 0,
            i <= n,
            replace_all(s@, pat@, rep@) == out@ + replace_all(s@.skip(i as int), pat@, rep@),
        decreases n - i,
    {
        let ghost t = s@.skip(i as int);
        let ghost old_out = out@;
        if occurs_at_exec(s, pat, i) {
            proof {
                assert(t.take(m as int) =~= s@.subrange(i as int, i + m));
                assert(t.skip(m as int) =~= s@.skip(i + m));
            }
            append_chars(&mut out, rep);
            assert(out@ + replace_all(s@.skip(i + m), pat@, rep@) =~= old_out + (rep@
                + replace_all(s@.skip(i + m), pat@, rep@)));
            i = i + m;
        } else {
            out.push(s[i]);
            proof {
                assert(t.drop_first() =~= s@.skip(i + 1));
                assert(t[0] == s@[i as int]);
                if t.len() < m {
                    assert(t =~= seq![s@[i as int]] + s@.skip(i + 1));
                } else {
                    assert(t.take(m as int) =~= s@.subrange(i as int, i + m));
                }
                assert(out@ + replace_all(s@.skip(i + 1), pat@, rep@) =~= old_out + (seq![
                    s@[i as int],
                ] + replace_all(s@.skip(i + 1), pat@, rep@)));
            }
            i = i + 1;
        }
    }
    proof {
        assert(s@.skip(n as int) =~= Seq::<char>::empty());
        assert(out@ + Seq::<char>::empty() =~= out@);
    }
    out
}

/// `s` with `pat` replaced by `rep` throughout, as `str::replace` does it
/// for a non-empty pattern.
pub fn text_replace(s: &str, pat: &str, rep: &str) -> (r: String)
    requires
        pat@.len() > 0,
    ensures
        r@ == replace_all(s@, pat@, rep@),
{
    let v = replace_chars(&chars_of(s), &chars_of(pat), &chars_of(rep));
    string_from_chars(&v)
}


/// Whether `a` and `b` hold the same characters.
pub fn chars_equal(a: &Vec<char>, b: &Vec<char>) -> (r: bool)
    ensures
        r == (a@ == b@),
{
    let n = a.len();
    if n != b.len() {
        return false;
    }
    for i in 0..n
        invariant
            n == a@.len(),
            n == b@.len(),
            forall|k: int| 0 <= k < i ==> a@[k] == b@[k],
    {
        if a[i] != b[i] {
            return false;
        }
    }
    assert(a@ =~= b@);
    true
}

/// Whether `a` and `b` are the same text.
pub fn text_equal(a: &str, b: &str) -> (r: bool)
    ensures
        r == (a@ == b@),
{
    chars_equal(&chars_of(a), &chars_of(b))
}


/// A text holding the separator splits into at least two pieces.
pub proof fn lemma_split_two(s: Seq<char>, sep: char)
    requires
        s.contains(sep),
    ensures
        split_on(s, sep).len() >= 2,
    decreases s.len(),
{
    lemma_split_nonempty(s.drop_first(), sep);
    if s[0] != sep {
        let k = choose|k: int| 0 <= k < s.len() && s[k] == sep;
        assert(s.drop_first()[k - 1] == sep);
        lemma_split_two(s.drop_first(), sep);
    }
}


/// The views of a sequence of strings.
pub open spec fn string_views(v: Seq<String>) -> Seq<Seq<char>> {
    v.map_values(|s: String| s@)
}

/// The strings with `sep` between neighbours.
pub fn join_strings(items: &Vec<String>, sep: &str) -> (out: Vec<char>)
    ensures
        out@ == join(string_views(items@), sep@),
{
    let n = items.len();
    let ghost texts = string_views(items@);
    let sep_chars = chars_of(sep);
    let mut out: Vec<char> = Vec::new();
    assert(texts.take(0) =~= Seq::<Seq<char>>::empty());
    for i in 0..n
        invariant
            n == items@.len(),
            texts == string_views(items@),
            sep_chars@ == sep@,
            out@ == join(texts.take(i as int), sep@),
    {
        if i > 0 {
            append_chars(&mut out, &sep_chars);
        }
        append_chars(&mut out, &chars_of(items[i].as_str()));
        proof {
            let t = texts.take(i + 1);
            assert(texts[i as int] == items@[i as int]@);
            if i > 0 {
                assert(t.drop_last() =~= texts.take(i as int));
            } else {
                assert(join(texts.take(0), sep@) =~= Seq::<char>::empty());
            }
            assert(out@ =~= join(texts.take(i + 1), sep@));
        }
    }
    assert(texts.take(n as int) =~= texts);
    out
}

/// Replacing a single character by nothing leaves none of it.
pub proof fn lemma_removed(s: Seq<char>, c: char)
    ensures
        !replace_all(s, seq![c], Seq::<char>::empty()).contains(c),
    decreases s.len(),
{
    let pat = seq![c];
    if s.len() >= 1 {
        if s.take(1) == pat {
            lemma_removed(s.skip(1), c);
            assert(Seq::<char>::empty() + replace_all(s.skip(1), pat, Seq::<char>::empty())
                =~= replace_all(s.skip(1), pat, Seq::<char>::empty()));
        } else {
            lemma_removed(s.drop_first(), c);
            assert(s[0] != c) by {
                if s[0] == c {
                    assert(s.take(1) =~= pat);
                }
            }
            let r = replace_all(s.drop_first(), pat, Seq::<char>::empty());
            let whole = seq![s[0]] + r;
            if whole.contains(c) {
                let k = choose|k: int| 0 <= k < whole.len() && whole[k] == c;
                assert(r[k - 1] == c);
            }
        }
    }
}


/// Joining nothing gives the empty text.
pub proof fn lemma_join_empty(sep: Seq<char>)
    ensures
        join(Seq::<Seq<char>>::empty(), sep) == Seq::<char>::empty(),
{
}

/// Joining one more item: the item alone after no items, otherwise the
/// joined items, the separator and the item.
pub proof fn lemma_join_push(items: Seq<Seq<char>>, x: Seq<char>, sep: Seq<char>)
    ensures
        join(items.push(x), sep) == if items.len() == 0 {
            x
        } else {
            join(items, sep) + sep + x
        },
{
    assert(items.push(x).drop_last() =~= items);
    if items.len() == 0 {
        assert(items.push(x)[0] == x);
    }
}

/// Splitting text that holds the separator: the pieces of what stands
/// before it, then the pieces of what stands after it.
pub proof fn lemma_split_concat(a: Seq<char>, sep: char, b: Seq<char>)
    ensures
        split_on(a + seq![sep] + b, sep) == split_on(a, sep) + split_on(b, sep),
    decreases a.len(),
{
    let s = a + seq![sep] + b;
    lemma_split_nonempty(b, sep);
    if a.len() == 0 {
        assert(s.drop_first() =~= b);
        assert(s[0] == sep);
        assert(a =~= Seq::<char>::empty());
        assert(seq![Seq::<char>::empty()] + split_on(b, sep) =~= split_on(a, sep) + split_on(b, sep));
    } else {
        lemma_split_concat(a.drop_first(), sep, b);
        lemma_split_nonempty(a.drop_first(), sep);
        assert(s.drop_first() =~= a.drop_first() + seq![sep] + b);
        assert(s[0] == a[0]);
        let ra = split_on(a.drop_first(), sep);
        let rb = split_on(b, sep);
        if a[0] == sep {
            assert(seq![Seq::<char>::empty()] + (ra + rb) =~= (seq![Seq::<char>::empty()] + ra)
                + rb);
        } else {
            assert((ra + rb).update(0, seq![a[0]] + (ra + rb)[0]) =~= ra.update(
                0,
                seq![a[0]] + ra[0],
            ) + rb);
        }
    }
}

/// Taking a single character out of a concatenation takes it out of each
/// part.
pub proof fn lemma_remove_concat(a: Seq<char>, b: Seq<char>, c: char)
    ensures
        replace_all(a + b, seq![c], Seq::<char>::empty()) == replace_all(
            a,
            seq![c],
            Seq::<char>::empty(),
        ) + replace_all(b, seq![c], Seq::<char>::empty()),
    decreases a.len(),
{
    let pat = seq![c];
    let e = Seq::<char>::empty();
    let s = a + b;
    if a.len() == 0 {
        assert(s =~= b);
        assert(replace_all(a, pat, e) =~= e);
        assert(e + replace_all(b, pat, e) =~= replace_all(b, pat, e));
    } else {
        lemma_remove_concat(a.drop_first(), b, c);
        assert(s.take(1) =~= a.take(1));
        assert(s.skip(1) =~= a.skip(1) + b);
        assert(s.drop_first() =~= a.drop_first() + b);
        assert(a.skip(1) =~= a.drop_first());
        assert(s[0] == a[0]);
        let ra = replace_all(a.drop_first(), pat, e);
        let rb = replace_all(b, pat, e);
        if a.take(1) == pat {
            assert(e + (ra + rb) =~= (e + ra) + rb);
        } else {
            assert(seq![a[0]] + (ra + rb) =~= (seq![a[0]] + ra) + rb);
        }
    }
}

/// Taking a character out of a one-character text leaves nothing when it
/// is that character and the text otherwise.
pub proof fn lemma_remove_single(x: char, c: char)
    ensures
        replace_all(seq![x], seq![c], Seq::<char>::empty()) == if x == c {
            Seq::<char>::empty()
        } else {
            seq![x]
        },
{
    let s = seq![x];
    let e = Seq::<char>::empty();
    assert(s.take(1) =~= s);
    assert(s.skip(1) =~= e);
    assert(s.drop_first() =~= e);
    assert(replace_all(e, seq![c], e) =~= e);
    if x != c {
        assert(s != seq![c]) by {
            assert(s[0] != seq![c][0]);
        }
        assert(seq![x] + e =~= s);
    } else {
        assert(s =~= seq![c]);
        assert(e + e =~= e);
    }
}

/// Text in which the pattern does not stand is left as it is.
pub proof fn lemma_replace_absent(s: Seq<char>, pat: Seq<char>, rep: Seq<char>)
    requires
        pat.len() > 0,
        !contains_text(s, pat),
    ensures
        replace_all(s, pat, rep) == s,
    decreases s.len(),
{
    if s.len() >= pat.len() {
        assert(s.take(pat.len() as int) =~= s.subrange(0, pat.len() as int));
        assert(!occurs_at(s, pat, 0));
        assert(!contains_text(s.drop_first(), pat)) by {
            if contains_text(s.drop_first(), pat) {
                let k = choose|k: int| occurs_at(s.drop_first(), pat, k);
                assert(s.drop_first().subrange(k, k + pat.len()) =~= s.subrange(
                    k + 1,
                    k + 1 + pat.len(),
                ));
                assert(occurs_at(s, pat, k + 1));
            }
        }
        lemma_replace_absent(s.drop_first(), pat, rep);
        assert(seq![s[0]] + s.drop_first() =~= s);
    }
}


/// A pattern stands in any text built around it, and never in a text
/// shorter than itself.
pub proof fn lemma_contains(a: Seq<char>, pat: Seq<char>, b: Seq<char>, s: Seq<char>)
    ensures
        contains_text(a + pat + b, pat),
        s.len() < pat.len() ==> !contains_text(s, pat),
{
    let t = a + pat + b;
    assert(t.subrange(a.len() as int, a.len() + pat.len() as int) =~= pat);
    assert(occurs_at(t, pat, a.len() as int));
}

} // verus!
