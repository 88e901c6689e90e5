//! Text in parts: lines, words and fields, and the joining of parts.

use vstd::prelude::*;

use crate::text::{chars_of, is_whitespace, slice, trim_front, CharClass};

verus! {

/// The contents of a sequence of texts.
pub open spec fn texts(v: Seq<&str>) -> Seq<Seq<char>> {
    v.map_values(|t: &str| t@)
}

/// The contents of a sequence of owned texts.
pub open spec fn strings(v: Seq<String>) -> Seq<Seq<char>> {
    v.map_values(|t: String| t@)
}

/// The position of the first `c` in `s`; the length of `s` if there is none.
pub open spec fn first_of(s: Seq<char>, c: char) -> nat
    decreases s.len(),
{
    if s.len() == 0 || s[0] == c {
        0
    } else {
        1 + first_of(s.skip(1), c)
    }
}

/// `first_of` finds the first `c`, and there is none where it gives the length.
pub proof fn law_first_of_is_the_first(s: Seq<char>, c: char)
    ensures
        first_of(s, c) <= s.len(),
        first_of(s, c) < s.len() ==> s[first_of(s, c) as int] == c,
        forall|j: int| 0 <= j < first_of(s, c) ==> s[j] != c,
    decreases s.len(),
{
    if s.len() > 0 && s[0] != c {
        law_first_of_is_the_first(s.skip(1), c);
        assert forall|j: int| 0 <= j < first_of(s, c) implies s[j] != c by {
            if j > 0 {
                assert(s.skip(1)[j - 1] != c);
            }
        }
    }
}

/// A line without the carriage return that ends it.
pub open spec fn without_return(s: Seq<char>) -> Seq<char> {
    if s.len() > 0 && s.last() == '\r' {
        s.drop_last()
    } else {
        s
    }
}

/// The lines of a text. A line ends with a line feed, and with a carriage return before
/// it if there is one; the last line needs no line feed.
pub open spec fn lines(s: Seq<char>) -> Seq<Seq<char>>
    decreases s.len(),
{
    if s.len() == 0 {
        Seq::empty()
    } else {
        let i = first_of(s, '\n') as int;
        if i >= s.len() {
            seq![s]
        } else {
            seq![without_return(s.take(i))] + lines(s.skip(i + 1))
        }
    }
}

/// The position of the first `c` of `v`, counted from `from`; the length if there is none.
pub fn seek(v: &Vec<char>, c: char, from: usize) -> (r: usize)
    requires
        from <= v@.len(),
    ensures
        from <= r <= v@.len(),
        r - from == first_of(v@.skip(from as int), c),
        r < v@.len() ==> v@[r as int] == c,
{
    let mut j: usize = from;
    while j < v.len() && v[j] != c
        invariant
            from <= j <= v@.len(),
            first_of(v@.skip(from as int), c) == (j - from) + first_of(v@.skip(j as int), c),
        decreases v@.len() - j,
    {
        assert(v@.skip(j as int).skip(1) =~= v@.skip(j + 1));
        j = j + 1;
    }
    j
}

/// The lines of `s`.
pub fn lines_of<'a>(s: &'a str) -> (r: Vec<&'a str>)
    ensures
        texts(r@) == lines(s@),
{
    let v = chars_of(s);
    let mut out: Vec<&'a str> = Vec::new();
    let mut p: usize = 0;
    assert(s@.skip(0) =~= s@);
    assert(texts(out@) + lines(s@.skip(0)) =~= lines(s@));
    while p < v.len()
        invariant
            v@ == s@,
            p <= v@.len(),
            texts(out@) + lines(s@.skip(p as int)) == lines(s@),
        decreases v@.len() - p,
    {
        let ghost was = out@;
        let ghost rest = s@.skip(p as int);
        let e = seek(&v, '\n', p);
        if e >= v.len() {
            let line = slice(s, p, e);
            assert(line@ =~= rest);
            out.push(line);
            p = e;
            assert(texts(out@) =~= texts(was) + seq![rest]);
            assert(lines(s@.skip(p as int)) =~= Seq::empty());
        } else {
            let stop: usize = if e > p && v[e - 1] == '\r' {
                e - 1
            } else {
                e
            };
            let line = slice(s, p, stop);
            proof {
                let whole = rest.take(e - p);
                assert(whole =~= s@.subrange(p as int, e as int));
                assert(line@ =~= without_return(whole));
            }
            out.push(line);
            p = e + 1;
            assert(texts(out@) =~= texts(was) + seq![line@]);
            assert(s@.skip(p as int) =~= rest.skip(first_of(rest, '\n') as int + 1));
            assert(texts(was) + (seq![line@] + lines(s@.skip(p as int))) =~= texts(out@) + lines(
                s@.skip(p as int),
            ));
        }
    }
    assert(lines(s@.skip(p as int)) =~= Seq::empty());
    assert(texts(out@) + Seq::empty() =~= texts(out@));
    out
}

/// The length of the longest prefix of `s` without white space.
pub open spec fn word_len(s: Seq<char>) -> nat
    decreases s.len(),
{
    if s.len() == 0 || is_whitespace(s[0]) {
        0
    } else {
        1 + word_len(s.skip(1))
    }
}

pub proof fn lemma_trim_front(s: Seq<char>, class: CharClass)
    ensures
        trim_front(s, class).len() <= s.len(),
        trim_front(s, class).len() > 0 ==> !class.has(trim_front(s, class)[0]),
    decreases s.len(),
{
    if s.len() > 0 && class.has(s[0]) {
        lemma_trim_front(s.skip(1), class);
    }
}

pub proof fn lemma_word_len(s: Seq<char>)
    ensures
        word_len(s) <= s.len(),
    decreases s.len(),
{
    if s.len() > 0 && !is_whitespace(s[0]) {
        lemma_word_len(s.skip(1));
    }
}

/// The words of a text: its longest parts without white space, in their order.
pub open spec fn words(s: Seq<char>) -> Seq<Seq<char>>
    decreases s.len(),
{
    let t = trim_front(s, CharClass::Whitespace);
    if t.len() == 0 {
        Seq::empty()
    } else {
        proof {
            lemma_trim_front(s, CharClass::Whitespace);
            lemma_word_len(t);
        }
        let n = word_len(t) as int;
        seq![t.take(n)] + words(t.skip(n))
    }
}

/// The words of `s`.
pub fn words_of<'a>(s: &'a str) -> (r: Vec<&'a str>)
    ensures
        texts(r@) == words(s@),
{
    let v = chars_of(s);
    let white = CharClass::Whitespace;
    let mut out: Vec<&'a str> = Vec::new();
    let mut p: usize = 0;
    assert(s@.skip(0) =~= s@);
    assert(texts(out@) + words(s@.skip(0)) =~= words(s@));
    loop
        invariant
            v@ == s@,
            white == CharClass::Whitespace,
            p <= v@.len(),
            texts(out@) + words(s@.skip(p as int)) == words(s@),
        decreases v@.len() - p,
    {
        let ghost was = out@;
        let ghost start = p as int;
        let ghost rest = s@.skip(p as int);
        while p < v.len() && white.contains(v[p])
            invariant
                v@ == s@,
                white == CharClass::Whitespace,
                start <= p <= v@.len(),
                rest == s@.skip(start),
                trim_front(rest, CharClass::Whitespace) == trim_front(
                    s@.skip(p as int),
                    CharClass::Whitespace,
                ),
            decreases v@.len() - p,
        {
            assert(s@.skip(p as int).skip(1) =~= s@.skip(p + 1));
            p = p + 1;
        }
        let ghost t = s@.skip(p as int);
        assert(t == trim_front(rest, CharClass::Whitespace));
        if p >= v.len() {
            assert(words(rest) =~= Seq::empty());
            assert(texts(out@) + Seq::empty() =~= texts(out@));
            return out;
        }
        let from: usize = p;
        while p < v.len() && !white.contains(v[p])
            invariant
                v@ == s@,
                white == CharClass::Whitespace,
                from <= p <= v@.len(),
                t == s@.skip(from as int),
                word_len(t) == (p - from) + word_len(s@.skip(p as int)),
            decreases v@.len() - p,
        {
            assert(s@.skip(p as int).skip(1) =~= s@.skip(p + 1));
            p = p + 1;
        }
        let word = slice(s, from, p);
        assert(word@ =~= t.take(p - from));
        assert(s@.skip(p as int) =~= t.skip(p - from));
        assert(p > from) by {
            assert(!is_whitespace(t[0]));
        }
        out.push(word);
        assert(texts(out@) =~= texts(was) + seq![word@]);
        assert(texts(was) + (seq![word@] + words(s@.skip(p as int))) =~= texts(out@) + words(
            s@.skip(p as int),
        ));
    }
}

/// The part of `s` between its first and its second `sep`; up to the end if there is only
/// one, nothing if there is none.
pub open spec fn second_field(s: Seq<char>, sep: char) -> Option<Seq<char>> {
    let i = first_of(s, sep) as int;
    if i >= s.len() {
        None
    } else {
        let t = s.skip(i + 1);
        Some(t.take(first_of(t, sep) as int))
    }
}

/// The part of `s` between its first and its second `sep`.
pub fn second_field_of<'a>(s: &'a str, sep: char) -> (r: Option<&'a str>)
    ensures
        r is Some <==> second_field(s@, sep) is Some,
        r matches Some(f) ==> second_field(s@, sep) == Some(f@),
{
    let v = chars_of(s);
    assert(s@.skip(0) =~= s@);
    let i = seek(&v, sep, 0);
    if i >= v.len() {
        return None;
    }
    let j = seek(&v, sep, i + 1);
    let f = slice(s, i + 1, j);
    assert(f@ =~= s@.skip(i + 1).take(j - (i + 1)));
    Some(f)
}

/// The parts, one after the other, with `sep` between each two.
pub open spec fn joined(parts: Seq<Seq<char>>, sep: Seq<char>) -> Seq<char>
    decreases parts.len(),
{
    if parts.len() == 0 {
        Seq::empty()
    } else if parts.len() == 1 {
        parts[0]
    } else {
        joined(parts.drop_last(), sep) + sep + parts.last()
    }
}

/// Joins the parts with `sep` between each two.
pub fn join(parts: &Vec<&str>, sep: &str) -> (r: String)
    ensures
        r@ == joined(texts(parts@), sep@),
{
    let mut out = String::new();
    let mut i: usize = 0;
    let ghost all = texts(parts@);
    assert(all.take(0) =~= Seq::empty());
    while i < parts.len()
        invariant
            i <= parts@.len(),
            all == texts(parts@),
            out@ == joined(all.take(i as int), sep@),
        decreases parts@.len() - i,
    {
        if i > 0 {
            out.append(sep);
        }
        out.append(parts[i]);
        proof {
            assert(all.take(i + 1).drop_last() =~= all.take(i as int));
            assert(all.take(i + 1).last() == parts@[i as int]@);
            if i == 0 {
                assert(out@ =~= parts@[0]@);
            }
        }
        i = i + 1;
    }
    assert(all.take(i as int) =~= all);
    out
}

/// A text that is one word: not empty, and without white space.
pub open spec fn is_word(s: Seq<char>) -> bool {
    s.len() > 0 && forall|i: int| 0 <= i < s.len() ==> !is_whitespace(#[trigger] s[i])
}

proof fn lemma_word_len_of(s: Seq<char>, n: int)
    requires
        0 <= n <= s.len(),
        forall|i: int| 0 <= i < n ==> !is_whitespace(#[trigger] s[i]),
        n < s.len() ==> is_whitespace(s[n]),
    ensures
        word_len(s) == n,
    decreases n,
{
    if n > 0 {
        assert(!is_whitespace(s[0]));
        let t = s.skip(1);
        assert forall|i: int| 0 <= i < n - 1 implies !is_whitespace(#[trigger] t[i]) by {
            assert(!is_whitespace(s[i + 1]));
        }
        lemma_word_len_of(t, n - 1);
    }
}

proof fn lemma_word_len_ends(s: Seq<char>)
    ensures
        word_len(s) <= s.len(),
        forall|i: int| 0 <= i < word_len(s) ==> !is_whitespace(#[trigger] s[i]),
        word_len(s) < s.len() ==> is_whitespace(s[word_len(s) as int]),
    decreases s.len(),
{
    if s.len() > 0 && !is_whitespace(s[0]) {
        lemma_word_len_ends(s.skip(1));
        assert forall|i: int| 0 <= i < word_len(s) implies !is_whitespace(#[trigger] s[i]) by {
            if i > 0 {
                assert(s.skip(1)[i - 1] == s[i]);
            }
        }
    }
}

/// The parts that `words` gives are words.
pub proof fn lemma_words_are_words(s: Seq<char>)
    ensures
        forall|i: int| 0 <= i < words(s).len() ==> is_word(#[trigger] words(s)[i]),
    decreases s.len(),
{
    let t = trim_front(s, CharClass::Whitespace);
    if t.len() > 0 {
        lemma_trim_front(s, CharClass::Whitespace);
        lemma_word_len_ends(t);
        let n = word_len(t) as int;
        lemma_words_are_words(t.skip(n));
        assert forall|i: int| 0 <= i < words(s).len() implies is_word(#[trigger] words(s)[i]) by {
            if i == 0 {
                assert(words(s)[0] =~= t.take(n));
            } else {
                assert(words(s)[i] == words(t.skip(n))[i - 1]);
            }
        }
    }
}

proof fn lemma_trim_front_extended(a: Seq<char>, b: Seq<char>)
    ensures
        trim_front(a, CharClass::Whitespace).len() > 0 ==> trim_front(a + b, CharClass::Whitespace)
            == trim_front(a, CharClass::Whitespace) + b,
        trim_front(a, CharClass::Whitespace).len() == 0 ==> trim_front(a + b, CharClass::Whitespace)
            == trim_front(b, CharClass::Whitespace),
    decreases a.len(),
{
    if a.len() == 0 {
        assert(a + b =~= b);
    } else if is_whitespace(a[0]) {
        lemma_trim_front_extended(a.skip(1), b);
        assert((a + b).skip(1) =~= a.skip(1) + b);
    }
}

/// A word after a text and a space is one more word.
pub proof fn lemma_one_more_word(a: Seq<char>, b: Seq<char>)
    requires
        is_word(b),
    ensures
        words(a + " "@ + b) == words(a).push(b),
        words(b) == seq![b],
    decreases a.len(),
{
    reveal_strlit(" ");
    let white = CharClass::Whitespace;
    let tail = " "@ + b;
    assert(a + " "@ + b =~= a + tail);
    assert(words(b) == seq![b]) by {
        assert(!is_whitespace(b[0]));
        lemma_word_len_of(b, b.len() as int);
        assert(b.take(b.len() as int) =~= b);
        assert(b.skip(b.len() as int) =~= Seq::empty());
        assert(words(Seq::empty()) =~= Seq::empty());
        assert(words(b) =~= seq![b]);
    }
    lemma_trim_front_extended(a, tail);
    let t = trim_front(a, white);
    lemma_trim_front(a, white);
    if t.len() == 0 {
        assert(tail.skip(1) =~= b);
        assert(trim_front(tail, white) == b) by {
            assert(is_whitespace(tail[0]));
            assert(!is_whitespace(b[0]));
        }
        assert(words(a + tail) =~= words(b));
        assert(words(a) =~= Seq::empty());
        assert(words(a).push(b) =~= seq![b]);
    } else {
        let u = t + tail;
        lemma_word_len_ends(t);
        let n = word_len(t) as int;
        assert forall|i: int| 0 <= i < n implies !is_whitespace(#[trigger] u[i]) by {
            assert(u[i] == t[i]);
        }
        assert(is_whitespace(u[n]));
        lemma_word_len_of(u, n);
        assert(u.take(n) =~= t.take(n));
        assert(u.skip(n) =~= t.skip(n) + " "@ + b);
        lemma_one_more_word(t.skip(n), b);
        assert(words(a + tail) =~= words(a).push(b));
    }
}

/// Words that are joined by spaces come apart again as the same words.
pub proof fn law_joined_words_come_apart(parts: Seq<Seq<char>>)
    requires
        forall|i: int| 0 <= i < parts.len() ==> is_word(#[trigger] parts[i]),
    ensures
        words(joined(parts, " "@)) == parts,
    decreases parts.len(),
{
    if parts.len() == 0 {
        assert(words(Seq::empty()) =~= Seq::empty());
        assert(parts =~= Seq::empty());
    } else if parts.len() == 1 {
        lemma_one_more_word(Seq::empty(), parts[0]);
        assert(parts =~= seq![parts[0]]);
    } else {
        let less = parts.drop_last();
        assert forall|i: int| 0 <= i < less.len() implies is_word(#[trigger] less[i]) by {
            assert(is_word(parts[i]));
        }
        law_joined_words_come_apart(less);
        lemma_one_more_word(joined(less, " "@), parts.last());
        assert(less.push(parts.last()) =~= parts);
    }
}

} // verus!
