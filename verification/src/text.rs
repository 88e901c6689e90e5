//! Text as sequences of characters: trimming, splitting, searching, joining.

use vstd::prelude::*;

verus! {

/// The characters that Unicode gives the property `White_Space`.
pub open spec fn is_whitespace(c: char) -> bool {
    let n = c as u32;
    ||| 0x9 <= n <= 0xd
    ||| n == 0x20
    ||| n == 0x85
    ||| n == 0xa0
    ||| n == 0x1680
    ||| 0x2000 <= n <= 0x200a
    ||| n == 0x2028
    ||| n == 0x2029
    ||| n == 0x202f
    ||| n == 0x205f
    ||| n == 0x3000
}

/// The ASCII digits.
pub open spec fn is_digit(c: char) -> bool {
    '0' as u32 <= c as u32 <= '9' as u32
}

/// A set of characters that text can be trimmed of.
#[derive(Clone, Copy)]
pub enum CharClass {
    /// White space.
    Whitespace,
    /// One character.
    Only(char),
    /// Everything but an ASCII digit.
    NonDigit,
    /// A line feed or a carriage return.
    LineEnd,
}

impl CharClass {
    /// The membership of the class.
    pub open spec fn has(self, c: char) -> bool {
        match self {
            CharClass::Whitespace => is_whitespace(c),
            CharClass::Only(d) => c == d,
            CharClass::NonDigit => !is_digit(c),
            CharClass::LineEnd => c == '\n' || c == '\r',
        }
    }

    /// Tells whether `c` belongs to the class.
    pub fn contains(self, c: char) -> (r: bool)
        ensures
            r == self.has(c),
    {
        match self {
            CharClass::Whitespace => {
                let n: u32 = c as u32;
                (0x9 <= n && n <= 0xd) || n == 0x20 || n == 0x85 || n == 0xa0 || n == 0x1680
                    || (0x2000 <= n && n <= 0x200a) || n == 0x2028 || n == 0x2029 || n == 0x202f
                    || n == 0x205f || n == 0x3000
            },
            CharClass::Only(d) => c == d,
            CharClass::NonDigit => !('0' <= c && c <= '9'),
            CharClass::LineEnd => c == '\n' || c == '\r',
        }
    }
}

/// `s` without the longest prefix whose characters are all in `class`.
pub open spec fn trim_front(s: Seq<char>, class: CharClass) -> Seq<char>
    decreases s.len(),
{
    if s.len() > 0 && class.has(s[0]) {
        trim_front(s.skip(1), class)
    } else {
        s
    }
}

/// `s` without the longest suffix whose characters are all in `class`.
pub open spec fn trim_back(s: Seq<char>, class: CharClass) -> Seq<char>
    decreases s.len(),
{
    if s.len() > 0 && class.has(s.last()) {
        trim_back(s.drop_last(), class)
    } else {
        s
    }
}

/// `s` without the characters of `class` at both ends.
pub open spec fn trim_both(s: Seq<char>, class: CharClass) -> Seq<char> {
    trim_back(trim_front(s, class), class)
}

/// `s` without white space at both ends.
pub open spec fn trimmed(s: Seq<char>) -> Seq<char> {
    trim_both(s, CharClass::Whitespace)
}

/// The characters of `s`, as a vector.
pub fn chars_of(s: &str) -> (v: Vec<char>)
    ensures
        v@ == s@,
{
    let mut v: Vec<char> = Vec::new();
    for c in it: s.chars()
        invariant
            it.seq() == s@,
            v@ == s@.take(it.index() as int),
    {
        v.push(c);
    }
    v
}

/// The text `s` between the characters `from` and `to`.
pub fn slice<'a>(s: &'a str, from: usize, to: usize) -> (r: &'a str)
    requires
        from <= to <= s@.len(),
    ensures
        r@ == s@.subrange(from as int, to as int),
{
    s.substring_char(from, to)
}

/// `s` without the characters of `class` at its end.
pub fn trim_end_of<'a>(s: &'a str, class: CharClass) -> (r: &'a str)
    ensures
        r@ == trim_back(s@, class),
{
    let v = chars_of(s);
    let mut hi: usize = v.len();
    assert(s@.take(hi as int) =~= s@);
    while hi > 0 && class.contains(v[hi - 1])
        invariant
            v@ == s@,
            hi <= v@.len(),
            trim_back(s@, class) == trim_back(s@.take(hi as int), class),
        decreases hi,
    {
        assert(s@.take(hi as int).drop_last() =~= s@.take(hi - 1));
        hi = hi - 1;
    }
    slice(s, 0, hi)
}

/// `s` without the characters of `class` at its start.
pub fn trim_start_of<'a>(s: &'a str, class: CharClass) -> (r: &'a str)
    ensures
        r@ == trim_front(s@, class),
{
    let v = chars_of(s);
    let mut lo: usize = 0;
    assert(s@.skip(0) =~= s@);
    while lo < v.len() && class.contains(v[lo])
        invariant
            v@ == s@,
            lo <= v@.len(),
            trim_front(s@, class) == trim_front(s@.skip(lo as int), class),
        decreases v@.len() - lo,
    {
        assert(s@.skip(lo as int).skip(1) =~= s@.skip(lo + 1));
        lo = lo + 1;
    }
    let r = slice(s, lo, v.len());
    assert(r@ =~= s@.skip(lo as int));
    r
}

/// `s` without the characters of `class` at both ends.
pub fn trim_of<'a>(s: &'a str, class: CharClass) -> (r: &'a str)
    ensures
        r@ == trim_both(s@, class),
{
    trim_end_of(trim_start_of(s, class), class)
}

/// `s` without white space at both ends.
pub fn trim<'a>(s: &'a str) -> (r: &'a str)
    ensures
        r@ == trimmed(s@),
{
    trim_of(s, CharClass::Whitespace)
}

/// Tells whether two texts are the same.
pub fn same(a: &str, b: &str) -> (r: bool)
    ensures
        r == (a@ == b@),
{
    a.to_owned() == b.to_owned()
}

/// `p` occurs in `s` at position `i`.
pub open spec fn occurs_at(s: Seq<char>, p: Seq<char>, i: int) -> bool {
    &&& 0 <= i
    &&& i + p.len() <= s.len()
    &&& s.subrange(i, i + p.len()) == p
}

/// The first position, `from` or later, at which `p` occurs in `s`.
pub open spec fn find_from(s: Seq<char>, p: Seq<char>, from: int) -> Option<int>
    decreases s.len() - from + 1,
{
    if from < 0 || from + p.len() > s.len() {
        None
    } else if occurs_at(s, p, from) {
        Some(from)
    } else {
        find_from(s, p, from + 1)
    }
}

/// The first position at which `p` occurs in `s`.
pub open spec fn find(s: Seq<char>, p: Seq<char>) -> Option<int> {
    find_from(s, p, 0)
}

/// What `find_from` finds is the first occurrence, and it misses none.
pub proof fn law_found_is_the_first(s: Seq<char>, p: Seq<char>, from: int)
    requires
        0 <= from,
    ensures
        match find_from(s, p, from) {
            Some(i) => from <= i && occurs_at(s, p, i) && forall|j: int|
                from <= j < i ==> !occurs_at(s, p, j),
            None => forall|j: int| from <= j ==> !occurs_at(s, p, j),
        },
    decreases s.len() - from + 1,
{
    if from + p.len() <= s.len() && !occurs_at(s, p, from) {
        law_found_is_the_first(s, p, from + 1);
    }
}

/// Tells whether `p` occurs in `v` at position `i`.
pub fn matches_at(v: &Vec<char>, p: &Vec<char>, i: usize) -> (r: bool)
    requires
        i + p@.len() <= v@.len(),
    ensures
        r == occurs_at(v@, p@, i as int),
{
    let n: usize = v.len();
    let mut k: usize = 0;
    while k < p.len()
        invariant
            n == v@.len(),
            i + p@.len() <= v@.len(),
            k <= p@.len(),
            forall|j: int| 0 <= j < k ==> v@[i + j] == p@[j],
        decreases p@.len() - k,
    {
        if v[i + k] != p[k] {
            assert(v@.subrange(i as int, i + p@.len())[k as int] != p@[k as int]);
            return false;
        }
        k = k + 1;
    }
    assert(v@.subrange(i as int, i + p@.len()) =~= p@);
    true
}

/// The first position, counted in characters, at which `p` occurs in `s`.
pub fn position_of(s: &str, p: &str) -> (r: Option<usize>)
    ensures
        r is Some <==> find(s@, p@) is Some,
        r matches Some(i) ==> find(s@, p@) == Some(i as int) && i + p@.len() <= s@.len()
            && s@.len() <= usize::MAX,
{
    let v = chars_of(s);
    let w = chars_of(p);
    let mut i: usize = 0;
    if w.len() > v.len() {
        return None;
    }
    let n: usize = v.len();
    while i <= v.len() - w.len()
        invariant
            v@ == s@,
            n == v@.len(),
            w@ == p@,
            w@.len() <= v@.len(),
            i <= v@.len() - w@.len() + 1,
            find(s@, p@) == find_from(s@, p@, i as int),
        decreases v@.len() - i + 1,
    {
        if matches_at(&v, &w, i) {
            return Some(i);
        }
        if i == v.len() - w.len() {
            assert(find_from(s@, p@, i + 1) is None);
            return None;
        }
        i = i + 1;
    }
    None
}

/// Tells whether `s` starts with `p`.
pub fn starts_with(s: &str, p: &str) -> (r: bool)
    ensures
        r == p@.is_prefix_of(s@),
{
    let v = chars_of(s);
    let w = chars_of(p);
    w.len() <= v.len() && matches_at(&v, &w, 0)
}

/// Tells whether `s` ends with `p`.
pub fn ends_with(s: &str, p: &str) -> (r: bool)
    ensures
        r == p@.is_suffix_of(s@),
{
    let v = chars_of(s);
    let w = chars_of(p);
    w.len() <= v.len() && matches_at(&v, &w, v.len() - w.len())
}

/// What follows the first `n` characters of `s`.
pub fn after<'a>(s: &'a str, n: usize) -> (r: &'a str)
    requires
        n <= s@.len(),
    ensures
        r@ == s@.skip(n as int),
{
    let r = slice(s, n, s.unicode_len());
    assert(r@ =~= s@.skip(n as int));
    r
}

/// The first `n` characters of `s`.
pub fn before<'a>(s: &'a str, n: usize) -> (r: &'a str)
    requires
        n <= s@.len(),
    ensures
        r@ == s@.take(n as int),
{
    let r = slice(s, 0, n);
    assert(r@ =~= s@.take(n as int));
    r
}

} // verus!
