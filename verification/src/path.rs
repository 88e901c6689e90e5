//! Paths as text.

use vstd::prelude::*;

use crate::effects::option_view;
use crate::number::{decimal, decimal_text, lemma_decimal};
use crate::split::{first_of, seek, texts};
use crate::text::{after, before, chars_of, is_digit, same, slice, starts_with, CharClass};

verus! {

/// `base` followed by `rel`, with one separator between them. A `rel` that starts at the
/// root replaces `base`.
pub open spec fn joined_path(base: Seq<char>, rel: Seq<char>) -> Seq<char> {
    if rel.len() > 0 && rel[0] == '/' {
        rel
    } else if base.len() == 0 || base.last() == '/' {
        base + rel
    } else {
        base + "/"@ + rel
    }
}

/// Joins two paths.
pub fn join_path(base: &str, rel: &str) -> (r: String)
    ensures
        r@ == joined_path(base@, rel@),
{
    let b = chars_of(base);
    let f = chars_of(rel);
    if f.len() > 0 && f[0] == '/' {
        return rel.to_owned();
    }
    let mut out = base.to_owned();
    if b.len() > 0 && b[b.len() - 1] != '/' {
        out.append("/");
    }
    out.append(rel);
    out
}

/// The position after the last separator of a path; zero if it has none.
pub open spec fn last_part(s: Seq<char>) -> nat
    decreases s.len(),
{
    if s.len() == 0 || s.last() == '/' {
        s.len()
    } else {
        last_part(s.drop_last())
    }
}

/// The position after the last separator is one of the path, and a separator is before it.
pub proof fn lemma_last_part(s: Seq<char>)
    ensures
        last_part(s) <= s.len(),
        last_part(s) > 0 ==> s[last_part(s) - 1] == '/',
    decreases s.len(),
{
    if s.len() > 0 && s.last() != '/' {
        lemma_last_part(s.drop_last());
    }
}

/// The last component of a path. Empty components and single dots do not count; there is
/// no last component where none counts or the last one is two dots.
pub open spec fn file_name(s: Seq<char>) -> Option<Seq<char>>
    decreases s.len(),
{
    let i = last_part(s) as int;
    let part = s.skip(i);
    if part.len() == 0 || part == "."@ {
        if i == 0 {
            None
        } else {
            proof {
                lemma_last_part(s);
            }
            file_name(s.take(i - 1))
        }
    } else if part == ".."@ {
        None
    } else {
        Some(part)
    }
}

/// The position after the last separator of `s`.
fn last_part_of(s: &str) -> (r: usize)
    ensures
        r == last_part(s@),
        r <= s@.len(),
{
    let v = chars_of(s);
    let mut i: usize = v.len();
    assert(s@.take(i as int) =~= s@);
    while i > 0 && v[i - 1] != '/'
        invariant
            v@ == s@,
            i <= v@.len(),
            last_part(s@) == last_part(s@.take(i as int)),
        decreases i,
    {
        assert(s@.take(i as int).drop_last() =~= s@.take(i - 1));
        i = i - 1;
    }
    i
}

/// The last component of a path.
pub fn file_name_of<'a>(s: &'a str) -> (r: Option<&'a str>)
    ensures
        r is Some <==> file_name(s@) is Some,
        r matches Some(n) ==> file_name(s@) == Some(n@),
    decreases s@.len(),
{
    let i = last_part_of(s);
    let part = after(s, i);
    if part.is_empty() || same(part, ".") {
        if i == 0 {
            None
        } else {
            file_name_of(before(s, i - 1))
        }
    } else if same(part, "..") {
        None
    } else {
        Some(part)
    }
}

/// The last component of a path, empty if there is none.
pub open spec fn file_name_or_empty(s: Seq<char>) -> Seq<char> {
    match file_name(s) {
        Some(n) => n,
        None => ""@,
    }
}

/// The last component of a path, empty if there is none.
pub fn file_name_text<'a>(s: &'a str) -> (r: &'a str)
    ensures
        r@ == file_name_or_empty(s@),
{
    match file_name_of(s) {
        Some(n) => n,
        None => "",
    }
}

/// A piece of a path that is no component: an empty one, or a `.`.
pub open spec fn is_idle(part: Seq<char>) -> bool {
    part.len() == 0 || part == "."@
}

/// A path without the separators at its end, and without a `.` between them. The root and a
/// `.` at the start stay.
pub open spec fn without_tail(s: Seq<char>) -> Seq<char>
    decreases s.len(),
{
    if s.len() < 2 || s.last() != '/' {
        s
    } else {
        let t = s.drop_last();
        let i = last_part(t) as int;
        if is_idle(t.skip(i)) && i > 0 {
            proof {
                lemma_last_part(t);
            }
            without_tail(t.take(i))
        } else {
            t
        }
    }
}

/// The directory that a path lies in: the path without its last component. Neither the root
/// nor an empty path lies in one.
pub open spec fn parent_dir(s: Seq<char>) -> Option<Seq<char>>
    decreases s.len(),
{
    let i = last_part(s) as int;
    let part = s.skip(i);
    if !is_idle(part) {
        Some(without_tail(s.take(i)))
    } else if i == 0 {
        if part.len() == 0 {
            None
        } else {
            Some(""@)
        }
    } else if i == 1 {
        None
    } else {
        proof {
            lemma_last_part(s);
        }
        parent_dir(s.take(i - 1))
    }
}

/// A path without the separators at its end, and without a `.` between them.
fn cut_tail<'a>(s: &'a str) -> (r: &'a str)
    ensures
        r@ == without_tail(s@),
    decreases s@.len(),
{
    proof {
        reveal_strlit("/");
        assert("/"@ =~= seq!['/']);
    }
    let n: usize = s.unicode_len();
    proof {
        if n > 0 {
            assert(s@.skip(n - 1) =~= seq![s@.last()]);
            assert(seq![s@.last()][0] == s@.last());
        }
    }
    if n < 2 || !same(after(s, n - 1), "/") {
        return s;
    }
    let t = before(s, n - 1);
    assert(t@ =~= s@.drop_last());
    proof {
        lemma_last_part(t@);
    }
    let i = last_part_of(t);
    let part = after(t, i);
    if (part.is_empty() || same(part, ".")) && i > 0 {
        cut_tail(before(t, i))
    } else {
        t
    }
}

/// The directory that a path lies in, if it lies in one.
pub fn parent_dir_of<'a>(s: &'a str) -> (r: Option<&'a str>)
    ensures
        option_view(r) == parent_dir(s@),
    decreases s@.len(),
{
    proof {
        lemma_last_part(s@);
    }
    let i = last_part_of(s);
    let part = after(s, i);
    if part.is_empty() {
        if i < 2 {
            None
        } else {
            parent_dir_of(before(s, i - 1))
        }
    } else if same(part, ".") {
        if i == 0 {
            Some("")
        } else if i == 1 {
            None
        } else {
            parent_dir_of(before(s, i - 1))
        }
    } else {
        Some(cut_tail(before(s, i)))
    }
}

/// A path below `base`, relative to it; any other path as it is.
pub open spec fn relative(base: Seq<char>, s: Seq<char>) -> Seq<char> {
    let front = base + "/"@;
    if front.is_prefix_of(s) {
        s.skip(front.len() as int)
    } else {
        s
    }
}

/// A path below `base`, relative to it; any other path as it is.
pub fn relative_path<'a>(base: &str, s: &'a str) -> (r: &'a str)
    ensures
        r@ == relative(base@, s@),
{
    let mut front = base.to_owned();
    front.append("/");
    if starts_with(s, front.as_str()) {
        after(s, front.as_str().unicode_len())
    } else {
        s
    }
}

/// The pieces of a path between its separators.
pub open spec fn pieces(s: Seq<char>) -> Seq<Seq<char>>
    decreases s.len(),
{
    let i = first_of(s, '/') as int;
    if i >= s.len() {
        seq![s]
    } else {
        seq![s.take(i)] + pieces(s.skip(i + 1))
    }
}

/// A path starts at the root.
pub open spec fn is_rooted(s: Seq<char>) -> bool {
    s.len() > 0 && s[0] == '/'
}

/// A path starts with `.`, the directory it is relative to.
pub open spec fn starts_here(s: Seq<char>) -> bool {
    pieces(s)[0] == "."@
}

/// The components of a path. Repeated separators and a `.` between them are no components.
pub open spec fn components(s: Seq<char>) -> Seq<Seq<char>> {
    pieces(s).filter(|p: Seq<char>| p.len() > 0 && p != "."@)
}

/// Two paths are the same, component by component.
pub open spec fn same_components(a: Seq<char>, b: Seq<char>) -> bool {
    is_rooted(a) == is_rooted(b) && starts_here(a) == starts_here(b) && components(a)
        == components(b)
}

/// The pieces of a path between its separators.
fn pieces_of<'a>(s: &'a str) -> (r: Vec<&'a str>)
    ensures
        texts(r@) == pieces(s@),
        r@.len() > 0,
{
    let v = chars_of(s);
    let mut out: Vec<&'a str> = Vec::new();
    let mut from: usize = 0;
    proof {
        assert(s@.skip(0) =~= s@);
        assert(texts(out@) + pieces(s@) =~= pieces(s@));
    }
    loop
        invariant
            v@ == s@,
            from <= v@.len(),
            pieces(s@) == texts(out@) + pieces(s@.skip(from as int)),
        decreases v@.len() - from,
    {
        let ghost rest = s@.skip(from as int);
        let ghost was = texts(out@);
        let i = seek(&v, '/', from);
        let piece = slice(s, from, i);
        assert(piece@ =~= rest.take(i - from));
        out.push(piece);
        assert(texts(out@) =~= was.push(piece@));
        if i >= v.len() {
            assert(rest.take(i - from) =~= rest);
            assert(pieces(s@) =~= texts(out@));
            return out;
        }
        assert(rest.skip(i + 1 - from) =~= s@.skip(i + 1));
        assert(was + (seq![piece@] + pieces(s@.skip(i + 1))) =~= texts(out@) + pieces(
            s@.skip(i + 1),
        ));
        from = i + 1;
    }
}

/// The components of a path, from its pieces.
fn components_of<'a>(all: &Vec<&'a str>, Ghost(s): Ghost<Seq<char>>) -> (r: Vec<&'a str>)
    requires
        texts(all@) == pieces(s),
    ensures
        texts(r@) == components(s),
{
    let ghost every = pieces(s);
    let ghost kept = |p: Seq<char>| p.len() > 0 && p != "."@;
    let mut out: Vec<&'a str> = Vec::new();
    let mut i: usize = 0;
    assert(every.take(0).filter(kept) =~= texts(out@)) by {
        reveal(Seq::filter);
    }
    while i < all.len()
        invariant
            every == texts(all@),
            kept == (|p: Seq<char>| p.len() > 0 && p != "."@),
            i <= all@.len(),
            texts(out@) == every.take(i as int).filter(kept),
        decreases all@.len() - i,
    {
        let ghost was = texts(out@);
        let p: &'a str = all[i];
        proof {
            assert(every.take(i + 1) =~= every.take(i as int).push(every[i as int]));
            every.take(i as int).lemma_filter_push(every[i as int], kept);
            assert(every[i as int] == p@);
        }
        if !p.is_empty() && !same(p, ".") {
            out.push(p);
            assert(texts(out@) =~= was.push(p@));
        }
        i = i + 1;
    }
    assert(every.take(i as int) =~= every);
    out
}

/// Tells whether two paths are the same, component by component.
pub fn is_same_path(a: &str, b: &str) -> (r: bool)
    ensures
        r == same_components(a@, b@),
{
    let p = pieces_of(a);
    let q = pieces_of(b);
    proof {
        assert(texts(p@)[0] == p@[0]@);
        assert(texts(q@)[0] == q@[0]@);
        reveal_strlit("/");
        if a@.len() > 0 {
            assert(a@.subrange(0, 1) =~= seq![a@[0]]);
        }
        if b@.len() > 0 {
            assert(b@.subrange(0, 1) =~= seq![b@[0]]);
        }
        assert("/"@ =~= seq!['/']);
        assert(seq![a@[0]][0] == a@[0]);
        assert(seq![b@[0]][0] == b@[0]);
    }
    if starts_with(a, "/") != starts_with(b, "/") || same(p[0], ".") != same(q[0], ".") {
        return false;
    }
    let x = components_of(&p, Ghost(a@));
    let y = components_of(&q, Ghost(b@));
    let ghost xs = texts(x@);
    let ghost ys = texts(y@);
    if x.len() != y.len() {
        assert(xs.len() != ys.len());
        return false;
    }
    let mut i: usize = 0;
    while i < x.len()
        invariant
            xs == texts(x@),
            ys == texts(y@),
            xs == components(a@),
            ys == components(b@),
            x@.len() == y@.len(),
            i <= x@.len(),
            forall|j: int| 0 <= j < i ==> xs[j] == ys[j],
        decreases x@.len() - i,
    {
        assert(xs[i as int] == x@[i as int]@ && ys[i as int] == y@[i as int]@);
        if !same(x[i], y[i]) {
            return false;
        }
        i = i + 1;
    }
    assert(xs =~= ys);
    true
}

/// The device path of partition `n` of a disk. A `p` stands before the number where the
/// path of the disk ends with a digit.
pub open spec fn partition(disk: Seq<char>, n: nat) -> Seq<char> {
    if disk.len() > 0 && is_digit(disk.last()) {
        disk + "p"@ + decimal(n)
    } else {
        disk + decimal(n)
    }
}

/// The device path of partition `n` of a disk.
pub fn partition_path(disk: &str, n: u32) -> (r: String)
    ensures
        r@ == partition(disk@, n as nat),
{
    let v = chars_of(disk);
    let mut out = disk.to_owned();
    if v.len() > 0 && !CharClass::NonDigit.contains(v[v.len() - 1]) {
        out.append("p");
    }
    out.append(decimal_text(n as u128).as_str());
    out
}

/// Partitions with different numbers have different device paths, and none has the path of
/// the disk.
pub proof fn law_partitions_are_apart(disk: Seq<char>, m: nat, n: nat)
    ensures
        partition(disk, m) != disk,
        partition(disk, m) == partition(disk, n) ==> m == n,
{
    lemma_decimal(m);
    lemma_decimal(n);
    let front = if disk.len() > 0 && is_digit(disk.last()) {
        disk + "p"@
    } else {
        disk
    };
    assert(partition(disk, m).len() > disk.len());
    assert(partition(disk, m).skip(front.len() as int) =~= decimal(m));
    assert(partition(disk, n).skip(front.len() as int) =~= decimal(n));
}

} // verus!
