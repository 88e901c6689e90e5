//! Laws on text: what is put together from parts is taken apart into the same parts.

use vstd::prelude::*;

use crate::number::{all_digits, decimal, digits_value, parsed};
use crate::path::{
    components, file_name, joined_path, last_part, parent_dir, partition, pieces, relative,
    without_tail,
};
use crate::split::{first_of, joined, law_first_of_is_the_first, lines, second_field, words};
use crate::text::{
    find, is_digit, is_whitespace, law_found_is_the_first, occurs_at, trim_back, trim_both,
    trim_front, trimmed, CharClass,
};

verus! {

/// Positions in a sequence of `n` items, in their order and none of them twice.
pub open spec fn are_positions(at: Seq<int>, n: nat) -> bool {
    &&& forall|k: int| 0 <= k < at.len() ==> 0 <= #[trigger] at[k] < n
    &&& forall|j: int, k: int| 0 <= j < k < at.len() ==> #[trigger] at[j] < #[trigger] at[k]
}

/// What `filter_map` picks stands at growing positions, and at all where something is
/// picked.
pub proof fn lemma_picked<A, B>(s: Seq<A>, f: spec_fn(A) -> Option<B>) -> (at: Seq<int>)
    ensures
        are_positions(at, s.len()),
        at.len() == s.filter_map(f).len(),
        forall|k: int| 0 <= k < at.len() ==> f(s[#[trigger] at[k]]) == Some(s.filter_map(f)[k]),
        forall|i: int| 0 <= i < s.len() ==> (#[trigger] at.contains(i) <==> f(s[i]) is Some),
    decreases s.len(),
{
    if s.len() == 0 {
        Seq::empty()
    } else {
        let rest = s.drop_last();
        let less = lemma_picked(rest, f);
        let n = s.len() - 1;
        let at = if f(s.last()) is Some {
            less.push(n)
        } else {
            less
        };
        assert forall|k: int| 0 <= k < at.len() implies f(s[#[trigger] at[k]]) == Some(
            s.filter_map(f)[k],
        ) by {
            if k < less.len() {
                assert(less[k] == at[k]);
                assert(rest[less[k]] == s[less[k]]);
            }
        }
        assert forall|i: int| 0 <= i < s.len() implies (#[trigger] at.contains(i) <==> f(
            s[i],
        ) is Some) by {
            if i < n {
                assert(rest[i] == s[i]);
                assert(less.contains(i) <==> f(rest[i]) is Some);
                if less.contains(i) {
                    let k = choose|k: int| 0 <= k < less.len() && less[k] == i;
                    assert(at[k] == i);
                }
                if at.contains(i) {
                    let k = choose|k: int| 0 <= k < at.len() && at[k] == i;
                    assert(k < less.len());
                    assert(less[k] == i);
                }
            } else {
                if f(s[i]) is Some {
                    assert(at[less.len() as int] == i);
                }
                if at.contains(i) && f(s[i]) is None {
                    let k = choose|k: int| 0 <= k < at.len() && at[k] == i;
                    assert(less[k] < n);
                }
            }
        }
        at
    }
}

/// `first_of` gives `n` where the first `n` characters are not `c` and the next one, if there
/// is one, is.
pub proof fn lemma_first_of_is(s: Seq<char>, c: char, n: int)
    requires
        0 <= n <= s.len(),
        forall|i: int| 0 <= i < n ==> s[i] != c,
        n < s.len() ==> s[n] == c,
    ensures
        first_of(s, c) == n,
{
    law_first_of_is_the_first(s, c);
    let k = first_of(s, c) as int;
    if k < n {
        assert(s[k] == c);
    } else if n < k {
        assert(s[n] != c);
    }
}

proof fn lemma_trim_front_of(a: Seq<char>, x: Seq<char>, class: CharClass)
    requires
        forall|i: int| 0 <= i < a.len() ==> class.has(#[trigger] a[i]),
        x.len() > 0 ==> !class.has(x[0]),
    ensures
        trim_front(a + x, class) == x,
    decreases a.len(),
{
    if a.len() == 0 {
        assert(a + x =~= x);
    } else {
        assert(class.has(a[0]));
        let less = a.skip(1);
        assert forall|i: int| 0 <= i < less.len() implies class.has(#[trigger] less[i]) by {
            assert(class.has(a[i + 1]));
        }
        lemma_trim_front_of(less, x, class);
        assert((a + x).skip(1) =~= less + x);
    }
}

proof fn lemma_trim_back_of(x: Seq<char>, b: Seq<char>, class: CharClass)
    requires
        forall|i: int| 0 <= i < b.len() ==> class.has(#[trigger] b[i]),
        x.len() > 0 ==> !class.has(x.last()),
    ensures
        trim_back(x + b, class) == x,
    decreases b.len(),
{
    if b.len() == 0 {
        assert(x + b =~= x);
    } else {
        assert(class.has(b[b.len() - 1]));
        let less = b.drop_last();
        assert forall|i: int| 0 <= i < less.len() implies class.has(#[trigger] less[i]) by {
            assert(class.has(b[i]));
        }
        lemma_trim_back_of(x, less, class);
        assert((x + b).drop_last() =~= x + less);
    }
}

/// Trimming takes away what stands round a text, all of it and nothing else: a text that
/// neither starts nor ends with a character of the class comes back whole, of whatever
/// length.
pub proof fn law_trimming_gives_back(a: Seq<char>, x: Seq<char>, b: Seq<char>, class: CharClass)
    requires
        forall|i: int| 0 <= i < a.len() ==> class.has(#[trigger] a[i]),
        forall|i: int| 0 <= i < b.len() ==> class.has(#[trigger] b[i]),
        x.len() > 0 ==> !class.has(x[0]) && !class.has(x.last()),
    ensures
        trim_both(a + x + b, class) == x,
        trim_back(x + b, class) == x,
        trim_front(a + x, class) == x,
{
    if x.len() > 0 {
        assert(a + x + b =~= a + (x + b));
        assert((x + b)[0] == x[0]);
        lemma_trim_front_of(a, x + b, class);
    } else {
        let all = a + x + b;
        assert forall|i: int| 0 <= i < all.len() implies class.has(#[trigger] all[i]) by {
            if i < a.len() {
                assert(class.has(a[i]));
            } else {
                assert(class.has(b[i - a.len()]));
            }
        }
        lemma_trim_front_of(all, x, class);
        assert(all + x =~= all);
        assert(trim_back(x, class) == x);
    }
    lemma_trim_front_of(a, x, class);
    lemma_trim_back_of(x, b, class);
}

proof fn lemma_trim_front_parts(s: Seq<char>, class: CharClass) -> (a: Seq<char>)
    ensures
        s == a + trim_front(s, class),
        forall|i: int| 0 <= i < a.len() ==> class.has(#[trigger] a[i]),
        trim_front(s, class).len() > 0 ==> !class.has(trim_front(s, class)[0]),
    decreases s.len(),
{
    if s.len() > 0 && class.has(s[0]) {
        let less = lemma_trim_front_parts(s.skip(1), class);
        let a = seq![s[0]] + less;
        assert(s =~= seq![s[0]] + s.skip(1));
        assert(a + trim_front(s, class) =~= seq![s[0]] + (less + trim_front(s, class)));
        assert forall|i: int| 0 <= i < a.len() implies class.has(#[trigger] a[i]) by {
            if i > 0 {
                assert(class.has(less[i - 1]));
            }
        }
        a
    } else {
        assert(s =~= Seq::empty() + s);
        Seq::empty()
    }
}

proof fn lemma_trim_back_parts(s: Seq<char>, class: CharClass) -> (b: Seq<char>)
    ensures
        s == trim_back(s, class) + b,
        forall|i: int| 0 <= i < b.len() ==> class.has(#[trigger] b[i]),
        trim_back(s, class).len() > 0 ==> !class.has(trim_back(s, class).last()),
    decreases s.len(),
{
    if s.len() > 0 && class.has(s.last()) {
        let less = lemma_trim_back_parts(s.drop_last(), class);
        let b = less.push(s.last());
        assert(s =~= s.drop_last().push(s.last()));
        assert(trim_back(s, class) + b =~= (trim_back(s, class) + less).push(s.last()));
        assert forall|i: int| 0 <= i < b.len() implies class.has(#[trigger] b[i]) by {
            if i < less.len() {
                assert(class.has(less[i]));
            }
        }
        b
    } else {
        assert(s =~= s + Seq::empty());
        Seq::empty()
    }
}

/// Every text is its trimmed text with characters of the class round it, and the trimmed
/// text neither starts nor ends with one.
pub proof fn law_trimming_takes_nothing_else(s: Seq<char>, class: CharClass) -> (r: (
    Seq<char>,
    Seq<char>,
))
    ensures
        s == r.0 + trim_both(s, class) + r.1,
        forall|i: int| 0 <= i < r.0.len() ==> class.has(#[trigger] r.0[i]),
        forall|i: int| 0 <= i < r.1.len() ==> class.has(#[trigger] r.1[i]),
        trim_both(s, class).len() > 0 ==> !class.has(trim_both(s, class)[0]) && !class.has(
            trim_both(s, class).last(),
        ),
{
    let a = lemma_trim_front_parts(s, class);
    let b = lemma_trim_back_parts(trim_front(s, class), class);
    let t = trim_both(s, class);
    assert(s =~= a + t + b);
    if t.len() > 0 {
        assert(trim_front(s, class)[0] == t[0]);
    }
    (a, b)
}

/// A line that ends with a line feed is the first line, without the carriage return that it
/// may end with; the lines of what follows come after it. A text without a line feed is one
/// line, and an empty text has none.
pub proof fn law_lines_come_apart(line: Seq<char>, rest: Seq<char>)
    requires
        forall|i: int| 0 <= i < line.len() ==> line[i] != '\n',
    ensures
        lines(line + "\n"@ + rest) == seq![
            if line.len() > 0 && line.last() == '\r' {
                line.drop_last()
            } else {
                line
            },
        ] + lines(rest),
        line.len() > 0 ==> lines(line) == seq![line],
        lines(""@) == Seq::<Seq<char>>::empty(),
{
    reveal_strlit("\n");
    reveal_strlit("");
    let s = line + "\n"@ + rest;
    lemma_first_of_is(s, '\n', line.len() as int);
    assert(s.take(line.len() as int) =~= line);
    assert(s.skip(line.len() as int + 1) =~= rest);
    lemma_first_of_is(line, '\n', line.len() as int);
}

/// The words of a text: white space parts them and is no part of them, however much of it
/// there is.
pub proof fn law_words_come_apart(word: Seq<char>, c: char, rest: Seq<char>)
    requires
        is_whitespace(c),
        word.len() > 0,
        forall|i: int| 0 <= i < word.len() ==> !is_whitespace(#[trigger] word[i]),
    ensures
        words(word + seq![c] + rest) == seq![word] + words(rest),
        words(word) == seq![word],
        words(seq![c] + rest) == words(rest),
        words(""@) == Seq::<Seq<char>>::empty(),
{
    let white = CharClass::Whitespace;
    reveal_strlit("");
    assert(words(seq![c] + rest) == words(rest)) by {
        assert((seq![c] + rest).skip(1) =~= rest);
        assert(trim_front(seq![c] + rest, white) == trim_front(rest, white));
    }
    assert(!is_whitespace(word[0]));
    let s = word + seq![c] + rest;
    lemma_word_len_is(s, word.len() as int);
    assert(s.take(word.len() as int) =~= word);
    assert(s.skip(word.len() as int) =~= seq![c] + rest);
    lemma_word_len_is(word, word.len() as int);
    assert(word.take(word.len() as int) =~= word);
    assert(word.skip(word.len() as int) =~= Seq::empty());
    assert(words(Seq::empty()) =~= Seq::empty());
    assert(words(word) =~= seq![word]);
}

proof fn lemma_word_len_is(s: Seq<char>, n: int)
    requires
        0 <= n <= s.len(),
        forall|i: int| 0 <= i < n ==> !is_whitespace(#[trigger] s[i]),
        n < s.len() ==> is_whitespace(s[n]),
    ensures
        crate::split::word_len(s) == n,
    decreases n,
{
    if n > 0 {
        assert(!is_whitespace(s[0]));
        let t = s.skip(1);
        assert forall|i: int| 0 <= i < n - 1 implies !is_whitespace(#[trigger] t[i]) by {
            assert(!is_whitespace(s[i + 1]));
        }
        lemma_word_len_is(t, n - 1);
    }
}

/// Joining puts one separator between each two parts, and nothing at the ends.
pub proof fn law_joining_separates(first: Seq<char>, more: Seq<Seq<char>>, sep: Seq<char>)
    ensures
        joined(Seq::empty(), sep) == ""@,
        joined(seq![first], sep) == first,
        more.len() > 0 ==> joined(seq![first] + more, sep) == first + sep + joined(more, sep),
    decreases more.len(),
{
    reveal_strlit("");
    if more.len() == 1 {
        let all = seq![first] + more;
        assert(all.drop_last() =~= seq![first]);
        assert(joined(seq![first], sep) == first);
        assert(all.last() == more[0]);
        assert(joined(all, sep) == joined(all.drop_last(), sep) + sep + all.last());
    } else if more.len() > 1 {
        law_joining_separates(first, more.drop_last(), sep);
        let all = seq![first] + more;
        let x = joined(more.drop_last(), sep);
        assert(all.drop_last() =~= seq![first] + more.drop_last());
        assert(all.last() == more.last());
        assert(joined(all, sep) == (first + sep + x) + sep + more.last());
        assert(joined(more, sep) == x + sep + more.last());
        assert((first + sep + x) + sep + more.last() =~= first + sep + (x + sep + more.last()));
    }
}

/// A text that stands behind `front`, and nowhere before, is found behind `front`.
pub proof fn law_text_is_found(front: Seq<char>, p: Seq<char>, back: Seq<char>)
    requires
        forall|j: int|
            0 <= j < front.len() ==> #[trigger] (front + p + back).subrange(j, j + p.len()) != p,
    ensures
        find(front + p + back, p) == Some(front.len() as int),
{
    let s = front + p + back;
    law_found_is_the_first(s, p, 0);
    assert(s.subrange(front.len() as int, (front.len() + p.len()) as int) =~= p);
    assert(occurs_at(s, p, front.len() as int));
    let i = find(s, p)->0;
    if i < front.len() {
        assert(s.subrange(i, i + p.len()) != p);
    }
}

/// A text that stands nowhere is not found.
pub proof fn law_absent_text_is_not_found(s: Seq<char>, p: Seq<char>)
    requires
        forall|j: int|
            0 <= j && j + p.len() <= s.len() ==> #[trigger] s.subrange(j, j + p.len()) != p,
    ensures
        find(s, p) is None,
{
    law_found_is_the_first(s, p, 0);
}

/// The second field lies between the first two separators, or behind the only one.
pub proof fn law_second_field(a: Seq<char>, b: Seq<char>, c: Seq<char>, sep: char)
    requires
        forall|i: int| 0 <= i < a.len() ==> a[i] != sep,
        forall|i: int| 0 <= i < b.len() ==> b[i] != sep,
    ensures
        second_field(a, sep) is None,
        second_field(a + seq![sep] + b, sep) == Some(b),
        second_field(a + seq![sep] + b + seq![sep] + c, sep) == Some(b),
{
    let n = a.len() as int;
    lemma_first_of_is(a, sep, n);
    let one = a + seq![sep] + b;
    lemma_first_of_is(one, sep, n);
    assert(one.skip(n + 1) =~= b);
    lemma_first_of_is(b, sep, b.len() as int);
    assert(b.take(b.len() as int) =~= b);
    let two = a + seq![sep] + b + seq![sep] + c;
    lemma_first_of_is(two, sep, n);
    let rest = two.skip(n + 1);
    assert(rest =~= b + seq![sep] + c);
    lemma_first_of_is(rest, sep, b.len() as int);
    assert(rest.take(b.len() as int) =~= b);
}

/// Numbers are read by their decimal digits: a digit more makes ten times the number plus
/// the digit, a plus sign in front changes nothing, and a number is refused exactly where it
/// exceeds the bound.
pub proof fn law_digits_are_read(s: Seq<char>, d: char, max: nat)
    requires
        '0' <= d <= '9',
        forall|i: int| 0 <= i < s.len() ==> '0' <= #[trigger] s[i] <= '9',
    ensures
        ({
            let n = match parsed(s, max) {
                Some(n) => n,
                None => 0,
            };
            let more = n * 10 + (d as int - '0' as int);
            if s.len() > 0 && parsed(s, max) is None {
                parsed(s.push(d), max) is None
            } else if more <= max {
                parsed(s.push(d), max) == Some(more as nat)
            } else {
                parsed(s.push(d), max) is None
            }
        }),
        s.len() > 0 ==> parsed("+"@ + s, max) == parsed(s, max),
        parsed(""@, max) is None,
{
    reveal_strlit("+");
    reveal_strlit("");
    assert(all_digits(s)) by {
        assert forall|i: int| 0 <= i < s.len() implies is_digit(#[trigger] s[i]) by {
            assert('0' <= s[i] <= '9');
        }
    }
    let t = s.push(d);
    assert(t.drop_last() =~= s);
    assert(all_digits(t));
    assert(t[0] != '+') by {
        if s.len() > 0 {
            assert(is_digit(s[0]));
            assert(t[0] == s[0]);
        }
    }
    if s.len() > 0 {
        assert(is_digit(s[0]));
        assert(("+"@ + s).skip(1) =~= s);
    } else {
        assert(digits_value(s) == 0);
    }
}

/// The digits are the characters from 0 to 9.
pub proof fn lemma_digit_range(c: char)
    ensures
        is_digit(c) <==> '0' <= c <= '9',
{
}

/// What holds a character that is no digit, other than a plus sign in front, is no number.
pub proof fn law_other_text_is_no_number(s: Seq<char>, i: int, max: nat)
    requires
        0 <= i < s.len(),
        !('0' <= s[i] <= '9'),
        i > 0 || s[i] != '+',
    ensures
        parsed(s, max) is None,
{
    lemma_digit_range(s[i]);
    if s[0] == '+' {
        if i > 0 {
            assert(s.skip(1)[i - 1] == s[i]);
        }
    }
}

proof fn lemma_last_part_is(s: Seq<char>, n: int)
    requires
        0 <= n <= s.len(),
        forall|i: int| n <= i < s.len() ==> s[i] != '/',
        n > 0 ==> s[n - 1] == '/',
    ensures
        last_part(s) == n,
    decreases s.len() - n,
{
    if n < s.len() {
        assert(s[s.len() - 1] != '/');
        lemma_last_part_is(s.drop_last(), n);
    }
}

/// A file in a directory: the path that is joined from the two has one separator between
/// them, its last component is the file, and relative to the directory it is the file again.
pub proof fn law_joined_path_comes_apart(dir: Seq<char>, name: Seq<char>)
    requires
        dir.len() > 0,
        dir.last() != '/',
        name.len() > 0,
        name[0] != '/',
    ensures
        joined_path(dir, name) == dir + "/"@ + name,
        relative(dir, joined_path(dir, name)) == name,
        (forall|i: int| 0 <= i < name.len() ==> name[i] != '/') && name != "."@ && name != ".."@
            ==> file_name(joined_path(dir, name)) == Some(name),
{
    reveal_strlit("/");
    let s = dir + "/"@ + name;
    assert((dir + "/"@).is_prefix_of(s)) by {
        assert(s.subrange(0, dir.len() as int + 1) =~= dir + "/"@);
    }
    assert(s.skip(dir.len() as int + 1) =~= name);
    if forall|i: int| 0 <= i < name.len() ==> name[i] != '/' {
        assert forall|i: int| dir.len() + 1 <= i < s.len() implies s[i] != '/' by {
            assert(s[i] == name[i - dir.len() - 1]);
        }
        lemma_last_part_is(s, dir.len() as int + 1);
    }
}

/// A file lies in the directory that its path was joined from, where the last component of
/// the directory is neither empty nor a `.`.
pub proof fn law_parent_of_joined_path(base: Seq<char>, last: Seq<char>, name: Seq<char>)
    requires
        last.len() > 0,
        last != "."@,
        forall|i: int| 0 <= i < last.len() ==> last[i] != '/',
        name.len() > 0,
        name != "."@,
        forall|i: int| 0 <= i < name.len() ==> name[i] != '/',
    ensures
        parent_dir(base + "/"@ + last + "/"@ + name) == Some(base + "/"@ + last),
{
    reveal_strlit("/");
    let dir = base + "/"@ + last;
    let s = dir + "/"@ + name;
    let n = dir.len() as int + 1;
    assert(last_part(s) == n) by {
        assert forall|i: int| n <= i < s.len() implies s[i] != '/' by {
            assert(s[i] == name[i - n]);
        }
        lemma_last_part_is(s, n);
    }
    assert(s.skip(n) =~= name);
    assert(s.take(n) =~= dir + "/"@);
    assert(parent_dir(s) == Some(without_tail(dir + "/"@)));
    assert(without_tail(dir + "/"@) == dir) by {
        assert((dir + "/"@).drop_last() =~= dir);
        let m = base.len() as int + 1;
        assert forall|i: int| m <= i < dir.len() implies dir[i] != '/' by {
            assert(dir[i] == last[i - m]);
        }
        lemma_last_part_is(dir, m);
        assert(dir.skip(m) =~= last);
    }
}

/// A path that does not lie below a directory is the same relative to it.
pub proof fn law_other_paths_stay(base: Seq<char>, path: Seq<char>)
    requires
        !(base + "/"@).is_prefix_of(path),
    ensures
        relative(base, path) == path,
{
}

/// A path that starts at the root replaces the one it is joined to; nothing is put between a
/// path that is empty or ends with a separator and what it is joined with.
pub proof fn law_joining_paths(base: Seq<char>, rel: Seq<char>)
    ensures
        joined_path(base, "/"@ + rel) == "/"@ + rel,
        rel.len() > 0 && rel[0] != '/' ==> joined_path(""@, rel) == rel,
        rel.len() > 0 && rel[0] != '/' ==> joined_path(base + "/"@, rel) == base + "/"@ + rel,
{
    reveal_strlit("/");
    reveal_strlit("");
    assert(("/"@ + rel)[0] == '/');
    assert((base + "/"@).last() == '/');
    assert(""@ + rel =~= rel);
}

/// Separators behind a path, and a `.` behind them, change neither its last component nor the
/// directory that it lies in.
pub proof fn law_separators_at_the_end(path: Seq<char>)
    requires
        path.len() > 0,
    ensures
        file_name(path + "/"@) == file_name(path),
        file_name(path + "/."@) == file_name(path),
        path.last() != '/' ==> parent_dir(path + "/"@) == parent_dir(path),
        path.last() != '/' ==> parent_dir(path + "/."@) == parent_dir(path),
{
    reveal_strlit("/");
    reveal_strlit("/.");
    reveal_strlit(".");
    let n = path.len() as int;
    let a = path + "/"@;
    lemma_last_part_is(a, n + 1);
    assert(a.skip(n + 1).len() == 0);
    assert(a.take(n) =~= path);
    let b = path + "/."@;
    lemma_last_part_is(b, n + 1);
    assert(b.skip(n + 1) =~= "."@);
    assert(b.take(n) =~= path);
}

/// A name alone, and one at the root, is its own last component; the name lies nowhere, the
/// other at the root. Neither the root nor two dots at the end are a last component.
pub proof fn law_paths_without_directories(name: Seq<char>)
    requires
        name.len() > 0,
        name != "."@,
        name != ".."@,
        forall|i: int| 0 <= i < name.len() ==> name[i] != '/',
    ensures
        file_name(name) == Some(name),
        file_name("/"@ + name) == Some(name),
        parent_dir(name) == Some(""@),
        parent_dir("/"@ + name) == Some("/"@),
        file_name("/"@) is None,
        file_name(name + "/.."@) is None,
        parent_dir("/"@) is None,
        file_name(""@) is None,
        parent_dir(""@) is None,
{
    reveal_strlit("/");
    reveal_strlit("");
    reveal_strlit("/..");
    reveal_strlit("..");
    reveal_strlit(".");
    lemma_last_part_is(name, 0);
    assert(name.skip(0) =~= name);
    assert(name.take(0) =~= ""@);
    assert(without_tail(""@) == ""@);
    let rooted = "/"@ + name;
    assert forall|i: int| 1 <= i < rooted.len() implies rooted[i] != '/' by {
        assert(rooted[i] == name[i - 1]);
    }
    lemma_last_part_is(rooted, 1);
    assert(rooted.skip(1) =~= name);
    assert(rooted.take(1) =~= "/"@);
    assert(without_tail("/"@) == "/"@);
    lemma_last_part_is("/"@, 1);
    assert("/"@.skip(1).len() == 0);
    assert("/"@.take(0) =~= ""@);
    lemma_last_part_is(""@, 0);
    assert(""@.skip(0).len() == 0);
    let up = name + "/.."@;
    let n = name.len() as int;
    assert forall|i: int| n + 1 <= i < up.len() implies up[i] != '/' by {}
    lemma_last_part_is(up, n + 1);
    assert(up.skip(n + 1) =~= ".."@);
}

/// The first partition of a disk is the path of the disk and a 1, with a `p` between them
/// exactly where the path of the disk ends with a digit; so is any other by its number.
pub proof fn law_partition_path(disk: Seq<char>, n: nat)
    ensures
        disk.len() > 0 && '0' <= disk.last() <= '9' ==> partition(disk, n) == disk + "p"@ + decimal(
            n,
        ),
        disk.len() == 0 || !('0' <= disk.last() <= '9') ==> partition(disk, n) == disk + decimal(n),
        decimal(1) == "1"@,
        decimal(2) == "2"@,
{
    reveal_strlit("1");
    reveal_strlit("2");
    if disk.len() > 0 {
        lemma_digit_range(disk.last());
    }
    assert(decimal(1) =~= "1"@);
    assert(decimal(2) =~= "2"@);
}

/// A separator parts the pieces of a path, and nothing else does.
proof fn lemma_pieces_come_apart(a: Seq<char>, b: Seq<char>)
    ensures
        pieces(a + "/"@ + b) == pieces(a) + pieces(b),
    decreases a.len(),
{
    reveal_strlit("/");
    let s = a + "/"@ + b;
    law_first_of_is_the_first(a, '/');
    let i = first_of(a, '/') as int;
    if i < a.len() {
        lemma_first_of_is(s, '/', i);
        assert(s.take(i) =~= a.take(i));
        assert(s.skip(i + 1) =~= a.skip(i + 1) + "/"@ + b);
        lemma_pieces_come_apart(a.skip(i + 1), b);
        assert(pieces(s) =~= pieces(a) + pieces(b));
    } else {
        lemma_first_of_is(s, '/', i);
        assert(s.take(i) =~= a);
        assert(s.skip(i + 1) =~= b);
    }
}

/// The components of a path that is joined are those of its parts. A name is one component;
/// nothing, and a `.`, is none.
pub proof fn law_components_come_apart(a: Seq<char>, b: Seq<char>, name: Seq<char>)
    requires
        name.len() > 0,
        name != "."@,
        forall|i: int| 0 <= i < name.len() ==> name[i] != '/',
    ensures
        components(a + "/"@ + b) == components(a) + components(b),
        components(name) == seq![name],
        components(""@) == Seq::<Seq<char>>::empty(),
        components("."@) == Seq::<Seq<char>>::empty(),
{
    reveal(Seq::filter);
    reveal_strlit("");
    reveal_strlit(".");
    let counts = |p: Seq<char>| p.len() > 0 && p != "."@;
    lemma_pieces_come_apart(a, b);
    lemma_filter_parts(pieces(a), pieces(b), counts);
    lemma_first_of_is(name, '/', name.len() as int);
    lemma_first_of_is("."@, '/', 1);
    assert(seq![name].drop_last() =~= Seq::empty());
    assert(seq![""@].drop_last() =~= Seq::empty());
    assert(seq!["."@].drop_last() =~= Seq::empty());
    assert(components(name) =~= seq![name]);
    assert(components(""@) =~= Seq::empty());
    assert(components("."@) =~= Seq::empty());
}

proof fn lemma_filter_parts(
    a: Seq<Seq<char>>,
    b: Seq<Seq<char>>,
    f: spec_fn(Seq<char>) -> bool,
)
    ensures
        (a + b).filter(f) == a.filter(f) + b.filter(f),
    decreases b.len(),
{
    reveal(Seq::filter);
    if b.len() == 0 {
        assert(a + b =~= a);
        assert(a.filter(f) + b.filter(f) =~= a.filter(f));
    } else {
        lemma_filter_parts(a, b.drop_last(), f);
        assert((a + b).drop_last() =~= a + b.drop_last());
        assert((a + b).filter(f) =~= a.filter(f) + b.filter(f));
    }
}

} // verus!
