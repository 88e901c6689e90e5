//! Which disks may be offered as the target of an installation.
//!
//! The list of block devices comes as `KEY="VALUE"` pairs, one device per line, with the
//! keys `PATH`, `NAME`, `TYPE`, `PKNAME`, `RO`, `RM`, `MOUNTPOINT`, `SIZE` and `MODEL`.

use vstd::prelude::*;
use vstd::seq_lib::{group_to_multiset_ensures, lemma_multiset_commutative};

use crate::backend::{DiskInfo, DiskView, FAT32_LIMIT};
use crate::number::{parse_u64, parsed};
use crate::split::{first_of, lines, lines_of, strings, texts};
use crate::text::{
    after, before, chars_of, find_from, is_digit, matches_at, occurs_at, position_of, same, trim,
    trimmed,
};

verus! {

/// A character that can be part of a key: an ASCII letter or digit, or one of the signs that
/// keys such as `MAJ:MIN`, `LOG-SEC`, `FSUSE%` and `FSUSE_PCT` hold.
pub open spec fn is_key_char(c: char) -> bool {
    ||| 'A' as u32 <= c as u32 <= 'Z' as u32
    ||| 'a' as u32 <= c as u32 <= 'z' as u32
    ||| is_digit(c)
    ||| c == '_'
    ||| c == '-'
    ||| c == ':'
    ||| c == '%'
}

/// Tells whether `c` can be part of a key.
fn key_char(c: char) -> (r: bool)
    ensures
        r == is_key_char(c),
{
    let n: u32 = c as u32;
    (0x41 <= n && n <= 0x5a) || (0x61 <= n && n <= 0x7a) || (0x30 <= n && n <= 0x39) || c == '_' || c
        == '-' || c == ':' || c == '%'
}

/// `pattern` stands in `line` at position `i` as the beginning of a pair: nothing that could
/// be part of a key stands right before it.
pub open spec fn begins_pair(line: Seq<char>, pattern: Seq<char>, i: int) -> bool {
    occurs_at(line, pattern, i) && (i == 0 || !is_key_char(line[i - 1]))
}

/// The first position, `from` or later, at which `pattern` begins a pair.
pub open spec fn pair_from(line: Seq<char>, pattern: Seq<char>, from: int) -> Option<int>
    decreases line.len() - from + 1,
{
    if from < 0 || from + pattern.len() > line.len() {
        None
    } else if begins_pair(line, pattern, from) {
        Some(from)
    } else {
        pair_from(line, pattern, from + 1)
    }
}

/// What `pair_from` finds is the first such position, and it misses none.
pub proof fn law_pair_found_is_the_first(line: Seq<char>, pattern: Seq<char>, from: int)
    requires
        0 <= from,
    ensures
        match pair_from(line, pattern, from) {
            Some(i) => from <= i && begins_pair(line, pattern, i) && forall|j: int|
                from <= j < i ==> !begins_pair(line, pattern, j),
            None => forall|j: int| from <= j ==> !begins_pair(line, pattern, j),
        },
    decreases line.len() - from + 1,
{
    if from + pattern.len() <= line.len() && !begins_pair(line, pattern, from) {
        law_pair_found_is_the_first(line, pattern, from + 1);
    }
}

/// The value of `key` in a line of `KEY="VALUE"` pairs: what follows the first `key="` that
/// begins a pair, up to the next quotation mark. The value of a longer key that ends in
/// `key` is not taken.
pub open spec fn pair(line: Seq<char>, key: Seq<char>) -> Option<Seq<char>> {
    let pattern = key + "=\""@;
    match pair_from(line, pattern, 0) {
        None => None,
        Some(i) => {
            let rest = line.skip(i + pattern.len());
            let end = first_of(rest, '"') as int;
            if end < rest.len() {
                Some(rest.take(end))
            } else {
                None
            }
        },
    }
}

proof fn lemma_find_char(s: Seq<char>, p: Seq<char>, from: int)
    requires
        p.len() == 1,
        0 <= from <= s.len(),
    ensures
        find_from(s, p, from) == (if first_of(s.skip(from), p[0]) + from < s.len() {
            Some(first_of(s.skip(from), p[0]) + from)
        } else {
            None::<int>
        }),
    decreases s.len() - from,
{
    if from < s.len() {
        lemma_find_char(s, p, from + 1);
        assert(s.skip(from).skip(1) =~= s.skip(from + 1));
        assert(s.subrange(from, from + 1) =~= seq![s[from]]);
        assert(p =~= seq![p[0]]);
        if s[from] != p[0] {
            assert(s.subrange(from, from + 1)[0] != p[0]);
        }
    }
}

/// The first position at which `pattern` begins a pair.
fn pair_position(line: &str, pattern: &str) -> (r: Option<usize>)
    ensures
        r is Some <==> pair_from(line@, pattern@, 0) is Some,
        r matches Some(i) ==> pair_from(line@, pattern@, 0) == Some(i as int) && i + pattern@.len()
            <= line@.len() && line@.len() <= usize::MAX,
{
    let v = chars_of(line);
    let w = chars_of(pattern);
    let mut i: usize = 0;
    if w.len() > v.len() {
        return None;
    }
    let n: usize = v.len();
    while i <= v.len() - w.len()
        invariant
            v@ == line@,
            n == v@.len(),
            w@ == pattern@,
            w@.len() <= v@.len(),
            i <= v@.len() - w@.len() + 1,
            pair_from(line@, pattern@, 0) == pair_from(line@, pattern@, i as int),
        decreases v@.len() - i + 1,
    {
        if matches_at(&v, &w, i) && (i == 0 || !key_char(v[i - 1])) {
            return Some(i);
        }
        if i == v.len() - w.len() {
            assert(pair_from(line@, pattern@, i + 1) is None);
            return None;
        }
        i = i + 1;
    }
    None
}

/// Takes the value of `key` out of a line of `KEY="VALUE"` pairs.
pub fn pair_value<'a>(line: &'a str, key: &str) -> (r: Option<&'a str>)
    ensures
        r is Some <==> pair(line@, key@) is Some,
        r matches Some(v) ==> pair(line@, key@) == Some(v@),
{
    let mut pattern = key.to_owned();
    pattern.append("=\"");
    match pair_position(line, pattern.as_str()) {
        None => None,
        Some(i) => {
            let n: usize = pattern.as_str().unicode_len();
            let rest = after(line, i + n);
            proof {
                reveal_strlit("\"");
                lemma_find_char(rest@, "\""@, 0);
                assert(rest@.skip(0) =~= rest@);
            }
            match position_of(rest, "\"") {
                None => None,
                Some(end) => Some(before(rest, end)),
            }
        },
    }
}

/// `line` describes a device called `name` that is mounted.
pub open spec fn says_mounted(line: Seq<char>, name: Seq<char>) -> bool {
    &&& pair(line, "NAME"@) == Some(name)
    &&& pair(line, "MOUNTPOINT"@) matches Some(m)
    &&& m.len() > 0
}

/// `line` describes a device called `child` that lies on the device called `parent`.
pub open spec fn says_parent(line: Seq<char>, child: Seq<char>, parent: Seq<char>) -> bool {
    &&& pair(line, "NAME"@) == Some(child)
    &&& pair(line, "PKNAME"@) == Some(parent)
    &&& parent.len() > 0
}

/// A device called `name` is mounted.
pub open spec fn mounted(devices: Seq<Seq<char>>, name: Seq<char>) -> bool {
    exists|i: int| 0 <= i < devices.len() && says_mounted(#[trigger] devices[i], name)
}

/// A device called `child` lies on the device called `parent`.
pub open spec fn lies_on(devices: Seq<Seq<char>>, child: Seq<char>, parent: Seq<char>) -> bool {
    exists|i: int| 0 <= i < devices.len() && says_parent(#[trigger] devices[i], child, parent)
}

/// A stack of devices: the first is mounted, and each lies on the next.
pub open spec fn is_stack(devices: Seq<Seq<char>>, stack: Seq<Seq<char>>) -> bool {
    &&& stack.len() > 0
    &&& mounted(devices, stack[0])
    &&& forall|i: int|
        0 <= i < stack.len() - 1 ==> lies_on(devices, #[trigger] stack[i], stack[i + 1])
}

/// The device called `name` is in use: it is mounted, or something mounted lies on it,
/// directly or through other devices.
pub open spec fn in_use(devices: Seq<Seq<char>>, name: Seq<char>) -> bool {
    exists|stack: Seq<Seq<char>>| #[trigger] is_stack(devices, stack) && stack.last() == name
}

/// The capacity that a line gives, zero where it gives no number.
pub open spec fn capacity(text: Seq<char>) -> nat {
    match parsed(text, u64::MAX as nat) {
        Some(n) => n,
        None => 0,
    }
}

/// The model to show for the model that a line gives.
pub open spec fn model_shown(given: Option<Seq<char>>) -> Seq<char> {
    let model = match given {
        Some(m) => trimmed(m),
        None => ""@,
    };
    if model.len() == 0 {
        "(unknown)"@
    } else {
        model
    }
}

/// A line describes a disk, or a loop device, that can be written and holds 4 GiB or more.
pub open spec fn suitable(line: Seq<char>) -> bool {
    &&& pair(line, "NAME"@) is Some
    &&& pair(line, "PATH"@) is Some
    &&& pair(line, "TYPE"@) == Some("disk"@) || pair(line, "TYPE"@) == Some("loop"@)
    &&& pair(line, "RO"@) != Some("1"@)
    &&& pair(line, "SIZE"@) matches Some(size)
    &&& capacity(size) >= 4 * crate::backend::GIB
}

/// What a line describes.
pub open spec fn described(line: Seq<char>) -> DiskView {
    DiskView {
        path: pair(line, "PATH"@)->0,
        model: model_shown(pair(line, "MODEL"@)),
        size: capacity(pair(line, "SIZE"@)->0) as u64,
        removable: pair(line, "RM"@) == Some("1"@),
    }
}

/// The disk to offer for a line, if one is to be offered.
pub open spec fn offered(devices: Seq<Seq<char>>, line: Seq<char>) -> Option<DiskView> {
    if suitable(line) && !in_use(devices, pair(line, "NAME"@)->0) {
        Some(described(line))
    } else {
        None
    }
}

/// The disks to offer for a list of devices, in the order of the list.
pub open spec fn offered_disks(listing: Seq<char>) -> Seq<DiskView> {
    lines(listing).filter_map(|line: Seq<char>| offered(lines(listing), line))
}

/// The contents of a list of disks.
pub open spec fn disk_views(v: Seq<DiskInfo>) -> Seq<DiskView> {
    v.map_values(|d: DiskInfo| d@)
}

/// Nothing that a mounted device lies on, at whatever depth, is offered.
pub proof fn law_no_disk_under_a_mount_is_offered(
    devices: Seq<Seq<char>>,
    stack: Seq<Seq<char>>,
    k: int,
    line: Seq<char>,
)
    requires
        is_stack(devices, stack),
        0 <= k < stack.len(),
        pair(line, "NAME"@) == Some(stack[k]),
    ensures
        offered(devices, line) is None,
{
    let part = stack.take(k + 1);
    assert(part.last() == stack[k]);
    assert forall|i: int| 0 <= i < part.len() - 1 implies lies_on(
        devices,
        #[trigger] part[i],
        part[i + 1],
    ) by {
        assert(lies_on(devices, stack[i], stack[i + 1]));
    }
    assert(is_stack(devices, part));
}

/// The order of the lines decides nothing but the order of the disks: listings with the same
/// lines give the same disks.
pub proof fn law_order_of_lines_does_not_matter(a: Seq<char>, b: Seq<char>)
    requires
        lines(a).to_multiset() == lines(b).to_multiset(),
    ensures
        offered_disks(a).to_multiset() == offered_disks(b).to_multiset(),
{
    let x = lines(a);
    let y = lines(b);
    let f = |line: Seq<char>| offered(x, line);
    let g = |line: Seq<char>| offered(y, line);
    assert forall|line: Seq<char>| #[trigger] f(line) == g(line) by {
        let name = pair(line, "NAME"@)->0;
        if in_use(x, name) {
            lemma_same_use(x, y, name);
        }
        if in_use(y, name) {
            lemma_same_use(y, x, name);
        }
    }
    assert(f =~= g);
    lemma_picked_from_same(x, y, f);
}

proof fn lemma_same_use(x: Seq<Seq<char>>, y: Seq<Seq<char>>, name: Seq<char>)
    requires
        x.to_multiset() == y.to_multiset(),
        in_use(x, name),
    ensures
        in_use(y, name),
{
    broadcast use group_to_multiset_ensures;

    assert forall|line: Seq<char>| x.contains(line) implies #[trigger] y.contains(line) by {
        assert(x.to_multiset().count(line) > 0);
    }
    let stack = choose|stack: Seq<Seq<char>>| #[trigger]
        is_stack(x, stack) && stack.last() == name;
    let i = choose|i: int| 0 <= i < x.len() && says_mounted(#[trigger] x[i], stack[0]);
    assert(y.contains(x[i]));
    let j = choose|j: int| 0 <= j < y.len() && y[j] == x[i];
    assert(says_mounted(y[j], stack[0]));
    assert forall|k: int| 0 <= k < stack.len() - 1 implies lies_on(
        y,
        #[trigger] stack[k],
        stack[k + 1],
    ) by {
        assert(lies_on(x, stack[k], stack[k + 1]));
        let p = choose|p: int|
            0 <= p < x.len() && says_parent(#[trigger] x[p], stack[k], stack[k + 1]);
        assert(y.contains(x[p]));
        let q = choose|q: int| 0 <= q < y.len() && y[q] == x[p];
        assert(says_parent(y[q], stack[k], stack[k + 1]));
    }
    assert(is_stack(y, stack));
}

proof fn lemma_picked_add(
    a: Seq<Seq<char>>,
    b: Seq<Seq<char>>,
    f: spec_fn(Seq<char>) -> Option<DiskView>,
)
    ensures
        (a + b).filter_map(f) == a.filter_map(f) + b.filter_map(f),
    decreases b.len(),
{
    if b.len() == 0 {
        assert(a + b =~= a);
        assert(a.filter_map(f) + b.filter_map(f) =~= a.filter_map(f));
    } else {
        lemma_picked_add(a, b.drop_last(), f);
        assert((a + b).drop_last() =~= a + b.drop_last());
        assert((a + b).filter_map(f) =~= a.filter_map(f) + b.filter_map(f));
    }
}

proof fn lemma_picked_from_same(
    a: Seq<Seq<char>>,
    b: Seq<Seq<char>>,
    f: spec_fn(Seq<char>) -> Option<DiskView>,
)
    requires
        a.to_multiset() == b.to_multiset(),
    ensures
        a.filter_map(f).to_multiset() == b.filter_map(f).to_multiset(),
    decreases a.len(),
{
    broadcast use group_to_multiset_ensures;

    if a.len() == 0 {
        assert(a.to_multiset().len() == 0 && b.to_multiset().len() == b.len());
        assert(a =~= b);
    } else {
        let x = a.last();
        let rest = a.drop_last();
        assert(a =~= rest.push(x));
        assert(a.to_multiset().count(x) > 0);
        assert(b.contains(x));
        let k = choose|k: int| 0 <= k < b.len() && b[k] == x;
        let front = b.take(k);
        let back = b.skip(k + 1);
        let one = seq![x];
        assert(b =~= front + (one + back));
        assert((front + back).to_multiset() =~= rest.to_multiset()) by {
            lemma_multiset_commutative(front, one + back);
            lemma_multiset_commutative(one, back);
            lemma_multiset_commutative(front, back);
            lemma_multiset_commutative(rest, one);
            assert(rest + one =~= a);
            assert forall|y: Seq<char>| (front + back).to_multiset().count(y)
                == #[trigger] rest.to_multiset().count(y) by {
                let unit = one.to_multiset();
                assert(a.to_multiset() == rest.to_multiset().add(unit));
                assert(b.to_multiset() == front.to_multiset().add(unit.add(back.to_multiset())));
                assert(a.to_multiset().count(y) == rest.to_multiset().count(y) + unit.count(y));
                assert(b.to_multiset().count(y) == front.to_multiset().count(y) + unit.count(y)
                    + back.to_multiset().count(y));
            }
        }
        lemma_picked_from_same(rest, front + back, f);
        lemma_picked_add(front, one + back, f);
        lemma_picked_add(one, back, f);
        lemma_picked_add(front, back, f);
        lemma_picked_add(rest, one, f);
        assert(rest + one =~= a);
        let p = front.filter_map(f);
        let q = back.filter_map(f);
        let o = one.filter_map(f);
        lemma_multiset_commutative(p, o + q);
        lemma_multiset_commutative(o, q);
        lemma_multiset_commutative(p, q);
        lemma_multiset_commutative(rest.filter_map(f), o);
        assert(a.filter_map(f).to_multiset() =~= b.filter_map(f).to_multiset());
    }
}

/// A device in use makes the device that it lies on one in use.
proof fn lemma_use_spreads(devices: Seq<Seq<char>>, child: Seq<char>, parent: Seq<char>)
    requires
        in_use(devices, child),
        lies_on(devices, child, parent),
    ensures
        in_use(devices, parent),
{
    let stack = choose|stack: Seq<Seq<char>>| #[trigger]
        is_stack(devices, stack) && stack.last() == child;
    let longer = stack.push(parent);
    assert forall|i: int| 0 <= i < longer.len() - 1 implies lies_on(
        devices,
        #[trigger] longer[i],
        longer[i + 1],
    ) by {
        if i < stack.len() - 1 {
            assert(lies_on(devices, stack[i], stack[i + 1]));
        }
    }
    assert(is_stack(devices, longer));
    assert(longer.last() == parent);
}

/// A set that holds what is mounted and, with each device, what it lies on, holds every
/// device in use.
proof fn lemma_closed_set_holds_stack(
    devices: Seq<Seq<char>>,
    used: Seq<Seq<char>>,
    stack: Seq<Seq<char>>,
    k: int,
)
    requires
        forall|n: Seq<char>| #[trigger] mounted(devices, n) ==> used.contains(n),
        forall|c: Seq<char>, p: Seq<char>| #[trigger]
            lies_on(devices, c, p) && used.contains(c) ==> used.contains(p),
        is_stack(devices, stack),
        0 <= k < stack.len(),
    ensures
        used.contains(stack[k]),
    decreases k,
{
    if k > 0 {
        lemma_closed_set_holds_stack(devices, used, stack, k - 1);
        assert(lies_on(devices, stack[k - 1], stack[k - 1 + 1]));
    }
}

/// Tells whether `v` holds the text `s`.
pub fn holds(v: &Vec<String>, s: &str) -> (r: bool)
    ensures
        r == strings(v@).contains(s@),
{
    let mut i: usize = 0;
    while i < v.len()
        invariant
            i <= v@.len(),
            forall|j: int| 0 <= j < i ==> v@[j]@ != s@,
        decreases v@.len() - i,
    {
        if same(v[i].as_str(), s) {
            assert(strings(v@)[i as int] == s@);
            return true;
        }
        i = i + 1;
    }
    assert forall|j: int| 0 <= j < strings(v@).len() implies strings(v@)[j] != s@ by {
        assert(v@[j]@ != s@);
    }
    false
}

/// The number of pairs whose second part `used` does not hold.
spec fn missing(pairs: Seq<(Seq<char>, Seq<char>)>, used: Seq<Seq<char>>) -> nat
    decreases pairs.len(),
{
    if pairs.len() == 0 {
        0
    } else {
        missing(pairs.drop_last(), used) + if used.contains(pairs.last().1) {
            0nat
        } else {
            1nat
        }
    }
}

proof fn lemma_missing_shrinks(
    pairs: Seq<(Seq<char>, Seq<char>)>,
    used: Seq<Seq<char>>,
    name: Seq<char>,
)
    ensures
        missing(pairs, used.push(name)) <= missing(pairs, used),
        (exists|i: int| 0 <= i < pairs.len() && #[trigger] pairs[i].1 == name) && !used.contains(
            name,
        ) ==> missing(pairs, used.push(name)) < missing(pairs, used),
    decreases pairs.len(),
{
    assert(used.push(name)[used.len() as int] == name);
    if pairs.len() > 0 {
        let less = pairs.drop_last();
        lemma_missing_shrinks(less, used, name);
        let last = pairs.last().1;
        assert(used.contains(last) ==> used.push(name).contains(last)) by {
            if used.contains(last) {
                let j = choose|j: int| 0 <= j < used.len() && used[j] == last;
                assert(used.push(name)[j] == last);
            }
        }
        if !used.contains(name) && (exists|i: int| 0 <= i < pairs.len() && #[trigger] pairs[i].1
            == name) {
            let i = choose|i: int| 0 <= i < pairs.len() && #[trigger] pairs[i].1 == name;
            if i < less.len() {
                assert(less[i].1 == name);
            }
        }
    }
}

/// The contents of pairs of texts.
spec fn pair_views(v: Seq<(&str, &str)>) -> Seq<(Seq<char>, Seq<char>)> {
    v.map_values(|p: (&str, &str)| (p.0@, p.1@))
}

/// The names of the mounted devices.
fn mounted_names(devices: &Vec<&str>) -> (r: Vec<String>)
    ensures
        forall|n: Seq<char>| strings(r@).contains(n) <==> mounted(texts(devices@), n),
{
    let mut out: Vec<String> = Vec::new();
    let mut i: usize = 0;
    let ghost all = texts(devices@);
    while i < devices.len()
        invariant
            i <= devices@.len(),
            all == texts(devices@),
            forall|n: Seq<char>|
                strings(out@).contains(n) <==> exists|j: int|
                    0 <= j < i && says_mounted(#[trigger] all[j], n),
        decreases devices@.len() - i,
    {
        let line: &str = devices[i];
        assert(all[i as int] == line@);
        let ghost before_out = out@;
        match pair_value(line, "MOUNTPOINT") {
            Some(m) => {
                if !m.is_empty() {
                    match pair_value(line, "NAME") {
                        Some(name) => {
                            out.push(name.to_owned());
                            assert(strings(out@) =~= strings(before_out).push(name@));
                            assert(strings(out@)[before_out.len() as int] == name@);
                            assert(says_mounted(all[i as int], name@));
                        },
                        None => {},
                    }
                }
            },
            None => {},
        }
        assert forall|n: Seq<char>|
            strings(out@).contains(n) <==> exists|j: int|
                0 <= j < i + 1 && says_mounted(#[trigger] all[j], n) by {
            let old_strings = strings(before_out);
            if strings(out@).contains(n) {
                let k = choose|k: int| 0 <= k < strings(out@).len() && strings(out@)[k] == n;
                if k < old_strings.len() {
                    assert(old_strings[k] == n);
                    assert(old_strings.contains(n));
                }
            }
            if exists|j: int| 0 <= j < i + 1 && says_mounted(#[trigger] all[j], n) {
                let j = choose|j: int| 0 <= j < i + 1 && says_mounted(#[trigger] all[j], n);
                if j < i {
                    assert(old_strings.contains(n));
                    let k = choose|k: int| 0 <= k < old_strings.len() && old_strings[k] == n;
                    assert(strings(out@)[k] == n);
                }
            }
        }
        i = i + 1;
    }
    out
}

/// The pairs of a device's name and the name of the device that it lies on.
fn parent_pairs<'a>(devices: &Vec<&'a str>) -> (r: Vec<(&'a str, &'a str)>)
    ensures
        forall|c: Seq<char>, p: Seq<char>|
            pair_views(r@).contains((c, p)) <==> lies_on(texts(devices@), c, p),
{
    let mut out: Vec<(&'a str, &'a str)> = Vec::new();
    let mut i: usize = 0;
    let ghost all = texts(devices@);
    while i < devices.len()
        invariant
            i <= devices@.len(),
            all == texts(devices@),
            forall|c: Seq<char>, p: Seq<char>|
                pair_views(out@).contains((c, p)) <==> exists|j: int|
                    0 <= j < i && says_parent(#[trigger] all[j], c, p),
        decreases devices@.len() - i,
    {
        let line: &'a str = devices[i];
        assert(all[i as int] == line@);
        let ghost before_out = out@;
        match (pair_value(line, "NAME"), pair_value(line, "PKNAME")) {
            (Some(name), Some(parent)) => {
                if !parent.is_empty() {
                    out.push((name, parent));
                    assert(pair_views(out@) =~= pair_views(before_out).push((name@, parent@)));
                    assert(pair_views(out@)[before_out.len() as int] == (name@, parent@));
                    assert(says_parent(all[i as int], name@, parent@));
                }
            },
            _ => {},
        }
        assert forall|c: Seq<char>, p: Seq<char>|
            pair_views(out@).contains((c, p)) <==> exists|j: int|
                0 <= j < i + 1 && says_parent(#[trigger] all[j], c, p) by {
            let was = pair_views(before_out);
            let now = pair_views(out@);
            if now.contains((c, p)) {
                let k = choose|k: int| 0 <= k < now.len() && now[k] == (c, p);
                if k < was.len() {
                    assert(was[k] == (c, p));
                    assert(was.contains((c, p)));
                }
            }
            if exists|j: int| 0 <= j < i + 1 && says_parent(#[trigger] all[j], c, p) {
                let j = choose|j: int| 0 <= j < i + 1 && says_parent(#[trigger] all[j], c, p);
                if j < i {
                    assert(was.contains((c, p)));
                    let k = choose|k: int| 0 <= k < was.len() && was[k] == (c, p);
                    assert(now[k] == (c, p));
                }
            }
        }
        i = i + 1;
    }
    out
}

/// The names of the devices in use.
fn names_in_use(devices: &Vec<&str>) -> (r: Vec<String>)
    ensures
        forall|n: Seq<char>| strings(r@).contains(n) <==> in_use(texts(devices@), n),
{
    let ghost all = texts(devices@);
    let mut used = mounted_names(devices);
    let parents = parent_pairs(devices);
    let ghost links = pair_views(parents@);
    proof {
        assert forall|n: Seq<char>| mounted(all, n) implies in_use(all, n) by {
            assert(is_stack(all, seq![n]));
            assert(seq![n].last() == n);
        }
    }
    let mut changed: bool = true;
    while changed
        invariant
            all == texts(devices@),
            links == pair_views(parents@),
            forall|c: Seq<char>, p: Seq<char>| links.contains((c, p)) <==> lies_on(all, c, p),
            forall|n: Seq<char>| mounted(all, n) ==> strings(used@).contains(n),
            forall|n: Seq<char>| strings(used@).contains(n) ==> in_use(all, n),
            !changed ==> forall|i: int|
                0 <= i < links.len() && strings(used@).contains((#[trigger] links[i]).0)
                    ==> strings(used@).contains(links[i].1),
        decreases missing(links, strings(used@)), changed as nat,
    {
        changed = false;
        let ghost start = strings(used@);
        let mut i: usize = 0;
        while i < parents.len()
            invariant
                i <= parents@.len(),
                links == pair_views(parents@),
                forall|c: Seq<char>, p: Seq<char>| links.contains((c, p)) <==> lies_on(all, c, p),
                forall|n: Seq<char>| mounted(all, n) ==> strings(used@).contains(n),
                forall|n: Seq<char>| strings(used@).contains(n) ==> in_use(all, n),
                missing(links, strings(used@)) <= missing(links, start),
                changed ==> missing(links, strings(used@)) < missing(links, start),
                !changed ==> strings(used@) == start && forall|j: int|
                    0 <= j < i && start.contains((#[trigger] links[j]).0) ==> start.contains(
                        links[j].1,
                    ),
            decreases parents@.len() - i,
        {
            let (name, parent) = parents[i];
            assert(links[i as int] == (name@, parent@));
            if holds(&used, name) && !holds(&used, parent) {
                let ghost was = strings(used@);
                proof {
                    assert(links.contains((name@, parent@)));
                    lemma_use_spreads(all, name@, parent@);
                    lemma_missing_shrinks(links, was, parent@);
                    assert(links[i as int].1 == parent@);
                }
                used.push(parent.to_owned());
                proof {
                    assert(strings(used@) =~= was.push(parent@));
                    assert forall|n: Seq<char>| mounted(all, n) implies strings(used@).contains(
                        n,
                    ) by {
                        let k = choose|k: int| 0 <= k < was.len() && was[k] == n;
                        assert(strings(used@)[k] == n);
                    }
                    assert forall|n: Seq<char>| strings(used@).contains(n) implies in_use(
                        all,
                        n,
                    ) by {
                        let k = choose|k: int|
                            0 <= k < strings(used@).len() && strings(used@)[k] == n;
                        if k < was.len() {
                            assert(was[k] == n);
                            assert(was.contains(n));
                        }
                    }
                }
                changed = true;
            }
            i = i + 1;
        }
    }
    proof {
        let final_names = strings(used@);
        assert forall|c: Seq<char>, p: Seq<char>| #[trigger]
            lies_on(all, c, p) && final_names.contains(c) implies final_names.contains(p) by {
            assert(links.contains((c, p)));
            let i = choose|i: int| 0 <= i < links.len() && links[i] == (c, p);
            assert(links[i].0 == c);
        }
        assert forall|n: Seq<char>| in_use(all, n) implies final_names.contains(n) by {
            let stack = choose|stack: Seq<Seq<char>>| #[trigger]
                is_stack(all, stack) && stack.last() == n;
            lemma_closed_set_holds_stack(all, final_names, stack, stack.len() - 1);
        }
    }
    used
}

/// Tells whether an optional text is `s`.
fn is_text(given: Option<&str>, s: &str) -> (r: bool)
    ensures
        r == (given matches Some(t) && t@ == s@),
{
    match given {
        Some(t) => same(t, s),
        None => false,
    }
}

/// The disk that a line describes, where it is suitable and not among `used`.
fn offer(line: &str, used: &Vec<String>, Ghost(devices): Ghost<Seq<Seq<char>>>) -> (r: Option<
    DiskInfo,
>)
    requires
        forall|n: Seq<char>| strings(used@).contains(n) <==> in_use(devices, n),
    ensures
        r is Some <==> offered(devices, line@) is Some,
        r matches Some(d) ==> offered(devices, line@) == Some(d@),
{
    match (
        pair_value(line, "NAME"),
        pair_value(line, "PATH"),
        pair_value(line, "TYPE"),
        pair_value(line, "SIZE"),
    ) {
        (Some(name), Some(path), Some(kind), Some(text)) => {
            let size: u64 = match parse_u64(text) {
                Some(n) => n,
                None => 0,
            };
            if (!same(kind, "disk") && !same(kind, "loop")) || is_text(pair_value(line, "RO"), "1")
                || size < FAT32_LIMIT || holds(used, name) {
                return None;
            }
            let model: &str = match pair_value(line, "MODEL") {
                Some(m) => trim(m),
                None => "",
            };
            let shown: &str = if model.is_empty() {
                "(unknown)"
            } else {
                model
            };
            Some(
                DiskInfo {
                    path: path.to_owned(),
                    model: shown.to_owned(),
                    size,
                    removable: is_text(pair_value(line, "RM"), "1"),
                },
            )
        },
        _ => None,
    }
}

/// Picks the disks to offer out of the list of block devices.
///
/// A device that is mounted is in use, and so is whatever it lies on, down to the physical
/// disks. What is in use, read-only, smaller than 4 GiB, or neither a disk nor a loop
/// device is left out.
pub fn installable_disks(listing: &str) -> (r: Vec<DiskInfo>)
    ensures
        disk_views(r@) == offered_disks(listing@),
{
    let devices = lines_of(listing);
    let used = names_in_use(&devices);
    let ghost all = lines(listing@);
    let ghost pick = |line: Seq<char>| offered(all, line);
    let mut disks: Vec<DiskInfo> = Vec::new();
    let mut i: usize = 0;
    assert(all.take(0).filter_map(pick) =~= Seq::empty()) by {
        reveal(Seq::filter_map);
    }
    while i < devices.len()
        invariant
            i <= devices@.len(),
            all == texts(devices@),
            pick == (|line: Seq<char>| offered(all, line)),
            forall|n: Seq<char>| strings(used@).contains(n) <==> in_use(all, n),
            disk_views(disks@) == all.take(i as int).filter_map(pick),
        decreases devices@.len() - i,
    {
        let ghost was = disks@;
        let line: &str = devices[i];
        assert(all[i as int] == line@);
        proof {
            all.lemma_filter_map_take_succ(pick, i as int);
        }
        match offer(line, &used, Ghost(all)) {
            Some(d) => {
                disks.push(d);
                assert(disk_views(disks@) =~= disk_views(was).push(d@));
            },
            None => {},
        }
        i = i + 1;
    }
    assert(all.take(i as int) =~= all);
    disks
}

} // verus!
