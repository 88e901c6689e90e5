//! Laws on the disks that are offered: none in use, and every other one that can hold an
//! installation.

use vstd::prelude::*;

use crate::backend::DiskView;
use crate::disks::{
    begins_pair, capacity, described, in_use, is_key_char, is_stack, law_pair_found_is_the_first,
    lies_on, mounted, offered, offered_disks, pair, pair_from, says_mounted, says_parent,
};
use crate::number::parsed;
use crate::split::lines;
use crate::text::{occurs_at, trimmed};
use crate::text_laws::{are_positions, lemma_first_of_is, lemma_picked};

verus! {

/// A character of a key: a letter, a digit, or one of four signs.
pub open spec fn is_part_of_key(c: char) -> bool {
    ||| 'A' <= c <= 'Z'
    ||| 'a' <= c <= 'z'
    ||| '0' <= c <= '9'
    ||| c == '_'
    ||| c == '-'
    ||| c == ':'
    ||| c == '%'
}

proof fn lemma_part_of_key(c: char)
    ensures
        is_part_of_key(c) == is_key_char(c),
{
}

/// A pair is read back: the value of a key is what stands in quotation marks behind it, of
/// whatever length, where the pair is the first of that key. What ends a longer key before
/// it is not taken for the key.
pub proof fn law_pair_is_read(
    front: Seq<char>,
    key: Seq<char>,
    value: Seq<char>,
    back: Seq<char>,
)
    requires
        front.len() > 0 ==> !is_part_of_key(front.last()),
        forall|i: int| 0 <= i < value.len() ==> value[i] != '"',
        forall|j: int|
            0 <= j < front.len() && #[trigger] (front + key + "=\""@ + value + "\""@
                + back).subrange(j, j + key.len() + 2) == key + "=\""@ ==> j > 0 && is_part_of_key(
                front[j - 1],
            ),
    ensures
        pair(front + key + "=\""@ + value + "\""@ + back, key) == Some(value),
{
    reveal_strlit("=\"");
    reveal_strlit("\"");
    let line = front + key + "=\""@ + value + "\""@ + back;
    let pattern = key + "=\""@;
    let n = front.len() as int;
    assert(line.subrange(n, n + pattern.len()) =~= pattern);
    assert(occurs_at(line, pattern, n));
    if n > 0 {
        lemma_part_of_key(front.last());
        assert(line[n - 1] == front.last());
    }
    assert(begins_pair(line, pattern, n));
    law_pair_found_is_the_first(line, pattern, 0);
    let i = pair_from(line, pattern, 0)->0;
    if i < n {
        assert(line.subrange(i, i + key.len() + 2) == key + "=\""@);
        assert(line[i - 1] == front[i - 1]);
        lemma_part_of_key(front[i - 1]);
    }
    let rest = line.skip(n + pattern.len());
    assert(rest =~= value + "\""@ + back);
    lemma_first_of_is(rest, '"', value.len() as int);
    assert(rest.take(value.len() as int) =~= value);
}

/// A key that stands nowhere in a line, or only as the end of longer keys, has no value.
pub proof fn law_absent_pair_is_not_read(line: Seq<char>, key: Seq<char>)
    requires
        forall|j: int|
            0 <= j && j + key.len() + 2 <= line.len() && #[trigger] line.subrange(
                j,
                j + key.len() + 2,
            ) == key + "=\""@ ==> j > 0 && is_part_of_key(line[j - 1]),
    ensures
        pair(line, key) is None,
{
    reveal_strlit("=\"");
    let pattern = key + "=\""@;
    law_pair_found_is_the_first(line, pattern, 0);
    if let Some(i) = pair_from(line, pattern, 0) {
        assert(line.subrange(i, i + key.len() + 2) == pattern);
        lemma_part_of_key(line[i - 1]);
    }
}

/// The names in `names` are all that a listing shows to be mounted, with each also what it
/// lies on.
pub open spec fn holds_what_is_used(names: Set<Seq<char>>, devices: Seq<Seq<char>>) -> bool {
    &&& forall|i: int|
        0 <= i < devices.len() ==> ((pair(#[trigger] devices[i], "NAME"@) is Some && (pair(
            devices[i],
            "MOUNTPOINT"@,
        ) matches Some(m) && m.len() > 0)) ==> names.contains(pair(devices[i], "NAME"@)->0))
    &&& forall|i: int|
        0 <= i < devices.len() ==> ((pair(#[trigger] devices[i], "NAME"@) matches Some(n)
            && names.contains(n) && (pair(devices[i], "PKNAME"@) matches Some(p) && p.len() > 0))
            ==> names.contains(pair(devices[i], "PKNAME"@)->0))
}

/// A line shows a disk or a loop device that can be written and holds 4 GiB or more, of
/// whatever size.
pub open spec fn shows_room(line: Seq<char>) -> bool {
    &&& pair(line, "NAME"@) is Some
    &&& pair(line, "PATH"@) is Some
    &&& pair(line, "TYPE"@) == Some("disk"@) || pair(line, "TYPE"@) == Some("loop"@)
    &&& pair(line, "RO"@) != Some("1"@)
    &&& pair(line, "SIZE"@) is Some
    &&& parsed(pair(line, "SIZE"@)->0, 0xffff_ffff_ffff_ffff) matches Some(n)
    &&& n >= 4 * 1024 * 1024 * 1024
}

/// A disk is shown as its line gives it.
pub open spec fn shown_as_given(disk: DiskView, line: Seq<char>) -> bool {
    &&& pair(line, "PATH"@) == Some(disk.path)
    &&& parsed(pair(line, "SIZE"@)->0, 0xffff_ffff_ffff_ffff) == Some(disk.size as nat)
    &&& disk.removable <==> pair(line, "RM"@) == Some("1"@)
    &&& match pair(line, "MODEL"@) {
        Some(m) => if trimmed(m).len() > 0 {
            disk.model == trimmed(m)
        } else {
            disk.model == "(unknown)"@
        },
        None => disk.model == "(unknown)"@,
    }
}

/// The list of disks is safe and complete: for each line that shows room, and for no other,
/// a disk is offered as the line gives it, unless its name is among those in use. In use are
/// the mounted devices and all that they lie on, and nothing else: the names belong to every
/// set that holds those.
pub proof fn law_every_free_disk_is_offered(listing: Seq<char>) -> (r: (Set<Seq<char>>, Seq<int>))
    ensures
        holds_what_is_used(r.0, lines(listing)),
        forall|other: Set<Seq<char>>| #[trigger]
            holds_what_is_used(other, lines(listing)) ==> r.0.subset_of(other),
        are_positions(r.1, lines(listing).len()),
        r.1.len() == offered_disks(listing).len(),
        forall|k: int|
            0 <= k < r.1.len() ==> shown_as_given(
                offered_disks(listing)[k],
                lines(listing)[#[trigger] r.1[k]],
            ),
        forall|i: int|
            0 <= i < lines(listing).len() ==> (#[trigger] r.1.contains(i) <==> shows_room(
                lines(listing)[i],
            ) && !r.0.contains(pair(lines(listing)[i], "NAME"@)->0)),
{
    let all = lines(listing);
    let used = Set::new(|n: Seq<char>| in_use(all, n));
    assert forall|i: int|
        0 <= i < all.len() && pair(#[trigger] all[i], "NAME"@) is Some && (pair(
            all[i],
            "MOUNTPOINT"@,
        ) matches Some(m) && m.len() > 0) implies used.contains(pair(all[i], "NAME"@)->0) by {
        let n = pair(all[i], "NAME"@)->0;
        assert(says_mounted(all[i], n));
        assert(is_stack(all, seq![n]));
        assert(seq![n].last() == n);
    }
    assert forall|i: int|
        0 <= i < all.len() && (pair(#[trigger] all[i], "NAME"@) matches Some(n) && used.contains(n)
            && (pair(all[i], "PKNAME"@) matches Some(p) && p.len() > 0)) implies used.contains(
        pair(all[i], "PKNAME"@)->0,
    ) by {
        let n = pair(all[i], "NAME"@)->0;
        let p = pair(all[i], "PKNAME"@)->0;
        let stack = choose|stack: Seq<Seq<char>>| #[trigger]
            is_stack(all, stack) && stack.last() == n;
        assert(says_parent(all[i], n, p));
        let more = stack.push(p);
        assert forall|k: int| 0 <= k < more.len() - 1 implies lies_on(
            all,
            #[trigger] more[k],
            more[k + 1],
        ) by {
            if k < stack.len() - 1 {
                assert(lies_on(all, stack[k], stack[k + 1]));
            }
        }
        assert(more[0] == stack[0]);
        assert(is_stack(all, more));
        assert(more.last() == p);
    }
    assert forall|other: Set<Seq<char>>| #[trigger]
        holds_what_is_used(other, all) implies used.subset_of(other) by {
        assert forall|n: Seq<char>| used.contains(n) implies other.contains(n) by {
            let stack = choose|stack: Seq<Seq<char>>| #[trigger]
                is_stack(all, stack) && stack.last() == n;
            lemma_stack_is_held(all, other, stack, stack.len() - 1);
        }
    }
    let pick = |line: Seq<char>| offered(all, line);
    let at = lemma_picked(all, pick);
    assert forall|k: int| 0 <= k < at.len() implies shown_as_given(
        offered_disks(listing)[k],
        all[#[trigger] at[k]],
    ) by {
        assert(pick(all[at[k]]) == Some(offered_disks(listing)[k]));
        lemma_shown(all, all[at[k]]);
    }
    (used, at)
}

proof fn lemma_shown(devices: Seq<Seq<char>>, line: Seq<char>)
    requires
        offered(devices, line) is Some,
    ensures
        shows_room(line),
        shown_as_given(offered(devices, line)->0, line),
{
    reveal_strlit("");
    let size = pair(line, "SIZE"@)->0;
    assert(parsed(size, u64::MAX as nat) is Some);
    assert(capacity(size) <= u64::MAX);
    assert(offered(devices, line)->0 == described(line));
}

proof fn lemma_stack_is_held(
    devices: Seq<Seq<char>>,
    names: Set<Seq<char>>,
    stack: Seq<Seq<char>>,
    k: int,
)
    requires
        holds_what_is_used(names, devices),
        is_stack(devices, stack),
        0 <= k < stack.len(),
    ensures
        names.contains(stack[k]),
    decreases k,
{
    if k == 0 {
        assert(mounted(devices, stack[0]));
    } else {
        lemma_stack_is_held(devices, names, stack, k - 1);
        assert(lies_on(devices, stack[k - 1], stack[k - 1 + 1]));
    }
}

} // verus!
