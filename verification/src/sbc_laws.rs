//! Laws on the boot files of single-board computers.

use vstd::prelude::*;

use crate::effects::{ActionView, EntryView, ReplyView};
use crate::sbc::{
    brought, cmdline_file, first_line, fixed_cmdline, fixed_word,
    law_success_means_all_files_are_there, lemma_fixed_words, FilesPhase, FilesView,
};
use crate::split::{joined, law_joined_words_come_apart, lemma_words_are_words, lines, words};
use crate::text_laws::{
    are_positions, law_joined_path_comes_apart, law_lines_come_apart, lemma_picked,
};
use crate::walk::{law_walk_finds_all_files, lemma_told_further, Node};

verus! {

/// A rewritten command line, word by word: only words that begin with `rootfstype=` are gone.
/// Every word that begins with `root=` has become `root=systemimg:auto` in its place, and every
/// other word is there unchanged, in its order. One space stands between each two.
pub proof fn law_other_words_stay(line: Seq<char>) -> (at: Seq<int>)
    ensures
        are_positions(at, words(line).len()),
        at.len() == words(fixed_cmdline(line)).len(),
        forall|i: int|
            0 <= i < words(line).len() ==> (#[trigger] at.contains(i)
                <==> !"rootfstype="@.is_prefix_of(words(line)[i])),
        forall|k: int|
            0 <= k < at.len() ==> words(fixed_cmdline(line))[k] == (if "root="@.is_prefix_of(
                words(line)[#[trigger] at[k]],
            ) {
                "root=systemimg:auto"@
            } else {
                words(line)[at[k]]
            }),
        fixed_cmdline(line) == joined(words(fixed_cmdline(line)), " "@),
{
    let all = words(line);
    let f = |w: Seq<char>| fixed_word(w);
    lemma_words_are_words(line);
    lemma_fixed_words(all);
    law_joined_words_come_apart(all.filter_map(f));
    let at = lemma_picked(all, f);
    assert forall|i: int| 0 <= i < all.len() implies (#[trigger] at.contains(i)
        <==> !"rootfstype="@.is_prefix_of(all[i])) by {
        lemma_not_both(all[i]);
    }
    at
}

proof fn lemma_not_both(w: Seq<char>)
    ensures
        !("root="@.is_prefix_of(w) && "rootfstype="@.is_prefix_of(w)),
{
    reveal_strlit("root=");
    reveal_strlit("rootfstype=");
    if "root="@.is_prefix_of(w) && "rootfstype="@.is_prefix_of(w) {
        assert(w.subrange(0, 5)[4] == '=');
        assert(w.subrange(0, 11)[4] == 'f');
    }
}

/// The words of a rewritten line that do not begin with `root=` are exactly those of the line
/// that begin neither with `root=` nor with `rootfstype=`, in their order, and as many words
/// begin with `root=` as before.
pub proof fn law_only_the_root_is_rewritten(line: Seq<char>)
    ensures
        words(fixed_cmdline(line)).filter(|w: Seq<char>| !"root="@.is_prefix_of(w)) == words(
            line,
        ).filter(
            |w: Seq<char>| !"root="@.is_prefix_of(w) && !"rootfstype="@.is_prefix_of(w),
        ),
        words(fixed_cmdline(line)).filter(|w: Seq<char>| "root="@.is_prefix_of(w)).len() == words(
            line,
        ).filter(|w: Seq<char>| "root="@.is_prefix_of(w)).len(),
{
    lemma_words_are_words(line);
    lemma_fixed_words(words(line));
    law_joined_words_come_apart(words(line).filter_map(|w: Seq<char>| fixed_word(w)));
    lemma_kept_words(words(line));
}

proof fn lemma_kept_words(ws: Seq<Seq<char>>)
    ensures
        ({
            let out = ws.filter_map(|w: Seq<char>| fixed_word(w));
            &&& out.filter(|w: Seq<char>| !"root="@.is_prefix_of(w)) == ws.filter(
                |w: Seq<char>| !"root="@.is_prefix_of(w) && !"rootfstype="@.is_prefix_of(w),
            )
            &&& out.filter(|w: Seq<char>| "root="@.is_prefix_of(w)).len() == ws.filter(
                |w: Seq<char>| "root="@.is_prefix_of(w),
            ).len()
        }),
    decreases ws.len(),
{
    reveal(Seq::filter);
    let f = |w: Seq<char>| fixed_word(w);
    let other = |w: Seq<char>| !"root="@.is_prefix_of(w);
    let kept = |w: Seq<char>| !"root="@.is_prefix_of(w) && !"rootfstype="@.is_prefix_of(w);
    let root = |w: Seq<char>| "root="@.is_prefix_of(w);
    let out = ws.filter_map(f);
    if ws.len() == 0 {
        assert(out.filter(other) =~= ws.filter(kept));
    } else {
        let less = ws.drop_last();
        let w = ws.last();
        lemma_kept_words(less);
        let before = less.filter_map(f);
        reveal_strlit("root=");
        reveal_strlit("root=systemimg:auto");
        let auto = "root=systemimg:auto"@;
        assert("root="@.is_prefix_of(auto)) by {
            assert(auto.subrange(0, 5) =~= "root="@);
        }
        if let Some(v) = fixed_word(w) {
            assert(out == before.push(v));
            assert(out.drop_last() =~= before);
            assert(out.last() == v);
        } else {
            assert(out == before);
            lemma_not_both(w);
        }
    }
}

/// Only the first line of a command line file counts: the file that replaces it is that line,
/// rewritten, with a line feed behind it.
pub proof fn law_only_the_first_line_counts(line: Seq<char>, rest: Seq<char>)
    requires
        forall|i: int| 0 <= i < line.len() ==> line[i] != '\n',
        line.len() > 0 ==> line.last() != '\r',
    ensures
        cmdline_file(line + "\n"@ + rest) == fixed_cmdline(line) + "\n"@,
        line.len() > 0 ==> cmdline_file(line) == fixed_cmdline(line) + "\n"@,
        cmdline_file(""@) == "\n"@,
{
    law_lines_come_apart(line, rest);
    assert((seq![line] + lines(rest))[0] == line);
    assert(first_line(line + "\n"@ + rest) == line);
    reveal_strlit("");
    assert(words(""@) =~= Seq::empty());
    assert(fixed_cmdline(""@) =~= Seq::empty());
    assert(cmdline_file(""@) =~= "\n"@);
}

/// When the boot files have been brought, each file that the walk through `boot` of the image
/// found, at `boot/` and its path there, has come to that path on the boot partition.
pub proof fn law_boot_files_keep_their_paths(
    image_root: Seq<char>,
    boot: Seq<char>,
    replies: Seq<ReplyView>,
    i: int,
    rel: Seq<char>,
)
    requires
        ({
            let t = FilesView::start(image_root, boot).run(replies);
            &&& t.request() == ActionView::Finish(Ok(()))
            &&& 0 <= i < t.walk.files.len() <= usize::MAX
            &&& t.walk.files[i] == image_root + "/boot/"@ + rel
        }),
        image_root.len() > 0,
        image_root.last() != '/',
        boot.len() > 0,
        boot.last() != '/',
        rel.len() > 0,
        rel[0] != '/',
    ensures
        brought(
            FilesView::start(image_root, boot),
            replies,
            image_root + "/boot/"@ + rel,
            boot + "/"@ + rel,
        ),
{
    let s = FilesView::start(image_root, boot);
    let t = s.run(replies);
    lemma_finished(s, replies);
    reveal_strlit("boot");
    reveal_strlit("/");
    reveal_strlit("/boot/");
    let source = image_root + "/"@ + "boot"@;
    law_joined_path_comes_apart(image_root, "boot"@);
    assert(image_root + "/boot/"@ + rel =~= source + "/"@ + rel);
    law_joined_path_comes_apart(source, rel);
    law_joined_path_comes_apart(boot, rel);
    law_success_means_all_files_are_there(image_root, boot, replies, i);
}

proof fn lemma_finished(s: FilesView, replies: Seq<ReplyView>)
    requires
        s.run(replies).request() == ActionView::Finish(Ok(())),
        s.phase is Walk,
    ensures
        s.run(replies).phase is Finished,
        s.run(replies).result is Ok,
        s.run(replies).source == s.source,
        s.run(replies).boot == s.boot,
    decreases replies.len(),
{
    lemma_same_places(s, replies);
}

proof fn lemma_same_places(s: FilesView, replies: Seq<ReplyView>)
    ensures
        s.run(replies).source == s.source,
        s.run(replies).boot == s.boot,
    decreases replies.len(),
{
    if replies.len() > 0 {
        lemma_same_places(s, replies.drop_last());
    }
}

/// While the procedure was told `replies`, it created the directory `dir`, with success.
pub open spec fn dir_created(s: FilesView, replies: Seq<ReplyView>, dir: Seq<char>) -> bool
    decreases replies.len(),
{
    replies.len() > 0 && (dir_created(s, replies.drop_last(), dir) || (s.run(
        replies.drop_last(),
    ).request() == ActionView::CreateDir(dir) && (replies.last() matches ReplyView::Outcome(r) && r
        is Ok)))
}

/// A boot file is copied only after the directory that it goes to, if it goes to one, was
/// created.
pub proof fn law_directories_come_first(
    image_root: Seq<char>,
    boot: Seq<char>,
    replies: Seq<ReplyView>,
)
    ensures
        ({
            let s = FilesView::start(image_root, boot);
            s.run(replies).request() matches ActionView::CopyFile { from, to } ==> (
            crate::path::parent_dir(to) matches Some(dir) ==> dir_created(s, replies, dir))
        }),
    decreases replies.len(),
{
    if replies.len() > 0 {
        lemma_copy_follows(
            FilesView::start(image_root, boot).run(replies.drop_last()),
            replies.last(),
        );
    }
}

proof fn lemma_copy_follows(u: FilesView, r: ReplyView)
    ensures
        u.advance(r).phase matches FilesPhase::Copy(i) ==> {
            let to = u.advance(r).dest(i as int);
            ||| crate::path::parent_dir(to) is None
            ||| u.request() == ActionView::CreateDir(crate::path::parent_dir(to)->0) && (r
                matches ReplyView::Outcome(x) && x is Ok)
        },
{
}

/// Whenever the procedure asked for the entries of a directory, `listing` told them.
pub open spec fn lists_by(
    s: FilesView,
    replies: Seq<ReplyView>,
    listing: spec_fn(Seq<char>) -> Seq<EntryView>,
) -> bool
    decreases replies.len(),
{
    replies.len() > 0 ==> lists_by(s, replies.drop_last(), listing) && (s.run(
        replies.drop_last(),
    ).request() matches ActionView::ListDir(dir) ==> replies.last() == ReplyView::Entries(
        Ok(listing(dir)),
    ))
}

proof fn lemma_walked(
    s: FilesView,
    replies: Seq<ReplyView>,
    listing: spec_fn(Seq<char>) -> Seq<EntryView>,
) -> (n: nat)
    requires
        s.phase is Walk,
        s.walk.stack.len() > 0,
        lists_by(s, replies, listing),
    ensures
        s.run(replies).walk == s.walk.told(listing, n),
        s.run(replies).phase is Walk <==> s.run(replies).walk.stack.len() > 0,
    decreases replies.len(),
{
    if replies.len() == 0 {
        0
    } else {
        let less = replies.drop_last();
        let n = lemma_walked(s, less, listing);
        let u = s.run(less);
        let r = replies.last();
        lemma_walk_step(u, r);
        if u.phase is Walk {
            let dir = u.walk.stack.last().path;
            assert(u.request() == ActionView::ListDir(dir));
            assert(r == ReplyView::Entries(Ok(listing(dir))));
            lemma_told_further(s.walk, listing, n, 1);
            assert(u.walk.told(listing, 1) == u.walk.entered(listing(dir))) by {
                assert(u.walk.entered(listing(dir)).told(listing, 0) == u.walk.entered(
                    listing(dir),
                ));
            }
            n + 1
        } else {
            n
        }
    }
}

proof fn lemma_walk_step(u: FilesView, r: ReplyView)
    ensures
        !(u.phase is Walk) ==> u.advance(r).walk == u.walk && !(u.advance(r).phase is Walk),
        u.phase is Walk && u.walk.stack.len() > 0 ==> (r matches ReplyView::Entries(Ok(entries))
            ==> u.advance(r).walk == u.walk.entered(entries) && (u.advance(r).phase is Walk
            <==> u.advance(r).walk.stack.len() > 0)),
{
}

/// The walk through `boot` of the image finds every file of the tree that lies there, and each
/// comes to its path on the boot partition: where the procedure succeeds, whatever the tree
/// holds, its file at `boot/` and a path has been brought to that path.
pub proof fn law_every_boot_file_is_brought(
    image_root: Seq<char>,
    boot: Seq<char>,
    replies: Seq<ReplyView>,
    tree: Node,
    listing: spec_fn(Seq<char>) -> Seq<EntryView>,
    i: int,
    rel: Seq<char>,
)
    requires
        image_root.len() > 0,
        image_root.last() != '/',
        boot.len() > 0,
        boot.last() != '/',
        rel.len() > 0,
        rel[0] != '/',
        tree is Directory,
        tree.is_told_by(image_root + "/boot"@, listing),
        lists_by(FilesView::start(image_root, boot), replies, listing),
        FilesView::start(image_root, boot).run(replies).request() == ActionView::Finish(Ok(())),
        0 <= i < tree.files(image_root + "/boot"@).len() <= usize::MAX,
        tree.files(image_root + "/boot"@)[i] == image_root + "/boot/"@ + rel,
    ensures
        brought(
            FilesView::start(image_root, boot),
            replies,
            image_root + "/boot/"@ + rel,
            boot + "/"@ + rel,
        ),
{
    let s = FilesView::start(image_root, boot);
    let t = s.run(replies);
    reveal_strlit("boot");
    reveal_strlit("/");
    reveal_strlit("/boot");
    law_joined_path_comes_apart(image_root, "boot"@);
    assert(image_root + "/"@ + "boot"@ =~= image_root + "/boot"@);
    lemma_finished(s, replies);
    let n = lemma_walked(s, replies, listing);
    law_walk_finds_all_files(s.source, tree, listing);
    let m = tree.directories();
    lemma_told_further(s.walk, listing, n, m);
    lemma_told_further(s.walk, listing, m, n);
    assert(s.walk.told(listing, n) == s.walk.told(listing, m)) by {
        assert(t.walk.stack.len() == 0);
        assert(t.walk.told(listing, m) == t.walk);
        let e = s.walk.told(listing, m);
        assert(e.stack.len() == 0);
        assert(e.told(listing, n) == e);
        assert(m + n == n + m);
    }
    law_boot_files_keep_their_paths(image_root, boot, replies, i, rel);
}

/// While the procedure was told `replies`, it asked for `a`, and `r` was the reply.
pub open spec fn files_told(
    s: FilesView,
    replies: Seq<ReplyView>,
    a: ActionView,
    r: ReplyView,
) -> bool
    decreases replies.len(),
{
    replies.len() > 0 && (files_told(s, replies.drop_last(), a, r) || (s.run(
        replies.drop_last(),
    ).request() == a && replies.last() == r))
}

} // verus!
