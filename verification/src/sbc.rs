//! Single-board computers: telling them by their images, and their own boot files.

use vstd::prelude::*;

use crate::effects::{
    failure, failure_text, outcome_view, stray_reply, Action, ActionView, Reply,
    ReplyView,
};
use crate::path::{join_path, joined_path, parent_dir, parent_dir_of, relative, relative_path};
use crate::sbc_laws::law_only_the_root_is_rewritten;
use crate::split::{
    is_word, join, joined, law_joined_words_come_apart, lemma_words_are_words, lines, lines_of, texts,
    words, words_of,
};
use crate::text::{same, starts_with};
use crate::walk::{FileWalk, WalkView};

verus! {

/// What sets one kind of single-board computer apart.
#[derive(Debug, Clone, Copy)]
pub struct SbcProfile {
    /// Name.
    pub name: &'static str,
    /// A file that only images for this computer have, relative to the root of the image.
    pub marker: &'static str,
    /// Whether the boot partition may be marked as an EFI system partition.
    pub mark_esp: bool,
    /// Whether the boot files of the image belong on the boot partition.
    pub boot_files: bool,
}

/// The contents of an `SbcProfile`.
#[verifier::ext_equal]
pub struct SbcView {
    pub name: Seq<char>,
    pub marker: Seq<char>,
    pub mark_esp: bool,
    pub boot_files: bool,
}

impl View for SbcProfile {
    type V = SbcView;

    open spec fn view(&self) -> SbcView {
        SbcView {
            name: self.name@,
            marker: self.marker@,
            mark_esp: self.mark_esp,
            boot_files: self.boot_files,
        }
    }
}

/// The number of profiles.
pub const SBC_COUNT: usize = 1;

/// The profiles, in the order in which they are tried. The firmware of a Raspberry Pi wants
/// its boot partition to be plain FAT32, not an EFI system partition.
pub open spec fn sbc_profiles() -> Seq<SbcView> {
    seq![
        SbcView {
            name: "Raspberry Pi"@,
            marker: "boot/bootcode.bin"@,
            mark_esp: false,
            boot_files: true,
        },
    ]
}

/// The profile of number `i`.
pub fn sbc_profile(i: usize) -> (r: SbcProfile)
    requires
        i < SBC_COUNT,
    ensures
        r@ == sbc_profiles()[i as int],
{
    SbcProfile {
        name: "Raspberry Pi",
        marker: "boot/bootcode.bin",
        mark_esp: false,
        boot_files: true,
    }
}

/// What becomes of a word of the kernel command line: the root file system is found by the
/// boot loader, and its type goes.
pub open spec fn fixed_word(w: Seq<char>) -> Option<Seq<char>> {
    if "root="@.is_prefix_of(w) {
        Some("root=systemimg:auto"@)
    } else if "rootfstype="@.is_prefix_of(w) {
        None
    } else {
        Some(w)
    }
}

/// The kernel command line for a system image.
pub open spec fn fixed_cmdline(line: Seq<char>) -> Seq<char> {
    joined(words(line).filter_map(|w: Seq<char>| fixed_word(w)), " "@)
}

/// Rewrites a kernel command line for a system image: `root=` is replaced, `rootfstype=` is
/// removed, and the other words stay in their order.
pub fn fix_raspi_cmdline(line: &str) -> (r: String)
    ensures
        r@ == fixed_cmdline(line@),
        words(r@).filter(|w: Seq<char>| !"root="@.is_prefix_of(w)) == words(line@).filter(
            |w: Seq<char>| !"root="@.is_prefix_of(w) && !"rootfstype="@.is_prefix_of(w),
        ),
{
    proof {
        law_only_the_root_is_rewritten(line@);
    }
    let parts = words_of(line);
    let ghost all = words(line@);
    let ghost pick = |w: Seq<char>| fixed_word(w);
    let mut kept: Vec<&str> = Vec::new();
    let mut i: usize = 0;
    assert(all.take(0).filter_map(pick) =~= Seq::empty()) by {
        reveal(Seq::filter_map);
    }
    while i < parts.len()
        invariant
            i <= parts@.len(),
            all == texts(parts@),
            pick == (|w: Seq<char>| fixed_word(w)),
            texts(kept@) == all.take(i as int).filter_map(pick),
        decreases parts@.len() - i,
    {
        let ghost was = kept@;
        let part: &str = parts[i];
        assert(all[i as int] == part@);
        proof {
            all.lemma_filter_map_take_succ(pick, i as int);
        }
        if starts_with(part, "root=") {
            kept.push("root=systemimg:auto");
            assert(texts(kept@) =~= texts(was).push("root=systemimg:auto"@));
        } else if !starts_with(part, "rootfstype=") {
            kept.push(part);
            assert(texts(kept@) =~= texts(was).push(part@));
        }
        i = i + 1;
    }
    assert(all.take(i as int) =~= all);
    join(&kept, " ")
}

pub proof fn lemma_fixed_words(ws: Seq<Seq<char>>)
    requires
        forall|i: int| 0 <= i < ws.len() ==> is_word(#[trigger] ws[i]),
    ensures
        ({
            let fixed = ws.filter_map(|w: Seq<char>| fixed_word(w));
            &&& forall|i: int|
                0 <= i < fixed.len() ==> is_word(#[trigger] fixed[i]) && fixed_word(fixed[i])
                    == Some(fixed[i])
            &&& fixed.filter_map(|w: Seq<char>| fixed_word(w)) == fixed
        }),
    decreases ws.len(),
{
    let f = |w: Seq<char>| fixed_word(w);
    reveal(Seq::filter_map);
    if ws.len() > 0 {
        let less = ws.drop_last();
        assert forall|i: int| 0 <= i < less.len() implies is_word(#[trigger] less[i]) by {
            assert(is_word(ws[i]));
        }
        lemma_fixed_words(less);
        let fixed = less.filter_map(f);
        let w = ws.last();
        assert(is_word(w)) by {
            assert(ws[ws.len() - 1] == w);
        }
        if let Some(v) = fixed_word(w) {
            reveal_strlit("root=systemimg:auto");
            reveal_strlit("root=");
            reveal_strlit("rootfstype=");
            let auto = "root=systemimg:auto"@;
            assert("root="@.is_prefix_of(auto)) by {
                assert(auto.subrange(0, 5) =~= "root="@);
            }
            assert(is_word(v));
            assert(fixed_word(v) == Some(v));
            assert(ws.filter_map(f) == fixed.push(v));
            assert(fixed.push(v).drop_last() =~= fixed);
            assert(fixed.push(v).filter_map(f) =~= fixed.filter_map(f).push(v));
        } else {
            assert(ws.filter_map(f) == fixed);
        }
    }
}

/// The words of a rewritten command line are the rewritten words of the line: each `root=`
/// names the system image, no `rootfstype=` is left, and the other words stay in their
/// order. Rewriting once more changes nothing.
pub proof fn law_rewritten_command_line(line: Seq<char>)
    ensures
        words(fixed_cmdline(line)) == words(line).filter_map(|w: Seq<char>| fixed_word(w)),
        forall|i: int|
            0 <= i < words(fixed_cmdline(line)).len() ==> {
                let w = #[trigger] words(fixed_cmdline(line))[i];
                &&& "root="@.is_prefix_of(w) ==> w == "root=systemimg:auto"@
                &&& !"rootfstype="@.is_prefix_of(w)
            },
        fixed_cmdline(fixed_cmdline(line)) == fixed_cmdline(line),
{
    lemma_words_are_words(line);
    lemma_fixed_words(words(line));
    let fixed = words(line).filter_map(|w: Seq<char>| fixed_word(w));
    law_joined_words_come_apart(fixed);
    assert forall|i: int| 0 <= i < words(fixed_cmdline(line)).len() implies {
        let w = #[trigger] words(fixed_cmdline(line))[i];
        &&& "root="@.is_prefix_of(w) ==> w == "root=systemimg:auto"@
        &&& !"rootfstype="@.is_prefix_of(w)
    } by {
        assert(fixed_word(fixed[i]) == Some(fixed[i]));
        reveal_strlit("root=");
        reveal_strlit("rootfstype=");
        let w = fixed[i];
        if "root="@.is_prefix_of(w) && "rootfstype="@.is_prefix_of(w) {
            assert(w.subrange(0, 5)[4] == '=');
            assert(w.subrange(0, 11)[4] == 'f');
        }
    }
}

/// The first line of a text, empty if it has none.
pub open spec fn first_line(s: Seq<char>) -> Seq<char> {
    if lines(s).len() > 0 {
        lines(s)[0]
    } else {
        ""@
    }
}

/// The file that replaces a kernel command line file with the contents `s`.
pub open spec fn cmdline_file(s: Seq<char>) -> Seq<char> {
    fixed_cmdline(first_line(s)) + "\n"@
}

/// The file that replaces a kernel command line file with the contents `s`.
pub fn cmdline_file_text(s: &str) -> (r: String)
    ensures
        r@ == cmdline_file(s@),
{
    let all = lines_of(s);
    let first: &str = if all.len() > 0 {
        assert(texts(all@)[0] == all@[0]@);
        all[0]
    } else {
        ""
    };
    let mut out = fix_raspi_cmdline(first);
    out.append("\n");
    out
}

/// How far the copying of boot files is: what it waits to be told.
#[derive(Debug, Clone, Copy, PartialEq, Eq, Structural)]
pub enum FilesPhase {
    /// The entries of a directory.
    Walk,
    /// Whether the file of that number is on the boot partition already.
    Check(usize),
    /// The contents of the file of that number.
    Read(usize),
    /// Whether the file of that number could be written.
    Write(usize),
    /// Whether the directory for the file of that number could be created.
    Parent(usize),
    /// Whether the file of that number could be copied.
    Copy(usize),
    /// Nothing.
    Finished,
}

/// The contents of a `BootFileCopy`.
#[verifier::ext_equal]
pub struct FilesView {
    /// The directory that the files come from.
    pub source: Seq<char>,
    /// Where the boot partition is mounted.
    pub boot: Seq<char>,
    pub walk: WalkView,
    pub phase: FilesPhase,
    /// The contents to write.
    pub text: Seq<char>,
    /// The result, once finished.
    pub result: Result<(), Seq<char>>,
}

impl FilesView {
    /// The procedure at its start.
    pub open spec fn start(image_root: Seq<char>, boot: Seq<char>) -> FilesView {
        let source = joined_path(image_root, "boot"@);
        FilesView {
            source,
            boot,
            walk: WalkView::start(source),
            phase: FilesPhase::Walk,
            text: ""@,
            result: Ok(()),
        }
    }

    /// The number in the phase is that of a file, and there is a directory to walk through.
    pub open spec fn wf(self) -> bool {
        match self.phase {
            FilesPhase::Walk => self.walk.directory() is Some,
            FilesPhase::Check(i)
            | FilesPhase::Read(i)
            | FilesPhase::Write(i)
            | FilesPhase::Copy(i) => i < self.walk.files.len() <= usize::MAX,
            FilesPhase::Parent(i) => i < self.walk.files.len() <= usize::MAX && parent_dir(
                self.dest(i as int),
            ) is Some,
            FilesPhase::Finished => true,
        }
    }

    /// The path of the file of number `i`, relative to where it comes from.
    pub open spec fn rel(self, i: int) -> Seq<char> {
        relative(self.source, self.walk.files[i])
    }

    /// Where the file of number `i` goes.
    pub open spec fn dest(self, i: int) -> Seq<char> {
        joined_path(self.boot, self.rel(i))
    }

    /// The file of number `i` is one that people change: it is not overwritten.
    pub open spec fn is_kept(self, i: int) -> bool {
        self.rel(i) == "cmdline.txt"@ || self.rel(i) == "config.txt"@
    }

    /// What is to be done next.
    pub open spec fn request(self) -> ActionView {
        match self.phase {
            FilesPhase::Walk => ActionView::ListDir(self.walk.directory()->0),
            FilesPhase::Check(i) => ActionView::Exists(self.dest(i as int)),
            FilesPhase::Read(i) => ActionView::ReadText(self.walk.files[i as int]),
            FilesPhase::Write(i) => ActionView::WriteText {
                path: self.dest(i as int),
                text: self.text,
            },
            FilesPhase::Parent(i) => ActionView::CreateDir(parent_dir(self.dest(i as int))->0),
            FilesPhase::Copy(i) => ActionView::CopyFile {
                from: self.walk.files[i as int],
                to: self.dest(i as int),
            },
            FilesPhase::Finished => ActionView::Finish(self.result),
        }
    }

    /// The procedure in another phase.
    pub open spec fn at(self, phase: FilesPhase) -> FilesView {
        FilesView { phase, ..self }
    }

    /// The procedure finished with `result`.
    pub open spec fn finished(self, result: Result<(), Seq<char>>) -> FilesView {
        FilesView { phase: FilesPhase::Finished, result, ..self }
    }

    /// The procedure failed with an error that came of doing `verb` on `what`.
    pub open spec fn failed(self, verb: Seq<char>, what: Seq<char>, e: Seq<char>) -> FilesView {
        self.finished(Err(failure(verb, what, e)))
    }

    /// The procedure before the file of number `i`; finished, past the last.
    pub open spec fn before(self, i: int) -> FilesView {
        if i >= self.walk.files.len() {
            self.finished(Ok(()))
        } else if self.is_kept(i) {
            self.at(FilesPhase::Check(i as usize))
        } else {
            self.before_copy(i as usize)
        }
    }

    /// The procedure before the copy of the file of number `i`: the directory for it, if
    /// there is one, comes first.
    pub open spec fn before_copy(self, i: usize) -> FilesView {
        if parent_dir(self.dest(i as int)) is Some {
            self.at(FilesPhase::Parent(i))
        } else {
            self.at(FilesPhase::Copy(i))
        }
    }

    /// The procedure after the reply to what it asked for.
    pub open spec fn advance(self, reply: ReplyView) -> FilesView {
        match (self.phase, reply) {
            (FilesPhase::Walk, ReplyView::Entries(r)) => match r {
                Ok(entries) => {
                    let next = FilesView { walk: self.walk.entered(entries), ..self };
                    if next.walk.directory() is Some {
                        next
                    } else {
                        next.before(0)
                    }
                },
                Err(e) => self.failed("read"@, self.walk.directory()->0, e),
            },
            (FilesPhase::Check(i), ReplyView::Answer(there)) => if there {
                self.before(i + 1)
            } else if self.rel(i as int) == "cmdline.txt"@ {
                self.at(FilesPhase::Read(i))
            } else {
                self.before_copy(i)
            },
            (FilesPhase::Read(i), ReplyView::Text(r)) => match r {
                Ok(t) => FilesView {
                    text: cmdline_file(t),
                    phase: FilesPhase::Write(i),
                    ..self
                },
                Err(e) => self.failed("read"@, "cmdline.txt"@, e),
            },
            (FilesPhase::Write(i), ReplyView::Outcome(r)) => match r {
                Ok(_) => self.before(i + 1),
                Err(e) => self.failed("write"@, "cmdline.txt"@, e),
            },
            (FilesPhase::Parent(i), ReplyView::Outcome(r)) => match r {
                Ok(_) => self.at(FilesPhase::Copy(i)),
                Err(e) => self.failed("create"@, parent_dir(self.dest(i as int))->0, e),
            },
            (FilesPhase::Copy(i), ReplyView::Outcome(r)) => match r {
                Ok(_) => self.before(i + 1),
                Err(e) => self.failed("copy"@, self.rel(i as int), e),
            },
            (FilesPhase::Finished, _) => self,
            _ => self.finished(Err(stray_reply())),
        }
    }
}

impl FilesView {
    /// The procedure after a sequence of replies.
    pub open spec fn run(self, replies: Seq<ReplyView>) -> FilesView
        decreases replies.len(),
    {
        if replies.len() == 0 {
            self
        } else {
            self.run(replies.drop_last()).advance(replies.last())
        }
    }

    /// With the reply of number `k`, nothing was found at `path`.
    pub open spec fn found_absent(self, replies: Seq<ReplyView>, k: int, path: Seq<char>) -> bool {
        &&& 0 <= k < replies.len()
        &&& self.run(replies.take(k)).request() == ActionView::Exists(path)
        &&& replies[k] == ReplyView::Answer(false)
    }

    /// With one of the replies, nothing was found at `path`.
    pub open spec fn was_absent(self, replies: Seq<ReplyView>, path: Seq<char>) -> bool {
        exists|k: int| #[trigger] self.found_absent(replies, k, path)
    }
}

/// What the procedure knows when it is about to write a file that people change.
#[verifier::rlimit(40)]
proof fn lemma_files_run(s: FilesView, replies: Seq<ReplyView>)
    requires
        s.phase is Walk,
    ensures
        ({
            let t = s.run(replies);
            &&& t.boot == s.boot
            &&& t.source == s.source
            &&& match t.phase {
                FilesPhase::Read(i)
                | FilesPhase::Write(i)
                | FilesPhase::Parent(i)
                | FilesPhase::Copy(i) => t.walk.files.len() <= usize::MAX && t.is_kept(i as int)
                    ==> s.was_absent(replies, t.dest(i as int)),
                _ => true,
            }
        }),
    decreases replies.len(),
{
    if replies.len() > 0 {
        let less = replies.drop_last();
        lemma_files_run(s, less);
        let u = s.run(less);
        let t = s.run(replies);
        let n = less.len() as int;
        assert(replies.take(n) =~= less);
        match u.phase {
            FilesPhase::Read(i)
            | FilesPhase::Write(i)
            | FilesPhase::Parent(i)
            | FilesPhase::Copy(i) => {
                if u.walk.files.len() <= usize::MAX && u.is_kept(i as int) {
                    let path = u.dest(i as int);
                    let k = choose|k: int| #[trigger] s.found_absent(less, k, path);
                    assert(less.take(k) =~= replies.take(k));
                    assert(s.found_absent(replies, k, path));
                }
            },
            FilesPhase::Check(i) => {
                if replies.last() == ReplyView::Answer(false) {
                    assert(s.found_absent(replies, n, u.dest(i as int)));
                }
            },
            _ => {},
        }
    }
}

/// A `cmdline.txt` or a `config.txt` is written to the boot partition only after it was
/// found not to be there.
pub proof fn law_settings_that_are_there_are_kept(
    image_root: Seq<char>,
    boot: Seq<char>,
    replies: Seq<ReplyView>,
    rel: Seq<char>,
)
    requires
        rel == "cmdline.txt"@ || rel == "config.txt"@,
        FilesView::start(image_root, boot).run(replies).walk.files.len() <= usize::MAX,
        match FilesView::start(image_root, boot).run(replies).request() {
            ActionView::CopyFile { from, to } => to == joined_path(boot, rel) && relative(
                joined_path(image_root, "boot"@),
                from,
            ) == rel,
            ActionView::WriteText { path, text } => path == joined_path(boot, rel),
            _ => false,
        },
    ensures
        FilesView::start(image_root, boot).was_absent(replies, joined_path(boot, rel)),
{
    let s = FilesView::start(image_root, boot);
    lemma_files_run(s, replies);
    lemma_writes_are_kept(s, replies);
}

#[verifier::rlimit(40)]
proof fn lemma_writes_are_kept(s: FilesView, replies: Seq<ReplyView>)
    requires
        s.phase is Walk,
    ensures
        ({
            let t = s.run(replies);
            match t.phase {
                FilesPhase::Check(i) => t.walk.files.len() <= usize::MAX ==> t.is_kept(i as int),
                FilesPhase::Read(i) | FilesPhase::Write(i) => t.walk.files.len() <= usize::MAX
                    ==> t.rel(i as int) == "cmdline.txt"@,
                FilesPhase::Parent(i) | FilesPhase::Copy(i) => t.walk.files.len() <= usize::MAX
                    ==> t.rel(i as int) != "cmdline.txt"@,
                _ => true,
            }
        }),
    decreases replies.len(),
{
    if replies.len() > 0 {
        lemma_writes_are_kept(s, replies.drop_last());
    }
}

/// While the procedure was told `replies`, the file `from` was read, and `text` is what is to
/// be written for it: its first line, rewritten.
pub open spec fn rewritten(
    s: FilesView,
    replies: Seq<ReplyView>,
    from: Seq<char>,
    text: Seq<char>,
) -> bool
    decreases replies.len(),
{
    replies.len() > 0 && (rewritten(s, replies.drop_last(), from, text) || (s.run(
        replies.drop_last(),
    ).request() == ActionView::ReadText(from) && (replies.last() matches ReplyView::Text(Ok(c))
        && text == cmdline_file(c))))
}

/// With the reply `r`, after the replies `replies`, the file `from` was brought to `to`: it
/// was copied, or, a `cmdline.txt`, its rewritten first line was written, or, a `cmdline.txt`
/// or a `config.txt`, it was found to be there.
pub open spec fn brings(
    s: FilesView,
    replies: Seq<ReplyView>,
    r: ReplyView,
    from: Seq<char>,
    to: Seq<char>,
) -> bool {
    let rel = relative(s.source, from);
    match (s.run(replies).request(), r) {
        (ActionView::CopyFile { from: f, to: t }, ReplyView::Outcome(Ok(_))) => f == from && t == to
            && rel != "cmdline.txt"@,
        (ActionView::WriteText { path, text }, ReplyView::Outcome(Ok(_))) => path == to && rel
            == "cmdline.txt"@ && rewritten(s, replies, from, text),
        (ActionView::Exists(path), ReplyView::Answer(there)) => path == to && there && (rel
            == "cmdline.txt"@ || rel == "config.txt"@),
        _ => false,
    }
}

/// While the procedure was told `replies`, the file `from` was brought to `to`.
pub open spec fn brought(
    s: FilesView,
    replies: Seq<ReplyView>,
    from: Seq<char>,
    to: Seq<char>,
) -> bool
    decreases replies.len(),
{
    replies.len() > 0 && (brought(s, replies.drop_last(), from, to) || brings(
        s,
        replies.drop_last(),
        replies.last(),
        from,
        to,
    ))
}

/// The number of files that the procedure is done with.
spec fn files_done(t: FilesView) -> int {
    match t.phase {
        FilesPhase::Walk => 0,
        FilesPhase::Check(i)
        | FilesPhase::Read(i)
        | FilesPhase::Write(i)
        | FilesPhase::Parent(i)
        | FilesPhase::Copy(i) => i as int,
        FilesPhase::Finished => if t.result is Ok {
            t.walk.files.len() as int
        } else {
            0
        },
    }
}

#[verifier::rlimit(40)]
proof fn lemma_one_more_done(u: FilesView, r: ReplyView)
    requires
        u.advance(r).walk.files.len() <= usize::MAX,
        u.walk.files.len() <= usize::MAX ==> 0 <= files_done(u) <= u.walk.files.len(),
        u.phase is Finished || u.wf() || u.phase is Walk,
    ensures
        ({
            let t = u.advance(r);
            &&& 0 <= files_done(t) <= t.walk.files.len()
            &&& files_done(t) > 0 ==> t.walk == u.walk && t.source == u.source && t.boot == u.boot
            &&& t.phase is Finished || t.wf() || t.phase is Walk
            &&& files_done(t) > files_done(u) ==> {
                let from = u.walk.files[files_done(u)];
                let to = u.dest(files_done(u));
                &&& files_done(t) == files_done(u) + 1
                &&& match (u.request(), r) {
                    (ActionView::CopyFile { from: f, to: d }, ReplyView::Outcome(Ok(_))) => f
                        == from && d == to && u.phase is Copy,
                    (ActionView::WriteText { path, text }, ReplyView::Outcome(Ok(_))) => path == to
                        && u.phase is Write && text == u.text,
                    (ActionView::Exists(path), ReplyView::Answer(there)) => path == to && there
                        && u.phase is Check,
                    _ => false,
                }
            }
        }),
{
}

proof fn lemma_walk_only_grows(u: FilesView, r: ReplyView)
    ensures
        u.phase is Walk || u.advance(r).walk == u.walk,
{
}

/// What is about to be written was read before.
#[verifier::rlimit(40)]
proof fn lemma_rewritten(s: FilesView, replies: Seq<ReplyView>)
    requires
        s.phase is Walk,
    ensures
        ({
            let t = s.run(replies);
            t.phase matches FilesPhase::Write(i) ==> rewritten(
                s,
                replies,
                t.walk.files[i as int],
                t.text,
            )
        }),
    decreases replies.len(),
{
    if replies.len() > 0 {
        lemma_rewritten(s, replies.drop_last());
        lemma_write_follows_read(s.run(replies.drop_last()), replies.last());
    }
}

proof fn lemma_write_follows_read(u: FilesView, r: ReplyView)
    ensures
        u.advance(r).phase matches FilesPhase::Write(i) ==> u.walk == u.advance(r).walk
            && u.phase == FilesPhase::Read(i) && (r matches ReplyView::Text(Ok(c)) && u.advance(
            r,
        ).text == cmdline_file(c)),
{
}

#[verifier::rlimit(40)]
proof fn lemma_files_done(s: FilesView, replies: Seq<ReplyView>)
    requires
        s.phase is Walk,
    ensures
        ({
            let t = s.run(replies);
            t.walk.files.len() <= usize::MAX ==> {
                &&& t.phase is Finished || t.wf() || t.phase is Walk
                &&& 0 <= files_done(t) <= t.walk.files.len()
                &&& forall|i: int|
                    0 <= i < files_done(t) ==> brought(
                        s,
                        replies,
                        #[trigger] t.walk.files[i],
                        t.dest(i),
                    )
            }
        }),
    decreases replies.len(),
{
    if replies.len() > 0 {
        let less = replies.drop_last();
        let u = s.run(less);
        let t = s.run(replies);
        lemma_files_done(s, less);
        lemma_walk_only_grows(u, replies.last());
        if t.walk.files.len() <= usize::MAX {
            lemma_one_more_done(u, replies.last());
            lemma_rewritten(s, less);
            lemma_files_run(s, less);
            lemma_writes_are_kept(s, less);
            assert forall|i: int| 0 <= i < files_done(t) implies brought(
                s,
                replies,
                #[trigger] t.walk.files[i],
                t.dest(i),
            ) by {
                assert(u.walk == t.walk && u.dest(i) == t.dest(i));
                if i < files_done(u) {
                    assert(brought(s, less, u.walk.files[i], u.dest(i)));
                }
            }
        }
    }
}

/// When the procedure has succeeded, each file that the walk found is on the boot partition:
/// it was copied there, or its first line was written there, rewritten, or it was found to be
/// there.
pub proof fn law_success_means_all_files_are_there(
    image_root: Seq<char>,
    boot: Seq<char>,
    replies: Seq<ReplyView>,
    i: int,
)
    requires
        FilesView::start(image_root, boot).run(replies).phase is Finished,
        FilesView::start(image_root, boot).run(replies).result is Ok,
        0 <= i < FilesView::start(image_root, boot).run(replies).walk.files.len() <= usize::MAX,
    ensures
        ({
            let s = FilesView::start(image_root, boot);
            let t = s.run(replies);
            brought(s, replies, t.walk.files[i], t.dest(i))
        }),
{
    lemma_files_done(FilesView::start(image_root, boot), replies);
}

/// The procedure that copies the boot files of an image to the boot partition.
///
/// All files below `boot` are copied, with two exceptions: `cmdline.txt` is rewritten for a
/// system image, and neither it nor `config.txt` is touched where it is there already.
#[derive(Debug)]
pub struct BootFileCopy {
    source: String,
    boot: String,
    walk: FileWalk,
    phase: FilesPhase,
    text: String,
    result: Result<(), String>,
}

impl View for BootFileCopy {
    type V = FilesView;

    closed spec fn view(&self) -> FilesView {
        FilesView {
            source: self.source@,
            boot: self.boot@,
            walk: self.walk@,
            phase: self.phase,
            text: self.text@,
            result: outcome_view(self.result),
        }
    }
}

impl BootFileCopy {
    /// Starts the procedure.
    pub fn new(image_root: &str, boot: String) -> (r: BootFileCopy)
        ensures
            r@ == FilesView::start(image_root@, boot@),
            r@.wf(),
    {
        let source = join_path(image_root, "boot");
        let walk = FileWalk::new(source.as_str());
        BootFileCopy {
            source,
            boot,
            walk,
            phase: FilesPhase::Walk,
            text: "".to_owned(),
            result: Ok(()),
        }
    }

    fn rel(&self, i: usize) -> (r: &str)
        requires
            i < self@.walk.files.len(),
        ensures
            r@ == self@.rel(i as int),
    {
        relative_path(self.source.as_str(), self.walk.file(i))
    }

    fn dest(&self, i: usize) -> (r: String)
        requires
            i < self@.walk.files.len(),
        ensures
            r@ == self@.dest(i as int),
    {
        join_path(self.boot.as_str(), self.rel(i))
    }

    /// Says what is to be done next.
    pub fn request(&self) -> (r: Action)
        requires
            self@.wf(),
        ensures
            r@ == self@.request(),
    {
        match self.phase {
            FilesPhase::Walk => {
                let dir: &str = match self.walk.directory() {
                    Some(d) => d,
                    None => "",
                };
                Action::ListDir(dir.to_owned())
            },
            FilesPhase::Check(i) => Action::Exists(self.dest(i)),
            FilesPhase::Read(i) => Action::ReadText(self.walk.file(i).to_owned()),
            FilesPhase::Write(i) => Action::WriteText {
                path: self.dest(i),
                text: self.text.clone(),
            },
            FilesPhase::Parent(i) => Action::CreateDir(self.parent(i)),
            FilesPhase::Copy(i) => Action::CopyFile {
                from: self.walk.file(i).to_owned(),
                to: self.dest(i),
            },
            FilesPhase::Finished => Action::Finish(
                match &self.result {
                    Ok(_) => Ok(()),
                    Err(e) => Err(e.clone()),
                },
            ),
        }
    }

    fn finish(&mut self, result: Result<(), String>)
        ensures
            final(self)@ == old(self)@.finished(outcome_view(result)),
    {
        self.phase = FilesPhase::Finished;
        self.result = result;
    }

    fn fail(&mut self, verb: &str, what: &str, e: &str)
        ensures
            final(self)@ == old(self)@.failed(verb@, what@, e@),
    {
        self.finish(Err(failure_text(verb, what, e)));
    }

    /// The directory for the file of number `i`.
    fn parent(&self, i: usize) -> (r: String)
        requires
            i < self@.walk.files.len(),
            parent_dir(self@.dest(i as int)) is Some,
        ensures
            r@ == parent_dir(self@.dest(i as int))->0,
    {
        let dest = self.dest(i);
        match parent_dir_of(dest.as_str()) {
            Some(p) => p.to_owned(),
            None => "".to_owned(),
        }
    }

    fn go_on_to_copy(&mut self, i: usize)
        requires
            i < old(self)@.walk.files.len() <= usize::MAX,
        ensures
            final(self)@ == old(self)@.before_copy(i),
            final(self)@.wf(),
    {
        let dest = self.dest(i);
        if parent_dir_of(dest.as_str()).is_some() {
            self.phase = FilesPhase::Parent(i);
        } else {
            self.phase = FilesPhase::Copy(i);
        }
    }

    fn go_on_at(&mut self, i: usize)
        requires
            i <= old(self)@.walk.files.len() <= usize::MAX,
        ensures
            final(self)@ == old(self)@.before(i as int),
            final(self)@.wf(),
    {
        if i >= self.walk.count() {
            self.finish(Ok(()));
        } else if same(self.rel(i), "cmdline.txt") || same(self.rel(i), "config.txt") {
            self.phase = FilesPhase::Check(i);
        } else {
            self.go_on_to_copy(i);
        }
    }

    /// Takes the reply to what was asked for.
    pub fn answer(&mut self, reply: Reply)
        requires
            old(self)@.wf(),
        ensures
            final(self)@ == old(self)@.advance(reply@),
            final(self)@.wf(),
    {
        match (self.phase, reply) {
            (FilesPhase::Walk, Reply::Entries(r)) => {
                match r {
                    Ok(entries) => {
                        self.walk.enter(&entries);
                        let n: usize = self.walk.count();
                        assert(n == self@.walk.files.len());
                        if self.walk.directory().is_none() {
                            self.go_on_at(0);
                        }
                    },
                    Err(e) => {
                        let dir: String = match self.walk.directory() {
                            Some(d) => d.to_owned(),
                            None => "".to_owned(),
                        };
                        self.fail("read", dir.as_str(), e.as_str());
                    },
                }
            },
            (FilesPhase::Check(i), Reply::Answer(there)) => {
                if there {
                    self.go_on_at(i + 1);
                } else if same(self.rel(i), "cmdline.txt") {
                    self.phase = FilesPhase::Read(i);
                } else {
                    self.go_on_to_copy(i);
                }
            },
            (FilesPhase::Read(i), Reply::Text(r)) => {
                match r {
                    Ok(t) => {
                        self.text = cmdline_file_text(t.as_str());
                        self.phase = FilesPhase::Write(i);
                    },
                    Err(e) => {
                        self.fail("read", "cmdline.txt", e.as_str());
                    },
                }
            },
            (FilesPhase::Write(i), Reply::Outcome(r)) => {
                match r {
                    Ok(_) => {
                        self.go_on_at(i + 1);
                    },
                    Err(e) => {
                        self.fail("write", "cmdline.txt", e.as_str());
                    },
                }
            },
            (FilesPhase::Parent(i), Reply::Outcome(r)) => {
                match r {
                    Ok(_) => {
                        self.phase = FilesPhase::Copy(i);
                    },
                    Err(e) => {
                        let parent = self.parent(i);
                        self.fail("create", parent.as_str(), e.as_str());
                    },
                }
            },
            (FilesPhase::Copy(i), Reply::Outcome(r)) => {
                match r {
                    Ok(_) => {
                        self.go_on_at(i + 1);
                    },
                    Err(e) => {
                        let rel = self.rel(i).to_owned();
                        self.fail("copy", rel.as_str(), e.as_str());
                    },
                }
            },
            (FilesPhase::Finished, _) => {},
            _ => {
                self.finish(Err("unexpected reply".to_owned()));
            },
        }
    }

    /// The result, once the procedure is finished.
    pub fn outcome(&self) -> (r: Option<Result<(), String>>)
        ensures
            r is Some <==> self@.phase == FilesPhase::Finished,
            r matches Some(o) ==> outcome_view(o) == self@.result,
    {
        match self.phase {
            FilesPhase::Finished => Some(
                match &self.result {
                    Ok(_) => Ok(()),
                    Err(e) => Err(e.clone()),
                },
            ),
            _ => None,
        }
    }
}

} // verus!
