//! Why an installation fails: never without a cause, and always with the words of the cause.

use vstd::prelude::*;

use crate::backend::OptionsView;
use crate::bootloader::{efi_names, is_efi_name, LoaderPhase, LoaderView};
use crate::effects::{ActionView, EntryView, ReplyView};
use crate::install::{InstallView, Phase};
use crate::install_laws::{consistent, lemma_run};
use crate::install_success::{lemma_board_needs_no_loaders, past};
use crate::loader_laws::is_efi_loader;
use crate::path::{joined_path, partition, relative};
use crate::sbc::{FilesPhase, FilesView};
use crate::text_laws::lemma_picked;

verus! {

/// The programs that an installation does not depend on: waiting for device nodes, and writing
/// out what is held back.
pub open spec fn need_not_succeed(program: Seq<char>) -> bool {
    program == "udevadm"@ || program == "sync"@
}

/// A reply is of the kind that the action is answered with.
pub open spec fn suits(a: ActionView, r: ReplyView) -> bool {
    match a {
        ActionView::FileSize(_) => r is Size,
        ActionView::ReadHead(_) => r is Head,
        ActionView::Exists(_) | ActionView::IsDirectory(_) | ActionView::ProbeGrub => r is Answer,
        ActionView::DiskAttributes(_) => r is Attributes,
        ActionView::ReadUuid(_) | ActionView::Mount { .. } | ActionView::ReadText(_) => r is Text,
        ActionView::ListDir(_) => r is Entries,
        ActionView::Run(program, _) => r is Outcome || need_not_succeed(program),
        ActionView::CreateDir(_)
        | ActionView::CopyFile { .. }
        | ActionView::CopyImage { .. }
        | ActionView::WriteText { .. } => r is Outcome,
        _ => true,
    }
}

/// The message of a failure to do `verb` on `what`.
pub open spec fn failed_to(verb: Seq<char>, what: Seq<char>, e: Seq<char>) -> Seq<char> {
    verb + " "@ + what + ": "@ + e
}

/// A file that is copied is called so in its directory, or lies at that path below one.
pub open spec fn is_called(from: Seq<char>, what: Seq<char>) -> bool {
    ||| exists|dir: Seq<char>| from == #[trigger] joined_path(dir, what)
    ||| exists|dir: Seq<char>| what == #[trigger] relative(dir, from)
}

/// The copy of a file failed, and `e` tells which and why.
pub open spec fn tells_of_copy(from: Seq<char>, x: Seq<char>, e: Seq<char>) -> bool {
    exists|what: Seq<char>| #[trigger] is_called(from, what) && e == failed_to("copy"@, what, x)
}

/// The reply `r` to the action `a` keeps an installation from succeeding, and `e` tells so.
/// `needs_loaders` says that the system cannot start without boot loaders.
pub open spec fn is_cause(
    o: OptionsView,
    needs_loaders: bool,
    a: ActionView,
    r: ReplyView,
    e: Seq<char>,
) -> bool {
    match (a, r) {
        (ActionView::FileSize(p), ReplyView::Size(Err(x))) => e == failed_to("stat"@, p, x),
        (ActionView::FileSize(_), ReplyView::Size(Ok(n))) => o.superfloppy && n >= 4 * 1024 * 1024
            * 1024 && e == "superfloppy mode requires a system image smaller than 4 GiB"@,
        (ActionView::ReadHead(p), ReplyView::Head(h)) => h != Some(
            seq![0x68u8, 0x73u8, 0x71u8, 0x73u8],
        ) && e == p + " is not a valid squashfs image"@,
        (ActionView::Run(program, _), ReplyView::Outcome(Err(x))) => !need_not_succeed(program) && e
            == x,
        (ActionView::Mount { looped, .. }, ReplyView::Text(Err(x))) => !looped && e == x,
        (ActionView::ReadUuid(_), ReplyView::Text(Err(x))) => e == x,
        (ActionView::CopyImage { .. }, ReplyView::Outcome(Err(x))) => e == x,
        (ActionView::Sleep(ms), _) => ms == 200 && (e == "partition device "@ + partition(
            o.disk,
            1,
        ) + " did not appear"@ || e == "partition device "@ + partition(o.disk, 2)
            + " did not appear"@),
        (ActionView::IsDirectory(d), ReplyView::Answer(there)) => !there && needs_loaders && d
            == "/usr/lib/genpack-install"@ && e
            == "no bootloader files found (neither in image nor /usr/lib/genpack-install)"@,
        (ActionView::CreateDir(d), ReplyView::Outcome(Err(x))) => e == failed_to("create"@, d, x),
        (ActionView::ListDir(d), ReplyView::Entries(Err(x))) => e == failed_to("read"@, d, x),
        (ActionView::ListDir(d), ReplyView::Entries(Ok(entries))) => needs_loaders && (forall|i:
            int|
            0 <= i < entries.len() ==> !is_efi_loader(#[trigger] entries[i])) && e
            == "no boot*.efi found under "@ + d,
        (ActionView::CopyFile { from, to }, ReplyView::Outcome(Err(x))) => tells_of_copy(
            from,
            x,
            e,
        ),
        (ActionView::ReadText(_), ReplyView::Text(Err(x))) => e == failed_to(
            "read"@,
            "cmdline.txt"@,
            x,
        ),
        (ActionView::WriteText { path, .. }, ReplyView::Outcome(Err(x))) => e == failed_to(
            "write"@,
            "cmdline.txt"@,
            x,
        ) || e == failed_to("write"@, path, x),
        _ => !suits(a, r) && e == "unexpected reply"@,
    }
}

proof fn lemma_no_efi(entries: Seq<EntryView>)
    requires
        efi_names(entries).len() == 0,
    ensures
        forall|i: int| 0 <= i < entries.len() ==> !is_efi_loader(#[trigger] entries[i]),
{
    let f = |e: EntryView|
        if e.regular && is_efi_name(e.name) {
            Some(e.name)
        } else {
            None
        };
    let at = lemma_picked(entries, f);
    assert forall|i: int| 0 <= i < entries.len() implies !is_efi_loader(#[trigger] entries[i]) by {
        if is_efi_loader(entries[i]) {
            assert(at.contains(i));
        }
    }
}

proof fn lemma_program_names()
    ensures
        !need_not_succeed("parted"@),
        !need_not_succeed("mkfs.vfat"@),
        !need_not_succeed("mkfs.btrfs"@),
        !need_not_succeed("grub-bios-setup"@),
{
    reveal_strlit("udevadm");
    reveal_strlit("sync");
    reveal_strlit("parted");
    reveal_strlit("mkfs.vfat");
    reveal_strlit("mkfs.btrfs");
    reveal_strlit("grub-bios-setup");
    assert("udevadm"@.len() == 7);
    assert("sync"@.len() == 4);
    assert("parted"@.len() == 6);
    assert("mkfs.vfat"@.len() == 9);
    assert("mkfs.btrfs"@.len() == 10);
    assert("grub-bios-setup"@.len() == 15);
}

#[verifier::rlimit(40)]
proof fn lemma_loader_cause(o: OptionsView, l: LoaderView, r: ReplyView)
    requires
        !(l.phase is Finished),
        l.phase is Efi ==> l.names.len() > 0,
    ensures
        l.advance(r).phase is Finished ==> (l.advance(r).result matches Err(e) ==> is_cause(
            o,
            l.required,
            l.request(),
            r,
            e,
        )),
{
    lemma_program_names();
    match (l.phase, r) {
        (LoaderPhase::Listing, ReplyView::Entries(Ok(entries))) => {
            if efi_names(entries).len() == 0 {
                lemma_no_efi(entries);
            }
        },
        (LoaderPhase::Efi(i), ReplyView::Outcome(Err(x))) => {
            let what = l.names[i as int];
            assert(is_called(joined_path(l.source, what), what));
        },
        (LoaderPhase::BiosCopy(i), ReplyView::Outcome(Err(x))) => {
            let what = crate::bootloader::bios_file(i as int);
            assert(is_called(joined_path(l.source, what), what));
        },
        _ => {},
    }
}

#[verifier::rlimit(40)]
proof fn lemma_files_cause(o: OptionsView, needs: bool, f: FilesView, r: ReplyView)
    requires
        !(f.phase is Finished),
    ensures
        f.advance(r).phase is Finished ==> (f.advance(r).result matches Err(e) ==> is_cause(
            o,
            needs,
            f.request(),
            r,
            e,
        )),
{
    match (f.phase, r) {
        (FilesPhase::Copy(i), ReplyView::Outcome(Err(x))) => {
            let from = f.walk.files[i as int];
            assert(f.rel(i as int) == relative(f.source, from));
            assert(is_called(from, f.rel(i as int)));
        },
        _ => {},
    }
}

#[verifier::rlimit(80)]
proof fn lemma_cause(s: InstallView, o: OptionsView, r: ReplyView)
    requires
        consistent(s, o),
        !(s.phase is Unwind || s.phase is Finished),
        s.phase is Loaders ==> (s.loaders matches Some(l) && l.required == (s.sbc is None) && (
        l.phase is Efi ==> l.names.len() > 0)),
        s.phase is Loaders || s.phase is BootFiles || s.advance(r).result is Err,
    ensures
        s.advance(r).result matches Err(e) ==> is_cause(o, s.sbc is None, s.request(), r, e),
{
    lemma_program_names();
    if s.phase is Loaders {
        lemma_loader_cause(o, s.loaders->0, r);
    } else if s.phase is BootFiles {
        lemma_files_cause(o, s.sbc is None, s.files->0, r);
    }
}

/// An installation that was going on fails only with a reply that is a cause to fail, and its
/// error tells of that cause.
pub proof fn law_failure_has_its_cause(o: OptionsView, replies: Seq<ReplyView>, r: ReplyView)
    ensures
        ({
            let s = InstallView::start(o).run(replies);
            !(s.phase is Unwind || s.phase is Finished) ==> (s.advance(r).result matches Err(e)
                ==> is_cause(o, s.sbc is None, s.request(), r, e))
        }),
{
    let s = InstallView::start(o).run(replies);
    lemma_run(o, replies);
    lemma_board_needs_no_loaders(o, replies);
    if !(s.phase is Unwind || s.phase is Finished) {
        assert(s.phase is Loaders ==> past(s, 13));
        if s.phase is Loaders || s.phase is BootFiles || s.advance(r).result is Err {
            lemma_cause(s, o, r);
        }
    }
}

/// What an installation has failed with, or that it has succeeded, stays while it unmounts and
/// ends.
pub proof fn law_result_stays(s: InstallView, r: ReplyView)
    requires
        s.phase is Unwind || s.phase is Finished,
    ensures
        s.advance(r).phase is Unwind || s.advance(r).phase is Finished,
        s.advance(r).result == s.result,
{
}

/// An installation that waits for a device, after that many looks in vain, each with a pause
/// behind it.
pub open spec fn after_misses(s: InstallView, looks: nat) -> InstallView
    decreases looks,
{
    if looks == 0 {
        s
    } else {
        after_misses(s, (looks - 1) as nat).advance(ReplyView::Answer(false)).advance(
            ReplyView::Done,
        )
    }
}

/// When the device nodes have settled, the first partition is looked for 25 times, with a
/// pause of 200 ms behind each look in vain. If it is not there even then, the installation
/// fails. As soon as it is there, the second is looked for in the same way, and as soon as
/// that is there, the formatting begins.
pub proof fn law_partitions_are_waited_for(s: InstallView, o: OptionsView, m: nat, n: nat)
    requires
        consistent(s, o),
        s.phase is Settle,
        m <= 25,
        n <= 25,
    ensures
        ({
            let boot = after_misses(s.advance(ReplyView::Done), m);
            let data = after_misses(boot.advance(ReplyView::Answer(true)), n);
            &&& s.request() == ActionView::Run("udevadm"@, seq!["settle"@])
            &&& m < 25 ==> {
                &&& boot.request() == ActionView::Exists(partition(o.disk, 1))
                &&& boot.advance(ReplyView::Answer(false)).request() == ActionView::Sleep(200)
            }
            &&& m == 25 ==> boot.result == Err::<(), Seq<char>>(
                "partition device "@ + partition(o.disk, 1) + " did not appear"@,
            )
            &&& m < 25 && n < 25 ==> {
                &&& data.request() == ActionView::Exists(partition(o.disk, 2))
                &&& data.advance(ReplyView::Answer(false)).request() == ActionView::Sleep(200)
                &&& data.advance(ReplyView::Answer(true)).request() is Report
            }
            &&& m < 25 && n == 25 ==> data.result == Err::<(), Seq<char>>(
                "partition device "@ + partition(o.disk, 2) + " did not appear"@,
            )
        }),
{
    let w = s.advance(ReplyView::Done);
    lemma_misses(w, o, Phase::BootWait(25), m);
    if m < 25 {
        let boot = after_misses(w, m);
        lemma_misses(boot.advance(ReplyView::Answer(true)), o, Phase::DataWait(25), n);
    }
}

proof fn lemma_misses(w: InstallView, o: OptionsView, phase: Phase, n: nat)
    requires
        w.phase == phase,
        phase == Phase::BootWait(25) || phase == Phase::DataWait(25),
        w.disk == o.disk,
        !w.superfloppy,
        n <= 25,
    ensures
        ({
            let t = after_misses(w, n);
            &&& n < 25 ==> t == (InstallView {
                phase: if phase is BootWait {
                    Phase::BootWait((25 - n) as u32)
                } else {
                    Phase::DataWait((25 - n) as u32)
                },
                ..w
            })
            &&& n == 25 ==> t.result == Err::<(), Seq<char>>(
                "partition device "@ + partition(
                    o.disk,
                    if phase is BootWait {
                        1
                    } else {
                        2
                    },
                ) + " did not appear"@,
            )
        }),
    decreases n,
{
    if n > 0 {
        lemma_misses(w, o, phase, (n - 1) as nat);
    }
}

} // verus!
