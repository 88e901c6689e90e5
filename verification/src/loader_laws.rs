//! What has been done when the boot loaders are installed.

use vstd::prelude::*;

use crate::bootloader::{efi_names, is_efi_name, LoaderPhase, LoaderView};
use crate::effects::{ActionView, EntryView, ReplyView};
use crate::path::joined_path;
use crate::text_laws::lemma_picked;

verus! {

/// While the procedure was told `replies`, it asked for `a`, and `r` was the reply.
pub open spec fn loader_told(
    s: LoaderView,
    replies: Seq<ReplyView>,
    a: ActionView,
    r: ReplyView,
) -> bool
    decreases replies.len(),
{
    replies.len() > 0 && (loader_told(s, replies.drop_last(), a, r) || (s.run(
        replies.drop_last(),
    ).request() == a && replies.last() == r))
}

/// While the procedure was told `replies`, it asked for `a`.
pub open spec fn loader_asked(s: LoaderView, replies: Seq<ReplyView>, a: ActionView) -> bool
    decreases replies.len(),
{
    replies.len() > 0 && (loader_asked(s, replies.drop_last(), a) || s.run(
        replies.drop_last(),
    ).request() == a)
}

/// A file was copied, with success.
pub open spec fn loader_copied(
    s: LoaderView,
    replies: Seq<ReplyView>,
    from: Seq<char>,
    to: Seq<char>,
) -> bool {
    loader_told(s, replies, ActionView::CopyFile { from, to }, ReplyView::Outcome(Ok(())))
}

/// A directory was asked for, and was there or not.
pub open spec fn loader_looked(
    s: LoaderView,
    replies: Seq<ReplyView>,
    dir: Seq<char>,
    there: bool,
) -> bool {
    loader_told(s, replies, ActionView::IsDirectory(dir), ReplyView::Answer(there))
}

/// The image, if it is mounted, was found to have no boot loaders.
pub open spec fn image_has_none(s: LoaderView, replies: Seq<ReplyView>) -> bool {
    s.image_root matches Some(root) ==> loader_looked(
        s,
        replies,
        joined_path(root, "usr/lib/genpack-install"@),
        false,
    )
}

/// The boot loaders come from the image if it has any, else from `/usr/local`, else from
/// `/usr`.
pub open spec fn taken_from(s: LoaderView, replies: Seq<ReplyView>, source: Seq<char>) -> bool {
    let local = "/usr/local/lib/genpack-install"@;
    let system = "/usr/lib/genpack-install"@;
    &&& loader_looked(s, replies, source, true)
    &&& {
        ||| s.image_root matches Some(root) && source == joined_path(
            root,
            "usr/lib/genpack-install"@,
        )
        ||| source == local && image_has_none(s, replies)
        ||| source == system && image_has_none(s, replies) && loader_looked(
            s,
            replies,
            local,
            false,
        )
    }
}

/// Boot loaders were found nowhere.
pub open spec fn found_nowhere(s: LoaderView, replies: Seq<ReplyView>) -> bool {
    &&& image_has_none(s, replies)
    &&& loader_looked(s, replies, "/usr/local/lib/genpack-install"@, false)
    &&& loader_looked(s, replies, "/usr/lib/genpack-install"@, false)
}

/// An entry is an EFI boot loader: a regular file called `boot` and something and `.efi`.
pub open spec fn is_efi_loader(e: EntryView) -> bool {
    e.regular && "boot"@.is_prefix_of(e.name) && ".efi"@.is_suffix_of(e.name)
}

/// Every EFI boot loader among the entries was copied to `efi/boot` on the boot partition,
/// which was created before.
pub open spec fn all_efi_copied(
    s: LoaderView,
    replies: Seq<ReplyView>,
    source: Seq<char>,
    entries: Seq<EntryView>,
) -> bool {
    let dir = joined_path(s.boot, "efi/boot"@);
    &&& loader_told(s, replies, ActionView::CreateDir(dir), ReplyView::Outcome(Ok(())))
    &&& loader_told(s, replies, ActionView::ListDir(source), ReplyView::Entries(Ok(entries)))
    &&& forall|i: int|
        0 <= i < entries.len() && is_efi_loader(#[trigger] entries[i]) ==> loader_copied(
            s,
            replies,
            joined_path(source, entries[i].name),
            joined_path(dir, entries[i].name),
        )
    &&& s.required ==> exists|i: int| 0 <= i < entries.len() && is_efi_loader(#[trigger] entries[i])
}

/// A file of the BIOS boot loader was found to be there, or not to be.
pub open spec fn bios_file_there(
    s: LoaderView,
    replies: Seq<ReplyView>,
    source: Seq<char>,
    name: Seq<char>,
    there: bool,
) -> bool {
    loader_told(
        s,
        replies,
        ActionView::Exists(joined_path(source, name)),
        ReplyView::Answer(there),
    )
}

/// Something that the BIOS boot loader needs was found not to be there.
pub open spec fn bios_cannot_be(
    s: LoaderView,
    replies: Seq<ReplyView>,
    source: Seq<char>,
) -> bool {
    ||| bios_file_there(s, replies, source, "boot.img"@, false)
    ||| bios_file_there(s, replies, source, "core.img"@, false)
    ||| bios_file_there(s, replies, source, "grub.cfg"@, false)
    ||| loader_told(s, replies, ActionView::ProbeGrub, ReplyView::Answer(false))
}

/// The files of the BIOS boot loader were copied to `boot/grub` on the boot partition, and
/// the disk was set up to start from there.
pub open spec fn bios_is_set_up(
    s: LoaderView,
    replies: Seq<ReplyView>,
    source: Seq<char>,
    disk: Seq<char>,
) -> bool {
    let dir = joined_path(s.boot, "boot/grub"@);
    &&& loader_told(s, replies, ActionView::CreateDir(dir), ReplyView::Outcome(Ok(())))
    &&& loader_copied(
        s,
        replies,
        joined_path(source, "boot.img"@),
        joined_path(dir, "boot.img"@),
    )
    &&& loader_copied(
        s,
        replies,
        joined_path(source, "core.img"@),
        joined_path(dir, "core.img"@),
    )
    &&& loader_copied(
        s,
        replies,
        joined_path(source, "grub.cfg"@),
        joined_path(dir, "grub.cfg"@),
    )
    &&& loader_told(
        s,
        replies,
        ActionView::Run("grub-bios-setup"@, seq!["-d"@, dir, disk]),
        ReplyView::Outcome(Ok(())),
    )
}

/// Of what was copied for the set-up, the two files that are needed for nothing else were
/// removed again.
pub open spec fn bios_is_tidied(s: LoaderView, replies: Seq<ReplyView>) -> bool {
    let dir = joined_path(s.boot, "boot/grub"@);
    &&& loader_asked(s, replies, ActionView::RemoveFile(joined_path(dir, "boot.img"@)))
    &&& loader_asked(s, replies, ActionView::RemoveFile(joined_path(dir, "core.img"@)))
}

spec fn efi_so_far(s: LoaderView, replies: Seq<ReplyView>, t: LoaderView, n: int) -> bool {
    let dir = joined_path(s.boot, "efi/boot"@);
    &&& taken_from(s, replies, t.source)
    &&& loader_told(s, replies, ActionView::CreateDir(dir), ReplyView::Outcome(Ok(())))
    &&& exists|entries: Seq<EntryView>| #[trigger]
        loader_told(
            s,
            replies,
            ActionView::ListDir(t.source),
            ReplyView::Entries(Ok(entries)),
        ) && t.names == efi_names(entries)
    &&& forall|j: int|
        0 <= j < n ==> loader_copied(
            s,
            replies,
            joined_path(t.source, #[trigger] t.names[j]),
            joined_path(dir, t.names[j]),
        )
}

spec fn efi_all(s: LoaderView, replies: Seq<ReplyView>, t: LoaderView) -> bool {
    efi_so_far(s, replies, t, t.names.len() as int) && (s.required ==> t.names.len() > 0)
}

spec fn bios_files(s: LoaderView, replies: Seq<ReplyView>, t: LoaderView, n: int) -> bool {
    &&& efi_all(s, replies, t)
    &&& t.bios_disk is Some
    &&& n > 0 ==> bios_file_there(s, replies, t.source, "boot.img"@, true)
    &&& n > 1 ==> bios_file_there(s, replies, t.source, "core.img"@, true)
    &&& n > 2 ==> bios_file_there(s, replies, t.source, "grub.cfg"@, true)
}

spec fn bios_copies(s: LoaderView, replies: Seq<ReplyView>, t: LoaderView, n: int) -> bool {
    let dir = joined_path(s.boot, "boot/grub"@);
    &&& bios_files(s, replies, t, 3)
    &&& loader_told(s, replies, ActionView::CreateDir(dir), ReplyView::Outcome(Ok(())))
    &&& n > 0 ==> loader_copied(
        s,
        replies,
        joined_path(t.source, "boot.img"@),
        joined_path(dir, "boot.img"@),
    )
    &&& n > 1 ==> loader_copied(
        s,
        replies,
        joined_path(t.source, "core.img"@),
        joined_path(dir, "core.img"@),
    )
    &&& n > 2 ==> loader_copied(
        s,
        replies,
        joined_path(t.source, "grub.cfg"@),
        joined_path(dir, "grub.cfg"@),
    )
}

/// What the procedure has done, by its phase.
spec fn has_done(s: LoaderView, replies: Seq<ReplyView>, t: LoaderView) -> bool {
    match t.phase {
        LoaderPhase::ImageDir => t.image_root is Some && replies.len() == 0,
        LoaderPhase::LocalDir => image_has_none(s, replies),
        LoaderPhase::SystemDir => image_has_none(s, replies) && loader_looked(
            s,
            replies,
            "/usr/local/lib/genpack-install"@,
            false,
        ),
        LoaderPhase::EfiDir => taken_from(s, replies, t.source),
        LoaderPhase::Listing => taken_from(s, replies, t.source) && loader_told(
            s,
            replies,
            ActionView::CreateDir(joined_path(s.boot, "efi/boot"@)),
            ReplyView::Outcome(Ok(())),
        ),
        LoaderPhase::Efi(i) => i < t.names.len() && efi_so_far(s, replies, t, i as int),
        LoaderPhase::BiosFile(i) => i < 3 && bios_files(s, replies, t, i as int),
        LoaderPhase::Grub => bios_files(s, replies, t, 3),
        LoaderPhase::GrubDir => bios_files(s, replies, t, 3),
        LoaderPhase::BiosCopy(i) => i < 3 && bios_copies(s, replies, t, i as int),
        LoaderPhase::Setup => bios_copies(s, replies, t, 3),
        LoaderPhase::Remove(i) => i < 2 && efi_all(s, replies, t) && t.bios_disk is Some
            && bios_is_set_up(s, replies, t.source, t.bios_disk->0) && (i > 0 ==> loader_asked(
            s,
            replies,
            ActionView::RemoveFile(joined_path(joined_path(s.boot, "boot/grub"@), "boot.img"@)),
        )),
        LoaderPhase::Finished => t.result is Ok ==> {
            ||| found_nowhere(s, replies) && !s.required
            ||| efi_all(s, replies, t) && (t.bios_disk matches Some(d) ==> bios_cannot_be(
                s,
                replies,
                t.source,
            ) || (bios_is_set_up(s, replies, t.source, d) && bios_is_tidied(s, replies)))
        },
    }
}

spec fn same_task(s: LoaderView, t: LoaderView) -> bool {
    t.image_root == s.image_root && t.boot == s.boot && t.bios_disk == s.bios_disk && t.required
        == s.required
}

/// What the procedure is to do does not change while it does it.
pub proof fn lemma_task_stays(s: LoaderView, replies: Seq<ReplyView>)
    ensures
        s.run(replies).required == s.required,
        s.run(replies).bios_disk == s.bios_disk,
        s.run(replies).boot == s.boot,
        s.run(replies).image_root == s.image_root,
        !(s.phase is Efi) && s.run(replies).phase is Efi ==> s.run(replies).names.len() > 0,
    decreases replies.len(),
{
    if replies.len() > 0 {
        lemma_task_stays(s, replies.drop_last());
    }
}

proof fn lemma_told_before(s: LoaderView, replies: Seq<ReplyView>, t: LoaderView)
    requires
        replies.len() > 0,
    ensures
        forall|source: Seq<char>| #[trigger]
            taken_from(s, replies.drop_last(), source) ==> taken_from(s, replies, source),
        forall|n: int| #[trigger]
            efi_so_far(s, replies.drop_last(), t, n) ==> efi_so_far(s, replies, t, n),
        efi_all(s, replies.drop_last(), t) ==> efi_all(s, replies, t),
        forall|n: int| #[trigger]
            bios_files(s, replies.drop_last(), t, n) ==> bios_files(s, replies, t, n),
        forall|n: int| #[trigger]
            bios_copies(s, replies.drop_last(), t, n) ==> bios_copies(s, replies, t, n),
        t.bios_disk is Some && bios_is_set_up(s, replies.drop_last(), t.source, t.bios_disk->0)
            ==> bios_is_set_up(s, replies, t.source, t.bios_disk->0),
{
    let less = replies.drop_last();
    assert forall|n: int| #[trigger] efi_so_far(s, less, t, n) implies efi_so_far(
        s,
        replies,
        t,
        n,
    ) by {
        let entries = choose|entries: Seq<EntryView>| #[trigger]
            loader_told(
                s,
                less,
                ActionView::ListDir(t.source),
                ReplyView::Entries(Ok(entries)),
            ) && t.names == efi_names(entries);
        assert(loader_told(
            s,
            replies,
            ActionView::ListDir(t.source),
            ReplyView::Entries(Ok(entries)),
        ));
    }
}

/// A success is a success.
pub proof fn lemma_success(r: ReplyView)
    ensures
        (r matches ReplyView::Outcome(x) && x is Ok) ==> r == ReplyView::Outcome(Ok(())),
{
    if let ReplyView::Outcome(Ok(x)) = r {
        assert(x == ());
    }
}

#[verifier::rlimit(80)]
proof fn lemma_has_done(s: LoaderView, replies: Seq<ReplyView>)
    requires
        s.phase == (if s.image_root is Some {
            LoaderPhase::ImageDir
        } else {
            LoaderPhase::LocalDir
        }),
        s.names.len() == 0,
    ensures
        same_task(s, s.run(replies)),
        s.run(replies).phase is ImageDir || s.run(replies).phase is LocalDir || s.run(
            replies,
        ).phase is SystemDir || s.run(replies).phase is EfiDir || s.run(replies).phase is Listing
            ==> s.run(replies).names.len() == 0,
        s.run(replies).names.len() <= usize::MAX ==> has_done(s, replies, s.run(replies)),
    decreases replies.len(),
{
    if replies.len() > 0 {
        let less = replies.drop_last();
        lemma_has_done(s, less);
        let u = s.run(less);
        let t = s.run(replies);
        let r = replies.last();
        lemma_told_before(s, replies, u);
        lemma_success(r);
        assert(loader_told(s, replies, u.request(), r));
        assert(loader_asked(s, replies, u.request()));
        if t.names.len() <= usize::MAX {
            match u.phase {
                LoaderPhase::Listing => {
                    if let ReplyView::Entries(Ok(entries)) = r {
                        assert(loader_told(
                            s,
                            replies,
                            ActionView::ListDir(t.source),
                            ReplyView::Entries(Ok(entries)),
                        ) && t.names == efi_names(entries));
                        assert(efi_so_far(s, replies, t, 0));
                    }
                },
                LoaderPhase::Efi(i) => {
                    assert(efi_so_far(s, replies, u, i as int));
                    if r matches ReplyView::Outcome(Ok(_)) {
                        assert(loader_copied(
                            s,
                            replies,
                            joined_path(u.source, u.names[i as int]),
                            joined_path(joined_path(s.boot, "efi/boot"@), u.names[i as int]),
                        ));
                        assert(efi_so_far(s, replies, t, i + 1));
                    }
                },
                _ => {},
            }
        }
    }
}

/// When the procedure has succeeded: boot loaders were taken from the first of the three
/// places that has any, and every EFI boot loader there was copied to the boot partition.
/// Where the disk is to start by BIOS, `grub-bios-setup` was run on it with success, after the
/// files for it were copied, and two of them were removed after it, unless one of the three
/// files or the program was found not to be there. Only where the system can do without boot
/// loaders may there be none.
pub proof fn law_success_means_loaders_are_there(
    image_root: Option<Seq<char>>,
    boot: Seq<char>,
    bios_disk: Option<Seq<char>>,
    required: bool,
    replies: Seq<ReplyView>,
)
    requires
        LoaderView::start(image_root, boot, bios_disk, required).run(replies).request()
            == ActionView::Finish(Ok(())),
        LoaderView::start(image_root, boot, bios_disk, required).run(replies).names.len()
            <= usize::MAX,
    ensures
        ({
            let s = LoaderView::start(image_root, boot, bios_disk, required);
            ||| found_nowhere(s, replies) && !required
            ||| exists|source: Seq<char>, entries: Seq<EntryView>|
                {
                    &&& taken_from(s, replies, source)
                    &&& #[trigger] all_efi_copied(s, replies, source, entries)
                    &&& bios_disk matches Some(d) ==> bios_cannot_be(s, replies, source)
                        || (bios_is_set_up(s, replies, source, d) && bios_is_tidied(s, replies))
                }
        }),
{
    let s = LoaderView::start(image_root, boot, bios_disk, required);
    let t = s.run(replies);
    lemma_has_done(s, replies);
    assert(t.phase is Finished && t.result is Ok);
    if !(found_nowhere(s, replies) && !required) {
        let entries = choose|entries: Seq<EntryView>| #[trigger]
            loader_told(
                s,
                replies,
                ActionView::ListDir(t.source),
                ReplyView::Entries(Ok(entries)),
            ) && t.names == efi_names(entries);
        lemma_efi_entries(s, replies, t, entries);
        assert(all_efi_copied(s, replies, t.source, entries));
    }
}

proof fn lemma_efi_entries(
    s: LoaderView,
    replies: Seq<ReplyView>,
    t: LoaderView,
    entries: Seq<EntryView>,
)
    requires
        efi_all(s, replies, t),
        t.names == efi_names(entries),
        loader_told(s, replies, ActionView::ListDir(t.source), ReplyView::Entries(Ok(entries))),
    ensures
        all_efi_copied(s, replies, t.source, entries),
{
    let f = |e: EntryView|
        if e.regular && is_efi_name(e.name) {
            Some(e.name)
        } else {
            None
        };
    let at = lemma_picked(entries, f);
    let dir = joined_path(s.boot, "efi/boot"@);
    assert forall|i: int|
        0 <= i < entries.len() && is_efi_loader(#[trigger] entries[i]) implies loader_copied(
        s,
        replies,
        joined_path(t.source, entries[i].name),
        joined_path(dir, entries[i].name),
    ) by {
        assert(at.contains(i));
        let k = choose|k: int| 0 <= k < at.len() && at[k] == i;
        assert(f(entries[at[k]]) == Some(t.names[k]));
        assert(t.names[k] == entries[i].name);
    }
    if s.required {
        assert(f(entries[at[0]]) == Some(t.names[0]));
        assert(is_efi_loader(entries[at[0]]));
    }
}

/// Where the disk is to start by BIOS, boot loaders were found or cannot be done without, and
/// the three files and the
/// program were all found to be there, success means that `grub-bios-setup` was run on the
/// disk with success.
pub proof fn law_bios_disk_is_set_up(
    image_root: Option<Seq<char>>,
    boot: Seq<char>,
    disk: Seq<char>,
    required: bool,
    replies: Seq<ReplyView>,
)
    requires
        ({
            let s = LoaderView::start(image_root, boot, Some(disk), required);
            &&& s.run(replies).request() == ActionView::Finish(Ok(()))
            &&& s.run(replies).names.len() <= usize::MAX
            &&& required || !found_nowhere(s, replies)
            &&& forall|source: Seq<char>| !#[trigger] bios_cannot_be(s, replies, source)
        }),
    ensures
        loader_told(
            LoaderView::start(image_root, boot, Some(disk), required),
            replies,
            ActionView::Run(
                "grub-bios-setup"@,
                seq!["-d"@, joined_path(boot, "boot/grub"@), disk],
            ),
            ReplyView::Outcome(Ok(())),
        ),
{
    let s = LoaderView::start(image_root, boot, Some(disk), required);
    law_success_means_loaders_are_there(image_root, boot, Some(disk), required, replies);
    let (source, entries) = choose|source: Seq<char>, entries: Seq<EntryView>|
        {
            &&& taken_from(s, replies, source)
            &&& #[trigger] all_efi_copied(s, replies, source, entries)
            &&& bios_cannot_be(s, replies, source) || (bios_is_set_up(s, replies, source, disk)
                && bios_is_tidied(s, replies))
        };
    assert(!bios_cannot_be(s, replies, source));
}

/// Nothing is copied but EFI boot loaders, to `efi/boot`, and the three files of the BIOS boot
/// loader, to `boot/grub`, each under its name. Nothing is removed but two of these three, and
/// only after `grub-bios-setup` was run with success.
pub proof fn law_nothing_else_is_copied_or_removed(
    image_root: Option<Seq<char>>,
    boot: Seq<char>,
    bios_disk: Option<Seq<char>>,
    required: bool,
    replies: Seq<ReplyView>,
)
    requires
        LoaderView::start(image_root, boot, bios_disk, required).run(replies).names.len()
            <= usize::MAX,
    ensures
        ({
            let s = LoaderView::start(image_root, boot, bios_disk, required);
            let efi = joined_path(boot, "efi/boot"@);
            let grub = joined_path(boot, "boot/grub"@);
            match s.run(replies).request() {
                ActionView::CopyFile { from, to } => exists|source: Seq<char>, name: Seq<char>|
                    {
                        &&& taken_from(s, replies, source)
                        &&& from == #[trigger] joined_path(source, name)
                        &&& {
                            ||| to == joined_path(efi, name) && "boot"@.is_prefix_of(name)
                                && ".efi"@.is_suffix_of(name)
                            ||| to == joined_path(grub, name) && bios_disk is Some && (name
                                == "boot.img"@ || name == "core.img"@ || name == "grub.cfg"@)
                        }
                    },
                ActionView::RemoveFile(path) => {
                    &&& path == joined_path(grub, "boot.img"@) || path == joined_path(
                        grub,
                        "core.img"@,
                    )
                    &&& bios_disk matches Some(d) && loader_told(
                        s,
                        replies,
                        ActionView::Run("grub-bios-setup"@, seq!["-d"@, grub, d]),
                        ReplyView::Outcome(Ok(())),
                    )
                },
                _ => true,
            }
        }),
{
    let s = LoaderView::start(image_root, boot, bios_disk, required);
    let t = s.run(replies);
    lemma_has_done(s, replies);
    match t.phase {
        LoaderPhase::Efi(i) => {
            let entries = choose|entries: Seq<EntryView>| #[trigger]
                loader_told(
                    s,
                    replies,
                    ActionView::ListDir(t.source),
                    ReplyView::Entries(Ok(entries)),
                ) && t.names == efi_names(entries);
            let f = |e: EntryView|
                if e.regular && is_efi_name(e.name) {
                    Some(e.name)
                } else {
                    None
                };
            let at = lemma_picked(entries, f);
            assert(f(entries[at[i as int]]) == Some(t.names[i as int]));
            assert(t.request() == (ActionView::CopyFile {
                from: joined_path(t.source, t.names[i as int]),
                to: joined_path(joined_path(boot, "efi/boot"@), t.names[i as int]),
            }));
        },
        LoaderPhase::BiosCopy(i) => {
            let name = crate::bootloader::bios_file(i as int);
            assert(t.request() == (ActionView::CopyFile {
                from: joined_path(t.source, name),
                to: joined_path(joined_path(boot, "boot/grub"@), name),
            }));
        },
        _ => {},
    }
}

} // verus!
