//! What has been done when an installation succeeds.

use vstd::prelude::*;

use crate::backend::OptionsView;
use crate::bootloader::LoaderView;
use crate::effects::{ActionView, ReplyView};
use crate::install::{InstallView, Phase};
use crate::install_laws::{consistent, lemma_finish_is_the_end, lemma_run, remaining_phases};
use crate::layout::{disk_bytes, sector_length};
use crate::loader_laws::{
    bios_cannot_be, law_bios_disk_is_set_up, lemma_success, lemma_task_stays, loader_told,
};
use crate::number::decimal;
use crate::path::{file_name_or_empty, joined_path, partition};
use crate::sbc::FilesView;
use crate::sbc_laws::files_told;
use crate::settings::ini_file;

verus! {

/// While an installation was told `replies`, it asked for `a`, and `r` was the reply.
pub open spec fn told(s: InstallView, replies: Seq<ReplyView>, a: ActionView, r: ReplyView) -> bool
    decreases replies.len(),
{
    replies.len() > 0 && (told(s, replies.drop_last(), a, r) || (s.run(
        replies.drop_last(),
    ).request() == a && replies.last() == r))
}

/// While an installation was told `replies`, it asked for `a`, and that succeeded.
pub open spec fn done(s: InstallView, replies: Seq<ReplyView>, a: ActionView) -> bool {
    told(s, replies, a, ReplyView::Outcome(Ok(())))
}

/// A disk with attributes of these texts can be started by BIOS: it has 2 TiB at most and
/// sectors of 512 bytes.
pub open spec fn small_enough_for_bios(
    sectors: Option<Seq<char>>,
    block: Option<Seq<char>>,
) -> bool {
    disk_bytes(sectors) <= 2 * 1024 * 1024 * 1024 * 1024 && sector_length(block) == 512
}

/// The formatting of a whole disk, or of a boot partition, as FAT32.
pub open spec fn make_fat32(device: Seq<char>, whole: bool) -> ActionView {
    ActionView::Run(
        "mkfs.vfat"@,
        if whole {
            seq!["-F"@, "32"@, "-s"@, "32"@, "-I"@, "-n"@, "BOOT"@, device]
        } else {
            seq!["-F"@, "32"@, "-s"@, "32"@, "-n"@, "BOOT"@, device]
        },
    )
}

/// The formatting of a data partition as BTRFS, labelled by the UUID of the boot partition.
pub open spec fn make_btrfs(device: Seq<char>, uuid: Seq<char>) -> ActionView {
    ActionView::Run("mkfs.btrfs"@, seq!["-q"@, "-L"@, "data-"@ + uuid, "-f"@, device])
}

/// The partitioning of a disk.
pub open spec fn make_partitions(disk: Seq<char>, gib: nat, msdos: bool, esp: bool) -> ActionView {
    let label = if msdos {
        "mklabel "@ + "msdos"@
    } else {
        "mklabel "@ + "gpt"@
    };
    let args = seq![
        "--script"@,
        disk,
        label,
        "mkpart primary fat32 1MiB "@ + (decimal(gib) + "GiB"@),
        "mkpart primary btrfs "@ + (decimal(gib) + "GiB"@) + " -1"@,
        "set 1 boot on"@,
    ];
    ActionView::Run(
        "parted"@,
        if esp {
            args.push("set 1 esp on"@)
        } else {
            args
        },
    )
}

/// The least whole number of GiB, four at least, with more room than three images of `size`
/// bytes take, where they go to the boot partition; else one.
pub open spec fn room_for(size: nat, gib: nat) -> bool {
    if size < 4 * 1024 * 1024 * 1024 {
        &&& gib >= 4
        &&& gib * 1024 * 1024 * 1024 > 3 * size
        &&& gib == 4 || (gib - 1) * 1024 * 1024 * 1024 <= 3 * size
    } else {
        gib == 1
    }
}

/// The mount of the image, to look into it.
pub open spec fn open_image(image: Seq<char>) -> ActionView {
    ActionView::Mount { source: image, fstype: None, options: seq!["ro"@], looped: true }
}

/// The question that tells an image for a single-board computer.
pub open spec fn ask_for_board(root: Seq<char>) -> ActionView {
    ActionView::Exists(joined_path(root, "boot/bootcode.bin"@))
}

/// The installation goes on, or has succeeded, and stands nearer to its end than `n`.
pub open spec fn past(t: InstallView, n: nat) -> bool {
    ((t.phase is Unwind || t.phase is Finished) ==> t.result is Ok) && remaining_phases(t.phase) < n
}

/// What is known of the image before it has been looked into, and while it is.
spec fn sound(s: InstallView) -> bool {
    &&& s.sbc matches Some(i) ==> i == 0 && s.root is Some
    &&& remaining_phases(s.phase) >= 28 ==> s.root is None && s.sbc is None
    &&& s.phase matches Phase::Marker(i) ==> i == 0 && s.root is Some && s.sbc is None
    &&& s.superfloppy || remaining_phases(s.phase) >= 26 ==> !s.bios
    &&& s.size <= u64::MAX
}

#[verifier::rlimit(60)]
proof fn lemma_step_image(s: InstallView, o: OptionsView, r: ReplyView)
    requires
        consistent(s, o),
        sound(s),
    ensures
        sound(s.advance(r)),
        ({
            let t = s.advance(r);
            &&& past(t, 29) && !past(s, 29) ==> s.request() == ActionView::ReadHead(o.image) && r
                == ReplyView::Head(Some(seq![0x68u8, 0x73u8, 0x71u8, 0x73u8]))
            &&& past(s, 31) ==> t.size == s.size
            &&& past(t, 31) && !past(s, 31) ==> s.request() == ActionView::FileSize(o.image) && (r
                matches ReplyView::Size(Ok(n)) && n as nat == t.size)
            &&& past(t, 31) && !past(s, 31) && o.superfloppy ==> t.size < 4 * 1024 * 1024 * 1024
            &&& past(t, 28) && past(s, 28) ==> t.root == s.root
            &&& past(t, 28) && !past(s, 28) ==> s.request() == open_image(o.image) && (match r {
                ReplyView::Text(Ok(dir)) => t.root == Some(dir),
                ReplyView::Text(Err(_)) => t.root is None,
                _ => false,
            })
            &&& past(t, 27) && past(s, 27) ==> t.sbc == s.sbc
            &&& past(t, 27) && !past(s, 27) ==> (match t.root {
                None => t.sbc is None,
                Some(root) => s.request() == ask_for_board(root) && r == ReplyView::Answer(
                    t.sbc is Some,
                ),
            })
        }),
{
}

/// The number of GiB that the boot partition gets.
proof fn lemma_room(size: nat)
    ensures
        room_for(size, crate::layout::boot_gib(size)),
{
}

#[verifier::rlimit(60)]
proof fn lemma_step_disk(s: InstallView, o: OptionsView, r: ReplyView)
    requires
        consistent(s, o),
        sound(s),
    ensures
        ({
            let t = s.advance(r);
            let gib = crate::layout::boot_gib(s.size);
            let ok = r matches ReplyView::Outcome(x) && x is Ok;
            &&& o.superfloppy && past(t, 25) && !past(s, 25) ==> ok && s.request() == make_fat32(
                o.disk,
                true,
            )
            &&& !o.superfloppy && past(t, 26) && past(s, 26) ==> t.bios == s.bios
            &&& !o.superfloppy && past(t, 26) && !past(s, 26) ==> s.request()
                == ActionView::DiskAttributes(file_name_or_empty(o.disk)) && (match r {
                ReplyView::Attributes(sectors, block) => t.bios == small_enough_for_bios(
                    sectors,
                    block,
                ),
                _ => false,
            })
            &&& !o.superfloppy && past(t, 24) && !past(s, 24) ==> ok && s.request()
                == make_partitions(o.disk, gib, s.bios, s.bios && s.sbc is None) && t.size == s.size
                && t.bios == s.bios && t.sbc == s.sbc
            &&& !o.superfloppy && past(t, 19) && !past(s, 19) ==> ok && s.request() == make_fat32(
                partition(o.disk, 1),
                false,
            )
            &&& !o.superfloppy && past(t, 18) && past(s, 18) ==> t.uuid == s.uuid
            &&& !o.superfloppy && past(t, 18) && !past(s, 18) ==> s.request()
                == ActionView::ReadUuid(partition(o.disk, 1)) && r == ReplyView::Text(Ok(t.uuid))
            &&& !o.superfloppy && past(t, 16) && !past(s, 16) ==> ok && s.request() == make_btrfs(
                partition(o.disk, 2),
                s.uuid,
            ) && t.uuid == s.uuid
        }),
{
}

/// The mount of a boot device.
pub open spec fn open_boot(device: Seq<char>) -> ActionView {
    ActionView::Mount {
        source: device,
        fstype: Some("vfat"@),
        options: seq!["fmask=177"@, "dmask=077"@],
        looped: false,
    }
}

/// The mount of a data partition.
pub open spec fn open_data(device: Seq<char>) -> ActionView {
    ActionView::Mount {
        source: device,
        fstype: Some("btrfs"@),
        options: Seq::empty(),
        looped: false,
    }
}

/// The boot device of a disk: its first partition, or the disk itself where it has none.
pub open spec fn boot_device_of(o: OptionsView) -> Seq<char> {
    if o.superfloppy {
        o.disk
    } else {
        partition(o.disk, 1)
    }
}

/// An image of that size goes to the boot device: it is smaller than 4 GiB.
pub open spec fn goes_to_boot(size: nat) -> bool {
    size < 4 * 1024 * 1024 * 1024
}

/// The copy of the image.
pub open spec fn copy_to(image: Seq<char>, to: Seq<char>, size: nat) -> ActionView {
    ActionView::CopyImage { from: image, to, size: size as u64 }
}

#[verifier::rlimit(60)]
proof fn lemma_step_contents(s: InstallView, o: OptionsView, r: ReplyView)
    requires
        consistent(s, o),
        sound(s),
    ensures
        ({
            let t = s.advance(r);
            let ok = r matches ReplyView::Outcome(x) && x is Ok;
            &&& past(t, 15) && past(s, 15) ==> t.boot == s.boot
            &&& past(t, 15) && !past(s, 15) ==> s.request() == open_boot(boot_device_of(o)) && r
                == ReplyView::Text(Ok(t.boot))
            &&& !goes_to_boot(s.size) && past(t, 10) && past(s, 10) ==> t.data == s.data
            &&& !goes_to_boot(s.size) && past(t, 10) && !past(s, 10) ==> s.request() == open_data(
                partition(o.disk, 2),
            ) && r == ReplyView::Text(Ok(t.data))
            &&& past(t, 9) && !past(s, 9) ==> ok && s.request() == copy_to(
                o.image,
                if goes_to_boot(s.size) {
                    joined_path(s.boot, "system.img"@)
                } else {
                    joined_path(s.data, "system"@)
                },
                s.size,
            )
            &&& t.config == s.config
            &&& past(t, 6) && !past(s, 6) && s.config is Some ==> ok && s.request()
                == (ActionView::WriteText {
                path: joined_path(s.boot, "system.ini"@),
                text: s.config->0,
            })
            &&& past(t, 4) && !past(s, 4) ==> s.request() == ActionView::Run(
                "sync"@,
                Seq::empty(),
            )
        }),
{
}

/// The disk was asked for its attributes, and `bios` tells what they make of it.
pub open spec fn bios_by_attributes(
    s: InstallView,
    replies: Seq<ReplyView>,
    disk: Seq<char>,
    bios: bool,
) -> bool {
    exists|sectors: Option<Seq<char>>, block: Option<Seq<char>>| #[trigger]
        told(
            s,
            replies,
            ActionView::DiskAttributes(file_name_or_empty(disk)),
            ReplyView::Attributes(sectors, block),
        ) && bios == small_enough_for_bios(sectors, block)
}

/// The image could not be mounted.
pub open spec fn image_stayed_shut(
    s: InstallView,
    replies: Seq<ReplyView>,
    image: Seq<char>,
) -> bool {
    exists|e: Seq<char>| #[trigger] told(s, replies, open_image(image), ReplyView::Text(Err(e)))
}

proof fn lemma_stayed_shut(s: InstallView, replies: Seq<ReplyView>, image: Seq<char>)
    requires
        replies.len() > 0,
        image_stayed_shut(s, replies.drop_last(), image) || (s.run(replies.drop_last()).request()
            == open_image(image) && (replies.last() matches ReplyView::Text(Err(_)))),
    ensures
        image_stayed_shut(s, replies, image),
{
    let less = replies.drop_last();
    if image_stayed_shut(s, less, image) {
        let e = choose|e: Seq<char>| #[trigger]
            told(s, less, open_image(image), ReplyView::Text(Err(e)));
        assert(told(s, replies, open_image(image), ReplyView::Text(Err(e))));
    } else {
        let e = replies.last()->Text_0->Err_0;
        assert(told(s, replies, open_image(image), ReplyView::Text(Err(e))));
    }
}

spec fn image_facts(
    s: InstallView,
    replies: Seq<ReplyView>,
    t: InstallView,
    o: OptionsView,
) -> bool {
    &&& past(t, 31) ==> t.size <= u64::MAX && told(
        s,
        replies,
        ActionView::FileSize(o.image),
        ReplyView::Size(Ok(t.size as u64)),
    ) && (o.superfloppy ==> goes_to_boot(t.size))
    &&& past(t, 29) ==> told(
        s,
        replies,
        ActionView::ReadHead(o.image),
        ReplyView::Head(Some(seq![0x68u8, 0x73u8, 0x71u8, 0x73u8])),
    )
    &&& past(t, 28) ==> match t.root {
        Some(dir) => told(s, replies, open_image(o.image), ReplyView::Text(Ok(dir))),
        None => image_stayed_shut(s, replies, o.image),
    }
    &&& past(t, 27) ==> match t.root {
        Some(dir) => told(s, replies, ask_for_board(dir), ReplyView::Answer(t.sbc is Some)),
        None => t.sbc is None,
    }
}

proof fn lemma_image_facts(o: OptionsView, replies: Seq<ReplyView>)
    ensures
        sound(InstallView::start(o).run(replies)),
        image_facts(InstallView::start(o), replies, InstallView::start(o).run(replies), o),
    decreases replies.len(),
{
    if replies.len() > 0 {
        let s = InstallView::start(o);
        let less = replies.drop_last();
        let u = s.run(less);
        let r = replies.last();
        lemma_image_facts(o, less);
        lemma_run(o, less);
        lemma_step_image(u, o, r);
        assert(told(s, replies, u.request(), r));
        let t = u.advance(r);
        if past(t, 28) && t.root is None {
            lemma_stayed_shut(s, replies, o.image);
        }
    }
}

spec fn disk_facts(
    s: InstallView,
    replies: Seq<ReplyView>,
    t: InstallView,
    o: OptionsView,
) -> bool {
    if o.superfloppy {
        past(t, 25) ==> done(s, replies, make_fat32(o.disk, true))
    } else {
        &&& past(t, 26) ==> bios_by_attributes(s, replies, o.disk, t.bios)
        &&& past(t, 24) ==> done(
            s,
            replies,
            make_partitions(
                o.disk,
                crate::layout::boot_gib(t.size),
                t.bios,
                t.bios && t.sbc is None,
            ),
        )
        &&& past(t, 19) ==> done(s, replies, make_fat32(partition(o.disk, 1), false))
        &&& past(t, 18) ==> told(
            s,
            replies,
            ActionView::ReadUuid(partition(o.disk, 1)),
            ReplyView::Text(Ok(t.uuid)),
        )
        &&& past(t, 16) ==> done(s, replies, make_btrfs(partition(o.disk, 2), t.uuid))
    }
}

proof fn lemma_disk_facts(o: OptionsView, replies: Seq<ReplyView>)
    ensures
        disk_facts(InstallView::start(o), replies, InstallView::start(o).run(replies), o),
    decreases replies.len(),
{
    if replies.len() > 0 {
        let s = InstallView::start(o);
        let less = replies.drop_last();
        let u = s.run(less);
        let t = s.run(replies);
        let r = replies.last();
        lemma_disk_facts(o, less);
        lemma_run(o, less);
        lemma_image_facts(o, less);
        lemma_step_image(u, o, r);
        lemma_step_disk(u, o, r);
        lemma_success(r);
        assert(told(s, replies, u.request(), r));
        if !o.superfloppy && past(u, 26) {
            let (sectors, block) = choose|sectors: Option<Seq<char>>, block: Option<Seq<char>>|
             #[trigger]
                told(
                    s,
                    less,
                    ActionView::DiskAttributes(file_name_or_empty(o.disk)),
                    ReplyView::Attributes(sectors, block),
                ) && u.bios == small_enough_for_bios(sectors, block);
            assert(told(
                s,
                replies,
                ActionView::DiskAttributes(file_name_or_empty(o.disk)),
                ReplyView::Attributes(sectors, block),
            ));
        } else if !o.superfloppy && past(t, 26) {
            if let ReplyView::Attributes(sectors, block) = r {
                assert(told(
                    s,
                    replies,
                    ActionView::DiskAttributes(file_name_or_empty(o.disk)),
                    ReplyView::Attributes(sectors, block),
                ));
            }
        }
    }
}

/// Where the image goes.
pub open spec fn image_goes_to(boot: Seq<char>, data: Seq<char>, size: nat) -> Seq<char> {
    if goes_to_boot(size) {
        joined_path(boot, "system.img"@)
    } else {
        joined_path(data, "system"@)
    }
}

/// The writing of the settings.
pub open spec fn write_settings(boot: Seq<char>, text: Seq<char>) -> ActionView {
    ActionView::WriteText { path: joined_path(boot, "system.ini"@), text }
}

/// While an installation was told `replies`, it asked for `a`.
pub open spec fn asked(s: InstallView, replies: Seq<ReplyView>, a: ActionView) -> bool
    decreases replies.len(),
{
    replies.len() > 0 && (asked(s, replies.drop_last(), a) || s.run(replies.drop_last()).request()
        == a)
}

spec fn content_facts(
    s: InstallView,
    replies: Seq<ReplyView>,
    t: InstallView,
    o: OptionsView,
) -> bool {
    &&& past(t, 15) ==> told(
        s,
        replies,
        open_boot(boot_device_of(o)),
        ReplyView::Text(Ok(t.boot)),
    )
    &&& past(t, 10) && !goes_to_boot(t.size) ==> told(
        s,
        replies,
        open_data(partition(o.disk, 2)),
        ReplyView::Text(Ok(t.data)),
    )
    &&& past(t, 9) ==> done(
        s,
        replies,
        copy_to(o.image, image_goes_to(t.boot, t.data, t.size), t.size),
    )
    &&& t.config == s.config
    &&& past(t, 6) && t.config is Some ==> done(s, replies, write_settings(t.boot, t.config->0))
    &&& past(t, 4) ==> asked(s, replies, ActionView::Run("sync"@, Seq::empty()))
}

proof fn lemma_content_facts(o: OptionsView, replies: Seq<ReplyView>)
    ensures
        content_facts(InstallView::start(o), replies, InstallView::start(o).run(replies), o),
    decreases replies.len(),
{
    if replies.len() > 0 {
        let s = InstallView::start(o);
        let less = replies.drop_last();
        let u = s.run(less);
        let r = replies.last();
        lemma_content_facts(o, less);
        lemma_run(o, less);
        lemma_image_facts(o, less);
        lemma_step_image(u, o, r);
        lemma_step_contents(u, o, r);
        lemma_success(r);
        assert(told(s, replies, u.request(), r));
        assert(asked(s, replies, u.request()));
    }
}

/// The installing of boot loaders as it is to start: from the image where it is mounted, onto
/// the boot device, with the chosen disk to be set up for BIOS where it has been partitioned
/// for that and the image is for no single-board computer; no other can do without them.
pub open spec fn loaders_to_install(t: InstallView) -> LoaderView {
    LoaderView::start(
        t.root,
        t.boot,
        if t.sbc is None && t.bios {
            Some(t.disk)
        } else {
            None
        },
        t.sbc is None,
    )
}

/// What the installing of boot loaders was told is a part of what the installation was told.
pub open spec fn loaders_were_told(
    s: InstallView,
    replies: Seq<ReplyView>,
    l: LoaderView,
    part: Seq<ReplyView>,
) -> bool {
    forall|a: ActionView, r: ReplyView| #[trigger]
        loader_told(l, part, a, r) ==> told(s, replies, a, r)
}

#[verifier::rlimit(60)]
proof fn lemma_step_loaders(s: InstallView, o: OptionsView, r: ReplyView)
    requires
        consistent(s, o),
        sound(s),
    ensures
        ({
            let t = s.advance(r);
            &&& past(t, 13) && !past(s, 13) ==> t.loaders == Some(loaders_to_install(t))
            &&& past(t, 13) && past(s, 13) ==> loaders_to_install(t) == loaders_to_install(s)
            &&& past(t, 13) && s.phase is Loaders ==> t.loaders == Some(
                (s.loaders->0).advance(r),
            ) && s.request() == (s.loaders->0).request()
            &&& past(t, 12) && past(s, 12) ==> t.loaders == s.loaders
            &&& past(s, 13) && !past(s, 12) ==> s.phase is Loaders && s.loaders is Some
            &&& past(t, 12) && !past(s, 12) ==> past(s, 13) && (t.loaders matches Some(l) && l.phase
                is Finished && l.result is Ok)
        }),
{
}

proof fn lemma_loaders_part(o: OptionsView, replies: Seq<ReplyView>) -> (part: Seq<ReplyView>)
    ensures
        ({
            let s = InstallView::start(o);
            let t = s.run(replies);
            &&& past(t, 13) ==> t.loaders == Some(loaders_to_install(t).run(part))
                && loaders_were_told(s, replies, loaders_to_install(t), part)
            &&& past(t, 12) ==> (t.loaders matches Some(l) && l.phase is Finished && l.result is Ok)
        }),
    decreases replies.len(),
{
    let s = InstallView::start(o);
    let t = s.run(replies);
    if replies.len() == 0 {
        Seq::empty()
    } else {
        let less = replies.drop_last();
        let u = s.run(less);
        let r = replies.last();
        let before = lemma_loaders_part(o, less);
        lemma_run(o, less);
        lemma_image_facts(o, less);
        lemma_step_loaders(u, o, r);
        if past(t, 13) && !past(u, 13) {
            assert(loaders_to_install(t).run(Seq::empty()) == loaders_to_install(t));
            Seq::empty()
        } else if past(t, 13) && u.phase is Loaders {
            let l = loaders_to_install(u);
            let part = before.push(r);
            assert(part.drop_last() =~= before);
            assert(l.run(part) == l.run(before).advance(r));
            assert forall|a: ActionView, x: ReplyView| #[trigger]
                loader_told(l, part, a, x) implies told(s, replies, a, x) by {
                if loader_told(l, before, a, x) {
                    assert(told(s, less, a, x));
                }
            }
            part
        } else {
            if past(t, 13) {
                let l = loaders_to_install(u);
                assert forall|a: ActionView, x: ReplyView| #[trigger]
                    loader_told(l, before, a, x) implies told(s, replies, a, x) by {
                    assert(told(s, less, a, x));
                }
            }
            before
        }
    }
}

/// The boot loaders that are installed cannot be done without exactly where the image is for
/// no single-board computer.
pub proof fn lemma_board_needs_no_loaders(o: OptionsView, replies: Seq<ReplyView>)
    ensures
        ({
            let t = InstallView::start(o).run(replies);
            past(t, 13) ==> (t.loaders matches Some(l) && l.required == (t.sbc is None) && (l.phase
                is Efi ==> l.names.len() > 0))
        }),
{
    let t = InstallView::start(o).run(replies);
    if past(t, 13) {
        let part = lemma_loaders_part(o, replies);
        lemma_task_stays(loaders_to_install(t), part);
    }
}

/// An installation that succeeds has prepared the disk. The size of the image was told first,
/// and the image has the first bytes of one. Where the whole disk becomes one file system, the
/// image is smaller than 4 GiB, and the disk was formatted. Else the disk was partitioned, with
/// room in the boot partition for three images that go there, and with an MBR label exactly
/// where it has 2 TiB at most and sectors of 512 bytes; both partitions were formatted, the
/// second with the UUID of the first in its label. In the end all was written out.
pub proof fn law_success_means_disk_is_prepared(o: OptionsView, replies: Seq<ReplyView>)
    requires
        InstallView::start(o).run(replies).request() == ActionView::Finish(Ok(())),
    ensures
        ({
            let s = InstallView::start(o);
            let t = s.run(replies);
            &&& told(
                s,
                replies,
                ActionView::FileSize(o.image),
                ReplyView::Size(Ok(t.size as u64)),
            )
            &&& t.size <= u64::MAX
            &&& told(
                s,
                replies,
                ActionView::ReadHead(o.image),
                ReplyView::Head(Some(seq![0x68u8, 0x73u8, 0x71u8, 0x73u8])),
            )
            &&& o.superfloppy ==> {
                &&& t.size < 4 * 1024 * 1024 * 1024
                &&& done(s, replies, make_fat32(o.disk, true))
            }
            &&& !o.superfloppy ==> {
                &&& bios_by_attributes(s, replies, o.disk, t.bios)
                &&& exists|gib: nat| #[trigger]
                    room_for(t.size, gib) && done(
                        s,
                        replies,
                        make_partitions(o.disk, gib, t.bios, t.bios && t.sbc is None),
                    )
                &&& done(s, replies, make_fat32(partition(o.disk, 1), false))
                &&& told(
                    s,
                    replies,
                    ActionView::ReadUuid(partition(o.disk, 1)),
                    ReplyView::Text(Ok(t.uuid)),
                )
                &&& done(s, replies, make_btrfs(partition(o.disk, 2), t.uuid))
            }
            &&& asked(s, replies, ActionView::Run("sync"@, Seq::empty()))
        }),
{
    let s = InstallView::start(o);
    let t = s.run(replies);
    lemma_run(o, replies);
    lemma_finish_is_the_end(o, t);
    lemma_image_facts(o, replies);
    lemma_disk_facts(o, replies);
    lemma_content_facts(o, replies);
    lemma_room(t.size);
    assert(past(t, 1));
}

/// An installation that succeeds has copied the whole image of the size that was told, to
/// `system.img` on the boot device where it is smaller than 4 GiB, else to `system` on the data
/// partition, and has written the settings that there are to `system.ini` on the boot device.
pub proof fn law_success_means_contents_are_there(o: OptionsView, replies: Seq<ReplyView>)
    requires
        InstallView::start(o).run(replies).request() == ActionView::Finish(Ok(())),
    ensures
        ({
            let s = InstallView::start(o);
            let t = s.run(replies);
            &&& told(s, replies, open_boot(boot_device_of(o)), ReplyView::Text(Ok(t.boot)))
            &&& t.size < 4 * 1024 * 1024 * 1024 ==> done(
                s,
                replies,
                copy_to(o.image, joined_path(t.boot, "system.img"@), t.size),
            )
            &&& t.size >= 4 * 1024 * 1024 * 1024 ==> told(
                s,
                replies,
                open_data(partition(o.disk, 2)),
                ReplyView::Text(Ok(t.data)),
            ) && done(s, replies, copy_to(o.image, joined_path(t.data, "system"@), t.size))
            &&& ini_file(o) matches Some(text) ==> done(
                s,
                replies,
                write_settings(t.boot, text),
            )
        }),
{
    let s = InstallView::start(o);
    let t = s.run(replies);
    lemma_run(o, replies);
    lemma_finish_is_the_end(o, t);
    lemma_image_facts(o, replies);
    lemma_content_facts(o, replies);
    assert(past(t, 1));
}

/// The image is taken to be for a single-board computer, a Raspberry Pi, exactly where it could
/// be mounted and was found to hold `boot/bootcode.bin`.
pub proof fn law_board_is_told_by_its_file(o: OptionsView, replies: Seq<ReplyView>)
    requires
        past(InstallView::start(o).run(replies), 27),
    ensures
        ({
            let s = InstallView::start(o);
            let t = s.run(replies);
            match t.root {
                Some(dir) => {
                    &&& told(s, replies, open_image(o.image), ReplyView::Text(Ok(dir)))
                    &&& told(
                        s,
                        replies,
                        ActionView::Exists(joined_path(dir, "boot/bootcode.bin"@)),
                        ReplyView::Answer(t.sbc is Some),
                    )
                },
                None => image_stayed_shut(s, replies, o.image) && t.sbc is None,
            }
        }),
        ({
            let t = InstallView::start(o).run(replies);
            t.board() == if t.sbc is Some {
                Some("Raspberry Pi"@)
            } else {
                None
            }
        }),
{
    lemma_image_facts(o, replies);
}

/// The boot loaders are installed, whatever the size of the image: for the chosen disk to be
/// set up for BIOS exactly where no single-board computer was found and the disk was
/// partitioned with an MBR label, that is, where it has 2 TiB at most and sectors of 512 bytes.
/// All that the procedure was told, the installation was told.
pub proof fn law_bios_follows_the_label(o: OptionsView, replies: Seq<ReplyView>) -> (part: Seq<
    ReplyView,
>)
    requires
        past(InstallView::start(o).run(replies), 13),
    ensures
        ({
            let s = InstallView::start(o);
            let t = s.run(replies);
            let bios_disk = if t.sbc is None && t.bios {
                Some(o.disk)
            } else {
                None
            };
            let l = LoaderView::start(t.root, t.boot, bios_disk, t.sbc is None);
            &&& t.loaders == Some(l.run(part))
            &&& loaders_were_told(s, replies, l, part)
            &&& o.superfloppy ==> !t.bios
            &&& !o.superfloppy ==> bios_by_attributes(s, replies, o.disk, t.bios)
            &&& !o.superfloppy ==> exists|gib: nat| #[trigger]
                room_for(t.size, gib) && done(
                    s,
                    replies,
                    make_partitions(o.disk, gib, t.bios, t.bios && t.sbc is None),
                )
        }),
{
    let t = InstallView::start(o).run(replies);
    lemma_run(o, replies);
    lemma_image_facts(o, replies);
    lemma_disk_facts(o, replies);
    lemma_room(t.size);
    lemma_loaders_part(o, replies)
}

/// The installation was told that a file of that name is not there, or that
/// `grub-bios-setup` cannot be run.
pub open spec fn told_of_no_bios(s: InstallView, replies: Seq<ReplyView>) -> bool {
    ||| told(s, replies, ActionView::ProbeGrub, ReplyView::Answer(false))
    ||| exists|source: Seq<char>| #[trigger]
        told(
            s,
            replies,
            ActionView::Exists(joined_path(source, "boot.img"@)),
            ReplyView::Answer(false),
        )
    ||| exists|source: Seq<char>| #[trigger]
        told(
            s,
            replies,
            ActionView::Exists(joined_path(source, "core.img"@)),
            ReplyView::Answer(false),
        )
    ||| exists|source: Seq<char>| #[trigger]
        told(
            s,
            replies,
            ActionView::Exists(joined_path(source, "grub.cfg"@)),
            ReplyView::Answer(false),
        )
}

/// An installation that succeeds on a disk that is small enough for BIOS, with an image of
/// whatever size that is for no single-board computer, has run `grub-bios-setup` on the disk
/// with success, unless it was told that `boot.img`, `core.img` or `grub.cfg` is not there or
/// that `grub-bios-setup` cannot be run.
pub proof fn law_small_disks_start_by_bios(o: OptionsView, replies: Seq<ReplyView>)
    requires
        ({
            let s = InstallView::start(o);
            let t = s.run(replies);
            &&& t.request() == ActionView::Finish(Ok(()))
            &&& t.sbc is None
            &&& t.loaders matches Some(l) ==> l.names.len() <= usize::MAX
            &&& !o.superfloppy
            &&& forall|sectors: Option<Seq<char>>, block: Option<Seq<char>>| #[trigger]
                told(
                    s,
                    replies,
                    ActionView::DiskAttributes(file_name_or_empty(o.disk)),
                    ReplyView::Attributes(sectors, block),
                ) ==> disk_bytes(sectors) <= 2 * 1024 * 1024 * 1024 * 1024 && sector_length(block)
                    == 512
            &&& !told_of_no_bios(s, replies)
        }),
    ensures
        ({
            let s = InstallView::start(o);
            let t = s.run(replies);
            &&& told(s, replies, open_boot(partition(o.disk, 1)), ReplyView::Text(Ok(t.boot)))
            &&& done(
                s,
                replies,
                ActionView::Run(
                    "grub-bios-setup"@,
                    seq!["-d"@, joined_path(t.boot, "boot/grub"@), o.disk],
                ),
            )
        }),
{
    let s = InstallView::start(o);
    let t = s.run(replies);
    lemma_run(o, replies);
    lemma_finish_is_the_end(o, t);
    lemma_content_facts(o, replies);
    assert(past(t, 1));
    let part = law_bios_follows_the_label(o, replies);
    lemma_small_disk(s, replies, o.disk, t.bios);
    let done_part = lemma_loaders_part(o, replies);
    let l = LoaderView::start(t.root, t.boot, Some(o.disk), true);
    assert(l.run(part) == t.loaders->0);
    lemma_loader_finish(t.loaders->0);
    lemma_bios_can_be(s, replies, l, part);
    law_bios_disk_is_set_up(t.root, t.boot, o.disk, true, part);
}

proof fn lemma_loader_finish(l: LoaderView)
    requires
        l.phase is Finished,
        l.result is Ok,
    ensures
        l.request() == ActionView::Finish(Ok(())),
{
    if let Ok(x) = l.result {
        assert(x == ());
    }
}

proof fn lemma_small_disk(s: InstallView, replies: Seq<ReplyView>, disk: Seq<char>, bios: bool)
    requires
        bios_by_attributes(s, replies, disk, bios),
        forall|sectors: Option<Seq<char>>, block: Option<Seq<char>>| #[trigger]
            told(
                s,
                replies,
                ActionView::DiskAttributes(file_name_or_empty(disk)),
                ReplyView::Attributes(sectors, block),
            ) ==> disk_bytes(sectors) <= 2 * 1024 * 1024 * 1024 * 1024 && sector_length(block)
                == 512,
    ensures
        bios,
{
}

proof fn lemma_bios_can_be(
    s: InstallView,
    replies: Seq<ReplyView>,
    l: LoaderView,
    part: Seq<ReplyView>,
)
    requires
        loaders_were_told(s, replies, l, part),
        !told_of_no_bios(s, replies),
    ensures
        forall|source: Seq<char>| !#[trigger] bios_cannot_be(l, part, source),
{
    assert forall|source: Seq<char>| !#[trigger] bios_cannot_be(l, part, source) by {
        let no = ReplyView::Answer(false);
        let img = ActionView::Exists(joined_path(source, "boot.img"@));
        let core = ActionView::Exists(joined_path(source, "core.img"@));
        let cfg = ActionView::Exists(joined_path(source, "grub.cfg"@));
        assert(!told(s, replies, img, no));
        assert(!told(s, replies, core, no));
        assert(!told(s, replies, cfg, no));
        assert(!told(s, replies, ActionView::ProbeGrub, no));
    }
}

/// The copying of boot files as it is to start.
pub open spec fn files_to_bring(t: InstallView) -> FilesView {
    FilesView::start(t.root->0, t.boot)
}

/// What the copying of boot files was told is a part of what the installation was told.
pub open spec fn files_were_told(
    s: InstallView,
    replies: Seq<ReplyView>,
    f: FilesView,
    part: Seq<ReplyView>,
) -> bool {
    forall|a: ActionView, r: ReplyView| #[trigger]
        files_told(f, part, a, r) ==> told(s, replies, a, r)
}

#[verifier::rlimit(60)]
proof fn lemma_step_files(s: InstallView, o: OptionsView, r: ReplyView)
    requires
        consistent(s, o),
        sound(s),
    ensures
        ({
            let t = s.advance(r);
            &&& past(t, 14) && !past(s, 14) && t.sbc is Some ==> t.phase is BootFiles && t.files
                == Some(files_to_bring(t))
            &&& past(t, 14) && past(s, 14) ==> files_to_bring(t) == files_to_bring(s) && t.sbc
                == s.sbc
            &&& past(t, 14) && s.phase is BootFiles ==> t.files == Some((s.files->0).advance(r))
                && s.request() == (s.files->0).request() && s.files is Some
            &&& past(t, 13) && past(s, 13) ==> t.files == s.files
            &&& past(s, 14) && !past(s, 13) ==> s.phase is BootFiles
            &&& past(t, 13) && !past(s, 13) && t.sbc is Some ==> past(s, 14) && (t.files matches Some(
                f,
            ) && f.phase is Finished && f.result is Ok)
        }),
{
}

proof fn lemma_files_part(o: OptionsView, replies: Seq<ReplyView>) -> (part: Seq<ReplyView>)
    ensures
        ({
            let s = InstallView::start(o);
            let t = s.run(replies);
            &&& past(t, 14) && t.sbc is Some ==> t.files == Some(files_to_bring(t).run(part))
                && files_were_told(s, replies, files_to_bring(t), part)
            &&& past(t, 13) && t.sbc is Some ==> (t.files matches Some(f) && f.phase is Finished
                && f.result is Ok)
        }),
    decreases replies.len(),
{
    let s = InstallView::start(o);
    let t = s.run(replies);
    if replies.len() == 0 {
        Seq::empty()
    } else {
        let less = replies.drop_last();
        let u = s.run(less);
        let r = replies.last();
        let before = lemma_files_part(o, less);
        lemma_run(o, less);
        lemma_image_facts(o, less);
        lemma_step_files(u, o, r);
        if !(past(t, 14) && t.sbc is Some) {
            before
        } else if !past(u, 14) {
            assert(files_to_bring(t).run(Seq::empty()) == files_to_bring(t));
            Seq::empty()
        } else if u.phase is BootFiles {
            let f = files_to_bring(u);
            let part = before.push(r);
            assert(part.drop_last() =~= before);
            assert(f.run(part) == f.run(before).advance(r));
            assert forall|a: ActionView, x: ReplyView| #[trigger]
                files_told(f, part, a, x) implies told(s, replies, a, x) by {
                if files_told(f, before, a, x) {
                    assert(told(s, less, a, x));
                }
            }
            part
        } else {
            let f = files_to_bring(u);
            assert forall|a: ActionView, x: ReplyView| #[trigger]
                files_told(f, before, a, x) implies told(s, replies, a, x) by {
                assert(told(s, less, a, x));
            }
            before
        }
    }
}

/// Where the image is for a single-board computer, its boot files have been brought to the boot
/// device, with success, before boot loaders are installed. All that the procedure was told,
/// the installation was told.
pub proof fn law_board_gets_its_boot_files(o: OptionsView, replies: Seq<ReplyView>) -> (part: Seq<
    ReplyView,
>)
    requires
        past(InstallView::start(o).run(replies), 13),
        InstallView::start(o).run(replies).sbc is Some,
    ensures
        ({
            let s = InstallView::start(o);
            let t = s.run(replies);
            &&& t.root matches Some(root) && {
                let f = FilesView::start(root, t.boot);
                &&& f.run(part).request() == ActionView::Finish(Ok(()))
                &&& files_were_told(s, replies, f, part)
                &&& told(s, replies, open_image(o.image), ReplyView::Text(Ok(root)))
            }
            &&& told(s, replies, open_boot(boot_device_of(o)), ReplyView::Text(Ok(t.boot)))
        }),
{
    let t = InstallView::start(o).run(replies);
    lemma_run(o, replies);
    lemma_image_facts(o, replies);
    lemma_content_facts(o, replies);
    let part = lemma_files_part(o, replies);
    lemma_files_finish(t.files->0);
    part
}

proof fn lemma_files_finish(f: FilesView)
    requires
        f.phase is Finished,
        f.result is Ok,
    ensures
        f.request() == ActionView::Finish(Ok(())),
{
    if let Ok(x) = f.result {
        assert(x == ());
    }
}

/// The programs that an installation runs.
pub open spec fn is_to_be_run(o: OptionsView, t: InstallView, a: ActionView) -> bool {
    ||| o.superfloppy && a == make_fat32(o.disk, true)
    ||| !o.superfloppy && exists|gib: nat| #[trigger]
        room_for(t.size, gib) && a == make_partitions(o.disk, gib, t.bios, t.bios && t.sbc is None)
    ||| !o.superfloppy && a == ActionView::Run("udevadm"@, seq!["settle"@])
    ||| !o.superfloppy && a == make_fat32(partition(o.disk, 1), false)
    ||| !o.superfloppy && a == make_btrfs(partition(o.disk, 2), t.uuid)
    ||| !o.superfloppy && t.bios && t.sbc is None && a == ActionView::Run(
        "grub-bios-setup"@,
        seq!["-d"@, joined_path(t.boot, "boot/grub"@), o.disk],
    )
    ||| a == ActionView::Run("sync"@, Seq::empty())
}

#[verifier::rlimit(60)]
proof fn lemma_nothing_else(s: InstallView, o: OptionsView)
    requires
        consistent(s, o),
        sound(s),
        s.phase is Loaders ==> (s.loaders matches Some(l) && l.boot == s.boot && l.bios_disk == (
        if s.sbc is None && s.bios {
            Some(s.disk)
        } else {
            None
        })),
    ensures
        match s.request() {
            ActionView::Run(_, _) => is_to_be_run(o, s, s.request()),
            ActionView::Mount { .. } => s.request() == open_image(o.image) || s.request()
                == open_boot(boot_device_of(o)) || (!goes_to_boot(s.size) && s.request()
                == open_data(partition(o.disk, 2))),
            ActionView::CopyImage { from, to, size } => from == o.image && size == s.size && to
                == image_goes_to(s.boot, s.data, s.size),
            ActionView::WriteText { path, text } => s.phase is BootFiles || (s.config == Some(text)
                && path == joined_path(s.boot, "system.ini"@)) || (s.config is None && s.phase
                is Config),
            ActionView::FileSize(path) => path == o.image,
            ActionView::ReadHead(path) => path == o.image,
            ActionView::CopyFile { .. }
            | ActionView::CreateDir(_)
            | ActionView::ListDir(_)
            | ActionView::ReadText(_)
            | ActionView::RemoveFile(_) => s.phase is BootFiles || s.phase is Loaders,
            _ => true,
        },
{
    lemma_room(s.size);
}

/// An installation does nothing else: it runs no other program, with no other arguments; it
/// mounts nothing but the image, the boot device and, for an image of 4 GiB or more, the data
/// partition; it copies nothing but the image, but for boot files and boot loaders; and it
/// writes the settings only where there are any.
pub proof fn law_nothing_else_is_done(o: OptionsView, replies: Seq<ReplyView>)
    ensures
        ({
            let t = InstallView::start(o).run(replies);
            match t.request() {
                ActionView::Run(_, _) => is_to_be_run(o, t, t.request()),
                ActionView::Mount { .. } => t.request() == open_image(o.image) || t.request()
                    == open_boot(boot_device_of(o)) || (!goes_to_boot(t.size) && t.request()
                    == open_data(partition(o.disk, 2))),
                ActionView::CopyImage { from, to, size } => from == o.image && size == t.size && to
                    == image_goes_to(t.boot, t.data, t.size),
                ActionView::WriteText { path, text } => (t.sbc is Some && t.phase is BootFiles) || (
                ini_file(o) == Some(text) && path == joined_path(t.boot, "system.ini"@)),
                ActionView::FileSize(path) => path == o.image,
                ActionView::ReadHead(path) => path == o.image,
                ActionView::CopyFile { .. }
                | ActionView::CreateDir(_)
                | ActionView::ListDir(_)
                | ActionView::ReadText(_)
                | ActionView::RemoveFile(_) => t.phase is BootFiles || t.phase is Loaders,
                _ => true,
            }
        }),
{
    let t = InstallView::start(o).run(replies);
    lemma_run(o, replies);
    lemma_image_facts(o, replies);
    lemma_content_facts(o, replies);
    lemma_where_files(o, replies);
    if t.phase is Loaders {
        assert(past(t, 13));
        let part = lemma_loaders_part(o, replies);
        lemma_task_stays(loaders_to_install(t), part);
    }
    lemma_nothing_else(t, o);
}

#[verifier::rlimit(60)]
proof fn lemma_files_step(s: InstallView, o: OptionsView, r: ReplyView)
    requires
        consistent(s, o),
        s.phase is BootFiles ==> s.sbc is Some,
        s.phase is Config ==> s.config is Some,
    ensures
        s.advance(r).phase is BootFiles ==> s.advance(r).sbc is Some,
        s.advance(r).phase is Config ==> s.advance(r).config is Some,
{
}

proof fn lemma_where_files(o: OptionsView, replies: Seq<ReplyView>)
    ensures
        InstallView::start(o).run(replies).phase is BootFiles ==> InstallView::start(o).run(
            replies,
        ).sbc is Some,
        InstallView::start(o).run(replies).phase is Config ==> InstallView::start(o).run(
            replies,
        ).config is Some,
    decreases replies.len(),
{
    if replies.len() > 0 {
        let less = replies.drop_last();
        lemma_where_files(o, less);
        lemma_run(o, less);
        lemma_files_step(InstallView::start(o).run(less), o, replies.last());
    }
}

/// When an image has been copied to the data partition, the partition is unmounted at once.
pub proof fn law_data_partition_is_left_at_once(s: InstallView, o: OptionsView)
    requires
        consistent(s, o),
        s.request() is CopyImage,
    ensures
        !goes_to_boot(s.size) ==> s.advance(ReplyView::Outcome(Ok(()))).request()
            == ActionView::Unmount(s.mounts.last()),
        goes_to_boot(s.size) ==> s.advance(ReplyView::Outcome(Ok(()))).request() is Report,
{
}

} // verus!
